//! The configuration as the resolver runs on it, and what the client for
//! the upstream servers is made from.

use crate::config::server::{NameServerInfo, ServerSpec};
use crate::dns::{DnsUrl, DnsUrlSpec, Host, HostSpec, Protocol};
use crate::ip::{IpAddr, IpNet};
use crate::text::{keyword, kw, rows};
use vstd::prelude::*;

verus! {

/// The IPv4 address that multicast queries are sent to: 224.0.0.251.
pub const MDNS_IPV4: u32 = 0xE00000FB;

/// The IPv6 address that multicast queries are sent to: ff02::fb.
pub const MDNS_IPV6: u128 = 0xFF02_0000_0000_0000_0000_0000_0000_00FB;

/// A proxy through which upstream servers can be reached.
#[derive(Debug, PartialEq, Eq, Hash)]
pub struct ProxyConfig {
    /// The name by which servers refer to the proxy.
    pub name: Vec<u8>,
    /// Where the proxy is, as an address with a scheme.
    pub url: Vec<u8>,
}

/// The mathematical content of a `ProxyConfig`.
pub struct ProxySpec {
    pub name: Seq<u8>,
    pub url: Seq<u8>,
}

impl View for ProxyConfig {
    type V = ProxySpec;

    open spec fn view(&self) -> ProxySpec {
        ProxySpec { name: self.name@, url: self.url@ }
    }
}

impl Clone for ProxyConfig {
    fn clone(&self) -> (out: Self)
        ensures
            out@ == self@,
    {
        ProxyConfig {
            name: vstd::slice::slice_to_vec(self.name.as_slice()),
            url: vstd::slice::slice_to_vec(self.url.as_slice()),
        }
    }
}

/// The views of a list of proxies.
pub open spec fn proxies_view(v: Seq<ProxyConfig>) -> Seq<ProxySpec> {
    Seq::new(v.len(), |i: int| v[i]@)
}

/// A copy of a list of proxies.
pub fn clone_proxies(proxies: &Vec<ProxyConfig>) -> (out: Vec<ProxyConfig>)
    ensures
        proxies_view(out@) == proxies_view(proxies@),
{
    let mut out: Vec<ProxyConfig> = Vec::new();
    let mut i: usize = 0;
    while i < proxies.len()
        invariant
            i <= proxies.len(),
            out@.len() == i,
            forall|k: int| 0 <= k < i ==> out@[k]@ == proxies@[k]@,
        decreases proxies.len() - i,
    {
        out.push(proxies[i].clone());
        i += 1;
    }
    assert(proxies_view(out@) =~= proxies_view(proxies@));
    out
}

/// The bytes of a text that may be left out.
pub open spec fn text_view(t: Option<Vec<u8>>) -> Option<Seq<u8>> {
    match t {
        Some(v) => Some(v@),
        None => None,
    }
}

/// A copy of a text that may be left out.
pub fn clone_text(t: &Option<Vec<u8>>) -> (out: Option<Vec<u8>>)
    ensures
        text_view(out) == text_view(*t),
{
    match t {
        Some(v) => Some(vstd::slice::slice_to_vec(v.as_slice())),
        None => None,
    }
}

/// The configuration as the resolver runs on it.
#[derive(Debug)]
pub struct RuntimeConfig {
    /// The upstream servers, in the order in which they were configured.
    pub servers: Vec<NameServerInfo>,
    /// The directory of trusted certificates.
    pub ca_path: Option<Vec<u8>>,
    /// The file of trusted certificates.
    pub ca_file: Option<Vec<u8>>,
    /// Whether names are also looked up by multicast.
    pub mdns_lookup: bool,
    /// The client subnet sent to upstream servers.
    pub edns_client_subnet: Option<IpNet>,
    /// The user that the resolver runs as.
    pub user: Option<Vec<u8>>,
    /// The proxies through which upstream servers can be reached, in the
    /// order in which they were configured.
    pub proxies: Vec<ProxyConfig>,
}

/// What the client for the upstream servers is made from.
#[derive(Debug)]
pub struct DnsClientPlan {
    /// The servers, those for multicast queries first.
    pub servers: Vec<NameServerInfo>,
    /// The directory of trusted certificates.
    pub ca_path: Option<Vec<u8>>,
    /// The file of trusted certificates.
    pub ca_file: Option<Vec<u8>>,
    /// The client subnet sent to the servers.
    pub client_subnet: Option<IpNet>,
    /// The proxies through which the servers can be reached.
    pub proxies: Vec<ProxyConfig>,
}

/// The views of a list of servers.
pub open spec fn servers_view(v: Seq<NameServerInfo>) -> Seq<ServerSpec> {
    Seq::new(v.len(), |i: int| v[i]@)
}

/// The server for multicast queries at `ip`: it is in the group `mdns` and
/// in no other, not even the default one.
pub open spec fn mdns_server(ip: IpAddr) -> ServerSpec {
    ServerSpec {
        url: DnsUrlSpec { proto: Protocol::Mdns, host: HostSpec::Ip(ip), port: None, path: None },
        group: seq![kw("mdns")],
        exclude_default_group: true,
        blacklist_ip: false,
        whitelist_ip: false,
        subnet: None,
    }
}

/// The servers for multicast queries: one at the IPv4 and one at the IPv6
/// address for such queries.
pub open spec fn mdns_servers() -> Seq<ServerSpec> {
    seq![mdns_server(IpAddr::V4(MDNS_IPV4)), mdns_server(IpAddr::V6(MDNS_IPV6))]
}

/// A copy of a server.
pub fn clone_server(s: &NameServerInfo) -> (out: NameServerInfo)
    ensures
        out@ == s@,
{
    let mut group: Vec<Vec<u8>> = Vec::new();
    let mut i: usize = 0;
    while i < s.group.len()
        invariant
            i <= s.group.len(),
            group@.len() == i,
            forall|k: int| 0 <= k < i ==> group@[k]@ == s.group@[k]@,
        decreases s.group.len() - i,
    {
        group.push(vstd::slice::slice_to_vec(s.group[i].as_slice()));
        i += 1;
    }
    assert(rows(group@) =~= rows(s.group@));
    NameServerInfo {
        url: s.url.clone(),
        group,
        exclude_default_group: s.exclude_default_group,
        blacklist_ip: s.blacklist_ip,
        whitelist_ip: s.whitelist_ip,
        subnet: s.subnet,
    }
}

/// The server for multicast queries at `ip`.
fn make_mdns_server(ip: IpAddr) -> (out: NameServerInfo)
    ensures
        out@ == mdns_server(ip),
{
    let mut group: Vec<Vec<u8>> = Vec::new();
    group.push(keyword("mdns"));
    assert(rows(group@) =~= seq![kw("mdns")]);
    NameServerInfo {
        url: DnsUrl { proto: Protocol::Mdns, host: Host::Ip(ip), port: None, path: None },
        group,
        exclude_default_group: true,
        blacklist_ip: false,
        whitelist_ip: false,
        subnet: None,
    }
}

impl RuntimeConfig {
    /// What the client for the upstream servers is made from: the servers
    /// for multicast queries, where those are looked up, and then the
    /// configured servers in their order; the directory and the file of
    /// trusted certificates; the client subnet; and the proxies.
    pub fn create_dns_client(&self) -> (plan: DnsClientPlan)
        ensures
            servers_view(plan.servers@) == if self.mdns_lookup {
                mdns_servers() + servers_view(self.servers@)
            } else {
                servers_view(self.servers@)
            },
            text_view(plan.ca_path) == text_view(self.ca_path),
            text_view(plan.ca_file) == text_view(self.ca_file),
            plan.client_subnet == self.edns_client_subnet,
            proxies_view(plan.proxies@) == proxies_view(self.proxies@),
    {
        let mut servers: Vec<NameServerInfo> = Vec::new();
        if self.mdns_lookup {
            servers.push(make_mdns_server(IpAddr::V4(MDNS_IPV4)));
            servers.push(make_mdns_server(IpAddr::V6(MDNS_IPV6)));
            assert(servers_view(servers@) =~= mdns_servers());
        } else {
            assert(servers_view(servers@) =~= Seq::<ServerSpec>::empty());
        }
        let ghost head = servers_view(servers@);
        let mut i: usize = 0;
        while i < self.servers.len()
            invariant
                i <= self.servers.len(),
                servers_view(servers@) == head + servers_view(self.servers@).take(i as int),
            decreases self.servers.len() - i,
        {
            let ghost before = servers_view(servers@);
            servers.push(clone_server(&self.servers[i]));
            proof {
                let all = servers_view(self.servers@);
                assert(all.take(i + 1) =~= all.take(i as int).push(all[i as int]));
                assert(servers_view(servers@) =~= before.push(all[i as int]));
            }
            i += 1;
        }
        proof {
            let all = servers_view(self.servers@);
            assert(all.take(i as int) =~= all);
            if !self.mdns_lookup {
                assert(head + all =~= all);
            }
        }
        DnsClientPlan {
            servers,
            ca_path: clone_text(&self.ca_path),
            ca_file: clone_text(&self.ca_file),
            client_subnet: self.edns_client_subnet,
            proxies: clone_proxies(&self.proxies),
        }
    }
}

} // verus!
