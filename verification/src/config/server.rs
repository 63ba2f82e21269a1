//! Upstream servers and listeners as a configuration line declares them.

use crate::config::rule::opt_bytes_view;
use crate::config::setting::{settings_view, Setting, SettingSpec};
use crate::dns::{host_port_spec, parse_host_port, DnsUrl, DnsUrlSpec, Protocol};
use crate::ip::{parse_v4, parse_v4_spec, parse_v6, parse_v6_spec, IpAddr, IpNet};
use crate::text::{rows, STAR};
use vstd::prelude::*;

verus! {

/// An upstream server.
#[derive(Debug, PartialEq, Eq, Hash)]
pub struct NameServerInfo {
    /// Where the server is and how it is spoken to.
    pub url: DnsUrl,
    /// The groups that the server belongs to, in the order given.
    pub group: Vec<Vec<u8>>,
    /// The server is left out of the default group.
    pub exclude_default_group: bool,
    /// Answers of the server are held against the blacklist.
    pub blacklist_ip: bool,
    /// Answers of the server are held against the whitelist.
    pub whitelist_ip: bool,
    /// The client subnet sent to the server.
    pub subnet: Option<IpNet>,
}

/// The mathematical content of a `NameServerInfo`.
pub struct ServerSpec {
    pub url: DnsUrlSpec,
    pub group: Seq<Seq<u8>>,
    pub exclude_default_group: bool,
    pub blacklist_ip: bool,
    pub whitelist_ip: bool,
    pub subnet: Option<IpNet>,
}

impl View for NameServerInfo {
    type V = ServerSpec;

    open spec fn view(&self) -> ServerSpec {
        ServerSpec {
            url: self.url@,
            group: rows(self.group@),
            exclude_default_group: self.exclude_default_group,
            blacklist_ip: self.blacklist_ip,
            whitelist_ip: self.whitelist_ip,
            subnet: self.subnet,
        }
    }
}

impl ServerSpec {
    /// The server at `url` with no option set: it belongs to the default
    /// group only.
    pub open spec fn plain(url: DnsUrlSpec) -> ServerSpec {
        ServerSpec {
            url,
            group: Seq::empty(),
            exclude_default_group: false,
            blacklist_ip: false,
            whitelist_ip: false,
            subnet: None,
        }
    }

    /// The server with one more setting applied; `None` for a setting that
    /// is no option of a server. Each group named is one more group of the
    /// server.
    pub open spec fn with(self, s: SettingSpec) -> Option<ServerSpec> {
        match s {
            SettingSpec::Group(v) => Some(ServerSpec { group: self.group.push(v), ..self }),
            SettingSpec::ExcludeDefaultGroup => Some(
                ServerSpec { exclude_default_group: true, ..self },
            ),
            SettingSpec::BlacklistIp => Some(ServerSpec { blacklist_ip: true, ..self }),
            SettingSpec::WhitelistIp => Some(ServerSpec { whitelist_ip: true, ..self }),
            SettingSpec::Subnet(v) => Some(ServerSpec { subnet: Some(v), ..self }),
            _ => None,
        }
    }

    /// Whether the server is a member of the group `name`: it names the
    /// group, or the group is the default one and the server is not left
    /// out of it.
    pub open spec fn in_group(self, name: Seq<u8>, default_group: Seq<u8>) -> bool {
        self.group.contains(name) || (name == default_group && !self.exclude_default_group)
    }
}

/// The server that a list of settings makes of `server`.
pub open spec fn server_from(server: ServerSpec, ss: Seq<SettingSpec>) -> Option<ServerSpec>
    decreases ss.len(),
{
    if ss.len() == 0 {
        Some(server)
    } else {
        match server.with(ss[0]) {
            Some(r) => server_from(r, ss.skip(1)),
            None => None,
        }
    }
}

impl NameServerInfo {
    /// The server at `url` with no option set.
    pub fn from_url(url: DnsUrl) -> (out: NameServerInfo)
        ensures
            out@ == ServerSpec::plain(url@),
    {
        let out = NameServerInfo {
            url,
            group: Vec::new(),
            exclude_default_group: false,
            blacklist_ip: false,
            whitelist_ip: false,
            subnet: None,
        };
        assert(rows(out.group@) =~= Seq::<Seq<u8>>::empty());
        out
    }

    /// The server at `url` that a list of settings makes.
    pub fn from_settings(url: DnsUrl, settings: &Vec<Setting>) -> (r: Option<NameServerInfo>)
        ensures
            r.is_some() == server_from(ServerSpec::plain(url@), settings_view(settings@)).is_some(),
            r matches Some(s) ==> server_from(ServerSpec::plain(url@), settings_view(settings@))
                == Some(s@),
    {
        let mut server = NameServerInfo::from_url(url);
        let mut i: usize = 0;
        let ghost all = settings_view(settings@);
        let ghost start = ServerSpec::plain(url@);
        assert(all.skip(0) =~= all);
        while i < settings.len()
            invariant
                i <= settings.len(),
                all == settings_view(settings@),
                start == ServerSpec::plain(url@),
                server_from(start, all) == server_from(server@, all.skip(i as int)),
            decreases settings.len() - i,
        {
            proof {
                assert(all.skip(i as int)[0] == settings@[i as int]@);
                assert(all.skip(i as int).skip(1) =~= all.skip(i + 1));
            }
            let ghost before = server@;
            match &settings[i] {
                Setting::Group(v) => {
                    server.group.push(vstd::slice::slice_to_vec(v.as_slice()));
                    assert(rows(server.group@) =~= before.group.push(v@));
                },
                Setting::ExcludeDefaultGroup => {
                    server.exclude_default_group = true;
                },
                Setting::BlacklistIp => {
                    server.blacklist_ip = true;
                },
                Setting::WhitelistIp => {
                    server.whitelist_ip = true;
                },
                Setting::Subnet(v) => {
                    server.subnet = Some(*v);
                },
                _ => {
                    return None;
                },
            }
            i += 1;
        }
        Some(server)
    }

    /// Whether the server is a member of the group `name`, where
    /// `default_group` is the name of the default group.
    pub fn in_group(&self, name: &[u8], default_group: &[u8]) -> (r: bool)
        ensures
            r == self@.in_group(name@, default_group@),
    {
        let mut i: usize = 0;
        while i < self.group.len()
            invariant
                i <= self.group.len(),
                forall|k: int| 0 <= k < i ==> rows(self.group@)[k] != name@,
            decreases self.group.len() - i,
        {
            if crate::text::bytes_eq(self.group[i].as_slice(), name) {
                assert(rows(self.group@)[i as int] == name@);
                return true;
            }
            i += 1;
        }
        assert(!rows(self.group@).contains(name@));
        crate::text::bytes_eq(name, default_group) && !self.exclude_default_group
    }
}

/// An address on which queries are taken.
#[derive(Debug, PartialEq, Eq, Hash)]
pub struct ListenerConfig {
    /// How clients speak to the listener.
    pub proto: Protocol,
    /// The address listened on; `None` for every address of the host.
    pub addr: Option<IpAddr>,
    pub port: u16,
    /// The group whose rules and servers serve the clients of the listener.
    pub group: Option<Vec<u8>>,
    /// Domain rules are not applied.
    pub no_rule: bool,
    /// Answers are not kept in the cache.
    pub no_cache: bool,
}

/// The mathematical content of a `ListenerConfig`.
pub struct ListenerSpec {
    pub proto: Protocol,
    pub addr: Option<IpAddr>,
    pub port: u16,
    pub group: Option<Seq<u8>>,
    pub no_rule: bool,
    pub no_cache: bool,
}

impl View for ListenerConfig {
    type V = ListenerSpec;

    open spec fn view(&self) -> ListenerSpec {
        ListenerSpec {
            proto: self.proto,
            addr: self.addr,
            port: self.port,
            group: opt_bytes_view(self.group),
            no_rule: self.no_rule,
            no_cache: self.no_cache,
        }
    }
}

/// The address and the port that a word names for a listener: an IPv6
/// address in square brackets, an IPv4 address, or nothing or `*` for every
/// address; then a colon and a port, or the port of the transport.
pub open spec fn parse_bind_spec(w: Seq<u8>, proto: Protocol) -> Option<(Option<IpAddr>, u16)> {
    match host_port_spec(w) {
        Some((bracketed, h, port)) => {
            let port = match port {
                Some(p) => p,
                None => proto.spec_default_port(),
            };
            if bracketed {
                match parse_v6_spec(h) {
                    Some(v) => Some((Some(IpAddr::V6(v)), port)),
                    None => None,
                }
            } else if h.len() == 0 || h == seq![STAR] {
                Some((None, port))
            } else {
                match parse_v4_spec(h) {
                    Some(v) => Some((Some(IpAddr::V4(v)), port)),
                    None => None,
                }
            }
        },
        None => None,
    }
}

impl ListenerSpec {
    /// The listener on the address and port with no option set.
    pub open spec fn plain(proto: Protocol, addr: Option<IpAddr>, port: u16) -> ListenerSpec {
        ListenerSpec { proto, addr, port, group: None, no_rule: false, no_cache: false }
    }

    /// The listener with one more setting applied; `None` for a setting that
    /// is no option of a listener.
    pub open spec fn with(self, s: SettingSpec) -> Option<ListenerSpec> {
        match s {
            SettingSpec::Group(v) => Some(ListenerSpec { group: Some(v), ..self }),
            SettingSpec::NoRule => Some(ListenerSpec { no_rule: true, ..self }),
            SettingSpec::NoCache => Some(ListenerSpec { no_cache: true, ..self }),
            _ => None,
        }
    }
}

/// The listener that a list of settings makes of `listener`.
pub open spec fn listener_from(listener: ListenerSpec, ss: Seq<SettingSpec>) -> Option<ListenerSpec>
    decreases ss.len(),
{
    if ss.len() == 0 {
        Some(listener)
    } else {
        match listener.with(ss[0]) {
            Some(r) => listener_from(r, ss.skip(1)),
            None => None,
        }
    }
}

/// Reads the address and the port of a listener.
pub fn parse_bind(word: &[u8], proto: Protocol) -> (r: Option<(Option<IpAddr>, u16)>)
    ensures
        r == parse_bind_spec(word@, proto),
{
    match parse_host_port(word) {
        Some((bracketed, from, to, port)) => {
            let h = vstd::slice::slice_subrange(word, from, to);
            let port = match port {
                Some(p) => p,
                None => proto.default_port(),
            };
            if bracketed {
                match parse_v6(h) {
                    Some(v) => Some((Some(IpAddr::V6(v)), port)),
                    None => None,
                }
            } else if h.len() == 0 {
                Some((None, port))
            } else if h.len() == 1 && h[0] == STAR {
                assert(h@ =~= seq![STAR]);
                Some((None, port))
            } else {
                assert(h@ != seq![STAR]) by {
                    if h@ == seq![STAR] {
                        assert(h@.len() == 1 && h@[0] == STAR);
                    }
                }
                match parse_v4(h) {
                    Some(v) => Some((Some(IpAddr::V4(v)), port)),
                    None => None,
                }
            }
        },
        None => None,
    }
}

impl ListenerConfig {
    /// The listener on the address and port that a list of settings makes.
    pub fn from_settings(
        proto: Protocol,
        addr: Option<IpAddr>,
        port: u16,
        settings: &Vec<Setting>,
    ) -> (r: Option<ListenerConfig>)
        ensures
            r.is_some() == listener_from(
                ListenerSpec::plain(proto, addr, port),
                settings_view(settings@),
            ).is_some(),
            r matches Some(l) ==> l.proto == proto && listener_from(
                ListenerSpec::plain(proto, addr, port),
                settings_view(settings@),
            ) == Some(l@),
    {
        let mut listener = ListenerConfig {
            proto,
            addr,
            port,
            group: None,
            no_rule: false,
            no_cache: false,
        };
        let mut i: usize = 0;
        let ghost all = settings_view(settings@);
        let ghost start = ListenerSpec::plain(proto, addr, port);
        assert(all.skip(0) =~= all);
        while i < settings.len()
            invariant
                i <= settings.len(),
                all == settings_view(settings@),
                start == ListenerSpec::plain(proto, addr, port),
                listener.proto == proto,
                listener_from(start, all) == listener_from(listener@, all.skip(i as int)),
            decreases settings.len() - i,
        {
            proof {
                assert(all.skip(i as int)[0] == settings@[i as int]@);
                assert(all.skip(i as int).skip(1) =~= all.skip(i + 1));
            }
            match &settings[i] {
                Setting::Group(v) => {
                    listener.group = Some(vstd::slice::slice_to_vec(v.as_slice()));
                },
                Setting::NoRule => {
                    listener.no_rule = true;
                },
                Setting::NoCache => {
                    listener.no_cache = true;
                },
                _ => {
                    return None;
                },
            }
            i += 1;
        }
        Some(listener)
    }
}

} // verus!
