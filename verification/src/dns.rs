//! Resolver-wide settings, upstream server addresses and the record that
//! stands for "no such data".

use crate::ip::{parse_v4, parse_v4_spec, parse_v6, parse_v6_spec, IpAddr, SocketAddr};
use crate::name::{is_name, parse_name_spec, Name};
use crate::text::{
    field_len, is_keyword, keyword, kw, lemma_field_len_bounds, lemma_kw, lowered, parse_number,
    parse_number_spec, rows, to_lowered, BRACKET_CLOSE, BRACKET_OPEN, COLON, SLASH,
};
use std::sync::Arc;
use vstd::prelude::*;
use vstd::string::StringSliceAdditionalSpecFns;

verus! {

/// Resolver-wide settings; an unset field falls back to its default.
#[derive(Debug, Default)]
pub struct SmartDnsConfig {
    /// Time to live, in seconds, given to records that carry none of their own.
    pub rr_ttl: Option<u64>,
    /// Largest number of entries the cache holds.
    pub cache_size: Option<usize>,
}

impl SmartDnsConfig {
    /// The record TTL in force: the configured value, or 300 seconds.
    pub open spec fn spec_rr_ttl(&self) -> u64 {
        match self.rr_ttl {
            Some(t) => t,
            None => 300,
        }
    }

    /// The cache capacity in force: the configured value, or 512 entries.
    pub open spec fn spec_cache_size(&self) -> usize {
        match self.cache_size {
            Some(n) => n,
            None => 512,
        }
    }

    /// The record TTL in force: the configured value, or 300 seconds.
    #[verifier::when_used_as_spec(spec_rr_ttl)]
    pub fn rr_ttl(&self) -> (ttl: u64)
        ensures
            ttl == self.spec_rr_ttl(),
    {
        match self.rr_ttl {
            Some(t) => t,
            None => 300,
        }
    }

    /// The cache capacity in force: the configured value, or 512 entries.
    #[verifier::when_used_as_spec(spec_cache_size)]
    pub fn cache_size(&self) -> (size: usize)
        ensures
            size == self.spec_cache_size(),
    {
        match self.cache_size {
            Some(n) => n,
            None => 512,
        }
    }
}

/// What every part of the resolver shares while it serves a request.
#[derive(Debug, Default)]
pub struct DnsContext {
    pub cfg: Arc<SmartDnsConfig>,
}

/// How an upstream server is spoken to.
#[derive(Debug, Clone, Copy, PartialEq, Eq, Hash, Structural)]
pub enum Protocol {
    Udp,
    Tcp,
    Tls,
    Https,
    Quic,
    Mdns,
}

impl Protocol {
    /// Whether the transport encrypts what it carries.
    pub open spec fn spec_is_encrypted(&self) -> bool {
        *self is Tls || *self is Https || *self is Quic
    }

    /// Whether the transport encrypts what it carries.
    #[verifier::when_used_as_spec(spec_is_encrypted)]
    pub fn is_encrypted(&self) -> (r: bool)
        ensures
            r == self.spec_is_encrypted(),
    {
        match self {
            Protocol::Tls | Protocol::Https | Protocol::Quic => true,
            Protocol::Udp | Protocol::Tcp | Protocol::Mdns => false,
        }
    }

    /// The port that the transport uses where a URL names none.
    pub open spec fn spec_default_port(&self) -> u16 {
        match self {
            Protocol::Udp | Protocol::Tcp => 53,
            Protocol::Tls | Protocol::Quic => 853,
            Protocol::Https => 443,
            Protocol::Mdns => 5353,
        }
    }

    /// The port that the transport uses where a URL names none.
    #[verifier::when_used_as_spec(spec_default_port)]
    pub fn default_port(&self) -> (port: u16)
        ensures
            port == self.spec_default_port(),
    {
        match self {
            Protocol::Udp | Protocol::Tcp => 53,
            Protocol::Tls | Protocol::Quic => 853,
            Protocol::Https => 443,
            Protocol::Mdns => 5353,
        }
    }
}

/// The host part of a server URL.
#[derive(Debug, PartialEq, Eq, Hash)]
pub enum Host {
    Domain(Name),
    Ip(IpAddr),
}

/// The address of an upstream server, as its URL gives it.
#[derive(Debug, PartialEq, Eq, Hash)]
pub struct DnsUrl {
    pub proto: Protocol,
    pub host: Host,
    pub port: Option<u16>,
    /// What follows the host and the port, from its first `/` on.
    pub path: Option<Vec<u8>>,
}

/// The mathematical content of a `Host`.
pub enum HostSpec {
    Domain(Seq<Seq<u8>>),
    Ip(IpAddr),
}

impl View for Host {
    type V = HostSpec;

    open spec fn view(&self) -> HostSpec {
        match self {
            Host::Domain(n) => HostSpec::Domain(n@),
            Host::Ip(ip) => HostSpec::Ip(*ip),
        }
    }
}

impl Clone for Host {
    fn clone(&self) -> (out: Self)
        ensures
            out@ == self@,
    {
        match self {
            Host::Domain(n) => Host::Domain(n.clone()),
            Host::Ip(ip) => Host::Ip(*ip),
        }
    }
}

/// The mathematical content of a `DnsUrl`.
pub struct DnsUrlSpec {
    pub proto: Protocol,
    pub host: HostSpec,
    pub port: Option<u16>,
    pub path: Option<Seq<u8>>,
}

impl View for DnsUrl {
    type V = DnsUrlSpec;

    open spec fn view(&self) -> DnsUrlSpec {
        DnsUrlSpec {
            proto: self.proto,
            host: self.host@,
            port: self.port,
            path: match self.path {
                Some(p) => Some(p@),
                None => None,
            },
        }
    }
}

impl Clone for DnsUrl {
    fn clone(&self) -> (out: Self)
        ensures
            out@ == self@,
    {
        DnsUrl {
            proto: self.proto,
            host: self.host.clone(),
            port: self.port,
            path: match &self.path {
                Some(p) => Some(vstd::slice::slice_to_vec(p.as_slice())),
                None => None,
            },
        }
    }
}

/// The transport that the scheme of a URL names, in any case of letters.
pub open spec fn parse_scheme_spec(s: Seq<u8>) -> Option<Protocol> {
    let t = lowered(s);
    if t == kw("udp") {
        Some(Protocol::Udp)
    } else if t == kw("tcp") {
        Some(Protocol::Tcp)
    } else if t == kw("tls") {
        Some(Protocol::Tls)
    } else if t == kw("https") {
        Some(Protocol::Https)
    } else if t == kw("quic") {
        Some(Protocol::Quic)
    } else if t == kw("mdns") {
        Some(Protocol::Mdns)
    } else {
        None
    }
}

/// Reads the scheme of a URL.
pub fn parse_scheme(word: &[u8]) -> (r: Option<Protocol>)
    ensures
        r == parse_scheme_spec(word@),
{
    let t = to_lowered(word);
    let t = t.as_slice();
    if is_keyword(t, "udp") {
        Some(Protocol::Udp)
    } else if is_keyword(t, "tcp") {
        Some(Protocol::Tcp)
    } else if is_keyword(t, "tls") {
        Some(Protocol::Tls)
    } else if is_keyword(t, "https") {
        Some(Protocol::Https)
    } else if is_keyword(t, "quic") {
        Some(Protocol::Quic)
    } else if is_keyword(t, "mdns") {
        Some(Protocol::Mdns)
    } else {
        None
    }
}

/// What the text of a host and a port spells: whether the host stands in
/// square brackets, the text of the host, and the port if one is given.
/// The port follows a colon and is a decimal number up to 65535.
pub open spec fn host_port_spec(a: Seq<u8>) -> Option<(bool, Seq<u8>, Option<u16>)> {
    if a.len() > 0 && a[0] == BRACKET_OPEN {
        let j = field_len(a, BRACKET_CLOSE);
        if j < a.len() {
            let after = a.skip(j + 1);
            if after.len() == 0 {
                Some((true, a.subrange(1, j), None))
            } else if after[0] == COLON {
                match parse_number_spec(after.skip(1), 10, 65535) {
                    Some(p) => Some((true, a.subrange(1, j), Some(p as u16))),
                    None => None,
                }
            } else {
                None
            }
        } else {
            None
        }
    } else {
        let c = field_len(a, COLON);
        if c < a.len() {
            match parse_number_spec(a.skip(c + 1), 10, 65535) {
                Some(p) => Some((false, a.take(c), Some(p as u16))),
                None => None,
            }
        } else {
            Some((false, a, None))
        }
    }
}

/// The host that a text names: an IPv6 address where it stood in square
/// brackets, otherwise an IPv4 address or a name other than the root.
pub open spec fn parse_host_spec(bracketed: bool, h: Seq<u8>) -> Option<HostSpec> {
    if bracketed {
        match parse_v6_spec(h) {
            Some(v) => Some(HostSpec::Ip(IpAddr::V6(v))),
            None => None,
        }
    } else {
        match parse_v4_spec(h) {
            Some(v) => Some(HostSpec::Ip(IpAddr::V4(v))),
            None => match parse_name_spec(h) {
                Some(n) => if n.len() > 0 {
                    Some(HostSpec::Domain(n))
                } else {
                    None
                },
                None => None,
            },
        }
    }
}

/// Length of the scheme of a URL: the bytes before its first `://`, where
/// the first colon of the text is followed by two slashes.
pub open spec fn scheme_len(s: Seq<u8>) -> Option<int> {
    let c = field_len(s, COLON);
    if 0 < c && c + 2 < s.len() && s[c + 1] == SLASH && s[c + 2] == SLASH {
        Some(c)
    } else {
        None
    }
}

/// The server address that a text spells: a scheme and `://`, or neither
/// and then the transport is `proto`; a host; a port or none; and a path
/// from the first `/` on, or none.
pub open spec fn parse_url_spec(s: Seq<u8>, proto: Protocol) -> Option<DnsUrlSpec> {
    let (proto, rest) = match scheme_len(s) {
        Some(c) => (parse_scheme_spec(s.take(c)), s.skip(c + 3)),
        None => (Some(proto), s),
    };
    let n = field_len(rest, SLASH);
    let path = if n < rest.len() {
        Some(rest.skip(n))
    } else {
        None
    };
    match (proto, host_port_spec(rest.take(n))) {
        (Some(proto), Some((bracketed, h, port))) => match parse_host_spec(bracketed, h) {
            Some(host) => Some(DnsUrlSpec { proto, host, port, path }),
            None => None,
        },
        _ => None,
    }
}

/// Index of the first `sep` in `s`, or the length of `s`.
pub fn find_byte(s: &[u8], sep: u8) -> (n: usize)
    ensures
        n == field_len(s@, sep),
        n <= s.len(),
{
    let mut n: usize = 0;
    assert(s@.skip(0) =~= s@);
    while n < s.len() && s[n] != sep
        invariant
            n <= s.len(),
            field_len(s@, sep) == n + field_len(s@.skip(n as int), sep),
        decreases s.len() - n,
    {
        proof {
            let t = s@.skip(n as int);
            assert(t[0] == s@[n as int]);
            assert(t.skip(1) =~= s@.skip(n + 1));
        }
        n += 1;
    }
    proof {
        let t = s@.skip(n as int);
        if n < s.len() {
            assert(t[0] == s@[n as int]);
        }
    }
    n
}

/// Reads a host and a port: whether the host stands in square brackets,
/// where in the text the host starts and ends, and the port.
pub fn parse_host_port(a: &[u8]) -> (r: Option<(bool, usize, usize, Option<u16>)>)
    ensures
        r.is_some() == host_port_spec(a@).is_some(),
        r matches Some((bracketed, from, to, port)) ==> from <= to <= a.len() && host_port_spec(a@)
            == Some((bracketed, a@.subrange(from as int, to as int), port)),
{
    if a.len() > 0 && a[0] == BRACKET_OPEN {
        let j = find_byte(a, BRACKET_CLOSE);
        if j >= a.len() {
            return None;
        }
        proof {
            lemma_field_len_bounds(a@.skip(1), BRACKET_CLOSE);
            assert(j >= 1);
        }
        let after = vstd::slice::slice_subrange(a, j + 1, a.len());
        assert(after@ =~= a@.skip(j + 1));
        if after.len() == 0 {
            Some((true, 1, j, None))
        } else if after[0] == COLON {
            let digits = vstd::slice::slice_subrange(after, 1, after.len());
            assert(digits@ =~= after@.skip(1));
            match parse_number(digits, 10, 65535) {
                Some(p) => Some((true, 1, j, Some(p as u16))),
                None => None,
            }
        } else {
            None
        }
    } else {
        let c = find_byte(a, COLON);
        if c < a.len() {
            let digits = vstd::slice::slice_subrange(a, c + 1, a.len());
            assert(digits@ =~= a@.skip(c + 1));
            assert(a@.subrange(0, c as int) =~= a@.take(c as int));
            match parse_number(digits, 10, 65535) {
                Some(p) => Some((false, 0, c, Some(p as u16))),
                None => None,
            }
        } else {
            assert(a@.subrange(0, c as int) =~= a@);
            Some((false, 0, c, None))
        }
    }
}

impl Host {
    /// Reads a host.
    pub fn from_bytes(bracketed: bool, h: &[u8]) -> (r: Option<Host>)
        ensures
            r.is_some() == parse_host_spec(bracketed, h@).is_some(),
            r matches Some(host) ==> parse_host_spec(bracketed, h@) == Some(host@),
    {
        if bracketed {
            match parse_v6(h) {
                Some(v) => Some(Host::Ip(IpAddr::V6(v))),
                None => None,
            }
        } else {
            match parse_v4(h) {
                Some(v) => Some(Host::Ip(IpAddr::V4(v))),
                None => match Name::from_bytes(h) {
                    Some(n) => if n.is_root() {
                        None
                    } else {
                        Some(Host::Domain(n))
                    },
                    None => None,
                },
            }
        }
    }
}

/// How to reach one address of an upstream server.
#[derive(Debug, PartialEq, Eq, Hash)]
pub struct NameServerConfig {
    pub socket_addr: SocketAddr,
    pub protocol: Protocol,
    /// The name that the server's certificate must carry.
    pub tls_dns_name: Option<Name>,
    /// Whether a negative answer of this server ends the search.
    pub trust_nx_responses: bool,
    pub bind_addr: Option<SocketAddr>,
}

/// The mathematical content of a `NameServerConfig`.
pub struct NameServerSpec {
    pub socket_addr: SocketAddr,
    pub protocol: Protocol,
    pub tls_dns_name: Option<Seq<Seq<u8>>>,
    pub trust_nx_responses: bool,
    pub bind_addr: Option<SocketAddr>,
}

impl View for NameServerConfig {
    type V = NameServerSpec;

    open spec fn view(&self) -> NameServerSpec {
        NameServerSpec {
            socket_addr: self.socket_addr,
            protocol: self.protocol,
            tls_dns_name: match self.tls_dns_name {
                Some(n) => Some(n@),
                None => None,
            },
            trust_nx_responses: self.trust_nx_responses,
            bind_addr: self.bind_addr,
        }
    }
}

impl DnsUrl {
    /// Reads the address of a server; `proto` is the transport where the
    /// text names none.
    pub fn from_bytes(text: &[u8], proto: Protocol) -> (r: Option<DnsUrl>)
        ensures
            r.is_some() == parse_url_spec(text@, proto).is_some(),
            r matches Some(u) ==> parse_url_spec(text@, proto) == Some(u@),
    {
        let c = find_byte(text, COLON);
        let with_scheme = 0 < c && text.len() >= 3 && c < text.len() - 2 && text[c + 1] == SLASH
            && text[c + 2] == SLASH;
        let (proto, rest) = if with_scheme {
            let scheme = vstd::slice::slice_subrange(text, 0, c);
            assert(scheme@ =~= text@.take(c as int));
            let rest = vstd::slice::slice_subrange(text, c + 3, text.len());
            assert(rest@ =~= text@.skip(c + 3));
            (parse_scheme(scheme), rest)
        } else {
            (Some(proto), text)
        };
        let n = find_byte(rest, SLASH);
        let authority = vstd::slice::slice_subrange(rest, 0, n);
        assert(authority@ =~= rest@.take(n as int));
        let path = if n < rest.len() {
            let p = vstd::slice::slice_subrange(rest, n, rest.len());
            assert(p@ =~= rest@.skip(n as int));
            Some(vstd::slice::slice_to_vec(p))
        } else {
            None
        };
        match (proto, parse_host_port(authority)) {
            (Some(proto), Some((bracketed, from, to, port))) => {
                let h = vstd::slice::slice_subrange(authority, from, to);
                match Host::from_bytes(bracketed, h) {
                    Some(host) => Some(DnsUrl { proto, host, port, path }),
                    None => None,
                }
            },
            _ => None,
        }
    }

    /// Reads the address of a server from a string, as `from_bytes` does
    /// from its bytes, with UDP as the transport where the text names none.
    pub fn from_str(text: &str) -> (r: Option<DnsUrl>)
        ensures
            r.is_some() == parse_url_spec(text.spec_bytes(), Protocol::Udp).is_some(),
            r matches Some(u) ==> parse_url_spec(text.spec_bytes(), Protocol::Udp) == Some(u@),
    {
        DnsUrl::from_bytes(text.as_bytes(), Protocol::Udp)
    }

    /// The port to connect to: the one the URL names, or the transport's own.
    pub open spec fn spec_port(&self) -> u16 {
        match self.port {
            Some(p) => p,
            None => self.proto.spec_default_port(),
        }
    }

    /// The port to connect to: the one the URL names, or the transport's own.
    #[verifier::when_used_as_spec(spec_port)]
    pub fn port(&self) -> (port: u16)
        ensures
            port == self.spec_port(),
    {
        match self.port {
            Some(p) => p,
            None => self.proto.default_port(),
        }
    }

    /// Whether a server group can be made for the URL: its transport is UDP,
    /// TCP, TLS or HTTPS, and an encrypting transport has a host name, not a
    /// bare address, to check the certificate against.
    pub open spec fn has_group(&self) -> bool {
        &&& self.proto is Udp || self.proto is Tcp || self.proto is Tls || self.proto is Https
        &&& self.proto.spec_is_encrypted() ==> self.host is Domain
    }

    /// The addresses to connect to: the one in the URL, or those that its
    /// host name resolved to.
    pub open spec fn addresses(&self, resolved: Seq<IpAddr>) -> Seq<IpAddr> {
        match self.host {
            Host::Domain(_) => resolved,
            Host::Ip(ip) => seq![ip],
        }
    }

    /// The entry of the server group for the address `ip`.
    pub open spec fn server_for(&self, ip: IpAddr) -> NameServerSpec {
        NameServerSpec {
            socket_addr: SocketAddr { ip, port: self.spec_port() },
            protocol: self.proto,
            tls_dns_name: match self.host {
                Host::Domain(n) if self.proto.spec_is_encrypted() => Some(n@),
                _ => None,
            },
            trust_nx_responses: true,
            bind_addr: None,
        }
    }

    /// The server group of the URL: one entry for each address, in order,
    /// where `resolved` holds the addresses that the host name resolved to
    /// (it is not read when the URL holds an address). `None` where no group
    /// can be made.
    pub fn to_nameserver_config_group(&self, resolved: &Vec<IpAddr>) -> (group: Option<
        Vec<NameServerConfig>,
    >)
        ensures
            group.is_some() == self.has_group(),
            group matches Some(g) ==> {
                &&& g@.len() == self.addresses(resolved@).len()
                &&& forall|i: int|
                    0 <= i < g@.len() ==> (#[trigger] g@[i])@ == self.server_for(
                        self.addresses(resolved@)[i],
                    )
            },
    {
        let encrypted = self.proto.is_encrypted();
        match self.proto {
            Protocol::Quic | Protocol::Mdns => {
                return None;
            },
            _ => {},
        }
        let port = self.port();
        let mut group: Vec<NameServerConfig> = Vec::new();
        match &self.host {
            Host::Ip(ip) => {
                if encrypted {
                    return None;
                }
                group.push(
                    NameServerConfig {
                        socket_addr: SocketAddr { ip: *ip, port },
                        protocol: self.proto,
                        tls_dns_name: None,
                        trust_nx_responses: true,
                        bind_addr: None,
                    },
                );
            },
            Host::Domain(host) => {
                let mut i: usize = 0;
                while i < resolved.len()
                    invariant
                        i <= resolved.len(),
                        group@.len() == i,
                        self.host == Host::Domain(*host),
                        port == self.spec_port(),
                        encrypted == self.proto.spec_is_encrypted(),
                        forall|k: int|
                            0 <= k < i ==> (#[trigger] group@[k])@ == self.server_for(resolved@[k]),
                    decreases resolved.len() - i,
                {
                    let tls_dns_name = if encrypted {
                        Some(host.clone())
                    } else {
                        None
                    };
                    group.push(
                        NameServerConfig {
                            socket_addr: SocketAddr { ip: resolved[i], port },
                            protocol: self.proto,
                            tls_dns_name,
                            trust_nx_responses: true,
                            bind_addr: None,
                        },
                    );
                    i += 1;
                }
            },
        }
        Some(group)
    }
}

/// The data of a start-of-authority record.
#[derive(Debug, PartialEq, Eq, Hash)]
pub struct SOA {
    pub mname: Name,
    pub rname: Name,
    pub serial: u32,
    pub refresh: i32,
    pub retry: i32,
    pub expire: i32,
    pub minimum: u32,
}

/// The data of a resource record.
#[derive(Debug, PartialEq, Eq, Hash)]
pub enum RData {
    A(u32),
    AAAA(u128),
    CNAME(Name),
    SOA(SOA),
}

/// The labels of `a.gtld-servers.net`.
pub open spec fn default_soa_mname() -> Seq<Seq<u8>> {
    seq![
        seq![97u8],
        seq![103u8, 116, 108, 100, 45, 115, 101, 114, 118, 101, 114, 115],
        seq![110u8, 101, 116],
    ]
}

/// The labels of `nstld.verisign-grs.com`.
pub open spec fn default_soa_rname() -> Seq<Seq<u8>> {
    seq![
        seq![110u8, 115, 116, 108, 100],
        seq![118u8, 101, 114, 105, 115, 105, 103, 110, 45, 103, 114, 115],
        seq![99u8, 111, 109],
    ]
}

/// Whether `soa` is the record that is put into an answer to say that a name
/// has no data of the type asked for.
pub open spec fn is_default_soa(soa: SOA) -> bool {
    &&& soa.mname@ == default_soa_mname()
    &&& soa.rname@ == default_soa_rname()
    &&& soa.serial == 1800
    &&& soa.refresh == 1800
    &&& soa.retry == 900
    &&& soa.expire == 604800
    &&& soa.minimum == 86400
}

/// Types that have a value standing for the start-of-authority record of a
/// made-up answer.
pub trait DefaultSOA: Sized {
    /// Whether `value` is that record.
    spec fn is_default(value: Self) -> bool;

    /// The record.
    fn default_soa() -> (out: Self)
        ensures
            Self::is_default(out),
    ;
}

impl DefaultSOA for SOA {
    open spec fn is_default(value: Self) -> bool {
        is_default_soa(value)
    }

    fn default_soa() -> (out: Self) {
        proof {
            reveal_strlit("a");
            lemma_kw("a");
            reveal_strlit("gtld-servers");
            lemma_kw("gtld-servers");
            reveal_strlit("net");
            lemma_kw("net");
            reveal_strlit("nstld");
            lemma_kw("nstld");
            reveal_strlit("verisign-grs");
            lemma_kw("verisign-grs");
            reveal_strlit("com");
            lemma_kw("com");
        }
        let mut m: Vec<Vec<u8>> = Vec::new();
        m.push(keyword("a"));
        m.push(keyword("gtld-servers"));
        m.push(keyword("net"));
        let mut r: Vec<Vec<u8>> = Vec::new();
        r.push(keyword("nstld"));
        r.push(keyword("verisign-grs"));
        r.push(keyword("com"));
        assert(rows(m@) =~= default_soa_mname()) by {
            assert(rows(m@)[0] =~= default_soa_mname()[0]);
            assert(rows(m@)[1] =~= default_soa_mname()[1]);
            assert(rows(m@)[2] =~= default_soa_mname()[2]);
        }
        assert(rows(r@) =~= default_soa_rname()) by {
            assert(rows(r@)[0] =~= default_soa_rname()[0]);
            assert(rows(r@)[1] =~= default_soa_rname()[1]);
            assert(rows(r@)[2] =~= default_soa_rname()[2]);
        }
        assert(is_name(default_soa_mname()));
        assert(is_name(default_soa_rname()));
        let mname = Name::from_labels(m).unwrap();
        let rname = Name::from_labels(r).unwrap();
        SOA { mname, rname, serial: 1800, refresh: 1800, retry: 900, expire: 604800, minimum: 86400 }
    }
}

impl DefaultSOA for RData {
    open spec fn is_default(value: Self) -> bool {
        value matches RData::SOA(soa) && is_default_soa(soa)
    }

    fn default_soa() -> (out: Self) {
        RData::SOA(SOA::default_soa())
    }
}

} // verus!
