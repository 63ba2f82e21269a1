//! The grammar of a configuration line: a directive, its value, and
//! nothing more but a comment.

use crate::config::domain::{Domain, DomainSpec};
use crate::config::item::{
    client_rule_from, file_set_of, format_slashed, lemma_address_rule_round_trip,
    lemma_slashed_round_trip, parse_address_rule_spec, parse_cname_rule, parse_cname_rule_spec,
    parse_forward_rule_spec, parse_nftset_rule, parse_nftset_rule_spec, parse_slashed,
    slashed_spec, slashed_text, slashed_value, slashed_value_spec, AddressRule, ClientRule,
    ClientRuleSpec, ConfigForDomain, DomainSetProvider, FileSetSpec, ForwardRule, IpSetProvider,
};
use crate::config::rule::{lemma_rule_of_settings, rule_from, DomainRule, DomainRuleSpec};
use crate::config::server::{
    listener_from, parse_bind, parse_bind_spec, server_from, ListenerConfig, ListenerSpec,
    NameServerInfo, ServerSpec,
};
use crate::config::setting::{
    format_setting, lemma_settings_round_trip, parse_setting_spec, parse_settings,
    parse_settings_spec, settings_view, settings_words, Dialect, SettingSpec,
};
use crate::config::value::{
    address_value_text, lemma_address_value_round_trip, nftsets_view, parse_bool, parse_bool_spec, parse_file_mode_spec, parse_level_spec,
    parse_record_type_spec, parse_response_mode_spec, parse_size_spec, parse_speed_modes,
    parse_speed_modes_spec, AddressRuleValue, Byte, CNameRule, CNameSpec, ConfigForIP, FileMode,
    Level, NFTsetConfig, NftsetSpec, RecordType, ResponseMode, SpeedCheckMode,
};
use crate::dns::{parse_url_spec, DnsUrl, Protocol};
use crate::ip::{parse_ip_or_set_spec, parse_net_spec, IpNet, IpOrSet, IpOrSetSpec};
use crate::name::{parse_name_spec, Name};
use crate::text::{
    first_line, is_keyword, is_line_end, is_word, join_with, join_words, keyword, kw,
    lemma_kw, lemma_line_len_bounds, lemma_words_of_join, line_len, lowered, parse_number,
    parse_number_spec, rows, split_words, to_lowered, word_print, words, HASH, SPACE,
};
use vstd::prelude::*;
use vstd::string::StringSliceAdditionalSpecFns;

verus! {

/// The text that the bytes spell in UTF-8, by `std::str::from_utf8`: none
/// where the bytes are not UTF-8, and otherwise the text whose bytes they
/// are.
#[verifier::external_body]
fn utf8_text(bytes: &[u8]) -> (r: Option<&str>)
    ensures
        r.is_some() == vstd::utf8::valid_utf8(bytes@),
        r matches Some(text) ==> text.spec_bytes() == bytes@,
{
    std::str::from_utf8(bytes).ok()
}

/// Whether the text is a pattern for file names that `glob::Pattern::new`
/// accepts on the platform that the library is built for. The platforms
/// differ in one point: `**` must stand between path separators, and
/// `Pattern::new` asks `std::path::is_separator` what those are, which is
/// `/` everywhere and `\` besides on Windows.
pub uninterp spec fn glob_pattern_ok(pattern: Seq<char>) -> bool;

/// Holds a text against `glob::Pattern::new`. On one platform, whether a
/// text is a pattern depends on the text alone; between Unix and Windows
/// the answer can differ for a text that holds `**` beside a `\`.
#[verifier::external_body]
fn check_glob_pattern(pattern: &str) -> (r: bool)
    ensures
        r == glob_pattern_ok(pattern@),
{
    glob::Pattern::new(pattern).is_ok()
}

/// Whether the bytes are a pattern for file names: they are UTF-8, and the
/// text that they spell is a pattern.
pub open spec fn is_file_pattern(text: Seq<u8>) -> bool {
    vstd::utf8::valid_utf8(text) && glob_pattern_ok(vstd::utf8::decode_utf8(text))
}

/// A pattern for file names.
#[derive(Debug, PartialEq, Eq, Hash)]
pub struct GlobPattern {
    text: Vec<u8>,
}

impl View for GlobPattern {
    type V = Seq<u8>;

    /// The bytes of the pattern.
    closed spec fn view(&self) -> Seq<u8> {
        self.text@
    }
}

impl GlobPattern {
    #[verifier::type_invariant]
    spec fn well_formed(&self) -> bool {
        is_file_pattern(self.text@)
    }

    /// The pattern with the given bytes, if they are one.
    pub fn new(text: &[u8]) -> (out: Option<GlobPattern>)
        ensures
            out.is_some() == is_file_pattern(text@),
            out matches Some(p) ==> p@ == text@,
    {
        match utf8_text(text) {
            Some(pattern) => {
                proof {
                    vstd::utf8::encode_utf8_decode_utf8(pattern@);
                }
                if check_glob_pattern(pattern) {
                    Some(GlobPattern { text: vstd::slice::slice_to_vec(text) })
                } else {
                    None
                }
            },
            None => None,
        }
    }

    /// The bytes of the pattern.
    pub fn as_bytes(&self) -> (out: &[u8])
        ensures
            out@ == self@,
            is_file_pattern(self@),
    {
        proof {
            use_type_invariant(self);
        }
        self.text.as_slice()
    }
}

/// The kinds of value that a directive can take.
#[derive(Debug, Clone, Copy, PartialEq, Eq, Hash, Structural)]
pub enum ValueKind {
    /// No value.
    Unit,
    /// A switch.
    Bool,
    /// A decimal number up to the given one.
    Number(u64),
    /// One word.
    Text,
    /// A number of bytes.
    Size,
    /// The permission bits of a file.
    Mode,
    /// A level of the log.
    Level,
    /// A record type.
    Record,
    /// A name.
    Name,
    /// An address block.
    Net,
    /// An address block or a named set of blocks.
    IpOrSet,
    /// A policy for picking answers.
    Response,
    /// `none` or a list of probe modes.
    Speed,
    /// `/domain/answer`.
    Address,
    /// `/domain/name`.
    CName,
    /// `/domain/` and options.
    Rule,
    /// The options of a set of domains.
    DomainSet,
    /// The options of a set of address blocks.
    IpSet,
    /// `/domain/group`.
    Forward,
    /// `/domain/sets`.
    Nftset,
    /// An address block or set, and options.
    Client,
    /// An address and a port for the transport, and options.
    Listener(Protocol),
    /// The address of a server, by default of the transport, and options.
    Server(Protocol),
    /// A pattern for file names.
    Glob,
}

/// The value of a directive.
#[derive(Debug, PartialEq, Eq)]
pub enum Value {
    Unit,
    Bool(bool),
    Number(u64),
    Text(Vec<u8>),
    Size(Byte),
    Mode(FileMode),
    Level(Level),
    Record(RecordType),
    Name(Name),
    Net(IpNet),
    IpOrSet(IpOrSet),
    Response(ResponseMode),
    Speed(Option<Vec<SpeedCheckMode>>),
    Address(AddressRule),
    CName(ConfigForDomain<CNameRule>),
    Rule(ConfigForDomain<DomainRule>),
    DomainSet(DomainSetProvider),
    IpSet(IpSetProvider),
    Forward(ForwardRule),
    Nftset(ConfigForDomain<Vec<ConfigForIP<NFTsetConfig>>>),
    Client(ClientRule),
    Listener(ListenerConfig),
    Server(NameServerInfo),
    Glob(GlobPattern),
}

/// The mathematical content of a `Value`.
pub enum ValueSpec {
    Unit,
    Bool(bool),
    Number(u64),
    Text(Seq<u8>),
    Size(Byte),
    Mode(FileMode),
    Level(Level),
    Record(RecordType),
    Name(Seq<Seq<u8>>),
    Net(IpNet),
    IpOrSet(IpOrSetSpec),
    Response(ResponseMode),
    Speed(Option<Seq<SpeedCheckMode>>),
    Address(DomainSpec, AddressRuleValue),
    CName(DomainSpec, CNameSpec),
    Rule(DomainSpec, DomainRuleSpec),
    FileSet(FileSetSpec),
    Forward(DomainSpec, Seq<u8>),
    Nftset(DomainSpec, Seq<ConfigForIP<NftsetSpec>>),
    Client(ClientRuleSpec),
    Listener(ListenerSpec),
    Server(ServerSpec),
    Glob(Seq<u8>),
}

/// The view of a list of probe modes that may be absent.
pub open spec fn speed_view(v: Option<Vec<SpeedCheckMode>>) -> Option<Seq<SpeedCheckMode>> {
    match v {
        Some(m) => Some(m@),
        None => None,
    }
}

impl View for Value {
    type V = ValueSpec;

    open spec fn view(&self) -> ValueSpec {
        match self {
            Value::Unit => ValueSpec::Unit,
            Value::Bool(v) => ValueSpec::Bool(*v),
            Value::Number(v) => ValueSpec::Number(*v),
            Value::Text(v) => ValueSpec::Text(v@),
            Value::Size(v) => ValueSpec::Size(*v),
            Value::Mode(v) => ValueSpec::Mode(*v),
            Value::Level(v) => ValueSpec::Level(*v),
            Value::Record(v) => ValueSpec::Record(*v),
            Value::Name(v) => ValueSpec::Name(v@),
            Value::Net(v) => ValueSpec::Net(*v),
            Value::IpOrSet(v) => ValueSpec::IpOrSet(v@),
            Value::Response(v) => ValueSpec::Response(*v),
            Value::Speed(v) => ValueSpec::Speed(speed_view(*v)),
            Value::Address(v) => ValueSpec::Address(v.domain@, v.address),
            Value::CName(v) => ValueSpec::CName(v.domain@, v.config@),
            Value::Rule(v) => ValueSpec::Rule(v.domain@, v.config@),
            Value::DomainSet(v) => ValueSpec::FileSet(v@),
            Value::IpSet(v) => ValueSpec::FileSet(v@),
            Value::Forward(v) => ValueSpec::Forward(v.domain@, v.nameserver@),
            Value::Nftset(v) => ValueSpec::Nftset(v.domain@, nftsets_view(v.config@)),
            Value::Client(v) => ValueSpec::Client(v@),
            Value::Listener(v) => ValueSpec::Listener(v@),
            Value::Server(v) => ValueSpec::Server(v@),
            Value::Glob(v) => ValueSpec::Glob(v@),
        }
    }
}

/// A configuration line: a directive and its value.
pub struct OneConfigSpec {
    pub directive: Directive,
    pub value: ValueSpec,
}

/// Why a line is no configuration line.
#[derive(Debug, Clone, Copy, PartialEq, Eq, Hash, Structural)]
pub enum ConfigError {
    /// The line is empty or starts with a comment.
    NoDirective,
    /// The first word asks for no directive.
    UnknownDirective,
    /// The words behind the directive are no value for it.
    MalformedValue,
    /// Something other than a comment follows the value.
    TrailingWords,
}

/// The directives: what the first word of a configuration line can ask for.
#[derive(Debug, Clone, Copy, PartialEq, Eq, Hash, Structural)]
pub enum Directive {
    /// The answer forced for a domain.
    Address,
    /// Whether each query is written to the audit log.
    AuditEnable,
    /// The file of the audit log.
    AuditFile,
    /// The permission bits of the audit log.
    AuditFileMode,
    /// How many files of the audit log are kept.
    AuditNum,
    /// The size at which a file of the audit log is closed.
    AuditSize,
    /// The certificate of the listeners.
    BindCertFile,
    /// The key of the certificate of the listeners.
    BindCertKeyFile,
    /// The password of the key of the certificate.
    BindCertKeyPass,
    /// Addresses that no answer may hold.
    BlacklistIp,
    /// Addresses that stand for "no such name".
    BogusNxDomain,
    /// The file that the cache is saved to.
    CacheFile,
    /// Whether the cache is saved to a file.
    CachePersist,
    /// Largest number of entries of the cache.
    CacheSize,
    /// Seconds between two saves of the cache.
    CacheCheckpointTime,
    /// The file of trusted certificates.
    CaFile,
    /// The directory of trusted certificates.
    CaPath,
    /// The policies for the queries of some clients.
    ClientRule,
    /// The name put in place of a domain.
    CNAME,
    /// The start of the lines of a group.
    GroupBegin,
    /// The end of the lines of a group.
    GroupEnd,
    /// Another file of configuration lines.
    ConfFile,
    /// The file of address leases to answer from.
    DnsmasqLeaseFile,
    /// The domain of the host.
    Domain,
    /// The policies for a domain.
    DomainRule,
    /// A named set of domains.
    DomainSetProvider,
    /// Whether the slower address family may be answered with "no such data".
    DualstackIpAllowForceAAAA,
    /// Whether the faster of the two address families is preferred.
    DualstackIpSelection,
    /// Milliseconds by which one family must be faster to be preferred.
    DualstackIpSelectionThreshold,
    /// The client subnet sent to upstream servers.
    EdnsClientSubnet,
    /// Whether reverse lookups are answered from forced addresses.
    ExpandPtrFromAddress,
    /// Whether every query for an IPv6 address gets "no such data".
    ForceAAAASOA,
    /// Whether every query for an HTTPS record gets "no such data".
    ForceHTTPSSOA,
    /// A record type that always gets "no such data".
    ForceQtypeSoa,
    /// The group of upstream servers that resolves a domain.
    ForwardRule,
    /// The files of names and addresses to answer from.
    HostsFile,
    /// Addresses that are dropped from answers.
    IgnoreIp,
    /// An address on which queries are taken.
    Listener(Protocol),
    /// Time to live of answers made up here.
    LocalTtl,
    /// Whether the log is written to the console.
    LogConsole,
    /// How many files of the log are kept.
    LogNum,
    /// The size at which a file of the log is closed.
    LogSize,
    /// How much is written to the log.
    LogLevel,
    /// The file of the log.
    LogFile,
    /// The permission bits of the log.
    LogFileMode,
    /// Which parts of the resolver write to the log.
    LogFilter,
    /// Most addresses in one answer.
    MaxReplyIpNum,
    /// Whether names are also looked up by multicast.
    MdnsLookup,
    /// The packet-filter sets that the addresses of a domain are put into.
    NftSet,
    /// Number of worker threads.
    NumWorkers,
    /// Whether entries of the cache are refreshed before they expire.
    PrefetchDomain,
    /// Whether the name of the host is answered.
    ResolvHostname,
    /// How the answer is picked among those of the upstream servers.
    ResponseMode,
    /// Whether answers past their time to live are served.
    ServeExpired,
    /// Seconds past its time to live for which an answer is still served.
    ServeExpiredTtl,
    /// Time to live of an answer served past its own.
    ServeExpiredReplyTtl,
    /// An upstream server.
    Server(Protocol),
    /// The name of the host.
    ServerName,
    /// The file of upstream servers of the system.
    ResolvFile,
    /// Time to live given to each record.
    RrTtl,
    /// Least time to live of a record.
    RrTtlMin,
    /// Greatest time to live of a record.
    RrTtlMax,
    /// Greatest time to live of a record in a reply.
    RrTtlReplyMax,
    /// How the time to reach an address is measured.
    SpeedMode,
    /// Seconds after which an idle TCP connection is closed.
    TcpIdleTime,
    /// The only addresses that an answer may hold.
    WhitelistIp,
    /// The user that the resolver runs as.
    User,
    /// A named set of address blocks.
    IpSetProvider,
}

impl Directive {
    /// The kind of value that the directive takes.
    pub open spec fn spec_kind(self) -> ValueKind {
        match self {
            Directive::Address => ValueKind::Address,
            Directive::AuditEnable | Directive::CachePersist
            | Directive::DualstackIpAllowForceAAAA | Directive::DualstackIpSelection
            | Directive::ExpandPtrFromAddress | Directive::ForceAAAASOA | Directive::ForceHTTPSSOA
            | Directive::LogConsole | Directive::MdnsLookup | Directive::PrefetchDomain
            | Directive::ResolvHostname | Directive::ServeExpired => ValueKind::Bool,
            Directive::AuditFile | Directive::BindCertFile | Directive::BindCertKeyFile
            | Directive::BindCertKeyPass | Directive::CacheFile | Directive::CaFile
            | Directive::CaPath | Directive::GroupBegin | Directive::ConfFile
            | Directive::DnsmasqLeaseFile | Directive::LogFile | Directive::LogFilter
            | Directive::ResolvFile | Directive::User => ValueKind::Text,
            Directive::AuditFileMode | Directive::LogFileMode => ValueKind::Mode,
            Directive::AuditNum | Directive::CacheSize | Directive::NumWorkers => {
                ValueKind::Number(usize::MAX as u64)
            },
            Directive::AuditSize | Directive::LogSize => ValueKind::Size,
            Directive::BlacklistIp | Directive::BogusNxDomain | Directive::IgnoreIp
            | Directive::WhitelistIp => ValueKind::IpOrSet,
            Directive::CacheCheckpointTime | Directive::LocalTtl | Directive::LogNum
            | Directive::ServeExpiredTtl | Directive::ServeExpiredReplyTtl | Directive::RrTtl
            | Directive::RrTtlMin | Directive::RrTtlMax | Directive::RrTtlReplyMax
            | Directive::TcpIdleTime => ValueKind::Number(u64::MAX),
            Directive::ClientRule => ValueKind::Client,
            Directive::CNAME => ValueKind::CName,
            Directive::GroupEnd => ValueKind::Unit,
            Directive::Domain | Directive::ServerName => ValueKind::Name,
            Directive::DomainRule => ValueKind::Rule,
            Directive::DomainSetProvider => ValueKind::DomainSet,
            Directive::DualstackIpSelectionThreshold => ValueKind::Number(65535),
            Directive::EdnsClientSubnet => ValueKind::Net,
            Directive::ForceQtypeSoa => ValueKind::Record,
            Directive::ForwardRule => ValueKind::Forward,
            Directive::HostsFile => ValueKind::Glob,
            Directive::Listener(p) => ValueKind::Listener(p),
            Directive::LogLevel => ValueKind::Level,
            Directive::MaxReplyIpNum => ValueKind::Number(255),
            Directive::NftSet => ValueKind::Nftset,
            Directive::ResponseMode => ValueKind::Response,
            Directive::Server(p) => ValueKind::Server(p),
            Directive::SpeedMode => ValueKind::Speed,
            Directive::IpSetProvider => ValueKind::IpSet,
        }
    }

    /// The kind of value that the directive takes.
    #[verifier::when_used_as_spec(spec_kind)]
    pub fn kind(self) -> (k: ValueKind)
        ensures
            k == self.spec_kind(),
    {
        match self {
            Directive::Address => ValueKind::Address,
            Directive::AuditEnable | Directive::CachePersist
            | Directive::DualstackIpAllowForceAAAA | Directive::DualstackIpSelection
            | Directive::ExpandPtrFromAddress | Directive::ForceAAAASOA | Directive::ForceHTTPSSOA
            | Directive::LogConsole | Directive::MdnsLookup | Directive::PrefetchDomain
            | Directive::ResolvHostname | Directive::ServeExpired => ValueKind::Bool,
            Directive::AuditFile | Directive::BindCertFile | Directive::BindCertKeyFile
            | Directive::BindCertKeyPass | Directive::CacheFile | Directive::CaFile
            | Directive::CaPath | Directive::GroupBegin | Directive::ConfFile
            | Directive::DnsmasqLeaseFile | Directive::LogFile | Directive::LogFilter
            | Directive::ResolvFile | Directive::User => ValueKind::Text,
            Directive::AuditFileMode | Directive::LogFileMode => ValueKind::Mode,
            Directive::AuditNum | Directive::CacheSize | Directive::NumWorkers => {
                ValueKind::Number(usize::MAX as u64)
            },
            Directive::AuditSize | Directive::LogSize => ValueKind::Size,
            Directive::BlacklistIp | Directive::BogusNxDomain | Directive::IgnoreIp
            | Directive::WhitelistIp => ValueKind::IpOrSet,
            Directive::CacheCheckpointTime | Directive::LocalTtl | Directive::LogNum
            | Directive::ServeExpiredTtl | Directive::ServeExpiredReplyTtl | Directive::RrTtl
            | Directive::RrTtlMin | Directive::RrTtlMax | Directive::RrTtlReplyMax
            | Directive::TcpIdleTime => ValueKind::Number(u64::MAX),
            Directive::ClientRule => ValueKind::Client,
            Directive::CNAME => ValueKind::CName,
            Directive::GroupEnd => ValueKind::Unit,
            Directive::Domain | Directive::ServerName => ValueKind::Name,
            Directive::DomainRule => ValueKind::Rule,
            Directive::DomainSetProvider => ValueKind::DomainSet,
            Directive::DualstackIpSelectionThreshold => ValueKind::Number(65535),
            Directive::EdnsClientSubnet => ValueKind::Net,
            Directive::ForceQtypeSoa => ValueKind::Record,
            Directive::ForwardRule => ValueKind::Forward,
            Directive::HostsFile => ValueKind::Glob,
            Directive::Listener(p) => ValueKind::Listener(p),
            Directive::LogLevel => ValueKind::Level,
            Directive::MaxReplyIpNum => ValueKind::Number(255),
            Directive::NftSet => ValueKind::Nftset,
            Directive::ResponseMode => ValueKind::Response,
            Directive::Server(p) => ValueKind::Server(p),
            Directive::SpeedMode => ValueKind::Speed,
            Directive::IpSetProvider => ValueKind::IpSet,
        }
    }

    /// The word that asks for the directive, in small letters; where two
    /// words ask for it, the usual one.
    pub open spec fn keyword(self) -> Seq<u8> {
        match self {
            Directive::Address => kw("address"),
            Directive::AuditEnable => kw("audit-enable"),
            Directive::AuditFile => kw("audit-file"),
            Directive::AuditFileMode => kw("audit-file-mode"),
            Directive::AuditNum => kw("audit-num"),
            Directive::AuditSize => kw("audit-size"),
            Directive::BindCertFile => kw("bind-cert-file"),
            Directive::BindCertKeyFile => kw("bind-cert-key-file"),
            Directive::BindCertKeyPass => kw("bind-cert-key-pass"),
            Directive::BlacklistIp => kw("blacklist-ip"),
            Directive::BogusNxDomain => kw("bogus-nxdomain"),
            Directive::CacheFile => kw("cache-file"),
            Directive::CachePersist => kw("cache-persist"),
            Directive::CacheSize => kw("cache-size"),
            Directive::CacheCheckpointTime => kw("cache-checkpoint-time"),
            Directive::CaFile => kw("ca-file"),
            Directive::CaPath => kw("ca-path"),
            Directive::ClientRule => kw("client-rules"),
            Directive::CNAME => kw("cname"),
            Directive::GroupBegin => kw("group-begin"),
            Directive::GroupEnd => kw("group-end"),
            Directive::ConfFile => kw("conf-file"),
            Directive::DnsmasqLeaseFile => kw("dnsmasq-lease-file"),
            Directive::Domain => kw("domain"),
            Directive::DomainRule => kw("domain-rules"),
            Directive::DomainSetProvider => kw("domain-set"),
            Directive::DualstackIpAllowForceAAAA => kw("dualstack-ip-allow-force-aaaa"),
            Directive::DualstackIpSelection => kw("dualstack-ip-selection"),
            Directive::DualstackIpSelectionThreshold => kw("dualstack-ip-selection-threshold"),
            Directive::EdnsClientSubnet => kw("edns-client-subnet"),
            Directive::ExpandPtrFromAddress => kw("expand-ptr-from-address"),
            Directive::ForceAAAASOA => kw("force-aaaa-soa"),
            Directive::ForceHTTPSSOA => kw("force-https-soa"),
            Directive::ForceQtypeSoa => kw("force-qtype-soa"),
            Directive::ForwardRule => kw("nameserver"),
            Directive::HostsFile => kw("hosts-file"),
            Directive::IgnoreIp => kw("ignore-ip"),
            Directive::Listener(Protocol::Udp) => kw("bind"),
            Directive::Listener(Protocol::Tcp) => kw("bind-tcp"),
            Directive::Listener(Protocol::Tls) => kw("bind-tls"),
            Directive::Listener(Protocol::Https) => kw("bind-https"),
            Directive::Listener(Protocol::Quic) => kw("bind-quic"),
            Directive::Listener(_) => kw("bind"),
            Directive::LocalTtl => kw("local-ttl"),
            Directive::LogConsole => kw("log-console"),
            Directive::LogNum => kw("log-num"),
            Directive::LogSize => kw("log-size"),
            Directive::LogLevel => kw("log-level"),
            Directive::LogFile => kw("log-file"),
            Directive::LogFileMode => kw("log-file-mode"),
            Directive::LogFilter => kw("log-filter"),
            Directive::MaxReplyIpNum => kw("max-reply-ip-num"),
            Directive::MdnsLookup => kw("mdns-lookup"),
            Directive::NftSet => kw("nftset"),
            Directive::NumWorkers => kw("num-workers"),
            Directive::PrefetchDomain => kw("prefetch-domain"),
            Directive::ResolvHostname => kw("resolv-hostname"),
            Directive::ResponseMode => kw("response-mode"),
            Directive::ServeExpired => kw("serve-expired"),
            Directive::ServeExpiredTtl => kw("serve-expired-ttl"),
            Directive::ServeExpiredReplyTtl => kw("serve-expired-reply-ttl"),
            Directive::Server(Protocol::Udp) => kw("server"),
            Directive::Server(Protocol::Tcp) => kw("server-tcp"),
            Directive::Server(Protocol::Tls) => kw("server-tls"),
            Directive::Server(Protocol::Https) => kw("server-https"),
            Directive::Server(Protocol::Quic) => kw("server-quic"),
            Directive::Server(_) => kw("server"),
            Directive::ServerName => kw("server-name"),
            Directive::ResolvFile => kw("resolv-file"),
            Directive::RrTtl => kw("rr-ttl"),
            Directive::RrTtlMin => kw("rr-ttl-min"),
            Directive::RrTtlMax => kw("rr-ttl-max"),
            Directive::RrTtlReplyMax => kw("rr-ttl-reply-max"),
            Directive::SpeedMode => kw("speed-check-mode"),
            Directive::TcpIdleTime => kw("tcp-idle-time"),
            Directive::WhitelistIp => kw("whitelist-ip"),
            Directive::User => kw("user"),
            Directive::IpSetProvider => kw("ip-set"),
        }
    }

    /// The second word that asks for the directive, where there is one.
    pub open spec fn alias(self) -> Option<Seq<u8>> {
        match self {
            Directive::ClientRule => Some(kw("client-rule")),
            Directive::DomainRule => Some(kw("domain-rule")),
            Directive::ResolvHostname => Some(kw("resolv-hostanme")),
            Directive::ResponseMode => Some(kw("response")),
            _ => None,
        }
    }
}

/// Whether a word in small letters asks for the directive `d`.
pub open spec fn asks_for(word: Seq<u8>, d: Directive) -> bool {
    d.has_keyword() && (word == d.keyword() || d.alias() == Some(word))
}

/// The directive that a word in small letters asks for.
pub open spec fn directive_of(word: Seq<u8>) -> Option<Directive> {
    if exists|d: Directive| asks_for(word, d) {
        Some(choose|d: Directive| asks_for(word, d))
    } else {
        None
    }
}

/// Finds the directive that a word in small letters asks for.
pub fn find_directive(word: &[u8]) -> (r: Option<Directive>)
    ensures
        r == directive_of(word@),
{
    if let Some(d) = find_directive_1(word) {
        proof {
            lemma_found(word@, d);
        }
        return Some(d);
    }
    if let Some(d) = find_directive_2(word) {
        proof {
            lemma_found(word@, d);
        }
        return Some(d);
    }
    if let Some(d) = find_directive_3(word) {
        proof {
            lemma_found(word@, d);
        }
        return Some(d);
    }
    if let Some(d) = find_directive_4(word) {
        proof {
            lemma_found(word@, d);
        }
        return Some(d);
    }
    if let Some(d) = find_directive_5(word) {
        proof {
            lemma_found(word@, d);
        }
        return Some(d);
    }
    proof {
        assert forall|d: Directive| !asks_for(word@, d) by {
            lemma_no_directive(word@, d);
        }
    }
    None
}


/// Finds the directive among those of part 1 of the table.
fn find_directive_1(word: &[u8]) -> (r: Option<Directive>)
    ensures
        r matches Some(d) ==> asks_for(word@, d),
        r is None ==> {
            &&& word@ != kw("address")
            &&& word@ != kw("audit-enable")
            &&& word@ != kw("audit-file")
            &&& word@ != kw("audit-file-mode")
            &&& word@ != kw("audit-num")
            &&& word@ != kw("audit-size")
            &&& word@ != kw("bind-cert-file")
            &&& word@ != kw("bind-cert-key-file")
            &&& word@ != kw("bind-cert-key-pass")
            &&& word@ != kw("blacklist-ip")
            &&& word@ != kw("bogus-nxdomain")
            &&& word@ != kw("cache-file")
            &&& word@ != kw("cache-persist")
            &&& word@ != kw("cache-size")
            &&& word@ != kw("cache-checkpoint-time")
            &&& word@ != kw("ca-file")
        },
{
    if is_keyword(word, "address") {
        Some(Directive::Address)
    } else if is_keyword(word, "audit-enable") {
        Some(Directive::AuditEnable)
    } else if is_keyword(word, "audit-file") {
        Some(Directive::AuditFile)
    } else if is_keyword(word, "audit-file-mode") {
        Some(Directive::AuditFileMode)
    } else if is_keyword(word, "audit-num") {
        Some(Directive::AuditNum)
    } else if is_keyword(word, "audit-size") {
        Some(Directive::AuditSize)
    } else if is_keyword(word, "bind-cert-file") {
        Some(Directive::BindCertFile)
    } else if is_keyword(word, "bind-cert-key-file") {
        Some(Directive::BindCertKeyFile)
    } else if is_keyword(word, "bind-cert-key-pass") {
        Some(Directive::BindCertKeyPass)
    } else if is_keyword(word, "blacklist-ip") {
        Some(Directive::BlacklistIp)
    } else if is_keyword(word, "bogus-nxdomain") {
        Some(Directive::BogusNxDomain)
    } else if is_keyword(word, "cache-file") {
        Some(Directive::CacheFile)
    } else if is_keyword(word, "cache-persist") {
        Some(Directive::CachePersist)
    } else if is_keyword(word, "cache-size") {
        Some(Directive::CacheSize)
    } else if is_keyword(word, "cache-checkpoint-time") {
        Some(Directive::CacheCheckpointTime)
    } else if is_keyword(word, "ca-file") {
        Some(Directive::CaFile)
    } else {
        None
    }
}

/// Finds the directive among those of part 2 of the table.
fn find_directive_2(word: &[u8]) -> (r: Option<Directive>)
    ensures
        r matches Some(d) ==> asks_for(word@, d),
        r is None ==> {
            &&& word@ != kw("ca-path")
            &&& word@ != kw("client-rules")
            &&& word@ != kw("client-rule")
            &&& word@ != kw("cname")
            &&& word@ != kw("group-begin")
            &&& word@ != kw("group-end")
            &&& word@ != kw("conf-file")
            &&& word@ != kw("dnsmasq-lease-file")
            &&& word@ != kw("domain")
            &&& word@ != kw("domain-rules")
            &&& word@ != kw("domain-rule")
            &&& word@ != kw("domain-set")
            &&& word@ != kw("dualstack-ip-allow-force-aaaa")
            &&& word@ != kw("dualstack-ip-selection")
            &&& word@ != kw("dualstack-ip-selection-threshold")
            &&& word@ != kw("edns-client-subnet")
            &&& word@ != kw("expand-ptr-from-address")
            &&& word@ != kw("force-aaaa-soa")
        },
{
    if is_keyword(word, "ca-path") {
        Some(Directive::CaPath)
    } else if is_keyword(word, "client-rules") || is_keyword(word, "client-rule") {
        Some(Directive::ClientRule)
    } else if is_keyword(word, "cname") {
        Some(Directive::CNAME)
    } else if is_keyword(word, "group-begin") {
        Some(Directive::GroupBegin)
    } else if is_keyword(word, "group-end") {
        Some(Directive::GroupEnd)
    } else if is_keyword(word, "conf-file") {
        Some(Directive::ConfFile)
    } else if is_keyword(word, "dnsmasq-lease-file") {
        Some(Directive::DnsmasqLeaseFile)
    } else if is_keyword(word, "domain") {
        Some(Directive::Domain)
    } else if is_keyword(word, "domain-rules") || is_keyword(word, "domain-rule") {
        Some(Directive::DomainRule)
    } else if is_keyword(word, "domain-set") {
        Some(Directive::DomainSetProvider)
    } else if is_keyword(word, "dualstack-ip-allow-force-aaaa") {
        Some(Directive::DualstackIpAllowForceAAAA)
    } else if is_keyword(word, "dualstack-ip-selection") {
        Some(Directive::DualstackIpSelection)
    } else if is_keyword(word, "dualstack-ip-selection-threshold") {
        Some(Directive::DualstackIpSelectionThreshold)
    } else if is_keyword(word, "edns-client-subnet") {
        Some(Directive::EdnsClientSubnet)
    } else if is_keyword(word, "expand-ptr-from-address") {
        Some(Directive::ExpandPtrFromAddress)
    } else if is_keyword(word, "force-aaaa-soa") {
        Some(Directive::ForceAAAASOA)
    } else {
        None
    }
}

/// Finds the directive among those of part 3 of the table.
fn find_directive_3(word: &[u8]) -> (r: Option<Directive>)
    ensures
        r matches Some(d) ==> asks_for(word@, d),
        r is None ==> {
            &&& word@ != kw("force-https-soa")
            &&& word@ != kw("force-qtype-soa")
            &&& word@ != kw("nameserver")
            &&& word@ != kw("hosts-file")
            &&& word@ != kw("ignore-ip")
            &&& word@ != kw("bind")
            &&& word@ != kw("bind-tcp")
            &&& word@ != kw("bind-tls")
            &&& word@ != kw("bind-https")
            &&& word@ != kw("bind-quic")
            &&& word@ != kw("local-ttl")
            &&& word@ != kw("log-console")
            &&& word@ != kw("log-num")
            &&& word@ != kw("log-size")
            &&& word@ != kw("log-level")
            &&& word@ != kw("log-file")
        },
{
    if is_keyword(word, "force-https-soa") {
        Some(Directive::ForceHTTPSSOA)
    } else if is_keyword(word, "force-qtype-soa") {
        Some(Directive::ForceQtypeSoa)
    } else if is_keyword(word, "nameserver") {
        Some(Directive::ForwardRule)
    } else if is_keyword(word, "hosts-file") {
        Some(Directive::HostsFile)
    } else if is_keyword(word, "ignore-ip") {
        Some(Directive::IgnoreIp)
    } else if is_keyword(word, "bind") {
        Some(Directive::Listener(Protocol::Udp))
    } else if is_keyword(word, "bind-tcp") {
        Some(Directive::Listener(Protocol::Tcp))
    } else if is_keyword(word, "bind-tls") {
        Some(Directive::Listener(Protocol::Tls))
    } else if is_keyword(word, "bind-https") {
        Some(Directive::Listener(Protocol::Https))
    } else if is_keyword(word, "bind-quic") {
        Some(Directive::Listener(Protocol::Quic))
    } else if is_keyword(word, "local-ttl") {
        Some(Directive::LocalTtl)
    } else if is_keyword(word, "log-console") {
        Some(Directive::LogConsole)
    } else if is_keyword(word, "log-num") {
        Some(Directive::LogNum)
    } else if is_keyword(word, "log-size") {
        Some(Directive::LogSize)
    } else if is_keyword(word, "log-level") {
        Some(Directive::LogLevel)
    } else if is_keyword(word, "log-file") {
        Some(Directive::LogFile)
    } else {
        None
    }
}

/// Finds the directive among those of part 4 of the table.
fn find_directive_4(word: &[u8]) -> (r: Option<Directive>)
    ensures
        r matches Some(d) ==> asks_for(word@, d),
        r is None ==> {
            &&& word@ != kw("log-file-mode")
            &&& word@ != kw("log-filter")
            &&& word@ != kw("max-reply-ip-num")
            &&& word@ != kw("mdns-lookup")
            &&& word@ != kw("nftset")
            &&& word@ != kw("num-workers")
            &&& word@ != kw("prefetch-domain")
            &&& word@ != kw("resolv-hostname")
            &&& word@ != kw("resolv-hostanme")
            &&& word@ != kw("response-mode")
            &&& word@ != kw("response")
            &&& word@ != kw("serve-expired")
            &&& word@ != kw("serve-expired-ttl")
            &&& word@ != kw("serve-expired-reply-ttl")
            &&& word@ != kw("server")
            &&& word@ != kw("server-tcp")
            &&& word@ != kw("server-tls")
            &&& word@ != kw("server-https")
        },
{
    if is_keyword(word, "log-file-mode") {
        Some(Directive::LogFileMode)
    } else if is_keyword(word, "log-filter") {
        Some(Directive::LogFilter)
    } else if is_keyword(word, "max-reply-ip-num") {
        Some(Directive::MaxReplyIpNum)
    } else if is_keyword(word, "mdns-lookup") {
        Some(Directive::MdnsLookup)
    } else if is_keyword(word, "nftset") {
        Some(Directive::NftSet)
    } else if is_keyword(word, "num-workers") {
        Some(Directive::NumWorkers)
    } else if is_keyword(word, "prefetch-domain") {
        Some(Directive::PrefetchDomain)
    } else if is_keyword(word, "resolv-hostname") || is_keyword(word, "resolv-hostanme") {
        Some(Directive::ResolvHostname)
    } else if is_keyword(word, "response-mode") || is_keyword(word, "response") {
        Some(Directive::ResponseMode)
    } else if is_keyword(word, "serve-expired") {
        Some(Directive::ServeExpired)
    } else if is_keyword(word, "serve-expired-ttl") {
        Some(Directive::ServeExpiredTtl)
    } else if is_keyword(word, "serve-expired-reply-ttl") {
        Some(Directive::ServeExpiredReplyTtl)
    } else if is_keyword(word, "server") {
        Some(Directive::Server(Protocol::Udp))
    } else if is_keyword(word, "server-tcp") {
        Some(Directive::Server(Protocol::Tcp))
    } else if is_keyword(word, "server-tls") {
        Some(Directive::Server(Protocol::Tls))
    } else if is_keyword(word, "server-https") {
        Some(Directive::Server(Protocol::Https))
    } else {
        None
    }
}

/// Finds the directive among those of part 5 of the table.
fn find_directive_5(word: &[u8]) -> (r: Option<Directive>)
    ensures
        r matches Some(d) ==> asks_for(word@, d),
        r is None ==> {
            &&& word@ != kw("server-quic")
            &&& word@ != kw("server-name")
            &&& word@ != kw("resolv-file")
            &&& word@ != kw("rr-ttl")
            &&& word@ != kw("rr-ttl-min")
            &&& word@ != kw("rr-ttl-max")
            &&& word@ != kw("rr-ttl-reply-max")
            &&& word@ != kw("speed-check-mode")
            &&& word@ != kw("tcp-idle-time")
            &&& word@ != kw("whitelist-ip")
            &&& word@ != kw("user")
            &&& word@ != kw("ip-set")
        },
{
    if is_keyword(word, "server-quic") {
        Some(Directive::Server(Protocol::Quic))
    } else if is_keyword(word, "server-name") {
        Some(Directive::ServerName)
    } else if is_keyword(word, "resolv-file") {
        Some(Directive::ResolvFile)
    } else if is_keyword(word, "rr-ttl") {
        Some(Directive::RrTtl)
    } else if is_keyword(word, "rr-ttl-min") {
        Some(Directive::RrTtlMin)
    } else if is_keyword(word, "rr-ttl-max") {
        Some(Directive::RrTtlMax)
    } else if is_keyword(word, "rr-ttl-reply-max") {
        Some(Directive::RrTtlReplyMax)
    } else if is_keyword(word, "speed-check-mode") {
        Some(Directive::SpeedMode)
    } else if is_keyword(word, "tcp-idle-time") {
        Some(Directive::TcpIdleTime)
    } else if is_keyword(word, "whitelist-ip") {
        Some(Directive::WhitelistIp)
    } else if is_keyword(word, "user") {
        Some(Directive::User)
    } else if is_keyword(word, "ip-set") {
        Some(Directive::IpSetProvider)
    } else {
        None
    }
}

/// One line of configuration.
#[derive(Debug, PartialEq, Eq)]
pub enum OneConfig {
    /// The answer forced for a domain.
    Address(AddressRule),
    /// Whether each query is written to the audit log.
    AuditEnable(bool),
    /// The file of the audit log.
    AuditFile(Vec<u8>),
    /// The permission bits of the audit log.
    AuditFileMode(FileMode),
    /// How many files of the audit log are kept.
    AuditNum(usize),
    /// The size at which a file of the audit log is closed.
    AuditSize(Byte),
    /// The certificate of the listeners.
    BindCertFile(Vec<u8>),
    /// The key of the certificate of the listeners.
    BindCertKeyFile(Vec<u8>),
    /// The password of the key of the certificate.
    BindCertKeyPass(Vec<u8>),
    /// Addresses that no answer may hold.
    BlacklistIp(IpOrSet),
    /// Addresses that stand for "no such name".
    BogusNxDomain(IpOrSet),
    /// The file that the cache is saved to.
    CacheFile(Vec<u8>),
    /// Whether the cache is saved to a file.
    CachePersist(bool),
    /// Largest number of entries of the cache.
    CacheSize(usize),
    /// Seconds between two saves of the cache.
    CacheCheckpointTime(u64),
    /// The file of trusted certificates.
    CaFile(Vec<u8>),
    /// The directory of trusted certificates.
    CaPath(Vec<u8>),
    /// The policies for the queries of some clients.
    ClientRule(ClientRule),
    /// The name put in place of a domain.
    CNAME(ConfigForDomain<CNameRule>),
    /// The start of the lines of a group.
    GroupBegin(Vec<u8>),
    /// The end of the lines of a group.
    GroupEnd,
    /// Another file of configuration lines.
    ConfFile(Vec<u8>),
    /// The file of address leases to answer from.
    DnsmasqLeaseFile(Vec<u8>),
    /// The domain of the host.
    Domain(Name),
    /// The policies for a domain.
    DomainRule(ConfigForDomain<DomainRule>),
    /// A named set of domains.
    DomainSetProvider(DomainSetProvider),
    /// Whether the slower address family may be answered with "no such data".
    DualstackIpAllowForceAAAA(bool),
    /// Whether the faster of the two address families is preferred.
    DualstackIpSelection(bool),
    /// Milliseconds by which one family must be faster to be preferred.
    DualstackIpSelectionThreshold(u16),
    /// The client subnet sent to upstream servers.
    EdnsClientSubnet(IpNet),
    /// Whether reverse lookups are answered from forced addresses.
    ExpandPtrFromAddress(bool),
    /// Whether every query for an IPv6 address gets "no such data".
    ForceAAAASOA(bool),
    /// Whether every query for an HTTPS record gets "no such data".
    ForceHTTPSSOA(bool),
    /// A record type that always gets "no such data".
    ForceQtypeSoa(RecordType),
    /// The group of upstream servers that resolves a domain.
    ForwardRule(ForwardRule),
    /// The files of names and addresses to answer from.
    HostsFile(GlobPattern),
    /// Addresses that are dropped from answers.
    IgnoreIp(IpOrSet),
    /// An address on which queries are taken.
    Listener(ListenerConfig),
    /// Time to live of answers made up here.
    LocalTtl(u64),
    /// Whether the log is written to the console.
    LogConsole(bool),
    /// How many files of the log are kept.
    LogNum(u64),
    /// The size at which a file of the log is closed.
    LogSize(Byte),
    /// How much is written to the log.
    LogLevel(Level),
    /// The file of the log.
    LogFile(Vec<u8>),
    /// The permission bits of the log.
    LogFileMode(FileMode),
    /// Which parts of the resolver write to the log.
    LogFilter(Vec<u8>),
    /// Most addresses in one answer.
    MaxReplyIpNum(u8),
    /// Whether names are also looked up by multicast.
    MdnsLookup(bool),
    /// The packet-filter sets that the addresses of a domain are put into.
    NftSet(ConfigForDomain<Vec<ConfigForIP<NFTsetConfig>>>),
    /// Number of worker threads.
    NumWorkers(usize),
    /// Whether entries of the cache are refreshed before they expire.
    PrefetchDomain(bool),
    /// Whether the name of the host is answered.
    ResolvHostname(bool),
    /// How the answer is picked among those of the upstream servers.
    ResponseMode(ResponseMode),
    /// Whether answers past their time to live are served.
    ServeExpired(bool),
    /// Seconds past its time to live for which an answer is still served.
    ServeExpiredTtl(u64),
    /// Time to live of an answer served past its own.
    ServeExpiredReplyTtl(u64),
    /// An upstream server.
    Server(NameServerInfo),
    /// The name of the host.
    ServerName(Name),
    /// The file of upstream servers of the system.
    ResolvFile(Vec<u8>),
    /// Time to live given to each record.
    RrTtl(u64),
    /// Least time to live of a record.
    RrTtlMin(u64),
    /// Greatest time to live of a record.
    RrTtlMax(u64),
    /// Greatest time to live of a record in a reply.
    RrTtlReplyMax(u64),
    /// How the time to reach an address is measured.
    SpeedMode(Option<Vec<SpeedCheckMode>>),
    /// Seconds after which an idle TCP connection is closed.
    TcpIdleTime(u64),
    /// The only addresses that an answer may hold.
    WhitelistIp(IpOrSet),
    /// The user that the resolver runs as.
    User(Vec<u8>),
    /// A named set of address blocks.
    IpSetProvider(IpSetProvider),
}

impl View for OneConfig {
    type V = OneConfigSpec;

    open spec fn view(&self) -> OneConfigSpec {
        match self {
            OneConfig::Address(v) => OneConfigSpec {
                directive: Directive::Address,
                value: ValueSpec::Address(v.domain@, v.address),
            },
            OneConfig::AuditEnable(v) => OneConfigSpec {
                directive: Directive::AuditEnable,
                value: ValueSpec::Bool(*v),
            },
            OneConfig::AuditFile(v) => OneConfigSpec {
                directive: Directive::AuditFile,
                value: ValueSpec::Text(v@),
            },
            OneConfig::AuditFileMode(v) => OneConfigSpec {
                directive: Directive::AuditFileMode,
                value: ValueSpec::Mode(*v),
            },
            OneConfig::AuditNum(v) => OneConfigSpec {
                directive: Directive::AuditNum,
                value: ValueSpec::Number(*v as u64),
            },
            OneConfig::AuditSize(v) => OneConfigSpec {
                directive: Directive::AuditSize,
                value: ValueSpec::Size(*v),
            },
            OneConfig::BindCertFile(v) => OneConfigSpec {
                directive: Directive::BindCertFile,
                value: ValueSpec::Text(v@),
            },
            OneConfig::BindCertKeyFile(v) => OneConfigSpec {
                directive: Directive::BindCertKeyFile,
                value: ValueSpec::Text(v@),
            },
            OneConfig::BindCertKeyPass(v) => OneConfigSpec {
                directive: Directive::BindCertKeyPass,
                value: ValueSpec::Text(v@),
            },
            OneConfig::BlacklistIp(v) => OneConfigSpec {
                directive: Directive::BlacklistIp,
                value: ValueSpec::IpOrSet(v@),
            },
            OneConfig::BogusNxDomain(v) => OneConfigSpec {
                directive: Directive::BogusNxDomain,
                value: ValueSpec::IpOrSet(v@),
            },
            OneConfig::CacheFile(v) => OneConfigSpec {
                directive: Directive::CacheFile,
                value: ValueSpec::Text(v@),
            },
            OneConfig::CachePersist(v) => OneConfigSpec {
                directive: Directive::CachePersist,
                value: ValueSpec::Bool(*v),
            },
            OneConfig::CacheSize(v) => OneConfigSpec {
                directive: Directive::CacheSize,
                value: ValueSpec::Number(*v as u64),
            },
            OneConfig::CacheCheckpointTime(v) => OneConfigSpec {
                directive: Directive::CacheCheckpointTime,
                value: ValueSpec::Number(*v),
            },
            OneConfig::CaFile(v) => OneConfigSpec {
                directive: Directive::CaFile,
                value: ValueSpec::Text(v@),
            },
            OneConfig::CaPath(v) => OneConfigSpec {
                directive: Directive::CaPath,
                value: ValueSpec::Text(v@),
            },
            OneConfig::ClientRule(v) => OneConfigSpec {
                directive: Directive::ClientRule,
                value: ValueSpec::Client(v@),
            },
            OneConfig::CNAME(v) => OneConfigSpec {
                directive: Directive::CNAME,
                value: ValueSpec::CName(v.domain@, v.config@),
            },
            OneConfig::GroupBegin(v) => OneConfigSpec {
                directive: Directive::GroupBegin,
                value: ValueSpec::Text(v@),
            },
            OneConfig::GroupEnd => OneConfigSpec { directive: Directive::GroupEnd, value: ValueSpec::Unit },
            OneConfig::ConfFile(v) => OneConfigSpec {
                directive: Directive::ConfFile,
                value: ValueSpec::Text(v@),
            },
            OneConfig::DnsmasqLeaseFile(v) => OneConfigSpec {
                directive: Directive::DnsmasqLeaseFile,
                value: ValueSpec::Text(v@),
            },
            OneConfig::Domain(v) => OneConfigSpec {
                directive: Directive::Domain,
                value: ValueSpec::Name(v@),
            },
            OneConfig::DomainRule(v) => OneConfigSpec {
                directive: Directive::DomainRule,
                value: ValueSpec::Rule(v.domain@, v.config@),
            },
            OneConfig::DomainSetProvider(v) => OneConfigSpec {
                directive: Directive::DomainSetProvider,
                value: ValueSpec::FileSet(v@),
            },
            OneConfig::DualstackIpAllowForceAAAA(v) => OneConfigSpec {
                directive: Directive::DualstackIpAllowForceAAAA,
                value: ValueSpec::Bool(*v),
            },
            OneConfig::DualstackIpSelection(v) => OneConfigSpec {
                directive: Directive::DualstackIpSelection,
                value: ValueSpec::Bool(*v),
            },
            OneConfig::DualstackIpSelectionThreshold(v) => OneConfigSpec {
                directive: Directive::DualstackIpSelectionThreshold,
                value: ValueSpec::Number(*v as u64),
            },
            OneConfig::EdnsClientSubnet(v) => OneConfigSpec {
                directive: Directive::EdnsClientSubnet,
                value: ValueSpec::Net(*v),
            },
            OneConfig::ExpandPtrFromAddress(v) => OneConfigSpec {
                directive: Directive::ExpandPtrFromAddress,
                value: ValueSpec::Bool(*v),
            },
            OneConfig::ForceAAAASOA(v) => OneConfigSpec {
                directive: Directive::ForceAAAASOA,
                value: ValueSpec::Bool(*v),
            },
            OneConfig::ForceHTTPSSOA(v) => OneConfigSpec {
                directive: Directive::ForceHTTPSSOA,
                value: ValueSpec::Bool(*v),
            },
            OneConfig::ForceQtypeSoa(v) => OneConfigSpec {
                directive: Directive::ForceQtypeSoa,
                value: ValueSpec::Record(*v),
            },
            OneConfig::ForwardRule(v) => OneConfigSpec {
                directive: Directive::ForwardRule,
                value: ValueSpec::Forward(v.domain@, v.nameserver@),
            },
            OneConfig::HostsFile(v) => OneConfigSpec {
                directive: Directive::HostsFile,
                value: ValueSpec::Glob(v@),
            },
            OneConfig::IgnoreIp(v) => OneConfigSpec {
                directive: Directive::IgnoreIp,
                value: ValueSpec::IpOrSet(v@),
            },
            OneConfig::Listener(v) => OneConfigSpec {
                directive: Directive::Listener(v.proto),
                value: ValueSpec::Listener(v@),
            },
            OneConfig::LocalTtl(v) => OneConfigSpec {
                directive: Directive::LocalTtl,
                value: ValueSpec::Number(*v),
            },
            OneConfig::LogConsole(v) => OneConfigSpec {
                directive: Directive::LogConsole,
                value: ValueSpec::Bool(*v),
            },
            OneConfig::LogNum(v) => OneConfigSpec {
                directive: Directive::LogNum,
                value: ValueSpec::Number(*v),
            },
            OneConfig::LogSize(v) => OneConfigSpec {
                directive: Directive::LogSize,
                value: ValueSpec::Size(*v),
            },
            OneConfig::LogLevel(v) => OneConfigSpec {
                directive: Directive::LogLevel,
                value: ValueSpec::Level(*v),
            },
            OneConfig::LogFile(v) => OneConfigSpec {
                directive: Directive::LogFile,
                value: ValueSpec::Text(v@),
            },
            OneConfig::LogFileMode(v) => OneConfigSpec {
                directive: Directive::LogFileMode,
                value: ValueSpec::Mode(*v),
            },
            OneConfig::LogFilter(v) => OneConfigSpec {
                directive: Directive::LogFilter,
                value: ValueSpec::Text(v@),
            },
            OneConfig::MaxReplyIpNum(v) => OneConfigSpec {
                directive: Directive::MaxReplyIpNum,
                value: ValueSpec::Number(*v as u64),
            },
            OneConfig::MdnsLookup(v) => OneConfigSpec {
                directive: Directive::MdnsLookup,
                value: ValueSpec::Bool(*v),
            },
            OneConfig::NftSet(v) => OneConfigSpec {
                directive: Directive::NftSet,
                value: ValueSpec::Nftset(v.domain@, nftsets_view(v.config@)),
            },
            OneConfig::NumWorkers(v) => OneConfigSpec {
                directive: Directive::NumWorkers,
                value: ValueSpec::Number(*v as u64),
            },
            OneConfig::PrefetchDomain(v) => OneConfigSpec {
                directive: Directive::PrefetchDomain,
                value: ValueSpec::Bool(*v),
            },
            OneConfig::ResolvHostname(v) => OneConfigSpec {
                directive: Directive::ResolvHostname,
                value: ValueSpec::Bool(*v),
            },
            OneConfig::ResponseMode(v) => OneConfigSpec {
                directive: Directive::ResponseMode,
                value: ValueSpec::Response(*v),
            },
            OneConfig::ServeExpired(v) => OneConfigSpec {
                directive: Directive::ServeExpired,
                value: ValueSpec::Bool(*v),
            },
            OneConfig::ServeExpiredTtl(v) => OneConfigSpec {
                directive: Directive::ServeExpiredTtl,
                value: ValueSpec::Number(*v),
            },
            OneConfig::ServeExpiredReplyTtl(v) => OneConfigSpec {
                directive: Directive::ServeExpiredReplyTtl,
                value: ValueSpec::Number(*v),
            },
            OneConfig::Server(v) => OneConfigSpec {
                directive: Directive::Server(v.url.proto),
                value: ValueSpec::Server(v@),
            },
            OneConfig::ServerName(v) => OneConfigSpec {
                directive: Directive::ServerName,
                value: ValueSpec::Name(v@),
            },
            OneConfig::ResolvFile(v) => OneConfigSpec {
                directive: Directive::ResolvFile,
                value: ValueSpec::Text(v@),
            },
            OneConfig::RrTtl(v) => OneConfigSpec {
                directive: Directive::RrTtl,
                value: ValueSpec::Number(*v),
            },
            OneConfig::RrTtlMin(v) => OneConfigSpec {
                directive: Directive::RrTtlMin,
                value: ValueSpec::Number(*v),
            },
            OneConfig::RrTtlMax(v) => OneConfigSpec {
                directive: Directive::RrTtlMax,
                value: ValueSpec::Number(*v),
            },
            OneConfig::RrTtlReplyMax(v) => OneConfigSpec {
                directive: Directive::RrTtlReplyMax,
                value: ValueSpec::Number(*v),
            },
            OneConfig::SpeedMode(v) => OneConfigSpec {
                directive: Directive::SpeedMode,
                value: ValueSpec::Speed(speed_view(*v)),
            },
            OneConfig::TcpIdleTime(v) => OneConfigSpec {
                directive: Directive::TcpIdleTime,
                value: ValueSpec::Number(*v),
            },
            OneConfig::WhitelistIp(v) => OneConfigSpec {
                directive: Directive::WhitelistIp,
                value: ValueSpec::IpOrSet(v@),
            },
            OneConfig::User(v) => OneConfigSpec {
                directive: Directive::User,
                value: ValueSpec::Text(v@),
            },
            OneConfig::IpSetProvider(v) => OneConfigSpec {
                directive: Directive::IpSetProvider,
                value: ValueSpec::FileSet(v@),
            },
        }
    }
}


/// The line that holds `v` for `directive`, if the directive takes such a
/// value.
fn with_address(directive: Directive, v: AddressRule) -> (out: Option<OneConfig>)
    ensures
        out.is_some() == Value::Address(v).fits(directive),
        out matches Some(c) ==> c@ == (OneConfigSpec {
            directive: directive.settled(Value::Address(v)@),
            value: Value::Address(v)@,
        }),
{
    match directive {
        Directive::Address => Some(OneConfig::Address(v)),
        _ => None,
    }
}

/// The line that holds `v` for `directive`, if the directive takes such a
/// value.
fn with_bool(directive: Directive, v: bool) -> (out: Option<OneConfig>)
    ensures
        out.is_some() == Value::Bool(v).fits(directive),
        out matches Some(c) ==> c@ == (OneConfigSpec {
            directive: directive.settled(Value::Bool(v)@),
            value: Value::Bool(v)@,
        }),
{
    match directive {
        Directive::AuditEnable => Some(OneConfig::AuditEnable(v)),
        Directive::CachePersist => Some(OneConfig::CachePersist(v)),
        Directive::DualstackIpAllowForceAAAA => Some(OneConfig::DualstackIpAllowForceAAAA(v)),
        Directive::DualstackIpSelection => Some(OneConfig::DualstackIpSelection(v)),
        Directive::ExpandPtrFromAddress => Some(OneConfig::ExpandPtrFromAddress(v)),
        Directive::ForceAAAASOA => Some(OneConfig::ForceAAAASOA(v)),
        Directive::ForceHTTPSSOA => Some(OneConfig::ForceHTTPSSOA(v)),
        Directive::LogConsole => Some(OneConfig::LogConsole(v)),
        Directive::MdnsLookup => Some(OneConfig::MdnsLookup(v)),
        Directive::PrefetchDomain => Some(OneConfig::PrefetchDomain(v)),
        Directive::ResolvHostname => Some(OneConfig::ResolvHostname(v)),
        Directive::ServeExpired => Some(OneConfig::ServeExpired(v)),
        _ => None,
    }
}

/// The line that holds `v` for `directive`, if the directive takes such a
/// value.
fn with_text(directive: Directive, v: Vec<u8>) -> (out: Option<OneConfig>)
    ensures
        out.is_some() == Value::Text(v).fits(directive),
        out matches Some(c) ==> c@ == (OneConfigSpec {
            directive: directive.settled(Value::Text(v)@),
            value: Value::Text(v)@,
        }),
{
    match directive {
        Directive::AuditFile => Some(OneConfig::AuditFile(v)),
        Directive::BindCertFile => Some(OneConfig::BindCertFile(v)),
        Directive::BindCertKeyFile => Some(OneConfig::BindCertKeyFile(v)),
        Directive::BindCertKeyPass => Some(OneConfig::BindCertKeyPass(v)),
        Directive::CacheFile => Some(OneConfig::CacheFile(v)),
        Directive::CaFile => Some(OneConfig::CaFile(v)),
        Directive::CaPath => Some(OneConfig::CaPath(v)),
        Directive::GroupBegin => Some(OneConfig::GroupBegin(v)),
        Directive::ConfFile => Some(OneConfig::ConfFile(v)),
        Directive::DnsmasqLeaseFile => Some(OneConfig::DnsmasqLeaseFile(v)),
        Directive::LogFile => Some(OneConfig::LogFile(v)),
        Directive::LogFilter => Some(OneConfig::LogFilter(v)),
        Directive::ResolvFile => Some(OneConfig::ResolvFile(v)),
        Directive::User => Some(OneConfig::User(v)),
        _ => None,
    }
}

/// The line that holds `v` for `directive`, if the directive takes such a
/// value.
fn with_mode(directive: Directive, v: FileMode) -> (out: Option<OneConfig>)
    ensures
        out.is_some() == Value::Mode(v).fits(directive),
        out matches Some(c) ==> c@ == (OneConfigSpec {
            directive: directive.settled(Value::Mode(v)@),
            value: Value::Mode(v)@,
        }),
{
    match directive {
        Directive::AuditFileMode => Some(OneConfig::AuditFileMode(v)),
        Directive::LogFileMode => Some(OneConfig::LogFileMode(v)),
        _ => None,
    }
}

/// The line that holds `v` for `directive`, if the directive takes such a
/// value.
fn with_number(directive: Directive, v: u64) -> (out: Option<OneConfig>)
    ensures
        out.is_some() == Value::Number(v).fits(directive),
        out matches Some(c) ==> c@ == (OneConfigSpec {
            directive: directive.settled(Value::Number(v)@),
            value: Value::Number(v)@,
        }),
{
    match directive {
        Directive::AuditNum => if v <= usize::MAX as u64 {
            Some(OneConfig::AuditNum(v as usize))
        } else {
            None
        },
        Directive::CacheSize => if v <= usize::MAX as u64 {
            Some(OneConfig::CacheSize(v as usize))
        } else {
            None
        },
        Directive::CacheCheckpointTime => Some(OneConfig::CacheCheckpointTime(v)),
        Directive::DualstackIpSelectionThreshold => if v <= 65535 {
            Some(OneConfig::DualstackIpSelectionThreshold(v as u16))
        } else {
            None
        },
        Directive::LocalTtl => Some(OneConfig::LocalTtl(v)),
        Directive::LogNum => Some(OneConfig::LogNum(v)),
        Directive::MaxReplyIpNum => if v <= 255 {
            Some(OneConfig::MaxReplyIpNum(v as u8))
        } else {
            None
        },
        Directive::NumWorkers => if v <= usize::MAX as u64 {
            Some(OneConfig::NumWorkers(v as usize))
        } else {
            None
        },
        Directive::ServeExpiredTtl => Some(OneConfig::ServeExpiredTtl(v)),
        Directive::ServeExpiredReplyTtl => Some(OneConfig::ServeExpiredReplyTtl(v)),
        Directive::RrTtl => Some(OneConfig::RrTtl(v)),
        Directive::RrTtlMin => Some(OneConfig::RrTtlMin(v)),
        Directive::RrTtlMax => Some(OneConfig::RrTtlMax(v)),
        Directive::RrTtlReplyMax => Some(OneConfig::RrTtlReplyMax(v)),
        Directive::TcpIdleTime => Some(OneConfig::TcpIdleTime(v)),
        _ => None,
    }
}

/// The line that holds `v` for `directive`, if the directive takes such a
/// value.
fn with_size(directive: Directive, v: Byte) -> (out: Option<OneConfig>)
    ensures
        out.is_some() == Value::Size(v).fits(directive),
        out matches Some(c) ==> c@ == (OneConfigSpec {
            directive: directive.settled(Value::Size(v)@),
            value: Value::Size(v)@,
        }),
{
    match directive {
        Directive::AuditSize => Some(OneConfig::AuditSize(v)),
        Directive::LogSize => Some(OneConfig::LogSize(v)),
        _ => None,
    }
}

/// The line that holds `v` for `directive`, if the directive takes such a
/// value.
fn with_ip_or_set(directive: Directive, v: IpOrSet) -> (out: Option<OneConfig>)
    ensures
        out.is_some() == Value::IpOrSet(v).fits(directive),
        out matches Some(c) ==> c@ == (OneConfigSpec {
            directive: directive.settled(Value::IpOrSet(v)@),
            value: Value::IpOrSet(v)@,
        }),
{
    match directive {
        Directive::BlacklistIp => Some(OneConfig::BlacklistIp(v)),
        Directive::BogusNxDomain => Some(OneConfig::BogusNxDomain(v)),
        Directive::IgnoreIp => Some(OneConfig::IgnoreIp(v)),
        Directive::WhitelistIp => Some(OneConfig::WhitelistIp(v)),
        _ => None,
    }
}

/// The line that holds `v` for `directive`, if the directive takes such a
/// value.
fn with_client(directive: Directive, v: ClientRule) -> (out: Option<OneConfig>)
    ensures
        out.is_some() == Value::Client(v).fits(directive),
        out matches Some(c) ==> c@ == (OneConfigSpec {
            directive: directive.settled(Value::Client(v)@),
            value: Value::Client(v)@,
        }),
{
    match directive {
        Directive::ClientRule => Some(OneConfig::ClientRule(v)),
        _ => None,
    }
}

/// The line that holds `v` for `directive`, if the directive takes such a
/// value.
fn with_cname(directive: Directive, v: ConfigForDomain<CNameRule>) -> (out: Option<OneConfig>)
    ensures
        out.is_some() == Value::CName(v).fits(directive),
        out matches Some(c) ==> c@ == (OneConfigSpec {
            directive: directive.settled(Value::CName(v)@),
            value: Value::CName(v)@,
        }),
{
    match directive {
        Directive::CNAME => Some(OneConfig::CNAME(v)),
        _ => None,
    }
}

/// The line that holds `v` for `directive`, if the directive takes such a
/// value.
fn with_name(directive: Directive, v: Name) -> (out: Option<OneConfig>)
    ensures
        out.is_some() == Value::Name(v).fits(directive),
        out matches Some(c) ==> c@ == (OneConfigSpec {
            directive: directive.settled(Value::Name(v)@),
            value: Value::Name(v)@,
        }),
{
    match directive {
        Directive::Domain => Some(OneConfig::Domain(v)),
        Directive::ServerName => Some(OneConfig::ServerName(v)),
        _ => None,
    }
}

/// The line that holds `v` for `directive`, if the directive takes such a
/// value.
fn with_rule(directive: Directive, v: ConfigForDomain<DomainRule>) -> (out: Option<OneConfig>)
    ensures
        out.is_some() == Value::Rule(v).fits(directive),
        out matches Some(c) ==> c@ == (OneConfigSpec {
            directive: directive.settled(Value::Rule(v)@),
            value: Value::Rule(v)@,
        }),
{
    match directive {
        Directive::DomainRule => Some(OneConfig::DomainRule(v)),
        _ => None,
    }
}

/// The line that holds `v` for `directive`, if the directive takes such a
/// value.
fn with_domain_set(directive: Directive, v: DomainSetProvider) -> (out: Option<OneConfig>)
    ensures
        out.is_some() == Value::DomainSet(v).fits(directive),
        out matches Some(c) ==> c@ == (OneConfigSpec {
            directive: directive.settled(Value::DomainSet(v)@),
            value: Value::DomainSet(v)@,
        }),
{
    match directive {
        Directive::DomainSetProvider => Some(OneConfig::DomainSetProvider(v)),
        _ => None,
    }
}

/// The line that holds `v` for `directive`, if the directive takes such a
/// value.
fn with_net(directive: Directive, v: IpNet) -> (out: Option<OneConfig>)
    ensures
        out.is_some() == Value::Net(v).fits(directive),
        out matches Some(c) ==> c@ == (OneConfigSpec {
            directive: directive.settled(Value::Net(v)@),
            value: Value::Net(v)@,
        }),
{
    match directive {
        Directive::EdnsClientSubnet => Some(OneConfig::EdnsClientSubnet(v)),
        _ => None,
    }
}

/// The line that holds `v` for `directive`, if the directive takes such a
/// value.
fn with_record(directive: Directive, v: RecordType) -> (out: Option<OneConfig>)
    ensures
        out.is_some() == Value::Record(v).fits(directive),
        out matches Some(c) ==> c@ == (OneConfigSpec {
            directive: directive.settled(Value::Record(v)@),
            value: Value::Record(v)@,
        }),
{
    match directive {
        Directive::ForceQtypeSoa => Some(OneConfig::ForceQtypeSoa(v)),
        _ => None,
    }
}

/// The line that holds `v` for `directive`, if the directive takes such a
/// value.
fn with_forward(directive: Directive, v: ForwardRule) -> (out: Option<OneConfig>)
    ensures
        out.is_some() == Value::Forward(v).fits(directive),
        out matches Some(c) ==> c@ == (OneConfigSpec {
            directive: directive.settled(Value::Forward(v)@),
            value: Value::Forward(v)@,
        }),
{
    match directive {
        Directive::ForwardRule => Some(OneConfig::ForwardRule(v)),
        _ => None,
    }
}

/// The line that holds `v` for `directive`, if the directive takes such a
/// value.
fn with_glob(directive: Directive, v: GlobPattern) -> (out: Option<OneConfig>)
    ensures
        out.is_some() == Value::Glob(v).fits(directive),
        out matches Some(c) ==> c@ == (OneConfigSpec {
            directive: directive.settled(Value::Glob(v)@),
            value: Value::Glob(v)@,
        }),
{
    match directive {
        Directive::HostsFile => Some(OneConfig::HostsFile(v)),
        _ => None,
    }
}

/// The line that holds `v` for `directive`, if the directive takes such a
/// value.
fn with_listener(directive: Directive, v: ListenerConfig) -> (out: Option<OneConfig>)
    ensures
        out.is_some() == Value::Listener(v).fits(directive),
        out matches Some(c) ==> c@ == (OneConfigSpec {
            directive: directive.settled(Value::Listener(v)@),
            value: Value::Listener(v)@,
        }),
{
    match directive {
        Directive::Listener(p) => if v.proto == p {
            Some(OneConfig::Listener(v))
        } else {
            None
        },
        _ => None,
    }
}

/// The line that holds `v` for `directive`, if the directive takes such a
/// value.
fn with_level(directive: Directive, v: Level) -> (out: Option<OneConfig>)
    ensures
        out.is_some() == Value::Level(v).fits(directive),
        out matches Some(c) ==> c@ == (OneConfigSpec {
            directive: directive.settled(Value::Level(v)@),
            value: Value::Level(v)@,
        }),
{
    match directive {
        Directive::LogLevel => Some(OneConfig::LogLevel(v)),
        _ => None,
    }
}

/// The line that holds `v` for `directive`, if the directive takes such a
/// value.
fn with_nftset(
    directive: Directive,
    v: ConfigForDomain<Vec<ConfigForIP<NFTsetConfig>>>,
) -> (out: Option<OneConfig>)
    ensures
        out.is_some() == Value::Nftset(v).fits(directive),
        out matches Some(c) ==> c@ == (OneConfigSpec {
            directive: directive.settled(Value::Nftset(v)@),
            value: Value::Nftset(v)@,
        }),
{
    match directive {
        Directive::NftSet => Some(OneConfig::NftSet(v)),
        _ => None,
    }
}

/// The line that holds `v` for `directive`, if the directive takes such a
/// value.
fn with_response(directive: Directive, v: ResponseMode) -> (out: Option<OneConfig>)
    ensures
        out.is_some() == Value::Response(v).fits(directive),
        out matches Some(c) ==> c@ == (OneConfigSpec {
            directive: directive.settled(Value::Response(v)@),
            value: Value::Response(v)@,
        }),
{
    match directive {
        Directive::ResponseMode => Some(OneConfig::ResponseMode(v)),
        _ => None,
    }
}

/// The line that holds `v` for `directive`, if the directive takes such a
/// value.
fn with_server(directive: Directive, v: NameServerInfo) -> (out: Option<OneConfig>)
    ensures
        out.is_some() == Value::Server(v).fits(directive),
        out matches Some(c) ==> c@ == (OneConfigSpec {
            directive: directive.settled(Value::Server(v)@),
            value: Value::Server(v)@,
        }),
{
    match directive {
        Directive::Server(_) => Some(OneConfig::Server(v)),
        _ => None,
    }
}

/// The line that holds `v` for `directive`, if the directive takes such a
/// value.
fn with_speed(directive: Directive, v: Option<Vec<SpeedCheckMode>>) -> (out: Option<OneConfig>)
    ensures
        out.is_some() == Value::Speed(v).fits(directive),
        out matches Some(c) ==> c@ == (OneConfigSpec {
            directive: directive.settled(Value::Speed(v)@),
            value: Value::Speed(v)@,
        }),
{
    match directive {
        Directive::SpeedMode => Some(OneConfig::SpeedMode(v)),
        _ => None,
    }
}

/// The line that holds `v` for `directive`, if the directive takes such a
/// value.
fn with_ip_set(directive: Directive, v: IpSetProvider) -> (out: Option<OneConfig>)
    ensures
        out.is_some() == Value::IpSet(v).fits(directive),
        out matches Some(c) ==> c@ == (OneConfigSpec {
            directive: directive.settled(Value::IpSet(v)@),
            value: Value::IpSet(v)@,
        }),
{
    match directive {
        Directive::IpSetProvider => Some(OneConfig::IpSetProvider(v)),
        _ => None,
    }
}

impl OneConfig {
    /// The line that holds `value` for `directive`; `None` where the value
    /// is not of the kind that the directive takes, or is a number too large
    /// for it.
    pub fn from_parts(directive: Directive, value: Value) -> (out: Option<OneConfig>)
        ensures
            out.is_some() == value.fits(directive),
            out matches Some(c) ==> c@ == (OneConfigSpec {
                directive: directive.settled(value@),
                value: value@,
            }),
    {
        match value {
            Value::Unit => match directive {
                Directive::GroupEnd => Some(OneConfig::GroupEnd),
                _ => None,
            },
            Value::Address(v) => with_address(directive, v),
            Value::Bool(v) => with_bool(directive, v),
            Value::Text(v) => with_text(directive, v),
            Value::Mode(v) => with_mode(directive, v),
            Value::Number(v) => with_number(directive, v),
            Value::Size(v) => with_size(directive, v),
            Value::IpOrSet(v) => with_ip_or_set(directive, v),
            Value::Client(v) => with_client(directive, v),
            Value::CName(v) => with_cname(directive, v),
            Value::Name(v) => with_name(directive, v),
            Value::Rule(v) => with_rule(directive, v),
            Value::DomainSet(v) => with_domain_set(directive, v),
            Value::Net(v) => with_net(directive, v),
            Value::Record(v) => with_record(directive, v),
            Value::Forward(v) => with_forward(directive, v),
            Value::Glob(v) => with_glob(directive, v),
            Value::Listener(v) => with_listener(directive, v),
            Value::Level(v) => with_level(directive, v),
            Value::Nftset(v) => with_nftset(directive, v),
            Value::Response(v) => with_response(directive, v),
            Value::Server(v) => with_server(directive, v),
            Value::Speed(v) => with_speed(directive, v),
            Value::IpSet(v) => with_ip_set(directive, v),
        }
    }

    /// The directive of the line.
    pub fn directive(&self) -> (d: Directive)
        ensures
            d == self@.directive,
    {
        match self {
            OneConfig::Address(_) => Directive::Address,
            OneConfig::AuditEnable(_) => Directive::AuditEnable,
            OneConfig::AuditFile(_) => Directive::AuditFile,
            OneConfig::AuditFileMode(_) => Directive::AuditFileMode,
            OneConfig::AuditNum(_) => Directive::AuditNum,
            OneConfig::AuditSize(_) => Directive::AuditSize,
            OneConfig::BindCertFile(_) => Directive::BindCertFile,
            OneConfig::BindCertKeyFile(_) => Directive::BindCertKeyFile,
            OneConfig::BindCertKeyPass(_) => Directive::BindCertKeyPass,
            OneConfig::BlacklistIp(_) => Directive::BlacklistIp,
            OneConfig::BogusNxDomain(_) => Directive::BogusNxDomain,
            OneConfig::CacheFile(_) => Directive::CacheFile,
            OneConfig::CachePersist(_) => Directive::CachePersist,
            OneConfig::CacheSize(_) => Directive::CacheSize,
            OneConfig::CacheCheckpointTime(_) => Directive::CacheCheckpointTime,
            OneConfig::CaFile(_) => Directive::CaFile,
            OneConfig::CaPath(_) => Directive::CaPath,
            OneConfig::ClientRule(_) => Directive::ClientRule,
            OneConfig::CNAME(_) => Directive::CNAME,
            OneConfig::GroupBegin(_) => Directive::GroupBegin,
            OneConfig::GroupEnd => Directive::GroupEnd,
            OneConfig::ConfFile(_) => Directive::ConfFile,
            OneConfig::DnsmasqLeaseFile(_) => Directive::DnsmasqLeaseFile,
            OneConfig::Domain(_) => Directive::Domain,
            OneConfig::DomainRule(_) => Directive::DomainRule,
            OneConfig::DomainSetProvider(_) => Directive::DomainSetProvider,
            OneConfig::DualstackIpAllowForceAAAA(_) => Directive::DualstackIpAllowForceAAAA,
            OneConfig::DualstackIpSelection(_) => Directive::DualstackIpSelection,
            OneConfig::DualstackIpSelectionThreshold(_) => Directive::DualstackIpSelectionThreshold,
            OneConfig::EdnsClientSubnet(_) => Directive::EdnsClientSubnet,
            OneConfig::ExpandPtrFromAddress(_) => Directive::ExpandPtrFromAddress,
            OneConfig::ForceAAAASOA(_) => Directive::ForceAAAASOA,
            OneConfig::ForceHTTPSSOA(_) => Directive::ForceHTTPSSOA,
            OneConfig::ForceQtypeSoa(_) => Directive::ForceQtypeSoa,
            OneConfig::ForwardRule(_) => Directive::ForwardRule,
            OneConfig::HostsFile(_) => Directive::HostsFile,
            OneConfig::IgnoreIp(_) => Directive::IgnoreIp,
            OneConfig::Listener(v) => Directive::Listener(v.proto),
            OneConfig::LocalTtl(_) => Directive::LocalTtl,
            OneConfig::LogConsole(_) => Directive::LogConsole,
            OneConfig::LogNum(_) => Directive::LogNum,
            OneConfig::LogSize(_) => Directive::LogSize,
            OneConfig::LogLevel(_) => Directive::LogLevel,
            OneConfig::LogFile(_) => Directive::LogFile,
            OneConfig::LogFileMode(_) => Directive::LogFileMode,
            OneConfig::LogFilter(_) => Directive::LogFilter,
            OneConfig::MaxReplyIpNum(_) => Directive::MaxReplyIpNum,
            OneConfig::MdnsLookup(_) => Directive::MdnsLookup,
            OneConfig::NftSet(_) => Directive::NftSet,
            OneConfig::NumWorkers(_) => Directive::NumWorkers,
            OneConfig::PrefetchDomain(_) => Directive::PrefetchDomain,
            OneConfig::ResolvHostname(_) => Directive::ResolvHostname,
            OneConfig::ResponseMode(_) => Directive::ResponseMode,
            OneConfig::ServeExpired(_) => Directive::ServeExpired,
            OneConfig::ServeExpiredTtl(_) => Directive::ServeExpiredTtl,
            OneConfig::ServeExpiredReplyTtl(_) => Directive::ServeExpiredReplyTtl,
            OneConfig::Server(v) => Directive::Server(v.url.proto),
            OneConfig::ServerName(_) => Directive::ServerName,
            OneConfig::ResolvFile(_) => Directive::ResolvFile,
            OneConfig::RrTtl(_) => Directive::RrTtl,
            OneConfig::RrTtlMin(_) => Directive::RrTtlMin,
            OneConfig::RrTtlMax(_) => Directive::RrTtlMax,
            OneConfig::RrTtlReplyMax(_) => Directive::RrTtlReplyMax,
            OneConfig::SpeedMode(_) => Directive::SpeedMode,
            OneConfig::TcpIdleTime(_) => Directive::TcpIdleTime,
            OneConfig::WhitelistIp(_) => Directive::WhitelistIp,
            OneConfig::User(_) => Directive::User,
            OneConfig::IpSetProvider(_) => Directive::IpSetProvider,
        }
    }
}

impl ValueSpec {
    /// Whether the value is of the kind that the directive takes: a number
    /// is no larger than the directive allows, and a listener speaks the
    /// transport of the directive.
    pub open spec fn fits_kind(self, kind: ValueKind) -> bool {
        match (kind, self) {
            (ValueKind::Unit, ValueSpec::Unit) => true,
            (ValueKind::Bool, ValueSpec::Bool(_)) => true,
            (ValueKind::Number(max), ValueSpec::Number(n)) => n <= max,
            (ValueKind::Text, ValueSpec::Text(_)) => true,
            (ValueKind::Size, ValueSpec::Size(_)) => true,
            (ValueKind::Mode, ValueSpec::Mode(_)) => true,
            (ValueKind::Level, ValueSpec::Level(_)) => true,
            (ValueKind::Record, ValueSpec::Record(_)) => true,
            (ValueKind::Name, ValueSpec::Name(_)) => true,
            (ValueKind::Net, ValueSpec::Net(_)) => true,
            (ValueKind::IpOrSet, ValueSpec::IpOrSet(_)) => true,
            (ValueKind::Response, ValueSpec::Response(_)) => true,
            (ValueKind::Speed, ValueSpec::Speed(_)) => true,
            (ValueKind::Address, ValueSpec::Address(_, _)) => true,
            (ValueKind::CName, ValueSpec::CName(_, _)) => true,
            (ValueKind::Rule, ValueSpec::Rule(_, _)) => true,
            (ValueKind::Forward, ValueSpec::Forward(_, _)) => true,
            (ValueKind::Nftset, ValueSpec::Nftset(_, _)) => true,
            (ValueKind::Client, ValueSpec::Client(_)) => true,
            (ValueKind::Listener(p), ValueSpec::Listener(l)) => l.proto == p,
            (ValueKind::Server(_), ValueSpec::Server(_)) => true,
            (ValueKind::Glob, ValueSpec::Glob(_)) => true,
            _ => false,
        }
    }
}

impl Value {
    /// Whether the value can stand behind the directive.
    pub open spec fn fits(&self, d: Directive) -> bool {
        match (d.spec_kind(), *self) {
            (ValueKind::DomainSet, Value::DomainSet(_)) => true,
            (ValueKind::IpSet, Value::IpSet(_)) => true,
            (kind, v) => v@.fits_kind(kind),
        }
    }
}

impl Directive {
    /// The directive as it stands in a line that holds `value`: a server
    /// line is filed under the transport of its address, whichever word
    /// asked for it.
    pub open spec fn settled(self, value: ValueSpec) -> Directive {
        match (self, value) {
            (Directive::Server(_), ValueSpec::Server(s)) => Directive::Server(s.url.proto),
            _ => self,
        }
    }

    /// Whether a word asks for the directive: every directive has one but a
    /// listener or a server with a transport that no word names.
    pub open spec fn has_keyword(self) -> bool {
        match self {
            Directive::Listener(p) => !(p is Mdns),
            Directive::Server(p) => !(p is Mdns),
            _ => true,
        }
    }
}

/// What a word means as `none` or a list of probe modes.
pub open spec fn parse_speed_spec(w: Seq<u8>) -> Option<Option<Seq<SpeedCheckMode>>> {
    if lowered(w) == kw("none") {
        Some(None)
    } else {
        match parse_speed_modes_spec(w) {
            Some(m) => Some(Some(m)),
            None => None,
        }
    }
}

/// The value that a word spells for a kind of value that one word can
/// spell; `None` for a word that spells none, and for every other kind.
#[verifier::opaque]
pub open spec fn parse_word_spec(kind: ValueKind, w: Seq<u8>) -> Option<ValueSpec> {
    match kind {
        ValueKind::Bool => match parse_bool_spec(w) {
            Some(v) => Some(ValueSpec::Bool(v)),
            None => None,
        },
        ValueKind::Number(max) => match parse_number_spec(w, 10, max) {
            Some(v) => Some(ValueSpec::Number(v)),
            None => None,
        },
        ValueKind::Text => Some(ValueSpec::Text(w)),
        ValueKind::Size => match parse_size_spec(w) {
            Some(v) => Some(ValueSpec::Size(v)),
            None => None,
        },
        ValueKind::Mode => match parse_file_mode_spec(w) {
            Some(v) => Some(ValueSpec::Mode(v)),
            None => None,
        },
        ValueKind::Level => match parse_level_spec(w) {
            Some(v) => Some(ValueSpec::Level(v)),
            None => None,
        },
        ValueKind::Record => match parse_record_type_spec(w) {
            Some(v) => Some(ValueSpec::Record(v)),
            None => None,
        },
        ValueKind::Name => match parse_name_spec(w) {
            Some(v) => Some(ValueSpec::Name(v)),
            None => None,
        },
        ValueKind::Net => match parse_net_spec(w) {
            Some(v) => Some(ValueSpec::Net(v)),
            None => None,
        },
        ValueKind::IpOrSet => match parse_ip_or_set_spec(w) {
            Some(v) => Some(ValueSpec::IpOrSet(v)),
            None => None,
        },
        ValueKind::Response => match parse_response_mode_spec(w) {
            Some(v) => Some(ValueSpec::Response(v)),
            None => None,
        },
        ValueKind::Speed => match parse_speed_spec(w) {
            Some(v) => Some(ValueSpec::Speed(v)),
            None => None,
        },
        ValueKind::Address => match parse_address_rule_spec(w) {
            Some((d, v)) => Some(ValueSpec::Address(d, v)),
            None => None,
        },
        ValueKind::CName => match parse_cname_rule_spec(w) {
            Some((d, v)) => Some(ValueSpec::CName(d, v)),
            None => None,
        },
        ValueKind::Forward => match parse_forward_rule_spec(w) {
            Some((d, v)) => Some(ValueSpec::Forward(d, v)),
            None => None,
        },
        ValueKind::Nftset => match parse_nftset_rule_spec(w) {
            Some((d, v)) => Some(ValueSpec::Nftset(d, v)),
            None => None,
        },
        ValueKind::Glob => if is_file_pattern(w) {
            Some(ValueSpec::Glob(w))
        } else {
            None
        },
        _ => None,
    }
}

/// The value of the given kind at the start of a list of words, and the
/// number of words that it takes. A value attached to a domain, as in
/// `/domain/value`, may stand in a word of its own behind `/domain/`.
#[verifier::opaque]
pub open spec fn parse_value_spec(kind: ValueKind, ws: Seq<Seq<u8>>) -> Option<(ValueSpec, nat)> {
    match kind {
        ValueKind::Unit => Some((ValueSpec::Unit, 0nat)),
        ValueKind::Rule => if ws.len() >= 1 {
            match slashed_spec(ws[0]) {
                Some((d, rest)) => {
                    let (ss, n) = parse_settings_spec(Dialect::Rule, ws.skip(1));
                    match rule_from(DomainRuleSpec::empty(), ss) {
                        Some(r) => if rest.len() == 0 {
                            Some((ValueSpec::Rule(d, r), 1 + n))
                        } else {
                            None
                        },
                        None => None,
                    }
                },
                None => None,
            }
        } else {
            None
        },
        ValueKind::DomainSet => {
            let (ss, n) = parse_settings_spec(Dialect::DomainSet, ws);
            match file_set_of(ss, true) {
                Some(s) => Some((ValueSpec::FileSet(s), n)),
                None => None,
            }
        },
        ValueKind::IpSet => {
            let (ss, n) = parse_settings_spec(Dialect::IpSet, ws);
            match file_set_of(ss, false) {
                Some(s) => Some((ValueSpec::FileSet(s), n)),
                None => None,
            }
        },
        ValueKind::Client => if ws.len() >= 1 {
            match parse_ip_or_set_spec(ws[0]) {
                Some(c) => {
                    let (ss, n) = parse_settings_spec(Dialect::Client, ws.skip(1));
                    match client_rule_from(ClientRuleSpec::empty(c), ss) {
                        Some(r) => Some((ValueSpec::Client(r), 1 + n)),
                        None => None,
                    }
                },
                None => None,
            }
        } else {
            None
        },
        ValueKind::Listener(proto) => if ws.len() >= 1 {
            match parse_bind_spec(ws[0], proto) {
                Some((addr, port)) => {
                    let (ss, n) = parse_settings_spec(Dialect::Listener, ws.skip(1));
                    match listener_from(ListenerSpec::plain(proto, addr, port), ss) {
                        Some(l) => Some((ValueSpec::Listener(l), 1 + n)),
                        None => None,
                    }
                },
                None => None,
            }
        } else {
            None
        },
        ValueKind::Server(proto) => if ws.len() >= 1 {
            match parse_url_spec(ws[0], proto) {
                Some(url) => {
                    let (ss, n) = parse_settings_spec(Dialect::Server, ws.skip(1));
                    match server_from(ServerSpec::plain(url), ss) {
                        Some(s) => Some((ValueSpec::Server(s), 1 + n)),
                        None => None,
                    }
                },
                None => None,
            }
        } else {
            None
        },
        ValueKind::Address | ValueKind::CName | ValueKind::Forward
        | ValueKind::Nftset => match slashed_value_spec(ws) {
            Some((w, n)) => match parse_word_spec(kind, w) {
                Some(v) => Some((v, n)),
                None => None,
            },
            None => None,
        },
        _ => if ws.len() >= 1 {
            match parse_word_spec(kind, ws[0]) {
                Some(v) => Some((v, 1nat)),
                None => None,
            }
        } else {
            None
        },
    }
}

/// A value attached to a domain reads the same whether it stands in the
/// word of the domain or in the next one: `/domain/ value` is
/// `/domain/value`, and takes two words where that takes one.
pub proof fn lemma_spaced_value(kind: ValueKind, d: DomainSpec, value: Seq<u8>, rest: Seq<Seq<u8>>)
    requires
        kind is Address || kind is CName || kind is Forward || kind is Nftset,
        d.canonical(),
        value.len() > 0,
    ensures
        parse_value_spec(kind, seq![slashed_text(d, Seq::empty()), value] + rest) == match parse_word_spec(
            kind,
            slashed_text(d, value),
        ) {
            Some(v) => Some((v, 2nat)),
            None => None,
        },
        parse_value_spec(kind, seq![slashed_text(d, value)] + rest) == match parse_word_spec(
            kind,
            slashed_text(d, value),
        ) {
            Some(v) => Some((v, 1nat)),
            None => None,
        },
{
    reveal(parse_value_spec);
    let open = slashed_text(d, Seq::empty());
    let whole = slashed_text(d, value);
    lemma_slashed_round_trip(d, Seq::empty());
    lemma_slashed_round_trip(d, value);
    let spaced = seq![open, value] + rest;
    assert(spaced[0] == open && spaced[1] == value);
    assert(open + value =~= whole);
    let attached = seq![whole] + rest;
    assert(attached[0] == whole);
}

/// The line `address /domain/ answer`, with the answer in a word of its
/// own, forces the answer for the domain, as `address /domain/answer`
/// does; an answer that starts with `#` is no comment there.
pub proof fn lemma_address_value(d: DomainSpec, v: AddressRuleValue, rest: Seq<Seq<u8>>)
    requires
        d.canonical(),
    ensures
        parse_value_spec(
            ValueKind::Address,
            seq![slashed_text(d, Seq::empty()), address_value_text(v)] + rest,
        ) == Some((ValueSpec::Address(d, v), 2nat)),
        parse_value_spec(ValueKind::Address, seq![slashed_text(d, address_value_text(v))] + rest)
            == Some((ValueSpec::Address(d, v), 1nat)),
{
    reveal(parse_word_spec);
    let text = address_value_text(v);
    lemma_address_rule_round_trip(d, v);
    lemma_address_value_round_trip(v);
    lemma_spaced_value(ValueKind::Address, d, text, rest);
}

/// Whether a word starts a comment.
pub open spec fn is_comment(w: Seq<u8>) -> bool {
    w.len() > 0 && w[0] == HASH
}

/// What a line means: its first word, in any case of letters, asks for a
/// directive; the words behind it are the value of the directive; and
/// nothing follows the value but a comment, which starts at a word that
/// starts with `#`.
pub open spec fn parse_line_spec(line: Seq<u8>) -> Result<OneConfigSpec, ConfigError> {
    let ws = words(line);
    if ws.len() == 0 || is_comment(ws[0]) {
        Err(ConfigError::NoDirective)
    } else {
        match directive_of(lowered(ws[0])) {
            None => Err(ConfigError::UnknownDirective),
            Some(d) => match parse_value_spec(d.spec_kind(), ws.skip(1)) {
                None => Err(ConfigError::MalformedValue),
                Some((v, n)) => if 1 + n == ws.len() || (1 + n < ws.len() && is_comment(
                    ws[1 + n as int],
                )) {
                    Ok(OneConfigSpec { directive: d.settled(v), value: v })
                } else {
                    Err(ConfigError::TrailingWords)
                },
            },
        }
    }
}

/// Reads the value that a word spells for a kind of value that is one word
/// long.
pub fn parse_word(kind: ValueKind, word: &[u8]) -> (r: Option<Value>)
    ensures
        r.is_some() == parse_word_spec(kind, word@).is_some(),
        r matches Some(v) ==> parse_word_spec(kind, word@) == Some(v@) && v@.fits_kind(kind),
{
    reveal(parse_word_spec);
    match kind {
        ValueKind::Bool => match parse_bool(word) {
            Some(v) => Some(Value::Bool(v)),
            None => None,
        },
        ValueKind::Number(max) => match parse_number(word, 10, max) {
            Some(v) => Some(Value::Number(v)),
            None => None,
        },
        ValueKind::Text => Some(Value::Text(vstd::slice::slice_to_vec(word))),
        ValueKind::Size => match Byte::from_bytes(word) {
            Some(v) => Some(Value::Size(v)),
            None => None,
        },
        ValueKind::Mode => match FileMode::from_bytes(word) {
            Some(v) => Some(Value::Mode(v)),
            None => None,
        },
        ValueKind::Level => match Level::from_bytes(word) {
            Some(v) => Some(Value::Level(v)),
            None => None,
        },
        ValueKind::Record => match RecordType::from_bytes(word) {
            Some(v) => Some(Value::Record(v)),
            None => None,
        },
        ValueKind::Name => match Name::from_bytes(word) {
            Some(v) => Some(Value::Name(v)),
            None => None,
        },
        ValueKind::Net => match IpNet::from_bytes(word) {
            Some(v) => Some(Value::Net(v)),
            None => None,
        },
        ValueKind::IpOrSet => match IpOrSet::from_bytes(word) {
            Some(v) => Some(Value::IpOrSet(v)),
            None => None,
        },
        ValueKind::Response => match ResponseMode::from_bytes(word) {
            Some(v) => Some(Value::Response(v)),
            None => None,
        },
        ValueKind::Speed => {
            let t = to_lowered(word);
            if is_keyword(t.as_slice(), "none") {
                Some(Value::Speed(None))
            } else {
                match parse_speed_modes(word) {
                    Some(v) => Some(Value::Speed(Some(v))),
                    None => None,
                }
            }
        },
        ValueKind::Address => match AddressRule::from_bytes(word) {
            Some(v) => Some(Value::Address(v)),
            None => None,
        },
        ValueKind::CName => match parse_cname_rule(word) {
            Some(v) => Some(Value::CName(v)),
            None => None,
        },
        ValueKind::Forward => match ForwardRule::from_bytes(word) {
            Some(v) => Some(Value::Forward(v)),
            None => None,
        },
        ValueKind::Nftset => match parse_nftset_rule(word) {
            Some(v) => Some(Value::Nftset(v)),
            None => None,
        },
        ValueKind::Glob => match GlobPattern::new(word) {
            Some(v) => Some(Value::Glob(v)),
            None => None,
        },
        _ => None,
    }
}

/// Reads the value of the given kind that starts at word `at`, and says how
/// many words it takes.
pub fn parse_value(kind: ValueKind, ws: &Vec<Vec<u8>>, at: usize) -> (r: Option<(Value, usize)>)
    requires
        at <= ws.len(),
    ensures
        r.is_some() == parse_value_spec(kind, rows(ws@).skip(at as int)).is_some(),
        r matches Some((v, n)) ==> {
            &&& parse_value_spec(kind, rows(ws@).skip(at as int)) == Some((v@, n as nat))
            &&& at + n <= ws.len()
            &&& kind is DomainSet ==> v is DomainSet
            &&& kind is IpSet ==> v is IpSet
            &&& !(kind is DomainSet) && !(kind is IpSet) ==> v@.fits_kind(kind)
        },
{
    reveal(parse_value_spec);
    let ghost rest = rows(ws@).skip(at as int);
    match kind {
        ValueKind::Unit => {
            return Some((Value::Unit, 0));
        },
        ValueKind::DomainSet => {
            let (settings, n) = parse_settings(Dialect::DomainSet, ws, at);
            return match DomainSetProvider::from_settings(&settings) {
                Some(s) => Some((Value::DomainSet(s), n)),
                None => None,
            };
        },
        ValueKind::IpSet => {
            let (settings, n) = parse_settings(Dialect::IpSet, ws, at);
            return match IpSetProvider::from_settings(&settings) {
                Some(s) => Some((Value::IpSet(s), n)),
                None => None,
            };
        },
        ValueKind::Address | ValueKind::CName | ValueKind::Forward | ValueKind::Nftset => {
            return match slashed_value(ws, at) {
                Some((text, n)) => match parse_word(kind, text.as_slice()) {
                    Some(v) => Some((v, n)),
                    None => None,
                },
                None => None,
            };
        },
        _ => {},
    }
    if at >= ws.len() {
        return None;
    }
    let word = ws[at].as_slice();
    assert(rest[0] == word@);
    assert(rest.skip(1) =~= rows(ws@).skip(at + 1));
    match kind {
        ValueKind::Rule => match parse_slashed(word) {
            Some((domain, from)) => {
                let (settings, n) = parse_settings(Dialect::Rule, ws, at + 1);
                match DomainRule::from_settings(&settings) {
                    Some(config) => if from == word.len() {
                        Some((Value::Rule(ConfigForDomain { domain, config }), 1 + n))
                    } else {
                        None
                    },
                    None => None,
                }
            },
            None => None,
        },
        ValueKind::Client => match IpOrSet::from_bytes(word) {
            Some(client) => {
                let (settings, n) = parse_settings(Dialect::Client, ws, at + 1);
                match ClientRule::from_settings(client, &settings) {
                    Some(v) => Some((Value::Client(v), 1 + n)),
                    None => None,
                }
            },
            None => None,
        },
        ValueKind::Listener(proto) => match parse_bind(word, proto) {
            Some((addr, port)) => {
                let (settings, n) = parse_settings(Dialect::Listener, ws, at + 1);
                match ListenerConfig::from_settings(proto, addr, port, &settings) {
                    Some(v) => Some((Value::Listener(v), 1 + n)),
                    None => None,
                }
            },
            None => None,
        },
        ValueKind::Server(proto) => match DnsUrl::from_bytes(word, proto) {
            Some(url) => {
                let (settings, n) = parse_settings(Dialect::Server, ws, at + 1);
                match NameServerInfo::from_settings(url, &settings) {
                    Some(v) => Some((Value::Server(v), 1 + n)),
                    None => None,
                }
            },
            None => None,
        },
        _ => match parse_word(kind, word) {
            Some(v) => Some((v, 1)),
            None => None,
        },
    }
}

/// Reads a line of configuration.
pub fn parse_line(line: &[u8]) -> (r: Result<OneConfig, ConfigError>)
    ensures
        match r {
            Ok(c) => parse_line_spec(line@) == Ok::<OneConfigSpec, ConfigError>(c@),
            Err(e) => parse_line_spec(line@) == Err::<OneConfigSpec, ConfigError>(e),
        },
{
    let ws = split_words(line);
    if ws.len() == 0 {
        return Err(ConfigError::NoDirective);
    }
    assert(rows(ws@)[0] == ws@[0]@);
    if ws[0].len() > 0 && ws[0][0] == HASH {
        return Err(ConfigError::NoDirective);
    }
    let key = to_lowered(ws[0].as_slice());
    let d = match find_directive(key.as_slice()) {
        Some(d) => d,
        None => {
            return Err(ConfigError::UnknownDirective);
        },
    };
    let (value, n) = match parse_value(d.kind(), &ws, 1) {
        Some(r) => r,
        None => {
            return Err(ConfigError::MalformedValue);
        },
    };
    let end = 1 + n;
    if end < ws.len() {
        assert(rows(ws@)[end as int] == ws@[end as int]@);
        if !(ws[end].len() > 0 && ws[end][0] == HASH) {
            return Err(ConfigError::TrailingWords);
        }
    }
    match OneConfig::from_parts(d, value) {
        Some(c) => Ok(c),
        None => Err(ConfigError::MalformedValue),
    }
}

/// Reads the first line of `input` as a line of configuration, and gives
/// back what follows that line, from its line end on.
pub fn parse_config(input: &str) -> (r: Result<(&str, OneConfig), ConfigError>)
    ensures
        ({
            let bytes = input.spec_bytes();
            let n = line_len(bytes);
            match r {
                Ok((rest, c)) => parse_line_spec(bytes.take(n)) == Ok::<OneConfigSpec, ConfigError>(
                    c@,
                ) && rest.spec_bytes() == bytes.skip(n),
                Err(e) => parse_line_spec(bytes.take(n)) == Err::<OneConfigSpec, ConfigError>(e),
            }
        }),
{
    let bytes = input.as_bytes();
    let line = first_line(bytes);
    let n = line.len();
    proof {
        lemma_line_len_bounds(bytes@);
        lemma_line_end_is_boundary(input, n as int);
    }
    let (_, rest) = input.split_at(n);
    assert(rest.spec_bytes() =~= bytes@.skip(n as int));
    match parse_line(line) {
        Ok(c) => Ok((rest, c)),
        Err(e) => Err(e),
    }
}

/// The place of a line end in a string, and the end of the string, lie
/// between two characters.
proof fn lemma_line_end_is_boundary(input: &str, n: int)
    requires
        0 <= n <= input.spec_bytes().len(),
        n < input.spec_bytes().len() ==> is_line_end(input.spec_bytes()[n]),
    ensures
        vstd::utf8::is_char_boundary(input.spec_bytes(), n),
{
    let bytes = input.spec_bytes();
    vstd::utf8::encode_utf8_valid_utf8(input@);
    if n == bytes.len() {
        vstd::utf8::is_char_boundary_start_end_of_seq(bytes);
    } else {
        let b = bytes[n];
        assert(!vstd::utf8::is_continuation_byte(b)) by {
            assert(b == 10 || b == 13);
            assert(10u8 & 0xC0 != 0x80 && 13u8 & 0xC0 != 0x80) by (bit_vector);
        }
        vstd::utf8::is_char_boundary_iff_not_is_continuation_byte(bytes, n);
    }
}

/// The words of the line that attaches a rule to a domain: the directive,
/// the domain between slashes, and the settings of the rule.
pub open spec fn rule_line_words(d: DomainSpec, r: DomainRuleSpec) -> Seq<Seq<u8>> {
    seq![Directive::DomainRule.keyword(), slashed_text(d, Seq::empty())] + settings_words(
        r.settings(),
    )
}

/// The line that attaches a rule to a domain.
pub open spec fn rule_line(d: DomainSpec, r: DomainRuleSpec) -> Seq<u8> {
    join_words(rule_line_words(d, r))
}

/// Reading the line that attaches a rule to a domain gives the domain and
/// the rule back.
pub proof fn lemma_rule_line_round_trip(d: DomainSpec, r: DomainRuleSpec)
    requires
        d.canonical(),
        r.canonical(),
    ensures
        parse_line_spec(rule_line(d, r)) == Ok::<OneConfigSpec, ConfigError>(
            OneConfigSpec { directive: Directive::DomainRule, value: ValueSpec::Rule(d, r) },
        ),
{
    let key = Directive::DomainRule.keyword();
    let subject = slashed_text(d, Seq::empty());
    let ss = r.settings();
    let ws = rule_line_words(d, r);
    let none = Seq::<Seq<u8>>::empty();
    reveal_strlit("domain-rules");
    lemma_kw("domain-rules");
    assert(lowered(key) =~= key);
    assert(is_word(key));
    lemma_keyword(Directive::DomainRule);
    lemma_slashed_round_trip(d, Seq::empty());
    assert(parse_setting_spec(Dialect::Rule, none).is_none()) by {
        reveal(parse_setting_spec);
    }
    lemma_settings_round_trip(Dialect::Rule, ss, none);
    lemma_rule_of_settings(r);
    assert forall|k: int| 0 <= k < ws.len() implies is_word(#[trigger] ws[k]) by {
        if k >= 2 {
            assert(ws[k] == settings_words(ss)[k - 2]);
        }
    }
    lemma_words_of_join(ws);
    assert(ws[0] == key);
    assert(ws.skip(1)[0] == subject);
    assert(ws.skip(1).skip(1) =~= settings_words(ss) + none);
    assert(parse_value_spec(ValueKind::Rule, ws.skip(1)) == Some(
        (ValueSpec::Rule(d, r), 1 + settings_words(ss).len()),
    )) by {
        reveal(parse_value_spec);
    }
}

/// The line that forces an answer for a domain, the answer in a word of
/// its own: `address /domain/ answer`.
pub open spec fn address_line(d: DomainSpec, v: AddressRuleValue) -> Seq<u8> {
    join_words(
        seq![Directive::Address.keyword(), slashed_text(d, Seq::empty()), address_value_text(v)],
    )
}

/// Reading the line that forces an answer for a domain gives the domain
/// and the answer: an answer that starts with `#` is read as the answer,
/// not as a comment.
pub proof fn lemma_address_line(d: DomainSpec, v: AddressRuleValue)
    requires
        d.canonical(),
    ensures
        parse_line_spec(address_line(d, v)) == Ok::<OneConfigSpec, ConfigError>(
            OneConfigSpec { directive: Directive::Address, value: ValueSpec::Address(d, v) },
        ),
{
    let key = Directive::Address.keyword();
    let subject = slashed_text(d, Seq::empty());
    let answer = address_value_text(v);
    let ws = seq![key, subject, answer];
    let none = Seq::<Seq<u8>>::empty();
    reveal_strlit("address");
    lemma_kw("address");
    assert(lowered(key) =~= key);
    assert(is_word(key));
    lemma_keyword(Directive::Address);
    lemma_slashed_round_trip(d, Seq::empty());
    lemma_address_value_round_trip(v);
    lemma_words_of_join(ws);
    assert(ws.skip(1) =~= seq![subject, answer] + none);
    lemma_address_value(d, v, none);
}

/// Writes the line that attaches a rule to a domain.
pub fn format_rule_line(domain: &Domain, rule: &DomainRule) -> (out: Vec<u8>)
    ensures
        out@ == rule_line(domain@, rule@),
{
    let mut ws: Vec<Vec<u8>> = Vec::new();
    ws.push(keyword("domain-rules"));
    let nothing: Vec<u8> = Vec::new();
    ws.push(format_slashed(domain, nothing.as_slice()));
    let settings = rule.to_settings();
    let ghost all = settings_view(settings@);
    let ghost head = rows(ws@);
    assert(head =~= seq![Directive::DomainRule.keyword(), slashed_text(domain@, Seq::empty())]);
    let mut i: usize = 0;
    assert(all.skip(0) =~= all);
    while i < settings.len()
        invariant
            i <= settings.len(),
            all == settings_view(settings@),
            rows(ws@) + settings_words(all.skip(i as int)) == head + settings_words(all),
        decreases settings.len() - i,
    {
        let piece = format_setting(&settings[i]);
        let ghost before = rows(ws@);
        proof {
            assert(all.skip(i as int)[0] == settings@[i as int]@);
            assert(all.skip(i as int).skip(1) =~= all.skip(i + 1));
        }
        let mut k: usize = 0;
        while k < piece.len()
            invariant
                k <= piece.len(),
                rows(ws@) == before + rows(piece@).take(k as int),
            decreases piece.len() - k,
        {
            let ghost was = rows(ws@);
            ws.push(vstd::slice::slice_to_vec(piece[k].as_slice()));
            proof {
                assert(rows(ws@) =~= was.push(piece@[k as int]@));
                assert(rows(piece@).take(k + 1) =~= rows(piece@).take(k as int).push(
                    piece@[k as int]@,
                ));
            }
            k += 1;
        }
        proof {
            assert(rows(piece@).take(k as int) =~= rows(piece@));
            assert(before + rows(piece@) + settings_words(all.skip(i + 1)) =~= before + (rows(
                piece@,
            ) + settings_words(all.skip(i + 1))));
        }
        i += 1;
    }
    proof {
        assert(all.skip(i as int) =~= Seq::<SettingSpec>::empty());
        assert(rows(ws@) + Seq::<Seq<u8>>::empty() =~= rows(ws@));
    }
    join_with(&ws, SPACE)
}

/// Values that a configuration line can hold as the value of a directive.
pub trait NomParser: Sized + View {
    /// What the words spell as a value of this type, and how many of them
    /// the value takes.
    spec fn parse_spec(ws: Seq<Seq<u8>>) -> Option<(Self::V, nat)>;

    /// Reads the value that starts at word `at`, and says how many words it
    /// takes.
    fn parse(ws: &Vec<Vec<u8>>, at: usize) -> (r: Option<(Self, usize)>)
        requires
            at <= ws.len(),
        ensures
            r matches Some((v, n)) ==> Self::parse_spec(rows(ws@).skip(at as int)) == Some(
                (v@, n as nat),
            ) && at + n <= ws.len(),
            r is None ==> Self::parse_spec(rows(ws@).skip(at as int)) is None,
    ;
}

impl NomParser for String {
    /// A word of text: the characters that the bytes of the word spell.
    open spec fn parse_spec(ws: Seq<Seq<u8>>) -> Option<(Seq<char>, nat)> {
        if ws.len() >= 1 && vstd::utf8::valid_utf8(ws[0]) {
            Some((vstd::utf8::decode_utf8(ws[0]), 1nat))
        } else {
            None
        }
    }

    fn parse(ws: &Vec<Vec<u8>>, at: usize) -> (r: Option<(String, usize)>) {
        if at >= ws.len() {
            return None;
        }
        assert(rows(ws@).skip(at as int)[0] == ws@[at as int]@);
        match utf8_text(ws[at].as_slice()) {
            Some(text) => {
                proof {
                    vstd::utf8::encode_utf8_decode_utf8(text@);
                }
                Some((text.to_owned(), 1))
            },
            None => None,
        }
    }
}

impl NomParser for u64 {
    open spec fn parse_spec(ws: Seq<Seq<u8>>) -> Option<(u64, nat)> {
        if ws.len() >= 1 {
            match parse_number_spec(ws[0], 10, u64::MAX) {
                Some(v) => Some((v, 1nat)),
                None => None,
            }
        } else {
            None
        }
    }

    fn parse(ws: &Vec<Vec<u8>>, at: usize) -> (r: Option<(u64, usize)>) {
        if at >= ws.len() {
            return None;
        }
        assert(rows(ws@).skip(at as int)[0] == ws@[at as int]@);
        match parse_number(ws[at].as_slice(), 10, u64::MAX) {
            Some(v) => Some((v, 1)),
            None => None,
        }
    }
}

impl NomParser for usize {
    open spec fn parse_spec(ws: Seq<Seq<u8>>) -> Option<(usize, nat)> {
        if ws.len() >= 1 {
            match parse_number_spec(ws[0], 10, usize::MAX as u64) {
                Some(v) => Some((v as usize, 1nat)),
                None => None,
            }
        } else {
            None
        }
    }

    fn parse(ws: &Vec<Vec<u8>>, at: usize) -> (r: Option<(usize, usize)>) {
        if at >= ws.len() {
            return None;
        }
        assert(rows(ws@).skip(at as int)[0] == ws@[at as int]@);
        match parse_number(ws[at].as_slice(), 10, usize::MAX as u64) {
            Some(v) => Some((v as usize, 1)),
            None => None,
        }
    }
}

impl NomParser for u8 {
    open spec fn parse_spec(ws: Seq<Seq<u8>>) -> Option<(u8, nat)> {
        if ws.len() >= 1 {
            match parse_number_spec(ws[0], 10, 255) {
                Some(v) => Some((v as u8, 1nat)),
                None => None,
            }
        } else {
            None
        }
    }

    fn parse(ws: &Vec<Vec<u8>>, at: usize) -> (r: Option<(u8, usize)>) {
        if at >= ws.len() {
            return None;
        }
        assert(rows(ws@).skip(at as int)[0] == ws@[at as int]@);
        match parse_number(ws[at].as_slice(), 10, 255) {
            Some(v) => Some((v as u8, 1)),
            None => None,
        }
    }
}

impl NomParser for bool {
    open spec fn parse_spec(ws: Seq<Seq<u8>>) -> Option<(bool, nat)> {
        if ws.len() >= 1 {
            match parse_bool_spec(ws[0]) {
                Some(v) => Some((v, 1nat)),
                None => None,
            }
        } else {
            None
        }
    }

    fn parse(ws: &Vec<Vec<u8>>, at: usize) -> (r: Option<(bool, usize)>) {
        if at >= ws.len() {
            return None;
        }
        assert(rows(ws@).skip(at as int)[0] == ws@[at as int]@);
        match parse_bool(ws[at].as_slice()) {
            Some(v) => Some((v, 1)),
            None => None,
        }
    }
}


proof fn lemma_word_prints_1()
    ensures
        word_print(kw("address")) == 125006336,
        word_print(kw("audit-enable")) == 207970665,
        word_print(kw("audit-file")) == 174417525,
        word_print(kw("audit-file-mode")) == 258305382,
        word_print(kw("audit-num")) == 158149985,
        word_print(kw("audit-size")) == 174420853,
        word_print(kw("bind-cert-file")) == 241526371,
        word_print(kw("bind-cert-key-file")) == 308635181,
        word_print(kw("bind-cert-key-pass")) == 309555245,
        word_print(kw("blacklist-ip")) == 208696419,
        word_print(kw("bogus-nxdomain")) == 242117933,
        word_print(kw("cache-file")) == 174417505,
        word_print(kw("cache-persist")) == 225735525,
        word_print(kw("cache-size")) == 174420833,
        word_print(kw("cache-checkpoint-time")) == 358970479,
        word_print(kw("ca-file")) == 124085760,
{
    reveal(word_print);
    reveal_strlit("address");
    lemma_kw("address");
    reveal_strlit("audit-enable");
    lemma_kw("audit-enable");
    reveal_strlit("audit-file");
    lemma_kw("audit-file");
    reveal_strlit("audit-file-mode");
    lemma_kw("audit-file-mode");
    reveal_strlit("audit-num");
    lemma_kw("audit-num");
    reveal_strlit("audit-size");
    lemma_kw("audit-size");
    reveal_strlit("bind-cert-file");
    lemma_kw("bind-cert-file");
    reveal_strlit("bind-cert-key-file");
    lemma_kw("bind-cert-key-file");
    reveal_strlit("bind-cert-key-pass");
    lemma_kw("bind-cert-key-pass");
    reveal_strlit("blacklist-ip");
    lemma_kw("blacklist-ip");
    reveal_strlit("bogus-nxdomain");
    lemma_kw("bogus-nxdomain");
    reveal_strlit("cache-file");
    lemma_kw("cache-file");
    reveal_strlit("cache-persist");
    lemma_kw("cache-persist");
    reveal_strlit("cache-size");
    lemma_kw("cache-size");
    reveal_strlit("cache-checkpoint-time");
    lemma_kw("cache-checkpoint-time");
    reveal_strlit("ca-file");
    lemma_kw("ca-file");
}

proof fn lemma_word_prints_2()
    ensures
        word_print(kw("ca-path")) == 124284928,
        word_print(kw("client-rules")) == 208893285,
        word_print(kw("client-rule")) == 191197801,
        word_print(kw("cname")) == 90533376,
        word_print(kw("group-begin")) == 191784303,
        word_print(kw("group-end")) == 157560167,
        word_print(kw("conf-file")) == 157640291,
        word_print(kw("dnsmasq-lease-file")) == 308635237,
        word_print(kw("domain")) == 107900160,
        word_print(kw("domain-rules")) == 208893281,
        word_print(kw("domain-rule")) == 191197805,
        word_print(kw("domain-set")) == 175385967,
        word_print(kw("dualstack-ip-allow-force-aaaa")) == 492921199,
        word_print(kw("dualstack-ip-selection")) == 376337523,
        word_print(kw("dualstack-ip-selection-threshold")) == 543451252,
        word_print(kw("edns-client-subnet")) == 309617262,
{
    reveal(word_print);
    reveal_strlit("ca-path");
    lemma_kw("ca-path");
    reveal_strlit("client-rules");
    lemma_kw("client-rules");
    reveal_strlit("client-rule");
    lemma_kw("client-rule");
    reveal_strlit("cname");
    lemma_kw("cname");
    reveal_strlit("group-begin");
    lemma_kw("group-begin");
    reveal_strlit("group-end");
    lemma_kw("group-end");
    reveal_strlit("conf-file");
    lemma_kw("conf-file");
    reveal_strlit("dnsmasq-lease-file");
    lemma_kw("dnsmasq-lease-file");
    reveal_strlit("domain");
    lemma_kw("domain");
    reveal_strlit("domain-rules");
    lemma_kw("domain-rules");
    reveal_strlit("domain-rule");
    lemma_kw("domain-rule");
    reveal_strlit("domain-set");
    lemma_kw("domain-set");
    reveal_strlit("dualstack-ip-allow-force-aaaa");
    lemma_kw("dualstack-ip-allow-force-aaaa");
    reveal_strlit("dualstack-ip-selection");
    lemma_kw("dualstack-ip-selection");
    reveal_strlit("dualstack-ip-selection-threshold");
    lemma_kw("dualstack-ip-selection-threshold");
    reveal_strlit("edns-client-subnet");
    lemma_kw("edns-client-subnet");
}

proof fn lemma_word_prints_3()
    ensures
        word_print(kw("expand-ptr-from-address")) == 393441901,
        word_print(kw("force-aaaa-soa")) == 241249581,
        word_print(kw("force-https-soa")) == 258026856,
        word_print(kw("force-qtype-soa")) == 258026865,
        word_print(kw("nameserver")) == 175272545,
        word_print(kw("hosts-file")) == 174417519,
        word_print(kw("ignore-ip")) == 158360937,
        word_print(kw("bind")) == 73687552,
        word_print(kw("bind-tcp")) == 141569280,
        word_print(kw("bind-tls")) == 141765888,
        word_print(kw("bind-https")) == 175338601,
        word_print(kw("bind-quic")) == 157512034,
        word_print(kw("local-ttl")) == 158084460,
        word_print(kw("log-console")) == 191198055,
        word_print(kw("log-num")) == 124595456,
        word_print(kw("log-size")) == 140866304,
{
    reveal(word_print);
    reveal_strlit("expand-ptr-from-address");
    lemma_kw("expand-ptr-from-address");
    reveal_strlit("force-aaaa-soa");
    lemma_kw("force-aaaa-soa");
    reveal_strlit("force-https-soa");
    lemma_kw("force-https-soa");
    reveal_strlit("force-qtype-soa");
    lemma_kw("force-qtype-soa");
    reveal_strlit("nameserver");
    lemma_kw("nameserver");
    reveal_strlit("hosts-file");
    lemma_kw("hosts-file");
    reveal_strlit("ignore-ip");
    lemma_kw("ignore-ip");
    reveal_strlit("bind");
    lemma_kw("bind");
    reveal_strlit("bind-tcp");
    lemma_kw("bind-tcp");
    reveal_strlit("bind-tls");
    lemma_kw("bind-tls");
    reveal_strlit("bind-https");
    lemma_kw("bind-https");
    reveal_strlit("bind-quic");
    lemma_kw("bind-quic");
    reveal_strlit("local-ttl");
    lemma_kw("local-ttl");
    reveal_strlit("log-console");
    lemma_kw("log-console");
    reveal_strlit("log-num");
    lemma_kw("log-num");
    reveal_strlit("log-size");
    lemma_kw("log-size");
}

proof fn lemma_word_prints_4()
    ensures
        word_print(kw("log-level")) == 158098796,
        word_print(kw("log-file")) == 140862976,
        word_print(kw("log-file-mode")) == 224750950,
        word_print(kw("log-filter")) == 175271023,
        word_print(kw("max-reply-ip-num")) == 275590508,
        word_print(kw("mdns-lookup")) == 191917934,
        word_print(kw("nftset")) == 108295168,
        word_print(kw("num-workers")) == 192113517,
        word_print(kw("prefetch-domain")) == 258895203,
        word_print(kw("resolv-hostname")) == 258305581,
        word_print(kw("resolv-hostanme")) == 258302253,
        word_print(kw("response-mode")) == 224750959,
        word_print(kw("response")) == 140865280,
        word_print(kw("serve-expired")) == 224684389,
        word_print(kw("serve-expired-ttl")) == 292302192,
        word_print(kw("serve-expired-reply-ttl")) == 392965490,
{
    reveal(word_print);
    reveal_strlit("log-level");
    lemma_kw("log-level");
    reveal_strlit("log-file");
    lemma_kw("log-file");
    reveal_strlit("log-file-mode");
    lemma_kw("log-file-mode");
    reveal_strlit("log-filter");
    lemma_kw("log-filter");
    reveal_strlit("max-reply-ip-num");
    lemma_kw("max-reply-ip-num");
    reveal_strlit("mdns-lookup");
    lemma_kw("mdns-lookup");
    reveal_strlit("nftset");
    lemma_kw("nftset");
    reveal_strlit("num-workers");
    lemma_kw("num-workers");
    reveal_strlit("prefetch-domain");
    lemma_kw("prefetch-domain");
    reveal_strlit("resolv-hostname");
    lemma_kw("resolv-hostname");
    reveal_strlit("resolv-hostanme");
    lemma_kw("resolv-hostanme");
    reveal_strlit("response-mode");
    lemma_kw("response-mode");
    reveal_strlit("response");
    lemma_kw("response");
    reveal_strlit("serve-expired");
    lemma_kw("serve-expired");
    reveal_strlit("serve-expired-ttl");
    lemma_kw("serve-expired-ttl");
    reveal_strlit("serve-expired-reply-ttl");
    lemma_kw("serve-expired-reply-ttl");
}

proof fn lemma_word_prints_5()
    ensures
        word_print(kw("server")) == 108163584,
        word_print(kw("server-tcp")) == 175123813,
        word_print(kw("server-tls")) == 175320421,
        word_print(kw("server-https")) == 208893046,
        word_print(kw("server-quic")) == 191066482,
        word_print(kw("server-name")) == 191196786,
        word_print(kw("resolv-file")) == 191194739,
        word_print(kw("rr-ttl")) == 107752704,
        word_print(kw("rr-ttl-min")) == 174992754,
        word_print(kw("rr-ttl-max")) == 175648114,
        word_print(kw("rr-ttl-reply-max")) == 276311410,
        word_print(kw("speed-check-mode")) == 275082600,
        word_print(kw("tcp-idle-time")) == 224752745,
        word_print(kw("whitelist-ip")) == 208696436,
        word_print(kw("user")) == 74609920,
        word_print(kw("ip-set")) == 108276992,
{
    reveal(word_print);
    reveal_strlit("server");
    lemma_kw("server");
    reveal_strlit("server-tcp");
    lemma_kw("server-tcp");
    reveal_strlit("server-tls");
    lemma_kw("server-tls");
    reveal_strlit("server-https");
    lemma_kw("server-https");
    reveal_strlit("server-quic");
    lemma_kw("server-quic");
    reveal_strlit("server-name");
    lemma_kw("server-name");
    reveal_strlit("resolv-file");
    lemma_kw("resolv-file");
    reveal_strlit("rr-ttl");
    lemma_kw("rr-ttl");
    reveal_strlit("rr-ttl-min");
    lemma_kw("rr-ttl-min");
    reveal_strlit("rr-ttl-max");
    lemma_kw("rr-ttl-max");
    reveal_strlit("rr-ttl-reply-max");
    lemma_kw("rr-ttl-reply-max");
    reveal_strlit("speed-check-mode");
    lemma_kw("speed-check-mode");
    reveal_strlit("tcp-idle-time");
    lemma_kw("tcp-idle-time");
    reveal_strlit("whitelist-ip");
    lemma_kw("whitelist-ip");
    reveal_strlit("user");
    lemma_kw("user");
    reveal_strlit("ip-set");
    lemma_kw("ip-set");
}

/// The prints of the words of all the directives.
proof fn lemma_word_prints()
    ensures
        word_print(kw("address")) == 125006336,
        word_print(kw("audit-enable")) == 207970665,
        word_print(kw("audit-file")) == 174417525,
        word_print(kw("audit-file-mode")) == 258305382,
        word_print(kw("audit-num")) == 158149985,
        word_print(kw("audit-size")) == 174420853,
        word_print(kw("bind-cert-file")) == 241526371,
        word_print(kw("bind-cert-key-file")) == 308635181,
        word_print(kw("bind-cert-key-pass")) == 309555245,
        word_print(kw("blacklist-ip")) == 208696419,
        word_print(kw("bogus-nxdomain")) == 242117933,
        word_print(kw("cache-file")) == 174417505,
        word_print(kw("cache-persist")) == 225735525,
        word_print(kw("cache-size")) == 174420833,
        word_print(kw("cache-checkpoint-time")) == 358970479,
        word_print(kw("ca-file")) == 124085760,
        word_print(kw("ca-path")) == 124284928,
        word_print(kw("client-rules")) == 208893285,
        word_print(kw("client-rule")) == 191197801,
        word_print(kw("cname")) == 90533376,
        word_print(kw("group-begin")) == 191784303,
        word_print(kw("group-end")) == 157560167,
        word_print(kw("conf-file")) == 157640291,
        word_print(kw("dnsmasq-lease-file")) == 308635237,
        word_print(kw("domain")) == 107900160,
        word_print(kw("domain-rules")) == 208893281,
        word_print(kw("domain-rule")) == 191197805,
        word_print(kw("domain-set")) == 175385967,
        word_print(kw("dualstack-ip-allow-force-aaaa")) == 492921199,
        word_print(kw("dualstack-ip-selection")) == 376337523,
        word_print(kw("dualstack-ip-selection-threshold")) == 543451252,
        word_print(kw("edns-client-subnet")) == 309617262,
        word_print(kw("expand-ptr-from-address")) == 393441901,
        word_print(kw("force-aaaa-soa")) == 241249581,
        word_print(kw("force-https-soa")) == 258026856,
        word_print(kw("force-qtype-soa")) == 258026865,
        word_print(kw("nameserver")) == 175272545,
        word_print(kw("hosts-file")) == 174417519,
        word_print(kw("ignore-ip")) == 158360937,
        word_print(kw("bind")) == 73687552,
        word_print(kw("bind-tcp")) == 141569280,
        word_print(kw("bind-tls")) == 141765888,
        word_print(kw("bind-https")) == 175338601,
        word_print(kw("bind-quic")) == 157512034,
        word_print(kw("local-ttl")) == 158084460,
        word_print(kw("log-console")) == 191198055,
        word_print(kw("log-num")) == 124595456,
        word_print(kw("log-size")) == 140866304,
        word_print(kw("log-level")) == 158098796,
        word_print(kw("log-file")) == 140862976,
        word_print(kw("log-file-mode")) == 224750950,
        word_print(kw("log-filter")) == 175271023,
        word_print(kw("max-reply-ip-num")) == 275590508,
        word_print(kw("mdns-lookup")) == 191917934,
        word_print(kw("nftset")) == 108295168,
        word_print(kw("num-workers")) == 192113517,
        word_print(kw("prefetch-domain")) == 258895203,
        word_print(kw("resolv-hostname")) == 258305581,
        word_print(kw("resolv-hostanme")) == 258302253,
        word_print(kw("response-mode")) == 224750959,
        word_print(kw("response")) == 140865280,
        word_print(kw("serve-expired")) == 224684389,
        word_print(kw("serve-expired-ttl")) == 292302192,
        word_print(kw("serve-expired-reply-ttl")) == 392965490,
        word_print(kw("server")) == 108163584,
        word_print(kw("server-tcp")) == 175123813,
        word_print(kw("server-tls")) == 175320421,
        word_print(kw("server-https")) == 208893046,
        word_print(kw("server-quic")) == 191066482,
        word_print(kw("server-name")) == 191196786,
        word_print(kw("resolv-file")) == 191194739,
        word_print(kw("rr-ttl")) == 107752704,
        word_print(kw("rr-ttl-min")) == 174992754,
        word_print(kw("rr-ttl-max")) == 175648114,
        word_print(kw("rr-ttl-reply-max")) == 276311410,
        word_print(kw("speed-check-mode")) == 275082600,
        word_print(kw("tcp-idle-time")) == 224752745,
        word_print(kw("whitelist-ip")) == 208696436,
        word_print(kw("user")) == 74609920,
        word_print(kw("ip-set")) == 108276992,
{
    lemma_word_prints_1();
    lemma_word_prints_2();
    lemma_word_prints_3();
    lemma_word_prints_4();
    lemma_word_prints_5();
}

/// The print of the word or words of a directive.
proof fn lemma_directive_print(d: Directive)
    requires
        d.has_keyword(),
    ensures
        word_print(d.keyword()) == directive_print(d),
        d.alias() matches Some(a) ==> word_print(a) == alias_print(d),
{
    lemma_word_prints();
}

/// The print of the word of a directive.
pub open spec fn directive_print(d: Directive) -> int {
    match d {
        Directive::Address => 125006336,
        Directive::AuditEnable => 207970665,
        Directive::AuditFile => 174417525,
        Directive::AuditFileMode => 258305382,
        Directive::AuditNum => 158149985,
        Directive::AuditSize => 174420853,
        Directive::BindCertFile => 241526371,
        Directive::BindCertKeyFile => 308635181,
        Directive::BindCertKeyPass => 309555245,
        Directive::BlacklistIp => 208696419,
        Directive::BogusNxDomain => 242117933,
        Directive::CacheFile => 174417505,
        Directive::CachePersist => 225735525,
        Directive::CacheSize => 174420833,
        Directive::CacheCheckpointTime => 358970479,
        Directive::CaFile => 124085760,
        Directive::CaPath => 124284928,
        Directive::ClientRule => 208893285,
        Directive::CNAME => 90533376,
        Directive::GroupBegin => 191784303,
        Directive::GroupEnd => 157560167,
        Directive::ConfFile => 157640291,
        Directive::DnsmasqLeaseFile => 308635237,
        Directive::Domain => 107900160,
        Directive::DomainRule => 208893281,
        Directive::DomainSetProvider => 175385967,
        Directive::DualstackIpAllowForceAAAA => 492921199,
        Directive::DualstackIpSelection => 376337523,
        Directive::DualstackIpSelectionThreshold => 543451252,
        Directive::EdnsClientSubnet => 309617262,
        Directive::ExpandPtrFromAddress => 393441901,
        Directive::ForceAAAASOA => 241249581,
        Directive::ForceHTTPSSOA => 258026856,
        Directive::ForceQtypeSoa => 258026865,
        Directive::ForwardRule => 175272545,
        Directive::HostsFile => 174417519,
        Directive::IgnoreIp => 158360937,
        Directive::Listener(Protocol::Udp) => 73687552,
        Directive::Listener(Protocol::Tcp) => 141569280,
        Directive::Listener(Protocol::Tls) => 141765888,
        Directive::Listener(Protocol::Https) => 175338601,
        Directive::Listener(Protocol::Quic) => 157512034,
        Directive::Listener(_) => 0,
        Directive::LocalTtl => 158084460,
        Directive::LogConsole => 191198055,
        Directive::LogNum => 124595456,
        Directive::LogSize => 140866304,
        Directive::LogLevel => 158098796,
        Directive::LogFile => 140862976,
        Directive::LogFileMode => 224750950,
        Directive::LogFilter => 175271023,
        Directive::MaxReplyIpNum => 275590508,
        Directive::MdnsLookup => 191917934,
        Directive::NftSet => 108295168,
        Directive::NumWorkers => 192113517,
        Directive::PrefetchDomain => 258895203,
        Directive::ResolvHostname => 258305581,
        Directive::ResponseMode => 224750959,
        Directive::ServeExpired => 224684389,
        Directive::ServeExpiredTtl => 292302192,
        Directive::ServeExpiredReplyTtl => 392965490,
        Directive::Server(Protocol::Udp) => 108163584,
        Directive::Server(Protocol::Tcp) => 175123813,
        Directive::Server(Protocol::Tls) => 175320421,
        Directive::Server(Protocol::Https) => 208893046,
        Directive::Server(Protocol::Quic) => 191066482,
        Directive::Server(_) => 0,
        Directive::ServerName => 191196786,
        Directive::ResolvFile => 191194739,
        Directive::RrTtl => 107752704,
        Directive::RrTtlMin => 174992754,
        Directive::RrTtlMax => 175648114,
        Directive::RrTtlReplyMax => 276311410,
        Directive::SpeedMode => 275082600,
        Directive::TcpIdleTime => 224752745,
        Directive::WhitelistIp => 208696436,
        Directive::User => 74609920,
        Directive::IpSetProvider => 108276992,
    }
}

/// The print of the second word of a directive that has one.
pub open spec fn alias_print(d: Directive) -> int {
    match d {
        Directive::ClientRule => 191197801,
        Directive::DomainRule => 191197805,
        Directive::ResolvHostname => 258302253,
        Directive::ResponseMode => 140865280,
        _ => 0,
    }
}

/// No two directives have a word of the same print.
proof fn lemma_prints_differ(a: Directive, b: Directive)
    requires
        a.has_keyword(),
        b.has_keyword(),
        a != b,
    ensures
        directive_print(a) != directive_print(b),
        directive_print(a) != alias_print(b),
        alias_print(a) != 0 ==> alias_print(a) != alias_print(b),
{
}

/// A word asks for one directive at most.
pub proof fn lemma_one_directive(word: Seq<u8>, a: Directive, b: Directive)
    requires
        asks_for(word, a),
        asks_for(word, b),
    ensures
        a == b,
{
    if a != b {
        lemma_directive_print(a);
        lemma_directive_print(b);
        lemma_prints_differ(a, b);
        lemma_prints_differ(b, a);
    }
}

/// A word that is none of the words of the directives asks for none.
proof fn lemma_no_directive(word: Seq<u8>, d: Directive)
    requires
        word != kw("address"),
        word != kw("audit-enable"),
        word != kw("audit-file"),
        word != kw("audit-file-mode"),
        word != kw("audit-num"),
        word != kw("audit-size"),
        word != kw("bind-cert-file"),
        word != kw("bind-cert-key-file"),
        word != kw("bind-cert-key-pass"),
        word != kw("blacklist-ip"),
        word != kw("bogus-nxdomain"),
        word != kw("cache-file"),
        word != kw("cache-persist"),
        word != kw("cache-size"),
        word != kw("cache-checkpoint-time"),
        word != kw("ca-file"),
        word != kw("ca-path"),
        word != kw("client-rules"),
        word != kw("client-rule"),
        word != kw("cname"),
        word != kw("group-begin"),
        word != kw("group-end"),
        word != kw("conf-file"),
        word != kw("dnsmasq-lease-file"),
        word != kw("domain"),
        word != kw("domain-rules"),
        word != kw("domain-rule"),
        word != kw("domain-set"),
        word != kw("dualstack-ip-allow-force-aaaa"),
        word != kw("dualstack-ip-selection"),
        word != kw("dualstack-ip-selection-threshold"),
        word != kw("edns-client-subnet"),
        word != kw("expand-ptr-from-address"),
        word != kw("force-aaaa-soa"),
        word != kw("force-https-soa"),
        word != kw("force-qtype-soa"),
        word != kw("nameserver"),
        word != kw("hosts-file"),
        word != kw("ignore-ip"),
        word != kw("bind"),
        word != kw("bind-tcp"),
        word != kw("bind-tls"),
        word != kw("bind-https"),
        word != kw("bind-quic"),
        word != kw("local-ttl"),
        word != kw("log-console"),
        word != kw("log-num"),
        word != kw("log-size"),
        word != kw("log-level"),
        word != kw("log-file"),
        word != kw("log-file-mode"),
        word != kw("log-filter"),
        word != kw("max-reply-ip-num"),
        word != kw("mdns-lookup"),
        word != kw("nftset"),
        word != kw("num-workers"),
        word != kw("prefetch-domain"),
        word != kw("resolv-hostname"),
        word != kw("resolv-hostanme"),
        word != kw("response-mode"),
        word != kw("response"),
        word != kw("serve-expired"),
        word != kw("serve-expired-ttl"),
        word != kw("serve-expired-reply-ttl"),
        word != kw("server"),
        word != kw("server-tcp"),
        word != kw("server-tls"),
        word != kw("server-https"),
        word != kw("server-quic"),
        word != kw("server-name"),
        word != kw("resolv-file"),
        word != kw("rr-ttl"),
        word != kw("rr-ttl-min"),
        word != kw("rr-ttl-max"),
        word != kw("rr-ttl-reply-max"),
        word != kw("speed-check-mode"),
        word != kw("tcp-idle-time"),
        word != kw("whitelist-ip"),
        word != kw("user"),
        word != kw("ip-set"),
    ensures
        !asks_for(word, d),
{
}

/// A word that asks for a directive asks for that one only.
pub proof fn lemma_found(word: Seq<u8>, d: Directive)
    requires
        asks_for(word, d),
    ensures
        directive_of(word) == Some(d),
{
    lemma_one_directive(word, d, choose|x: Directive| asks_for(word, x));
}

/// The word of a directive asks for that directive.
pub proof fn lemma_keyword(d: Directive)
    requires
        d.has_keyword(),
    ensures
        directive_of(d.keyword()) == Some(d),
{
    lemma_found(d.keyword(), d);
}

} // verus!
