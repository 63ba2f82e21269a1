//! Options: what follows the subject of a rule, of a set or of a server on
//! a configuration line, each a name behind one or two dashes and, for most,
//! a value in the next word.

use crate::config::value::{
    address_value_text, bool_text, format_bool, format_nftsets, format_speed_modes,
    lemma_address_value_round_trip, lemma_bool_round_trip, lemma_cname_round_trip,
    lemma_nftsets_round_trip, lemma_response_mode_round_trip, lemma_speed_modes_round_trip,
    nftsets_canonical, nftsets_text, nftsets_view, parse_address_value_spec, parse_bool,
    parse_bool_spec, parse_cname_spec, parse_nftsets, parse_nftsets_spec,
    parse_response_mode_spec, parse_speed_modes, parse_speed_modes_spec, response_mode_text,
    speed_modes_text, AddressRuleValue, CNameRule, CNameSpec, ConfigForIP, NFTsetConfig,
    NftsetSpec, ResponseMode, SpeedCheckMode,
};
use crate::ip::{is_ip_byte, lemma_net_round_trip, net_text, parse_net_spec, IpNet};
use crate::text::{
    check_word, digits, is_keyword, is_line_end, is_space, is_word, kw, lemma_kw,
    lemma_numeral_reads_back, lowered, parse_number, parse_number_spec, push_bytes, rows,
    to_lowered, word_print, MINUS, SLASH,
};
use vstd::prelude::*;

verus! {

/// The kind of line an option stands on; it decides what a one-letter
/// option name is short for.
#[derive(Debug, Clone, Copy, PartialEq, Eq, Hash, Structural)]
pub enum Dialect {
    /// A rule for a domain.
    Rule,
    /// A named set of domains.
    DomainSet,
    /// A named set of address blocks.
    IpSet,
    /// A rule for a client.
    Client,
    /// An address that queries are taken on.
    Listener,
    /// An upstream server.
    Server,
}

/// The options, without their values.
#[derive(Debug, Clone, Copy, PartialEq, Eq, Hash, Structural)]
pub enum OptionKey {
    Address,
    Nameserver,
    Group,
    SpeedCheckMode,
    ResponseMode,
    DualstackIpSelection,
    NoCache,
    NoServeExpired,
    ForceAaaaSoa,
    ForceHttpsSoa,
    NoRule,
    ExcludeDefaultGroup,
    BlacklistIp,
    WhitelistIp,
    RrTtl,
    RrTtlMin,
    RrTtlMax,
    RrTtlReplyMax,
    CName,
    Nftset,
    Subnet,
    Name,
    File,
    ContentType,
}

impl OptionKey {
    /// The name of the option, as it stands behind the dashes.
    pub open spec fn name(self) -> Seq<u8> {
        match self {
            OptionKey::Address => kw("address"),
            OptionKey::Nameserver => kw("nameserver"),
            OptionKey::Group => kw("group"),
            OptionKey::SpeedCheckMode => kw("speed-check-mode"),
            OptionKey::ResponseMode => kw("response-mode"),
            OptionKey::DualstackIpSelection => kw("dualstack-ip-selection"),
            OptionKey::NoCache => kw("no-cache"),
            OptionKey::NoServeExpired => kw("no-serve-expired"),
            OptionKey::ForceAaaaSoa => kw("force-aaaa-soa"),
            OptionKey::ForceHttpsSoa => kw("force-https-soa"),
            OptionKey::NoRule => kw("no-rule"),
            OptionKey::ExcludeDefaultGroup => kw("exclude-default-group"),
            OptionKey::BlacklistIp => kw("blacklist-ip"),
            OptionKey::WhitelistIp => kw("whitelist-ip"),
            OptionKey::RrTtl => kw("rr-ttl"),
            OptionKey::RrTtlMin => kw("rr-ttl-min"),
            OptionKey::RrTtlMax => kw("rr-ttl-max"),
            OptionKey::RrTtlReplyMax => kw("rr-ttl-reply-max"),
            OptionKey::CName => kw("cname"),
            OptionKey::Nftset => kw("nftset"),
            OptionKey::Subnet => kw("subnet"),
            OptionKey::Name => kw("name"),
            OptionKey::File => kw("file"),
            OptionKey::ContentType => kw("type"),
        }
    }

    /// The letter that is short for the option on a line of the given
    /// kind, where there is one.
    pub open spec fn short(self, dialect: Dialect) -> Option<Seq<u8>> {
        match self {
            OptionKey::Address => if dialect is Rule {
                Some(kw("a"))
            } else {
                None
            },
            OptionKey::Nameserver => if dialect is Rule {
                Some(kw("n"))
            } else {
                None
            },
            OptionKey::Group => if dialect is Client || dialect is Listener || dialect is Server {
                Some(kw("g"))
            } else {
                None
            },
            OptionKey::SpeedCheckMode => if dialect is Rule || dialect is Client {
                Some(kw("c"))
            } else {
                None
            },
            OptionKey::ResponseMode => if dialect is Rule {
                Some(kw("r"))
            } else {
                None
            },
            OptionKey::DualstackIpSelection => if dialect is Rule {
                Some(kw("d"))
            } else {
                None
            },
            OptionKey::Name => if dialect is DomainSet || dialect is IpSet {
                Some(kw("n"))
            } else {
                None
            },
            OptionKey::File => if dialect is DomainSet || dialect is IpSet {
                Some(kw("f"))
            } else {
                None
            },
            OptionKey::ContentType => if dialect is DomainSet {
                Some(kw("t"))
            } else {
                None
            },
            _ => None,
        }
    }

    /// Whether the option has a value in the next word.
    pub open spec fn spec_takes_value(self) -> bool {
        match self {
            OptionKey::NoCache | OptionKey::NoServeExpired | OptionKey::ForceAaaaSoa
            | OptionKey::ForceHttpsSoa | OptionKey::NoRule | OptionKey::ExcludeDefaultGroup
            | OptionKey::BlacklistIp | OptionKey::WhitelistIp => false,
            _ => true,
        }
    }

    /// Whether the option has a value in the next word.
    #[verifier::when_used_as_spec(spec_takes_value)]
    pub fn takes_value(self) -> (r: bool)
        ensures
            r == self.spec_takes_value(),
    {
        match self {
            OptionKey::NoCache | OptionKey::NoServeExpired | OptionKey::ForceAaaaSoa
            | OptionKey::ForceHttpsSoa | OptionKey::NoRule | OptionKey::ExcludeDefaultGroup
            | OptionKey::BlacklistIp | OptionKey::WhitelistIp => false,
            _ => true,
        }
    }
}

/// The name that a word gives an option: what stands behind its one or two
/// dashes, in small letters. `None` for a word that starts without a dash
/// and for one with nothing behind the dashes.
pub open spec fn option_name(w: Seq<u8>) -> Option<Seq<u8>> {
    if w.len() >= 3 && w[0] == MINUS && w[1] == MINUS {
        Some(lowered(w.skip(2)))
    } else if w.len() >= 2 && w[0] == MINUS && w[1] != MINUS {
        Some(lowered(w.skip(1)))
    } else {
        None
    }
}

/// Whether a name, in small letters, names the option on a line of the
/// given kind: it is the name of the option, or the letter that is short
/// for it on such a line.
pub open spec fn spells(dialect: Dialect, name: Seq<u8>, key: OptionKey) -> bool {
    name == key.name() || key.short(dialect) == Some(name)
}

/// The option that a name stands for on a line of the given kind.
pub open spec fn option_key(dialect: Dialect, name: Seq<u8>) -> Option<OptionKey> {
    if exists|k: OptionKey| spells(dialect, name, k) {
        Some(choose|k: OptionKey| spells(dialect, name, k))
    } else {
        None
    }
}

/// An option with its value.
#[derive(Debug, PartialEq, Eq, Hash)]
pub enum Setting {
    /// The answer forced for the domain.
    Address(AddressRuleValue),
    /// The group of upstream servers that resolves the domain.
    Nameserver(Vec<u8>),
    /// The group that a client, a listener or a server belongs to.
    Group(Vec<u8>),
    /// How the time to reach an address is measured.
    SpeedCheckMode(Vec<SpeedCheckMode>),
    /// How the answer is picked among those of the upstream servers.
    ResponseMode(ResponseMode),
    /// Whether the faster of the two address families is preferred.
    DualstackIpSelection(bool),
    /// Answers are not kept in the cache.
    NoCache,
    /// Answers past their time to live are not served.
    NoServeExpired,
    /// A query for an IPv6 address gets "no such data".
    ForceAaaaSoa,
    /// A query for an HTTPS record gets "no such data".
    ForceHttpsSoa,
    /// Domain rules are not applied.
    NoRule,
    /// The server is left out of the default group.
    ExcludeDefaultGroup,
    /// Answers of the server are held against the blacklist.
    BlacklistIp,
    /// Answers of the server are held against the whitelist.
    WhitelistIp,
    /// Time to live given to each record.
    RrTtl(u64),
    /// Least time to live of a record.
    RrTtlMin(u64),
    /// Greatest time to live of a record.
    RrTtlMax(u64),
    /// Greatest time to live of a record in a reply.
    RrTtlReplyMax(u64),
    /// The name put in place of the domain.
    CName(CNameRule),
    /// The packet-filter sets that resolved addresses are put into.
    Nftset(Vec<ConfigForIP<NFTsetConfig>>),
    /// The client subnet sent to upstream servers.
    Subnet(IpNet),
    /// The name of a set.
    Name(Vec<u8>),
    /// The file that holds a set.
    File(Vec<u8>),
    /// The format of the file that holds a set.
    ContentType(Vec<u8>),
}

/// The mathematical content of a `Setting`.
pub enum SettingSpec {
    Address(AddressRuleValue),
    Nameserver(Seq<u8>),
    Group(Seq<u8>),
    SpeedCheckMode(Seq<SpeedCheckMode>),
    ResponseMode(ResponseMode),
    DualstackIpSelection(bool),
    NoCache,
    NoServeExpired,
    ForceAaaaSoa,
    ForceHttpsSoa,
    NoRule,
    ExcludeDefaultGroup,
    BlacklistIp,
    WhitelistIp,
    RrTtl(u64),
    RrTtlMin(u64),
    RrTtlMax(u64),
    RrTtlReplyMax(u64),
    CName(CNameSpec),
    Nftset(Seq<ConfigForIP<NftsetSpec>>),
    Subnet(IpNet),
    Name(Seq<u8>),
    File(Seq<u8>),
    ContentType(Seq<u8>),
}

impl View for Setting {
    type V = SettingSpec;

    open spec fn view(&self) -> SettingSpec {
        match self {
            Setting::Address(v) => SettingSpec::Address(*v),
            Setting::Nameserver(v) => SettingSpec::Nameserver(v@),
            Setting::Group(v) => SettingSpec::Group(v@),
            Setting::SpeedCheckMode(v) => SettingSpec::SpeedCheckMode(v@),
            Setting::ResponseMode(v) => SettingSpec::ResponseMode(*v),
            Setting::DualstackIpSelection(v) => SettingSpec::DualstackIpSelection(*v),
            Setting::NoCache => SettingSpec::NoCache,
            Setting::NoServeExpired => SettingSpec::NoServeExpired,
            Setting::ForceAaaaSoa => SettingSpec::ForceAaaaSoa,
            Setting::ForceHttpsSoa => SettingSpec::ForceHttpsSoa,
            Setting::NoRule => SettingSpec::NoRule,
            Setting::ExcludeDefaultGroup => SettingSpec::ExcludeDefaultGroup,
            Setting::BlacklistIp => SettingSpec::BlacklistIp,
            Setting::WhitelistIp => SettingSpec::WhitelistIp,
            Setting::RrTtl(v) => SettingSpec::RrTtl(*v),
            Setting::RrTtlMin(v) => SettingSpec::RrTtlMin(*v),
            Setting::RrTtlMax(v) => SettingSpec::RrTtlMax(*v),
            Setting::RrTtlReplyMax(v) => SettingSpec::RrTtlReplyMax(*v),
            Setting::CName(v) => SettingSpec::CName(v@),
            Setting::Nftset(v) => SettingSpec::Nftset(nftsets_view(v@)),
            Setting::Subnet(v) => SettingSpec::Subnet(*v),
            Setting::Name(v) => SettingSpec::Name(v@),
            Setting::File(v) => SettingSpec::File(v@),
            Setting::ContentType(v) => SettingSpec::ContentType(v@),
        }
    }
}

impl SettingSpec {
    /// The option that the setting is a value of.
    pub open spec fn key(self) -> OptionKey {
        match self {
            SettingSpec::Address(_) => OptionKey::Address,
            SettingSpec::Nameserver(_) => OptionKey::Nameserver,
            SettingSpec::Group(_) => OptionKey::Group,
            SettingSpec::SpeedCheckMode(_) => OptionKey::SpeedCheckMode,
            SettingSpec::ResponseMode(_) => OptionKey::ResponseMode,
            SettingSpec::DualstackIpSelection(_) => OptionKey::DualstackIpSelection,
            SettingSpec::NoCache => OptionKey::NoCache,
            SettingSpec::NoServeExpired => OptionKey::NoServeExpired,
            SettingSpec::ForceAaaaSoa => OptionKey::ForceAaaaSoa,
            SettingSpec::ForceHttpsSoa => OptionKey::ForceHttpsSoa,
            SettingSpec::NoRule => OptionKey::NoRule,
            SettingSpec::ExcludeDefaultGroup => OptionKey::ExcludeDefaultGroup,
            SettingSpec::BlacklistIp => OptionKey::BlacklistIp,
            SettingSpec::WhitelistIp => OptionKey::WhitelistIp,
            SettingSpec::RrTtl(_) => OptionKey::RrTtl,
            SettingSpec::RrTtlMin(_) => OptionKey::RrTtlMin,
            SettingSpec::RrTtlMax(_) => OptionKey::RrTtlMax,
            SettingSpec::RrTtlReplyMax(_) => OptionKey::RrTtlReplyMax,
            SettingSpec::CName(_) => OptionKey::CName,
            SettingSpec::Nftset(_) => OptionKey::Nftset,
            SettingSpec::Subnet(_) => OptionKey::Subnet,
            SettingSpec::Name(_) => OptionKey::Name,
            SettingSpec::File(_) => OptionKey::File,
            SettingSpec::ContentType(_) => OptionKey::ContentType,
        }
    }

    /// The value is in the one form that its text reads back to.
    pub open spec fn canonical(self) -> bool {
        match self {
            SettingSpec::Nameserver(v) => is_word(v),
            SettingSpec::Group(v) => is_word(v),
            SettingSpec::SpeedCheckMode(v) => v.len() > 0,
            SettingSpec::CName(v) => v.canonical(),
            SettingSpec::Nftset(v) => nftsets_canonical(v),
            SettingSpec::Subnet(v) => v.well_formed(),
            SettingSpec::Name(v) => is_word(v),
            SettingSpec::File(v) => is_word(v),
            SettingSpec::ContentType(v) => is_word(v),
            _ => true,
        }
    }

    /// The value as text, for a setting that has one.
    pub open spec fn value_text(self) -> Option<Seq<u8>> {
        match self {
            SettingSpec::Address(v) => Some(address_value_text(v)),
            SettingSpec::Nameserver(v) => Some(v),
            SettingSpec::Group(v) => Some(v),
            SettingSpec::SpeedCheckMode(v) => Some(speed_modes_text(v)),
            SettingSpec::ResponseMode(v) => Some(response_mode_text(v)),
            SettingSpec::DualstackIpSelection(v) => Some(bool_text(v)),
            SettingSpec::RrTtl(v) => Some(digits(v as nat)),
            SettingSpec::RrTtlMin(v) => Some(digits(v as nat)),
            SettingSpec::RrTtlMax(v) => Some(digits(v as nat)),
            SettingSpec::RrTtlReplyMax(v) => Some(digits(v as nat)),
            SettingSpec::CName(v) => Some(v.text()),
            SettingSpec::Nftset(v) => Some(nftsets_text(v)),
            SettingSpec::Subnet(v) => Some(net_text(v)),
            SettingSpec::Name(v) => Some(v),
            SettingSpec::File(v) => Some(v),
            SettingSpec::ContentType(v) => Some(v),
            _ => None,
        }
    }

    /// The setting as words: two dashes and the name of the option, then the
    /// value if there is one.
    pub open spec fn words(self) -> Seq<Seq<u8>> {
        match self.value_text() {
            Some(t) => seq![seq![MINUS, MINUS] + self.key().name(), t],
            None => seq![seq![MINUS, MINUS] + self.key().name()],
        }
    }
}

/// The setting that a word gives an option that is a switch by itself.
pub open spec fn flag_setting(key: OptionKey) -> Option<SettingSpec> {
    match key {
        OptionKey::NoCache => Some(SettingSpec::NoCache),
        OptionKey::NoServeExpired => Some(SettingSpec::NoServeExpired),
        OptionKey::ForceAaaaSoa => Some(SettingSpec::ForceAaaaSoa),
        OptionKey::ForceHttpsSoa => Some(SettingSpec::ForceHttpsSoa),
        OptionKey::NoRule => Some(SettingSpec::NoRule),
        OptionKey::ExcludeDefaultGroup => Some(SettingSpec::ExcludeDefaultGroup),
        OptionKey::BlacklistIp => Some(SettingSpec::BlacklistIp),
        OptionKey::WhitelistIp => Some(SettingSpec::WhitelistIp),
        _ => None,
    }
}

/// The setting that a word gives an option as its value.
pub open spec fn parse_value_spec(key: OptionKey, w: Seq<u8>) -> Option<SettingSpec> {
    match key {
        OptionKey::Address => match parse_address_value_spec(w) {
            Some(v) => Some(SettingSpec::Address(v)),
            None => None,
        },
        OptionKey::Nameserver => if is_word(w) {
            Some(SettingSpec::Nameserver(w))
        } else {
            None
        },
        OptionKey::Group => if is_word(w) {
            Some(SettingSpec::Group(w))
        } else {
            None
        },
        OptionKey::SpeedCheckMode => match parse_speed_modes_spec(w) {
            Some(v) => Some(SettingSpec::SpeedCheckMode(v)),
            None => None,
        },
        OptionKey::ResponseMode => match parse_response_mode_spec(w) {
            Some(v) => Some(SettingSpec::ResponseMode(v)),
            None => None,
        },
        OptionKey::DualstackIpSelection => match parse_bool_spec(w) {
            Some(v) => Some(SettingSpec::DualstackIpSelection(v)),
            None => None,
        },
        OptionKey::RrTtl => match parse_number_spec(w, 10, u64::MAX) {
            Some(v) => Some(SettingSpec::RrTtl(v)),
            None => None,
        },
        OptionKey::RrTtlMin => match parse_number_spec(w, 10, u64::MAX) {
            Some(v) => Some(SettingSpec::RrTtlMin(v)),
            None => None,
        },
        OptionKey::RrTtlMax => match parse_number_spec(w, 10, u64::MAX) {
            Some(v) => Some(SettingSpec::RrTtlMax(v)),
            None => None,
        },
        OptionKey::RrTtlReplyMax => match parse_number_spec(w, 10, u64::MAX) {
            Some(v) => Some(SettingSpec::RrTtlReplyMax(v)),
            None => None,
        },
        OptionKey::CName => match parse_cname_spec(w) {
            Some(v) => Some(SettingSpec::CName(v)),
            None => None,
        },
        OptionKey::Nftset => match parse_nftsets_spec(w) {
            Some(v) => Some(SettingSpec::Nftset(v)),
            None => None,
        },
        OptionKey::Subnet => match parse_net_spec(w) {
            Some(v) => Some(SettingSpec::Subnet(v)),
            None => None,
        },
        OptionKey::Name => if is_word(w) {
            Some(SettingSpec::Name(w))
        } else {
            None
        },
        OptionKey::File => if is_word(w) {
            Some(SettingSpec::File(w))
        } else {
            None
        },
        OptionKey::ContentType => if is_word(w) {
            Some(SettingSpec::ContentType(w))
        } else {
            None
        },
        _ => None,
    }
}

/// The setting at the start of a list of words, and the number of words it
/// takes: an option and, where the option has one, its value.
#[verifier::opaque]
pub open spec fn parse_setting_spec(
    dialect: Dialect,
    ws: Seq<Seq<u8>>,
) -> Option<(SettingSpec, nat)> {
    if ws.len() == 0 {
        None
    } else {
        match option_name(ws[0]) {
            Some(name) => match option_key(dialect, name) {
                Some(key) => if key.spec_takes_value() {
                    if ws.len() >= 2 {
                        match parse_value_spec(key, ws[1]) {
                            Some(s) => Some((s, 2nat)),
                            None => None,
                        }
                    } else {
                        None
                    }
                } else {
                    match flag_setting(key) {
                        Some(s) => Some((s, 1nat)),
                        None => None,
                    }
                },
                None => None,
            },
            None => None,
        }
    }
}

/// The settings at the start of a list of words, up to the first word that
/// starts no setting, and the number of words they take.
pub open spec fn parse_settings_spec(dialect: Dialect, ws: Seq<Seq<u8>>) -> (Seq<SettingSpec>, nat)
    decreases ws.len(),
{
    match parse_setting_spec(dialect, ws) {
        Some((s, n)) => if 0 < n <= ws.len() {
            let (rest, m) = parse_settings_spec(dialect, ws.skip(n as int));
            (seq![s] + rest, n + m)
        } else {
            (Seq::empty(), 0)
        },
        None => (Seq::empty(), 0),
    }
}

/// The settings as words, one setting after another.
pub open spec fn settings_words(ss: Seq<SettingSpec>) -> Seq<Seq<u8>>
    decreases ss.len(),
{
    if ss.len() == 0 {
        Seq::empty()
    } else {
        ss[0].words() + settings_words(ss.skip(1))
    }
}

/// Every setting of the list is canonical.
pub open spec fn settings_canonical(ss: Seq<SettingSpec>) -> bool {
    forall|i: int| 0 <= i < ss.len() ==> (#[trigger] ss[i]).canonical()
}


/// The prints of the names of the options and of the letters that are
/// short for them.
proof fn lemma_name_prints()
    ensures
        word_print(kw("address")) == 125006336,
        word_print(kw("nameserver")) == 175272545,
        word_print(kw("group")) == 91255296,
        word_print(kw("speed-check-mode")) == 275082600,
        word_print(kw("response-mode")) == 224750959,
        word_print(kw("dualstack-ip-selection")) == 376337523,
        word_print(kw("no-cache")) == 140861696,
        word_print(kw("no-serve-expired")) == 275016037,
        word_print(kw("force-aaaa-soa")) == 241249581,
        word_print(kw("force-https-soa")) == 258026856,
        word_print(kw("no-rule")) == 124088832,
        word_print(kw("exclude-default-group")) == 359690869,
        word_print(kw("blacklist-ip")) == 208696419,
        word_print(kw("whitelist-ip")) == 208696436,
        word_print(kw("rr-ttl")) == 107752704,
        word_print(kw("rr-ttl-min")) == 174992754,
        word_print(kw("rr-ttl-max")) == 175648114,
        word_print(kw("rr-ttl-reply-max")) == 276311410,
        word_print(kw("cname")) == 90533376,
        word_print(kw("nftset")) == 108295168,
        word_print(kw("subnet")) == 108290560,
        word_print(kw("name")) == 73756160,
        word_print(kw("file")) == 73754112,
        word_print(kw("type")) == 73757696,
        word_print(kw("a")) == 23134208,
        word_print(kw("n")) == 23986176,
        word_print(kw("g")) == 23527424,
        word_print(kw("c")) == 23265280,
        word_print(kw("r")) == 24248320,
        word_print(kw("d")) == 23330816,
        word_print(kw("f")) == 23461888,
        word_print(kw("t")) == 24379392,
{
    reveal(word_print);
    reveal_strlit("address");
    lemma_kw("address");
    reveal_strlit("nameserver");
    lemma_kw("nameserver");
    reveal_strlit("group");
    lemma_kw("group");
    reveal_strlit("speed-check-mode");
    lemma_kw("speed-check-mode");
    reveal_strlit("response-mode");
    lemma_kw("response-mode");
    reveal_strlit("dualstack-ip-selection");
    lemma_kw("dualstack-ip-selection");
    reveal_strlit("no-cache");
    lemma_kw("no-cache");
    reveal_strlit("no-serve-expired");
    lemma_kw("no-serve-expired");
    reveal_strlit("force-aaaa-soa");
    lemma_kw("force-aaaa-soa");
    reveal_strlit("force-https-soa");
    lemma_kw("force-https-soa");
    reveal_strlit("no-rule");
    lemma_kw("no-rule");
    reveal_strlit("exclude-default-group");
    lemma_kw("exclude-default-group");
    reveal_strlit("blacklist-ip");
    lemma_kw("blacklist-ip");
    reveal_strlit("whitelist-ip");
    lemma_kw("whitelist-ip");
    reveal_strlit("rr-ttl");
    lemma_kw("rr-ttl");
    reveal_strlit("rr-ttl-min");
    lemma_kw("rr-ttl-min");
    reveal_strlit("rr-ttl-max");
    lemma_kw("rr-ttl-max");
    reveal_strlit("rr-ttl-reply-max");
    lemma_kw("rr-ttl-reply-max");
    reveal_strlit("cname");
    lemma_kw("cname");
    reveal_strlit("nftset");
    lemma_kw("nftset");
    reveal_strlit("subnet");
    lemma_kw("subnet");
    reveal_strlit("name");
    lemma_kw("name");
    reveal_strlit("file");
    lemma_kw("file");
    reveal_strlit("type");
    lemma_kw("type");
    reveal_strlit("a");
    lemma_kw("a");
    reveal_strlit("n");
    lemma_kw("n");
    reveal_strlit("g");
    lemma_kw("g");
    reveal_strlit("c");
    lemma_kw("c");
    reveal_strlit("r");
    lemma_kw("r");
    reveal_strlit("d");
    lemma_kw("d");
    reveal_strlit("f");
    lemma_kw("f");
    reveal_strlit("t");
    lemma_kw("t");
}

/// The print of the name of an option.
pub open spec fn name_print(key: OptionKey) -> int {
    match key {
        OptionKey::Address => 125006336,
        OptionKey::Nameserver => 175272545,
        OptionKey::Group => 91255296,
        OptionKey::SpeedCheckMode => 275082600,
        OptionKey::ResponseMode => 224750959,
        OptionKey::DualstackIpSelection => 376337523,
        OptionKey::NoCache => 140861696,
        OptionKey::NoServeExpired => 275016037,
        OptionKey::ForceAaaaSoa => 241249581,
        OptionKey::ForceHttpsSoa => 258026856,
        OptionKey::NoRule => 124088832,
        OptionKey::ExcludeDefaultGroup => 359690869,
        OptionKey::BlacklistIp => 208696419,
        OptionKey::WhitelistIp => 208696436,
        OptionKey::RrTtl => 107752704,
        OptionKey::RrTtlMin => 174992754,
        OptionKey::RrTtlMax => 175648114,
        OptionKey::RrTtlReplyMax => 276311410,
        OptionKey::CName => 90533376,
        OptionKey::Nftset => 108295168,
        OptionKey::Subnet => 108290560,
        OptionKey::Name => 73756160,
        OptionKey::File => 73754112,
        OptionKey::ContentType => 73757696,
    }
}

/// The print of the letter that is short for an option; 0 where there is
/// none.
pub open spec fn short_print(key: OptionKey) -> int {
    match key {
        OptionKey::Address => 23134208,
        OptionKey::Nameserver => 23986176,
        OptionKey::Group => 23527424,
        OptionKey::SpeedCheckMode => 23265280,
        OptionKey::ResponseMode => 24248320,
        OptionKey::DualstackIpSelection => 23330816,
        OptionKey::Name => 23986176,
        OptionKey::File => 23461888,
        OptionKey::ContentType => 24379392,
        _ => 0,
    }
}

/// The prints of the name of an option and of its letter.
proof fn lemma_key_prints(dialect: Dialect, key: OptionKey)
    ensures
        word_print(key.name()) == name_print(key),
        key.short(dialect) matches Some(a) ==> word_print(a) == short_print(key),
{
    lemma_name_prints();
}

/// A name names one option at most on a line of a given kind.
pub proof fn lemma_one_key(dialect: Dialect, name: Seq<u8>, a: OptionKey, b: OptionKey)
    requires
        spells(dialect, name, a),
        spells(dialect, name, b),
    ensures
        a == b,
{
    lemma_key_prints(dialect, a);
    lemma_key_prints(dialect, b);
}

/// A name that names an option stands for that option.
pub proof fn lemma_found_key(dialect: Dialect, name: Seq<u8>, key: OptionKey)
    requires
        spells(dialect, name, key),
    ensures
        option_key(dialect, name) == Some(key),
{
    lemma_one_key(dialect, name, key, choose|k: OptionKey| spells(dialect, name, k));
}

/// A name that is none of the names of the options, and no letter that is
/// short for one on a line of the given kind, names none.
proof fn lemma_no_key(dialect: Dialect, name: Seq<u8>, key: OptionKey)
    requires
        name != kw("address"),
        dialect is Rule ==> name != kw("a"),
        name != kw("nameserver"),
        dialect is Rule ==> name != kw("n"),
        name != kw("group"),
        dialect is Client || dialect is Listener || dialect is Server ==> name != kw("g"),
        name != kw("speed-check-mode"),
        dialect is Rule || dialect is Client ==> name != kw("c"),
        name != kw("response-mode"),
        dialect is Rule ==> name != kw("r"),
        name != kw("dualstack-ip-selection"),
        dialect is Rule ==> name != kw("d"),
        name != kw("no-cache"),
        name != kw("no-serve-expired"),
        name != kw("force-aaaa-soa"),
        name != kw("force-https-soa"),
        name != kw("no-rule"),
        name != kw("exclude-default-group"),
        name != kw("blacklist-ip"),
        name != kw("whitelist-ip"),
        name != kw("rr-ttl"),
        name != kw("rr-ttl-min"),
        name != kw("rr-ttl-max"),
        name != kw("rr-ttl-reply-max"),
        name != kw("cname"),
        name != kw("nftset"),
        name != kw("subnet"),
        name != kw("name"),
        dialect is DomainSet || dialect is IpSet ==> name != kw("n"),
        name != kw("file"),
        dialect is DomainSet || dialect is IpSet ==> name != kw("f"),
        name != kw("type"),
        dialect is DomainSet ==> name != kw("t"),
    ensures
        !spells(dialect, name, key),
{
}

/// The name of an option is made of small letters and dashes, and is not
/// empty.
pub proof fn lemma_plain_names(key: OptionKey)
    ensures
        key.name().len() > 0,
        forall|i: int|
            0 <= i < key.name().len() ==> 97 <= #[trigger] key.name()[i] <= 122 || key.name()[i]
                == MINUS,
{
    match key {
        OptionKey::Address => {
            reveal_strlit("address");
            lemma_kw("address");
        },
        OptionKey::Nameserver => {
            reveal_strlit("nameserver");
            lemma_kw("nameserver");
        },
        OptionKey::Group => {
            reveal_strlit("group");
            lemma_kw("group");
        },
        OptionKey::SpeedCheckMode => {
            reveal_strlit("speed-check-mode");
            lemma_kw("speed-check-mode");
        },
        OptionKey::ResponseMode => {
            reveal_strlit("response-mode");
            lemma_kw("response-mode");
        },
        OptionKey::DualstackIpSelection => {
            reveal_strlit("dualstack-ip-selection");
            lemma_kw("dualstack-ip-selection");
        },
        OptionKey::NoCache => {
            reveal_strlit("no-cache");
            lemma_kw("no-cache");
        },
        OptionKey::NoServeExpired => {
            reveal_strlit("no-serve-expired");
            lemma_kw("no-serve-expired");
        },
        OptionKey::ForceAaaaSoa => {
            reveal_strlit("force-aaaa-soa");
            lemma_kw("force-aaaa-soa");
        },
        OptionKey::ForceHttpsSoa => {
            reveal_strlit("force-https-soa");
            lemma_kw("force-https-soa");
        },
        OptionKey::NoRule => {
            reveal_strlit("no-rule");
            lemma_kw("no-rule");
        },
        OptionKey::ExcludeDefaultGroup => {
            reveal_strlit("exclude-default-group");
            lemma_kw("exclude-default-group");
        },
        OptionKey::BlacklistIp => {
            reveal_strlit("blacklist-ip");
            lemma_kw("blacklist-ip");
        },
        OptionKey::WhitelistIp => {
            reveal_strlit("whitelist-ip");
            lemma_kw("whitelist-ip");
        },
        OptionKey::RrTtl => {
            reveal_strlit("rr-ttl");
            lemma_kw("rr-ttl");
        },
        OptionKey::RrTtlMin => {
            reveal_strlit("rr-ttl-min");
            lemma_kw("rr-ttl-min");
        },
        OptionKey::RrTtlMax => {
            reveal_strlit("rr-ttl-max");
            lemma_kw("rr-ttl-max");
        },
        OptionKey::RrTtlReplyMax => {
            reveal_strlit("rr-ttl-reply-max");
            lemma_kw("rr-ttl-reply-max");
        },
        OptionKey::CName => {
            reveal_strlit("cname");
            lemma_kw("cname");
        },
        OptionKey::Nftset => {
            reveal_strlit("nftset");
            lemma_kw("nftset");
        },
        OptionKey::Subnet => {
            reveal_strlit("subnet");
            lemma_kw("subnet");
        },
        OptionKey::Name => {
            reveal_strlit("name");
            lemma_kw("name");
        },
        OptionKey::File => {
            reveal_strlit("file");
            lemma_kw("file");
        },
        OptionKey::ContentType => {
            reveal_strlit("type");
            lemma_kw("type");
        },
    }
}

/// The name of an option, written behind two dashes, names that option on
/// every kind of line; the two dashes and the name make a word.
pub proof fn lemma_key_name(dialect: Dialect, key: OptionKey)
    ensures
        option_name(seq![MINUS, MINUS] + key.name()) == Some(key.name()),
        option_key(dialect, key.name()) == Some(key),
        is_word(seq![MINUS, MINUS] + key.name()),
{
    let n = key.name();
    let w = seq![MINUS, MINUS] + n;
    lemma_plain_names(key);
    lemma_found_key(dialect, n, key);
    assert(w.skip(2) =~= n);
    assert(lowered(n) =~= n);
    assert forall|i: int| 0 <= i < w.len() implies !is_space(#[trigger] w[i]) && !is_line_end(
        w[i],
    ) by {
        if i >= 2 {
            assert(w[i] == n[i - 2]);
        }
    }
}


/// Reading the words of a setting gives the setting back, whatever follows
/// them; the words are words.
pub proof fn lemma_setting_round_trip(dialect: Dialect, s: SettingSpec, rest: Seq<Seq<u8>>)
    requires
        s.canonical(),
    ensures
        parse_setting_spec(dialect, s.words() + rest) == Some((s, s.words().len())),
        forall|i: int| 0 <= i < s.words().len() ==> is_word(#[trigger] s.words()[i]),
{
    reveal(parse_setting_spec);
    lemma_key_name(dialect, s.key());
    let ws = s.words() + rest;
    assert(ws[0] == s.words()[0]);
    match s {
        SettingSpec::Address(v) => {
            lemma_address_value_round_trip(v);
            assert(ws[1] == s.words()[1]);
        },
        SettingSpec::Nameserver(v) => {
            
            assert(ws[1] == s.words()[1]);
        },
        SettingSpec::Group(v) => {
            
            assert(ws[1] == s.words()[1]);
        },
        SettingSpec::SpeedCheckMode(v) => {
            lemma_speed_modes_round_trip(v);
            assert(ws[1] == s.words()[1]);
        },
        SettingSpec::ResponseMode(v) => {
            lemma_response_mode_round_trip(v);
            assert(ws[1] == s.words()[1]);
        },
        SettingSpec::DualstackIpSelection(v) => {
            lemma_bool_round_trip(v);
            assert(ws[1] == s.words()[1]);
        },
        SettingSpec::NoCache => {},
        SettingSpec::NoServeExpired => {},
        SettingSpec::ForceAaaaSoa => {},
        SettingSpec::ForceHttpsSoa => {},
        SettingSpec::NoRule => {},
        SettingSpec::ExcludeDefaultGroup => {},
        SettingSpec::BlacklistIp => {},
        SettingSpec::WhitelistIp => {},
        SettingSpec::RrTtl(v) => {
            lemma_numeral_reads_back(v as nat, 10);
            assert(ws[1] == s.words()[1]);
        },
        SettingSpec::RrTtlMin(v) => {
            lemma_numeral_reads_back(v as nat, 10);
            assert(ws[1] == s.words()[1]);
        },
        SettingSpec::RrTtlMax(v) => {
            lemma_numeral_reads_back(v as nat, 10);
            assert(ws[1] == s.words()[1]);
        },
        SettingSpec::RrTtlReplyMax(v) => {
            lemma_numeral_reads_back(v as nat, 10);
            assert(ws[1] == s.words()[1]);
        },
        SettingSpec::CName(v) => {
            lemma_cname_round_trip(v);
            assert(ws[1] == s.words()[1]);
        },
        SettingSpec::Nftset(v) => {
            lemma_nftsets_round_trip(v);
            assert(ws[1] == s.words()[1]);
        },
        SettingSpec::Subnet(v) => {
            lemma_net_word(v);
            assert(ws[1] == s.words()[1]);
        },
        SettingSpec::Name(v) => {
            
            assert(ws[1] == s.words()[1]);
        },
        SettingSpec::File(v) => {
            
            assert(ws[1] == s.words()[1]);
        },
        SettingSpec::ContentType(v) => {
            
            assert(ws[1] == s.words()[1]);
        },
    }
}

/// The text of an address block is a word that reads back as the block.
pub proof fn lemma_net_word(n: IpNet)
    requires
        n.well_formed(),
    ensures
        parse_net_spec(net_text(n)) == Some(n),
        is_word(net_text(n)),
{
    lemma_net_round_trip(n);
    let t = net_text(n);
    assert forall|i: int| 0 <= i < t.len() implies !is_space(#[trigger] t[i]) && !is_line_end(
        t[i],
    ) by {
        assert(is_ip_byte(t[i]) || t[i] == SLASH);
    }
}

/// Reading the words of a list of settings gives the list back, provided
/// that what follows them starts no setting.
pub proof fn lemma_settings_round_trip(dialect: Dialect, ss: Seq<SettingSpec>, rest: Seq<Seq<u8>>)
    requires
        settings_canonical(ss),
        parse_setting_spec(dialect, rest).is_none(),
    ensures
        parse_settings_spec(dialect, settings_words(ss) + rest) == (ss, settings_words(ss).len()),
        forall|i: int| 0 <= i < settings_words(ss).len() ==> is_word(#[trigger] settings_words(ss)[i]),
    decreases ss.len(),
{
    if ss.len() == 0 {
        assert(settings_words(ss) + rest =~= rest);
        assert(ss =~= Seq::<SettingSpec>::empty());
    } else {
        let s = ss[0];
        let tail = ss.skip(1);
        assert(s.canonical());
        assert forall|i: int| 0 <= i < tail.len() implies (#[trigger] tail[i]).canonical() by {
            assert(tail[i] == ss[i + 1]);
        }
        let after = settings_words(tail) + rest;
        lemma_setting_round_trip(dialect, s, after);
        lemma_settings_round_trip(dialect, tail, rest);
        let all = settings_words(ss) + rest;
        assert(all =~= s.words() + after);
        let n = s.words().len();
        assert(all.skip(n as int) =~= after);
        assert(seq![s] + tail =~= ss);
        assert forall|i: int| 0 <= i < settings_words(ss).len() implies is_word(
            #[trigger] settings_words(ss)[i],
        ) by {
            if i < n {
                assert(settings_words(ss)[i] == s.words()[i]);
            } else {
                assert(settings_words(ss)[i] == settings_words(tail)[i - n]);
            }
        }
    }
}

/// Reads the name that a word gives an option.
pub fn read_option_name(word: &[u8]) -> (r: Option<Vec<u8>>)
    ensures
        r.is_some() == option_name(word@).is_some(),
        r matches Some(n) ==> option_name(word@) == Some(n@),
{
    let len = word.len();
    if len >= 3 && word[0] == MINUS && word[1] == MINUS {
        let tail = vstd::slice::slice_subrange(word, 2, len);
        assert(tail@ =~= word@.skip(2));
        Some(to_lowered(tail))
    } else if len >= 2 && word[0] == MINUS && word[1] != MINUS {
        let tail = vstd::slice::slice_subrange(word, 1, len);
        assert(tail@ =~= word@.skip(1));
        Some(to_lowered(tail))
    } else {
        None
    }
}

/// Finds the option that a name stands for on a line of the given kind.
pub fn find_option(dialect: Dialect, name: &[u8]) -> (r: Option<OptionKey>)
    ensures
        r == option_key(dialect, name@),
{
    if is_keyword(name, "address") {
        proof {
            lemma_found_key(dialect, name@, OptionKey::Address);
        }
        return Some(OptionKey::Address);
    }
    if is_keyword(name, "nameserver") {
        proof {
            lemma_found_key(dialect, name@, OptionKey::Nameserver);
        }
        return Some(OptionKey::Nameserver);
    }
    if is_keyword(name, "group") {
        proof {
            lemma_found_key(dialect, name@, OptionKey::Group);
        }
        return Some(OptionKey::Group);
    }
    if is_keyword(name, "speed-check-mode") {
        proof {
            lemma_found_key(dialect, name@, OptionKey::SpeedCheckMode);
        }
        return Some(OptionKey::SpeedCheckMode);
    }
    if is_keyword(name, "response-mode") {
        proof {
            lemma_found_key(dialect, name@, OptionKey::ResponseMode);
        }
        return Some(OptionKey::ResponseMode);
    }
    if is_keyword(name, "dualstack-ip-selection") {
        proof {
            lemma_found_key(dialect, name@, OptionKey::DualstackIpSelection);
        }
        return Some(OptionKey::DualstackIpSelection);
    }
    if is_keyword(name, "no-cache") {
        proof {
            lemma_found_key(dialect, name@, OptionKey::NoCache);
        }
        return Some(OptionKey::NoCache);
    }
    if is_keyword(name, "no-serve-expired") {
        proof {
            lemma_found_key(dialect, name@, OptionKey::NoServeExpired);
        }
        return Some(OptionKey::NoServeExpired);
    }
    if is_keyword(name, "force-aaaa-soa") {
        proof {
            lemma_found_key(dialect, name@, OptionKey::ForceAaaaSoa);
        }
        return Some(OptionKey::ForceAaaaSoa);
    }
    if is_keyword(name, "force-https-soa") {
        proof {
            lemma_found_key(dialect, name@, OptionKey::ForceHttpsSoa);
        }
        return Some(OptionKey::ForceHttpsSoa);
    }
    if is_keyword(name, "no-rule") {
        proof {
            lemma_found_key(dialect, name@, OptionKey::NoRule);
        }
        return Some(OptionKey::NoRule);
    }
    if is_keyword(name, "exclude-default-group") {
        proof {
            lemma_found_key(dialect, name@, OptionKey::ExcludeDefaultGroup);
        }
        return Some(OptionKey::ExcludeDefaultGroup);
    }
    if is_keyword(name, "blacklist-ip") {
        proof {
            lemma_found_key(dialect, name@, OptionKey::BlacklistIp);
        }
        return Some(OptionKey::BlacklistIp);
    }
    if is_keyword(name, "whitelist-ip") {
        proof {
            lemma_found_key(dialect, name@, OptionKey::WhitelistIp);
        }
        return Some(OptionKey::WhitelistIp);
    }
    if is_keyword(name, "rr-ttl") {
        proof {
            lemma_found_key(dialect, name@, OptionKey::RrTtl);
        }
        return Some(OptionKey::RrTtl);
    }
    if is_keyword(name, "rr-ttl-min") {
        proof {
            lemma_found_key(dialect, name@, OptionKey::RrTtlMin);
        }
        return Some(OptionKey::RrTtlMin);
    }
    if is_keyword(name, "rr-ttl-max") {
        proof {
            lemma_found_key(dialect, name@, OptionKey::RrTtlMax);
        }
        return Some(OptionKey::RrTtlMax);
    }
    if is_keyword(name, "rr-ttl-reply-max") {
        proof {
            lemma_found_key(dialect, name@, OptionKey::RrTtlReplyMax);
        }
        return Some(OptionKey::RrTtlReplyMax);
    }
    if is_keyword(name, "cname") {
        proof {
            lemma_found_key(dialect, name@, OptionKey::CName);
        }
        return Some(OptionKey::CName);
    }
    if is_keyword(name, "nftset") {
        proof {
            lemma_found_key(dialect, name@, OptionKey::Nftset);
        }
        return Some(OptionKey::Nftset);
    }
    if is_keyword(name, "subnet") {
        proof {
            lemma_found_key(dialect, name@, OptionKey::Subnet);
        }
        return Some(OptionKey::Subnet);
    }
    if is_keyword(name, "name") {
        proof {
            lemma_found_key(dialect, name@, OptionKey::Name);
        }
        return Some(OptionKey::Name);
    }
    if is_keyword(name, "file") {
        proof {
            lemma_found_key(dialect, name@, OptionKey::File);
        }
        return Some(OptionKey::File);
    }
    if is_keyword(name, "type") {
        proof {
            lemma_found_key(dialect, name@, OptionKey::ContentType);
        }
        return Some(OptionKey::ContentType);
    }
    match dialect {
        Dialect::Rule => {
            if is_keyword(name, "a") {
                proof {
                    lemma_found_key(dialect, name@, OptionKey::Address);
                }
                return Some(OptionKey::Address);
            }
            if is_keyword(name, "n") {
                proof {
                    lemma_found_key(dialect, name@, OptionKey::Nameserver);
                }
                return Some(OptionKey::Nameserver);
            }
            if is_keyword(name, "c") {
                proof {
                    lemma_found_key(dialect, name@, OptionKey::SpeedCheckMode);
                }
                return Some(OptionKey::SpeedCheckMode);
            }
            if is_keyword(name, "r") {
                proof {
                    lemma_found_key(dialect, name@, OptionKey::ResponseMode);
                }
                return Some(OptionKey::ResponseMode);
            }
            if is_keyword(name, "d") {
                proof {
                    lemma_found_key(dialect, name@, OptionKey::DualstackIpSelection);
                }
                return Some(OptionKey::DualstackIpSelection);
            }
        },
        Dialect::DomainSet => {
            if is_keyword(name, "n") {
                proof {
                    lemma_found_key(dialect, name@, OptionKey::Name);
                }
                return Some(OptionKey::Name);
            }
            if is_keyword(name, "f") {
                proof {
                    lemma_found_key(dialect, name@, OptionKey::File);
                }
                return Some(OptionKey::File);
            }
            if is_keyword(name, "t") {
                proof {
                    lemma_found_key(dialect, name@, OptionKey::ContentType);
                }
                return Some(OptionKey::ContentType);
            }
        },
        Dialect::IpSet => {
            if is_keyword(name, "n") {
                proof {
                    lemma_found_key(dialect, name@, OptionKey::Name);
                }
                return Some(OptionKey::Name);
            }
            if is_keyword(name, "f") {
                proof {
                    lemma_found_key(dialect, name@, OptionKey::File);
                }
                return Some(OptionKey::File);
            }
        },
        Dialect::Client => {
            if is_keyword(name, "g") {
                proof {
                    lemma_found_key(dialect, name@, OptionKey::Group);
                }
                return Some(OptionKey::Group);
            }
            if is_keyword(name, "c") {
                proof {
                    lemma_found_key(dialect, name@, OptionKey::SpeedCheckMode);
                }
                return Some(OptionKey::SpeedCheckMode);
            }
        },
        Dialect::Listener => {
            if is_keyword(name, "g") {
                proof {
                    lemma_found_key(dialect, name@, OptionKey::Group);
                }
                return Some(OptionKey::Group);
            }
        },
        Dialect::Server => {
            if is_keyword(name, "g") {
                proof {
                    lemma_found_key(dialect, name@, OptionKey::Group);
                }
                return Some(OptionKey::Group);
            }
        },
    }
    proof {
        assert forall|k: OptionKey| !spells(dialect, name@, k) by {
            lemma_no_key(dialect, name@, k);
        }
    }
    None
}

/// Reads the value of an option.
pub fn parse_value(key: OptionKey, word: &[u8]) -> (r: Option<Setting>)
    ensures
        r.is_some() == parse_value_spec(key, word@).is_some(),
        r matches Some(s) ==> parse_value_spec(key, word@) == Some(s@),
{
    match key {
        OptionKey::Address => match AddressRuleValue::from_bytes(word) {
            Some(v) => Some(Setting::Address(v)),
            None => None,
        },
        OptionKey::Nameserver => if check_word(word) {
            Some(Setting::Nameserver(vstd::slice::slice_to_vec(word)))
        } else {
            None
        },
        OptionKey::Group => if check_word(word) {
            Some(Setting::Group(vstd::slice::slice_to_vec(word)))
        } else {
            None
        },
        OptionKey::SpeedCheckMode => match parse_speed_modes(word) {
            Some(v) => Some(Setting::SpeedCheckMode(v)),
            None => None,
        },
        OptionKey::ResponseMode => match ResponseMode::from_bytes(word) {
            Some(v) => Some(Setting::ResponseMode(v)),
            None => None,
        },
        OptionKey::DualstackIpSelection => match parse_bool(word) {
            Some(v) => Some(Setting::DualstackIpSelection(v)),
            None => None,
        },
        OptionKey::RrTtl => match parse_number(word, 10, u64::MAX) {
            Some(v) => Some(Setting::RrTtl(v)),
            None => None,
        },
        OptionKey::RrTtlMin => match parse_number(word, 10, u64::MAX) {
            Some(v) => Some(Setting::RrTtlMin(v)),
            None => None,
        },
        OptionKey::RrTtlMax => match parse_number(word, 10, u64::MAX) {
            Some(v) => Some(Setting::RrTtlMax(v)),
            None => None,
        },
        OptionKey::RrTtlReplyMax => match parse_number(word, 10, u64::MAX) {
            Some(v) => Some(Setting::RrTtlReplyMax(v)),
            None => None,
        },
        OptionKey::CName => match CNameRule::from_bytes(word) {
            Some(v) => Some(Setting::CName(v)),
            None => None,
        },
        OptionKey::Nftset => match parse_nftsets(word) {
            Some(v) => Some(Setting::Nftset(v)),
            None => None,
        },
        OptionKey::Subnet => match IpNet::from_bytes(word) {
            Some(v) => Some(Setting::Subnet(v)),
            None => None,
        },
        OptionKey::Name => if check_word(word) {
            Some(Setting::Name(vstd::slice::slice_to_vec(word)))
        } else {
            None
        },
        OptionKey::File => if check_word(word) {
            Some(Setting::File(vstd::slice::slice_to_vec(word)))
        } else {
            None
        },
        OptionKey::ContentType => if check_word(word) {
            Some(Setting::ContentType(vstd::slice::slice_to_vec(word)))
        } else {
            None
        },
        _ => None,
    }
}

/// The setting that an option without a value makes.
pub fn make_flag(key: OptionKey) -> (r: Option<Setting>)
    ensures
        r.is_some() == flag_setting(key).is_some(),
        r matches Some(s) ==> flag_setting(key) == Some(s@),
{
    match key {
        OptionKey::NoCache => Some(Setting::NoCache),
        OptionKey::NoServeExpired => Some(Setting::NoServeExpired),
        OptionKey::ForceAaaaSoa => Some(Setting::ForceAaaaSoa),
        OptionKey::ForceHttpsSoa => Some(Setting::ForceHttpsSoa),
        OptionKey::NoRule => Some(Setting::NoRule),
        OptionKey::ExcludeDefaultGroup => Some(Setting::ExcludeDefaultGroup),
        OptionKey::BlacklistIp => Some(Setting::BlacklistIp),
        OptionKey::WhitelistIp => Some(Setting::WhitelistIp),
        _ => None,
    }
}

/// Reads the setting that starts at word `at`, and says how many words it
/// takes.
pub fn parse_setting(
    dialect: Dialect,
    ws: &Vec<Vec<u8>>,
    at: usize,
) -> (r: Option<(Setting, usize)>)
    requires
        at <= ws.len(),
    ensures
        r.is_some() == parse_setting_spec(dialect, rows(ws@).skip(at as int)).is_some(),
        r matches Some((s, n)) ==> parse_setting_spec(dialect, rows(ws@).skip(at as int)) == Some(
            (s@, n as nat),
        ) && at + n <= ws.len(),
{
    reveal(parse_setting_spec);
    let ghost rest = rows(ws@).skip(at as int);
    if at >= ws.len() {
        return None;
    }
    assert(rest[0] == ws@[at as int]@);
    let name = match read_option_name(ws[at].as_slice()) {
        Some(n) => n,
        None => {
            return None;
        },
    };
    let key = match find_option(dialect, name.as_slice()) {
        Some(k) => k,
        None => {
            return None;
        },
    };
    if key.takes_value() {
        if ws.len() - at < 2 {
            return None;
        }
        assert(rest[1] == ws@[at + 1]@);
        match parse_value(key, ws[at + 1].as_slice()) {
            Some(s) => Some((s, 2)),
            None => None,
        }
    } else {
        match make_flag(key) {
            Some(s) => Some((s, 1)),
            None => None,
        }
    }
}

/// The views of a list of settings.
pub open spec fn settings_view(v: Seq<Setting>) -> Seq<SettingSpec> {
    Seq::new(v.len(), |i: int| v[i]@)
}

/// Reads the settings that start at word `at`, up to the first word that
/// starts no setting, and says how many words they take.
pub fn parse_settings(dialect: Dialect, ws: &Vec<Vec<u8>>, at: usize) -> (r: (Vec<Setting>, usize))
    requires
        at <= ws.len(),
    ensures
        (settings_view(r.0@), r.1 as nat) == parse_settings_spec(dialect, rows(ws@).skip(at as int)),
        at + r.1 <= ws.len(),
{
    let mut out: Vec<Setting> = Vec::new();
    let mut i: usize = at;
    let ghost all = rows(ws@);
    let ghost goal = parse_settings_spec(dialect, all.skip(at as int));
    assert(settings_view(out@) =~= Seq::<SettingSpec>::empty());
    loop
        invariant
            at <= i <= ws.len(),
            all == rows(ws@),
            goal == parse_settings_spec(dialect, all.skip(at as int)),
            goal.0 == settings_view(out@) + parse_settings_spec(dialect, all.skip(i as int)).0,
            goal.1 == (i - at) + parse_settings_spec(dialect, all.skip(i as int)).1,
        ensures
            at <= i <= ws.len(),
            goal.0 == settings_view(out@),
            goal.1 == i - at,
        decreases ws.len() - i,
    {
        match parse_setting(dialect, ws, i) {
            Some((s, n)) => {
                if n == 0 {
                    break;
                }
                let ghost before = settings_view(out@);
                let ghost sv = s@;
                proof {
                    assert(all.skip(i as int).skip(n as int) =~= all.skip(i + n));
                }
                out.push(s);
                assert(settings_view(out@) =~= before + seq![sv]);
                i += n;
            },
            None => {
                break;
            },
        }
    }
    (out, i - at)
}

/// Writes a setting as words.
pub fn format_setting(s: &Setting) -> (out: Vec<Vec<u8>>)
    ensures
        rows(out@) == s@.words(),
{
    let mut head: Vec<u8> = Vec::new();
    head.push(MINUS);
    head.push(MINUS);
    let mut out: Vec<Vec<u8>> = Vec::new();
    let value: Option<Vec<u8>> = match s {
        Setting::Address(v) => {
            push_bytes(&mut head, "address".as_bytes());
            Some(v.to_bytes())
        },
        Setting::Nameserver(v) => {
            push_bytes(&mut head, "nameserver".as_bytes());
            Some(vstd::slice::slice_to_vec(v.as_slice()))
        },
        Setting::Group(v) => {
            push_bytes(&mut head, "group".as_bytes());
            Some(vstd::slice::slice_to_vec(v.as_slice()))
        },
        Setting::SpeedCheckMode(v) => {
            push_bytes(&mut head, "speed-check-mode".as_bytes());
            Some(format_speed_modes(v))
        },
        Setting::ResponseMode(v) => {
            push_bytes(&mut head, "response-mode".as_bytes());
            Some(v.to_bytes())
        },
        Setting::DualstackIpSelection(v) => {
            push_bytes(&mut head, "dualstack-ip-selection".as_bytes());
            Some(format_bool(*v))
        },
        Setting::NoCache => {
            push_bytes(&mut head, "no-cache".as_bytes());
            None
        },
        Setting::NoServeExpired => {
            push_bytes(&mut head, "no-serve-expired".as_bytes());
            None
        },
        Setting::ForceAaaaSoa => {
            push_bytes(&mut head, "force-aaaa-soa".as_bytes());
            None
        },
        Setting::ForceHttpsSoa => {
            push_bytes(&mut head, "force-https-soa".as_bytes());
            None
        },
        Setting::NoRule => {
            push_bytes(&mut head, "no-rule".as_bytes());
            None
        },
        Setting::ExcludeDefaultGroup => {
            push_bytes(&mut head, "exclude-default-group".as_bytes());
            None
        },
        Setting::BlacklistIp => {
            push_bytes(&mut head, "blacklist-ip".as_bytes());
            None
        },
        Setting::WhitelistIp => {
            push_bytes(&mut head, "whitelist-ip".as_bytes());
            None
        },
        Setting::RrTtl(v) => {
            push_bytes(&mut head, "rr-ttl".as_bytes());
            Some(crate::text::format_u64(*v))
        },
        Setting::RrTtlMin(v) => {
            push_bytes(&mut head, "rr-ttl-min".as_bytes());
            Some(crate::text::format_u64(*v))
        },
        Setting::RrTtlMax(v) => {
            push_bytes(&mut head, "rr-ttl-max".as_bytes());
            Some(crate::text::format_u64(*v))
        },
        Setting::RrTtlReplyMax(v) => {
            push_bytes(&mut head, "rr-ttl-reply-max".as_bytes());
            Some(crate::text::format_u64(*v))
        },
        Setting::CName(v) => {
            push_bytes(&mut head, "cname".as_bytes());
            Some(v.to_bytes())
        },
        Setting::Nftset(v) => {
            push_bytes(&mut head, "nftset".as_bytes());
            Some(format_nftsets(v))
        },
        Setting::Subnet(v) => {
            push_bytes(&mut head, "subnet".as_bytes());
            Some(v.to_bytes())
        },
        Setting::Name(v) => {
            push_bytes(&mut head, "name".as_bytes());
            Some(vstd::slice::slice_to_vec(v.as_slice()))
        },
        Setting::File(v) => {
            push_bytes(&mut head, "file".as_bytes());
            Some(vstd::slice::slice_to_vec(v.as_slice()))
        },
        Setting::ContentType(v) => {
            push_bytes(&mut head, "type".as_bytes());
            Some(vstd::slice::slice_to_vec(v.as_slice()))
        },
    };
    assert(head@ =~= seq![MINUS, MINUS] + s@.key().name());
    out.push(head);
    match value {
        Some(v) => {
            out.push(v);
            assert(rows(out@) =~= s@.words());
        },
        None => {
            assert(rows(out@) =~= s@.words());
        },
    }
    out
}

} // verus!
