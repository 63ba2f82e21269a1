//! The small values of the configuration and their text: switches,
//! answer policies, probe modes, forced answers and packet-filter sets.

use crate::ip::{ip_text, is_ip_byte, lemma_ip_round_trip, parse_ip_spec, IpAddr};
use crate::name::{
    is_label_byte, is_name, lemma_parse_name_of_text, name_text, parse_name_spec, Name,
};
use crate::text::{
    digits, ends_with, fields, has_suffix, is_free_of, is_keyword, is_line_end, is_number,
    is_space, is_word, join_fields, join_with, keyword, kw, lemma_fields_of_join, lemma_kw,
    lemma_numeral_reads_back, lowered, number, numeral, parse_number, parse_number_spec,
    push_bytes, push_number, rows, split_fields, to_lowered, COLON, COMMA, DOT, HASH, MINUS, SLASH,
};
use vstd::prelude::*;
use vstd::string::StringSliceAdditionalSpecFns;

verus! {

/// What a word means as a switch: `yes`, `on`, `true` and `1` turn it on,
/// `no`, `off`, `false` and `0` turn it off, in any case of letters.
pub open spec fn parse_bool_spec(s: Seq<u8>) -> Option<bool> {
    let t = lowered(s);
    if t == kw("yes") || t == kw("on") || t == kw("true") || t == kw("1") {
        Some(true)
    } else if t == kw("no") || t == kw("off") || t == kw("false") || t == kw("0") {
        Some(false)
    } else {
        None
    }
}

/// A switch as text: `yes` or `no`.
pub open spec fn bool_text(b: bool) -> Seq<u8> {
    if b {
        kw("yes")
    } else {
        kw("no")
    }
}

/// Reading the text of a switch gives the switch back.
pub proof fn lemma_bool_round_trip(b: bool)
    ensures
        parse_bool_spec(bool_text(b)) == Some(b),
        is_word(bool_text(b)),
{
    reveal_strlit("yes");
    lemma_kw("yes");
    reveal_strlit("no");
    lemma_kw("no");
    reveal_strlit("on");
    lemma_kw("on");
    reveal_strlit("true");
    lemma_kw("true");
    reveal_strlit("1");
    lemma_kw("1");
    let t = bool_text(b);
    assert(lowered(t) =~= t);
    if !b {
        assert(t.len() == 2);
        assert(t[0] == 110u8);
        assert(kw("on")[0] == 111u8);
    }
}

/// Reads a switch.
pub fn parse_bool(word: &[u8]) -> (r: Option<bool>)
    ensures
        r == parse_bool_spec(word@),
{
    let t = to_lowered(word);
    let t = t.as_slice();
    if is_keyword(t, "yes") || is_keyword(t, "on") || is_keyword(t, "true") || is_keyword(t, "1") {
        Some(true)
    } else if is_keyword(t, "no") || is_keyword(t, "off") || is_keyword(t, "false") || is_keyword(
        t,
        "0",
    ) {
        Some(false)
    } else {
        None
    }
}

/// Writes a switch.
pub fn format_bool(b: bool) -> (out: Vec<u8>)
    ensures
        out@ == bool_text(b),
{
    if b {
        keyword("yes")
    } else {
        keyword("no")
    }
}

/// How the answer to a query is picked among the answers of the upstream
/// servers.
#[derive(Debug, Clone, Copy, PartialEq, Eq, Hash, Structural)]
pub enum ResponseMode {
    /// The answer whose addresses hold the fastest address to reach.
    FirstPing,
    /// As `FirstPing`, with the addresses of the answer put fastest first.
    FastestIp,
    /// The first answer to arrive that is no error.
    FastestResponse,
}

/// The policy as text.
pub open spec fn response_mode_text(m: ResponseMode) -> Seq<u8> {
    match m {
        ResponseMode::FirstPing => kw("first-ping"),
        ResponseMode::FastestIp => kw("fastest-ip"),
        ResponseMode::FastestResponse => kw("fastest-response"),
    }
}

/// The policy that a word names, in any case of letters.
pub open spec fn parse_response_mode_spec(s: Seq<u8>) -> Option<ResponseMode> {
    let t = lowered(s);
    if t == kw("first-ping") {
        Some(ResponseMode::FirstPing)
    } else if t == kw("fastest-ip") {
        Some(ResponseMode::FastestIp)
    } else if t == kw("fastest-response") {
        Some(ResponseMode::FastestResponse)
    } else {
        None
    }
}

/// Reading the text of a policy gives the policy back.
pub proof fn lemma_response_mode_round_trip(m: ResponseMode)
    ensures
        parse_response_mode_spec(response_mode_text(m)) == Some(m),
        is_word(response_mode_text(m)),
{
    reveal_strlit("first-ping");
    lemma_kw("first-ping");
    reveal_strlit("fastest-ip");
    lemma_kw("fastest-ip");
    reveal_strlit("fastest-response");
    lemma_kw("fastest-response");
    let t = response_mode_text(m);
    assert(lowered(t) =~= t);
    assert(kw("first-ping")[1] == 105u8);
    assert(kw("fastest-ip")[1] == 97u8);
    assert(kw("fastest-ip").len() == 10);
    assert(kw("fastest-response").len() == 16);
}

impl ResponseMode {
    /// Reads a policy.
    pub fn from_bytes(word: &[u8]) -> (r: Option<ResponseMode>)
        ensures
            r == parse_response_mode_spec(word@),
    {
        let t = to_lowered(word);
        let t = t.as_slice();
        if is_keyword(t, "first-ping") {
            Some(ResponseMode::FirstPing)
        } else if is_keyword(t, "fastest-ip") {
            Some(ResponseMode::FastestIp)
        } else if is_keyword(t, "fastest-response") {
            Some(ResponseMode::FastestResponse)
        } else {
            None
        }
    }

    /// Writes the policy.
    pub fn to_bytes(&self) -> (out: Vec<u8>)
        ensures
            out@ == response_mode_text(*self),
    {
        match self {
            ResponseMode::FirstPing => keyword("first-ping"),
            ResponseMode::FastestIp => keyword("fastest-ip"),
            ResponseMode::FastestResponse => keyword("fastest-response"),
        }
    }
}

/// How the time to reach an address is measured.
#[derive(Debug, Clone, Copy, PartialEq, Eq, Hash, Structural)]
pub enum SpeedCheckMode {
    /// Not at all.
    Disabled,
    /// By an echo request.
    Ping,
    /// By a TCP connection to the port.
    Tcp(u16),
    /// By an HTTP request to the port.
    Http(u16),
    /// By an HTTPS request to the port.
    Https(u16),
}

/// The mode as text: `none`, `ping`, or `tcp:`, `http:` or `https:` and a port.
pub open spec fn speed_mode_text(m: SpeedCheckMode) -> Seq<u8> {
    match m {
        SpeedCheckMode::Disabled => kw("none"),
        SpeedCheckMode::Ping => kw("ping"),
        SpeedCheckMode::Tcp(p) => kw("tcp") + seq![COLON] + digits(p as nat),
        SpeedCheckMode::Http(p) => kw("http") + seq![COLON] + digits(p as nat),
        SpeedCheckMode::Https(p) => kw("https") + seq![COLON] + digits(p as nat),
    }
}

/// The mode that a word names, in any case of letters.
pub open spec fn parse_speed_mode_spec(s: Seq<u8>) -> Option<SpeedCheckMode> {
    let parts = fields(lowered(s), COLON);
    if parts.len() == 1 {
        if parts[0] == kw("none") {
            Some(SpeedCheckMode::Disabled)
        } else if parts[0] == kw("ping") {
            Some(SpeedCheckMode::Ping)
        } else {
            None
        }
    } else if parts.len() == 2 {
        match parse_number_spec(parts[1], 10, 65535) {
            Some(p) => if parts[0] == kw("tcp") {
                Some(SpeedCheckMode::Tcp(p as u16))
            } else if parts[0] == kw("http") {
                Some(SpeedCheckMode::Http(p as u16))
            } else if parts[0] == kw("https") {
                Some(SpeedCheckMode::Https(p as u16))
            } else {
                None
            },
            None => None,
        }
    } else {
        None
    }
}

/// A byte of the text of a mode: a small letter, a digit or `:`.
pub open spec fn is_mode_byte(b: u8) -> bool {
    97 <= b <= 122 || 48 <= b <= 57 || b == COLON
}

/// Reading the text of a mode gives the mode back.
pub proof fn lemma_speed_mode_round_trip(m: SpeedCheckMode)
    ensures
        parse_speed_mode_spec(speed_mode_text(m)) == Some(m),
        speed_mode_text(m).len() > 0,
        forall|i: int|
            0 <= i < speed_mode_text(m).len() ==> is_mode_byte(#[trigger] speed_mode_text(m)[i]),
{
    reveal_strlit("none");
    lemma_kw("none");
    reveal_strlit("ping");
    lemma_kw("ping");
    reveal_strlit("tcp");
    lemma_kw("tcp");
    reveal_strlit("http");
    lemma_kw("http");
    reveal_strlit("https");
    lemma_kw("https");
    let t = speed_mode_text(m);
    match m {
        SpeedCheckMode::Disabled => {
            assert(lowered(t) =~= t);
            assert(is_free_of(t, COLON));
            lemma_fields_of_join(seq![t], COLON);
        },
        SpeedCheckMode::Ping => {
            assert(lowered(t) =~= t);
            assert(is_free_of(t, COLON));
            lemma_fields_of_join(seq![t], COLON);
            assert(t[0] == 112u8);
            assert(kw("none")[0] == 110u8);
        },
        SpeedCheckMode::Tcp(p) => {
            lemma_tagged_port(kw("tcp"), p);
        },
        SpeedCheckMode::Http(p) => {
            lemma_tagged_port(kw("http"), p);
            assert(kw("http")[0] == 104u8);
            assert(kw("tcp")[0] == 116u8);
        },
        SpeedCheckMode::Https(p) => {
            lemma_tagged_port(kw("https"), p);
            assert(kw("https")[0] == 104u8);
            assert(kw("tcp")[0] == 116u8);
            assert(kw("https").len() == 5);
            assert(kw("http").len() == 4);
        },
    }
}

/// A tag of small letters, a colon and a port split at the colon into the
/// tag and the digits of the port.
proof fn lemma_tagged_port(tag: Seq<u8>, p: u16)
    requires
        tag.len() > 0,
        forall|i: int| 0 <= i < tag.len() ==> 97 <= #[trigger] tag[i] <= 122,
    ensures
        ({
            let t = tag + seq![COLON] + digits(p as nat);
            &&& fields(lowered(t), COLON) == seq![tag, digits(p as nat)]
            &&& parse_number_spec(digits(p as nat), 10, 65535) == Some(p as u64)
            &&& forall|i: int| 0 <= i < t.len() ==> is_mode_byte(#[trigger] t[i])
        }),
{
    let d = digits(p as nat);
    let t = tag + seq![COLON] + d;
    lemma_numeral_reads_back(p as nat, 10);
    assert(lowered(t) =~= t);
    let parts = seq![tag, d];
    assert(parts.skip(1) =~= seq![d]);
    assert(join_fields(parts.skip(1), COLON) == d);
    assert(join_fields(parts, COLON) == t);
    assert forall|k: int| 0 <= k < parts.len() implies is_free_of(#[trigger] parts[k], COLON) by {}
    lemma_fields_of_join(parts, COLON);
    assert forall|i: int| 0 <= i < t.len() implies is_mode_byte(#[trigger] t[i]) by {
        if i < tag.len() {
            assert(t[i] == tag[i]);
        } else if i > tag.len() {
            assert(t[i] == d[i - tag.len() - 1]);
        }
    }
}

impl SpeedCheckMode {
    /// Reads a mode.
    pub fn from_bytes(word: &[u8]) -> (r: Option<SpeedCheckMode>)
        ensures
            r == parse_speed_mode_spec(word@),
    {
        let t = to_lowered(word);
        let parts = split_fields(t.as_slice(), COLON);
        let ghost fs = fields(lowered(word@), COLON);
        if parts.len() == 1 {
            assert(rows(parts@)[0] == fs[0]);
            let tag = parts[0].as_slice();
            if is_keyword(tag, "none") {
                Some(SpeedCheckMode::Disabled)
            } else if is_keyword(tag, "ping") {
                Some(SpeedCheckMode::Ping)
            } else {
                None
            }
        } else if parts.len() == 2 {
            assert(rows(parts@)[0] == fs[0]);
            assert(rows(parts@)[1] == fs[1]);
            let tag = parts[0].as_slice();
            match parse_number(parts[1].as_slice(), 10, 65535) {
                Some(p) => {
                    if is_keyword(tag, "tcp") {
                        Some(SpeedCheckMode::Tcp(p as u16))
                    } else if is_keyword(tag, "http") {
                        Some(SpeedCheckMode::Http(p as u16))
                    } else if is_keyword(tag, "https") {
                        Some(SpeedCheckMode::Https(p as u16))
                    } else {
                        None
                    }
                },
                None => None,
            }
        } else {
            None
        }
    }

    /// Writes the mode.
    pub fn to_bytes(&self) -> (out: Vec<u8>)
        ensures
            out@ == speed_mode_text(*self),
    {
        match self {
            SpeedCheckMode::Disabled => keyword("none"),
            SpeedCheckMode::Ping => keyword("ping"),
            SpeedCheckMode::Tcp(p) => {
                let mut out = keyword("tcp");
                out.push(COLON);
                push_number(*p as u64, 10, &mut out);
                out
            },
            SpeedCheckMode::Http(p) => {
                let mut out = keyword("http");
                out.push(COLON);
                push_number(*p as u64, 10, &mut out);
                out
            },
            SpeedCheckMode::Https(p) => {
                let mut out = keyword("https");
                out.push(COLON);
                push_number(*p as u64, 10, &mut out);
                out
            },
        }
    }
}

/// The modes as text: one after another, joined by commas.
pub open spec fn speed_modes_text(ms: Seq<SpeedCheckMode>) -> Seq<u8> {
    join_fields(Seq::new(ms.len(), |i: int| speed_mode_text(ms[i])), COMMA)
}

/// The modes that a word lists: one mode or more, joined by commas.
pub open spec fn parse_speed_modes_spec(s: Seq<u8>) -> Option<Seq<SpeedCheckMode>> {
    let parts = fields(s, COMMA);
    if forall|i: int| 0 <= i < parts.len() ==> parse_speed_mode_spec(#[trigger] parts[i]).is_some() {
        Some(Seq::new(parts.len(), |i: int| parse_speed_mode_spec(parts[i]).unwrap()))
    } else {
        None
    }
}

/// The text of a list of pieces, none of them empty, joined by `sep`: it is
/// not empty, and each of its bytes is `sep` or a byte of a piece.
pub proof fn lemma_join_bytes(parts: Seq<Seq<u8>>, sep: u8, at: int)
    requires
        parts.len() > 0,
        forall|k: int| 0 <= k < parts.len() ==> (#[trigger] parts[k]).len() > 0,
        0 <= at < join_fields(parts, sep).len(),
    ensures
        join_fields(parts, sep)[at] == sep || exists|k: int, j: int|
            0 <= k < parts.len() && 0 <= j < parts[k].len() && #[trigger] parts[k][j]
                == join_fields(parts, sep)[at],
    decreases parts.len(),
{
    let t = join_fields(parts, sep);
    if parts.len() == 1 {
        assert(parts[0][at] == t[at]);
    } else {
        let rest = parts.skip(1);
        let tail = join_fields(rest, sep);
        assert(t == parts[0] + seq![sep] + tail);
        if at < parts[0].len() {
            assert(parts[0][at] == t[at]);
        } else if at > parts[0].len() {
            let a = at - parts[0].len() - 1;
            assert(t[at] == tail[a]);
            assert forall|k: int| 0 <= k < rest.len() implies (#[trigger] rest[k]).len() > 0 by {
                assert(rest[k] == parts[k + 1]);
            }
            lemma_join_bytes(rest, sep, a);
            if tail[a] != sep {
                let (k, j) = choose|k: int, j: int|
                    0 <= k < rest.len() && 0 <= j < rest[k].len() && #[trigger] rest[k][j]
                        == tail[a];
                assert(parts[k + 1][j] == t[at]);
            }
        }
    }
}

/// A list of non-empty pieces joined by `sep` is not empty.
pub proof fn lemma_join_not_empty(parts: Seq<Seq<u8>>, sep: u8)
    requires
        parts.len() > 0,
        parts[0].len() > 0,
    ensures
        join_fields(parts, sep).len() > 0,
{
    if parts.len() > 1 {
        assert(join_fields(parts, sep) == parts[0] + seq![sep] + join_fields(parts.skip(1), sep));
    }
}

/// Reading the text of a list of modes gives the list back.
pub proof fn lemma_speed_modes_round_trip(ms: Seq<SpeedCheckMode>)
    requires
        ms.len() > 0,
    ensures
        parse_speed_modes_spec(speed_modes_text(ms)) == Some(ms),
        is_word(speed_modes_text(ms)),
        speed_modes_text(ms)[0] != MINUS && speed_modes_text(ms)[0] != HASH,
{
    let parts = Seq::new(ms.len(), |i: int| speed_mode_text(ms[i]));
    let t = speed_modes_text(ms);
    assert forall|k: int| 0 <= k < parts.len() implies is_free_of(#[trigger] parts[k], COMMA)
        && parts[k].len() > 0 && parse_speed_mode_spec(parts[k]) == Some(ms[k]) by {
        lemma_speed_mode_round_trip(ms[k]);
        assert forall|i: int| 0 <= i < parts[k].len() implies #[trigger] parts[k][i] != COMMA by {
            assert(is_mode_byte(parts[k][i]));
        }
    }
    lemma_fields_of_join(parts, COMMA);
    assert(Seq::new(parts.len(), |i: int| parse_speed_mode_spec(parts[i]).unwrap()) =~= ms);
    lemma_join_not_empty(parts, COMMA);
    assert forall|i: int| 0 <= i < t.len() implies !crate::text::is_space(#[trigger] t[i])
        && !crate::text::is_line_end(t[i]) && (t[i] == COMMA || is_mode_byte(t[i])) by {
        lemma_join_bytes(parts, COMMA, i);
        if t[i] != COMMA {
            let (k, j) = choose|k: int, j: int|
                0 <= k < parts.len() && 0 <= j < parts[k].len() && #[trigger] parts[k][j] == t[i];
            lemma_speed_mode_round_trip(ms[k]);
            assert(is_mode_byte(parts[k][j]));
        }
    }
    lemma_speed_mode_round_trip(ms[0]);
    assert(t[0] == parts[0][0]) by {
        if parts.len() > 1 {
            assert(t == parts[0] + seq![COMMA] + join_fields(parts.skip(1), COMMA));
        }
    }
    assert(is_mode_byte(parts[0][0]));
}

/// Reads a list of modes.
pub fn parse_speed_modes(word: &[u8]) -> (r: Option<Vec<SpeedCheckMode>>)
    ensures
        r.is_some() == parse_speed_modes_spec(word@).is_some(),
        r matches Some(v) ==> parse_speed_modes_spec(word@) == Some(v@),
{
    let parts = split_fields(word, COMMA);
    let ghost fs = fields(word@, COMMA);
    let mut out: Vec<SpeedCheckMode> = Vec::new();
    let mut i: usize = 0;
    while i < parts.len()
        invariant
            i <= parts.len(),
            rows(parts@) == fs,
            fs == fields(word@, COMMA),
            fs.len() == parts.len(),
            out@.len() == i,
            forall|k: int| 0 <= k < i ==> parse_speed_mode_spec(#[trigger] fs[k]) == Some(out@[k]),
        decreases parts.len() - i,
    {
        assert(rows(parts@)[i as int] == fs[i as int]);
        match SpeedCheckMode::from_bytes(parts[i].as_slice()) {
            Some(m) => {
                out.push(m);
            },
            None => {
                assert(parse_speed_mode_spec(fs[i as int]).is_none());
                return None;
            },
        }
        i += 1;
    }
    assert(out@ =~= Seq::new(fs.len(), |i: int| parse_speed_mode_spec(fs[i]).unwrap()));
    Some(out)
}

/// Writes a list of modes.
pub fn format_speed_modes(ms: &Vec<SpeedCheckMode>) -> (out: Vec<u8>)
    ensures
        out@ == speed_modes_text(ms@),
{
    let mut texts: Vec<Vec<u8>> = Vec::new();
    let mut i: usize = 0;
    while i < ms.len()
        invariant
            i <= ms.len(),
            texts@.len() == i,
            forall|k: int| 0 <= k < i ==> texts@[k]@ == speed_mode_text(ms@[k]),
        decreases ms.len() - i,
    {
        texts.push(ms[i].to_bytes());
        i += 1;
    }
    assert(rows(texts@) =~= Seq::new(ms@.len(), |i: int| speed_mode_text(ms@[i])));
    join_with(&texts, COMMA)
}

/// The answer that a rule forces for a domain.
#[derive(Debug, Clone, Copy, PartialEq, Eq, Hash, Structural)]
pub enum AddressRuleValue {
    /// This address.
    Addr(IpAddr),
    /// "No such data", whatever is asked for.
    SOA,
    /// "No such data" where an IPv4 address is asked for.
    SOAv4,
    /// "No such data" where an IPv6 address is asked for.
    SOAv6,
    /// Nothing: forced answers of less specific rules are set aside.
    IGN,
    /// Nothing where an IPv4 address is asked for.
    IGNv4,
    /// Nothing where an IPv6 address is asked for.
    IGNv6,
}

/// The forced answer as text: an address, `#`, `#4`, `#6`, `-`, `-4` or `-6`.
pub open spec fn address_value_text(v: AddressRuleValue) -> Seq<u8> {
    match v {
        AddressRuleValue::Addr(ip) => ip_text(ip),
        AddressRuleValue::SOA => seq![HASH],
        AddressRuleValue::SOAv4 => seq![HASH, 52u8],
        AddressRuleValue::SOAv6 => seq![HASH, 54u8],
        AddressRuleValue::IGN => seq![MINUS],
        AddressRuleValue::IGNv4 => seq![MINUS, 52u8],
        AddressRuleValue::IGNv6 => seq![MINUS, 54u8],
    }
}

/// The forced answer that a word spells.
pub open spec fn parse_address_value_spec(s: Seq<u8>) -> Option<AddressRuleValue> {
    if s == seq![HASH] {
        Some(AddressRuleValue::SOA)
    } else if s == seq![HASH, 52u8] {
        Some(AddressRuleValue::SOAv4)
    } else if s == seq![HASH, 54u8] {
        Some(AddressRuleValue::SOAv6)
    } else if s == seq![MINUS] {
        Some(AddressRuleValue::IGN)
    } else if s == seq![MINUS, 52u8] {
        Some(AddressRuleValue::IGNv4)
    } else if s == seq![MINUS, 54u8] {
        Some(AddressRuleValue::IGNv6)
    } else {
        match parse_ip_spec(s) {
            Some(ip) => Some(AddressRuleValue::Addr(ip)),
            None => None,
        }
    }
}

/// Reading the text of a forced answer gives it back.
pub proof fn lemma_address_value_round_trip(v: AddressRuleValue)
    ensures
        parse_address_value_spec(address_value_text(v)) == Some(v),
        is_word(address_value_text(v)),
{
    let t = address_value_text(v);
    match v {
        AddressRuleValue::Addr(ip) => {
            lemma_ip_round_trip(ip);
            assert(is_ip_byte(t[0]));
            assert forall|i: int| 0 <= i < t.len() implies !crate::text::is_space(#[trigger] t[i])
                && !crate::text::is_line_end(t[i]) by {
                assert(is_ip_byte(t[i]));
            }
        },
        AddressRuleValue::SOA => {},
        AddressRuleValue::SOAv4 => {
            assert(t.len() == 2);
        },
        AddressRuleValue::SOAv6 => {
            assert(t.len() == 2);
            assert(t[1] == 54u8);
            assert(seq![HASH, 52u8][1] == 52u8);
        },
        AddressRuleValue::IGN => {
            assert(t[0] == MINUS);
        },
        AddressRuleValue::IGNv4 => {
            assert(t.len() == 2);
            assert(t[0] == MINUS);
            assert(seq![HASH, 52u8][0] == HASH);
            assert(seq![HASH, 54u8][0] == HASH);
        },
        AddressRuleValue::IGNv6 => {
            assert(t.len() == 2);
            assert(t[0] == MINUS);
            assert(t[1] == 54u8);
            assert(seq![HASH, 52u8][0] == HASH);
            assert(seq![HASH, 54u8][0] == HASH);
            assert(seq![MINUS, 52u8][1] == 52u8);
        },
    }
}

impl AddressRuleValue {
    /// Reads a forced answer.
    pub fn from_bytes(word: &[u8]) -> (r: Option<AddressRuleValue>)
        ensures
            r == parse_address_value_spec(word@),
    {
        let n = word.len();
        if n == 1 && word[0] == HASH {
            assert(word@ =~= seq![HASH]);
            return Some(AddressRuleValue::SOA);
        }
        if n == 2 && word[0] == HASH && word[1] == 52 {
            assert(word@ =~= seq![HASH, 52u8]);
            return Some(AddressRuleValue::SOAv4);
        }
        if n == 2 && word[0] == HASH && word[1] == 54 {
            assert(word@ =~= seq![HASH, 54u8]);
            return Some(AddressRuleValue::SOAv6);
        }
        if n == 1 && word[0] == MINUS {
            assert(word@ =~= seq![MINUS]);
            return Some(AddressRuleValue::IGN);
        }
        if n == 2 && word[0] == MINUS && word[1] == 52 {
            assert(word@ =~= seq![MINUS, 52u8]);
            return Some(AddressRuleValue::IGNv4);
        }
        if n == 2 && word[0] == MINUS && word[1] == 54 {
            assert(word@ =~= seq![MINUS, 54u8]);
            return Some(AddressRuleValue::IGNv6);
        }
        proof {
            let s = word@;
            assert(s != seq![HASH]) by {
                if s == seq![HASH] {
                    assert(s.len() == 1 && s[0] == HASH);
                }
            }
            assert(s != seq![MINUS]) by {
                if s == seq![MINUS] {
                    assert(s.len() == 1 && s[0] == MINUS);
                }
            }
            assert(s != seq![HASH, 52u8]) by {
                if s == seq![HASH, 52u8] {
                    assert(s.len() == 2 && s[0] == HASH && s[1] == 52);
                }
            }
            assert(s != seq![HASH, 54u8]) by {
                if s == seq![HASH, 54u8] {
                    assert(s.len() == 2 && s[0] == HASH && s[1] == 54);
                }
            }
            assert(s != seq![MINUS, 52u8]) by {
                if s == seq![MINUS, 52u8] {
                    assert(s.len() == 2 && s[0] == MINUS && s[1] == 52);
                }
            }
            assert(s != seq![MINUS, 54u8]) by {
                if s == seq![MINUS, 54u8] {
                    assert(s.len() == 2 && s[0] == MINUS && s[1] == 54);
                }
            }
        }
        match IpAddr::from_bytes(word) {
            Some(ip) => Some(AddressRuleValue::Addr(ip)),
            None => None,
        }
    }

    /// Writes the forced answer.
    pub fn to_bytes(&self) -> (out: Vec<u8>)
        ensures
            out@ == address_value_text(*self),
    {
        let mut out: Vec<u8> = Vec::new();
        match self {
            AddressRuleValue::Addr(ip) => {
                return ip.to_bytes();
            },
            AddressRuleValue::SOA => {
                out.push(HASH);
            },
            AddressRuleValue::SOAv4 => {
                out.push(HASH);
                out.push(52);
            },
            AddressRuleValue::SOAv6 => {
                out.push(HASH);
                out.push(54);
            },
            AddressRuleValue::IGN => {
                out.push(MINUS);
            },
            AddressRuleValue::IGNv4 => {
                out.push(MINUS);
                out.push(52);
            },
            AddressRuleValue::IGNv6 => {
                out.push(MINUS);
                out.push(54);
            },
        }
        assert(out@ =~= address_value_text(*self));
        out
    }
}

/// A number of bytes.
#[derive(Debug, Clone, Copy, PartialEq, Eq, Hash, Structural)]
pub struct Byte(pub u64);

/// The unit at the end of a lower-case size: how many bytes of the text it
/// takes, and how many bytes one of it is. `k`, `m` and `g` count in powers
/// of 1024, with or without a `b` behind them.
pub open spec fn size_unit(t: Seq<u8>) -> (int, nat) {
    if ends_with(t, kw("kb")) {
        (2, 1024)
    } else if ends_with(t, kw("mb")) {
        (2, 1048576)
    } else if ends_with(t, kw("gb")) {
        (2, 1073741824)
    } else if ends_with(t, kw("k")) {
        (1, 1024)
    } else if ends_with(t, kw("m")) {
        (1, 1048576)
    } else if ends_with(t, kw("g")) {
        (1, 1073741824)
    } else if ends_with(t, kw("b")) {
        (1, 1)
    } else {
        (0, 1)
    }
}

/// The size that a word spells: a decimal number and, in any case of
/// letters, a unit or none, as long as the bytes fit in 64 bits.
pub open spec fn parse_size_spec(s: Seq<u8>) -> Option<Byte> {
    let t = lowered(s);
    let (n, unit) = size_unit(t);
    let body = t.take(t.len() - n);
    if is_number(body, 10) && number(body, 10) * unit <= u64::MAX {
        Some(Byte((number(body, 10) * unit) as u64))
    } else {
        None
    }
}

/// The size as text: its number of bytes.
pub open spec fn size_text(b: Byte) -> Seq<u8> {
    digits(b.0 as nat)
}

/// Reading the text of a size gives the size back.
pub proof fn lemma_size_round_trip(b: Byte)
    ensures
        parse_size_spec(size_text(b)) == Some(b),
        is_word(size_text(b)),
{
    reveal_strlit("kb");
    lemma_kw("kb");
    reveal_strlit("mb");
    lemma_kw("mb");
    reveal_strlit("gb");
    lemma_kw("gb");
    reveal_strlit("k");
    lemma_kw("k");
    reveal_strlit("m");
    lemma_kw("m");
    reveal_strlit("g");
    lemma_kw("g");
    reveal_strlit("b");
    lemma_kw("b");
    let t = size_text(b);
    lemma_numeral_reads_back(b.0 as nat, 10);
    assert(lowered(t) =~= t);
    let last = t[t.len() - 1];
    assert(crate::text::is_digit(last));
    assert forall|u: Seq<u8>| u.len() > 0 && !crate::text::is_digit(u[u.len() - 1]) implies !ends_with(
        t,
        u,
    ) by {
        if ends_with(t, u) {
            assert(t.skip(t.len() - u.len())[u.len() - 1] == t[t.len() - 1]);
        }
    }
    assert(kw("kb")[1] == 98u8);
    assert(kw("mb")[1] == 98u8);
    assert(kw("gb")[1] == 98u8);
    assert(kw("k")[0] == 107u8);
    assert(kw("m")[0] == 109u8);
    assert(kw("g")[0] == 103u8);
    assert(kw("b")[0] == 98u8);
    assert(size_unit(t) == (0int, 1nat));
    assert(t.take(t.len() - 0) =~= t);
    assert(lowered(t).take(lowered(t).len() - 0) == t);
    assert(number(t, 10) * 1 == b.0);
}

impl Byte {
    /// Reads a size.
    pub fn from_bytes(word: &[u8]) -> (r: Option<Byte>)
        ensures
            r == parse_size_spec(word@),
    {
        proof {
            reveal_strlit("kb");
            lemma_kw("kb");
            reveal_strlit("mb");
            lemma_kw("mb");
            reveal_strlit("gb");
            lemma_kw("gb");
            reveal_strlit("k");
            lemma_kw("k");
            reveal_strlit("m");
            lemma_kw("m");
            reveal_strlit("g");
            lemma_kw("g");
            reveal_strlit("b");
            lemma_kw("b");
        }
        let t = to_lowered(word);
        let t = t.as_slice();
        let (n, unit): (usize, u64) = if has_suffix(t, "kb") {
            (2, 1024)
        } else if has_suffix(t, "mb") {
            (2, 1048576)
        } else if has_suffix(t, "gb") {
            (2, 1073741824)
        } else if has_suffix(t, "k") {
            (1, 1024)
        } else if has_suffix(t, "m") {
            (1, 1048576)
        } else if has_suffix(t, "g") {
            (1, 1073741824)
        } else if has_suffix(t, "b") {
            (1, 1)
        } else {
            (0, 1)
        };
        let body = vstd::slice::slice_subrange(t, 0, t.len() - n);
        assert(body@ =~= t@.take(t@.len() - n));
        match parse_number(body, 10, u64::MAX / unit) {
            Some(v) => {
                assert(v * unit <= u64::MAX) by (nonlinear_arith)
                    requires
                        v <= u64::MAX / unit,
                        unit >= 1,
                ;
                Some(Byte(v * unit))
            },
            None => {
                proof {
                    if is_number(body@, 10) {
                        let x = number(body@, 10);
                        assert(x * unit > u64::MAX) by (nonlinear_arith)
                            requires
                                x > u64::MAX / unit,
                                unit >= 1,
                        ;
                    }
                }
                None
            },
        }
    }

    /// Reads a size from a string, as `from_bytes` does from its bytes.
    pub fn from_str(text: &str) -> (r: Option<Byte>)
        ensures
            r == parse_size_spec(text.spec_bytes()),
    {
        Byte::from_bytes(text.as_bytes())
    }

    /// Writes the size.
    pub fn to_bytes(&self) -> (out: Vec<u8>)
        ensures
            out@ == size_text(*self),
    {
        let mut out: Vec<u8> = Vec::new();
        push_number(self.0, 10, &mut out);
        out
    }
}

/// The permission bits of a file.
#[derive(Debug, Clone, Copy, PartialEq, Eq, Hash, Structural)]
pub struct FileMode(pub u32);

/// The permission bits that a word spells: an octal number up to 7777.
pub open spec fn parse_file_mode_spec(s: Seq<u8>) -> Option<FileMode> {
    match parse_number_spec(s, 8, 0o7777) {
        Some(v) => Some(FileMode(v as u32)),
        None => None,
    }
}

/// The permission bits as text: in octal.
pub open spec fn file_mode_text(m: FileMode) -> Seq<u8> {
    numeral(m.0 as nat, 8)
}

/// Reading the text of permission bits gives them back.
pub proof fn lemma_file_mode_round_trip(m: FileMode)
    requires
        m.0 <= 0o7777,
    ensures
        parse_file_mode_spec(file_mode_text(m)) == Some(m),
        is_word(file_mode_text(m)),
{
    lemma_numeral_reads_back(m.0 as nat, 8);
}

impl FileMode {
    /// Reads permission bits.
    pub fn from_bytes(word: &[u8]) -> (r: Option<FileMode>)
        ensures
            r == parse_file_mode_spec(word@),
    {
        match parse_number(word, 8, 0o7777) {
            Some(v) => Some(FileMode(v as u32)),
            None => None,
        }
    }

    /// Writes the permission bits.
    pub fn to_bytes(&self) -> (out: Vec<u8>)
        ensures
            out@ == file_mode_text(*self),
    {
        let mut out: Vec<u8> = Vec::new();
        push_number(self.0 as u64, 8, &mut out);
        out
    }
}

/// How much is written to the log.
#[derive(Debug, Clone, Copy, PartialEq, Eq, Hash, Structural)]
pub enum Level {
    Error,
    Warn,
    Info,
    Debug,
    Trace,
}

/// The level that a word names, in any case of letters; `fatal` is `error`
/// and `notice` is `info`.
pub open spec fn parse_level_spec(s: Seq<u8>) -> Option<Level> {
    let t = lowered(s);
    if t == kw("error") || t == kw("fatal") {
        Some(Level::Error)
    } else if t == kw("warn") {
        Some(Level::Warn)
    } else if t == kw("info") || t == kw("notice") {
        Some(Level::Info)
    } else if t == kw("debug") {
        Some(Level::Debug)
    } else if t == kw("trace") {
        Some(Level::Trace)
    } else {
        None
    }
}

/// The level as text.
pub open spec fn level_text(l: Level) -> Seq<u8> {
    match l {
        Level::Error => kw("error"),
        Level::Warn => kw("warn"),
        Level::Info => kw("info"),
        Level::Debug => kw("debug"),
        Level::Trace => kw("trace"),
    }
}

/// Reading the text of a level gives the level back.
pub proof fn lemma_level_round_trip(l: Level)
    ensures
        parse_level_spec(level_text(l)) == Some(l),
        is_word(level_text(l)),
{
    reveal_strlit("error");
    lemma_kw("error");
    reveal_strlit("fatal");
    lemma_kw("fatal");
    reveal_strlit("warn");
    lemma_kw("warn");
    reveal_strlit("info");
    lemma_kw("info");
    reveal_strlit("notice");
    lemma_kw("notice");
    reveal_strlit("debug");
    lemma_kw("debug");
    reveal_strlit("trace");
    lemma_kw("trace");
    let t = level_text(l);
    assert(lowered(t) =~= t);
    assert(kw("error")[0] == 101u8);
    assert(kw("fatal")[0] == 102u8);
    assert(kw("warn")[0] == 119u8);
    assert(kw("info")[0] == 105u8);
    assert(kw("notice")[0] == 110u8);
    assert(kw("debug")[0] == 100u8);
    assert(kw("trace")[0] == 116u8);
}

impl Level {
    /// Reads a level.
    pub fn from_bytes(word: &[u8]) -> (r: Option<Level>)
        ensures
            r == parse_level_spec(word@),
    {
        let t = to_lowered(word);
        let t = t.as_slice();
        if is_keyword(t, "error") || is_keyword(t, "fatal") {
            Some(Level::Error)
        } else if is_keyword(t, "warn") {
            Some(Level::Warn)
        } else if is_keyword(t, "info") || is_keyword(t, "notice") {
            Some(Level::Info)
        } else if is_keyword(t, "debug") {
            Some(Level::Debug)
        } else if is_keyword(t, "trace") {
            Some(Level::Trace)
        } else {
            None
        }
    }

    /// Writes the level.
    pub fn to_bytes(&self) -> (out: Vec<u8>)
        ensures
            out@ == level_text(*self),
    {
        match self {
            Level::Error => keyword("error"),
            Level::Warn => keyword("warn"),
            Level::Info => keyword("info"),
            Level::Debug => keyword("debug"),
            Level::Trace => keyword("trace"),
        }
    }
}

/// The type of a resource record, by its number.
#[derive(Debug, Clone, Copy, PartialEq, Eq, Hash, Structural)]
pub struct RecordType(pub u16);

/// The record type that a word names: one of the usual names, in any case
/// of letters, or the number of the type.
pub open spec fn parse_record_type_spec(s: Seq<u8>) -> Option<RecordType> {
    let t = lowered(s);
    if t == kw("a") {
        Some(RecordType(1))
    } else if t == kw("ns") {
        Some(RecordType(2))
    } else if t == kw("cname") {
        Some(RecordType(5))
    } else if t == kw("soa") {
        Some(RecordType(6))
    } else if t == kw("ptr") {
        Some(RecordType(12))
    } else if t == kw("mx") {
        Some(RecordType(15))
    } else if t == kw("txt") {
        Some(RecordType(16))
    } else if t == kw("aaaa") {
        Some(RecordType(28))
    } else if t == kw("srv") {
        Some(RecordType(33))
    } else if t == kw("svcb") {
        Some(RecordType(64))
    } else if t == kw("https") {
        Some(RecordType(65))
    } else if t == kw("any") {
        Some(RecordType(255))
    } else {
        match parse_number_spec(t, 10, 65535) {
            Some(v) => Some(RecordType(v as u16)),
            None => None,
        }
    }
}

/// The record type as text: its number.
pub open spec fn record_type_text(t: RecordType) -> Seq<u8> {
    digits(t.0 as nat)
}

/// Reading the text of a record type gives the type back.
pub proof fn lemma_record_type_round_trip(r: RecordType)
    ensures
        parse_record_type_spec(record_type_text(r)) == Some(r),
        is_word(record_type_text(r)),
{
    reveal_strlit("a");
    lemma_kw("a");
    reveal_strlit("ns");
    lemma_kw("ns");
    reveal_strlit("cname");
    lemma_kw("cname");
    reveal_strlit("soa");
    lemma_kw("soa");
    reveal_strlit("ptr");
    lemma_kw("ptr");
    reveal_strlit("mx");
    lemma_kw("mx");
    reveal_strlit("txt");
    lemma_kw("txt");
    reveal_strlit("aaaa");
    lemma_kw("aaaa");
    reveal_strlit("srv");
    lemma_kw("srv");
    reveal_strlit("svcb");
    lemma_kw("svcb");
    reveal_strlit("https");
    lemma_kw("https");
    reveal_strlit("any");
    lemma_kw("any");
    let t = record_type_text(r);
    lemma_numeral_reads_back(r.0 as nat, 10);
    assert(lowered(t) =~= t);
    assert(crate::text::is_digit(t[0]));
    assert(kw("a")[0] == 97u8);
    assert(kw("ns")[0] == 110u8);
    assert(kw("cname")[0] == 99u8);
    assert(kw("soa")[0] == 115u8);
    assert(kw("ptr")[0] == 112u8);
    assert(kw("mx")[0] == 109u8);
    assert(kw("txt")[0] == 116u8);
    assert(kw("aaaa")[0] == 97u8);
    assert(kw("srv")[0] == 115u8);
    assert(kw("svcb")[0] == 115u8);
    assert(kw("https")[0] == 104u8);
    assert(kw("any")[0] == 97u8);
}

impl RecordType {
    /// Reads a record type.
    pub fn from_bytes(word: &[u8]) -> (r: Option<RecordType>)
        ensures
            r == parse_record_type_spec(word@),
    {
        let t = to_lowered(word);
        let t = t.as_slice();
        if is_keyword(t, "a") {
            Some(RecordType(1))
        } else if is_keyword(t, "ns") {
            Some(RecordType(2))
        } else if is_keyword(t, "cname") {
            Some(RecordType(5))
        } else if is_keyword(t, "soa") {
            Some(RecordType(6))
        } else if is_keyword(t, "ptr") {
            Some(RecordType(12))
        } else if is_keyword(t, "mx") {
            Some(RecordType(15))
        } else if is_keyword(t, "txt") {
            Some(RecordType(16))
        } else if is_keyword(t, "aaaa") {
            Some(RecordType(28))
        } else if is_keyword(t, "srv") {
            Some(RecordType(33))
        } else if is_keyword(t, "svcb") {
            Some(RecordType(64))
        } else if is_keyword(t, "https") {
            Some(RecordType(65))
        } else if is_keyword(t, "any") {
            Some(RecordType(255))
        } else {
            match parse_number(t, 10, 65535) {
                Some(v) => Some(RecordType(v as u16)),
                None => None,
            }
        }
    }

    /// Writes the record type.
    pub fn to_bytes(&self) -> (out: Vec<u8>)
        ensures
            out@ == record_type_text(*self),
    {
        let mut out: Vec<u8> = Vec::new();
        push_number(self.0 as u64, 10, &mut out);
        out
    }
}

/// The name that a rule puts in place of a domain.
#[derive(Debug, PartialEq, Eq, Hash)]
pub enum CNameRule {
    /// None: aliases of less specific rules are set aside.
    Ignore,
    /// This name.
    Value(Name),
}

/// The mathematical content of a `CNameRule`.
pub enum CNameSpec {
    Ignore,
    Value(Seq<Seq<u8>>),
}

impl View for CNameRule {
    type V = CNameSpec;

    open spec fn view(&self) -> CNameSpec {
        match self {
            CNameRule::Ignore => CNameSpec::Ignore,
            CNameRule::Value(n) => CNameSpec::Value(n@),
        }
    }
}

impl Clone for CNameRule {
    fn clone(&self) -> (out: Self)
        ensures
            out@ == self@,
    {
        match self {
            CNameRule::Ignore => CNameRule::Ignore,
            CNameRule::Value(n) => CNameRule::Value(n.clone()),
        }
    }
}

impl CNameSpec {
    /// The alias holds a name, if any.
    pub open spec fn canonical(self) -> bool {
        self matches CNameSpec::Value(n) ==> is_name(n)
    }

    /// The alias as text: `-` or a name.
    pub open spec fn text(self) -> Seq<u8> {
        match self {
            CNameSpec::Ignore => seq![MINUS],
            CNameSpec::Value(n) => name_text(n),
        }
    }
}

/// The alias that a word spells.
pub open spec fn parse_cname_spec(s: Seq<u8>) -> Option<CNameSpec> {
    if s == seq![MINUS] {
        Some(CNameSpec::Ignore)
    } else {
        match parse_name_spec(s) {
            Some(n) => Some(CNameSpec::Value(n)),
            None => None,
        }
    }
}

/// The text of a name is a word of label bytes and dots that does not start
/// with `-` or `#`.
pub proof fn lemma_name_text_is_word(n: Seq<Seq<u8>>)
    requires
        is_name(n),
    ensures
        is_word(name_text(n)),
        name_text(n)[0] != MINUS,
        name_text(n)[0] != HASH,
        forall|i: int|
            0 <= i < name_text(n).len() ==> is_label_byte(#[trigger] name_text(n)[i])
                || name_text(n)[i] == DOT,
{
    let t = name_text(n);
    if n.len() > 0 {
        crate::config::domain::lemma_labels_text_bytes(n);
        crate::name::lemma_labels_text_lowered(n);
        crate::config::domain::lemma_first_label(n);
        assert(crate::name::is_label(n[0]));
        assert(t.take(n[0].len() as int)[0] == t[0]);
        assert(is_label_byte(n[0][0]));
    }
}

/// Reading the text of an alias gives the alias back.
pub proof fn lemma_cname_round_trip(c: CNameSpec)
    requires
        c.canonical(),
    ensures
        parse_cname_spec(c.text()) == Some(c),
        is_word(c.text()),
{
    match c {
        CNameSpec::Ignore => {},
        CNameSpec::Value(n) => {
            lemma_parse_name_of_text(n);
            lemma_name_text_is_word(n);
        },
    }
}

impl CNameRule {
    /// Reads an alias.
    pub fn from_bytes(word: &[u8]) -> (r: Option<CNameRule>)
        ensures
            r.is_some() == parse_cname_spec(word@).is_some(),
            r matches Some(c) ==> parse_cname_spec(word@) == Some(c@),
    {
        if word.len() == 1 && word[0] == MINUS {
            assert(word@ =~= seq![MINUS]);
            return Some(CNameRule::Ignore);
        }
        assert(word@ != seq![MINUS]) by {
            if word@ == seq![MINUS] {
                assert(word@.len() == 1 && word@[0] == MINUS);
            }
        }
        match Name::from_bytes(word) {
            Some(n) => Some(CNameRule::Value(n)),
            None => None,
        }
    }

    /// Writes the alias.
    pub fn to_bytes(&self) -> (out: Vec<u8>)
        ensures
            out@ == self@.text(),
    {
        match self {
            CNameRule::Ignore => {
                let mut out: Vec<u8> = Vec::new();
                out.push(MINUS);
                assert(out@ =~= seq![MINUS]);
                out
            },
            CNameRule::Value(n) => n.to_bytes(),
        }
    }
}

/// A value that holds for one address family, or that sets the value of a
/// less specific rule aside.
#[derive(Debug, Clone, Copy, PartialEq, Eq, Hash)]
pub enum ConfigForIP<T> {
    V4(T),
    V6(T),
    /// No value for either family.
    Unset,
}

/// The address family of a packet-filter table.
#[derive(Debug, Clone, Copy, PartialEq, Eq, Hash, Structural)]
pub enum NftFamily {
    Inet,
    Ip,
    Ip6,
    Arp,
    Bridge,
    Netdev,
}

/// The family as text.
pub open spec fn nft_family_text(f: NftFamily) -> Seq<u8> {
    match f {
        NftFamily::Inet => kw("inet"),
        NftFamily::Ip => kw("ip"),
        NftFamily::Ip6 => kw("ip6"),
        NftFamily::Arp => kw("arp"),
        NftFamily::Bridge => kw("bridge"),
        NftFamily::Netdev => kw("netdev"),
    }
}

/// The family that a text names.
pub open spec fn parse_nft_family_spec(s: Seq<u8>) -> Option<NftFamily> {
    if s == kw("inet") {
        Some(NftFamily::Inet)
    } else if s == kw("ip") {
        Some(NftFamily::Ip)
    } else if s == kw("ip6") {
        Some(NftFamily::Ip6)
    } else if s == kw("arp") {
        Some(NftFamily::Arp)
    } else if s == kw("bridge") {
        Some(NftFamily::Bridge)
    } else if s == kw("netdev") {
        Some(NftFamily::Netdev)
    } else {
        None
    }
}

/// Reading the text of a family gives the family back; the text is made of
/// small letters and digits.
pub proof fn lemma_nft_family_round_trip(f: NftFamily)
    ensures
        parse_nft_family_spec(nft_family_text(f)) == Some(f),
        is_nft_name(nft_family_text(f)),
{
    reveal_strlit("inet");
    lemma_kw("inet");
    reveal_strlit("ip");
    lemma_kw("ip");
    reveal_strlit("ip6");
    lemma_kw("ip6");
    reveal_strlit("arp");
    lemma_kw("arp");
    reveal_strlit("bridge");
    lemma_kw("bridge");
    reveal_strlit("netdev");
    lemma_kw("netdev");
    assert(kw("inet").len() == 4 && kw("inet")[0] == 105u8);
    assert(kw("ip").len() == 2 && kw("ip")[0] == 105u8);
    assert(kw("ip6").len() == 3 && kw("ip6")[0] == 105u8);
    assert(kw("arp").len() == 3 && kw("arp")[0] == 97u8);
    assert(kw("bridge").len() == 6 && kw("bridge")[0] == 98u8);
    assert(kw("netdev").len() == 6 && kw("netdev")[0] == 110u8);
}

impl NftFamily {
    /// The name of the family.
    pub fn name(&self) -> (out: &'static str)
        ensures
            kw(out) == nft_family_text(*self),
    {
        match self {
            NftFamily::Inet => "inet",
            NftFamily::Ip => "ip",
            NftFamily::Ip6 => "ip6",
            NftFamily::Arp => "arp",
            NftFamily::Bridge => "bridge",
            NftFamily::Netdev => "netdev",
        }
    }

    /// Reads a family.
    pub fn from_bytes(word: &[u8]) -> (r: Option<NftFamily>)
        ensures
            r == parse_nft_family_spec(word@),
    {
        if is_keyword(word, "inet") {
            Some(NftFamily::Inet)
        } else if is_keyword(word, "ip") {
            Some(NftFamily::Ip)
        } else if is_keyword(word, "ip6") {
            Some(NftFamily::Ip6)
        } else if is_keyword(word, "arp") {
            Some(NftFamily::Arp)
        } else if is_keyword(word, "bridge") {
            Some(NftFamily::Bridge)
        } else if is_keyword(word, "netdev") {
            Some(NftFamily::Netdev)
        } else {
            None
        }
    }
}

/// A set of a packet-filter table, into which resolved addresses are put.
#[derive(Debug, PartialEq, Eq, Hash)]
pub struct NFTsetConfig {
    pub family: NftFamily,
    pub table: Vec<u8>,
    pub name: Vec<u8>,
}

/// The mathematical content of an `NFTsetConfig`.
pub struct NftsetSpec {
    pub family: NftFamily,
    pub table: Seq<u8>,
    pub name: Seq<u8>,
}

impl View for NFTsetConfig {
    type V = NftsetSpec;

    open spec fn view(&self) -> NftsetSpec {
        NftsetSpec { family: self.family, table: self.table@, name: self.name@ }
    }
}

impl Clone for NFTsetConfig {
    fn clone(&self) -> (out: Self)
        ensures
            out@ == self@,
    {
        NFTsetConfig {
            family: self.family,
            table: vstd::slice::slice_to_vec(self.table.as_slice()),
            name: vstd::slice::slice_to_vec(self.name.as_slice()),
        }
    }
}

/// A byte of the name of a table or of a set: a letter, a digit, `_`, `-` or `.`.
pub open spec fn is_nft_name_byte(b: u8) -> bool {
    97 <= b <= 122 || 65 <= b <= 90 || 48 <= b <= 57 || b == 95 || b == MINUS || b == DOT
}

/// The name of a table or of a set: one byte or more of the kind above.
pub open spec fn is_nft_name(s: Seq<u8>) -> bool {
    &&& s.len() > 0
    &&& forall|i: int| 0 <= i < s.len() ==> is_nft_name_byte(#[trigger] s[i])
}

/// The views of the entries of a list of sets.
pub open spec fn nftsets_view(v: Seq<ConfigForIP<NFTsetConfig>>) -> Seq<ConfigForIP<NftsetSpec>> {
    Seq::new(v.len(), |i: int| nftset_view(v[i]))
}

/// The view of one entry of a list of sets.
pub open spec fn nftset_view(e: ConfigForIP<NFTsetConfig>) -> ConfigForIP<NftsetSpec> {
    match e {
        ConfigForIP::V4(c) => ConfigForIP::V4(c@),
        ConfigForIP::V6(c) => ConfigForIP::V6(c@),
        ConfigForIP::Unset => ConfigForIP::Unset,
    }
}

/// The names of the entry are names.
pub open spec fn nftset_canonical(e: ConfigForIP<NftsetSpec>) -> bool {
    match e {
        ConfigForIP::V4(c) => is_nft_name(c.table) && is_nft_name(c.name),
        ConfigForIP::V6(c) => is_nft_name(c.table) && is_nft_name(c.name),
        ConfigForIP::Unset => true,
    }
}

/// The family, the table and the set, joined by `#`.
pub open spec fn nftset_body(c: NftsetSpec) -> Seq<u8> {
    join_fields(seq![nft_family_text(c.family), c.table, c.name], HASH)
}

/// The entry as text: `#4:` or `#6:` and family, table and set joined by
/// `#`, or `-`.
pub open spec fn nftset_text(e: ConfigForIP<NftsetSpec>) -> Seq<u8> {
    match e {
        ConfigForIP::V4(c) => seq![HASH, 52u8, COLON] + nftset_body(c),
        ConfigForIP::V6(c) => seq![HASH, 54u8, COLON] + nftset_body(c),
        ConfigForIP::Unset => seq![MINUS],
    }
}

/// What the text behind `#4:` or `#6:` spells.
pub open spec fn parse_nftset_body_spec(s: Seq<u8>) -> Option<NftsetSpec> {
    let parts = fields(s, HASH);
    if parts.len() == 3 && is_nft_name(parts[1]) && is_nft_name(parts[2]) {
        match parse_nft_family_spec(parts[0]) {
            Some(family) => Some(NftsetSpec { family, table: parts[1], name: parts[2] }),
            None => None,
        }
    } else {
        None
    }
}

/// The entry that a text spells.
pub open spec fn parse_nftset_spec(s: Seq<u8>) -> Option<ConfigForIP<NftsetSpec>> {
    if s == seq![MINUS] {
        Some(ConfigForIP::Unset)
    } else if s.len() >= 3 && s[0] == HASH && s[2] == COLON && (s[1] == 52 || s[1] == 54) {
        match parse_nftset_body_spec(s.skip(3)) {
            Some(c) => if s[1] == 52 {
                Some(ConfigForIP::V4(c))
            } else {
                Some(ConfigForIP::V6(c))
            },
            None => None,
        }
    } else {
        None
    }
}

/// A byte of the text of an entry.
pub open spec fn is_nftset_byte(b: u8) -> bool {
    is_nft_name_byte(b) || b == HASH || b == COLON
}

/// Reading the text of an entry gives the entry back.
pub proof fn lemma_nftset_round_trip(e: ConfigForIP<NftsetSpec>)
    requires
        nftset_canonical(e),
    ensures
        parse_nftset_spec(nftset_text(e)) == Some(e),
        nftset_text(e).len() > 0,
        forall|i: int| 0 <= i < nftset_text(e).len() ==> is_nftset_byte(#[trigger] nftset_text(e)[i]),
{
    let t = nftset_text(e);
    match e {
        ConfigForIP::Unset => {},
        ConfigForIP::V4(c) => {
            lemma_nftset_body(c);
            assert(t.skip(3) =~= nftset_body(c));
            let b = nftset_body(c);
            assert forall|i: int| 0 <= i < t.len() implies is_nftset_byte(#[trigger] t[i]) by {
                if i >= 3 {
                    assert(t[i] == b[i - 3]);
                }
            }
            assert(t != seq![MINUS]) by {
                assert(t[0] == HASH);
            }
        },
        ConfigForIP::V6(c) => {
            lemma_nftset_body(c);
            assert(t.skip(3) =~= nftset_body(c));
            let b = nftset_body(c);
            assert forall|i: int| 0 <= i < t.len() implies is_nftset_byte(#[trigger] t[i]) by {
                if i >= 3 {
                    assert(t[i] == b[i - 3]);
                }
            }
            assert(t != seq![MINUS]) by {
                assert(t[0] == HASH);
            }
        },
    }
}

proof fn lemma_nftset_body(c: NftsetSpec)
    requires
        is_nft_name(c.table),
        is_nft_name(c.name),
    ensures
        parse_nftset_body_spec(nftset_body(c)) == Some(c),
        forall|i: int| 0 <= i < nftset_body(c).len() ==> is_nftset_byte(#[trigger] nftset_body(c)[i]),
{
    let f = nft_family_text(c.family);
    lemma_nft_family_round_trip(c.family);
    let parts = seq![f, c.table, c.name];
    assert forall|k: int| 0 <= k < parts.len() implies is_free_of(#[trigger] parts[k], HASH)
        && parts[k].len() > 0 by {
        assert(is_nft_name(parts[k]));
        assert forall|i: int| 0 <= i < parts[k].len() implies #[trigger] parts[k][i] != HASH by {
            assert(is_nft_name_byte(parts[k][i]));
        }
    }
    lemma_fields_of_join(parts, HASH);
    let b = nftset_body(c);
    assert forall|i: int| 0 <= i < b.len() implies is_nftset_byte(#[trigger] b[i]) by {
        lemma_join_bytes(parts, HASH, i);
        if b[i] != HASH {
            let (k, j) = choose|k: int, j: int|
                0 <= k < parts.len() && 0 <= j < parts[k].len() && #[trigger] parts[k][j] == b[i];
            assert(is_nft_name(parts[k]));
            assert(is_nft_name_byte(parts[k][j]));
        }
    }
}

/// Whether `s` is the name of a table or of a set.
pub fn check_nft_name(s: &[u8]) -> (r: bool)
    ensures
        r == is_nft_name(s@),
{
    if s.len() == 0 {
        return false;
    }
    let mut i: usize = 0;
    while i < s.len()
        invariant
            i <= s.len(),
            forall|k: int| 0 <= k < i ==> is_nft_name_byte(#[trigger] s@[k]),
        decreases s.len() - i,
    {
        let b = s[i];
        let ok = (97 <= b && b <= 122) || (65 <= b && b <= 90) || (48 <= b && b <= 57) || b == 95
            || b == MINUS || b == DOT;
        if !ok {
            assert(!is_nft_name_byte(s@[i as int]));
            return false;
        }
        i += 1;
    }
    true
}

/// Reads an entry of a list of sets.
pub fn parse_nftset(word: &[u8]) -> (r: Option<ConfigForIP<NFTsetConfig>>)
    ensures
        r.is_some() == parse_nftset_spec(word@).is_some(),
        r matches Some(e) ==> parse_nftset_spec(word@) == Some(nftset_view(e)),
{
    if word.len() == 1 && word[0] == MINUS {
        assert(word@ =~= seq![MINUS]);
        return Some(ConfigForIP::Unset);
    }
    assert(word@ != seq![MINUS]) by {
        if word@ == seq![MINUS] {
            assert(word@.len() == 1 && word@[0] == MINUS);
        }
    }
    if !(word.len() >= 3 && word[0] == HASH && word[2] == COLON && (word[1] == 52 || word[1]
        == 54)) {
        return None;
    }
    let body = vstd::slice::slice_subrange(word, 3, word.len());
    assert(body@ =~= word@.skip(3));
    let parts = split_fields(body, HASH);
    let ghost fs = fields(body@, HASH);
    if parts.len() != 3 {
        return None;
    }
    assert(rows(parts@)[0] == fs[0]);
    assert(rows(parts@)[1] == fs[1]);
    assert(rows(parts@)[2] == fs[2]);
    if !check_nft_name(parts[1].as_slice()) || !check_nft_name(parts[2].as_slice()) {
        return None;
    }
    let family = match NftFamily::from_bytes(parts[0].as_slice()) {
        Some(f) => f,
        None => {
            return None;
        },
    };
    let config = NFTsetConfig {
        family,
        table: vstd::slice::slice_to_vec(parts[1].as_slice()),
        name: vstd::slice::slice_to_vec(parts[2].as_slice()),
    };
    if word[1] == 52 {
        Some(ConfigForIP::V4(config))
    } else {
        Some(ConfigForIP::V6(config))
    }
}

/// Writes an entry of a list of sets.
pub fn format_nftset(e: &ConfigForIP<NFTsetConfig>) -> (out: Vec<u8>)
    ensures
        out@ == nftset_text(nftset_view(*e)),
{
    let mut out: Vec<u8> = Vec::new();
    let c = match e {
        ConfigForIP::Unset => {
            out.push(MINUS);
            assert(out@ =~= seq![MINUS]);
            return out;
        },
        ConfigForIP::V4(c) => {
            out.push(HASH);
            out.push(52);
            out.push(COLON);
            c
        },
        ConfigForIP::V6(c) => {
            out.push(HASH);
            out.push(54);
            out.push(COLON);
            c
        },
    };
    let ghost head = out@;
    let mut parts: Vec<Vec<u8>> = Vec::new();
    parts.push(keyword(c.family.name()));
    parts.push(vstd::slice::slice_to_vec(c.table.as_slice()));
    parts.push(vstd::slice::slice_to_vec(c.name.as_slice()));
    assert(rows(parts@) =~= seq![nft_family_text(c.family), c.table@, c.name@]);
    let body = join_with(&parts, HASH);
    push_bytes(&mut out, body.as_slice());
    assert(out@ =~= head + nftset_body(c@));
    out
}

/// The entries as text: one after another, joined by commas.
pub open spec fn nftsets_text(es: Seq<ConfigForIP<NftsetSpec>>) -> Seq<u8> {
    join_fields(Seq::new(es.len(), |i: int| nftset_text(es[i])), COMMA)
}

/// The entries that a word lists: one entry or more, joined by commas.
pub open spec fn parse_nftsets_spec(s: Seq<u8>) -> Option<Seq<ConfigForIP<NftsetSpec>>> {
    let parts = fields(s, COMMA);
    if forall|i: int| 0 <= i < parts.len() ==> parse_nftset_spec(#[trigger] parts[i]).is_some() {
        Some(Seq::new(parts.len(), |i: int| parse_nftset_spec(parts[i]).unwrap()))
    } else {
        None
    }
}

/// Every entry of the list is canonical, and there is at least one.
pub open spec fn nftsets_canonical(es: Seq<ConfigForIP<NftsetSpec>>) -> bool {
    &&& es.len() > 0
    &&& forall|i: int| 0 <= i < es.len() ==> nftset_canonical(#[trigger] es[i])
}

/// Reading the text of a list of sets gives the list back.
pub proof fn lemma_nftsets_round_trip(es: Seq<ConfigForIP<NftsetSpec>>)
    requires
        nftsets_canonical(es),
    ensures
        parse_nftsets_spec(nftsets_text(es)) == Some(es),
        is_word(nftsets_text(es)),
        forall|i: int|
            0 <= i < nftsets_text(es).len() ==> #[trigger] nftsets_text(es)[i] != SLASH,
{
    let parts = Seq::new(es.len(), |i: int| nftset_text(es[i]));
    let t = nftsets_text(es);
    assert forall|k: int| 0 <= k < parts.len() implies is_free_of(#[trigger] parts[k], COMMA)
        && parts[k].len() > 0 && parse_nftset_spec(parts[k]) == Some(es[k]) by {
        lemma_nftset_round_trip(es[k]);
        assert forall|i: int| 0 <= i < parts[k].len() implies #[trigger] parts[k][i] != COMMA by {
            assert(is_nftset_byte(parts[k][i]));
        }
    }
    lemma_fields_of_join(parts, COMMA);
    assert(Seq::new(parts.len(), |i: int| parse_nftset_spec(parts[i]).unwrap()) =~= es);
    lemma_join_not_empty(parts, COMMA);
    assert forall|i: int| 0 <= i < t.len() implies !is_space(#[trigger] t[i]) && !is_line_end(t[i])
        && t[i] != SLASH by {
        lemma_join_bytes(parts, COMMA, i);
        if t[i] != COMMA {
            let (k, j) = choose|k: int, j: int|
                0 <= k < parts.len() && 0 <= j < parts[k].len() && #[trigger] parts[k][j] == t[i];
            lemma_nftset_round_trip(es[k]);
            assert(is_nftset_byte(parts[k][j]));
        }
    }
}

/// Reads a list of sets.
pub fn parse_nftsets(word: &[u8]) -> (r: Option<Vec<ConfigForIP<NFTsetConfig>>>)
    ensures
        r.is_some() == parse_nftsets_spec(word@).is_some(),
        r matches Some(v) ==> parse_nftsets_spec(word@) == Some(nftsets_view(v@)),
{
    let parts = split_fields(word, COMMA);
    let ghost fs = fields(word@, COMMA);
    let mut out: Vec<ConfigForIP<NFTsetConfig>> = Vec::new();
    let mut i: usize = 0;
    while i < parts.len()
        invariant
            i <= parts.len(),
            rows(parts@) == fs,
            fs == fields(word@, COMMA),
            fs.len() == parts.len(),
            out@.len() == i,
            forall|k: int|
                0 <= k < i ==> parse_nftset_spec(#[trigger] fs[k]) == Some(nftset_view(out@[k])),
        decreases parts.len() - i,
    {
        assert(rows(parts@)[i as int] == fs[i as int]);
        match parse_nftset(parts[i].as_slice()) {
            Some(e) => {
                out.push(e);
            },
            None => {
                assert(parse_nftset_spec(fs[i as int]).is_none());
                return None;
            },
        }
        i += 1;
    }
    assert(nftsets_view(out@) =~= Seq::new(fs.len(), |i: int| parse_nftset_spec(fs[i]).unwrap()));
    Some(out)
}

/// Writes a list of sets.
pub fn format_nftsets(es: &Vec<ConfigForIP<NFTsetConfig>>) -> (out: Vec<u8>)
    ensures
        out@ == nftsets_text(nftsets_view(es@)),
{
    let mut texts: Vec<Vec<u8>> = Vec::new();
    let mut i: usize = 0;
    while i < es.len()
        invariant
            i <= es.len(),
            texts@.len() == i,
            forall|k: int| 0 <= k < i ==> texts@[k]@ == nftset_text(nftset_view(es@[k])),
        decreases es.len() - i,
    {
        texts.push(format_nftset(&es[i]));
        i += 1;
    }
    assert(rows(texts@) =~= Seq::new(
        nftsets_view(es@).len(),
        |i: int| nftset_text(nftsets_view(es@)[i]),
    ));
    join_with(&texts, COMMA)
}

} // verus!
