//! Internet addresses and address blocks as plain numbers, and their text.

use crate::text::{
    bytes_eq, check_set_name, kw, lemma_kw, digits, fields, has_prefix, is_digit, is_free_of,
    is_number, is_set_name, join_fields, keyword, lemma_fields_of_join, lemma_numeral_reads_back,
    number, numeral, parse_number, parse_number_spec, push_bytes, push_number, rows, split_fields,
    starts_with, COLON, DOT, SLASH,
};
use vstd::prelude::*;

verus! {

/// An IPv4 or IPv6 address; the number holds the address bytes in network
/// order, most significant first.
#[derive(Debug, Clone, Copy, PartialEq, Eq, Hash, Structural)]
pub enum IpAddr {
    V4(u32),
    V6(u128),
}

/// An address and a port.
#[derive(Debug, Clone, Copy, PartialEq, Eq, Hash, Structural)]
pub struct SocketAddr {
    pub ip: IpAddr,
    pub port: u16,
}

/// The IPv4 address with the given bytes, first byte first.
pub open spec fn v4_of(o: Seq<u8>) -> u32 {
    (((o[0] * 256 + o[1]) * 256 + o[2]) * 256 + o[3]) as u32
}

/// The four bytes of an IPv4 address, first byte first.
pub open spec fn v4_octets(v: u32) -> Seq<u8> {
    seq![(v / 256 / 256 / 256) as u8, (v / 256 / 256 % 256) as u8, (v / 256 % 256) as u8, (v
        % 256) as u8]
}

/// What a piece of a dotted address means: a decimal number up to 255,
/// written without needless zeros.
pub open spec fn octet_spec(part: Seq<u8>) -> Option<u8> {
    match parse_number_spec(part, 10, 255) {
        Some(v) => if digits(v as nat) == part {
            Some(v as u8)
        } else {
            None
        },
        None => None,
    }
}

/// The IPv4 address that a text spells: four numbers joined by dots.
pub open spec fn parse_v4_spec(s: Seq<u8>) -> Option<u32> {
    let parts = fields(s, DOT);
    if parts.len() == 4 && (forall|i: int| 0 <= i < 4 ==> octet_spec(#[trigger] parts[i]).is_some()) {
        Some(v4_of(Seq::new(4, |i: int| octet_spec(parts[i]).unwrap())))
    } else {
        None
    }
}

/// An IPv4 address as text: its four bytes in decimal, joined by dots.
pub open spec fn v4_text(v: u32) -> Seq<u8> {
    join_fields(Seq::new(4, |i: int| digits(v4_octets(v)[i] as nat)), DOT)
}

/// The IPv6 address with the given eight groups, first group first.
pub open spec fn v6_of(g: Seq<u16>) -> u128 {
    (((((((g[0] * 0x1_0000 + g[1]) * 0x1_0000 + g[2]) * 0x1_0000 + g[3]) * 0x1_0000 + g[4])
        * 0x1_0000 + g[5]) * 0x1_0000 + g[6]) * 0x1_0000 + g[7]) as u128
}

/// The eight groups of an IPv6 address, first group first.
pub open spec fn v6_groups(v: u128) -> Seq<u16> {
    seq![
        (v / 0x1_0000 / 0x1_0000 / 0x1_0000 / 0x1_0000 / 0x1_0000 / 0x1_0000 / 0x1_0000) as u16,
        (v / 0x1_0000 / 0x1_0000 / 0x1_0000 / 0x1_0000 / 0x1_0000 / 0x1_0000 % 0x1_0000) as u16,
        (v / 0x1_0000 / 0x1_0000 / 0x1_0000 / 0x1_0000 / 0x1_0000 % 0x1_0000) as u16,
        (v / 0x1_0000 / 0x1_0000 / 0x1_0000 / 0x1_0000 % 0x1_0000) as u16,
        (v / 0x1_0000 / 0x1_0000 / 0x1_0000 % 0x1_0000) as u16,
        (v / 0x1_0000 / 0x1_0000 % 0x1_0000) as u16,
        (v / 0x1_0000 % 0x1_0000) as u16,
        (v % 0x1_0000) as u16,
    ]
}

/// The groups of an address make up the address.
pub proof fn lemma_v6_of_groups(v: u128)
    ensures
        v6_of(v6_groups(v)) == v,
{
    let r1 = v / 0x1_0000;
    let r2 = r1 / 0x1_0000;
    let r3 = r2 / 0x1_0000;
    let r4 = r3 / 0x1_0000;
    let r5 = r4 / 0x1_0000;
    let r6 = r5 / 0x1_0000;
    let r7 = r6 / 0x1_0000;
    assert(v == r1 * 0x1_0000 + v % 0x1_0000);
    assert(r1 == r2 * 0x1_0000 + r1 % 0x1_0000);
    assert(r2 == r3 * 0x1_0000 + r2 % 0x1_0000);
    assert(r3 == r4 * 0x1_0000 + r3 % 0x1_0000);
    assert(r4 == r5 * 0x1_0000 + r4 % 0x1_0000);
    assert(r5 == r6 * 0x1_0000 + r5 % 0x1_0000);
    assert(r6 == r7 * 0x1_0000 + r6 % 0x1_0000);
    assert(r1 < 0x1_0000_0000_0000_0000_0000_0000_0000);
    assert(r2 < 0x1_0000_0000_0000_0000_0000_0000);
    assert(r3 < 0x1_0000_0000_0000_0000_0000);
    assert(r4 < 0x1_0000_0000_0000_0000);
    assert(r5 < 0x1_0000_0000_0000);
    assert(r6 < 0x1_0000_0000);
    assert(r7 < 0x1_0000);
}

/// What a piece of an IPv6 address means: one to four hexadecimal digits.
pub open spec fn group_spec(part: Seq<u8>) -> Option<u16> {
    if part.len() <= 4 {
        match parse_number_spec(part, 16, 0xffff) {
            Some(v) => Some(v as u16),
            None => None,
        }
    } else {
        None
    }
}

/// Whether every piece is a group.
pub open spec fn are_groups(parts: Seq<Seq<u8>>) -> bool {
    forall|i: int| 0 <= i < parts.len() ==> group_spec(#[trigger] parts[i]).is_some()
}

/// The groups that the pieces spell.
pub open spec fn groups_of(parts: Seq<Seq<u8>>) -> Seq<u16> {
    Seq::new(parts.len(), |i: int| group_spec(parts[i]).unwrap())
}

/// The pieces of a colon-separated list; the empty text is the empty list.
pub open spec fn colon_list(s: Seq<u8>) -> Seq<Seq<u8>> {
    if s.len() == 0 {
        Seq::empty()
    } else {
        fields(s, COLON)
    }
}

/// Index of the first `::` at or after `from`.
pub open spec fn first_gap(s: Seq<u8>, from: int) -> Option<int>
    decreases s.len() - from,
{
    if from < 0 || from + 1 >= s.len() {
        None
    } else if s[from] == COLON && s[from + 1] == COLON {
        Some(from)
    } else {
        first_gap(s, from + 1)
    }
}

/// The IPv6 address that a text spells: eight groups joined by colons,
/// where one `::` may stand for one or more groups of zero.
pub open spec fn parse_v6_spec(s: Seq<u8>) -> Option<u128> {
    let parts = fields(s, COLON);
    if forall|i: int| 0 <= i < parts.len() ==> (#[trigger] parts[i]).len() > 0 {
        if parts.len() == 8 && are_groups(parts) {
            Some(v6_of(groups_of(parts)))
        } else {
            None
        }
    } else {
        match first_gap(s, 0) {
            Some(k) => {
                let head = colon_list(s.take(k));
                let tail = colon_list(s.skip(k + 2));
                if are_groups(head) && are_groups(tail) && head.len() + tail.len() <= 7 {
                    Some(
                        v6_of(
                            groups_of(head) + Seq::new(
                                (8 - head.len() - tail.len()) as nat,
                                |i: int| 0u16,
                            ) + groups_of(tail),
                        ),
                    )
                } else {
                    None
                }
            },
            None => None,
        }
    }
}

/// An IPv6 address as text: its eight groups in hexadecimal, joined by colons.
pub open spec fn v6_text(v: u128) -> Seq<u8> {
    join_fields(Seq::new(8, |i: int| numeral(v6_groups(v)[i] as nat, 16)), COLON)
}

/// The address that a text spells, of either family.
pub open spec fn parse_ip_spec(s: Seq<u8>) -> Option<IpAddr> {
    match parse_v4_spec(s) {
        Some(v) => Some(IpAddr::V4(v)),
        None => match parse_v6_spec(s) {
            Some(v) => Some(IpAddr::V6(v)),
            None => None,
        },
    }
}

/// An address as text.
pub open spec fn ip_text(ip: IpAddr) -> Seq<u8> {
    match ip {
        IpAddr::V4(v) => v4_text(v),
        IpAddr::V6(v) => v6_text(v),
    }
}

/// A byte that can stand in the text of an address: a digit, a letter from
/// `a` to `f`, `.` or `:`.
pub open spec fn is_ip_byte(b: u8) -> bool {
    is_digit(b) || 97 <= b <= 102 || b == DOT || b == COLON
}

/// The text of a list of numerals joined by `sep` holds digits, the letters
/// `a` to `f` and `sep` only, and is not empty.
pub proof fn lemma_numerals_text(values: Seq<nat>, base: nat, sep: u8)
    requires
        2 <= base <= 16,
        values.len() > 0,
    ensures
        ({
            let t = join_fields(Seq::new(values.len(), |i: int| numeral(values[i], base)), sep);
            &&& t.len() > 0
            &&& forall|i: int| 0 <= i < t.len() ==> is_digit(#[trigger] t[i]) || 97 <= t[i] <= 102
                || t[i] == sep
        }),
    decreases values.len(),
{
    let parts = Seq::new(values.len(), |i: int| numeral(values[i], base));
    let t = join_fields(parts, sep);
    lemma_numeral_reads_back(values[0], base);
    if values.len() == 1 {
    } else {
        let rest = values.skip(1);
        lemma_numerals_text(rest, base, sep);
        let rest_parts = Seq::new(rest.len(), |i: int| numeral(rest[i], base));
        assert(parts.skip(1) =~= rest_parts);
        let tail = join_fields(rest_parts, sep);
        assert(t == parts[0] + seq![sep] + tail);
        assert forall|i: int| 0 <= i < t.len() implies is_digit(#[trigger] t[i]) || 97 <= t[i]
            <= 102 || t[i] == sep by {
            if i < parts[0].len() {
                assert(t[i] == parts[0][i]);
            } else if i > parts[0].len() {
                assert(t[i] == tail[i - parts[0].len() - 1]);
            }
        }
    }
}

/// Reading the text of an IPv4 address gives the address back.
pub proof fn lemma_v4_round_trip(v: u32)
    ensures
        parse_v4_spec(v4_text(v)) == Some(v),
        v4_text(v).len() > 0,
        forall|i: int| 0 <= i < v4_text(v).len() ==> is_ip_byte(#[trigger] v4_text(v)[i]),
{
    let o = v4_octets(v);
    let parts = Seq::new(4, |i: int| digits(o[i] as nat));
    assert forall|k: int| 0 <= k < parts.len() implies is_free_of(#[trigger] parts[k], DOT) by {
        lemma_numeral_reads_back(o[k] as nat, 10);
    }
    lemma_fields_of_join(parts, DOT);
    assert forall|i: int| 0 <= i < 4 implies octet_spec(#[trigger] parts[i]) == Some(o[i]) by {
        lemma_numeral_reads_back(o[i] as nat, 10);
    }
    assert(Seq::new(4, |i: int| octet_spec(parts[i]).unwrap()) =~= o);
    let values = Seq::new(4, |i: int| o[i] as nat);
    lemma_numerals_text(values, 10, DOT);
    assert(Seq::new(values.len(), |i: int| numeral(values[i], 10)) =~= parts);
}

/// Reading the text of an IPv6 address gives the address back.
pub proof fn lemma_v6_round_trip(v: u128)
    ensures
        parse_v6_spec(v6_text(v)) == Some(v),
        v6_text(v).len() > 0,
        forall|i: int| 0 <= i < v6_text(v).len() ==> is_ip_byte(#[trigger] v6_text(v)[i]),
{
    let g = v6_groups(v);
    let parts = Seq::new(8, |i: int| numeral(g[i] as nat, 16));
    assert forall|k: int| 0 <= k < parts.len() implies is_free_of(#[trigger] parts[k], COLON)
        && parts[k].len() > 0 by {
        lemma_numeral_reads_back(g[k] as nat, 16);
    }
    lemma_fields_of_join(parts, COLON);
    assert forall|i: int| 0 <= i < 8 implies group_spec(#[trigger] parts[i]) == Some(g[i]) by {
        lemma_numeral_reads_back(g[i] as nat, 16);
        lemma_short_numeral(g[i]);
    }
    assert(groups_of(parts) =~= g);
    lemma_v6_of_groups(v);
    let values = Seq::new(8, |i: int| g[i] as nat);
    lemma_numerals_text(values, 16, COLON);
    assert(Seq::new(values.len(), |i: int| numeral(values[i], 16)) =~= parts);
}

/// A group is written with at most four hexadecimal digits.
pub proof fn lemma_short_numeral(g: u16)
    ensures
        numeral(g as nat, 16).len() <= 4,
{
    let n = g as nat;
    reveal_with_fuel(numeral, 5);
    assert(n / 16 / 16 / 16 < 16);
}

/// Reading the text of an address gives the address back.
pub proof fn lemma_ip_round_trip(ip: IpAddr)
    ensures
        parse_ip_spec(ip_text(ip)) == Some(ip),
        ip_text(ip).len() > 0,
        forall|i: int| 0 <= i < ip_text(ip).len() ==> is_ip_byte(#[trigger] ip_text(ip)[i]),
{
    match ip {
        IpAddr::V4(v) => {
            lemma_v4_round_trip(v);
        },
        IpAddr::V6(v) => {
            lemma_v6_round_trip(v);
            let t = v6_text(v);
            // a text with a colon in it spells no IPv4 address
            let g = v6_groups(v);
            let parts = Seq::new(8, |i: int| numeral(g[i] as nat, 16));
            assert(parts.skip(1).len() == 7);
            assert(t == parts[0] + seq![COLON] + join_fields(parts.skip(1), COLON));
            assert(t[parts[0].len() as int] == COLON);
            lemma_colon_is_not_v4(t, parts[0].len() as int);
        },
    }
}

/// A text with a colon in it spells no IPv4 address.
pub proof fn lemma_colon_is_not_v4(s: Seq<u8>, at: int)
    requires
        0 <= at < s.len(),
        s[at] == COLON,
    ensures
        parse_v4_spec(s).is_none(),
{
    let parts = fields(s, DOT);
    if parse_v4_spec(s).is_some() {
        crate::text::lemma_fields_cover(s, DOT, at);
        let (pk, pj) = choose|k: int, j: int|
            0 <= k < parts.len() && 0 <= j < parts[k].len() && #[trigger] parts[k][j] == s[at];
        assert(octet_spec(parts[pk]).is_some());
        assert(is_number(parts[pk], 10));
        assert(crate::text::digit_value(parts[pk][pj], 10).is_some());
    }
}

impl IpAddr {
    /// Whether this is an IPv4 address.
    pub fn is_ipv4(&self) -> (r: bool)
        ensures
            r == (*self is V4),
    {
        match self {
            IpAddr::V4(_) => true,
            IpAddr::V6(_) => false,
        }
    }

    /// Whether this is an IPv6 address.
    pub fn is_ipv6(&self) -> (r: bool)
        ensures
            r == (*self is V6),
    {
        match self {
            IpAddr::V4(_) => false,
            IpAddr::V6(_) => true,
        }
    }

    /// Reads an address of either family.
    pub fn from_bytes(text: &[u8]) -> (out: Option<IpAddr>)
        ensures
            out == parse_ip_spec(text@),
    {
        match parse_v4(text) {
            Some(v) => Some(IpAddr::V4(v)),
            None => match parse_v6(text) {
                Some(v) => Some(IpAddr::V6(v)),
                None => None,
            },
        }
    }

    /// The address as text.
    pub fn to_bytes(&self) -> (out: Vec<u8>)
        ensures
            out@ == ip_text(*self),
    {
        let mut out: Vec<u8> = Vec::new();
        match self {
            IpAddr::V4(v) => {
                let v = *v;
                let o0 = (v / 256 / 256 / 256) as u8;
                let o1 = (v / 256 / 256 % 256) as u8;
                let o2 = (v / 256 % 256) as u8;
                let o3 = (v % 256) as u8;
                let ghost parts = Seq::new(4, |i: int| digits(v4_octets(v)[i] as nat));
                push_number(o0 as u64, 10, &mut out);
                out.push(DOT);
                push_number(o1 as u64, 10, &mut out);
                out.push(DOT);
                push_number(o2 as u64, 10, &mut out);
                out.push(DOT);
                push_number(o3 as u64, 10, &mut out);
                proof {
                    lemma_join_four(parts, DOT);
                }
            },
            IpAddr::V6(v) => {
                let v = *v;
                let ghost parts = Seq::new(8, |i: int| numeral(v6_groups(v)[i] as nat, 16));
                let r1 = v / 0x1_0000;
                let r2 = r1 / 0x1_0000;
                let r3 = r2 / 0x1_0000;
                let r4 = r3 / 0x1_0000;
                let r5 = r4 / 0x1_0000;
                let r6 = r5 / 0x1_0000;
                let r7 = r6 / 0x1_0000;
                push_number(r7 as u64, 16, &mut out);
                out.push(COLON);
                push_number((r6 % 0x1_0000) as u64, 16, &mut out);
                out.push(COLON);
                push_number((r5 % 0x1_0000) as u64, 16, &mut out);
                out.push(COLON);
                push_number((r4 % 0x1_0000) as u64, 16, &mut out);
                out.push(COLON);
                push_number((r3 % 0x1_0000) as u64, 16, &mut out);
                out.push(COLON);
                push_number((r2 % 0x1_0000) as u64, 16, &mut out);
                out.push(COLON);
                push_number((r1 % 0x1_0000) as u64, 16, &mut out);
                out.push(COLON);
                push_number((v % 0x1_0000) as u64, 16, &mut out);
                proof {
                    lemma_join_four(parts.skip(4), COLON);
                    assert(parts.skip(4)[0] == parts[4]);
                    assert(parts.skip(4)[1] == parts[5]);
                    assert(parts.skip(4)[2] == parts[6]);
                    assert(parts.skip(4)[3] == parts[7]);
                    assert(parts.skip(3).skip(1) =~= parts.skip(4));
                    assert(parts.skip(2).skip(1) =~= parts.skip(3));
                    assert(parts.skip(1).skip(1) =~= parts.skip(2));
                    assert(join_fields(parts.skip(3), COLON) == parts[3] + seq![COLON]
                        + join_fields(parts.skip(4), COLON));
                    assert(join_fields(parts.skip(2), COLON) == parts[2] + seq![COLON]
                        + join_fields(parts.skip(3), COLON));
                    assert(join_fields(parts.skip(1), COLON) == parts[1] + seq![COLON]
                        + join_fields(parts.skip(2), COLON));
                    assert(join_fields(parts, COLON) == parts[0] + seq![COLON] + join_fields(
                        parts.skip(1),
                        COLON,
                    ));
                    assert(out@ =~= join_fields(parts, COLON));
                }
            },
        }
        out
    }
}

/// Four pieces joined are the pieces with three separators between them.
pub proof fn lemma_join_four(parts: Seq<Seq<u8>>, sep: u8)
    requires
        parts.len() == 4,
    ensures
        join_fields(parts, sep) =~= parts[0] + seq![sep] + parts[1] + seq![sep] + parts[2] + seq![
            sep,
        ] + parts[3],
{
    let three = parts.skip(1);
    let two = three.skip(1);
    let one = two.skip(1);
    assert(one.len() == 1);
    assert(join_fields(one, sep) == one[0]);
    assert(join_fields(two, sep) == two[0] + seq![sep] + join_fields(one, sep));
    assert(join_fields(three, sep) == three[0] + seq![sep] + join_fields(two, sep));
    assert(join_fields(parts, sep) == parts[0] + seq![sep] + join_fields(three, sep));
}

/// Reads one piece of a dotted address.
fn parse_octet(part: &[u8]) -> (r: Option<u8>)
    ensures
        r == octet_spec(part@),
{
    match parse_number(part, 10, 255) {
        Some(v) => {
            let mut text: Vec<u8> = Vec::new();
            push_number(v, 10, &mut text);
            if bytes_eq(text.as_slice(), part) {
                Some(v as u8)
            } else {
                None
            }
        },
        None => None,
    }
}

/// Reads an IPv4 address.
pub fn parse_v4(text: &[u8]) -> (r: Option<u32>)
    ensures
        r == parse_v4_spec(text@),
{
    let parts = split_fields(text, DOT);
    if parts.len() != 4 {
        return None;
    }
    let ghost fs = fields(text@, DOT);
    assert(forall|i: int| 0 <= i < 4 ==> parts@[i]@ == #[trigger] fs[i]) by {
        assert forall|i: int| 0 <= i < 4 implies parts@[i]@ == #[trigger] fs[i] by {
            assert(rows(parts@)[i] == fs[i]);
        }
    }
    let a = match parse_octet(parts[0].as_slice()) {
        Some(v) => v,
        None => {
            assert(octet_spec(fs[0]).is_none());
            return None;
        },
    };
    let b = match parse_octet(parts[1].as_slice()) {
        Some(v) => v,
        None => {
            assert(octet_spec(fs[1]).is_none());
            return None;
        },
    };
    let c = match parse_octet(parts[2].as_slice()) {
        Some(v) => v,
        None => {
            assert(octet_spec(fs[2]).is_none());
            return None;
        },
    };
    let d = match parse_octet(parts[3].as_slice()) {
        Some(v) => v,
        None => {
            assert(octet_spec(fs[3]).is_none());
            return None;
        },
    };
    assert(Seq::new(4, |i: int| octet_spec(fs[i]).unwrap()) =~= seq![a, b, c, d]);
    Some((((a as u32) * 256 + b as u32) * 256 + c as u32) * 256 + d as u32)
}

/// Reads the groups of a colon-separated list.
fn parse_groups(parts: &Vec<Vec<u8>>) -> (r: Option<Vec<u16>>)
    ensures
        r.is_some() == are_groups(rows(parts@)),
        r matches Some(g) ==> g@ == groups_of(rows(parts@)),
{
    let mut out: Vec<u16> = Vec::new();
    let mut i: usize = 0;
    let ghost all = rows(parts@);
    while i < parts.len()
        invariant
            i <= parts.len(),
            all == rows(parts@),
            out@.len() == i,
            forall|k: int| 0 <= k < i ==> group_spec(#[trigger] all[k]) == Some(out@[k]),
        decreases parts.len() - i,
    {
        let part = parts[i].as_slice();
        assert(part@ == all[i as int]);
        if part.len() > 4 {
            return None;
        }
        match parse_number(part, 16, 0xffff) {
            Some(v) => {
                out.push(v as u16);
            },
            None => {
                return None;
            },
        }
        i += 1;
    }
    assert(out@ =~= groups_of(all));
    Some(out)
}

/// Splits a colon-separated list; the empty text is the empty list.
fn split_colon_list(s: &[u8]) -> (out: Vec<Vec<u8>>)
    ensures
        rows(out@) == colon_list(s@),
{
    if s.len() == 0 {
        let out: Vec<Vec<u8>> = Vec::new();
        assert(rows(out@) =~= Seq::<Seq<u8>>::empty());
        out
    } else {
        split_fields(s, COLON)
    }
}

/// The address with the given eight groups.
fn compose_v6(g: &Vec<u16>) -> (v: u128)
    requires
        g@.len() == 8,
    ensures
        v == v6_of(g@),
{
    let a = (g[0] as u128) * 0x1_0000 + g[1] as u128;
    let b = a * 0x1_0000 + g[2] as u128;
    let c = b * 0x1_0000 + g[3] as u128;
    let d = c * 0x1_0000 + g[4] as u128;
    let e = d * 0x1_0000 + g[5] as u128;
    let f = e * 0x1_0000 + g[6] as u128;
    f * 0x1_0000 + g[7] as u128
}

/// Reads an IPv6 address.
pub fn parse_v6(text: &[u8]) -> (r: Option<u128>)
    ensures
        r == parse_v6_spec(text@),
{
    let parts = split_fields(text, COLON);
    let ghost fs = fields(text@, COLON);
    let mut whole = true;
    let mut i: usize = 0;
    while i < parts.len()
        invariant
            i <= parts.len(),
            rows(parts@) == fs,
            whole == (forall|k: int| 0 <= k < i ==> (#[trigger] fs[k]).len() > 0),
        decreases parts.len() - i,
    {
        assert(rows(parts@)[i as int] == fs[i as int]);
        if parts[i].len() == 0 {
            whole = false;
        }
        i += 1;
    }
    if whole {
        if parts.len() != 8 {
            return None;
        }
        return match parse_groups(&parts) {
            Some(g) => Some(compose_v6(&g)),
            None => None,
        };
    }
    if text.len() < 2 {
        return None;
    }
    let last = text.len() - 1;
    let mut k: usize = 0;
    while k < last && !(text[k] == COLON && text[k + 1] == COLON)
        invariant
            k <= last,
            last == text.len() - 1,
            first_gap(text@, 0) == first_gap(text@, k as int),
        decreases last - k,
    {
        k += 1;
    }
    if k >= last {
        return None;
    }
    assert(first_gap(text@, 0) == Some(k as int));
    let head_text = vstd::slice::slice_subrange(text, 0, k);
    let tail_text = vstd::slice::slice_subrange(text, k + 2, text.len());
    assert(head_text@ =~= text@.take(k as int));
    assert(tail_text@ =~= text@.skip(k + 2));
    let head = match parse_groups(&split_colon_list(head_text)) {
        Some(g) => g,
        None => {
            return None;
        },
    };
    let tail = match parse_groups(&split_colon_list(tail_text)) {
        Some(g) => g,
        None => {
            return None;
        },
    };
    if head.len() > 7 || tail.len() > 7 - head.len() {
        return None;
    }
    let mut groups: Vec<u16> = Vec::new();
    let mut j: usize = 0;
    while j < head.len()
        invariant
            j <= head.len(),
            groups@ == head@.take(j as int),
        decreases head.len() - j,
    {
        groups.push(head[j]);
        assert(head@.take(j + 1) =~= head@.take(j as int).push(head@[j as int]));
        j += 1;
    }
    assert(head@.take(j as int) =~= head@);
    let gap = 8 - head.len() - tail.len();
    let ghost zeros = Seq::new(gap as nat, |i: int| 0u16);
    let mut z: usize = 0;
    while z < gap
        invariant
            z <= gap,
            gap == zeros.len(),
            forall|i: int| 0 <= i < gap ==> zeros[i] == 0u16,
            groups@ == head@ + zeros.take(z as int),
        decreases gap - z,
    {
        groups.push(0);
        assert(zeros[z as int] == 0u16);
        assert(zeros.take(z + 1) =~= zeros.take(z as int).push(0u16));
        z += 1;
    }
    assert(zeros.take(z as int) =~= zeros);
    let mut t: usize = 0;
    while t < tail.len()
        invariant
            t <= tail.len(),
            groups@ == head@ + zeros + tail@.take(t as int),
        decreases tail.len() - t,
    {
        groups.push(tail[t]);
        assert(tail@.take(t + 1) =~= tail@.take(t as int).push(tail@[t as int]));
        t += 1;
    }
    assert(tail@.take(t as int) =~= tail@);
    Some(compose_v6(&groups))
}

/// A block of addresses: those that share the first `prefix` bits of `addr`.
#[derive(Debug, Clone, Copy, PartialEq, Eq, Hash, Structural)]
pub struct IpNet {
    pub addr: IpAddr,
    pub prefix: u8,
}

/// Number of bits of an address of the family of `ip`.
pub open spec fn family_bits(ip: IpAddr) -> u8 {
    match ip {
        IpAddr::V4(_) => 32,
        IpAddr::V6(_) => 128,
    }
}

/// The block as text: its address, `/` and the length of the prefix.
pub open spec fn net_text(n: IpNet) -> Seq<u8> {
    ip_text(n.addr) + seq![SLASH] + digits(n.prefix as nat)
}

/// The block that a text spells: an address alone is the block of that one
/// address; otherwise an address, `/` and a prefix length that the family allows.
pub open spec fn parse_net_spec(s: Seq<u8>) -> Option<IpNet> {
    let parts = fields(s, SLASH);
    if parts.len() == 1 {
        match parse_ip_spec(s) {
            Some(ip) => Some(IpNet { addr: ip, prefix: family_bits(ip) }),
            None => None,
        }
    } else if parts.len() == 2 {
        match (parse_ip_spec(parts[0]), parse_number_spec(parts[1], 10, 128)) {
            (Some(ip), Some(p)) => if p <= family_bits(ip) {
                Some(IpNet { addr: ip, prefix: p as u8 })
            } else {
                None
            },
            _ => None,
        }
    } else {
        None
    }
}

/// Reading the text of a block gives the block back; the text is a word
/// without `#`.
pub proof fn lemma_net_round_trip(n: IpNet)
    requires
        n.well_formed(),
    ensures
        parse_net_spec(net_text(n)) == Some(n),
        net_text(n).len() > 0,
        forall|i: int|
            0 <= i < net_text(n).len() ==> is_ip_byte(#[trigger] net_text(n)[i]) || net_text(n)[i]
                == SLASH,
{
    let a = ip_text(n.addr);
    let d = digits(n.prefix as nat);
    let t = net_text(n);
    lemma_ip_round_trip(n.addr);
    lemma_numeral_reads_back(n.prefix as nat, 10);
    let parts = seq![a, d];
    assert(is_free_of(a, SLASH)) by {
        assert forall|i: int| 0 <= i < a.len() implies #[trigger] a[i] != SLASH by {
            assert(is_ip_byte(a[i]));
        }
    }
    assert(is_free_of(d, SLASH));
    assert(parts.skip(1) =~= seq![d]);
    assert(join_fields(parts.skip(1), SLASH) == d);
    assert(join_fields(parts, SLASH) == t);
    assert forall|k: int| 0 <= k < parts.len() implies is_free_of(#[trigger] parts[k], SLASH) by {}
    lemma_fields_of_join(parts, SLASH);
    assert forall|i: int| 0 <= i < t.len() implies is_ip_byte(#[trigger] t[i]) || t[i]
        == SLASH by {
        if i < a.len() {
            assert(t[i] == a[i]);
        } else if i > a.len() {
            assert(t[i] == d[i - a.len() - 1]);
        }
    }
}

impl IpNet {
    /// The prefix is no longer than an address of the family.
    pub open spec fn well_formed(&self) -> bool {
        self.prefix <= family_bits(self.addr)
    }

    /// Whether `ip` lies in the block: it is of the same family and its first
    /// `prefix` bits are those of the block's address.
    pub open spec fn spec_contains(&self, ip: IpAddr) -> bool {
        match (self.addr, ip) {
            (IpAddr::V4(n), IpAddr::V4(a)) => self.prefix == 0 || (self.prefix <= 32 && n >> (
            32 - self.prefix) as u32 == a >> (32 - self.prefix) as u32),
            (IpAddr::V6(n), IpAddr::V6(a)) => self.prefix == 0 || (self.prefix <= 128 && n >> (
            128 - self.prefix) as u128 == a >> (128 - self.prefix) as u128),
            _ => false,
        }
    }

    /// The block that holds `addr` alone.
    pub fn host(addr: IpAddr) -> (out: IpNet)
        ensures
            out.addr == addr,
            out.prefix == family_bits(addr),
            out.well_formed(),
    {
        match addr {
            IpAddr::V4(_) => IpNet { addr, prefix: 32 },
            IpAddr::V6(_) => IpNet { addr, prefix: 128 },
        }
    }

    /// Whether `ip` lies in the block.
    #[verifier::when_used_as_spec(spec_contains)]
    pub fn contains(&self, ip: IpAddr) -> (r: bool)
        ensures
            r == self.spec_contains(ip),
    {
        match (self.addr, ip) {
            (IpAddr::V4(n), IpAddr::V4(a)) => {
                if self.prefix == 0 {
                    true
                } else if self.prefix > 32 {
                    false
                } else {
                    let h: u32 = (32 - self.prefix) as u32;
                    n >> h == a >> h
                }
            },
            (IpAddr::V6(n), IpAddr::V6(a)) => {
                if self.prefix == 0 {
                    true
                } else if self.prefix > 128 {
                    false
                } else {
                    let h: u128 = (128 - self.prefix) as u128;
                    n >> h == a >> h
                }
            },
            _ => false,
        }
    }

    /// Reads a block.
    pub fn from_bytes(text: &[u8]) -> (out: Option<IpNet>)
        ensures
            out == parse_net_spec(text@),
            out matches Some(n) ==> n.well_formed(),
    {
        let parts = split_fields(text, SLASH);
        let ghost fs = fields(text@, SLASH);
        if parts.len() == 1 {
            match IpAddr::from_bytes(text) {
                Some(ip) => Some(IpNet::host(ip)),
                None => None,
            }
        } else if parts.len() == 2 {
            assert(rows(parts@)[0] == fs[0]);
            assert(rows(parts@)[1] == fs[1]);
            match (
                IpAddr::from_bytes(parts[0].as_slice()),
                parse_number(parts[1].as_slice(), 10, 128),
            ) {
                (Some(ip), Some(p)) => {
                    let bits: u64 = if ip.is_ipv4() {
                        32
                    } else {
                        128
                    };
                    if p <= bits {
                        Some(IpNet { addr: ip, prefix: p as u8 })
                    } else {
                        None
                    }
                },
                _ => None,
            }
        } else {
            None
        }
    }

    /// The block as text.
    pub fn to_bytes(&self) -> (out: Vec<u8>)
        ensures
            out@ == net_text(*self),
    {
        let mut out = self.addr.to_bytes();
        out.push(SLASH);
        push_number(self.prefix as u64, 10, &mut out);
        out
    }
}

/// A block of addresses, or a named set of blocks.
#[derive(Debug, PartialEq, Eq, Hash)]
pub enum IpOrSet {
    Net(IpNet),
    /// A set of blocks, by its name.
    IpSet(Vec<u8>),
}

/// The mathematical content of an `IpOrSet`.
pub enum IpOrSetSpec {
    Net(IpNet),
    IpSet(Seq<u8>),
}

impl View for IpOrSet {
    type V = IpOrSetSpec;

    open spec fn view(&self) -> IpOrSetSpec {
        match self {
            IpOrSet::Net(n) => IpOrSetSpec::Net(*n),
            IpOrSet::IpSet(n) => IpOrSetSpec::IpSet(n@),
        }
    }
}

impl Clone for IpOrSet {
    fn clone(&self) -> (out: Self)
        ensures
            out@ == self@,
    {
        match self {
            IpOrSet::Net(n) => IpOrSet::Net(*n),
            IpOrSet::IpSet(n) => IpOrSet::IpSet(vstd::slice::slice_to_vec(n.as_slice())),
        }
    }
}

/// What stands before the name of a set of blocks: `ip-set:`.
pub open spec fn ip_set_prefix() -> Seq<u8> {
    kw("ip-set:")
}

impl IpOrSetSpec {
    /// The value is in the one form that its text reads back to.
    pub open spec fn canonical(self) -> bool {
        match self {
            IpOrSetSpec::Net(n) => n.well_formed(),
            IpOrSetSpec::IpSet(n) => is_set_name(n),
        }
    }

    /// The value as text: a block, or `ip-set:` and the set's name.
    pub open spec fn text(self) -> Seq<u8> {
        match self {
            IpOrSetSpec::Net(n) => net_text(n),
            IpOrSetSpec::IpSet(n) => ip_set_prefix() + n,
        }
    }
}

/// The block or set that a text spells.
pub open spec fn parse_ip_or_set_spec(s: Seq<u8>) -> Option<IpOrSetSpec> {
    if starts_with(s, ip_set_prefix()) {
        let n = s.skip(ip_set_prefix().len() as int);
        if is_set_name(n) {
            Some(IpOrSetSpec::IpSet(n))
        } else {
            None
        }
    } else {
        match parse_net_spec(s) {
            Some(n) => Some(IpOrSetSpec::Net(n)),
            None => None,
        }
    }
}

/// Reading the text of a block or set gives it back.
pub proof fn lemma_ip_or_set_round_trip(v: IpOrSetSpec)
    requires
        v.canonical(),
    ensures
        parse_ip_or_set_spec(v.text()) == Some(v),
{
    reveal_strlit("ip-set:");
    lemma_kw("ip-set:");
    let s = v.text();
    let pre = ip_set_prefix();
    assert(pre.len() == 7);
    assert(pre[0] == 105u8);
    match v {
        IpOrSetSpec::Net(n) => {
            lemma_net_round_trip(n);
            if starts_with(s, pre) {
                assert(s.take(7)[0] == s[0]);
                assert(is_ip_byte(s[0]) || s[0] == SLASH);
            }
        },
        IpOrSetSpec::IpSet(n) => {
            assert(s.take(7) =~= pre);
            assert(s.skip(7) =~= n);
        },
    }
}

impl IpOrSet {
    /// Whether `ip` lies in the block; a named set is not looked into, so
    /// it holds no address as far as this value knows.
    pub fn contains(&self, ip: IpAddr) -> (r: bool)
        ensures
            r == (self@ matches IpOrSetSpec::Net(n) && n.spec_contains(ip)),
    {
        match self {
            IpOrSet::Net(n) => n.contains(ip),
            IpOrSet::IpSet(_) => false,
        }
    }

    /// Reads a block or `ip-set:` and the name of a set.
    pub fn from_bytes(text: &[u8]) -> (out: Option<IpOrSet>)
        ensures
            out.is_some() == parse_ip_or_set_spec(text@).is_some(),
            out matches Some(v) ==> parse_ip_or_set_spec(text@) == Some(v@),
    {
        proof {
            reveal_strlit("ip-set:");
            lemma_kw("ip-set:");
        }
        if has_prefix(text, "ip-set:") {
            let rest = vstd::slice::slice_subrange(text, 7, text.len());
            assert(rest@ =~= text@.skip(7));
            if check_set_name(rest) {
                Some(IpOrSet::IpSet(vstd::slice::slice_to_vec(rest)))
            } else {
                None
            }
        } else {
            match IpNet::from_bytes(text) {
                Some(n) => Some(IpOrSet::Net(n)),
                None => None,
            }
        }
    }

    /// The value as text.
    pub fn to_bytes(&self) -> (out: Vec<u8>)
        ensures
            out@ == self@.text(),
    {
        proof {
            reveal_strlit("ip-set:");
            lemma_kw("ip-set:");
        }
        match self {
            IpOrSet::Net(n) => n.to_bytes(),
            IpOrSet::IpSet(n) => {
                let mut out = keyword("ip-set:");
                push_bytes(&mut out, n.as_slice());
                out
            },
        }
    }
}

} // verus!
