//! Hosts files: lines that give an address and the names that stand for it.

use crate::config::parser::is_comment;
use crate::ip::{parse_ip_spec, IpAddr};
use crate::message::{TYPE_A, TYPE_AAAA};
use crate::name::{parse_name_spec, Name};
use crate::text::{rows, split_words, words, HASH};
use vstd::prelude::*;

verus! {

/// A line of a hosts file: an address and its names.
#[derive(Debug, PartialEq, Eq, Hash)]
pub struct HostsEntry {
    pub ip: IpAddr,
    pub names: Vec<Name>,
}

/// The views of a list of names.
pub open spec fn names_view(v: Seq<Name>) -> Seq<Seq<Seq<u8>>> {
    Seq::new(v.len(), |i: int| v[i]@)
}

/// Number of the words before the first one that starts a comment.
pub open spec fn words_before_comment(ws: Seq<Seq<u8>>) -> nat
    decreases ws.len(),
{
    if ws.len() == 0 || is_comment(ws[0]) {
        0
    } else {
        1 + words_before_comment(ws.skip(1))
    }
}

/// Whether every one of the words is a name.
pub open spec fn all_names(ws: Seq<Seq<u8>>) -> bool {
    forall|i: int| 0 <= i < ws.len() ==> parse_name_spec(#[trigger] ws[i]).is_some()
}

/// What a line of a hosts file means: its first word is an address, the
/// words behind it are the names of that address, of which there is at
/// least one, and a word that starts with `#` starts a comment. `None` for
/// a line without words before a comment and for a line that is not of
/// this form.
pub open spec fn parse_hosts_line_spec(line: Seq<u8>) -> Option<(IpAddr, Seq<Seq<Seq<u8>>>)> {
    let all = words(line);
    let ws = all.take(words_before_comment(all) as int);
    if ws.len() >= 2 && all_names(ws.skip(1)) {
        match parse_ip_spec(ws[0]) {
            Some(ip) => Some(
                (ip, Seq::new((ws.len() - 1) as nat, |i: int| parse_name_spec(ws[i + 1]).unwrap())),
            ),
            None => None,
        }
    } else {
        None
    }
}

/// Reads a line of a hosts file.
pub fn parse_hosts_line(line: &[u8]) -> (r: Option<HostsEntry>)
    ensures
        r.is_some() == parse_hosts_line_spec(line@).is_some(),
        r matches Some(e) ==> parse_hosts_line_spec(line@) == Some((e.ip, names_view(e.names@))),
{
    let all = split_words(line);
    let ghost aw = rows(all@);
    let mut n: usize = 0;
    assert(aw.skip(0) =~= aw);
    while n < all.len() && !(all[n].len() > 0 && all[n][0] == HASH)
        invariant
            n <= all.len(),
            aw == rows(all@),
            words_before_comment(aw) == n + words_before_comment(aw.skip(n as int)),
        decreases all.len() - n,
    {
        proof {
            assert(aw.skip(n as int)[0] == all@[n as int]@);
            assert(aw.skip(n as int).skip(1) =~= aw.skip(n + 1));
        }
        n += 1;
    }
    proof {
        if n < all.len() {
            assert(aw.skip(n as int)[0] == all@[n as int]@);
        }
        assert(words_before_comment(aw) == n);
    }
    let ghost ws = aw.take(n as int);
    if n < 2 {
        return None;
    }
    assert(ws[0] == all@[0]@);
    let mut names: Vec<Name> = Vec::new();
    let mut i: usize = 1;
    while i < n
        invariant
            1 <= i <= n <= all.len(),
            2 <= n,
            aw == rows(all@),
            aw == words(line@),
            n == words_before_comment(aw),
            ws == aw.take(n as int),
            names@.len() == i - 1,
            forall|k: int|
                0 <= k < i - 1 ==> parse_name_spec(#[trigger] ws.skip(1)[k]) == Some(names@[k]@),
        decreases n - i,
    {
        assert(ws.skip(1)[i - 1] == all@[i as int]@);
        match Name::from_bytes(all[i].as_slice()) {
            Some(name) => {
                names.push(name);
            },
            None => {
                assert(parse_name_spec(ws.skip(1)[i - 1]).is_none());
                return None;
            },
        }
        i += 1;
    }
    assert(all_names(ws.skip(1)));
    match IpAddr::from_bytes(all[0].as_slice()) {
        Some(ip) => {
            proof {
                let spelled = Seq::new(
                    (ws.len() - 1) as nat,
                    |i: int| parse_name_spec(ws[i + 1]).unwrap(),
                );
                assert forall|k: int| 0 <= k < spelled.len() implies spelled[k] == names_view(
                    names@,
                )[k] by {
                    assert(ws.skip(1)[k] == ws[k + 1]);
                }
                assert(spelled =~= names_view(names@));
            }
            Some(HostsEntry { ip, names })
        },
        None => None,
    }
}

/// Whether an address is of the family that a query of the type `qtype`
/// asks for.
pub open spec fn answers_type(ip: IpAddr, qtype: u16) -> bool {
    match ip {
        IpAddr::V4(_) => qtype == TYPE_A,
        IpAddr::V6(_) => qtype == TYPE_AAAA,
    }
}

/// Whether the entry answers a query for `name` of the type `qtype`.
pub open spec fn entry_answers(e: HostsEntry, name: Seq<Seq<u8>>, qtype: u16) -> bool {
    answers_type(e.ip, qtype) && exists|k: int| 0 <= k < e.names@.len() && (#[trigger] e.names@[k])@ == name
}

/// The addresses that the hosts files give for a query: those of the
/// entries that hold the name and whose address is of the family asked
/// for, in the order of the entries.
pub open spec fn hosts_addresses(entries: Seq<HostsEntry>, name: Seq<Seq<u8>>, qtype: u16) -> Seq<
    IpAddr,
> {
    entries.filter(|e: HostsEntry| entry_answers(e, name, qtype)).map_values(|e: HostsEntry| e.ip)
}

/// The addresses that the hosts files give for a query: those of the
/// entries that hold the name and whose address is of the family asked
/// for, in the order of the entries.
pub fn lookup_hosts(entries: &Vec<HostsEntry>, name: &Name, qtype: u16) -> (out: Vec<IpAddr>)
    ensures
        out@ == hosts_addresses(entries@, name@, qtype),
{
    let mut out: Vec<IpAddr> = Vec::new();
    let ghost keep = |e: HostsEntry| entry_answers(e, name@, qtype);
    let ghost ip_of = |e: HostsEntry| e.ip;
    let mut i: usize = 0;
    proof {
        reveal(Seq::filter);
        assert(entries@.take(0) =~= Seq::<HostsEntry>::empty());
        assert(out@ =~= entries@.take(0).filter(keep).map_values(ip_of));
    }
    while i < entries.len()
        invariant
            i <= entries.len(),
            keep == (|e: HostsEntry| entry_answers(e, name@, qtype)),
            ip_of == (|e: HostsEntry| e.ip),
            out@ == entries@.take(i as int).filter(keep).map_values(ip_of),
        decreases entries.len() - i,
    {
        let e = &entries[i];
        let family = match e.ip {
            IpAddr::V4(_) => qtype == TYPE_A,
            IpAddr::V6(_) => qtype == TYPE_AAAA,
        };
        let mut named = false;
        let mut k: usize = 0;
        while k < e.names.len()
            invariant
                k <= e.names.len(),
                named ==> exists|j: int| 0 <= j < e.names@.len() && (#[trigger] e.names@[j])@ == name@,
                !named ==> forall|j: int| 0 <= j < k ==> (#[trigger] e.names@[j])@ != name@,
            decreases e.names.len() - k,
        {
            if e.names[k].same_as(name) {
                named = true;
            }
            k += 1;
        }
        let ghost before = entries@.take(i as int).filter(keep);
        proof {
            reveal(Seq::filter);
            assert(entries@.take(i + 1).drop_last() =~= entries@.take(i as int));
            assert(entries@.take(i + 1).last() == entries@[i as int]);
        }
        if family && named {
            out.push(e.ip);
            assert(out@ =~= before.push(*e).map_values(ip_of));
        }
        i += 1;
    }
    assert(entries@.take(i as int) =~= entries@);
    assert(out@ == entries@.filter(keep).map_values(ip_of));
    out
}

} // verus!
