//! What is decided on the way from a query to its reply: forced answers,
//! addresses that must not be handed out, the choice among the answers of
//! the upstream servers, and the preference between the address families.

use crate::config::value::AddressRuleValue;
use crate::ip::{IpAddr, IpNet, IpOrSet, IpOrSetSpec};
use crate::message::{records_view, Message, Rcode, Record, RecordSpec, TYPE_A, TYPE_AAAA};
use crate::name::Name;
use crate::text::{bytes_eq, keyword, kw};
use vstd::prelude::*;
use vstd::seq_lib::{to_multiset_build, to_multiset_remove};

verus! {

/// What a forced answer means for a query.
#[derive(Debug, Clone, Copy, PartialEq, Eq, Hash, Structural)]
pub enum AddressAnswer {
    /// The query is answered with this address.
    Address(IpAddr),
    /// The query is answered with "no such data".
    Soa,
    /// The query goes on through the resolver.
    Pass,
}

/// What the forced answer of a rule means for a query of the type `qtype`:
/// `#` answers every query with "no such data", `#4` and `#6` only those
/// for an address of their family; an address answers the queries for an
/// address of its family; everything else lets the query pass.
pub open spec fn address_answer(rule: AddressRuleValue, qtype: u16) -> AddressAnswer {
    match rule {
        AddressRuleValue::SOA => AddressAnswer::Soa,
        AddressRuleValue::SOAv4 => if qtype == TYPE_A {
            AddressAnswer::Soa
        } else {
            AddressAnswer::Pass
        },
        AddressRuleValue::SOAv6 => if qtype == TYPE_AAAA {
            AddressAnswer::Soa
        } else {
            AddressAnswer::Pass
        },
        AddressRuleValue::Addr(IpAddr::V4(v)) => if qtype == TYPE_A {
            AddressAnswer::Address(IpAddr::V4(v))
        } else {
            AddressAnswer::Pass
        },
        AddressRuleValue::Addr(IpAddr::V6(v)) => if qtype == TYPE_AAAA {
            AddressAnswer::Address(IpAddr::V6(v))
        } else {
            AddressAnswer::Pass
        },
        _ => AddressAnswer::Pass,
    }
}

/// What the forced answer of a rule means for a query of the type `qtype`.
pub fn answer_for(rule: AddressRuleValue, qtype: u16) -> (a: AddressAnswer)
    ensures
        a == address_answer(rule, qtype),
{
    match rule {
        AddressRuleValue::SOA => AddressAnswer::Soa,
        AddressRuleValue::SOAv4 => if qtype == TYPE_A {
            AddressAnswer::Soa
        } else {
            AddressAnswer::Pass
        },
        AddressRuleValue::SOAv6 => if qtype == TYPE_AAAA {
            AddressAnswer::Soa
        } else {
            AddressAnswer::Pass
        },
        AddressRuleValue::Addr(IpAddr::V4(v)) => if qtype == TYPE_A {
            AddressAnswer::Address(IpAddr::V4(v))
        } else {
            AddressAnswer::Pass
        },
        AddressRuleValue::Addr(IpAddr::V6(v)) => if qtype == TYPE_AAAA {
            AddressAnswer::Address(IpAddr::V6(v))
        } else {
            AddressAnswer::Pass
        },
        _ => AddressAnswer::Pass,
    }
}

/// The reply that a forced answer gives to a query for `name` of the type
/// `qtype`, made here with the time to live `ttl`; `None` where the query
/// goes on through the resolver.
pub fn static_answer(name: &Name, qtype: u16, rule: AddressRuleValue, ttl: u32) -> (out: Option<
    Message,
>)
    ensures
        match address_answer(rule, qtype) {
            AddressAnswer::Soa => out matches Some(m) && m@ == crate::message::soa_message(
                name@,
                ttl,
            ) && m@.is_soa_for(name@, ttl),
            AddressAnswer::Address(ip) => out matches Some(m) && m@
                == crate::message::address_message(name@, ip, ttl) && m@.answer[0].data.address()
                == Some(ip),
            AddressAnswer::Pass => out.is_none(),
        },
{
    match answer_for(rule, qtype) {
        AddressAnswer::Soa => Some(Message::soa_for(name, ttl)),
        AddressAnswer::Address(ip) => Some(Message::address_for(name, ip, ttl)),
        AddressAnswer::Pass => None,
    }
}

/// Whether `ip` lies in one of the blocks. A reference to a named set
/// holds nothing by itself: `flatten_sets` puts the blocks of the loaded
/// sets in the place of the references, and `in_any_of` looks into them.
pub open spec fn in_any(ip: IpAddr, sets: Seq<IpOrSetSpec>) -> bool {
    exists|i: int|
        0 <= i < sets.len() && (#[trigger] sets[i] matches IpOrSetSpec::Net(n) && n.spec_contains(
            ip,
        ))
}

/// The views of a list of blocks and sets.
pub open spec fn sets_view(v: Seq<IpOrSet>) -> Seq<IpOrSetSpec> {
    Seq::new(v.len(), |i: int| v[i]@)
}

/// Whether `ip` lies in one of the blocks.
pub fn is_listed(ip: IpAddr, sets: &Vec<IpOrSet>) -> (r: bool)
    ensures
        r == in_any(ip, sets_view(sets@)),
{
    let mut i: usize = 0;
    while i < sets.len()
        invariant
            i <= sets.len(),
            forall|k: int|
                0 <= k < i ==> !(#[trigger] sets_view(sets@)[k] matches IpOrSetSpec::Net(n)
                    && n.spec_contains(ip)),
        decreases sets.len() - i,
    {
        if sets[i].contains(ip) {
            assert(sets_view(sets@)[i as int] == sets@[i as int]@);
            return true;
        }
        assert(sets_view(sets@)[i as int] == sets@[i as int]@);
        i += 1;
    }
    false
}

/// A named set of address blocks, as it was loaded.
#[derive(Debug, PartialEq, Eq, Hash)]
pub struct LoadedIpSet {
    pub name: Vec<u8>,
    pub blocks: Vec<IpNet>,
}

/// The mathematical content of a `LoadedIpSet`.
pub struct LoadedSpec {
    pub name: Seq<u8>,
    pub blocks: Seq<IpNet>,
}

impl View for LoadedIpSet {
    type V = LoadedSpec;

    open spec fn view(&self) -> LoadedSpec {
        LoadedSpec { name: self.name@, blocks: self.blocks@ }
    }
}

/// The views of a list of loaded sets.
pub open spec fn loaded_view(v: Seq<LoadedIpSet>) -> Seq<LoadedSpec> {
    Seq::new(v.len(), |i: int| v[i]@)
}

/// Whether `ip` lies in one of the blocks.
pub open spec fn in_blocks(ip: IpAddr, blocks: Seq<IpNet>) -> bool {
    exists|k: int| 0 <= k < blocks.len() && (#[trigger] blocks[k]).spec_contains(ip)
}

/// Whether a set of the given name was loaded.
pub open spec fn is_loaded(name: Seq<u8>, loaded: Seq<LoadedSpec>) -> bool {
    exists|j: int| 0 <= j < loaded.len() && (#[trigger] loaded[j]).name == name
}

/// Whether `ip` lies in a loaded set of the given name.
pub open spec fn in_named(ip: IpAddr, name: Seq<u8>, loaded: Seq<LoadedSpec>) -> bool {
    exists|j: int|
        0 <= j < loaded.len() && (#[trigger] loaded[j]).name == name && in_blocks(
            ip,
            loaded[j].blocks,
        )
}

/// Whether `ip` lies in the block, or in a loaded set of the name that the
/// reference gives.
pub open spec fn holds(s: IpOrSetSpec, ip: IpAddr, loaded: Seq<LoadedSpec>) -> bool {
    match s {
        IpOrSetSpec::Net(n) => n.spec_contains(ip),
        IpOrSetSpec::IpSet(name) => in_named(ip, name, loaded),
    }
}

/// Whether `ip` lies in one of the blocks or in one of the named sets, as
/// these were loaded.
pub open spec fn in_any_of(ip: IpAddr, sets: Seq<IpOrSetSpec>, loaded: Seq<LoadedSpec>) -> bool {
    exists|i: int| 0 <= i < sets.len() && holds(#[trigger] sets[i], ip, loaded)
}

/// Whether every set that is referred to by name was loaded.
pub open spec fn all_loaded(sets: Seq<IpOrSetSpec>, loaded: Seq<LoadedSpec>) -> bool {
    forall|i: int|
        0 <= i < sets.len() ==> (#[trigger] sets[i] matches IpOrSetSpec::IpSet(name) ==> is_loaded(
            name,
            loaded,
        ))
}

/// The blocks of the loaded sets of the given name, in their order.
pub open spec fn named_blocks(name: Seq<u8>, loaded: Seq<LoadedSpec>) -> Seq<IpNet>
    decreases loaded.len(),
{
    if loaded.len() == 0 {
        Seq::empty()
    } else if loaded.last().name == name {
        named_blocks(name, loaded.drop_last()) + loaded.last().blocks
    } else {
        named_blocks(name, loaded.drop_last())
    }
}

/// The blocks that a list of blocks and named sets stands for, in their
/// order: each reference gives way to the blocks of the sets of its name.
pub open spec fn flat_blocks(sets: Seq<IpOrSetSpec>, loaded: Seq<LoadedSpec>) -> Seq<IpNet>
    decreases sets.len(),
{
    if sets.len() == 0 {
        Seq::empty()
    } else {
        flat_blocks(sets.drop_last(), loaded) + match sets.last() {
            IpOrSetSpec::Net(n) => seq![n],
            IpOrSetSpec::IpSet(name) => named_blocks(name, loaded),
        }
    }
}

/// The blocks as a list without references.
pub open spec fn as_sets(blocks: Seq<IpNet>) -> Seq<IpOrSetSpec> {
    Seq::new(blocks.len(), |i: int| IpOrSetSpec::Net(blocks[i]))
}

/// An address lies in one of two lists of blocks put together exactly if
/// it lies in one of the two.
pub proof fn lemma_in_blocks_of_both(ip: IpAddr, a: Seq<IpNet>, b: Seq<IpNet>)
    ensures
        in_blocks(ip, a + b) == (in_blocks(ip, a) || in_blocks(ip, b)),
{
    let c = a + b;
    if in_blocks(ip, a) {
        let k = choose|k: int| 0 <= k < a.len() && (#[trigger] a[k]).spec_contains(ip);
        assert(c[k] == a[k]);
    }
    if in_blocks(ip, b) {
        let k = choose|k: int| 0 <= k < b.len() && (#[trigger] b[k]).spec_contains(ip);
        assert(c[a.len() + k] == b[k]);
    }
    if in_blocks(ip, c) {
        let k = choose|k: int| 0 <= k < c.len() && (#[trigger] c[k]).spec_contains(ip);
        if k < a.len() {
            assert(a[k] == c[k]);
        } else {
            assert(b[k - a.len()] == c[k]);
        }
    }
}

/// An address lies in the blocks of the sets of a name exactly if it lies
/// in a loaded set of that name.
pub proof fn lemma_named_blocks(ip: IpAddr, name: Seq<u8>, loaded: Seq<LoadedSpec>)
    ensures
        in_blocks(ip, named_blocks(name, loaded)) == in_named(ip, name, loaded),
    decreases loaded.len(),
{
    if loaded.len() > 0 {
        let front = loaded.drop_last();
        let last = loaded.last();
        lemma_named_blocks(ip, name, front);
        if last.name == name {
            lemma_in_blocks_of_both(ip, named_blocks(name, front), last.blocks);
        }
        if in_named(ip, name, front) {
            let j = choose|j: int|
                0 <= j < front.len() && (#[trigger] front[j]).name == name && in_blocks(
                    ip,
                    front[j].blocks,
                );
            assert(loaded[j] == front[j]);
        }
        if last.name == name && in_blocks(ip, last.blocks) {
            assert(loaded[loaded.len() - 1] == last);
        }
        if in_named(ip, name, loaded) {
            let j = choose|j: int|
                0 <= j < loaded.len() && (#[trigger] loaded[j]).name == name && in_blocks(
                    ip,
                    loaded[j].blocks,
                );
            if j < front.len() {
                assert(front[j] == loaded[j]);
            }
        }
    }
}

/// An address lies in the blocks that a list stands for exactly if it lies
/// in one of the blocks of the list or in a loaded set that the list names.
pub proof fn lemma_flat_blocks(ip: IpAddr, sets: Seq<IpOrSetSpec>, loaded: Seq<LoadedSpec>)
    ensures
        in_blocks(ip, flat_blocks(sets, loaded)) == in_any_of(ip, sets, loaded),
        in_any(ip, as_sets(flat_blocks(sets, loaded))) == in_any_of(ip, sets, loaded),
    decreases sets.len(),
{
    let flat = flat_blocks(sets, loaded);
    if sets.len() > 0 {
        let front = sets.drop_last();
        let last = sets.last();
        lemma_flat_blocks(ip, front, loaded);
        let tail = match last {
            IpOrSetSpec::Net(n) => seq![n],
            IpOrSetSpec::IpSet(name) => named_blocks(name, loaded),
        };
        lemma_in_blocks_of_both(ip, flat_blocks(front, loaded), tail);
        assert(in_blocks(ip, tail) == holds(last, ip, loaded)) by {
            match last {
                IpOrSetSpec::Net(n) => {
                    if n.spec_contains(ip) {
                        assert(tail[0].spec_contains(ip));
                    }
                },
                IpOrSetSpec::IpSet(name) => {
                    lemma_named_blocks(ip, name, loaded);
                },
            }
        }
        if in_any_of(ip, front, loaded) {
            let i = choose|i: int| 0 <= i < front.len() && holds(#[trigger] front[i], ip, loaded);
            assert(sets[i] == front[i]);
        }
        if holds(last, ip, loaded) {
            assert(sets[sets.len() - 1] == last);
        }
        if in_any_of(ip, sets, loaded) {
            let i = choose|i: int| 0 <= i < sets.len() && holds(#[trigger] sets[i], ip, loaded);
            if i < front.len() {
                assert(front[i] == sets[i]);
            }
        }
    }
    let listed = as_sets(flat);
    if in_blocks(ip, flat) {
        let k = choose|k: int| 0 <= k < flat.len() && (#[trigger] flat[k]).spec_contains(ip);
        assert(listed[k] == IpOrSetSpec::Net(flat[k]));
    }
    if in_any(ip, listed) {
        let k = choose|k: int|
            0 <= k < listed.len() && (#[trigger] listed[k] matches IpOrSetSpec::Net(n)
                && n.spec_contains(ip));
        assert(listed[k] == IpOrSetSpec::Net(flat[k]));
    }
}

/// The blocks of the loaded sets of the given name; `None` where no set of
/// that name was loaded.
pub fn blocks_of(name: &[u8], loaded: &Vec<LoadedIpSet>) -> (r: Option<Vec<IpNet>>)
    ensures
        r.is_some() == is_loaded(name@, loaded_view(loaded@)),
        r matches Some(b) ==> b@ == named_blocks(name@, loaded_view(loaded@)),
{
    let ghost all = loaded_view(loaded@);
    let mut out: Vec<IpNet> = Vec::new();
    let mut found = false;
    let mut j: usize = 0;
    assert(all.take(0) =~= Seq::<LoadedSpec>::empty());
    while j < loaded.len()
        invariant
            j <= loaded.len(),
            all == loaded_view(loaded@),
            out@ == named_blocks(name@, all.take(j as int)),
            found == is_loaded(name@, all.take(j as int)),
        decreases loaded.len() - j,
    {
        let set = &loaded[j];
        let ghost before = all.take(j as int);
        let ghost after = all.take(j + 1);
        proof {
            assert(after.drop_last() =~= before);
            assert(after.last() == set@);
            if is_loaded(name@, before) {
                let k = choose|k: int| 0 <= k < before.len() && (#[trigger] before[k]).name == name@;
                assert(after[k] == before[k]);
            }
            if is_loaded(name@, after) && set@.name != name@ {
                let k = choose|k: int| 0 <= k < after.len() && (#[trigger] after[k]).name == name@;
                assert(before[k] == after[k]);
            }
        }
        if bytes_eq(set.name.as_slice(), name) {
            assert(after[j as int].name == name@);
            found = true;
            let ghost base = out@;
            let mut k: usize = 0;
            assert(set.blocks@.take(0) =~= Seq::<IpNet>::empty());
            assert(base + set.blocks@.take(0) =~= base);
            while k < set.blocks.len()
                invariant
                    k <= set.blocks.len(),
                    out@ == base + set.blocks@.take(k as int),
                decreases set.blocks.len() - k,
            {
                out.push(set.blocks[k]);
                assert(base + set.blocks@.take(k + 1) =~= (base + set.blocks@.take(k as int)).push(
                    set.blocks@[k as int],
                ));
                k += 1;
            }
            assert(set.blocks@.take(k as int) =~= set.blocks@);
        }
        j += 1;
    }
    assert(all.take(j as int) =~= all);
    if found {
        Some(out)
    } else {
        None
    }
}

/// The list without references: each reference to a named set gives way
/// to the blocks of the loaded sets of that name. `None` where a set is
/// referred to that was not loaded. An address lies in what comes out
/// exactly if it lies in a block of the list or in a set that the list
/// names; see `lemma_flat_blocks`.
pub fn flatten_sets(sets: &Vec<IpOrSet>, loaded: &Vec<LoadedIpSet>) -> (r: Option<Vec<IpOrSet>>)
    ensures
        r.is_some() == all_loaded(sets_view(sets@), loaded_view(loaded@)),
        r matches Some(out) ==> sets_view(out@) == as_sets(
            flat_blocks(sets_view(sets@), loaded_view(loaded@)),
        ),
{
    let ghost all = sets_view(sets@);
    let ghost named = loaded_view(loaded@);
    let mut out: Vec<IpOrSet> = Vec::new();
    let mut i: usize = 0;
    proof {
        assert(all.take(0) =~= Seq::<IpOrSetSpec>::empty());
        assert(sets_view(out@) =~= as_sets(flat_blocks(all.take(0), named)));
    }
    while i < sets.len()
        invariant
            i <= sets.len(),
            all == sets_view(sets@),
            named == loaded_view(loaded@),
            all_loaded(all.take(i as int), named),
            sets_view(out@) == as_sets(flat_blocks(all.take(i as int), named)),
        decreases sets.len() - i,
    {
        let ghost before = all.take(i as int);
        let ghost after = all.take(i + 1);
        let ghost head = flat_blocks(before, named);
        proof {
            assert(after.drop_last() =~= before);
            assert(after.last() == sets@[i as int]@);
            assert(all[i as int] == sets@[i as int]@);
        }
        match &sets[i] {
            IpOrSet::Net(n) => {
                let ghost was = sets_view(out@);
                out.push(IpOrSet::Net(*n));
                assert(sets_view(out@) =~= as_sets(head + seq![*n])) by {
                    assert(sets_view(out@) =~= was.push(IpOrSetSpec::Net(*n)));
                }
            },
            IpOrSet::IpSet(name) => match blocks_of(name.as_slice(), loaded) {
                Some(blocks) => {
                    let mut k: usize = 0;
                    assert(head + blocks@.take(0) =~= head);
                    while k < blocks.len()
                        invariant
                            k <= blocks.len(),
                            sets_view(out@) == as_sets(head + blocks@.take(k as int)),
                        decreases blocks.len() - k,
                    {
                        let ghost was = sets_view(out@);
                        out.push(IpOrSet::Net(blocks[k]));
                        proof {
                            assert(sets_view(out@) =~= was.push(IpOrSetSpec::Net(blocks@[k as int])));
                            assert(head + blocks@.take(k + 1) =~= (head + blocks@.take(
                                k as int,
                            )).push(blocks@[k as int]));
                        }
                        k += 1;
                    }
                    assert(blocks@.take(k as int) =~= blocks@);
                },
                None => {
                    assert(!all_loaded(all, named)) by {
                        assert(all[i as int] matches IpOrSetSpec::IpSet(n) && !is_loaded(n, named));
                    }
                    return None;
                },
            },
        }
        proof {
            assert forall|x: int| 0 <= x < after.len() implies (#[trigger] after[x] matches IpOrSetSpec::IpSet(
                n,
            ) ==> is_loaded(n, named)) by {
                if x < i {
                    assert(after[x] == before[x]);
                }
            }
        }
        i += 1;
    }
    assert(all.take(i as int) =~= all);
    Some(out)
}

/// Whether `ip` lies in one of the blocks or in one of the named sets, as
/// these were loaded.
pub fn is_listed_in(ip: IpAddr, sets: &Vec<IpOrSet>, loaded: &Vec<LoadedIpSet>) -> (r: bool)
    ensures
        r == in_any_of(ip, sets_view(sets@), loaded_view(loaded@)),
{
    let ghost all = sets_view(sets@);
    let ghost named = loaded_view(loaded@);
    let mut i: usize = 0;
    while i < sets.len()
        invariant
            i <= sets.len(),
            all == sets_view(sets@),
            named == loaded_view(loaded@),
            forall|k: int| 0 <= k < i ==> !holds(#[trigger] all[k], ip, named),
        decreases sets.len() - i,
    {
        assert(all[i as int] == sets@[i as int]@);
        let inside = match &sets[i] {
            IpOrSet::Net(n) => n.contains(ip),
            IpOrSet::IpSet(name) => match blocks_of(name.as_slice(), loaded) {
                Some(blocks) => {
                    proof {
                        lemma_named_blocks(ip, name@, named);
                    }
                    holds_ip(&blocks, ip)
                },
                None => {
                    proof {
                        lemma_named_blocks(ip, name@, named);
                        if in_named(ip, name@, named) {
                            let j = choose|j: int|
                                0 <= j < named.len() && (#[trigger] named[j]).name == name@
                                    && in_blocks(ip, named[j].blocks);
                            assert(is_loaded(name@, named));
                        }
                    }
                    false
                },
            },
        };
        if inside {
            assert(holds(all[i as int], ip, named));
            return true;
        }
        i += 1;
    }
    false
}

/// Whether `ip` lies in one of the blocks.
pub fn holds_ip(blocks: &Vec<IpNet>, ip: IpAddr) -> (r: bool)
    ensures
        r == in_blocks(ip, blocks@),
{
    let mut k: usize = 0;
    while k < blocks.len()
        invariant
            k <= blocks.len(),
            forall|x: int| 0 <= x < k ==> !(#[trigger] blocks@[x]).spec_contains(ip),
        decreases blocks.len() - k,
    {
        if blocks[k].contains(ip) {
            return true;
        }
        k += 1;
    }
    false
}

/// Whether a record may stay in an answer: it holds no address of one of
/// the blocks.
pub open spec fn may_stay(r: RecordSpec, sets: Seq<IpOrSetSpec>) -> bool {
    match r.data.address() {
        Some(ip) => !in_any(ip, sets),
        None => true,
    }
}

/// The records without those that hold an address of one of the blocks, in
/// their order.
pub fn strip_listed(answer: &Vec<Record>, sets: &Vec<IpOrSet>) -> (out: Vec<Record>)
    ensures
        records_view(out@) == records_view(answer@).filter(
            |r: RecordSpec| may_stay(r, sets_view(sets@)),
        ),
{
    let mut out: Vec<Record> = Vec::new();
    let mut i: usize = 0;
    let ghost rs = records_view(answer@);
    let ghost keep = |r: RecordSpec| may_stay(r, sets_view(sets@));
    proof {
        reveal(Seq::filter);
        assert(rs.take(0) =~= Seq::<RecordSpec>::empty());
        assert(records_view(out@) =~= rs.take(0).filter(keep));
    }
    while i < answer.len()
        invariant
            i <= answer.len(),
            rs == records_view(answer@),
            keep == (|r: RecordSpec| may_stay(r, sets_view(sets@))),
            records_view(out@) == rs.take(i as int).filter(keep),
        decreases answer.len() - i,
    {
        let r = &answer[i];
        assert(r@ == rs[i as int]);
        let stays = match r.address() {
            Some(ip) => !is_listed(ip, sets),
            None => true,
        };
        let ghost before = records_view(out@);
        proof {
            reveal(Seq::filter);
            assert(rs.take(i + 1).drop_last() =~= rs.take(i as int));
            assert(rs.take(i + 1).last() == rs[i as int]);
        }
        if stays {
            out.push(r.clone());
            assert(records_view(out@) =~= before.push(rs[i as int]));
        }
        i += 1;
    }
    assert(rs.take(i as int) =~= rs);
    out
}

/// The reply to a query for `name` once the addresses of the blocks are
/// taken out of it; see `without_listed`.
pub open spec fn cleaned(
    name: Seq<Seq<u8>>,
    reply: crate::message::MessageSpec,
    sets: Seq<IpOrSetSpec>,
    ttl: u32,
) -> crate::message::MessageSpec {
    let kept = reply.answer.filter(|r: RecordSpec| may_stay(r, sets));
    if kept.len() == 0 && reply.answer.len() > 0 {
        crate::message::soa_message(name, ttl)
    } else {
        crate::message::MessageSpec { answer: kept, ..reply }
    }
}

/// The reply to a query for `name` once the addresses of the blocks are
/// taken out of it: the answer without the records that hold such an
/// address, and the rest as it was. Where that empties an answer that held
/// records, the reply that says "no such data" is put in its place, with
/// the time to live `ttl`.
pub fn without_listed(name: &Name, reply: &Message, sets: &Vec<IpOrSet>, ttl: u32) -> (out: Message)
    ensures
        out@ == cleaned(name@, reply@, sets_view(sets@), ttl),
        ({
            let kept = reply@.answer.filter(|r: RecordSpec| may_stay(r, sets_view(sets@)));
            if kept.len() == 0 && reply@.answer.len() > 0 {
                out@.is_soa_for(name@, ttl)
            } else {
                &&& out@.rcode == reply@.rcode
                &&& out@.answer == kept
                &&& out@.authority == reply@.authority
                &&& out@.additional == reply@.additional
            }
        }),
{
    let kept = strip_listed(&reply.answer, sets);
    if kept.len() == 0 && reply.answer.len() > 0 {
        Message::soa_for(name, ttl)
    } else {
        let authority = copy_records(&reply.authority);
        let additional = copy_records(&reply.additional);
        Message { rcode: reply.rcode, answer: kept, authority, additional }
    }
}

/// A copy of a list of records.
pub fn copy_records(records: &Vec<Record>) -> (out: Vec<Record>)
    ensures
        records_view(out@) == records_view(records@),
{
    let mut out: Vec<Record> = Vec::new();
    let mut i: usize = 0;
    while i < records.len()
        invariant
            i <= records.len(),
            out@.len() == i,
            forall|k: int| 0 <= k < i ==> out@[k]@ == records@[k]@,
        decreases records.len() - i,
    {
        out.push(records[i].clone());
        i += 1;
    }
    assert(records_view(out@) =~= records_view(records@));
    out
}

/// Whether a record holds an address of one of the blocks.
pub open spec fn is_of(r: RecordSpec, sets: Seq<IpOrSetSpec>) -> bool {
    r.data.address() matches Some(ip) && in_any(ip, sets)
}

/// Whether one of the records holds an address of one of the blocks.
pub open spec fn overlaps(rs: Seq<RecordSpec>, sets: Seq<IpOrSetSpec>) -> bool {
    exists|i: int| 0 <= i < rs.len() && is_of(#[trigger] rs[i], sets)
}

/// Whether an answer holds an address of one of the blocks. An upstream
/// answer that holds none of the whitelist is set aside.
pub fn holds_listed(answer: &Vec<Record>, sets: &Vec<IpOrSet>) -> (r: bool)
    ensures
        r == overlaps(records_view(answer@), sets_view(sets@)),
{
    let ghost rs = records_view(answer@);
    let mut i: usize = 0;
    while i < answer.len()
        invariant
            i <= answer.len(),
            rs == records_view(answer@),
            forall|k: int| 0 <= k < i ==> !is_of(#[trigger] rs[k], sets_view(sets@)),
        decreases answer.len() - i,
    {
        assert(rs[i as int] == answer@[i as int]@);
        if let Some(ip) = answer[i].address() {
            if is_listed(ip, sets) {
                assert(is_of(rs[i as int], sets_view(sets@)));
                return true;
            }
        }
        i += 1;
    }
    false
}

/// Whether a record holds an address that answered a probe.
pub open spec fn answers_probe(r: RecordSpec, probes: Seq<Probe>) -> bool {
    r.data.address() matches Some(ip) && rtt_of(probes, ip).is_some()
}

/// Whether a record goes out where addresses that did not answer a probe
/// are held back: it holds no address, or one that answered.
pub open spec fn may_go(r: RecordSpec, probes: Seq<Probe>) -> bool {
    match r.data.address() {
        Some(ip) => rtt_of(probes, ip).is_some(),
        None => true,
    }
}

/// Whether one of the records holds an address that answered a probe.
pub open spec fn holds_reachable(rs: Seq<RecordSpec>, probes: Seq<Probe>) -> bool {
    exists|i: int| 0 <= i < rs.len() && answers_probe(#[trigger] rs[i], probes)
}

/// The records without those whose address did not answer a probe, in
/// their order; all of them where no address answered, so that an answer
/// is never emptied.
pub open spec fn reachable_records(rs: Seq<RecordSpec>, probes: Seq<Probe>) -> Seq<RecordSpec> {
    if holds_reachable(rs, probes) {
        rs.filter(|r: RecordSpec| may_go(r, probes))
    } else {
        rs
    }
}

/// The records without those whose address did not answer a probe; all of
/// them where no address answered.
pub fn keep_reachable(records: &Vec<Record>, probes: &Vec<Probe>) -> (out: Vec<Record>)
    ensures
        records_view(out@) == reachable_records(records_view(records@), probes@),
        holds_reachable(records_view(out@), probes@) == holds_reachable(
            records_view(records@),
            probes@,
        ),
{
    let mut out: Vec<Record> = Vec::new();
    let mut seen = false;
    let mut i: usize = 0;
    let ghost rs = records_view(records@);
    let ghost keep = |r: RecordSpec| may_go(r, probes@);
    proof {
        reveal(Seq::filter);
        assert(rs.take(0) =~= Seq::<RecordSpec>::empty());
        assert(records_view(out@) =~= rs.take(0).filter(keep));
    }
    while i < records.len()
        invariant
            i <= records.len(),
            rs == records_view(records@),
            keep == (|r: RecordSpec| may_go(r, probes@)),
            records_view(out@) == rs.take(i as int).filter(keep),
            seen == (exists|k: int| 0 <= k < i && answers_probe(#[trigger] rs[k], probes@)),
            seen == holds_reachable(records_view(out@), probes@),
        decreases records.len() - i,
    {
        let r = &records[i];
        assert(r@ == rs[i as int]);
        let (goes, answered) = match r.address() {
            Some(ip) => {
                let t = find_rtt(probes, ip).is_some();
                (t, t)
            },
            None => (true, false),
        };
        let ghost before = records_view(out@);
        proof {
            reveal(Seq::filter);
            assert(rs.take(i + 1).drop_last() =~= rs.take(i as int));
            assert(rs.take(i + 1).last() == rs[i as int]);
            assert(answered == answers_probe(rs[i as int], probes@));
            if seen {
                let k = choose|k: int| 0 <= k < i && answers_probe(#[trigger] rs[k], probes@);
                assert(answers_probe(rs[k], probes@));
            }
        }
        if goes {
            out.push(r.clone());
            proof {
                let after = records_view(out@);
                assert(after =~= before.push(rs[i as int]));
                if holds_reachable(before, probes@) {
                    let k = choose|k: int|
                        0 <= k < before.len() && answers_probe(#[trigger] before[k], probes@);
                    assert(after[k] == before[k]);
                }
                if answered {
                    assert(answers_probe(after[after.len() - 1], probes@));
                }
                if holds_reachable(after, probes@) && !answered {
                    let k = choose|k: int|
                        0 <= k < after.len() && answers_probe(#[trigger] after[k], probes@);
                    assert(before[k] == after[k]);
                }
            }
        }
        if answered {
            seen = true;
        }
        i += 1;
    }
    assert(rs.take(i as int) =~= rs);
    if seen {
        out
    } else {
        copy_records(records)
    }
}

/// Records that are the same but for their order hold a reachable address
/// alike.
pub proof fn lemma_reachable_of_same(a: Seq<RecordSpec>, b: Seq<RecordSpec>, probes: Seq<Probe>)
    requires
        a.to_multiset() == b.to_multiset(),
        holds_reachable(a, probes),
    ensures
        holds_reachable(b, probes),
{
    broadcast use vstd::seq_lib::group_to_multiset_ensures;

    let i = choose|i: int| 0 <= i < a.len() && answers_probe(#[trigger] a[i], probes);
    let x = a[i];
    assert(a.contains(x));
    assert(a.to_multiset().count(x) > 0);
    assert(b.to_multiset().count(x) > 0);
    assert(b.contains(x));
    let j = choose|j: int| 0 <= j < b.len() && b[j] == x;
    assert(answers_probe(b[j], probes));
}

/// The addresses of the records hold one that answered a probe exactly if
/// one of the records holds such an address.
pub proof fn lemma_reachable_addresses(rs: Seq<RecordSpec>, probes: Seq<Probe>)
    ensures
        any_reachable(crate::pipeline::addresses(rs), probes) == holds_reachable(rs, probes),
    decreases rs.len(),
{
    let all = crate::pipeline::addresses(rs);
    if rs.len() > 0 {
        let front = rs.drop_last();
        let last = rs.last();
        let head = crate::pipeline::addresses(front);
        lemma_reachable_addresses(front, probes);
        if holds_reachable(front, probes) {
            let i = choose|i: int| 0 <= i < front.len() && answers_probe(#[trigger] front[i], probes);
            assert(rs[i] == front[i]);
        }
        if any_reachable(head, probes) {
            let k = choose|k: int| 0 <= k < head.len() && rtt_of(probes, #[trigger] head[k]).is_some();
            assert(all[k] == head[k]);
        }
        if answers_probe(last, probes) {
            assert(rs[rs.len() - 1] == last);
            assert(rtt_of(probes, all[all.len() - 1]).is_some());
        }
        if any_reachable(all, probes) {
            let k = choose|k: int| 0 <= k < all.len() && rtt_of(probes, #[trigger] all[k]).is_some();
            if k < head.len() {
                assert(head[k] == all[k]);
            } else {
                assert(answers_probe(rs[rs.len() - 1], probes));
            }
        }
        if holds_reachable(rs, probes) {
            let i = choose|i: int| 0 <= i < rs.len() && answers_probe(#[trigger] rs[i], probes);
            if i < front.len() {
                assert(front[i] == rs[i]);
            }
        }
    }
}

/// The place of a record in the order from fastest to slowest: a record
/// without an address comes first, an address by the time it took to
/// answer, and one that did not answer last.
pub open spec fn record_rank(r: RecordSpec, probes: Seq<Probe>) -> int {
    match r.data.address() {
        Some(ip) => 1 + speed_rank(probes, ip),
        None => 0,
    }
}

/// Whether the records stand from fastest to slowest.
pub open spec fn is_by_speed(rs: Seq<RecordSpec>, probes: Seq<Probe>) -> bool {
    forall|a: int, b: int|
        0 <= a < b < rs.len() ==> record_rank(#[trigger] rs[a], probes) <= record_rank(
            #[trigger] rs[b],
            probes,
        )
}

/// The place of the first of the fastest records.
pub open spec fn first_least(rs: Seq<RecordSpec>, probes: Seq<Probe>) -> int
    decreases rs.len(),
{
    if rs.len() <= 1 {
        0
    } else {
        let k = first_least(rs.drop_last(), probes);
        if record_rank(rs.last(), probes) < record_rank(rs[k], probes) {
            rs.len() - 1
        } else {
            k
        }
    }
}

/// The records from fastest to slowest, records of equal speed in the
/// order in which they stood: the first of the fastest records, then the
/// others in the same way.
pub open spec fn by_speed(rs: Seq<RecordSpec>, probes: Seq<Probe>) -> Seq<RecordSpec>
    decreases rs.len(),
{
    let k = first_least(rs, probes);
    if 0 <= k < rs.len() {
        seq![rs[k]] + by_speed(rs.remove(k), probes)
    } else {
        Seq::empty()
    }
}

/// The place of a record in the order from fastest to slowest.
fn rank_of_record(r: &Record, probes: &Vec<Probe>) -> (out: u64)
    ensures
        out == record_rank(r@, probes@),
{
    match r.address() {
        Some(ip) => 1 + rank_of(probes, ip),
        None => 0,
    }
}

/// The records from fastest to slowest: those without an address first,
/// then the addresses by the time they took to answer, those that did not
/// answer last; records of equal speed keep their order. The same records
/// come out as went in, each as often.
pub fn order_by_speed(records: Vec<Record>, probes: &Vec<Probe>) -> (out: Vec<Record>)
    ensures
        records_view(out@) == by_speed(records_view(records@), probes@),
        is_by_speed(records_view(out@), probes@),
        records_view(out@).to_multiset() == records_view(records@).to_multiset(),
{
    let ghost all = records_view(records@);
    let mut rest = records;
    let mut out: Vec<Record> = Vec::new();
    proof {
        assert(records_view(out@) =~= Seq::<RecordSpec>::empty());
        broadcast use vstd::seq_lib::group_to_multiset_ensures;

        assert(records_view(out@).to_multiset().add(records_view(rest@).to_multiset())
            =~= all.to_multiset());
        assert(records_view(out@) + by_speed(records_view(rest@), probes@) =~= by_speed(
            all,
            probes@,
        ));
    }
    while rest.len() > 0
        invariant
            records_view(out@) + by_speed(records_view(rest@), probes@) == by_speed(all, probes@),
            is_by_speed(records_view(out@), probes@),
            forall|a: int, b: int|
                0 <= a < out@.len() && 0 <= b < rest@.len() ==> record_rank(
                    #[trigger] records_view(out@)[a],
                    probes@,
                ) <= record_rank(#[trigger] records_view(rest@)[b], probes@),
            records_view(out@).to_multiset().add(records_view(rest@).to_multiset())
                == all.to_multiset(),
        decreases rest.len(),
    {
        let ghost rs = records_view(rest@);
        let mut at: usize = 0;
        let mut least = rank_of_record(&rest[0], probes);
        let mut i: usize = 1;
        assert(rs[0] == rest@[0]@);
        while i < rest.len()
            invariant
                1 <= i <= rest.len(),
                at < i,
                rs == records_view(rest@),
                at == first_least(rs.take(i as int), probes@),
                least == record_rank(rs[at as int], probes@),
                forall|k: int| 0 <= k < i ==> least <= record_rank(#[trigger] rs[k], probes@),
            decreases rest.len() - i,
        {
            assert(rs[i as int] == rest@[i as int]@);
            proof {
                assert(rs.take(i + 1).drop_last() =~= rs.take(i as int));
                assert(rs.take(i + 1).last() == rs[i as int]);
                assert(rs.take(i as int)[at as int] == rs[at as int]);
            }
            let r = rank_of_record(&rest[i], probes);
            if r < least {
                least = r;
                at = i;
            }
            i += 1;
        }
        let ghost before_out = records_view(out@);
        assert(rs.take(i as int) =~= rs);
        let picked = rest.remove(at);
        out.push(picked);
        proof {
            let x = rs[at as int];
            assert(picked@ == x);
            assert(records_view(out@) =~= before_out.push(x));
            assert(records_view(rest@) =~= rs.remove(at as int));
            assert(by_speed(rs, probes@) == seq![x] + by_speed(rs.remove(at as int), probes@));
            assert(records_view(out@) + by_speed(records_view(rest@), probes@) =~= before_out
                + by_speed(rs, probes@));
            to_multiset_build(before_out, x);
            to_multiset_remove(rs, at as int);
            assert(records_view(out@).to_multiset().add(records_view(rest@).to_multiset())
                =~= before_out.to_multiset().add(rs.to_multiset())) by {
                broadcast use vstd::seq_lib::group_to_multiset_ensures;

                assert(rs.to_multiset().count(x) > 0) by {
                    assert(rs.contains(rs[at as int]));
                }
            }
            let now_out = records_view(out@);
            let now_rest = records_view(rest@);
            assert forall|a: int, b: int| 0 <= a < b < now_out.len() implies record_rank(
                #[trigger] now_out[a],
                probes@,
            ) <= record_rank(#[trigger] now_out[b], probes@) by {
                assert(now_out[a] == before_out[a]);
                if b < now_out.len() - 1 {
                    assert(now_out[b] == before_out[b]);
                }
            }
            assert forall|a: int, b: int|
                0 <= a < out@.len() && 0 <= b < rest@.len() implies record_rank(
                #[trigger] records_view(out@)[a],
                probes@,
            ) <= record_rank(#[trigger] records_view(rest@)[b], probes@) by {
                let y = if b < at {
                    b
                } else {
                    b + 1
                };
                assert(now_rest[b] == rs[y]);
                if a < now_out.len() - 1 {
                    assert(now_out[a] == before_out[a]);
                }
            }
        }
    }
    proof {
        assert(records_view(rest@) =~= Seq::<RecordSpec>::empty());
        broadcast use vstd::seq_lib::group_to_multiset_ensures;

        assert(records_view(out@).to_multiset().add(records_view(rest@).to_multiset())
            =~= records_view(out@).to_multiset());
        assert(by_speed(records_view(rest@), probes@) =~= Seq::<RecordSpec>::empty());
        assert(records_view(out@) + Seq::<RecordSpec>::empty() =~= records_view(out@));
    }
    out
}

/// The least time to live that the first start-of-authority record among
/// the records names; `None` where there is no such record.
pub open spec fn soa_minimum(rs: Seq<RecordSpec>) -> Option<u32>
    decreases rs.len(),
{
    if rs.len() == 0 {
        None
    } else {
        match rs[0].data {
            crate::message::DataSpec::SOA(_, _, _, _, _, _, m) => Some(m),
            _ => soa_minimum(rs.skip(1)),
        }
    }
}

/// The least time to live that the first start-of-authority record among
/// the records names.
pub fn find_soa_minimum(records: &Vec<Record>) -> (out: Option<u32>)
    ensures
        out == soa_minimum(records_view(records@)),
{
    let ghost rs = records_view(records@);
    let mut i: usize = 0;
    assert(rs.skip(0) =~= rs);
    while i < records.len()
        invariant
            i <= records.len(),
            rs == records_view(records@),
            soa_minimum(rs) == soa_minimum(rs.skip(i as int)),
        decreases records.len() - i,
    {
        assert(rs.skip(i as int)[0] == records@[i as int]@);
        assert(rs.skip(i as int).skip(1) =~= rs.skip(i + 1));
        match &records[i].data {
            crate::dns::RData::SOA(soa) => {
                return Some(soa.minimum);
            },
            _ => {},
        }
        i += 1;
    }
    None
}

/// What a probe found out about an address.
#[derive(Debug, Clone, Copy, PartialEq, Eq, Hash, Structural)]
pub struct Probe {
    pub ip: IpAddr,
    /// Milliseconds that the address took to answer; `None` where it did
    /// not answer.
    pub rtt: Option<u32>,
}

/// The time that `ip` took to answer, by the first probe of it; `None`
/// where it was not probed or did not answer.
pub open spec fn rtt_of(probes: Seq<Probe>, ip: IpAddr) -> Option<u32>
    decreases probes.len(),
{
    if probes.len() == 0 {
        None
    } else if probes[0].ip == ip {
        probes[0].rtt
    } else {
        rtt_of(probes.skip(1), ip)
    }
}

/// The time that `ip` took to answer.
pub fn find_rtt(probes: &Vec<Probe>, ip: IpAddr) -> (r: Option<u32>)
    ensures
        r == rtt_of(probes@, ip),
{
    let mut i: usize = 0;
    assert(probes@.skip(0) =~= probes@);
    while i < probes.len()
        invariant
            i <= probes.len(),
            rtt_of(probes@, ip) == rtt_of(probes@.skip(i as int), ip),
        decreases probes.len() - i,
    {
        assert(probes@.skip(i as int)[0] == probes@[i as int]);
        assert(probes@.skip(i as int).skip(1) =~= probes@.skip(i + 1));
        if probes[i].ip == ip {
            return probes[i].rtt;
        }
        i += 1;
    }
    None
}

/// Whether one of the addresses answered a probe.
pub open spec fn any_reachable(addrs: Seq<IpAddr>, probes: Seq<Probe>) -> bool {
    exists|k: int| 0 <= k < addrs.len() && rtt_of(probes, #[trigger] addrs[k]).is_some()
}

/// Whether `m` is the least time that one of the addresses took to answer.
pub open spec fn is_best_rtt(addrs: Seq<IpAddr>, probes: Seq<Probe>, m: u32) -> bool {
    &&& exists|k: int| 0 <= k < addrs.len() && rtt_of(probes, #[trigger] addrs[k]) == Some(m)
    &&& forall|k: int|
        0 <= k < addrs.len() ==> (rtt_of(probes, #[trigger] addrs[k]) matches Some(x) ==> m <= x)
}

/// The least time that one of the addresses took to answer; `None` where
/// none of them answered.
pub fn best_rtt(addrs: &Vec<IpAddr>, probes: &Vec<Probe>) -> (r: Option<u32>)
    ensures
        match r {
            Some(m) => is_best_rtt(addrs@, probes@, m),
            None => !any_reachable(addrs@, probes@),
        },
{
    let mut best: Option<u32> = None;
    let mut i: usize = 0;
    while i < addrs.len()
        invariant
            i <= addrs.len(),
            match best {
                Some(m) => is_best_rtt(addrs@.take(i as int), probes@, m),
                None => !any_reachable(addrs@.take(i as int), probes@),
            },
        decreases addrs.len() - i,
    {
        let ghost before = addrs@.take(i as int);
        let ghost after = addrs@.take(i + 1);
        let t = find_rtt(probes, addrs[i]);
        proof {
            assert(after[i as int] == addrs@[i as int]);
            assert forall|k: int| 0 <= k < before.len() implies #[trigger] after[k] == before[k] by {}
            if let Some(m) = best {
                let w = choose|k: int|
                    0 <= k < before.len() && rtt_of(probes@, #[trigger] before[k]) == Some(m);
                assert(after[w] == before[w]);
            }
        }
        let next = match (best, t) {
            (Some(m), Some(x)) => if x < m {
                Some(x)
            } else {
                Some(m)
            },
            (None, Some(x)) => Some(x),
            (b, None) => b,
        };
        proof {
            match next {
                Some(n) => {
                    assert forall|k: int| 0 <= k < after.len() implies (rtt_of(
                        probes@,
                        #[trigger] after[k],
                    ) matches Some(x) ==> n <= x) by {
                        if k < i {
                            assert(after[k] == before[k]);
                            if best.is_none() {
                                assert(rtt_of(probes@, before[k]).is_none());
                            }
                        }
                    }
                },
                None => {
                    assert forall|k: int| 0 <= k < after.len() implies rtt_of(
                        probes@,
                        #[trigger] after[k],
                    ).is_none() by {
                        if k < i {
                            assert(after[k] == before[k]);
                        }
                    }
                },
            }
        }
        best = next;
        i += 1;
    }
    assert(addrs@.take(i as int) =~= addrs@);
    best
}

/// Whether `i` is the place of the answer that is picked by probing: where
/// an address of some answer answered a probe, the answer that holds the
/// address that answered fastest, and of several such the one that arrived
/// first; where no address answered, the answer that arrived first.
pub open spec fn is_first_ping_choice(
    answers: Seq<Seq<IpAddr>>,
    probes: Seq<Probe>,
    i: int,
) -> bool {
    &&& 0 <= i < answers.len()
    &&& if exists|j: int| 0 <= j < answers.len() && any_reachable(#[trigger] answers[j], probes) {
        exists|m: u32|
            {
                &&& #[trigger] is_best_rtt(answers[i], probes, m)
                &&& forall|j: int, x: u32|
                    0 <= j < answers.len() && #[trigger] is_best_rtt(answers[j], probes, x) ==> m
                        < x || (m == x && i <= j)
            }
    } else {
        i == 0
    }
}

/// The views of a list of lists of addresses.
pub open spec fn answers_view(v: Seq<Vec<IpAddr>>) -> Seq<Seq<IpAddr>> {
    Seq::new(v.len(), |i: int| v[i]@)
}

/// The least time of a list of addresses is one time only.
pub proof fn lemma_best_rtt_unique(addrs: Seq<IpAddr>, probes: Seq<Probe>, a: u32, b: u32)
    requires
        is_best_rtt(addrs, probes, a),
        is_best_rtt(addrs, probes, b),
    ensures
        a == b,
{
    let i = choose|k: int| 0 <= k < addrs.len() && rtt_of(probes, #[trigger] addrs[k]) == Some(a);
    let j = choose|k: int| 0 <= k < addrs.len() && rtt_of(probes, #[trigger] addrs[k]) == Some(b);
    assert(rtt_of(probes, addrs[i]) == Some(a));
    assert(rtt_of(probes, addrs[j]) == Some(b));
}

/// Picks an answer by probing; the answers stand in the order in which they
/// arrived. `None` where there is no answer.
pub fn select_first_ping(answers: &Vec<Vec<IpAddr>>, probes: &Vec<Probe>) -> (r: Option<usize>)
    ensures
        match r {
            Some(i) => is_first_ping_choice(answers_view(answers@), probes@, i as int),
            None => answers@.len() == 0,
        },
        // an answer with a reachable address is picked whenever there is one
        r matches Some(i) ==> ((exists|j: int|
            0 <= j < answers@.len() && any_reachable(#[trigger] answers_view(answers@)[j], probes@))
            ==> any_reachable(answers_view(answers@)[i as int], probes@)),
{
    if answers.len() == 0 {
        return None;
    }
    let ghost all = answers_view(answers@);
    let mut best: Option<(usize, u32)> = None;
    let mut i: usize = 0;
    while i < answers.len()
        invariant
            i <= answers.len(),
            all == answers_view(answers@),
            match best {
                Some((b, m)) => {
                    &&& b < i
                    &&& is_best_rtt(all[b as int], probes@, m)
                    &&& forall|j: int, x: u32|
                        0 <= j < i && #[trigger] is_best_rtt(all[j], probes@, x) ==> m < x || (m
                            == x && b <= j)
                },
                None => forall|j: int| 0 <= j < i ==> !any_reachable(#[trigger] all[j], probes@),
            },
        decreases answers.len() - i,
    {
        assert(all[i as int] == answers@[i as int]@);
        let t = best_rtt(&answers[i], probes);
        let next = match (best, t) {
            (Some((b, m)), Some(x)) => if x < m {
                Some((i, x))
            } else {
                Some((b, m))
            },
            (None, Some(x)) => Some((i, x)),
            (b, None) => b,
        };
        proof {
            match next {
                Some((nb, nm)) => {
                    assert forall|j: int, x: u32|
                        0 <= j < i + 1 && #[trigger] is_best_rtt(all[j], probes@, x) implies nm < x
                        || (nm == x && nb <= j) by {
                        if j == i {
                            match t {
                                Some(y) => {
                                    lemma_best_rtt_unique(all[j], probes@, x, y);
                                },
                                None => {
                                    let k = choose|k: int|
                                        0 <= k < all[j].len() && rtt_of(
                                            probes@,
                                            #[trigger] all[j][k],
                                        ) == Some(x);
                                    assert(rtt_of(probes@, all[j][k]).is_some());
                                },
                            }
                        } else {
                            if best.is_none() {
                                let k = choose|k: int|
                                    0 <= k < all[j].len() && rtt_of(
                                        probes@,
                                        #[trigger] all[j][k],
                                    ) == Some(x);
                                assert(rtt_of(probes@, all[j][k]).is_some());
                                assert(any_reachable(all[j], probes@));
                            }
                        }
                    }
                },
                None => {},
            }
        }
        best = next;
        i += 1;
    }
    match best {
        Some((b, m)) => {
            proof {
                let k = choose|k: int|
                    0 <= k < all[b as int].len() && rtt_of(probes@, #[trigger] all[b as int][k])
                        == Some(m);
                assert(rtt_of(probes@, all[b as int][k]).is_some());
                assert(any_reachable(all[b as int], probes@));
            }
            Some(b)
        },
        None => Some(0),
    }
}

/// Picks the first answer that is no error; the answers stand in the order
/// in which they arrived. `None` where every answer is an error.
pub fn select_fastest_response(rcodes: &Vec<Rcode>) -> (r: Option<usize>)
    ensures
        match r {
            Some(i) => i < rcodes@.len() && rcodes@[i as int] == Rcode::NoError && forall|j: int|
                0 <= j < i ==> rcodes@[j] != Rcode::NoError,
            None => forall|j: int| 0 <= j < rcodes@.len() ==> rcodes@[j] != Rcode::NoError,
        },
{
    let mut i: usize = 0;
    while i < rcodes.len()
        invariant
            i <= rcodes.len(),
            forall|j: int| 0 <= j < i ==> rcodes@[j] != Rcode::NoError,
        decreases rcodes.len() - i,
    {
        if matches!(rcodes[i], Rcode::NoError) {
            return Some(i);
        }
        i += 1;
    }
    None
}

/// The addresses that answered a probe, in their order; all of them where
/// none answered, so that an answer is never emptied.
pub fn reachable_only(addrs: &Vec<IpAddr>, probes: &Vec<Probe>) -> (out: Vec<IpAddr>)
    ensures
        out@ == if any_reachable(addrs@, probes@) {
            addrs@.filter(|ip: IpAddr| rtt_of(probes@, ip).is_some())
        } else {
            addrs@
        },
{
    let mut out: Vec<IpAddr> = Vec::new();
    let mut i: usize = 0;
    let ghost keep = |ip: IpAddr| rtt_of(probes@, ip).is_some();
    proof {
        reveal(Seq::filter);
        assert(addrs@.take(0) =~= Seq::<IpAddr>::empty());
    }
    while i < addrs.len()
        invariant
            i <= addrs.len(),
            keep == (|ip: IpAddr| rtt_of(probes@, ip).is_some()),
            out@ == addrs@.take(i as int).filter(keep),
            out@.len() == 0 ==> !any_reachable(addrs@.take(i as int), probes@),
            out@.len() > 0 ==> any_reachable(addrs@.take(i as int), probes@),
        decreases addrs.len() - i,
    {
        let ghost before = addrs@.take(i as int);
        let ghost after = addrs@.take(i + 1);
        proof {
            reveal(Seq::filter);
            assert(after.drop_last() =~= before);
            assert(after.last() == addrs@[i as int]);
            assert forall|k: int| 0 <= k < before.len() implies #[trigger] after[k] == before[k] by {}
            if any_reachable(before, probes@) {
                let k = choose|k: int|
                    0 <= k < before.len() && rtt_of(probes@, #[trigger] before[k]).is_some();
                assert(after[k] == before[k]);
            }
        }
        if find_rtt(probes, addrs[i]).is_some() {
            out.push(addrs[i]);
            assert(rtt_of(probes@, after[i as int]).is_some());
        } else {
            proof {
                if any_reachable(after, probes@) {
                    let k = choose|k: int|
                        0 <= k < after.len() && rtt_of(probes@, #[trigger] after[k]).is_some();
                    assert(k < i);
                    assert(before[k] == after[k]);
                }
            }
        }
        i += 1;
    }
    assert(addrs@.take(i as int) =~= addrs@);
    if out.len() == 0 {
        let mut all: Vec<IpAddr> = Vec::new();
        let mut k: usize = 0;
        while k < addrs.len()
            invariant
                k <= addrs.len(),
                all@ == addrs@.take(k as int),
            decreases addrs.len() - k,
        {
            all.push(addrs[k]);
            assert(addrs@.take(k + 1) =~= addrs@.take(k as int).push(addrs@[k as int]));
            k += 1;
        }
        assert(addrs@.take(k as int) =~= addrs@);
        all
    } else {
        out
    }
}

/// The place of an address in the order from fastest to slowest: the time
/// it took to answer, and behind every such time where it did not answer.
pub open spec fn speed_rank(probes: Seq<Probe>, ip: IpAddr) -> int {
    match rtt_of(probes, ip) {
        Some(t) => t as int,
        None => u32::MAX + 1,
    }
}

/// The place of an address in the order from fastest to slowest.
fn rank_of(probes: &Vec<Probe>, ip: IpAddr) -> (r: u64)
    ensures
        r == speed_rank(probes@, ip),
{
    match find_rtt(probes, ip) {
        Some(t) => t as u64,
        None => u32::MAX as u64 + 1,
    }
}

/// An address family.
#[derive(Debug, Clone, Copy, PartialEq, Eq, Hash, Structural)]
pub enum Family {
    V4,
    V6,
}

/// The family whose queries get "no such data" because the other family is
/// the better one. Where both families answered and IPv6 is faster than
/// IPv4 by more than `threshold` milliseconds, IPv4 loses. Otherwise IPv4 is
/// the preferred family, and IPv6 loses if it may be forced out. Where a
/// family did not answer, neither loses.
pub open spec fn dualstack_loser(
    best_v4: Option<u32>,
    best_v6: Option<u32>,
    threshold: u16,
    allow_force_aaaa: bool,
) -> Option<Family> {
    match (best_v4, best_v6) {
        (Some(a), Some(b)) => if a - b > threshold {
            Some(Family::V4)
        } else if allow_force_aaaa {
            Some(Family::V6)
        } else {
            None
        },
        _ => None,
    }
}

/// The family whose queries get "no such data": see `dualstack_loser`.
pub fn pick_loser(
    best_v4: Option<u32>,
    best_v6: Option<u32>,
    threshold: u16,
    allow_force_aaaa: bool,
) -> (r: Option<Family>)
    ensures
        r == dualstack_loser(best_v4, best_v6, threshold, allow_force_aaaa),
{
    match (best_v4, best_v6) {
        (Some(a), Some(b)) => if a > b && a - b > threshold as u32 {
            Some(Family::V4)
        } else if allow_force_aaaa {
            Some(Family::V6)
        } else {
            None
        },
        _ => None,
    }
}

/// The name of the group of the upstream servers that are in no other group
/// only.
pub open spec fn default_group() -> Seq<u8> {
    kw("default")
}

/// The group of upstream servers that resolves a query: the one that the
/// rule of the domain names, else the one that the rule of the client
/// names, else the default group.
pub fn select_group(rule_group: Option<&Vec<u8>>, client_group: Option<&Vec<u8>>) -> (out: Vec<u8>)
    ensures
        out@ == match (rule_group, client_group) {
            (Some(g), _) => g@,
            (None, Some(g)) => g@,
            (None, None) => default_group(),
        },
{
    match (rule_group, client_group) {
        (Some(g), _) => vstd::slice::slice_to_vec(g.as_slice()),
        (None, Some(g)) => vstd::slice::slice_to_vec(g.as_slice()),
        (None, None) => keyword("default"),
    }
}

/// Most aliases that are followed for one query.
pub const MAX_CNAME_CHAIN: usize = 16;

/// Whether the alias `target` may be followed: fewer than sixteen aliases
/// were followed for the query so far, and `target` is none of the names
/// that the query has been at.
pub open spec fn can_follow(visited: Seq<Name>, target: Seq<Seq<u8>>) -> bool {
    visited.len() < MAX_CNAME_CHAIN && forall|i: int|
        0 <= i < visited.len() ==> (#[trigger] visited[i])@ != target
}

/// Whether the alias `target` may be followed: fewer than sixteen aliases
/// were followed for the query so far, and `target` is none of the names
/// that the query has been at.
pub fn may_follow(visited: &Vec<Name>, target: &Name) -> (r: bool)
    ensures
        r == can_follow(visited@, target@),
{
    if visited.len() >= MAX_CNAME_CHAIN {
        return false;
    }
    let mut i: usize = 0;
    while i < visited.len()
        invariant
            i <= visited.len(),
            forall|k: int| 0 <= k < i ==> (#[trigger] visited@[k])@ != target@,
        decreases visited.len() - i,
    {
        if visited[i].same_as(target) {
            return false;
        }
        i += 1;
    }
    true
}

/// Milliseconds to wait before the try with the number `attempt`, counted
/// from 0: a hundred before the first retry, twice as long before each
/// further one, and never more than four hundred.
pub fn backoff_ms(attempt: u32) -> (ms: u64)
    ensures
        ms == if attempt == 0 {
            0u64
        } else if attempt == 1 {
            100u64
        } else if attempt == 2 {
            200u64
        } else {
            400u64
        },
{
    if attempt == 0 {
        0
    } else if attempt == 1 {
        100
    } else if attempt == 2 {
        200
    } else {
        400
    }
}

/// Milliseconds after the first good answer for which further answers are
/// still gathered.
pub const GATHER_WINDOW_MS: u64 = 1000;

/// Whether an answer that arrived at `arrival` is still gathered for the
/// choice by probing: it arrived no later than a second after the first
/// good answer, which arrived at `first`, and no later than the deadline of
/// the query. Times are milliseconds since the query was sent.
pub fn in_gather_window(arrival: u64, first: u64, deadline: u64) -> (r: bool)
    ensures
        r == (arrival <= first + GATHER_WINDOW_MS && arrival <= deadline),
{
    arrival <= deadline && (arrival <= first || arrival - first <= GATHER_WINDOW_MS)
}

/// Seconds for which the outcome of a probe is used again.
pub const PROBE_LIFETIME: u64 = 120;

/// Whether the outcome of a probe made at the second `measured_at` is
/// still used at the second `now`: it is no older than two minutes.
pub fn probe_is_current(measured_at: u64, now: u64) -> (r: bool)
    ensures
        r == (now - measured_at <= PROBE_LIFETIME),
{
    now <= measured_at || now - measured_at <= PROBE_LIFETIME
}

/// The place of the rule that serves the client at `ip`: the first rule, in
/// the order of the configuration, whose block holds the address.
pub fn match_client(rules: &Vec<crate::config::item::ClientRule>, ip: IpAddr) -> (r: Option<usize>)
    ensures
        match r {
            Some(i) => {
                &&& i < rules@.len()
                &&& in_any(ip, seq![rules@[i as int].client@])
                &&& forall|j: int| 0 <= j < i ==> !in_any(ip, seq![(#[trigger] rules@[j]).client@])
            },
            None => forall|j: int|
                0 <= j < rules@.len() ==> !in_any(ip, seq![(#[trigger] rules@[j]).client@]),
        },
{
    let mut i: usize = 0;
    while i < rules.len()
        invariant
            i <= rules.len(),
            forall|j: int| 0 <= j < i ==> !in_any(ip, seq![(#[trigger] rules@[j]).client@]),
        decreases rules.len() - i,
    {
        let hit = rules[i].client.contains(ip);
        proof {
            let one = seq![rules@[i as int].client@];
            if hit {
                assert(one[0] == rules@[i as int].client@);
            } else {
                assert forall|k: int| 0 <= k < one.len() implies !(#[trigger] one[k] matches IpOrSetSpec::Net(
                    n,
                ) && n.spec_contains(ip)) by {
                    assert(one[k] == rules@[i as int].client@);
                }
            }
        }
        if hit {
            return Some(i);
        }
        i += 1;
    }
    None
}

/// The client subnet that is sent to the upstream servers with a query: the
/// one of the rule of the domain, else the one configured for the resolver,
/// else the one that the client sent along.
pub fn select_subnet(
    rule: Option<crate::ip::IpNet>,
    global: Option<crate::ip::IpNet>,
    request: Option<crate::ip::IpNet>,
) -> (out: Option<crate::ip::IpNet>)
    ensures
        out == match (rule, global) {
            (Some(n), _) => Some(n),
            (None, Some(n)) => Some(n),
            (None, None) => request,
        },
{
    match (rule, global) {
        (Some(n), _) => Some(n),
        (None, Some(n)) => Some(n),
        (None, None) => request,
    }
}

/// Why an exchange with an upstream server gave no answer.
#[derive(Debug, Clone, Copy, PartialEq, Eq, Hash, Structural)]
pub enum ResolveError {
    Timeout,
    NoConnection,
    Protocol,
    NoRecordsFound,
    Refused,
    ServFail,
    Io,
}

/// How a failed query ends for the client: "no such name" where no records
/// were found, "refused" where the server refused, and a server failure for
/// everything else.
pub fn rcode_of(err: ResolveError) -> (code: Rcode)
    ensures
        code == match err {
            ResolveError::NoRecordsFound => Rcode::NxDomain,
            ResolveError::Refused => Rcode::Refused,
            _ => Rcode::ServFail,
        },
{
    match err {
        ResolveError::NoRecordsFound => Rcode::NxDomain,
        ResolveError::Refused => Rcode::Refused,
        _ => Rcode::ServFail,
    }
}

/// How the run of the resolver ended.
#[derive(Debug, Clone, Copy, PartialEq, Eq, Hash, Structural)]
pub enum Outcome {
    Success,
    /// The configuration could not be read.
    ConfigError,
    /// The resolver could not go on, as when an address cannot be
    /// listened on.
    RuntimeFatal,
    /// An interrupt from the keyboard ended the run.
    Interrupted,
}

/// The exit code of the process for an outcome of the run.
pub fn exit_code(outcome: Outcome) -> (code: i32)
    ensures
        code == match outcome {
            Outcome::Success => 0i32,
            Outcome::ConfigError => 1i32,
            Outcome::RuntimeFatal => 2i32,
            Outcome::Interrupted => 130i32,
        },
{
    match outcome {
        Outcome::Success => 0,
        Outcome::ConfigError => 1,
        Outcome::RuntimeFatal => 2,
        Outcome::Interrupted => 130,
    }
}

} // verus!
