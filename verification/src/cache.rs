//! The answer cache: times to live, what counts as fresh and as stale, and
//! a store of bounded size that gives up the entry used longest ago.

use crate::name::Name;
use vstd::prelude::*;

verus! {

/// Seconds for which an answer served past its time to live is handed out,
/// where no other number is set.
pub const DEFAULT_SERVE_EXPIRED_REPLY_TTL: u64 = 5;

/// The time to live of a record as it is stored: no less than `min` and no
/// more than `max`, where these are set; if the two cross, `max` wins.
pub open spec fn clamp_ttl(ttl: u64, min: Option<u64>, max: Option<u64>) -> u64 {
    let raised = match min {
        Some(lo) => if ttl < lo {
            lo
        } else {
            ttl
        },
        None => ttl,
    };
    match max {
        Some(hi) => if raised > hi {
            hi
        } else {
            raised
        },
        None => raised,
    }
}

/// The time to live of a record as it is sent in a reply: no more than
/// `reply_max`, where that is set.
pub open spec fn reply_ttl(ttl: u64, reply_max: Option<u64>) -> u64 {
    match reply_max {
        Some(hi) => if ttl > hi {
            hi
        } else {
            ttl
        },
        None => ttl,
    }
}

/// The limits on times to live.
#[derive(Debug, Clone, Copy, PartialEq, Eq, Hash, Structural)]
pub struct TtlPolicy {
    /// Least time to live of a stored record.
    pub rr_ttl_min: Option<u64>,
    /// Greatest time to live of a stored record.
    pub rr_ttl_max: Option<u64>,
    /// Greatest time to live of a record in a reply.
    pub rr_ttl_reply_max: Option<u64>,
}

impl TtlPolicy {
    /// The limits that hold under a rule: each limit that the rule sets
    /// takes the place of the resolver-wide one.
    pub fn under_rule(
        &self,
        rr_ttl_min: Option<u64>,
        rr_ttl_max: Option<u64>,
        rr_ttl_reply_max: Option<u64>,
    ) -> (out: TtlPolicy)
        ensures
            out.rr_ttl_min == if rr_ttl_min.is_some() {
                rr_ttl_min
            } else {
                self.rr_ttl_min
            },
            out.rr_ttl_max == if rr_ttl_max.is_some() {
                rr_ttl_max
            } else {
                self.rr_ttl_max
            },
            out.rr_ttl_reply_max == if rr_ttl_reply_max.is_some() {
                rr_ttl_reply_max
            } else {
                self.rr_ttl_reply_max
            },
    {
        TtlPolicy {
            rr_ttl_min: if rr_ttl_min.is_some() {
                rr_ttl_min
            } else {
                self.rr_ttl_min
            },
            rr_ttl_max: if rr_ttl_max.is_some() {
                rr_ttl_max
            } else {
                self.rr_ttl_max
            },
            rr_ttl_reply_max: if rr_ttl_reply_max.is_some() {
                rr_ttl_reply_max
            } else {
                self.rr_ttl_reply_max
            },
        }
    }

    /// The time to live with which a record is stored.
    pub fn for_insert(&self, ttl: u64) -> (out: u64)
        ensures
            out == clamp_ttl(ttl, self.rr_ttl_min, self.rr_ttl_max),
            self.rr_ttl_max matches Some(hi) ==> out <= hi,
            self.rr_ttl_min matches Some(lo) ==> (self.rr_ttl_max matches Some(hi) ==> lo <= hi)
                ==> out >= lo,
    {
        let raised = match self.rr_ttl_min {
            Some(lo) => if ttl < lo {
                lo
            } else {
                ttl
            },
            None => ttl,
        };
        match self.rr_ttl_max {
            Some(hi) => if raised > hi {
                hi
            } else {
                raised
            },
            None => raised,
        }
    }

    /// The time to live with which a record is sent in a reply.
    pub fn for_reply(&self, ttl: u64) -> (out: u64)
        ensures
            out == reply_ttl(ttl, self.rr_ttl_reply_max),
            out <= ttl,
            self.rr_ttl_reply_max matches Some(hi) ==> out <= hi,
    {
        match self.rr_ttl_reply_max {
            Some(hi) => if ttl > hi {
                hi
            } else {
                ttl
            },
            None => ttl,
        }
    }

    /// The times to live of a reply, each capped as `for_reply` caps it.
    pub fn cap_reply(&self, ttls: &mut Vec<u64>)
        ensures
            final(ttls)@.len() == old(ttls)@.len(),
            forall|i: int|
                0 <= i < old(ttls)@.len() ==> final(ttls)@[i] == reply_ttl(
                    #[trigger] old(ttls)@[i],
                    self.rr_ttl_reply_max,
                ),
            self.rr_ttl_reply_max matches Some(hi) ==> forall|i: int|
                0 <= i < final(ttls)@.len() ==> #[trigger] final(ttls)@[i] <= hi,
    {
        let mut i: usize = 0;
        while i < ttls.len()
            invariant
                i <= ttls.len(),
                ttls@.len() == old(ttls)@.len(),
                forall|k: int|
                    0 <= k < i ==> ttls@[k] == reply_ttl(
                        #[trigger] old(ttls)@[k],
                        self.rr_ttl_reply_max,
                    ),
                forall|k: int| i <= k < ttls@.len() ==> ttls@[k] == old(ttls)@[k],
            decreases ttls.len() - i,
        {
            let capped = self.for_reply(ttls[i]);
            ttls.set(i, capped);
            i += 1;
        }
        assert forall|k: int| 0 <= k < ttls@.len() implies #[trigger] ttls@[k] == reply_ttl(
            old(ttls)@[k],
            self.rr_ttl_reply_max,
        ) by {}
    }
}

/// How old an entry is at `now`: the seconds since it was stored, and none
/// where the clock stands before that moment.
pub open spec fn age(stored_at: u64, now: u64) -> u64 {
    if now >= stored_at {
        (now - stored_at) as u64
    } else {
        0
    }
}

/// Whether an entry is fresh at `now`: no older than its time to live.
pub open spec fn is_fresh(stored_at: u64, ttl: u32, now: u64) -> bool {
    age(stored_at, now) <= ttl
}

/// When answers past their time to live are served, and when entries are
/// refreshed ahead of time.
#[derive(Debug, Clone, Copy, PartialEq, Eq, Hash, Structural)]
pub struct ServePolicy {
    /// Whether answers past their time to live are served at all.
    pub serve_expired: bool,
    /// Greatest age, in seconds, at which such an answer is still served.
    pub serve_expired_ttl: u64,
    /// Time to live with which such an answer is sent.
    pub serve_expired_reply_ttl: u64,
    /// Whether an entry near the end of its time to live is refreshed when
    /// it is served.
    pub prefetch: bool,
}

/// What the cache has for a query.
#[derive(Debug, Clone, Copy, PartialEq, Eq, Hash, Structural)]
pub enum Verdict {
    /// A fresh entry, to be sent with the time to live that it has left;
    /// `refresh` asks for a refresh in the background.
    Fresh { ttl: u64, refresh: bool },
    /// An entry past its time to live that is still served, with the time
    /// to live for such answers; a refresh in the background is due.
    Stale { ttl: u64 },
    /// Nothing that can be served.
    Expired,
}

/// What the cache has for a query, given when the entry was stored and its
/// time to live. A fresh entry is served with the time it has left, and
/// asks for a refresh if refreshing ahead is on and no more than a tenth of
/// its time to live is left. An entry that is not fresh is served if serving
/// past the time to live is on and the entry is no older than that allows.
pub open spec fn verdict(stored_at: u64, ttl: u32, now: u64, policy: ServePolicy) -> Verdict {
    let a = age(stored_at, now);
    if a <= ttl {
        let left = (ttl - a) as u64;
        Verdict::Fresh { ttl: left, refresh: policy.prefetch && left <= ttl / 10 }
    } else if policy.serve_expired && a <= policy.serve_expired_ttl {
        Verdict::Stale { ttl: policy.serve_expired_reply_ttl }
    } else {
        Verdict::Expired
    }
}

/// What the cache has for a query: see `verdict`.
pub fn judge(stored_at: u64, ttl: u32, now: u64, policy: &ServePolicy) -> (v: Verdict)
    ensures
        v == verdict(stored_at, ttl, now, *policy),
        v is Fresh <==> is_fresh(stored_at, ttl, now),
{
    let a = if now >= stored_at {
        now - stored_at
    } else {
        0
    };
    if a <= ttl as u64 {
        let left = ttl as u64 - a;
        Verdict::Fresh { ttl: left, refresh: policy.prefetch && left <= (ttl / 10) as u64 }
    } else if policy.serve_expired && a <= policy.serve_expired_ttl {
        Verdict::Stale { ttl: policy.serve_expired_reply_ttl }
    } else {
        Verdict::Expired
    }
}

/// The time to live of an answer that says "no such name" or "no such
/// data": the least time to live that the start-of-authority record of the
/// answer names, within the limits for stored records.
pub fn negative_ttl(soa_minimum: u32, policy: &TtlPolicy) -> (out: u64)
    ensures
        out == clamp_ttl(soa_minimum as u64, policy.rr_ttl_min, policy.rr_ttl_max),
{
    policy.for_insert(soa_minimum as u64)
}

/// What a query asks for.
#[derive(Debug, PartialEq, Eq, Hash)]
pub struct CacheKey {
    pub name: Name,
    pub qtype: u16,
    pub qclass: u16,
}

/// The mathematical content of a `CacheKey`.
pub struct KeySpec {
    pub name: Seq<Seq<u8>>,
    pub qtype: u16,
    pub qclass: u16,
}

impl View for CacheKey {
    type V = KeySpec;

    open spec fn view(&self) -> KeySpec {
        KeySpec { name: self.name@, qtype: self.qtype, qclass: self.qclass }
    }
}

impl Clone for CacheKey {
    fn clone(&self) -> (out: Self)
        ensures
            out@ == self@,
    {
        CacheKey { name: self.name.clone(), qtype: self.qtype, qclass: self.qclass }
    }
}

impl CacheKey {
    /// Whether the two keys ask for the same.
    pub fn same_as(&self, other: &CacheKey) -> (r: bool)
        ensures
            r == (self@ == other@),
    {
        self.qtype == other.qtype && self.qclass == other.qclass && self.name.same_as(&other.name)
    }
}

/// Where a cached answer came from.
#[derive(Debug, Clone, Copy, PartialEq, Eq, Hash, Structural)]
pub enum Source {
    Upstream,
    Static,
    Synthesized,
}

/// An answer in the cache.
#[derive(Debug)]
pub struct CachedEntry<T> {
    pub key: CacheKey,
    pub value: T,
    /// The second at which the answer was stored.
    pub stored_at: u64,
    /// The time to live with which it was stored, in seconds.
    pub original_ttl: u32,
    /// How often it has been served.
    pub hit_count: u64,
    pub source: Source,
}

/// The mathematical content of a `CachedEntry`.
pub struct EntrySpec<T> {
    pub key: KeySpec,
    pub value: T,
    pub stored_at: u64,
    pub original_ttl: u32,
    pub hit_count: u64,
    pub source: Source,
}

impl<T> View for CachedEntry<T> {
    type V = EntrySpec<T>;

    open spec fn view(&self) -> EntrySpec<T> {
        EntrySpec {
            key: self.key@,
            value: self.value,
            stored_at: self.stored_at,
            original_ttl: self.original_ttl,
            hit_count: self.hit_count,
            source: self.source,
        }
    }
}

/// The place of the entry for `key`, if there is one.
pub open spec fn place_of<T>(entries: Seq<EntrySpec<T>>, key: KeySpec) -> Option<int> {
    if exists|i: int| 0 <= i < entries.len() && (#[trigger] entries[i]).key == key {
        Some(choose|i: int| 0 <= i < entries.len() && (#[trigger] entries[i]).key == key)
    } else {
        None
    }
}

/// No key stands in the list twice.
pub open spec fn distinct_keys<T>(entries: Seq<EntrySpec<T>>) -> bool {
    forall|i: int, j: int|
        0 <= i < j < entries.len() ==> (#[trigger] entries[i]).key != (#[trigger] entries[j]).key
}

/// The entries without the one for `key`.
pub open spec fn without<T>(entries: Seq<EntrySpec<T>>, key: KeySpec) -> Seq<EntrySpec<T>> {
    match place_of(entries, key) {
        Some(i) => entries.remove(i),
        None => entries,
    }
}

/// The entries with room made for one more: where `capacity` entries are
/// held, the one used longest ago, which stands first, is given up.
pub open spec fn with_room<T>(entries: Seq<EntrySpec<T>>, capacity: nat) -> Seq<EntrySpec<T>> {
    if entries.len() >= capacity && entries.len() > 0 {
        entries.skip(1)
    } else {
        entries
    }
}

/// The entries after `entry` is stored: an older entry for its key is
/// dropped, room is made, and the entry stands last as the one used most
/// recently. A cache without capacity stores nothing.
pub open spec fn stored<T>(entries: Seq<EntrySpec<T>>, capacity: nat, entry: EntrySpec<T>) -> Seq<
    EntrySpec<T>,
> {
    if capacity == 0 {
        entries
    } else {
        with_room(without(entries, entry.key), capacity).push(entry)
    }
}

/// The entries after the one at place `i` is served: it has one more hit,
/// and it stands last as the one used most recently.
pub open spec fn served<T>(entries: Seq<EntrySpec<T>>, i: int) -> Seq<EntrySpec<T>> {
    entries.remove(i).push(
        EntrySpec {
            hit_count: if entries[i].hit_count < u64::MAX {
                (entries[i].hit_count + 1) as u64
            } else {
                entries[i].hit_count
            },
            ..entries[i]
        },
    )
}

/// Where keys differ from place to place, the place of a key is the one
/// place where it stands.
pub proof fn lemma_place_of<T>(entries: Seq<EntrySpec<T>>, i: int)
    requires
        distinct_keys(entries),
        0 <= i < entries.len(),
    ensures
        place_of(entries, entries[i].key) == Some(i),
{
    let j = choose|j: int| 0 <= j < entries.len() && (#[trigger] entries[j]).key == entries[i].key;
    if j < i {
        assert(entries[j].key != entries[i].key);
    } else if i < j {
        assert(entries[i].key != entries[j].key);
    }
}

/// What is stored is found: after an entry is stored in a cache with
/// capacity, the cache holds that entry for its key, and keys still differ
/// from place to place.
pub proof fn lemma_stored_is_found<T>(
    entries: Seq<EntrySpec<T>>,
    capacity: nat,
    entry: EntrySpec<T>,
)
    requires
        distinct_keys(entries),
        entries.len() <= capacity,
        capacity > 0,
    ensures
        ({
            let after = stored(entries, capacity, entry);
            &&& distinct_keys(after)
            &&& after.len() <= capacity
            &&& place_of(after, entry.key) == Some(after.len() - 1)
            &&& after[after.len() - 1] == entry
        }),
{
    let cleared = without(entries, entry.key);
    lemma_without(entries, entry.key);
    let room = with_room(cleared, capacity);
    let after = room.push(entry);
    assert forall|i: int, j: int| 0 <= i < j < after.len() implies (#[trigger] after[i]).key != (
    #[trigger] after[j]).key by {
        let off = cleared.len() - room.len();
        assert(after[i] == cleared[i + off]);
        if j < after.len() - 1 {
            assert(after[j] == cleared[j + off]);
        }
    }
    lemma_place_of(after, after.len() - 1);
}

/// Dropping the entry for a key leaves the other entries as they are, in
/// their order, and none for that key.
pub proof fn lemma_without<T>(entries: Seq<EntrySpec<T>>, key: KeySpec)
    requires
        distinct_keys(entries),
    ensures
        distinct_keys(without(entries, key)),
        without(entries, key).len() <= entries.len(),
        forall|i: int|
            0 <= i < without(entries, key).len() ==> (#[trigger] without(entries, key)[i]).key
                != key,
        forall|i: int|
            0 <= i < without(entries, key).len() ==> entries.contains(
                #[trigger] without(entries, key)[i],
            ),
{
    let out = without(entries, key);
    match place_of(entries, key) {
        Some(p) => {
            assert forall|i: int| 0 <= i < out.len() implies (#[trigger] out[i]).key != key
                && entries.contains(out[i]) by {
                let k = if i < p {
                    i
                } else {
                    i + 1
                };
                assert(out[i] == entries[k]);
                if k < p {
                    assert(entries[k].key != entries[p].key);
                } else {
                    assert(entries[p].key != entries[k].key);
                }
            }
            assert forall|i: int, j: int| 0 <= i < j < out.len() implies (#[trigger] out[i]).key
                != (#[trigger] out[j]).key by {
                let a = if i < p {
                    i
                } else {
                    i + 1
                };
                let b = if j < p {
                    j
                } else {
                    j + 1
                };
                assert(out[i] == entries[a]);
                assert(out[j] == entries[b]);
            }
        },
        None => {
            assert forall|i: int| 0 <= i < out.len() implies (#[trigger] out[i]).key != key by {}
        },
    }
}

/// Storing an entry leaves the entries for other keys alone: what the cache
/// holds for another key afterwards is what it held for it before.
pub proof fn lemma_stored_keeps_others<T>(
    entries: Seq<EntrySpec<T>>,
    capacity: nat,
    entry: EntrySpec<T>,
    key: KeySpec,
)
    requires
        distinct_keys(entries),
        entries.len() <= capacity,
        key != entry.key,
    ensures
        ({
            let after = stored(entries, capacity, entry);
            place_of(after, key) matches Some(j) ==> place_of(entries, key) matches Some(i)
                && after[j] == entries[i]
        }),
{
    let after = stored(entries, capacity, entry);
    if capacity > 0 {
        lemma_stored_is_found(entries, capacity, entry);
        lemma_without(entries, entry.key);
        let cleared = without(entries, entry.key);
        let room = with_room(cleared, capacity);
        if let Some(j) = place_of(after, key) {
            assert(after[j].key == key);
            assert(j < after.len() - 1);
            let off = cleared.len() - room.len();
            assert(after[j] == cleared[j + off]);
            assert(entries.contains(cleared[j + off]));
            let i = choose|i: int| 0 <= i < entries.len() && entries[i] == cleared[j + off];
            lemma_place_of(entries, i);
        }
    }
}

/// A hit is the last insert: right after an entry is stored, and for as
/// long as it is fresh, the cache holds that entry for its key, and the
/// verdict on it is that it is fresh.
pub proof fn lemma_hit_is_last_insert<T>(
    entries: Seq<EntrySpec<T>>,
    capacity: nat,
    entry: EntrySpec<T>,
    now: u64,
    policy: ServePolicy,
)
    requires
        distinct_keys(entries),
        entries.len() <= capacity,
        capacity > 0,
        is_fresh(entry.stored_at, entry.original_ttl, now),
    ensures
        ({
            let after = stored(entries, capacity, entry);
            &&& place_of(after, entry.key) matches Some(i)
            &&& after[i] == entry
            &&& verdict(after[i].stored_at, after[i].original_ttl, now, policy) is Fresh
        }),
{
    lemma_stored_is_found(entries, capacity, entry);
}

/// Serving an entry changes no answer: afterwards the cache holds for each
/// key the value, the moment of storing and the time to live that it held
/// for it before.
pub proof fn lemma_served_keeps_answers<T>(entries: Seq<EntrySpec<T>>, i: int, key: KeySpec)
    requires
        distinct_keys(entries),
        0 <= i < entries.len(),
    ensures
        ({
            let after = served(entries, i);
            &&& distinct_keys(after)
            &&& after.len() == entries.len()
            &&& place_of(entries, key) matches Some(a) ==> place_of(after, key) matches Some(b)
                && after[b].value == entries[a].value && after[b].stored_at == entries[a].stored_at
                && after[b].original_ttl == entries[a].original_ttl
            &&& place_of(entries, key).is_none() ==> place_of(after, key).is_none()
        }),
{
    let after = served(entries, i);
    assert forall|a: int, b: int| 0 <= a < b < after.len() implies (#[trigger] after[a]).key != (
    #[trigger] after[b]).key by {
        let x = if a < i {
            a
        } else {
            a + 1
        };
        assert(after[a] == entries[x]);
        if b < after.len() - 1 {
            let y = if b < i {
                b
            } else {
                b + 1
            };
            assert(after[b] == entries[y]);
        } else {
            if x < i {
                assert(entries[x].key != entries[i].key);
            } else {
                assert(entries[i].key != entries[x].key);
            }
        }
    }
    match place_of(entries, key) {
        Some(a) => {
            let b = if a == i {
                after.len() - 1
            } else if a < i {
                a
            } else {
                a - 1
            };
            assert(after[b].key == key);
            lemma_place_of(after, b);
        },
        None => {
            if let Some(b) = place_of(after, key) {
                let x = if b == after.len() - 1 {
                    i
                } else if b < i {
                    b
                } else {
                    b + 1
                };
                assert(entries[x].key == key);
            }
        },
    }
}

/// A store of answers of bounded size.
pub struct Cache<T> {
    entries: Vec<CachedEntry<T>>,
    capacity: usize,
}

impl<T> Cache<T> {
    /// The entries, the one used longest ago first.
    pub closed spec fn entries(&self) -> Seq<EntrySpec<T>> {
        Seq::new(self.entries@.len(), |i: int| self.entries@[i]@)
    }

    /// Largest number of entries that the cache holds.
    pub closed spec fn capacity(&self) -> nat {
        self.capacity as nat
    }

    #[verifier::type_invariant]
    spec fn well_formed(&self) -> bool {
        distinct_keys(self.entries()) && self.entries@.len() <= self.capacity
    }

    /// The empty cache that holds up to `capacity` entries.
    pub fn new(capacity: usize) -> (out: Self)
        ensures
            out.entries() == Seq::<EntrySpec<T>>::empty(),
            out.capacity() == capacity,
    {
        let out = Cache { entries: Vec::new(), capacity };
        assert(out.entries() =~= Seq::<EntrySpec<T>>::empty());
        out
    }

    /// Number of entries.
    pub fn len(&self) -> (n: usize)
        ensures
            n == self.entries().len(),
            n <= self.capacity(),
            distinct_keys(self.entries()),
    {
        proof {
            use_type_invariant(self);
        }
        self.entries.len()
    }

    /// The place of the entry for `key`, if there is one.
    pub fn find(&self, key: &CacheKey) -> (at: Option<usize>)
        ensures
            match at {
                Some(i) => place_of(self.entries(), key@) == Some(i as int) && i
                    < self.entries().len(),
                None => place_of(self.entries(), key@).is_none(),
            },
    {
        proof {
            use_type_invariant(self);
        }
        let mut i: usize = 0;
        while i < self.entries.len()
            invariant
                i <= self.entries.len(),
                distinct_keys(self.entries()),
                forall|k: int| 0 <= k < i ==> (#[trigger] self.entries()[k]).key != key@,
            decreases self.entries.len() - i,
        {
            if self.entries[i].key.same_as(key) {
                proof {
                    assert(self.entries()[i as int].key == key@);
                    lemma_place_of(self.entries(), i as int);
                }
                return Some(i);
            }
            i += 1;
        }
        None
    }

    /// The entry at place `i`.
    pub fn entry(&self, i: usize) -> (e: &CachedEntry<T>)
        requires
            i < self.entries().len(),
        ensures
            e@ == self.entries()[i as int],
    {
        &self.entries[i]
    }

    /// Stores an answer for `key` as the entry used most recently. An older
    /// entry for the key is dropped; where the cache is full, the entry used
    /// longest ago is given up.
    pub fn insert(
        &mut self,
        key: CacheKey,
        value: T,
        ttl: u32,
        now: u64,
        source: Source,
    )
        ensures
            final(self).capacity() == old(self).capacity(),
            final(self).entries() == stored(
                old(self).entries(),
                old(self).capacity(),
                EntrySpec {
                    key: key@,
                    value,
                    stored_at: now,
                    original_ttl: ttl,
                    hit_count: 0,
                    source,
                },
            ),
    {
        proof {
            use_type_invariant(&*self);
        }
        let ghost before = self.entries();
        let ghost e = EntrySpec {
            key: key@,
            value,
            stored_at: now,
            original_ttl: ttl,
            hit_count: 0,
            source,
        };
        if self.capacity == 0 {
            return ;
        }
        proof {
            lemma_stored_is_found(before, self.capacity as nat, e);
        }
        let at = self.find(&key);
        let mut entries: Vec<CachedEntry<T>> = Vec::new();
        core::mem::swap(&mut entries, &mut self.entries);
        if let Some(i) = at {
            entries.remove(i);
        }
        let ghost cleared = Seq::new(entries@.len(), |i: int| entries@[i]@);
        assert(cleared =~= without(before, key@));
        if entries.len() >= self.capacity {
            entries.remove(0);
        }
        let ghost room = Seq::new(entries@.len(), |i: int| entries@[i]@);
        assert(room =~= with_room(cleared, self.capacity as nat));
        entries.push(
            CachedEntry { key, value, stored_at: now, original_ttl: ttl, hit_count: 0, source },
        );
        let ghost after = Seq::new(entries@.len(), |i: int| entries@[i]@);
        assert(after =~= room.push(e));
        self.entries = entries;
        assert(self.entries() =~= after);
    }

    /// Marks the entry at place `i` as served just now: it has one more hit
    /// and becomes the entry used most recently, at the last place.
    pub fn touch(&mut self, i: usize) -> (at: usize)
        requires
            i < old(self).entries().len(),
        ensures
            final(self).capacity() == old(self).capacity(),
            final(self).entries() == served(old(self).entries(), i as int),
            at == final(self).entries().len() - 1,
    {
        proof {
            use_type_invariant(&*self);
        }
        let ghost before = self.entries();
        let mut entries: Vec<CachedEntry<T>> = Vec::new();
        core::mem::swap(&mut entries, &mut self.entries);
        let mut entry = entries.remove(i);
        if entry.hit_count < u64::MAX {
            entry.hit_count = entry.hit_count + 1;
        }
        let ghost moved = entry@;
        entries.push(entry);
        let ghost after = Seq::new(entries@.len(), |k: int| entries@[k]@);
        proof {
            assert(after =~= served(before, i as int));
            assert forall|a: int, b: int| 0 <= a < b < after.len() implies (#[trigger] after[a]).key
                != (#[trigger] after[b]).key by {
                let x = if a < i {
                    a
                } else {
                    a + 1
                };
                assert(after[a] == before[x]);
                if b < after.len() - 1 {
                    let y = if b < i {
                        b
                    } else {
                        b + 1
                    };
                    assert(after[b] == before[y]);
                } else {
                    assert(after[b].key == before[i as int].key);
                    if x < i {
                        assert(before[x].key != before[i as int].key);
                    } else {
                        assert(before[i as int].key != before[x].key);
                    }
                }
            }
        }
        let at = entries.len() - 1;
        self.entries = entries;
        assert(self.entries() =~= after);
        at
    }

    /// Looks `key` up at the second `now`. Where the cache has an entry for
    /// it that can be served, fresh or stale, the entry is marked as served
    /// and its new place is returned with the verdict; otherwise the cache
    /// stays as it is.
    pub fn lookup(&mut self, key: &CacheKey, now: u64, policy: &ServePolicy) -> (r: (
        Verdict,
        Option<usize>,
    ))
        ensures
            final(self).capacity() == old(self).capacity(),
            match place_of(old(self).entries(), key@) {
                Some(i) => {
                    let e = old(self).entries()[i];
                    let v = verdict(e.stored_at, e.original_ttl, now, *policy);
                    &&& r.0 == v
                    &&& if v is Expired {
                        r.1.is_none() && final(self).entries() == old(self).entries()
                    } else {
                        &&& final(self).entries() == served(old(self).entries(), i)
                        &&& r.1 == Some((final(self).entries().len() - 1) as usize)
                        &&& final(self).entries().last().value == e.value
                    }
                },
                None => r.0 is Expired && r.1.is_none() && final(self).entries() == old(
                    self,
                ).entries(),
            },
    {
        match self.find(key) {
            Some(i) => {
                let e = &self.entries[i];
                assert(e@ == self.entries()[i as int]);
                let v = judge(e.stored_at, e.original_ttl, now, policy);
                match v {
                    Verdict::Expired => (v, None),
                    _ => {
                        let at = self.touch(i);
                        (v, Some(at))
                    },
                }
            },
            None => (Verdict::Expired, None),
        }
    }

    /// The places of the entries that are fresh at `now`, in the order of
    /// the entries.
    pub fn fresh_places(&self, now: u64) -> (out: Vec<usize>)
        ensures
            forall|k: int|
                0 <= k < out@.len() ==> (#[trigger] out@[k]) < self.entries().len() && is_fresh(
                    self.entries()[out@[k] as int].stored_at,
                    self.entries()[out@[k] as int].original_ttl,
                    now,
                ),
            forall|i: int|
                0 <= i < self.entries().len() && is_fresh(
                    (#[trigger] self.entries()[i]).stored_at,
                    self.entries()[i].original_ttl,
                    now,
                ) ==> out@.contains(i as usize),
            forall|a: int, b: int| 0 <= a < b < out@.len() ==> out@[a] < out@[b],
    {
        let mut out: Vec<usize> = Vec::new();
        let mut i: usize = 0;
        while i < self.entries.len()
            invariant
                i <= self.entries.len(),
                forall|k: int|
                    0 <= k < out@.len() ==> (#[trigger] out@[k]) < i && is_fresh(
                        self.entries()[out@[k] as int].stored_at,
                        self.entries()[out@[k] as int].original_ttl,
                        now,
                    ),
                forall|j: int|
                    0 <= j < i && is_fresh(
                        (#[trigger] self.entries()[j]).stored_at,
                        self.entries()[j].original_ttl,
                        now,
                    ) ==> out@.contains(j as usize),
                forall|a: int, b: int| 0 <= a < b < out@.len() ==> out@[a] < out@[b],
            decreases self.entries.len() - i,
        {
            let e = &self.entries[i];
            assert(e@ == self.entries()[i as int]);
            let a = if now >= e.stored_at {
                now - e.stored_at
            } else {
                0
            };
            let ghost before = out@;
            if a <= e.original_ttl as u64 {
                out.push(i);
                assert(out@[out@.len() - 1] == i);
                assert forall|j: int|
                    0 <= j < i + 1 && is_fresh(
                        (#[trigger] self.entries()[j]).stored_at,
                        self.entries()[j].original_ttl,
                        now,
                    ) implies out@.contains(j as usize) by {
                    if j < i {
                        assert(before.contains(j as usize));
                        let k = choose|k: int| 0 <= k < before.len() && before[k] == j as usize;
                        assert(out@[k] == j as usize);
                    }
                }
            }
            i += 1;
        }
        out
    }
}

} // verus!
