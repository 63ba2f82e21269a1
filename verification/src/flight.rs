//! One exchange for many askers: the table of the queries that are being
//! resolved, by which all who ask for the same thing at the same time share
//! one exchange with the upstream servers.

use crate::cache::{CacheKey, KeySpec};
use vstd::prelude::*;

verus! {

/// What an asker does about a query that the cache cannot answer.
#[derive(Debug, Clone, Copy, PartialEq, Eq, Hash, Structural)]
pub enum Role {
    /// It resolves the query with the upstream servers.
    Leader,
    /// It waits for the answer of the asker that does.
    Follower,
}

/// The role of an asker that joins while the queries of `keys` are being
/// resolved: it leads if nobody resolves its query yet.
pub open spec fn role_of(keys: Set<KeySpec>, key: KeySpec) -> Role {
    if keys.contains(key) {
        Role::Follower
    } else {
        Role::Leader
    }
}

/// Number of leaders among `n` askers that join for `key` one after
/// another, none of them done yet, while the queries of `keys` are being
/// resolved.
pub open spec fn leaders(keys: Set<KeySpec>, key: KeySpec, n: nat) -> nat
    decreases n,
{
    if n == 0 {
        0
    } else {
        let first: nat = if role_of(keys, key) is Leader {
            1
        } else {
            0
        };
        first + leaders(keys.insert(key), key, (n - 1) as nat)
    }
}

/// Of any number of askers that join for a query which nobody resolves
/// yet, exactly one leads; of askers that join for a query which is being
/// resolved, none does.
pub proof fn lemma_single_flight(keys: Set<KeySpec>, key: KeySpec, n: nat)
    ensures
        keys.contains(key) ==> leaders(keys, key, n) == 0,
        !keys.contains(key) && n >= 1 ==> leaders(keys, key, n) == 1,
    decreases n,
{
    if n > 0 {
        lemma_single_flight(keys.insert(key), key, (n - 1) as nat);
    }
}

/// The queries that are being resolved.
pub struct InFlight {
    keys: Vec<CacheKey>,
}

impl InFlight {
    /// The queries that are being resolved.
    pub closed spec fn keys(&self) -> Set<KeySpec> {
        Set::new(|k: KeySpec| exists|i: int| 0 <= i < self.keys@.len() && (#[trigger] self.keys@[i])@ == k)
    }

    #[verifier::type_invariant]
    spec fn well_formed(&self) -> bool {
        forall|i: int, j: int|
            0 <= i < j < self.keys@.len() ==> (#[trigger] self.keys@[i])@ != (#[trigger] self.keys@[j])@
    }

    /// The table while nothing is being resolved.
    pub fn new() -> (out: Self)
        ensures
            out.keys() == Set::<KeySpec>::empty(),
    {
        let out = InFlight { keys: Vec::new() };
        assert(out.keys() =~= Set::<KeySpec>::empty());
        out
    }

    /// The place of `key` in the table, if it is there.
    fn position(&self, key: &CacheKey) -> (at: Option<usize>)
        ensures
            at.is_some() == self.keys().contains(key@),
            at matches Some(i) ==> i < self.keys@.len() && self.keys@[i as int]@ == key@,
    {
        let mut i: usize = 0;
        while i < self.keys.len()
            invariant
                i <= self.keys.len(),
                forall|k: int| 0 <= k < i ==> (#[trigger] self.keys@[k])@ != key@,
            decreases self.keys.len() - i,
        {
            if self.keys[i].same_as(key) {
                return Some(i);
            }
            i += 1;
        }
        None
    }

    /// Whether the query is being resolved.
    pub fn contains(&self, key: &CacheKey) -> (r: bool)
        ensures
            r == self.keys().contains(key@),
    {
        self.position(key).is_some()
    }

    /// Joins an asker for `key`: it leads if nobody resolves the query yet,
    /// and from then on the query is being resolved.
    pub fn join(&mut self, key: &CacheKey) -> (role: Role)
        ensures
            role == role_of(old(self).keys(), key@),
            final(self).keys() == old(self).keys().insert(key@),
    {
        proof {
            use_type_invariant(&*self);
        }
        let ghost before = self.keys();
        match self.position(key) {
            Some(_) => {
                assert(self.keys() =~= before.insert(key@));
                Role::Follower
            },
            None => {
                let ghost old_keys = self.keys@;
                let mut keys: Vec<CacheKey> = Vec::new();
                core::mem::swap(&mut keys, &mut self.keys);
                keys.push(key.clone());
                self.keys = keys;
                proof {
                    assert forall|k: KeySpec| self.keys().contains(k) == before.insert(
                        key@,
                    ).contains(k) by {
                        if before.contains(k) {
                            let i = choose|i: int|
                                0 <= i < old_keys.len() && (#[trigger] old_keys[i])@ == k;
                            assert(self.keys@[i]@ == k);
                        }
                        if k == key@ {
                            assert(self.keys@[self.keys@.len() - 1]@ == k);
                        }
                        if self.keys().contains(k) {
                            let i = choose|i: int|
                                0 <= i < self.keys@.len() && (#[trigger] self.keys@[i])@ == k;
                            if i < old_keys.len() {
                                assert(old_keys[i]@ == k);
                            }
                        }
                    }
                    assert(self.keys() =~= before.insert(key@));
                }
                Role::Leader
            },
        }
    }

    /// Marks the query as resolved: whoever asks for it next leads again.
    pub fn finish(&mut self, key: &CacheKey)
        ensures
            final(self).keys() == old(self).keys().remove(key@),
    {
        proof {
            use_type_invariant(&*self);
        }
        let ghost before = self.keys();
        let ghost old_keys = self.keys@;
        match self.position(key) {
            Some(i) => {
                let mut keys: Vec<CacheKey> = Vec::new();
                core::mem::swap(&mut keys, &mut self.keys);
                keys.remove(i);
                proof {
                    assert forall|a: int, b: int| 0 <= a < b < keys@.len() implies (
                    #[trigger] keys@[a])@ != (#[trigger] keys@[b])@ by {
                        let x = if a < i {
                            a
                        } else {
                            a + 1
                        };
                        let y = if b < i {
                            b
                        } else {
                            b + 1
                        };
                        assert(keys@[a] == old_keys[x]);
                        assert(keys@[b] == old_keys[y]);
                    }
                }
                self.keys = keys;
                proof {
                    assert forall|k: KeySpec| self.keys().contains(k) == before.remove(
                        key@,
                    ).contains(k) by {
                        if before.contains(k) && k != key@ {
                            let j = choose|j: int|
                                0 <= j < old_keys.len() && (#[trigger] old_keys[j])@ == k;
                            let t = if j < i {
                                j
                            } else {
                                j - 1
                            };
                            assert(self.keys@[t] == old_keys[j]);
                            assert(self.keys@[t]@ == k);
                        }
                        if self.keys().contains(k) {
                            let t = choose|t: int|
                                0 <= t < self.keys@.len() && (#[trigger] self.keys@[t])@ == k;
                            let j = if t < i {
                                t
                            } else {
                                t + 1
                            };
                            assert(self.keys@[t] == old_keys[j]);
                            assert(old_keys[j]@ == k);
                            if j < i {
                                assert(old_keys[j]@ != old_keys[i as int]@);
                            } else {
                                assert(old_keys[i as int]@ != old_keys[j]@);
                            }
                        }
                    }
                    assert(self.keys() =~= before.remove(key@));
                }
            },
            None => {
                assert(self.keys() =~= before.remove(key@));
            },
        }
    }
}

} // verus!
