//! The rule table: values attached to domain patterns, and the search for
//! the value that weighs most for a name.

use crate::config::domain::{NamePattern, WildcardName};
use crate::config::rule::{DomainRule, DomainRuleSpec};
use crate::name::{is_zone_of, lemma_order_of_zones, Name};
use vstd::prelude::*;

verus! {

/// Whether the pattern at `i` is chosen over the one at `j`: the more
/// specific kind wins (the domain alone, then a glob, then all below, then
/// the domain with all below); within a kind the deeper domain wins; and of
/// two that are still level, the one configured later.
pub open spec fn prefers(patterns: Seq<NamePattern>, i: int, j: int) -> bool {
    let a = patterns[i];
    let b = patterns[j];
    ||| a.rank() < b.rank()
    ||| a.rank() == b.rank() && a.domain().len() > b.domain().len()
    ||| a.rank() == b.rank() && a.domain().len() == b.domain().len() && i >= j
}

/// Whether `i` is the place of the pattern that is chosen for `name` among
/// the patterns before `end`: it covers the name, and it is chosen over
/// every other pattern there that covers the name.
pub open spec fn is_choice_among(
    patterns: Seq<NamePattern>,
    name: Seq<Seq<u8>>,
    end: int,
    i: int,
) -> bool {
    &&& 0 <= i < end
    &&& patterns[i].matches(name)
    &&& forall|j: int| 0 <= j < end && (#[trigger] patterns[j]).matches(name) ==> prefers(patterns, i, j)
}

/// Whether `i` is the place of the pattern that is chosen for `name`.
pub open spec fn is_choice(patterns: Seq<NamePattern>, name: Seq<Seq<u8>>, i: int) -> bool {
    is_choice_among(patterns, name, patterns.len() as int, i)
}

/// Whether no pattern covers `name`.
pub open spec fn none_matches(patterns: Seq<NamePattern>, name: Seq<Seq<u8>>) -> bool {
    forall|j: int| 0 <= j < patterns.len() ==> !(#[trigger] patterns[j]).matches(name)
}

/// At most one place is the choice for a name.
pub proof fn lemma_choice_is_unique(
    patterns: Seq<NamePattern>,
    name: Seq<Seq<u8>>,
    i: int,
    j: int,
)
    requires
        is_choice(patterns, name, i),
        is_choice(patterns, name, j),
    ensures
        i == j,
{
    assert(prefers(patterns, i, j));
    assert(prefers(patterns, j, i));
}

/// The domain of a pattern that covers a name is that name or an ancestor
/// of it.
pub proof fn lemma_match_is_zone(p: NamePattern, name: Seq<Seq<u8>>)
    requires
        p.matches(name),
    ensures
        is_zone_of(p.domain(), name),
{
    match p {
        NamePattern::Default(d) => {},
        NamePattern::Suffix(d) => {},
        NamePattern::Sub(_, d) => {
            assert(name.skip(name.len() - d.len()) =~= name.skip(1));
        },
        NamePattern::Full(d) => {
            assert(name.skip(0) =~= name);
        },
    }
}

/// The chosen pattern is greatest in the order of patterns among the
/// patterns that cover the name and are of its kind, and among those of
/// another kind that lie less deep. (A covering pattern of another kind
/// that lies as deep or deeper comes later in the order of patterns, for
/// that order goes by the domain first; the choice goes by the kind first.)
pub proof fn lemma_choice_is_greatest(patterns: Seq<NamePattern>, name: Seq<Seq<u8>>, i: int)
    requires
        is_choice(patterns, name, i),
    ensures
        forall|j: int|
            0 <= j < patterns.len() && (#[trigger] patterns[j]).matches(name) && (patterns[j].rank()
                == patterns[i].rank() || patterns[j].domain().len() < patterns[i].domain().len())
                ==> patterns[j].order(patterns[i]) <= 0,
{
    assert forall|j: int|
        0 <= j < patterns.len() && (#[trigger] patterns[j]).matches(name) && (patterns[j].rank()
            == patterns[i].rank() || patterns[j].domain().len()
            < patterns[i].domain().len()) implies patterns[j].order(patterns[i]) <= 0 by {
        lemma_match_is_zone(patterns[i], name);
        lemma_match_is_zone(patterns[j], name);
        lemma_order_of_zones(patterns[j].domain(), patterns[i].domain(), name);
        assert(prefers(patterns, i, j));
    }
}

/// Values attached to domain patterns, in the order in which they were
/// configured. No pattern stands in the table twice.
pub struct RuleTable<T> {
    entries: Vec<(WildcardName, T)>,
}

impl<T> RuleTable<T> {
    /// The patterns of the table, in the order in which they were configured.
    pub closed spec fn patterns(&self) -> Seq<NamePattern> {
        Seq::new(self.entries@.len(), |i: int| self.entries@[i].0@)
    }

    /// The values of the table, each at the place of its pattern.
    pub closed spec fn values(&self) -> Seq<T> {
        Seq::new(self.entries@.len(), |i: int| self.entries@[i].1)
    }

    /// No pattern stands in the list twice.
    pub open spec fn distinct(patterns: Seq<NamePattern>) -> bool {
        forall|i: int, j: int|
            0 <= i < j < patterns.len() ==> #[trigger] patterns[i] != #[trigger] patterns[j]
    }

    #[verifier::type_invariant]
    spec fn well_formed(&self) -> bool {
        Self::distinct(self.patterns())
    }

    /// The table without entries.
    pub fn new() -> (out: Self)
        ensures
            out.patterns() == Seq::<NamePattern>::empty(),
            out.values() == Seq::<T>::empty(),
    {
        let out = RuleTable { entries: Vec::new() };
        assert(out.patterns() =~= Seq::<NamePattern>::empty());
        assert(out.values() =~= Seq::<T>::empty());
        out
    }

    /// Number of entries.
    pub fn len(&self) -> (n: usize)
        ensures
            n == self.patterns().len(),
            n == self.values().len(),
            Self::distinct(self.patterns()),
    {
        proof {
            use_type_invariant(self);
        }
        self.entries.len()
    }

    /// The place of the entry whose pattern is `pattern`, if there is one.
    pub fn position(&self, pattern: &WildcardName) -> (at: Option<usize>)
        ensures
            match at {
                Some(i) => i < self.patterns().len() && self.patterns()[i as int] == pattern@,
                None => !self.patterns().contains(pattern@),
            },
    {
        let mut i: usize = 0;
        while i < self.entries.len()
            invariant
                i <= self.entries.len(),
                forall|k: int| 0 <= k < i ==> self.patterns()[k] != pattern@,
            decreases self.entries.len() - i,
        {
            if same_pattern(&self.entries[i].0, pattern) {
                return Some(i);
            }
            i += 1;
        }
        None
    }

    /// Attaches `value` to `pattern` as the entry configured last. An entry
    /// that the pattern already had leaves the table, and its value is
    /// returned.
    pub fn insert(&mut self, pattern: WildcardName, value: T) -> (replaced: Option<T>)
        ensures
            match old(self).patterns().index_of_first(pattern@) {
                Some(i) => {
                    &&& replaced == Some(old(self).values()[i])
                    &&& final(self).patterns() == old(self).patterns().remove(i).push(pattern@)
                    &&& final(self).values() == old(self).values().remove(i).push(value)
                },
                None => {
                    &&& replaced.is_none()
                    &&& final(self).patterns() == old(self).patterns().push(pattern@)
                    &&& final(self).values() == old(self).values().push(value)
                },
            },
    {
        proof {
            use_type_invariant(&*self);
        }
        let ghost before = self.patterns();
        let ghost values = self.values();
        let at = self.position(&pattern);
        proof {
            before.index_of_first_ensures(pattern@);
        }
        let mut entries: Vec<(WildcardName, T)> = Vec::new();
        core::mem::swap(&mut entries, &mut self.entries);
        let replaced = match at {
            Some(i) => {
                assert(before.index_of_first(pattern@) == Some(i as int)) by {
                    let k = before.index_of_first(pattern@).unwrap();
                    if k != i {
                        assert(before[k] == before[i as int]);
                    }
                }
                let gone = entries.remove(i);
                Some(gone.1)
            },
            None => None,
        };
        entries.push((pattern, value));
        let ghost after = Seq::new(entries@.len(), |i: int| entries@[i].0@);
        proof {
            match at {
                Some(i) => {
                    assert(after =~= before.remove(i as int).push(pattern@));
                    assert forall|a: int, b: int| 0 <= a < b < after.len() implies #[trigger] after[a]
                        != #[trigger] after[b] by {
                        let x = if a < i { a } else { a + 1 };
                        if b < after.len() - 1 {
                            let y = if b < i { b } else { b + 1 };
                            assert(after[a] == before[x]);
                            assert(after[b] == before[y]);
                        } else {
                            assert(after[a] == before[x]);
                            assert(before[i as int] == pattern@);
                            if before[x] == pattern@ {
                                if x < i {
                                    assert(before[x] != before[i as int]);
                                } else {
                                    assert(before[i as int] != before[x]);
                                }
                            }
                        }
                    }
                },
                None => {
                    assert(after =~= before.push(pattern@));
                    assert forall|a: int, b: int| 0 <= a < b < after.len() implies #[trigger] after[a]
                        != #[trigger] after[b] by {
                        if b == after.len() - 1 {
                            assert(before[a] != pattern@) by {
                                assert(before.contains(before[a]));
                            }
                        } else {
                            assert(after[a] == before[a]);
                            assert(after[b] == before[b]);
                        }
                    }
                },
            }
        }
        self.entries = entries;
        proof {
            assert(self.patterns() =~= after);
            match at {
                Some(i) => {
                    assert(self.values() =~= values.remove(i as int).push(value));
                },
                None => {
                    assert(self.values() =~= values.push(value));
                },
            }
        }
        replaced
    }

    /// The place of the entry that is chosen for `name`: of the entries whose
    /// pattern covers the name, the one of the most specific kind, then of
    /// the deepest domain, then the one configured last. `None` where no
    /// pattern covers the name.
    pub fn find(&self, name: &Name) -> (at: Option<usize>)
        ensures
            match at {
                Some(i) => is_choice(self.patterns(), name@, i as int),
                None => none_matches(self.patterns(), name@),
            },
    {
        let mut best: Option<usize> = None;
        let mut i: usize = 0;
        let ghost patterns = self.patterns();
        while i < self.entries.len()
            invariant
                i <= self.entries.len(),
                patterns == self.patterns(),
                patterns.len() == self.entries.len(),
                match best {
                    Some(b) => is_choice_among(patterns, name@, i as int, b as int),
                    None => forall|j: int| 0 <= j < i ==> !(#[trigger] patterns[j]).matches(name@),
                },
            decreases self.entries.len() - i,
        {
            let pattern = &self.entries[i].0;
            assert(pattern@ == patterns[i as int]);
            if pattern.is_match(name) {
                match best {
                    None => {
                        best = Some(i);
                    },
                    Some(b) => {
                        let held = &self.entries[b].0;
                        assert(held@ == patterns[b as int]);
                        let take = pattern.rank() < held.rank() || (pattern.rank() == held.rank()
                            && pattern.name().num_labels() >= held.name().num_labels());
                        if take {
                            best = Some(i);
                        }
                    },
                }
            }
            i += 1;
        }
        best
    }

    /// The value that is chosen for `name`: see `find`.
    pub fn lookup(&self, name: &Name) -> (value: Option<&T>)
        ensures
            match value {
                Some(v) => exists|i: int|
                    is_choice(self.patterns(), name@, i) && *v == self.values()[i],
                None => none_matches(self.patterns(), name@),
            },
    {
        match self.find(name) {
            Some(i) => {
                assert(self.values()[i as int] == self.entries@[i as int].1);
                Some(&self.entries[i].1)
            },
            None => None,
        }
    }

    /// The pattern and the value at place `i`.
    pub fn get(&self, i: usize) -> (entry: (&WildcardName, &T))
        requires
            i < self.patterns().len(),
        ensures
            entry.0@ == self.patterns()[i as int],
            *entry.1 == self.values()[i as int],
    {
        (&self.entries[i].0, &self.entries[i].1)
    }
}

/// Whether `places` lists the places of the patterns that cover `name`
/// among the first `end` patterns, each once, the least preferred first.
pub open spec fn is_ranking(
    patterns: Seq<NamePattern>,
    name: Seq<Seq<u8>>,
    end: int,
    places: Seq<usize>,
) -> bool {
    &&& forall|k: int|
        0 <= k < places.len() ==> (#[trigger] places[k]) < end && patterns[places[k] as int].matches(
            name,
        )
    &&& forall|i: int|
        0 <= i < end && (#[trigger] patterns[i]).matches(name) ==> places.contains(i as usize)
    &&& is_sorted(patterns, places)
}

/// Whether the places stand each once, the least preferred first.
pub open spec fn is_sorted(patterns: Seq<NamePattern>, places: Seq<usize>) -> bool {
    forall|a: int, b: int|
        0 <= a < b < places.len() ==> places[a] != places[b] && prefers(
            patterns,
            #[trigger] places[b] as int,
            #[trigger] places[a] as int,
        )
}

/// Two lists that hold the same places, each once and the least preferred
/// first, are one list.
pub proof fn lemma_sorted_is_unique(patterns: Seq<NamePattern>, a: Seq<usize>, b: Seq<usize>)
    requires
        is_sorted(patterns, a),
        is_sorted(patterns, b),
        forall|x: usize| a.contains(x) <==> b.contains(x),
    ensures
        a == b,
    decreases a.len(),
{
    if a.len() == 0 {
        if b.len() > 0 {
            assert(b.contains(b[0]));
        }
        assert(a =~= b);
    } else {
        let top = a.last();
        assert(a.contains(top));
        let k = choose|k: int| 0 <= k < b.len() && b[k] == top;
        let other = b.last();
        assert(b.contains(other));
        let m = choose|m: int| 0 <= m < a.len() && a[m] == other;
        if k < b.len() - 1 {
            // `other` is preferred to `top` in `b`, and not in `a`
            assert(prefers(patterns, b[b.len() - 1] as int, b[k] as int));
            assert(b[b.len() - 1] != b[k]);
            assert(m < a.len() - 1);
            assert(prefers(patterns, a[a.len() - 1] as int, a[m] as int));
        }
        assert(other == top);
        let a2 = a.drop_last();
        let b2 = b.drop_last();
        assert forall|x: usize| a2.contains(x) <==> b2.contains(x) by {
            if a2.contains(x) {
                let i = choose|i: int| 0 <= i < a2.len() && a2[i] == x;
                assert(a[i] == x);
                assert(a[i] != a[a.len() - 1]);
                assert(a.contains(x));
                let j = choose|j: int| 0 <= j < b.len() && b[j] == x;
                assert(b2[j] == x);
            }
            if b2.contains(x) {
                let j = choose|j: int| 0 <= j < b2.len() && b2[j] == x;
                assert(b[j] == x);
                assert(b[j] != b[b.len() - 1]);
                assert(b.contains(x));
                let i = choose|i: int| 0 <= i < a.len() && a[i] == x;
                assert(a2[i] == x);
            }
        }
        assert(is_sorted(patterns, a2)) by {
            assert forall|x: int, y: int| 0 <= x < y < a2.len() implies a2[x] != a2[y] && prefers(
                patterns,
                #[trigger] a2[y] as int,
                #[trigger] a2[x] as int,
            ) by {
                assert(a2[x] == a[x] && a2[y] == a[y]);
            }
        }
        assert(is_sorted(patterns, b2)) by {
            assert forall|x: int, y: int| 0 <= x < y < b2.len() implies b2[x] != b2[y] && prefers(
                patterns,
                #[trigger] b2[y] as int,
                #[trigger] b2[x] as int,
            ) by {
                assert(b2[x] == b[x] && b2[y] == b[y]);
            }
        }
        lemma_sorted_is_unique(patterns, a2, b2);
        assert(a =~= a2.push(top));
        assert(b =~= b2.push(other));
    }
}

/// There is one ranking of the patterns that cover a name.
pub proof fn lemma_ranking_is_unique(
    patterns: Seq<NamePattern>,
    name: Seq<Seq<u8>>,
    end: int,
    a: Seq<usize>,
    b: Seq<usize>,
)
    requires
        is_ranking(patterns, name, end, a),
        is_ranking(patterns, name, end, b),
    ensures
        a == b,
{
    assert forall|x: usize| a.contains(x) <==> b.contains(x) by {
        if a.contains(x) {
            let i = choose|i: int| 0 <= i < a.len() && a[i] == x;
            assert(a[i] < end && patterns[a[i] as int].matches(name));
            assert(b.contains(x as int as usize));
        }
        if b.contains(x) {
            let i = choose|i: int| 0 <= i < b.len() && b[i] == x;
            assert(b[i] < end && patterns[b[i] as int].matches(name));
            assert(a.contains(x as int as usize));
        }
    }
    lemma_sorted_is_unique(patterns, a, b);
}

/// The rule that the rules at `places` make when each is laid over those
/// before it.
pub open spec fn merged(rules: Seq<DomainRuleSpec>, places: Seq<usize>) -> DomainRuleSpec
    decreases places.len(),
{
    if places.len() == 0 {
        DomainRuleSpec::empty()
    } else {
        merged(rules, places.drop_last()).merge(rules[places.last() as int])
    }
}

/// The views of a list of rules.
pub open spec fn rules_view(v: Seq<DomainRule>) -> Seq<DomainRuleSpec> {
    Seq::new(v.len(), |i: int| v[i]@)
}

impl<T> RuleTable<T> {
    /// The places of the entries whose pattern covers `name`, the least
    /// preferred first and the chosen one last.
    #[verifier::rlimit(60)]
    #[verifier::spinoff_prover]
    pub fn ranking(&self, name: &Name) -> (places: Vec<usize>)
        ensures
            is_ranking(self.patterns(), name@, self.patterns().len() as int, places@),
    {
        let mut places: Vec<usize> = Vec::new();
        let mut i: usize = 0;
        let ghost patterns = self.patterns();
        while i < self.entries.len()
            invariant
                i <= self.entries.len(),
                patterns == self.patterns(),
                patterns.len() == self.entries.len(),
                is_ranking(patterns, name@, i as int, places@),
            decreases self.entries.len() - i,
        {
            let pattern = &self.entries[i].0;
            assert(pattern@ == patterns[i as int]);
            let ghost before = places@;
            if pattern.is_match(name) {
                let mut p: usize = 0;
                while p < places.len() && self.beats(i, places[p])
                    invariant
                        p <= places.len(),
                        i < self.entries.len(),
                        patterns == self.patterns(),
                        patterns.len() == self.entries.len(),
                        places@ == before,
                        is_ranking(patterns, name@, i as int, places@),
                        forall|a: int|
                            0 <= a < p ==> prefers(patterns, i as int, #[trigger] places@[a] as int),
                    decreases places.len() - p,
                {
                    p += 1;
                }
                places.insert(p, i);
                proof {
                    let after = places@;
                    assert forall|k: int| 0 <= k < after.len() implies (#[trigger] after[k]) < i + 1
                        && patterns[after[k] as int].matches(name@) by {
                        if k < p {
                            assert(after[k] == before[k]);
                        } else if k > p {
                            assert(after[k] == before[k - 1]);
                        }
                    }
                    assert forall|j: int|
                        0 <= j < i + 1 && (#[trigger] patterns[j]).matches(name@) implies after.contains(
                        j as usize,
                    ) by {
                        if j == i {
                            assert(after[p as int] == i);
                        } else {
                            assert(before.contains(j as usize));
                            let k = choose|k: int| 0 <= k < before.len() && before[k] == j as usize;
                            if k < p {
                                assert(after[k] == before[k]);
                            } else {
                                assert(after[k + 1] == before[k]);
                            }
                        }
                    }
                    assert forall|a: int, b: int| 0 <= a < b < after.len() implies after[a]
                        != after[b] && prefers(
                        patterns,
                        #[trigger] after[b] as int,
                        #[trigger] after[a] as int,
                    ) by {
                        let x = if a < p {
                            a
                        } else {
                            a - 1
                        };
                        let y = if b < p {
                            b
                        } else {
                            b - 1
                        };
                        if a != p {
                            assert(after[a] == before[x]);
                        }
                        if b != p {
                            assert(after[b] == before[y]);
                        }
                        if a == p && y > p {
                            // what stands behind the new place is preferred to what stood there
                            assert(prefers(patterns, before[y] as int, before[p as int] as int));
                        }
                    }
                }
            } else {
                proof {
                    assert forall|j: int|
                        0 <= j < i + 1 && (#[trigger] patterns[j]).matches(name@) implies places@.contains(
                        j as usize,
                    ) by {}
                }
            }
            i += 1;
        }
        places
    }

    /// Whether the entry at place `i` is preferred to the one at place `j`.
    fn beats(&self, i: usize, j: usize) -> (r: bool)
        requires
            i < self.patterns().len(),
            j < self.patterns().len(),
        ensures
            r == prefers(self.patterns(), i as int, j as int),
    {
        let a = &self.entries[i].0;
        let b = &self.entries[j].0;
        assert(a@ == self.patterns()[i as int]);
        assert(b@ == self.patterns()[j as int]);
        let (ra, rb) = (a.rank(), b.rank());
        let (da, db) = (a.name().num_labels(), b.name().num_labels());
        ra < rb || (ra == rb && da > db) || (ra == rb && da == db && i >= j)
    }
}

/// The patterns and rules of a table after `rule` is attached to
/// `pattern`: a rule that the pattern already had is laid under the new
/// one, and the pattern becomes the one configured last.
pub open spec fn attached(
    patterns: Seq<NamePattern>,
    rules: Seq<DomainRuleSpec>,
    pattern: NamePattern,
    rule: DomainRuleSpec,
) -> (Seq<NamePattern>, Seq<DomainRuleSpec>) {
    match patterns.index_of_first(pattern) {
        Some(i) => (patterns.remove(i).push(pattern), rules.remove(i).push(rules[i].merge(rule))),
        None => (patterns.push(pattern), rules.push(rule)),
    }
}

/// The patterns and rules of a table after `rule` is attached to each of
/// the patterns of a set, in their order.
pub open spec fn attached_all(
    patterns: Seq<NamePattern>,
    rules: Seq<DomainRuleSpec>,
    set: Seq<NamePattern>,
    rule: DomainRuleSpec,
) -> (Seq<NamePattern>, Seq<DomainRuleSpec>)
    decreases set.len(),
{
    if set.len() == 0 {
        (patterns, rules)
    } else {
        let (p, r) = attached_all(patterns, rules, set.drop_last(), rule);
        attached(p, r, set.last(), rule)
    }
}

/// The views of a list of patterns.
pub open spec fn patterns_view(v: Seq<WildcardName>) -> Seq<NamePattern> {
    Seq::new(v.len(), |i: int| v[i]@)
}

impl RuleTable<DomainRule> {
    /// Attaches a rule to a pattern. Where the pattern has a rule already,
    /// the new rule is laid over it: it adds its policies and overrides
    /// those that both set.
    pub fn attach(&mut self, pattern: WildcardName, rule: DomainRule)
        ensures
            (final(self).patterns(), rules_view(final(self).values())) == attached(
                old(self).patterns(),
                rules_view(old(self).values()),
                pattern@,
                rule@,
            ),
    {
        let ghost before = self.patterns();
        let ghost rules = rules_view(self.values());
        let held = self.len();
        proof {
            before.index_of_first_ensures(pattern@);
        }
        let rule = match self.position(&pattern) {
            Some(i) => {
                proof {
                    let k = before.index_of_first(pattern@).unwrap();
                    if k != i {
                        if k < i {
                            assert(before[k] != before[i as int]);
                        } else {
                            assert(before[i as int] != before[k]);
                        }
                    }
                }
                let (_, old_rule) = self.get(i);
                assert(old_rule@ == rules[i as int]);
                DomainRule::merge(old_rule, &rule)
            },
            None => rule,
        };
        let ghost laid = rule@;
        self.insert(pattern, rule);
        proof {
            match before.index_of_first(pattern@) {
                Some(i) => {
                    assert(rules_view(self.values()) =~= rules.remove(i).push(laid));
                },
                None => {
                    assert(rules_view(self.values()) =~= rules.push(laid));
                },
            }
        }
    }

    /// Attaches a rule to each pattern of a set of domains, in their order.
    pub fn attach_set(&mut self, set: &Vec<WildcardName>, rule: &DomainRule)
        ensures
            (final(self).patterns(), rules_view(final(self).values())) == attached_all(
                old(self).patterns(),
                rules_view(old(self).values()),
                patterns_view(set@),
                rule@,
            ),
    {
        let ghost all = patterns_view(set@);
        let mut i: usize = 0;
        assert(all.take(0) =~= Seq::<NamePattern>::empty());
        while i < set.len()
            invariant
                i <= set.len(),
                all == patterns_view(set@),
                (self.patterns(), rules_view(self.values())) == attached_all(
                    old(self).patterns(),
                    rules_view(old(self).values()),
                    all.take(i as int),
                    rule@,
                ),
            decreases set.len() - i,
        {
            proof {
                let upto = all.take(i + 1);
                assert(upto.drop_last() =~= all.take(i as int));
                assert(upto.last() == set@[i as int]@);
            }
            self.attach(set[i].clone(), rule.clone());
            i += 1;
        }
        assert(all.take(i as int) =~= all);
    }

    /// The rule in force for `name`: the rules whose pattern covers the
    /// name, each laid over the less preferred ones, so that a policy comes
    /// from the most preferred rule that sets it. `None` where no pattern
    /// covers the name.
    pub fn effective(&self, name: &Name) -> (out: Option<DomainRule>)
        ensures
            match out {
                Some(r) => exists|places: Seq<usize>|
                    #[trigger] is_ranking(
                        self.patterns(),
                        name@,
                        self.patterns().len() as int,
                        places,
                    ) && places.len() > 0 && r@ == merged(rules_view(self.values()), places),
                None => none_matches(self.patterns(), name@),
            },
    {
        let places = self.ranking(name);
        if places.len() == 0 {
            proof {
                assert forall|j: int| 0 <= j < self.patterns().len() implies !(
                #[trigger] self.patterns()[j]).matches(name@) by {
                    if self.patterns()[j].matches(name@) {
                        assert(places@.contains(j as usize));
                    }
                }
            }
            return None;
        }
        let ghost rules = rules_view(self.values());
        let mut rule = DomainRule::default();
        let mut k: usize = 0;
        assert(places@.take(0) =~= Seq::<usize>::empty());
        while k < places.len()
            invariant
                k <= places.len(),
                rules == rules_view(self.values()),
                is_ranking(self.patterns(), name@, self.patterns().len() as int, places@),
                rule@ == merged(rules, places@.take(k as int)),
            decreases places.len() - k,
        {
            let at = places[k];
            assert(at < self.patterns().len());
            let held = self.len();
            let (_, value) = self.get(at);
            proof {
                let upto = places@.take(k + 1);
                assert(upto.drop_last() =~= places@.take(k as int));
                assert(upto.last() == at);
                assert(rules[at as int] == value@);
            }
            rule = DomainRule::merge(&rule, value);
            k += 1;
        }
        assert(places@.take(k as int) =~= places@);
        Some(rule)
    }
}

/// Whether two patterns are the same: same kind, same glob, same domain.
pub fn same_pattern(a: &WildcardName, b: &WildcardName) -> (r: bool)
    ensures
        r == (a@ == b@),
{
    match (a, b) {
        (WildcardName::Default(x), WildcardName::Default(y)) => x.same_as(y),
        (WildcardName::Suffix(x), WildcardName::Suffix(y)) => x.same_as(y),
        (WildcardName::Full(x), WildcardName::Full(y)) => x.same_as(y),
        (WildcardName::Sub(v, x), WildcardName::Sub(w, y)) => {
            crate::text::bytes_eq(v.pattern(), w.pattern()) && x.same_as(y)
        },
        _ => false,
    }
}

} // verus!
