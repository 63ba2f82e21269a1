//! Domain patterns: the four ways a rule can name the domains it covers.

use crate::name::{
    is_label_byte, is_name, is_zone_of, labels_text, lemma_labels_text_lowered,
    lemma_parse_labels_of_text, lemma_parse_name_of_text, name_order, name_text, parent,
    parse_labels_spec, parse_name_spec, Name, MAX_LABEL_LEN,
};
use crate::text::{
    field_len, kw, lemma_kw, has_prefix, is_free_of, is_set_name, is_set_name_byte, check_set_name,
    keyword, lemma_field_len_is, lower, lowered, push_bytes, starts_with, to_lowered, BACKSLASH,
    DOT, MINUS, PLUS, QUESTION, STAR, UNDERSCORE,
};
use std::cmp::Ordering;
use vstd::prelude::*;
use vstd::string::StringSliceAdditionalSpecFns;

verus! {

/// A byte that a glob reads as itself only after a backslash.
pub open spec fn is_special(b: u8) -> bool {
    b == STAR || b == QUESTION || b == BACKSLASH
}

/// Position of the first backslash at or after `from` that is not followed by
/// `*`, `?` or `\`; `None` if every backslash is.
pub open spec fn first_bad_escape(p: Seq<u8>, from: int) -> Option<int>
    decreases p.len() - from,
{
    if from < 0 || from >= p.len() {
        None
    } else if p[from] != BACKSLASH {
        first_bad_escape(p, from + 1)
    } else if from + 1 < p.len() && is_special(p[from + 1]) {
        first_bad_escape(p, from + 2)
    } else {
        Some(from)
    }
}

/// The glob is well formed: every backslash escapes a special byte.
pub open spec fn is_glob(p: Seq<u8>) -> bool {
    first_bad_escape(p, 0).is_none()
}

/// Whether the glob `p` matches the whole of `s`: `*` stands for any run of
/// bytes, `?` for any one byte, a backslash makes the next byte literal, and
/// letters match without regard to case.
pub open spec fn glob_matches(p: Seq<u8>, s: Seq<u8>) -> bool
    decreases p.len(), s.len(),
{
    if p.len() == 0 {
        s.len() == 0
    } else if p[0] == STAR {
        glob_matches(p.skip(1), s) || (s.len() > 0 && glob_matches(p, s.skip(1)))
    } else if p[0] == QUESTION {
        s.len() > 0 && glob_matches(p.skip(1), s.skip(1))
    } else if p[0] == BACKSLASH && p.len() >= 2 {
        s.len() > 0 && lower(p[1]) == lower(s[0]) && glob_matches(p.skip(2), s.skip(1))
    } else {
        s.len() > 0 && lower(p[0]) == lower(s[0]) && glob_matches(p.skip(1), s.skip(1))
    }
}

/// Whether a rule's glob accepts a label: the empty glob accepts every label,
/// as `*` does.
pub open spec fn glob_accepts(p: Seq<u8>, label: Seq<u8>) -> bool {
    p.len() == 0 || glob_matches(p, label)
}

/// A glob without a backslash is well formed.
pub proof fn lemma_no_backslash_is_glob(p: Seq<u8>, from: int)
    requires
        is_free_of(p, BACKSLASH),
        0 <= from,
    ensures
        first_bad_escape(p, from).is_none(),
    decreases p.len() - from,
{
    if from < p.len() {
        lemma_no_backslash_is_glob(p, from + 1);
    }
}

/// Why a text is not a glob.
#[derive(Debug, Clone, Copy, PartialEq, Eq)]
pub enum WildcardError {
    /// The backslash at `position` escapes nothing that needs escaping.
    Syntax { position: usize },
    /// The special bytes of the glob syntax are not distinct.
    InvalidSpecialSymbols,
}

/// Checks a glob as `wildcard::WildcardBuilder::build` does, with matching
/// set to ignore case. The builder fails exactly on a backslash that is not
/// followed by `*`, `?` or `\`, and reports the position of the first such
/// backslash; with the standard special bytes it reports no other fault.
#[verifier::external_body]
fn check_glob(pattern: &[u8]) -> (r: Result<(), Option<usize>>)
    ensures
        r.is_ok() == is_glob(pattern@),
        r matches Err(e) ==> e matches Some(at) && first_bad_escape(pattern@, 0) == Some(
            at as int,
        ),
{
    match wildcard::WildcardBuilder::new(pattern).case_insensitive(true).build() {
        Ok(_) => Ok(()),
        Err(wildcard::WildcardError::Syntax { position, .. }) => Err(Some(position)),
        Err(wildcard::WildcardError::InvalidSpecialSymbolsConfiguration) => Err(None),
    }
}

/// Matches `input` against a well-formed glob with
/// `wildcard::Wildcard::is_match`, the glob built to ignore case: `*` takes
/// any run of bytes, `?` any one byte, a byte behind a backslash only
/// itself, and any other byte itself in either case of letters.
#[verifier::external_body]
fn glob_is_match(pattern: &[u8], input: &[u8]) -> (r: bool)
    requires
        is_glob(pattern@),
    ensures
        r == glob_matches(pattern@, input@),
{
    match wildcard::WildcardBuilder::new(pattern).case_insensitive(true).build() {
        Ok(glob) => glob.is_match(input),
        Err(_) => false,
    }
}

/// A glob over the bytes of one label.
#[derive(Debug, PartialEq, Eq, Hash)]
pub struct Wildcard {
    pattern: Vec<u8>,
}

impl View for Wildcard {
    type V = Seq<u8>;

    /// The bytes of the glob.
    closed spec fn view(&self) -> Seq<u8> {
        self.pattern@
    }
}

impl Clone for Wildcard {
    fn clone(&self) -> (out: Self)
        ensures
            out@ == self@,
    {
        proof {
            use_type_invariant(self);
        }
        Wildcard { pattern: vstd::slice::slice_to_vec(self.pattern.as_slice()) }
    }
}

impl Default for Wildcard {
    /// The empty glob, which accepts every label.
    fn default() -> (out: Self)
        ensures
            out@ == Seq::<u8>::empty(),
    {
        Wildcard { pattern: Vec::new() }
    }
}

impl Wildcard {
    #[verifier::type_invariant]
    spec fn well_formed(&self) -> bool {
        is_kept_glob(self.pattern@)
    }

    /// Whether the glob accepts `input`; the empty glob accepts everything.
    pub open spec fn accepts(&self, input: Seq<u8>) -> bool {
        glob_accepts(self@, input)
    }

    /// The glob that the given bytes spell, or the reason why they spell
    /// none. A lone `*` spells the empty glob: the two accept the same, and
    /// one glob stands for both.
    pub fn from_bytes(pattern: &[u8]) -> (out: Result<Wildcard, WildcardError>)
        ensures
            out.is_ok() == is_glob(pattern@),
            out matches Ok(w) ==> w@ == glob_of_text(pattern@),
            out matches Err(e) ==> e matches WildcardError::Syntax { position }
                && first_bad_escape(pattern@, 0) == Some(position as int),
    {
        match check_glob(pattern) {
            Ok(()) => {
                if pattern.len() == 1 && pattern[0] == STAR {
                    assert(pattern@ =~= seq![STAR]);
                    Ok(Wildcard { pattern: Vec::new() })
                } else {
                    assert(pattern@ != seq![STAR]) by {
                        if pattern@ == seq![STAR] {
                            assert(pattern@.len() == 1 && pattern@[0] == STAR);
                        }
                    }
                    Ok(Wildcard { pattern: vstd::slice::slice_to_vec(pattern) })
                }
            },
            Err(Some(position)) => Err(WildcardError::Syntax { position }),
            Err(None) => Err(WildcardError::InvalidSpecialSymbols),
        }
    }

    /// The glob that a string spells, or the reason why it spells none.
    pub fn from_str(pattern: &str) -> (out: Result<Wildcard, WildcardError>)
        ensures
            out.is_ok() == is_glob(pattern.spec_bytes()),
            out matches Ok(w) ==> w@ == glob_of_text(pattern.spec_bytes()),
            out matches Err(e) ==> e matches WildcardError::Syntax { position }
                && first_bad_escape(pattern.spec_bytes(), 0) == Some(position as int),
    {
        Wildcard::from_bytes(pattern.as_bytes())
    }

    /// Whether the glob accepts `input`.
    pub fn is_match(&self, input: &[u8]) -> (r: bool)
        ensures
            r == self.accepts(input@),
    {
        proof {
            use_type_invariant(self);
        }
        if self.pattern.len() == 0 {
            true
        } else {
            glob_is_match(self.pattern.as_slice(), input)
        }
    }

    /// The bytes of the glob: well formed, and never a lone `*`.
    pub fn pattern(&self) -> (p: &[u8])
        ensures
            p@ == self@,
            is_kept_glob(self@),
    {
        proof {
            use_type_invariant(self);
        }
        self.pattern.as_slice()
    }

    /// The glob as text: `*` for the empty glob, otherwise its bytes. The
    /// text spells this glob again.
    pub fn to_bytes(&self) -> (out: Vec<u8>)
        ensures
            out@ == glob_text(self@),
            is_kept_glob(self@),
            is_glob(out@),
            glob_of_text(out@) == self@,
    {
        proof {
            use_type_invariant(self);
            lemma_glob_round_trip(self@);
        }
        if self.pattern.len() == 0 {
            let mut out: Vec<u8> = Vec::new();
            out.push(STAR);
            assert(out@ =~= seq![STAR]);
            out
        } else {
            vstd::slice::slice_to_vec(self.pattern.as_slice())
        }
    }
}

/// The glob as text: `*` for the empty glob, otherwise its bytes.
pub open spec fn glob_text(p: Seq<u8>) -> Seq<u8> {
    if p.len() == 0 {
        seq![STAR]
    } else {
        p
    }
}

/// The glob that a well-formed text spells: the empty glob for a lone `*`,
/// otherwise the text itself.
pub open spec fn glob_of_text(s: Seq<u8>) -> Seq<u8> {
    if s == seq![STAR] {
        Seq::empty()
    } else {
        s
    }
}

/// A glob as a value holds it: well formed, and not a lone `*`, in whose
/// place the empty glob stands.
pub open spec fn is_kept_glob(p: Seq<u8>) -> bool {
    is_glob(p) && p != seq![STAR]
}

/// Reading the text of a glob gives the glob back.
pub proof fn lemma_glob_round_trip(p: Seq<u8>)
    requires
        is_kept_glob(p),
    ensures
        is_glob(glob_text(p)),
        glob_of_text(glob_text(p)) == p,
{
    if p.len() == 0 {
        let t = seq![STAR];
        assert(is_free_of(t, BACKSLASH));
        lemma_no_backslash_is_glob(t, 0);
        assert(p =~= Seq::<u8>::empty());
    }
}

/// `*` or `?` occurs in the text.
pub open spec fn has_meta(s: Seq<u8>) -> bool {
    exists|i: int| 0 <= i < s.len() && (#[trigger] s[i] == STAR || s[i] == QUESTION)
}

/// A label-sized glob as a rule can spell it: 1 to 63 bytes, each a label
/// byte, `*` or `?`, and at least one of them `*` or `?`.
pub open spec fn is_glob_label(g: Seq<u8>) -> bool {
    &&& 1 <= g.len() <= MAX_LABEL_LEN
    &&& forall|i: int|
        0 <= i < g.len() ==> is_label_byte(#[trigger] g[i]) || g[i] == STAR || g[i] == QUESTION
    &&& has_meta(g)
}

/// What a domain pattern is: a domain and the way names are held against it.
pub enum NamePattern {
    /// The domain and everything under it.
    Default(Seq<Seq<u8>>),
    /// Everything under the domain, but not the domain.
    Suffix(Seq<Seq<u8>>),
    /// The children of the domain whose leftmost label the glob accepts.
    Sub(Seq<u8>, Seq<Seq<u8>>),
    /// The domain alone.
    Full(Seq<Seq<u8>>),
}

impl NamePattern {
    /// The domain that the pattern is written over.
    pub open spec fn domain(self) -> Seq<Seq<u8>> {
        match self {
            NamePattern::Default(d) => d,
            NamePattern::Suffix(d) => d,
            NamePattern::Sub(_, d) => d,
            NamePattern::Full(d) => d,
        }
    }

    /// Rank of the kind of pattern, the most specific kind lowest.
    pub open spec fn rank(self) -> int {
        match self {
            NamePattern::Full(_) => 0,
            NamePattern::Sub(_, _) => 1,
            NamePattern::Suffix(_) => 2,
            NamePattern::Default(_) => 3,
        }
    }

    /// Whether the pattern covers the name `n`.
    pub open spec fn matches(self, n: Seq<Seq<u8>>) -> bool {
        match self {
            NamePattern::Default(d) => is_zone_of(d, n),
            NamePattern::Suffix(d) => is_zone_of(d, n) && d != n,
            NamePattern::Sub(g, d) => n.len() > 0 && parent(n) == d && glob_accepts(g, n[0]),
            NamePattern::Full(d) => n == d,
        }
    }

    /// Order of two patterns: by domain, then by rank; -1, 0 or 1.
    pub open spec fn order(self, other: NamePattern) -> int {
        let c = name_order(self.domain(), other.domain());
        if c != 0 {
            c
        } else if self.rank() < other.rank() {
            -1
        } else if self.rank() > other.rank() {
            1
        } else {
            0
        }
    }

    /// The pattern is one that a value can hold: the domain is a name, and
    /// the glob is one that a value holds.
    pub open spec fn well_formed(self) -> bool {
        &&& is_name(self.domain())
        &&& self matches NamePattern::Sub(g, _) ==> is_kept_glob(g)
    }

    /// The pattern can be written as text: it is well formed, and its glob is
    /// empty or of the size and the bytes of a label.
    pub open spec fn canonical(self) -> bool {
        &&& self.well_formed()
        &&& self matches NamePattern::Sub(g, _) ==> g.len() == 0 || is_glob_label(g)
    }

    /// The pattern as text: `d`, `+.d`, `glob.d` or `-.d`.
    pub open spec fn text(self) -> Seq<u8> {
        match self {
            NamePattern::Default(d) => name_text(d),
            NamePattern::Suffix(d) => seq![PLUS, DOT] + labels_text(d),
            NamePattern::Sub(g, d) => glob_text(g) + seq![DOT] + labels_text(d),
            NamePattern::Full(d) => seq![MINUS, DOT] + labels_text(d),
        }
    }
}

/// The pattern that a text spells. `+.d` and `.d` are everything under `d`,
/// `-.d` is `d` alone, a first label with `*` or `?` in it is a glob over the
/// children of what follows, and any other name is that name with all under it.
pub open spec fn parse_pattern_spec(s: Seq<u8>) -> Option<NamePattern> {
    if s.len() >= 2 && s[0] == PLUS && s[1] == DOT {
        match parse_labels_spec(s.skip(2)) {
            Some(d) => Some(NamePattern::Suffix(d)),
            None => None,
        }
    } else if s.len() >= 2 && s[0] == MINUS && s[1] == DOT {
        match parse_labels_spec(s.skip(2)) {
            Some(d) => Some(NamePattern::Full(d)),
            None => None,
        }
    } else if s.len() >= 2 && s[0] == DOT {
        match parse_labels_spec(s.skip(1)) {
            Some(d) => Some(NamePattern::Suffix(d)),
            None => None,
        }
    } else {
        let n = field_len(s, DOT);
        let first = lowered(s.take(n));
        if has_meta(first) {
            if n < s.len() && is_glob_label(first) {
                match parse_labels_spec(s.skip(n + 1)) {
                    Some(d) => Some(NamePattern::Sub(glob_of_text(first), d)),
                    None => None,
                }
            } else {
                None
            }
        } else {
            match parse_name_spec(s) {
                Some(d) => Some(NamePattern::Default(d)),
                None => None,
            }
        }
    }
}

/// Reading the text of a pattern gives the pattern back.
pub proof fn lemma_pattern_round_trip(p: NamePattern)
    requires
        p.canonical(),
    ensures
        parse_pattern_spec(p.text()) == Some(p),
{
    let s = p.text();
    match p {
        NamePattern::Default(d) => {
            lemma_parse_name_of_text(d);
            if d.len() == 0 {
                let first = lowered(s.take(field_len(s, DOT)));
                assert(field_len(s, DOT) == 0);
                assert(first.len() == 0);
                assert(!has_meta(first));
            } else {
                lemma_labels_text_lowered(d);
                lemma_first_label(d);
                let n = field_len(s, DOT);
                assert(s.take(n) == d[0]);
                assert(crate::name::is_label(d[0]));
                assert(lowered(d[0]) =~= d[0]) by {
                    assert forall|i: int| 0 <= i < d[0].len() implies lower(d[0][i]) == d[0][i] by {
                        assert(is_label_byte(d[0][i]));
                    }
                }
                assert(!has_meta(d[0])) by {
                    assert forall|i: int| 0 <= i < d[0].len() implies !(#[trigger] d[0][i] == STAR
                        || d[0][i] == QUESTION) by {
                        assert(is_label_byte(d[0][i]));
                    }
                }
                assert(s[0] == s.take(n)[0]);
                assert(is_label_byte(d[0][0]));
                assert(lowered(s.take(n)) == d[0]);
            }
        },
        NamePattern::Suffix(d) => {
            lemma_parse_labels_of_text(d);
            assert(s.skip(2) =~= labels_text(d));
        },
        NamePattern::Full(d) => {
            lemma_parse_labels_of_text(d);
            assert(s.skip(2) =~= labels_text(d));
        },
        NamePattern::Sub(g, d) => {
            lemma_parse_labels_of_text(d);
            let gt = glob_text(g);
            assert(is_glob_label(gt)) by {
                if g.len() == 0 {
                    assert(gt[0] == STAR);
                }
            }
            let i0 = choose|i: int| 0 <= i < gt.len() && (#[trigger] gt[i] == STAR || gt[i] == QUESTION);
            assert forall|i: int| 0 <= i < gt.len() implies #[trigger] s[i] != DOT by {
                assert(s[i] == gt[i]);
                assert(is_label_byte(gt[i]) || gt[i] == STAR || gt[i] == QUESTION);
            }
            assert(s[gt.len() as int] == DOT);
            lemma_field_len_is(s, DOT, gt.len() as int);
            assert(s.take(gt.len() as int) =~= gt);
            assert(lowered(gt) =~= gt) by {
                assert forall|i: int| 0 <= i < gt.len() implies lower(gt[i]) == gt[i] by {
                    assert(is_label_byte(gt[i]) || gt[i] == STAR || gt[i] == QUESTION);
                }
            }
            assert(s.skip(gt.len() as int + 1) =~= labels_text(d));
            assert(s[0] == gt[0]);
            assert(is_label_byte(gt[0]) || gt[0] == STAR || gt[0] == QUESTION);
            if gt.len() >= 2 {
                assert(s[1] == gt[1]);
                assert(is_label_byte(gt[1]) || gt[1] == STAR || gt[1] == QUESTION);
            } else {
                assert(i0 == 0);
            }
            if g.len() == 0 {
                assert(gt =~= seq![STAR]);
                assert(g =~= Seq::<u8>::empty());
            }
            assert(lowered(s.take(field_len(s, DOT))) == gt);
        },
    }
}

/// The text of a name with labels starts with its first label, which ends at
/// the first dot or at the end.
pub proof fn lemma_first_label(d: Seq<Seq<u8>>)
    requires
        is_name(d),
        d.len() > 0,
    ensures
        field_len(labels_text(d), DOT) == d[0].len(),
        labels_text(d).take(d[0].len() as int) == d[0],
{
    let s = labels_text(d);
    let w = d[0];
    assert(crate::name::is_label(w));
    assert forall|i: int| 0 <= i < w.len() implies #[trigger] s[i] != DOT by {
        assert(is_label_byte(w[i]));
    }
    if d.len() == 1 {
        lemma_field_len_is(s, DOT, w.len() as int);
        assert(s.take(w.len() as int) =~= w);
    } else {
        assert(s == w + seq![DOT] + labels_text(d.skip(1)));
        assert(s[w.len() as int] == DOT);
        lemma_field_len_is(s, DOT, w.len() as int);
        assert(s.take(w.len() as int) =~= w);
    }
}

/// A byte that can stand in the text of a pattern.
pub open spec fn is_pattern_byte(b: u8) -> bool {
    is_label_byte(b) || b == STAR || b == QUESTION || b == DOT || b == PLUS
}

/// The text of a list of labels holds label bytes and dots only.
pub proof fn lemma_labels_text_bytes(d: Seq<Seq<u8>>)
    requires
        forall|i: int| 0 <= i < d.len() ==> crate::name::is_label(#[trigger] d[i]),
    ensures
        forall|i: int|
            0 <= i < labels_text(d).len() ==> is_label_byte(#[trigger] labels_text(d)[i])
                || labels_text(d)[i] == DOT,
    decreases d.len(),
{
    let t = labels_text(d);
    if d.len() == 0 {
    } else if d.len() == 1 {
        assert(crate::name::is_label(d[0]));
    } else {
        let rest = d.skip(1);
        assert forall|i: int| 0 <= i < rest.len() implies crate::name::is_label(
            #[trigger] rest[i],
        ) by {
            assert(rest[i] == d[i + 1]);
        }
        lemma_labels_text_bytes(rest);
        let tail = labels_text(rest);
        assert(crate::name::is_label(d[0]));
        assert(t == d[0] + seq![DOT] + tail);
        assert forall|i: int| 0 <= i < t.len() implies is_label_byte(#[trigger] t[i]) || t[i]
            == DOT by {
            if i < d[0].len() {
                assert(is_label_byte(d[0][i]));
            } else if i > d[0].len() {
                assert(t[i] == tail[i - d[0].len() - 1]);
            }
        }
    }
}

/// The text of a canonical pattern is not empty and holds pattern bytes only.
pub proof fn lemma_pattern_text_bytes(p: NamePattern)
    requires
        p.canonical(),
    ensures
        p.text().len() > 0,
        forall|i: int| 0 <= i < p.text().len() ==> is_pattern_byte(#[trigger] p.text()[i]),
{
    let t = p.text();
    let d = p.domain();
    lemma_labels_text_bytes(d);
    let lt = labels_text(d);
    if d.len() > 0 {
        lemma_labels_text_lowered(d);
    }
    match p {
        NamePattern::Default(_) => {},
        NamePattern::Suffix(_) => {
            assert forall|i: int| 0 <= i < t.len() implies is_pattern_byte(#[trigger] t[i]) by {
                if i >= 2 {
                    assert(t[i] == lt[i - 2]);
                }
            }
        },
        NamePattern::Full(_) => {
            assert forall|i: int| 0 <= i < t.len() implies is_pattern_byte(#[trigger] t[i]) by {
                if i >= 2 {
                    assert(t[i] == lt[i - 2]);
                }
            }
        },
        NamePattern::Sub(g, _) => {
            let gt = glob_text(g);
            assert forall|i: int| 0 <= i < t.len() implies is_pattern_byte(#[trigger] t[i]) by {
                if i < gt.len() {
                    assert(t[i] == gt[i]);
                    if g.len() > 0 {
                        assert(is_label_byte(g[i]) || g[i] == STAR || g[i] == QUESTION);
                    }
                } else if i > gt.len() {
                    assert(t[i] == lt[i - gt.len() - 1]);
                }
            }
        },
    }
}

/// A domain pattern.
#[derive(Debug, PartialEq, Eq, Hash)]
pub enum WildcardName {
    /// The domain and everything under it: `example.com`.
    Default(Name),
    /// Everything under the domain, but not the domain: `+.example.com`.
    Suffix(Name),
    /// The children of the domain whose leftmost label the glob accepts:
    /// `*.example.com`, `a*b.example.com`.
    Sub(Wildcard, Name),
    /// The domain alone: `-.example.com`.
    Full(Name),
}

impl View for WildcardName {
    type V = NamePattern;

    open spec fn view(&self) -> NamePattern {
        match self {
            WildcardName::Default(n) => NamePattern::Default(n@),
            WildcardName::Suffix(n) => NamePattern::Suffix(n@),
            WildcardName::Sub(w, n) => NamePattern::Sub(w@, n@),
            WildcardName::Full(n) => NamePattern::Full(n@),
        }
    }
}

impl Clone for WildcardName {
    fn clone(&self) -> (out: Self)
        ensures
            out@ == self@,
    {
        match self {
            WildcardName::Default(n) => WildcardName::Default(n.clone()),
            WildcardName::Suffix(n) => WildcardName::Suffix(n.clone()),
            WildcardName::Sub(w, n) => WildcardName::Sub(w.clone(), n.clone()),
            WildcardName::Full(n) => WildcardName::Full(n.clone()),
        }
    }
}

/// Whether the lower-case text `g` is a label-sized glob, and whether `*` or
/// `?` occurs in it at all.
fn check_glob_label(g: &[u8]) -> (r: (bool, bool))
    ensures
        r.0 == has_meta(g@),
        r.1 == is_glob_label(g@),
{
    let mut meta = false;
    let mut ok = true;
    let mut i: usize = 0;
    while i < g.len()
        invariant
            i <= g.len(),
            meta == has_meta(g@.take(i as int)),
            ok == (forall|k: int|
                0 <= k < i ==> is_label_byte(#[trigger] g@[k]) || g@[k] == STAR || g@[k]
                    == QUESTION),
        decreases g.len() - i,
    {
        let b = g[i];
        let ghost before = g@.take(i as int);
        let ghost after = g@.take(i + 1);
        proof {
            assert(after.drop_last() =~= before);
            if has_meta(before) {
                let k = choose|k: int|
                    0 <= k < before.len() && (#[trigger] before[k] == STAR || before[k]
                        == QUESTION);
                assert(after[k] == before[k]);
            }
            if has_meta(after) && !(b == STAR || b == QUESTION) {
                let k = choose|k: int|
                    0 <= k < after.len() && (#[trigger] after[k] == STAR || after[k] == QUESTION);
                assert(before[k] == after[k]);
            }
        }
        if b == STAR || b == QUESTION {
            meta = true;
            assert(after[i as int] == b);
        } else {
            let plain = (97 <= b && b <= 122) || (48 <= b && b <= 57) || b == MINUS || b
                == UNDERSCORE;
            if !plain {
                ok = false;
            }
        }
        i += 1;
    }
    assert(g@.take(i as int) =~= g@);
    (meta, ok && meta && 1 <= g.len() && g.len() <= MAX_LABEL_LEN)
}

impl WildcardName {
    /// Whether the pattern covers `name`.
    pub fn is_match(&self, name: &Name) -> (r: bool)
        ensures
            r == self@.matches(name@),
    {
        match self {
            WildcardName::Default(d) => d.zone_of(name),
            WildcardName::Suffix(d) => d.zone_of(name) && !d.same_as(name),
            WildcardName::Sub(w, d) => {
                let n = name.num_labels();
                let m = d.num_labels();
                if n == 0 {
                    false
                } else if m + 1 != n {
                    assert(parent(name@).len() != d@.len());
                    false
                } else if !d.zone_of(name) {
                    false
                } else {
                    w.is_match(name.label(0))
                }
            },
            WildcardName::Full(d) => d.same_as(name),
        }
    }

    /// Whether the pattern is a glob over the children of its domain.
    pub fn is_sub(&self) -> (r: bool)
        ensures
            r == (self@ is Sub),
    {
        match self {
            WildcardName::Sub(_, _) => true,
            _ => false,
        }
    }

    /// The domain that the pattern is written over.
    pub fn name(&self) -> (n: &Name)
        ensures
            n@ == self@.domain(),
    {
        match self {
            WildcardName::Default(n) => n,
            WildcardName::Suffix(n) => n,
            WildcardName::Sub(_, n) => n,
            WildcardName::Full(n) => n,
        }
    }

    /// The domain that the pattern is written over, without the pattern.
    pub fn into_name(self) -> (n: Name)
        ensures
            n@ == self@.domain(),
    {
        match self {
            WildcardName::Default(n) => n,
            WildcardName::Suffix(n) => n,
            WildcardName::Sub(_, n) => n,
            WildcardName::Full(n) => n,
        }
    }

    /// The pattern that covers `name` and everything under it.
    pub fn from_name(name: Name) -> (out: WildcardName)
        ensures
            out@ == NamePattern::Default(name@),
    {
        WildcardName::Default(name)
    }

    /// Rank of the kind of pattern, the most specific kind lowest.
    pub fn rank(&self) -> (r: u8)
        ensures
            r == self@.rank(),
    {
        match self {
            WildcardName::Full(_) => 0,
            WildcardName::Sub(_, _) => 1,
            WildcardName::Suffix(_) => 2,
            WildcardName::Default(_) => 3,
        }
    }

    /// Order of this pattern and `other`, by domain and then by rank: -1, 0
    /// or 1.
    pub fn order(&self, other: &WildcardName) -> (c: i8)
        ensures
            c == self@.order(other@),
    {
        let c = self.name().order(other.name());
        if c != 0 {
            c
        } else {
            let a = self.rank();
            let b = other.rank();
            if a < b {
                -1
            } else if a > b {
                1
            } else {
                0
            }
        }
    }

    /// Order of this pattern and `other`, by domain and then by rank.
    pub fn cmp(&self, other: &WildcardName) -> (o: Ordering)
        ensures
            o == Ordering::Less <==> self@.order(other@) < 0,
            o == Ordering::Equal <==> self@.order(other@) == 0,
            o == Ordering::Greater <==> self@.order(other@) > 0,
    {
        let c = self.order(other);
        if c < 0 {
            Ordering::Less
        } else if c == 0 {
            Ordering::Equal
        } else {
            Ordering::Greater
        }
    }

    /// Reads a pattern.
    pub fn from_bytes(text: &[u8]) -> (out: Option<WildcardName>)
        ensures
            out.is_some() == parse_pattern_spec(text@).is_some(),
            out matches Some(w) ==> parse_pattern_spec(text@) == Some(w@),
    {
        let len = text.len();
        if len >= 2 && text[0] == PLUS && text[1] == DOT {
            let rest = vstd::slice::slice_subrange(text, 2, len);
            assert(rest@ =~= text@.skip(2));
            return match Name::from_dotted(rest) {
                Some(d) => Some(WildcardName::Suffix(d)),
                None => None,
            };
        }
        if len >= 2 && text[0] == MINUS && text[1] == DOT {
            let rest = vstd::slice::slice_subrange(text, 2, len);
            assert(rest@ =~= text@.skip(2));
            return match Name::from_dotted(rest) {
                Some(d) => Some(WildcardName::Full(d)),
                None => None,
            };
        }
        if len >= 2 && text[0] == DOT {
            let rest = vstd::slice::slice_subrange(text, 1, len);
            assert(rest@ =~= text@.skip(1));
            return match Name::from_dotted(rest) {
                Some(d) => Some(WildcardName::Suffix(d)),
                None => None,
            };
        }
        let mut n: usize = 0;
        assert(text@.skip(0) =~= text@);
        while n < len && text[n] != DOT
            invariant
                n <= len,
                len == text.len(),
                field_len(text@, DOT) == n + field_len(text@.skip(n as int), DOT),
            decreases len - n,
        {
            proof {
                let t = text@.skip(n as int);
                assert(t[0] == text@[n as int]);
                assert(t.skip(1) =~= text@.skip(n + 1));
            }
            n += 1;
        }
        proof {
            let t = text@.skip(n as int);
            if n < len {
                assert(t[0] == text@[n as int]);
            }
            assert(field_len(text@, DOT) == n);
        }
        let head = vstd::slice::slice_subrange(text, 0, n);
        assert(head@ =~= text@.take(n as int));
        let first = to_lowered(head);
        let (meta, ok) = check_glob_label(first.as_slice());
        if meta {
            if n < len && ok {
                let rest = vstd::slice::slice_subrange(text, n + 1, len);
                assert(rest@ =~= text@.skip(n + 1));
                match Name::from_dotted(rest) {
                    Some(d) => {
                        proof {
                            assert(is_free_of(first@, BACKSLASH)) by {
                                assert forall|i: int| 0 <= i < first@.len() implies #[trigger] first@[i]
                                    != BACKSLASH by {
                                    assert(is_label_byte(first@[i]) || first@[i] == STAR
                                        || first@[i] == QUESTION);
                                }
                            }
                            lemma_no_backslash_is_glob(first@, 0);
                        }
                        match Wildcard::from_bytes(first.as_slice()) {
                            Ok(w) => Some(WildcardName::Sub(w, d)),
                            Err(_) => None,
                        }
                    },
                    None => None,
                }
            } else {
                None
            }
        } else {
            match Name::from_bytes(text) {
                Some(d) => Some(WildcardName::Default(d)),
                None => None,
            }
        }
    }

    /// Reads a pattern from a string, as `from_bytes` does from its bytes.
    pub fn from_str(text: &str) -> (out: Option<WildcardName>)
        ensures
            out.is_some() == parse_pattern_spec(text.spec_bytes()).is_some(),
            out matches Some(w) ==> parse_pattern_spec(text.spec_bytes()) == Some(w@),
    {
        WildcardName::from_bytes(text.as_bytes())
    }

    /// The pattern as text. Every pattern is well formed, and the text of
    /// one that can be written as text reads back to it.
    pub fn to_bytes(&self) -> (out: Vec<u8>)
        ensures
            out@ == self@.text(),
            self@.well_formed(),
            self@.canonical() ==> parse_pattern_spec(out@) == Some(self@),
    {
        let out = match self {
            WildcardName::Default(d) => d.to_bytes(),
            WildcardName::Suffix(d) => {
                let mut out: Vec<u8> = Vec::new();
                out.push(PLUS);
                out.push(DOT);
                let tail = d.dotted();
                push_bytes(&mut out, tail.as_slice());
                assert(out@ =~= seq![PLUS, DOT] + labels_text(d@));
                out
            },
            WildcardName::Sub(w, d) => {
                let mut out = w.to_bytes();
                out.push(DOT);
                let tail = d.dotted();
                push_bytes(&mut out, tail.as_slice());
                assert(out@ =~= glob_text(w@) + seq![DOT] + labels_text(d@));
                out
            },
            WildcardName::Full(d) => {
                let mut out: Vec<u8> = Vec::new();
                out.push(MINUS);
                out.push(DOT);
                let tail = d.dotted();
                push_bytes(&mut out, tail.as_slice());
                assert(out@ =~= seq![MINUS, DOT] + labels_text(d@));
                out
            },
        };
        proof {
            if self@.canonical() {
                lemma_pattern_round_trip(self@);
            }
        }
        out
    }
}

/// What a rule is attached to: a pattern, or a named set of domains.
#[derive(Debug, PartialEq, Eq, Hash)]
pub enum Domain {
    Name(WildcardName),
    /// A set of domains, by its name.
    DomainSet(Vec<u8>),
}

/// The mathematical content of a `Domain`.
pub enum DomainSpec {
    Name(NamePattern),
    DomainSet(Seq<u8>),
}

impl View for Domain {
    type V = DomainSpec;

    open spec fn view(&self) -> DomainSpec {
        match self {
            Domain::Name(w) => DomainSpec::Name(w@),
            Domain::DomainSet(n) => DomainSpec::DomainSet(n@),
        }
    }
}

impl Clone for Domain {
    fn clone(&self) -> (out: Self)
        ensures
            out@ == self@,
    {
        match self {
            Domain::Name(w) => Domain::Name(w.clone()),
            Domain::DomainSet(n) => Domain::DomainSet(vstd::slice::slice_to_vec(n.as_slice())),
        }
    }
}

/// What stands before the name of a set of domains: `domain-set:`.
pub open spec fn set_prefix() -> Seq<u8> {
    kw("domain-set:")
}

impl DomainSpec {
    /// The domain is in the one form that its text reads back to.
    pub open spec fn canonical(self) -> bool {
        match self {
            DomainSpec::Name(p) => p.canonical(),
            DomainSpec::DomainSet(n) => is_set_name(n),
        }
    }

    /// The domain as text: a pattern, or `domain-set:` and the set's name.
    pub open spec fn text(self) -> Seq<u8> {
        match self {
            DomainSpec::Name(p) => p.text(),
            DomainSpec::DomainSet(n) => set_prefix() + n,
        }
    }
}

/// The domain that a text spells.
pub open spec fn parse_domain_spec(s: Seq<u8>) -> Option<DomainSpec> {
    if starts_with(s, set_prefix()) {
        let n = s.skip(set_prefix().len() as int);
        if is_set_name(n) {
            Some(DomainSpec::DomainSet(n))
        } else {
            None
        }
    } else {
        match parse_pattern_spec(s) {
            Some(p) => Some(DomainSpec::Name(p)),
            None => None,
        }
    }
}

/// Reading the text of a domain gives the domain back.
pub proof fn lemma_domain_round_trip(d: DomainSpec)
    requires
        d.canonical(),
    ensures
        parse_domain_spec(d.text()) == Some(d),
{
    reveal_strlit("domain-set:");
    lemma_kw("domain-set:");
    let s = d.text();
    let pre = set_prefix();
    assert(pre.len() == 11);
    assert(pre[10] == 58u8);
    match d {
        DomainSpec::Name(p) => {
            lemma_pattern_round_trip(p);
            lemma_pattern_text_bytes(p);
            if starts_with(s, pre) {
                assert(s.take(11)[10] == s[10]);
                assert(is_pattern_byte(s[10]));
            }
        },
        DomainSpec::DomainSet(n) => {
            assert(s.take(11) =~= pre);
            assert(s.skip(11) =~= n);
        },
    }
}

/// The text of a canonical domain is not empty and holds neither a
/// separator, a line end nor `/`.
pub proof fn lemma_domain_text_bytes(d: DomainSpec)
    requires
        d.canonical(),
    ensures
        is_set_name(d.text()),
{
    reveal_strlit("domain-set:");
    lemma_kw("domain-set:");
    let s = d.text();
    match d {
        DomainSpec::Name(p) => {
            lemma_pattern_text_bytes(p);
            assert forall|i: int| 0 <= i < s.len() implies is_set_name_byte(#[trigger] s[i]) by {
                assert(is_pattern_byte(s[i]));
            }
        },
        DomainSpec::DomainSet(n) => {
            let pre = set_prefix();
            assert(pre.len() == 11);
            assert forall|i: int| 0 <= i < s.len() implies is_set_name_byte(#[trigger] s[i]) by {
                if i < 11 {
                    assert(s[i] == pre[i]);
                } else {
                    assert(s[i] == n[i - 11]);
                }
            }
        },
    }
}

impl Domain {
    /// Reads a domain: `domain-set:` and a name, or a pattern.
    pub fn from_bytes(text: &[u8]) -> (out: Option<Domain>)
        ensures
            out.is_some() == parse_domain_spec(text@).is_some(),
            out matches Some(d) ==> parse_domain_spec(text@) == Some(d@),
    {
        proof {
            reveal_strlit("domain-set:");
            lemma_kw("domain-set:");
        }
        if has_prefix(text, "domain-set:") {
            let rest = vstd::slice::slice_subrange(text, 11, text.len());
            assert(rest@ =~= text@.skip(11));
            if check_set_name(rest) {
                Some(Domain::DomainSet(vstd::slice::slice_to_vec(rest)))
            } else {
                None
            }
        } else {
            match WildcardName::from_bytes(text) {
                Some(w) => Some(Domain::Name(w)),
                None => None,
            }
        }
    }

    /// Reads a domain from a string, as `from_bytes` does from its bytes.
    pub fn from_str(text: &str) -> (out: Option<Domain>)
        ensures
            out.is_some() == parse_domain_spec(text.spec_bytes()).is_some(),
            out matches Some(d) ==> parse_domain_spec(text.spec_bytes()) == Some(d@),
    {
        Domain::from_bytes(text.as_bytes())
    }

    /// The domain as text.
    pub fn to_bytes(&self) -> (out: Vec<u8>)
        ensures
            out@ == self@.text(),
    {
        proof {
            reveal_strlit("domain-set:");
            lemma_kw("domain-set:");
        }
        match self {
            Domain::Name(w) => w.to_bytes(),
            Domain::DomainSet(n) => {
                let mut out = keyword("domain-set:");
                push_bytes(&mut out, n.as_slice());
                out
            },
        }
    }
}

} // verus!
