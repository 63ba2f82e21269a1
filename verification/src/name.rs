//! Domain names in canonical form: a list of lower-case labels, leftmost
//! label first, under an implicit root.

use crate::text::{
    bytes_eq, fields, is_digit, is_free_of, is_lower, join_fields, join_with, lemma_fields_of_join,
    lower, lowered, rows, split_fields, to_lowered, DOT, MINUS, UNDERSCORE,
};
use vstd::prelude::*;
use vstd::string::StringSliceAdditionalSpecFns;

verus! {

/// Most labels a name can have.
pub const MAX_LABELS: usize = 127;

/// Most bytes a label can have.
pub const MAX_LABEL_LEN: usize = 63;

/// A byte that may stand in a label: a small letter, a digit, `-` or `_`.
pub open spec fn is_label_byte(b: u8) -> bool {
    is_lower(b) || is_digit(b) || b == MINUS || b == UNDERSCORE
}

/// A label: 1 to 63 label bytes, the first of them not `-`.
pub open spec fn is_label(l: Seq<u8>) -> bool {
    &&& 1 <= l.len() <= MAX_LABEL_LEN
    &&& l[0] != MINUS
    &&& forall|i: int| 0 <= i < l.len() ==> is_label_byte(#[trigger] l[i])
}

/// A name: at most 127 labels. The empty list is the root.
pub open spec fn is_name(n: Seq<Seq<u8>>) -> bool {
    &&& n.len() <= MAX_LABELS
    &&& forall|i: int| 0 <= i < n.len() ==> is_label(#[trigger] n[i])
}

/// `zone` is `name` itself or one of its ancestors: its labels are the last
/// labels of `name`.
pub open spec fn is_zone_of(zone: Seq<Seq<u8>>, name: Seq<Seq<u8>>) -> bool {
    zone.len() <= name.len() && name.skip(name.len() - zone.len()) == zone
}

/// The name without its leftmost label; the root is its own parent.
pub open spec fn parent(name: Seq<Seq<u8>>) -> Seq<Seq<u8>> {
    if name.len() == 0 {
        name
    } else {
        name.skip(1)
    }
}

/// The labels joined by dots, as they stand after a prefix; nothing for the root.
pub open spec fn labels_text(n: Seq<Seq<u8>>) -> Seq<u8> {
    join_fields(n, DOT)
}

/// The name as text: its labels joined by dots, or a single dot for the root.
pub open spec fn name_text(n: Seq<Seq<u8>>) -> Seq<u8> {
    if n.len() == 0 {
        seq![DOT]
    } else {
        labels_text(n)
    }
}

/// The labels that a dotted text stands for: capitals are folded, one
/// trailing dot is dropped, and every piece between dots must be a label.
/// The empty text stands for the root.
pub open spec fn parse_labels_spec(s: Seq<u8>) -> Option<Seq<Seq<u8>>> {
    if s.len() == 0 {
        Some(Seq::empty())
    } else {
        let body = if s.last() == DOT {
            s.drop_last()
        } else {
            s
        };
        let parts = fields(lowered(body), DOT);
        if is_name(parts) {
            Some(parts)
        } else {
            None
        }
    }
}

/// The name that a text stands for: a single dot is the root, anything else
/// is a non-empty dotted list of labels.
pub open spec fn parse_name_spec(s: Seq<u8>) -> Option<Seq<Seq<u8>>> {
    if s == seq![DOT] {
        Some(Seq::empty())
    } else if s.len() == 0 {
        None
    } else {
        parse_labels_spec(s)
    }
}

/// Order of two byte strings, byte by byte, a proper prefix first: -1, 0 or 1.
pub open spec fn bytes_order(a: Seq<u8>, b: Seq<u8>) -> int
    decreases a.len(),
{
    if a.len() == 0 && b.len() == 0 {
        0
    } else if a.len() == 0 {
        -1
    } else if b.len() == 0 {
        1
    } else if a[0] < b[0] {
        -1
    } else if a[0] > b[0] {
        1
    } else {
        bytes_order(a.skip(1), b.skip(1))
    }
}

/// Order of two names, label by label from the root side, an ancestor before
/// its descendants: -1, 0 or 1.
pub open spec fn name_order(a: Seq<Seq<u8>>, b: Seq<Seq<u8>>) -> int
    decreases a.len(),
{
    if a.len() == 0 && b.len() == 0 {
        0
    } else if a.len() == 0 {
        -1
    } else if b.len() == 0 {
        1
    } else {
        let c = bytes_order(a.last(), b.last());
        if c != 0 {
            c
        } else {
            name_order(a.drop_last(), b.drop_last())
        }
    }
}

pub proof fn lemma_bytes_order_zero(a: Seq<u8>, b: Seq<u8>)
    ensures
        -1 <= bytes_order(a, b) <= 1,
        bytes_order(a, b) == 0 <==> a == b,
    decreases a.len(),
{
    if a.len() > 0 && b.len() > 0 && a[0] == b[0] {
        lemma_bytes_order_zero(a.skip(1), b.skip(1));
        if a.skip(1) == b.skip(1) {
            assert(a =~= seq![a[0]] + a.skip(1));
            assert(b =~= seq![b[0]] + b.skip(1));
        }
    } else if a.len() == 0 && b.len() == 0 {
        assert(a =~= b);
    }
}

pub proof fn lemma_name_order_zero(a: Seq<Seq<u8>>, b: Seq<Seq<u8>>)
    ensures
        -1 <= name_order(a, b) <= 1,
        name_order(a, b) == 0 <==> a == b,
    decreases a.len(),
{
    if a.len() > 0 && b.len() > 0 {
        lemma_bytes_order_zero(a.last(), b.last());
        lemma_name_order_zero(a.drop_last(), b.drop_last());
        if a.last() == b.last() && a.drop_last() == b.drop_last() {
            assert(a =~= a.drop_last().push(a.last()));
            assert(b =~= b.drop_last().push(b.last()));
        }
    } else if a.len() == 0 && b.len() == 0 {
        assert(a =~= b);
    }
}

/// Among the ancestors of one name, the order of two of them is the order of
/// their depths.
pub proof fn lemma_order_of_zones(a: Seq<Seq<u8>>, b: Seq<Seq<u8>>, name: Seq<Seq<u8>>)
    requires
        is_zone_of(a, name),
        is_zone_of(b, name),
    ensures
        a.len() < b.len() ==> name_order(a, b) == -1,
        a.len() == b.len() ==> name_order(a, b) == 0 && a == b,
        a.len() > b.len() ==> name_order(a, b) == 1,
    decreases a.len(),
{
    if a.len() > 0 && b.len() > 0 {
        let up = name.drop_last();
        assert(a.last() == name.last()) by {
            assert(name.skip(name.len() - a.len())[a.len() - 1] == name[name.len() - 1]);
        }
        assert(b.last() == name.last()) by {
            assert(name.skip(name.len() - b.len())[b.len() - 1] == name[name.len() - 1]);
        }
        lemma_bytes_order_zero(a.last(), b.last());
        assert(is_zone_of(a.drop_last(), up)) by {
            assert(up.skip(up.len() - (a.len() - 1)) =~= a.drop_last());
        }
        assert(is_zone_of(b.drop_last(), up)) by {
            assert(up.skip(up.len() - (b.len() - 1)) =~= b.drop_last());
        }
        lemma_order_of_zones(a.drop_last(), b.drop_last(), up);
        if a.len() == b.len() {
            assert(a =~= a.drop_last().push(a.last()));
            assert(b =~= b.drop_last().push(b.last()));
        }
    } else if a.len() == 0 && b.len() == 0 {
        assert(a =~= b);
    }
}

/// A name's text holds no capital letter.
pub proof fn lemma_labels_text_lowered(n: Seq<Seq<u8>>)
    requires
        is_name(n) || (forall|i: int| 0 <= i < n.len() ==> is_label(#[trigger] n[i])),
    ensures
        lowered(labels_text(n)) == labels_text(n),
        n.len() > 0 ==> labels_text(n).len() > 0 && labels_text(n).last() != DOT,
    decreases n.len(),
{
    let t = labels_text(n);
    if n.len() == 0 {
        assert(lowered(t) =~= t);
    } else if n.len() == 1 {
        assert(is_label(n[0]));
        assert forall|i: int| 0 <= i < t.len() implies lower(t[i]) == t[i] by {
            assert(is_label_byte(n[0][i]));
        }
        assert(lowered(t) =~= t);
        assert(is_label_byte(t[t.len() - 1]));
    } else {
        let rest = n.skip(1);
        assert forall|i: int| 0 <= i < rest.len() implies is_label(#[trigger] rest[i]) by {
            assert(rest[i] == n[i + 1]);
        }
        lemma_labels_text_lowered(rest);
        let tail = labels_text(rest);
        assert(is_label(n[0]));
        assert(t == n[0] + seq![DOT] + tail);
        assert forall|i: int| 0 <= i < t.len() implies lower(t[i]) == t[i] by {
            if i < n[0].len() {
                assert(is_label_byte(n[0][i]));
            } else if i > n[0].len() {
                assert(t[i] == tail[i - n[0].len() - 1]);
                assert(lowered(tail)[i - n[0].len() - 1] == tail[i - n[0].len() - 1]);
            }
        }
        assert(lowered(t) =~= t);
        assert(t.last() == tail.last());
    }
}

/// Reading the text of a list of labels gives the labels back.
pub proof fn lemma_parse_labels_of_text(n: Seq<Seq<u8>>)
    requires
        is_name(n),
    ensures
        parse_labels_spec(labels_text(n)) == Some(n),
{
    if n.len() == 0 {
        assert(n =~= Seq::<Seq<u8>>::empty());
    } else {
        lemma_labels_text_lowered(n);
        assert forall|k: int| 0 <= k < n.len() implies is_free_of(#[trigger] n[k], DOT) by {
            assert(is_label(n[k]));
            assert forall|i: int| 0 <= i < n[k].len() implies #[trigger] n[k][i] != DOT by {
                assert(is_label_byte(n[k][i]));
            }
        }
        lemma_fields_of_join(n, DOT);
    }
}

/// Reading a name's text gives the name back.
pub proof fn lemma_parse_name_of_text(n: Seq<Seq<u8>>)
    requires
        is_name(n),
    ensures
        parse_name_spec(name_text(n)) == Some(n),
{
    if n.len() == 0 {
        assert(n =~= Seq::<Seq<u8>>::empty());
    } else {
        lemma_labels_text_lowered(n);
        lemma_parse_labels_of_text(n);
        let t = name_text(n);
        assert(t != seq![DOT]) by {
            if t == seq![DOT] {
                assert(t.last() == DOT);
            }
        }
    }
}

/// A domain name in canonical form.
#[derive(Debug, PartialEq, Eq, Hash)]
pub struct Name {
    labels: Vec<Vec<u8>>,
}

impl View for Name {
    type V = Seq<Seq<u8>>;

    /// The labels, leftmost first.
    closed spec fn view(&self) -> Seq<Seq<u8>> {
        rows(self.labels@)
    }
}

impl Clone for Name {
    fn clone(&self) -> (out: Self)
        ensures
            out@ == self@,
    {
        proof {
            use_type_invariant(self);
        }
        let mut labels: Vec<Vec<u8>> = Vec::new();
        let mut i: usize = 0;
        while i < self.labels.len()
            invariant
                i <= self.labels.len(),
                labels@.len() == i,
                forall|k: int| 0 <= k < i ==> labels@[k]@ == self.labels@[k]@,
            decreases self.labels.len() - i,
        {
            labels.push(vstd::slice::slice_to_vec(self.labels[i].as_slice()));
            i += 1;
        }
        assert(rows(labels@) =~= rows(self.labels@));
        Name { labels }
    }
}

/// Whether `l` is a label.
pub fn check_label(l: &[u8]) -> (r: bool)
    ensures
        r == is_label(l@),
{
    if l.len() == 0 || l.len() > MAX_LABEL_LEN || l[0] == MINUS {
        return false;
    }
    let mut i: usize = 0;
    while i < l.len()
        invariant
            i <= l.len(),
            forall|k: int| 0 <= k < i ==> is_label_byte(#[trigger] l@[k]),
        decreases l.len() - i,
    {
        let b = l[i];
        let ok = (97 <= b && b <= 122) || (48 <= b && b <= 57) || b == MINUS || b == UNDERSCORE;
        if !ok {
            assert(!is_label_byte(l@[i as int]));
            return false;
        }
        i += 1;
    }
    true
}

impl Name {
    #[verifier::type_invariant]
    spec fn well_formed(&self) -> bool {
        is_name(rows(self.labels@))
    }

    /// The root: the name without labels.
    pub fn root() -> (out: Name)
        ensures
            out@ == Seq::<Seq<u8>>::empty(),
    {
        let labels: Vec<Vec<u8>> = Vec::new();
        assert(rows(labels@) =~= Seq::<Seq<u8>>::empty());
        Name { labels }
    }

    /// The name with the given labels, leftmost first, if they are the labels
    /// of a name.
    pub fn from_labels(labels: Vec<Vec<u8>>) -> (out: Option<Name>)
        ensures
            out.is_some() == is_name(rows(labels@)),
            out matches Some(n) ==> n@ == rows(labels@),
    {
        if labels.len() > MAX_LABELS {
            return None;
        }
        let mut i: usize = 0;
        while i < labels.len()
            invariant
                i <= labels.len(),
                forall|k: int| 0 <= k < i ==> is_label(#[trigger] rows(labels@)[k]),
            decreases labels.len() - i,
        {
            if !check_label(labels[i].as_slice()) {
                assert(!is_label(rows(labels@)[i as int]));
                return None;
            }
            i += 1;
        }
        Some(Name { labels })
    }

    /// Reads a dotted list of labels; the empty text is the root.
    pub fn from_dotted(text: &[u8]) -> (out: Option<Name>)
        ensures
            out.is_some() == parse_labels_spec(text@).is_some(),
            out matches Some(n) ==> parse_labels_spec(text@) == Some(n@),
    {
        if text.len() == 0 {
            return Some(Name::root());
        }
        let body = if text[text.len() - 1] == DOT {
            vstd::slice::slice_subrange(text, 0, text.len() - 1)
        } else {
            text
        };
        assert(body@ == if text@.last() == DOT {
            text@.drop_last()
        } else {
            text@
        });
        let folded = to_lowered(body);
        let labels = split_fields(folded.as_slice(), DOT);
        Name::from_labels(labels)
    }

    /// Reads a name: a single dot for the root, or labels joined by dots,
    /// with or without a dot at the end. Capital letters are folded.
    pub fn from_bytes(text: &[u8]) -> (out: Option<Name>)
        ensures
            out.is_some() == parse_name_spec(text@).is_some(),
            out matches Some(n) ==> parse_name_spec(text@) == Some(n@),
    {
        if text.len() == 1 && text[0] == DOT {
            assert(text@ =~= seq![DOT]);
            return Some(Name::root());
        }
        if text.len() == 0 {
            return None;
        }
        assert(text@ != seq![DOT]) by {
            if text@ == seq![DOT] {
                assert(text@.len() == 1);
                assert(text@[0] == DOT);
            }
        }
        Name::from_dotted(text)
    }

    /// Reads a name from a string, as `from_bytes` does from its bytes.
    pub fn from_str(text: &str) -> (out: Option<Name>)
        ensures
            out.is_some() == parse_name_spec(text.spec_bytes()).is_some(),
            out matches Some(n) ==> parse_name_spec(text.spec_bytes()) == Some(n@),
    {
        Name::from_bytes(text.as_bytes())
    }

    /// The labels joined by dots; nothing for the root.
    pub fn dotted(&self) -> (out: Vec<u8>)
        ensures
            out@ == labels_text(self@),
            is_name(self@),
    {
        proof {
            use_type_invariant(self);
        }
        join_with(&self.labels, DOT)
    }

    /// The name as text.
    pub fn to_bytes(&self) -> (out: Vec<u8>)
        ensures
            out@ == name_text(self@),
            is_name(self@),
    {
        proof {
            use_type_invariant(self);
        }
        if self.labels.len() == 0 {
            let mut out: Vec<u8> = Vec::new();
            out.push(DOT);
            assert(out@ =~= seq![DOT]);
            out
        } else {
            join_with(&self.labels, DOT)
        }
    }

    /// Number of labels; the root has none.
    pub fn num_labels(&self) -> (n: usize)
        ensures
            n == self@.len(),
            is_name(self@),
    {
        proof {
            use_type_invariant(self);
        }
        self.labels.len()
    }

    /// Whether this is the root.
    pub fn is_root(&self) -> (r: bool)
        ensures
            r == (self@.len() == 0),
    {
        self.labels.len() == 0
    }

    /// The label at position `i`, counted from the left.
    pub fn label(&self, i: usize) -> (l: &[u8])
        requires
            i < self@.len(),
        ensures
            l@ == self@[i as int],
            is_label(l@),
    {
        proof {
            use_type_invariant(self);
            assert(is_label(rows(self.labels@)[i as int]));
        }
        self.labels[i].as_slice()
    }

    /// Whether this name is `name` or one of its ancestors.
    pub fn zone_of(&self, name: &Name) -> (r: bool)
        ensures
            r == is_zone_of(self@, name@),
    {
        let n = self.labels.len();
        let m = name.labels.len();
        if n > m {
            return false;
        }
        let off = m - n;
        let mut i: usize = 0;
        while i < n
            invariant
                i <= n,
                n == self.labels.len(),
                m == name.labels.len(),
                off == m - n,
                forall|k: int| 0 <= k < i ==> self.labels@[k]@ == name.labels@[off + k]@,
            decreases n - i,
        {
            if !bytes_eq(self.labels[i].as_slice(), name.labels[off + i].as_slice()) {
                assert(name@.skip(name@.len() - self@.len())[i as int] != self@[i as int]);
                return false;
            }
            i += 1;
        }
        assert(name@.skip(name@.len() - self@.len()) =~= self@);
        true
    }

    /// Whether the two names have the same labels.
    pub fn same_as(&self, other: &Name) -> (r: bool)
        ensures
            r == (self@ == other@),
    {
        if self.labels.len() != other.labels.len() {
            return false;
        }
        let r = self.zone_of(other);
        proof {
            assert(other@.skip(0) =~= other@);
        }
        r
    }

    /// The name without its leftmost label; the root is its own parent.
    pub fn base_name(&self) -> (out: Name)
        ensures
            out@ == parent(self@),
    {
        proof {
            use_type_invariant(self);
        }
        let mut labels: Vec<Vec<u8>> = Vec::new();
        let mut i: usize = 1;
        if self.labels.len() == 0 {
            assert(rows(labels@) =~= self@);
            return Name { labels };
        }
        while i < self.labels.len()
            invariant
                1 <= i <= self.labels.len(),
                labels@.len() == i - 1,
                forall|k: int| 0 <= k < i - 1 ==> labels@[k]@ == self.labels@[k + 1]@,
            decreases self.labels.len() - i,
        {
            labels.push(vstd::slice::slice_to_vec(self.labels[i].as_slice()));
            i += 1;
        }
        assert(rows(labels@) =~= self@.skip(1));
        assert forall|k: int| 0 <= k < rows(labels@).len() implies is_label(
            #[trigger] rows(labels@)[k],
        ) by {
            assert(is_label(rows(self.labels@)[k + 1]));
        }
        Name { labels }
    }

    /// Order of this name and `other`: -1 if this one comes first, 0 if they
    /// are the same, 1 if it comes last.
    pub fn order(&self, other: &Name) -> (c: i8)
        ensures
            c == name_order(self@, other@),
    {
        let mut i: usize = self.labels.len();
        let mut j: usize = other.labels.len();
        assert(self@.take(i as int) =~= self@);
        assert(other@.take(j as int) =~= other@);
        while i > 0 && j > 0
            invariant
                i <= self.labels.len(),
                j <= other.labels.len(),
                name_order(self@, other@) == name_order(self@.take(i as int), other@.take(j as int)),
            decreases i,
        {
            let c = order_bytes(self.labels[i - 1].as_slice(), other.labels[j - 1].as_slice());
            proof {
                let a = self@.take(i as int);
                let b = other@.take(j as int);
                assert(a.last() == self.labels@[i - 1]@);
                assert(b.last() == other.labels@[j - 1]@);
                assert(a.drop_last() =~= self@.take(i - 1));
                assert(b.drop_last() =~= other@.take(j - 1));
            }
            if c != 0 {
                return c;
            }
            i -= 1;
            j -= 1;
        }
        if i == 0 && j == 0 {
            0
        } else if i == 0 {
            -1
        } else {
            1
        }
    }
}

/// Order of two byte strings: -1, 0 or 1.
pub fn order_bytes(a: &[u8], b: &[u8]) -> (c: i8)
    ensures
        c == bytes_order(a@, b@),
{
    let mut i: usize = 0;
    assert(a@.skip(0) =~= a@);
    assert(b@.skip(0) =~= b@);
    while i < a.len() && i < b.len()
        invariant
            i <= a.len(),
            i <= b.len(),
            bytes_order(a@, b@) == bytes_order(a@.skip(i as int), b@.skip(i as int)),
        decreases a.len() - i,
    {
        proof {
            let x = a@.skip(i as int);
            let y = b@.skip(i as int);
            assert(x[0] == a@[i as int]);
            assert(y[0] == b@[i as int]);
            assert(x.skip(1) =~= a@.skip(i + 1));
            assert(y.skip(1) =~= b@.skip(i + 1));
        }
        if a[i] < b[i] {
            return -1;
        }
        if a[i] > b[i] {
            return 1;
        }
        i += 1;
    }
    if i == a.len() && i == b.len() {
        0
    } else if i == a.len() {
        -1
    } else {
        1
    }
}

} // verus!
