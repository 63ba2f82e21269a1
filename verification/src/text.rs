//! Byte-level text: character classes, case folding, splitting a line into
//! words, and decimal numbers.

use vstd::prelude::*;
use vstd::string::StringSliceAdditionalSpecFns;

verus! {

pub const TAB: u8 = 9;

pub const LINE_FEED: u8 = 10;

pub const CARRIAGE_RETURN: u8 = 13;

pub const SPACE: u8 = 32;

pub const HASH: u8 = 35;

pub const STAR: u8 = 42;

pub const PLUS: u8 = 43;

pub const COMMA: u8 = 44;

pub const MINUS: u8 = 45;

pub const DOT: u8 = 46;

pub const SLASH: u8 = 47;

pub const DIGIT_ZERO: u8 = 48;

pub const COLON: u8 = 58;

pub const QUESTION: u8 = 63;

pub const BRACKET_OPEN: u8 = 91;

pub const BACKSLASH: u8 = 92;

pub const BRACKET_CLOSE: u8 = 93;

pub const UNDERSCORE: u8 = 95;

/// A space or a tab: what separates the words of a line.
pub open spec fn is_space(b: u8) -> bool {
    b == SPACE || b == TAB
}

/// A byte that ends a line.
pub open spec fn is_line_end(b: u8) -> bool {
    b == LINE_FEED || b == CARRIAGE_RETURN
}

pub open spec fn is_upper(b: u8) -> bool {
    65 <= b <= 90
}

pub open spec fn is_lower(b: u8) -> bool {
    97 <= b <= 122
}

pub open spec fn is_digit(b: u8) -> bool {
    48 <= b <= 57
}

/// The byte with an ASCII capital letter replaced by its small letter.
pub open spec fn lower(b: u8) -> u8 {
    if is_upper(b) {
        (b + 32) as u8
    } else {
        b
    }
}

/// The text with every ASCII capital letter replaced by its small letter.
pub open spec fn lowered(s: Seq<u8>) -> Seq<u8> {
    Seq::new(s.len(), |i: int| lower(s[i]))
}

/// No ASCII capital letter occurs in the text.
pub open spec fn is_lowered(s: Seq<u8>) -> bool {
    forall|i: int| 0 <= i < s.len() ==> !is_upper(#[trigger] s[i])
}

/// The text holds neither a word separator nor a line end.
pub open spec fn is_word(s: Seq<u8>) -> bool {
    &&& s.len() > 0
    &&& forall|i: int| 0 <= i < s.len() ==> !is_space(#[trigger] s[i]) && !is_line_end(s[i])
}

/// The views of a list of byte vectors.
pub open spec fn rows(v: Seq<Vec<u8>>) -> Seq<Seq<u8>> {
    Seq::new(v.len(), |i: int| v[i]@)
}

/// Length of the first line of `s`: the index of its first line end, or its
/// whole length.
pub open spec fn line_len(s: Seq<u8>) -> int
    decreases s.len(),
{
    if s.len() == 0 || is_line_end(s[0]) {
        0
    } else {
        1 + line_len(s.skip(1))
    }
}

/// Length of the run of non-separator bytes at the start of `s`.
pub open spec fn word_len(s: Seq<u8>) -> int
    decreases s.len(),
{
    if s.len() == 0 || is_space(s[0]) {
        0
    } else {
        1 + word_len(s.skip(1))
    }
}

/// The maximal runs of non-separator bytes of `s`, in order.
pub open spec fn words(s: Seq<u8>) -> Seq<Seq<u8>>
    decreases s.len(),
{
    if s.len() == 0 {
        Seq::empty()
    } else if is_space(s[0]) {
        words(s.skip(1))
    } else {
        let n = word_len(s);
        if 0 < n <= s.len() {
            seq![s.take(n)] + words(s.skip(n))
        } else {
            Seq::empty()
        }
    }
}

/// Length of the run of bytes other than `sep` at the start of `s`.
pub open spec fn field_len(s: Seq<u8>, sep: u8) -> int
    decreases s.len(),
{
    if s.len() == 0 || s[0] == sep {
        0
    } else {
        1 + field_len(s.skip(1), sep)
    }
}

/// The pieces of `s` between occurrences of `sep`; a text without `sep` is
/// one piece, and an empty piece stands wherever two separators meet.
pub open spec fn fields(s: Seq<u8>, sep: u8) -> Seq<Seq<u8>>
    decreases s.len(),
{
    let n = field_len(s, sep);
    if 0 <= n < s.len() {
        seq![s.take(n)] + fields(s.skip(n + 1), sep)
    } else {
        seq![s]
    }
}

/// The pieces written one after another with `sep` between them.
pub open spec fn join_fields(parts: Seq<Seq<u8>>, sep: u8) -> Seq<u8>
    decreases parts.len(),
{
    if parts.len() == 0 {
        Seq::empty()
    } else if parts.len() == 1 {
        parts[0]
    } else {
        parts[0] + seq![sep] + join_fields(parts.skip(1), sep)
    }
}

/// The byte `sep` does not occur in the text.
pub open spec fn is_free_of(s: Seq<u8>, sep: u8) -> bool {
    forall|i: int| 0 <= i < s.len() ==> #[trigger] s[i] != sep
}

/// The words written one after another with a single space between them.
pub open spec fn join_words(ws: Seq<Seq<u8>>) -> Seq<u8> {
    join_fields(ws, SPACE)
}

pub proof fn lemma_field_len_bounds(s: Seq<u8>, sep: u8)
    ensures
        0 <= field_len(s, sep) <= s.len(),
        forall|i: int| 0 <= i < field_len(s, sep) ==> #[trigger] s[i] != sep,
        field_len(s, sep) < s.len() ==> s[field_len(s, sep)] == sep,
    decreases s.len(),
{
    if s.len() == 0 || s[0] == sep {
    } else {
        lemma_field_len_bounds(s.skip(1), sep);
        assert forall|i: int| 0 <= i < field_len(s, sep) implies #[trigger] s[i] != sep by {
            if i > 0 {
                assert(s[i] == s.skip(1)[i - 1]);
            }
        }
        if field_len(s, sep) < s.len() {
            assert(s[field_len(s, sep)] == s.skip(1)[field_len(s, sep) - 1]);
        }
    }
}

/// A run of `n` bytes other than `sep` that ends the text or stands before
/// `sep` is the first field.
pub proof fn lemma_field_len_is(s: Seq<u8>, sep: u8, n: int)
    requires
        0 <= n <= s.len(),
        forall|i: int| 0 <= i < n ==> #[trigger] s[i] != sep,
        n < s.len() ==> s[n] == sep,
    ensures
        field_len(s, sep) == n,
    decreases n,
{
    if n == 0 {
    } else {
        assert(s[0] != sep);
        let t = s.skip(1);
        assert forall|i: int| 0 <= i < n - 1 implies #[trigger] t[i] != sep by {
            assert(t[i] == s[i + 1]);
        }
        if n - 1 < t.len() {
            assert(t[n - 1] == s[n]);
        }
        lemma_field_len_is(t, sep, n - 1);
    }
}

/// Splitting what `join_fields` wrote gives the pieces back.
pub proof fn lemma_fields_of_join(parts: Seq<Seq<u8>>, sep: u8)
    requires
        parts.len() > 0,
        forall|k: int| 0 <= k < parts.len() ==> is_free_of(#[trigger] parts[k], sep),
    ensures
        fields(join_fields(parts, sep), sep) == parts,
    decreases parts.len(),
{
    let w = parts[0];
    assert(is_free_of(w, sep));
    if parts.len() == 1 {
        lemma_field_len_is(w, sep, w.len() as int);
        assert(fields(w, sep) == seq![w]);
        assert(seq![w] == parts);
    } else {
        let rest = parts.skip(1);
        let tail = join_fields(rest, sep);
        let s = w + seq![sep] + tail;
        assert forall|i: int| 0 <= i < w.len() implies #[trigger] s[i] != sep by {
            assert(s[i] == w[i]);
        }
        assert(s[w.len() as int] == sep);
        lemma_field_len_is(s, sep, w.len() as int);
        assert(s.take(w.len() as int) == w);
        assert(s.skip(w.len() as int + 1) == tail);
        assert forall|k: int| 0 <= k < rest.len() implies is_free_of(#[trigger] rest[k], sep) by {
            assert(rest[k] == parts[k + 1]);
        }
        lemma_fields_of_join(rest, sep);
        assert(fields(s, sep) == seq![w] + rest);
        assert(seq![w] + rest == parts);
    }
}

/// The first line of a text ends before its first line end, or with the
/// text.
pub proof fn lemma_line_len_bounds(s: Seq<u8>)
    ensures
        0 <= line_len(s) <= s.len(),
        forall|i: int| 0 <= i < line_len(s) ==> !is_line_end(#[trigger] s[i]),
        line_len(s) < s.len() ==> is_line_end(s[line_len(s)]),
    decreases s.len(),
{
    if s.len() == 0 || is_line_end(s[0]) {
    } else {
        lemma_line_len_bounds(s.skip(1));
        assert forall|i: int| 0 <= i < line_len(s) implies !is_line_end(#[trigger] s[i]) by {
            if i > 0 {
                assert(s[i] == s.skip(1)[i - 1]);
            }
        }
        if line_len(s) < s.len() {
            assert(s[line_len(s)] == s.skip(1)[line_len(s) - 1]);
        }
    }
}

/// A run of `n` non-separator bytes that ends the text or stands before a
/// separator is the first word.
pub proof fn lemma_word_len_is(s: Seq<u8>, n: int)
    requires
        0 <= n <= s.len(),
        forall|i: int| 0 <= i < n ==> !is_space(#[trigger] s[i]),
        n < s.len() ==> is_space(s[n]),
    ensures
        word_len(s) == n,
    decreases n,
{
    if n == 0 {
    } else {
        assert(!is_space(s[0]));
        let t = s.skip(1);
        assert forall|i: int| 0 <= i < n - 1 implies !is_space(#[trigger] t[i]) by {
            assert(t[i] == s[i + 1]);
        }
        if n - 1 < t.len() {
            assert(t[n - 1] == s[n]);
        }
        lemma_word_len_is(t, n - 1);
    }
}

/// Every byte of a text other than the separator lies in one of its fields.
pub proof fn lemma_fields_cover(s: Seq<u8>, sep: u8, at: int)
    requires
        0 <= at < s.len(),
        s[at] != sep,
    ensures
        exists|k: int, j: int|
            0 <= k < fields(s, sep).len() && 0 <= j < fields(s, sep)[k].len()
                && #[trigger] fields(s, sep)[k][j] == s[at],
    decreases s.len(),
{
    let n = field_len(s, sep);
    lemma_field_len_bounds(s, sep);
    let fs = fields(s, sep);
    if 0 <= n < s.len() {
        let t = s.skip(n + 1);
        assert(fs == seq![s.take(n)] + fields(t, sep));
        if at < n {
            assert(fs[0][at] == s[at]);
        } else {
            assert(at > n);
            assert(t[at - n - 1] == s[at]);
            lemma_fields_cover(t, sep, at - n - 1);
            let (k, j) = choose|k: int, j: int|
                0 <= k < fields(t, sep).len() && 0 <= j < fields(t, sep)[k].len()
                    && #[trigger] fields(t, sep)[k][j] == t[at - n - 1];
            assert(fs[k + 1] == fields(t, sep)[k]);
            assert(fs[k + 1][j] == s[at]);
        }
    } else {
        assert(fs == seq![s]);
        assert(fs[0][at] == s[at]);
    }
}

/// Splitting what `join_words` wrote gives the words back.
pub proof fn lemma_words_of_join(ws: Seq<Seq<u8>>)
    requires
        forall|k: int| 0 <= k < ws.len() ==> is_word(#[trigger] ws[k]),
    ensures
        words(join_words(ws)) == ws,
    decreases ws.len(),
{
    if ws.len() == 0 {
    } else if ws.len() == 1 {
        let w = ws[0];
        assert(is_word(w));
        assert(!is_space(w[0]));
        lemma_word_len_is(w, w.len() as int);
        assert(w.take(w.len() as int) == w);
        assert(w.skip(w.len() as int) == Seq::<u8>::empty());
        assert(words(Seq::<u8>::empty()) == Seq::<Seq<u8>>::empty());
        assert(words(w) == seq![w] + Seq::<Seq<u8>>::empty());
        assert(words(w) == ws);
    } else {
        let w = ws[0];
        let rest = ws.skip(1);
        let tail = join_fields(rest, SPACE);
        let s = w + seq![SPACE] + tail;
        assert(is_word(w));
        assert(s[0] == w[0]);
        assert forall|i: int| 0 <= i < w.len() implies !is_space(#[trigger] s[i]) by {
            assert(s[i] == w[i]);
        }
        assert(s[w.len() as int] == SPACE);
        lemma_word_len_is(s, w.len() as int);
        assert(s.take(w.len() as int) == w);
        let after = s.skip(w.len() as int);
        assert(after == seq![SPACE] + tail);
        assert(after[0] == SPACE);
        assert(after.skip(1) == tail);
        assert(words(after) == words(tail));
        assert forall|k: int| 0 <= k < rest.len() implies is_word(#[trigger] rest[k]) by {
            assert(rest[k] == ws[k + 1]);
        }
        lemma_words_of_join(rest);
        assert(words(s) == seq![w] + rest);
        assert(seq![w] + rest == ws);
    }
}

/// Splits a text at every occurrence of `sep`.
pub fn split_fields(s: &[u8], sep: u8) -> (out: Vec<Vec<u8>>)
    ensures
        rows(out@) == fields(s@, sep),
{
    let mut out: Vec<Vec<u8>> = Vec::new();
    let mut start: usize = 0;
    let mut i: usize = 0;
    assert(rows(out@) == Seq::<Seq<u8>>::empty());
    assert(s@.skip(0) == s@);
    while i < s.len()
        invariant
            start <= i <= s.len(),
            fields(s@, sep) == rows(out@) + fields(s@.skip(start as int), sep),
            field_len(s@.skip(start as int), sep) == (i - start) + field_len(s@.skip(i as int), sep),
        decreases s.len() - i,
    {
        proof {
            let t = s@.skip(i as int);
            assert(t[0] == s@[i as int]);
            assert(t.skip(1) == s@.skip(i + 1));
        }
        if s[i] == sep {
            let piece = vstd::slice::slice_to_vec(vstd::slice::slice_subrange(s, start, i));
            proof {
                let rest = s@.skip(start as int);
                assert(field_len(rest, sep) == i - start);
                assert(rest.take(i - start) == s@.subrange(start as int, i as int));
                assert(rest.skip(i - start + 1) == s@.skip(i + 1));
            }
            let ghost before = rows(out@);
            out.push(piece);
            assert(rows(out@) == before + seq![s@.subrange(start as int, i as int)]);
            start = i + 1;
        }
        i += 1;
    }
    let piece = vstd::slice::slice_to_vec(vstd::slice::slice_subrange(s, start, i));
    proof {
        let rest = s@.skip(start as int);
        assert(s@.skip(i as int).len() == 0);
        assert(field_len(rest, sep) == rest.len());
        assert(fields(rest, sep) == seq![rest]);
        assert(rest == s@.subrange(start as int, i as int));
    }
    let ghost before = rows(out@);
    out.push(piece);
    assert(rows(out@) == before + seq![s@.subrange(start as int, i as int)]);
    out
}

/// Appends `piece` to `out`.
pub fn push_bytes(out: &mut Vec<u8>, piece: &[u8])
    ensures
        final(out)@ == old(out)@ + piece@,
{
    let mut i: usize = 0;
    while i < piece.len()
        invariant
            i <= piece.len(),
            out@ == old(out)@ + piece@.take(i as int),
        decreases piece.len() - i,
    {
        out.push(piece[i]);
        assert(piece@.take(i + 1) == piece@.take(i as int).push(piece@[i as int]));
        i += 1;
    }
    assert(piece@.take(i as int) == piece@);
}

/// Writes the pieces one after another with `sep` between them.
pub fn join_with(parts: &Vec<Vec<u8>>, sep: u8) -> (out: Vec<u8>)
    ensures
        out@ == join_fields(rows(parts@), sep),
{
    let mut out: Vec<u8> = Vec::new();
    let mut i: usize = parts.len();
    let ghost all = rows(parts@);
    assert(all.skip(all.len() as int) == Seq::<Seq<u8>>::empty());
    while i > 0
        invariant
            i <= parts.len(),
            all == rows(parts@),
            out@ == join_fields(all.skip(i as int), sep),
        decreases i,
    {
        i -= 1;
        let mut next: Vec<u8> = Vec::new();
        push_bytes(&mut next, parts[i].as_slice());
        proof {
            let cur = all.skip(i as int);
            assert(cur[0] == parts@[i as int]@);
            assert(cur.skip(1) == all.skip(i + 1));
        }
        if i + 1 < parts.len() {
            next.push(sep);
            push_bytes(&mut next, out.as_slice());
        } else {
            assert(all.skip(i as int).len() == 1);
        }
        out = next;
    }
    assert(all.skip(0) == all);
    out
}

/// The bytes of the first line of `input`, without its line end.
pub fn first_line(input: &[u8]) -> (line: &[u8])
    ensures
        line@ == input@.take(line_len(input@)),
{
    let mut i: usize = 0;
    assert(input@.skip(0) == input@);
    while i < input.len() && input[i] != LINE_FEED && input[i] != CARRIAGE_RETURN
        invariant
            i <= input.len(),
            line_len(input@) == i + line_len(input@.skip(i as int)),
        decreases input.len() - i,
    {
        proof {
            let t = input@.skip(i as int);
            assert(t[0] == input@[i as int]);
            assert(t.skip(1) == input@.skip(i + 1));
        }
        i += 1;
    }
    proof {
        let t = input@.skip(i as int);
        if i < input.len() {
            assert(t[0] == input@[i as int]);
        }
        assert(input@.take(i as int) == input@.subrange(0, i as int));
    }
    vstd::slice::slice_subrange(input, 0, i)
}

/// Splits a line into its words.
pub fn split_words(line: &[u8]) -> (out: Vec<Vec<u8>>)
    ensures
        rows(out@) == words(line@),
{
    let mut out: Vec<Vec<u8>> = Vec::new();
    let mut i: usize = 0;
    assert(rows(out@) == Seq::<Seq<u8>>::empty());
    assert(line@.skip(0) == line@);
    while i < line.len()
        invariant
            i <= line.len(),
            words(line@) == rows(out@) + words(line@.skip(i as int)),
        decreases line.len() - i,
    {
        let ghost rest = line@.skip(i as int);
        assert(rest[0] == line@[i as int]);
        if line[i] == SPACE || line[i] == TAB {
            assert(rest.skip(1) == line@.skip(i + 1));
            i += 1;
        } else {
            let start = i;
            while i < line.len() && line[i] != SPACE && line[i] != TAB
                invariant
                    start <= i <= line.len(),
                    word_len(rest) == (i - start) + word_len(line@.skip(i as int)),
                    rest == line@.skip(start as int),
                decreases line.len() - i,
            {
                proof {
                    let t = line@.skip(i as int);
                    assert(t[0] == line@[i as int]);
                    assert(t.skip(1) == line@.skip(i + 1));
                }
                i += 1;
            }
            proof {
                let t = line@.skip(i as int);
                if i < line.len() {
                    assert(t[0] == line@[i as int]);
                }
                assert(word_len(rest) == i - start);
                assert(rest.take(i - start) == line@.subrange(start as int, i as int));
                assert(rest.skip(i - start) == line@.skip(i as int));
            }
            let word = vstd::slice::slice_to_vec(vstd::slice::slice_subrange(line, start, i));
            let ghost before = rows(out@);
            out.push(word);
            assert(rows(out@) == before + seq![rest.take(i - start)]);
        }
    }
    assert(line@.skip(i as int) == Seq::<u8>::empty());
    out
}

/// The value of a digit in a base up to 16: `0` to `9`, then `a` to `f` in
/// either case; `None` for any other byte and for a digit the base lacks.
pub open spec fn digit_value(b: u8, base: nat) -> Option<nat> {
    let v: int = if is_digit(b) {
        b - 48
    } else if 97 <= b <= 102 {
        b - 87
    } else if 65 <= b <= 70 {
        b - 55
    } else {
        16
    };
    if v < base {
        Some(v as nat)
    } else {
        None
    }
}

/// The digit for a value below 16: `0` to `9`, then `a` to `f`.
pub open spec fn digit_for(v: nat) -> u8 {
    if v < 10 {
        (48 + v) as u8
    } else {
        (87 + v) as u8
    }
}

/// A non-empty run of digits of the base.
pub open spec fn is_number(s: Seq<u8>, base: nat) -> bool {
    &&& s.len() > 0
    &&& forall|i: int| 0 <= i < s.len() ==> digit_value(#[trigger] s[i], base).is_some()
}

/// The value of a run of digits, most significant first.
pub open spec fn number(s: Seq<u8>, base: nat) -> nat
    decreases s.len(),
{
    if s.len() == 0 {
        0
    } else {
        number(s.drop_last(), base) * base + digit_value(s.last(), base).unwrap_or(0)
    }
}

/// The digits of `n` in the base, without leading zeros and with small letters.
pub open spec fn numeral(n: nat, base: nat) -> Seq<u8>
    decreases n,
    via numeral_decreases
{
    if n < base || base < 2 {
        seq![digit_for(n)]
    } else {
        numeral(n / base, base).push(digit_for(n % base))
    }
}

#[via_fn]
proof fn numeral_decreases(n: nat, base: nat) {
    if !(n < base || base < 2) {
        assert(n / base < n) by (nonlinear_arith)
            requires
                n >= base,
                base >= 2,
        ;
    }
}

/// The decimal digits of `n`, without leading zeros.
pub open spec fn digits(n: nat) -> Seq<u8> {
    numeral(n, 10)
}

/// What a word means as a number of the base that is at most `max`: its
/// value, provided it is all digits and within the bound.
pub open spec fn parse_number_spec(s: Seq<u8>, base: nat, max: u64) -> Option<u64> {
    if is_number(s, base) && number(s, base) <= max {
        Some(number(s, base) as u64)
    } else {
        None
    }
}

/// What a word means as an unsigned decimal number below `2^64`.
pub open spec fn parse_u64_spec(s: Seq<u8>) -> Option<u64> {
    parse_number_spec(s, 10, u64::MAX)
}

/// Reading the digits of a number gives the number back; the digits are
/// small letters and form a word.
pub proof fn lemma_numeral_reads_back(n: nat, base: nat)
    requires
        2 <= base <= 16,
    ensures
        is_number(numeral(n, base), base),
        number(numeral(n, base), base) == n,
        is_word(numeral(n, base)),
        is_lowered(numeral(n, base)),
        forall|i: int|
            0 <= i < numeral(n, base).len() ==> is_digit(#[trigger] numeral(n, base)[i]) || 97
                <= numeral(n, base)[i] <= 102,
    decreases n,
{
    let s = numeral(n, base);
    if n < base {
        assert(s.drop_last() == Seq::<u8>::empty());
        assert(number(s.drop_last(), base) == 0);
        assert(digit_value(s.last(), base) == Some(n));
        assert(number(s, base) == 0 * base + n);
    } else {
        lemma_numeral_reads_back(n / base, base);
        let head = numeral(n / base, base);
        assert(s.drop_last() == head);
        let d = n % base;
        let q = n / base;
        assert(d < base && q * base + d == n && q < n) by (nonlinear_arith)
            requires
                base >= 2,
                n >= base,
                d == n % base,
                q == n / base,
        ;
        assert(s.last() == digit_for(d));
        assert(digit_value(s.last(), base) == Some(d));
        assert(number(s, base) == number(head, base) * base + d);
        assert forall|i: int| 0 <= i < s.len() implies digit_value(#[trigger] s[i], base).is_some()
            && !is_space(s[i]) && !is_line_end(s[i]) && !is_upper(s[i]) && (is_digit(s[i]) || 97
            <= s[i] <= 102) by {
            if i < s.len() - 1 {
                assert(s[i] == head[i]);
            }
        }
    }
}

/// The value of a digit run is at least the value of each of its prefixes.
pub proof fn lemma_number_grows(s: Seq<u8>, base: nat, k: int)
    requires
        is_number(s, base),
        base >= 1,
        0 <= k <= s.len(),
    ensures
        number(s.take(k), base) <= number(s, base),
    decreases s.len() - k,
{
    if k == s.len() {
        assert(s.take(k) == s);
    } else {
        lemma_number_grows(s, base, k + 1);
        let t = s.take(k + 1);
        assert(t.drop_last() == s.take(k));
        assert(t.last() == s[k]);
        let x = number(s.take(k), base);
        assert(x * base >= x) by (nonlinear_arith)
            requires
                base >= 1,
                x >= 0,
        ;
    }
}

/// The value of a digit in a base up to 16.
pub fn digit(b: u8, base: u8) -> (r: Option<u8>)
    requires
        base <= 16,
    ensures
        match r {
            Some(v) => digit_value(b, base as nat) == Some(v as nat),
            None => digit_value(b, base as nat).is_none(),
        },
{
    let v: u8 = if 48 <= b && b <= 57 {
        b - 48
    } else if 97 <= b && b <= 102 {
        b - 87
    } else if 65 <= b && b <= 70 {
        b - 55
    } else {
        16
    };
    if v < base {
        Some(v)
    } else {
        None
    }
}

/// Reads a word as a number of the base that is at most `max`.
pub fn parse_number(word: &[u8], base: u8, max: u64) -> (r: Option<u64>)
    requires
        2 <= base <= 16,
    ensures
        r == parse_number_spec(word@, base as nat, max),
{
    if word.len() == 0 {
        return None;
    }
    let mut acc: u64 = 0;
    let mut i: usize = 0;
    assert(word@.take(0) == Seq::<u8>::empty());
    while i < word.len()
        invariant
            i <= word.len(),
            word.len() > 0,
            2 <= base <= 16,
            forall|k: int| 0 <= k < i ==> digit_value(#[trigger] word@[k], base as nat).is_some(),
            acc == number(word@.take(i as int), base as nat),
            acc <= max,
        decreases word.len() - i,
    {
        let d = match digit(word[i], base) {
            Some(d) => d,
            None => {
                return None;
            },
        };
        proof {
            let t = word@.take(i + 1);
            assert(t.drop_last() == word@.take(i as int));
            assert(t.last() == word@[i as int]);
            assert(number(t, base as nat) == acc * base + d);
        }
        if d as u64 > max || acc > (max - d as u64) / (base as u64) {
            proof {
                if is_number(word@, base as nat) {
                    lemma_number_grows(word@, base as nat, i + 1);
                }
                assert(acc * base + d > max) by (nonlinear_arith)
                    requires
                        d > max || (d <= max && acc > (max - d) / (base as int)),
                        base >= 2,
                        acc >= 0,
                        d >= 0,
                ;
            }
            return None;
        }
        assert(acc * base + d <= max) by (nonlinear_arith)
            requires
                acc <= (max - d) / (base as int),
                base >= 2,
                d <= max,
                acc >= 0,
        ;
        acc = acc * (base as u64) + d as u64;
        i += 1;
    }
    assert(word@.take(i as int) == word@);
    Some(acc)
}

/// Reads a word as an unsigned decimal number.
pub fn parse_u64(word: &[u8]) -> (r: Option<u64>)
    ensures
        r == parse_u64_spec(word@),
{
    parse_number(word, 10, u64::MAX)
}

/// Appends the digits of `n` in the base to `out`.
pub fn push_number(n: u64, base: u8, out: &mut Vec<u8>)
    requires
        2 <= base <= 16,
    ensures
        final(out)@ == old(out)@ + numeral(n as nat, base as nat),
    decreases n,
{
    let ghost text = numeral(n as nat, base as nat);
    let d = (n % (base as u64)) as u8;
    assert(n % (base as u64) < base) by (nonlinear_arith)
        requires
            base >= 2,
    ;
    if n >= base as u64 {
        assert(n / (base as u64) < n) by (nonlinear_arith)
            requires
                n >= base,
                base >= 2,
        ;
        push_number(n / (base as u64), base, out);
        assert(text == numeral((n / (base as u64)) as nat, base as nat).push(digit_for(d as nat)));
    } else {
        assert(d == n) by (nonlinear_arith)
            requires
                n < base,
                d == n % (base as u64),
        ;
        assert(text == seq![digit_for(d as nat)]);
    }
    out.push(
        if d < 10 {
            48 + d
        } else {
            87 + d
        },
    );
    assert(out@ =~= old(out)@ + text);
}

/// Appends the decimal digits of `n` to `out`.
pub fn push_u64(n: u64, out: &mut Vec<u8>)
    ensures
        final(out)@ == old(out)@ + digits(n as nat),
{
    push_number(n, 10, out)
}

/// The decimal digits of `n`, without leading zeros.
pub fn format_u64(n: u64) -> (out: Vec<u8>)
    ensures
        out@ == digits(n as nat),
{
    let mut out: Vec<u8> = Vec::new();
    push_u64(n, &mut out);
    out
}

/// Whether two texts are the same once ASCII capitals are folded.
pub fn eq_ignore_case(a: &[u8], b: &[u8]) -> (r: bool)
    ensures
        r == (lowered(a@) == lowered(b@)),
{
    if a.len() != b.len() {
        assert(lowered(a@).len() != lowered(b@).len());
        return false;
    }
    let mut i: usize = 0;
    while i < a.len()
        invariant
            i <= a.len(),
            a.len() == b.len(),
            forall|k: int| 0 <= k < i ==> lower(a@[k]) == lower(b@[k]),
        decreases a.len() - i,
    {
        if to_lower(a[i]) != to_lower(b[i]) {
            assert(lowered(a@)[i as int] != lowered(b@)[i as int]);
            return false;
        }
        i += 1;
    }
    assert(lowered(a@) =~= lowered(b@));
    true
}

/// The byte with an ASCII capital letter replaced by its small letter.
pub fn to_lower(b: u8) -> (r: u8)
    ensures
        r == lower(b),
{
    if 65 <= b && b <= 90 {
        b + 32
    } else {
        b
    }
}

/// The text with every ASCII capital letter replaced by its small letter.
pub fn to_lowered(s: &[u8]) -> (out: Vec<u8>)
    ensures
        out@ == lowered(s@),
{
    let mut out: Vec<u8> = Vec::new();
    let mut i: usize = 0;
    while i < s.len()
        invariant
            i <= s.len(),
            out@.len() == i,
            forall|k: int| 0 <= k < i ==> out@[k] == lower(s@[k]),
        decreases s.len() - i,
    {
        out.push(to_lower(s[i]));
        i += 1;
    }
    assert(out@ =~= lowered(s@));
    out
}

/// Whether two texts hold the same bytes.
pub fn bytes_eq(a: &[u8], b: &[u8]) -> (r: bool)
    ensures
        r == (a@ == b@),
{
    if a.len() != b.len() {
        return false;
    }
    let mut i: usize = 0;
    while i < a.len()
        invariant
            i <= a.len(),
            a.len() == b.len(),
            forall|k: int| 0 <= k < i ==> a@[k] == b@[k],
        decreases a.len() - i,
    {
        if a[i] != b[i] {
            return false;
        }
        i += 1;
    }
    assert(a@ =~= b@);
    true
}

/// Whether `s` is a word.
pub fn check_word(s: &[u8]) -> (r: bool)
    ensures
        r == is_word(s@),
{
    if s.len() == 0 {
        return false;
    }
    let mut i: usize = 0;
    while i < s.len()
        invariant
            i <= s.len(),
            forall|k: int| 0 <= k < i ==> !is_space(#[trigger] s@[k]) && !is_line_end(s@[k]),
        decreases s.len() - i,
    {
        let b = s[i];
        if b == SPACE || b == TAB || b == LINE_FEED || b == CARRIAGE_RETURN {
            return false;
        }
        i += 1;
    }
    true
}

/// The byte of `s` that stands `k` places before its end, or 0 where `s` is
/// shorter.
pub open spec fn from_end(s: Seq<u8>, k: int) -> u8 {
    if 0 < k <= s.len() {
        s[s.len() - k]
    } else {
        0
    }
}

/// A number that tells the keywords of the configuration apart: it is made
/// of the length of a word and of its last, fourth last and ninth last
/// bytes.
#[verifier::opaque]
pub open spec fn word_print(s: Seq<u8>) -> int {
    ((s.len() * 256 + from_end(s, 1)) * 256 + from_end(s, 4)) * 256 + from_end(s, 9)
}

/// The bytes of a keyword.
pub open spec fn kw(key: &str) -> Seq<u8> {
    key.spec_bytes()
}

/// The bytes of a keyword written in ASCII are its characters.
pub proof fn lemma_kw(key: &str)
    requires
        key.is_ascii(),
    ensures
        kw(key) == ascii(key@),
{
    broadcast use vstd::string::is_ascii_spec_bytes;

    assert(kw(key) =~= ascii(key@));
}

/// Whether `word` is the keyword `key`.
pub fn is_keyword(word: &[u8], key: &str) -> (r: bool)
    ensures
        r == (word@ == kw(key)),
{
    bytes_eq(word, key.as_bytes())
}

/// Whether `s` starts with the bytes of `p`.
pub open spec fn starts_with(s: Seq<u8>, p: Seq<u8>) -> bool {
    p.len() <= s.len() && s.take(p.len() as int) == p
}

/// Whether `s` ends with the bytes of `p`.
pub open spec fn ends_with(s: Seq<u8>, p: Seq<u8>) -> bool {
    p.len() <= s.len() && s.skip(s.len() - p.len()) == p
}

/// Whether `s` ends with the keyword `key`.
pub fn has_suffix(s: &[u8], key: &str) -> (r: bool)
    ensures
        r == ends_with(s@, kw(key)),
{
    let k = key.as_bytes();
    if k.len() > s.len() {
        return false;
    }
    let tail = vstd::slice::slice_subrange(s, s.len() - k.len(), s.len());
    assert(tail@ =~= s@.skip(s@.len() - k@.len()));
    bytes_eq(tail, k)
}

/// Whether `s` starts with the keyword `key`.
pub fn has_prefix(s: &[u8], key: &str) -> (r: bool)
    ensures
        r == starts_with(s@, kw(key)),
{
    let k = key.as_bytes();
    if k.len() > s.len() {
        return false;
    }
    bytes_eq(vstd::slice::slice_subrange(s, 0, k.len()), k)
}

/// A byte that can stand in the name of a set: anything but a separator, a
/// line end and `/`.
pub open spec fn is_set_name_byte(b: u8) -> bool {
    !is_space(b) && !is_line_end(b) && b != SLASH
}

/// The name of a set: one byte or more, each a set name byte.
pub open spec fn is_set_name(s: Seq<u8>) -> bool {
    &&& s.len() > 0
    &&& forall|i: int| 0 <= i < s.len() ==> is_set_name_byte(#[trigger] s[i])
}

/// Whether `s` is the name of a set.
pub fn check_set_name(s: &[u8]) -> (r: bool)
    ensures
        r == is_set_name(s@),
{
    if s.len() == 0 {
        return false;
    }
    let mut i: usize = 0;
    while i < s.len()
        invariant
            i <= s.len(),
            forall|k: int| 0 <= k < i ==> is_set_name_byte(#[trigger] s@[k]),
        decreases s.len() - i,
    {
        let b = s[i];
        if b == 32 || b == 9 || b == 10 || b == 13 || b == SLASH {
            assert(!is_set_name_byte(s@[i as int]));
            return false;
        }
        i += 1;
    }
    true
}

/// The bytes of the keyword `key`.
pub fn keyword(key: &str) -> (out: Vec<u8>)
    ensures
        out@ == kw(key),
{
    vstd::slice::slice_to_vec(key.as_bytes())
}

/// The bytes of a text made of ASCII characters.
pub open spec fn ascii(s: Seq<char>) -> Seq<u8> {
    Seq::new(s.len(), |i: int| s[i] as u8)
}

} // verus!
