//! The file that the cache is saved to: a version, a count, and that many
//! records, each with its lengths written before its bytes. Numbers are
//! written most significant byte first.

use crate::cache::is_fresh;
use vstd::prelude::*;

verus! {

/// The version of the format.
pub const VERSION: u16 = 1;

/// The two bytes of a number.
pub open spec fn be16(n: u16) -> Seq<u8> {
    seq![(n / 256) as u8, (n % 256) as u8]
}

/// The number that two bytes stand for.
pub open spec fn u16_of(s: Seq<u8>) -> u16 {
    (s[0] * 256 + s[1]) as u16
}

/// The four bytes of a number.
pub open spec fn be32(n: u32) -> Seq<u8> {
    seq![(n / 256 / 256 / 256) as u8, (n / 256 / 256 % 256) as u8, (n / 256 % 256) as u8, (n
        % 256) as u8]
}

/// The number that four bytes stand for.
pub open spec fn u32_of(s: Seq<u8>) -> u32 {
    (((s[0] * 256 + s[1]) * 256 + s[2]) * 256 + s[3]) as u32
}

/// The eight bytes of a number.
pub open spec fn be64(n: u64) -> Seq<u8> {
    be32((n / 0x1_0000_0000) as u32) + be32((n % 0x1_0000_0000) as u32)
}

/// The number that eight bytes stand for.
pub open spec fn u64_of(s: Seq<u8>) -> u64 {
    (u32_of(s.take(4)) * 0x1_0000_0000 + u32_of(s.skip(4))) as u64
}

/// The bytes of a number stand for the number.
pub proof fn lemma_numbers_read_back(a: u16, b: u32, c: u64)
    ensures
        u16_of(be16(a)) == a,
        u32_of(be32(b)) == b,
        u64_of(be64(c)) == c,
        be16(a).len() == 2,
        be32(b).len() == 4,
        be64(c).len() == 8,
{
    lemma_u32_reads_back(b);
    let hi = (c / 0x1_0000_0000) as u32;
    let lo = (c % 0x1_0000_0000) as u32;
    lemma_u32_reads_back(hi);
    lemma_u32_reads_back(lo);
    assert(be64(c).take(4) =~= be32(hi));
    assert(be64(c).skip(4) =~= be32(lo));
}

proof fn lemma_u32_reads_back(b: u32)
    ensures
        u32_of(be32(b)) == b,
{
    let r1 = b / 256;
    let r2 = r1 / 256;
    let r3 = r2 / 256;
    assert(b == r1 * 256 + b % 256);
    assert(r1 == r2 * 256 + r1 % 256);
    assert(r2 == r3 * 256 + r2 % 256);
    assert(r3 < 256);
}

/// A record of the file.
#[derive(Debug, Clone, PartialEq, Eq, Hash)]
pub struct FileEntry {
    /// What the query asked for, in bytes.
    pub key: Vec<u8>,
    /// The second at which the answer was stored.
    pub stored_at: u64,
    /// The time to live with which it was stored, in seconds.
    pub ttl: u32,
    /// The answer, in bytes.
    pub msg: Vec<u8>,
}

/// The mathematical content of a `FileEntry`.
pub struct RecordSpec {
    pub key: Seq<u8>,
    pub stored_at: u64,
    pub ttl: u32,
    pub msg: Seq<u8>,
}

impl View for FileEntry {
    type V = RecordSpec;

    open spec fn view(&self) -> RecordSpec {
        RecordSpec { key: self.key@, stored_at: self.stored_at, ttl: self.ttl, msg: self.msg@ }
    }
}

/// The views of a list of records.
pub open spec fn records(v: Seq<FileEntry>) -> Seq<RecordSpec> {
    Seq::new(v.len(), |i: int| v[i]@)
}

impl RecordSpec {
    /// Whether the record can be written: its lengths fit their fields.
    pub open spec fn fits(self) -> bool {
        self.key.len() <= u16::MAX && self.msg.len() <= u32::MAX
    }

    /// The bytes of the record: the length of the key, the key, the moment
    /// of storing, the time to live, the length of the answer, the answer.
    pub open spec fn bytes(self) -> Seq<u8> {
        be16(self.key.len() as u16) + self.key + be64(self.stored_at) + be32(self.ttl) + be32(
            self.msg.len() as u32,
        ) + self.msg
    }
}

/// Whether the records can be written: each fits, and so does their count.
pub open spec fn all_fit(rs: Seq<RecordSpec>) -> bool {
    &&& rs.len() <= u32::MAX
    &&& forall|i: int| 0 <= i < rs.len() ==> (#[trigger] rs[i]).fits()
}

/// The bytes of the records, one after another.
pub open spec fn records_bytes(rs: Seq<RecordSpec>) -> Seq<u8>
    decreases rs.len(),
{
    if rs.len() == 0 {
        Seq::empty()
    } else {
        rs[0].bytes() + records_bytes(rs.skip(1))
    }
}

/// The bytes of the file: the version, the count, the records.
pub open spec fn file_bytes(rs: Seq<RecordSpec>) -> Seq<u8> {
    be16(VERSION) + be32(rs.len() as u32) + records_bytes(rs)
}

/// The record that starts at place `at`, and the place behind it; `None`
/// where the bytes end before the record does.
pub open spec fn read_record(s: Seq<u8>, at: int) -> Option<(RecordSpec, int)> {
    if 0 <= at && at + 2 <= s.len() {
        let key_len = u16_of(s.subrange(at, at + 2));
        let p = at + 2 + key_len;
        if p + 16 <= s.len() {
            let msg_len = u32_of(s.subrange(p + 12, p + 16));
            if p + 16 + msg_len <= s.len() {
                Some(
                    (
                        RecordSpec {
                            key: s.subrange(at + 2, p),
                            stored_at: u64_of(s.subrange(p, p + 8)),
                            ttl: u32_of(s.subrange(p + 8, p + 12)),
                            msg: s.subrange(p + 16, p + 16 + msg_len),
                        },
                        p + 16 + msg_len,
                    ),
                )
            } else {
                None
            }
        } else {
            None
        }
    } else {
        None
    }
}

/// The `count` records that start at place `at`, and the place behind them.
pub open spec fn read_records(s: Seq<u8>, at: int, count: nat) -> Option<(Seq<RecordSpec>, int)>
    decreases count,
{
    if count == 0 {
        Some((Seq::empty(), at))
    } else {
        match read_record(s, at) {
            Some((r, next)) => match read_records(s, next, (count - 1) as nat) {
                Some((rest, end)) => Some((seq![r] + rest, end)),
                None => None,
            },
            None => None,
        }
    }
}

/// The records of a file; `None` for a file of another version, for one
/// that ends too early, and for one with bytes behind its last record.
pub open spec fn read_file(s: Seq<u8>) -> Option<Seq<RecordSpec>> {
    if s.len() >= 6 && u16_of(s.subrange(0, 2)) == VERSION {
        match read_records(s, 6, u32_of(s.subrange(2, 6)) as nat) {
            Some((rs, end)) => if end == s.len() {
                Some(rs)
            } else {
                None
            },
            None => None,
        }
    } else {
        None
    }
}

/// The records that are fresh at `now`, in their order.
pub open spec fn fresh_at(rs: Seq<RecordSpec>, now: u64) -> Seq<RecordSpec> {
    rs.filter(|r: RecordSpec| is_fresh(r.stored_at, r.ttl, now))
}

/// What is loaded from a file at `now`: its records that are fresh then;
/// nothing from a file that cannot be read.
pub open spec fn loaded(s: Seq<u8>, now: u64) -> Seq<RecordSpec> {
    match read_file(s) {
        Some(rs) => fresh_at(rs, now),
        None => Seq::empty(),
    }
}

/// Reading the bytes of a record gives the record back, wherever the bytes
/// stand.
pub proof fn lemma_record_round_trip(head: Seq<u8>, r: RecordSpec, tail: Seq<u8>)
    requires
        r.fits(),
    ensures
        read_record(head + r.bytes() + tail, head.len() as int) == Some(
            (r, (head.len() + r.bytes().len()) as int),
        ),
{
    let s = head + r.bytes() + tail;
    let at = head.len() as int;
    let kl = r.key.len() as u16;
    let ml = r.msg.len() as u32;
    lemma_numbers_read_back(kl, r.ttl, r.stored_at);
    lemma_numbers_read_back(kl, ml, r.stored_at);
    let p = at + 2 + kl;
    assert(s.subrange(at, at + 2) =~= be16(kl));
    assert(s.subrange(at + 2, p) =~= r.key);
    assert(s.subrange(p, p + 8) =~= be64(r.stored_at));
    assert(s.subrange(p + 8, p + 12) =~= be32(r.ttl));
    assert(s.subrange(p + 12, p + 16) =~= be32(ml));
    assert(s.subrange(p + 16, p + 16 + ml) =~= r.msg);
}

/// Reading the bytes of a list of records gives the list back, wherever the
/// bytes stand.
pub proof fn lemma_records_round_trip(head: Seq<u8>, rs: Seq<RecordSpec>, tail: Seq<u8>)
    requires
        forall|i: int| 0 <= i < rs.len() ==> (#[trigger] rs[i]).fits(),
    ensures
        read_records(head + records_bytes(rs) + tail, head.len() as int, rs.len()) == Some(
            (rs, (head.len() + records_bytes(rs).len()) as int),
        ),
    decreases rs.len(),
{
    let s = head + records_bytes(rs) + tail;
    if rs.len() == 0 {
        assert(rs =~= Seq::<RecordSpec>::empty());
    } else {
        let r = rs[0];
        let rest = rs.skip(1);
        let after = records_bytes(rest) + tail;
        assert(s =~= head + r.bytes() + after);
        lemma_record_round_trip(head, r, after);
        let head2 = head + r.bytes();
        assert(s =~= head2 + records_bytes(rest) + tail);
        assert forall|i: int| 0 <= i < rest.len() implies (#[trigger] rest[i]).fits() by {
            assert(rest[i] == rs[i + 1]);
        }
        lemma_records_round_trip(head2, rest, tail);
        assert(seq![r] + rest =~= rs);
    }
}

/// Reading a file that was written gives its records back.
pub proof fn lemma_file_round_trip(rs: Seq<RecordSpec>)
    requires
        all_fit(rs),
    ensures
        read_file(file_bytes(rs)) == Some(rs),
{
    let head = be16(VERSION) + be32(rs.len() as u32);
    let s = file_bytes(rs);
    lemma_numbers_read_back(VERSION, rs.len() as u32, 0);
    assert(s.subrange(0, 2) =~= be16(VERSION));
    assert(s.subrange(2, 6) =~= be32(rs.len() as u32));
    lemma_records_round_trip(head, rs, Seq::empty());
    assert(s =~= head + records_bytes(rs) + Seq::<u8>::empty());
}

/// What is saved is loaded: from the file of the records that are fresh at
/// one moment, a later moment loads the records that are fresh then, each
/// as it was, and none of the others.
pub proof fn lemma_load_of_snapshot(rs: Seq<RecordSpec>, saved_at: u64, now: u64)
    requires
        all_fit(rs),
        saved_at <= now,
    ensures
        loaded(file_bytes(fresh_at(rs, saved_at)), now) == fresh_at(rs, now),
{
    let keep = |r: RecordSpec| is_fresh(r.stored_at, r.ttl, saved_at);
    let later = |r: RecordSpec| is_fresh(r.stored_at, r.ttl, now);
    let snap = fresh_at(rs, saved_at);
    rs.lemma_filter_len(keep);
    assert forall|i: int| 0 <= i < snap.len() implies (#[trigger] snap[i]).fits() by {
        assert(snap.contains(snap[i]));
        rs.lemma_filter_contains_rev(keep, snap[i]);
        let k = choose|k: int| 0 <= k < rs.len() && rs[k] == snap[i];
        assert(rs[k].fits());
    }
    lemma_file_round_trip(snap);
    lemma_filter_twice(rs, saved_at, now);
}

/// Of the records that are fresh at one moment, those fresh at a later
/// moment are the records fresh at the later moment.
pub proof fn lemma_filter_twice(rs: Seq<RecordSpec>, saved_at: u64, now: u64)
    requires
        saved_at <= now,
    ensures
        fresh_at(fresh_at(rs, saved_at), now) == fresh_at(rs, now),
    decreases rs.len(),
{
    reveal(Seq::filter);
    if rs.len() > 0 {
        lemma_filter_twice(rs.drop_last(), saved_at, now);
        let keep = |r: RecordSpec| is_fresh(r.stored_at, r.ttl, saved_at);
        let later = |r: RecordSpec| is_fresh(r.stored_at, r.ttl, now);
        let r = rs.last();
        let inner = rs.drop_last().filter(keep);
        if keep(r) {
            assert(rs.filter(keep) == inner.push(r));
            assert(inner.push(r).drop_last() =~= inner);
        } else {
            assert(!later(r));
        }
    }
}

/// Appends the two bytes of a number.
fn push_u16(out: &mut Vec<u8>, n: u16)
    ensures
        final(out)@ == old(out)@ + be16(n),
{
    out.push((n / 256) as u8);
    out.push((n % 256) as u8);
    assert(out@ =~= old(out)@ + be16(n));
}

/// Appends the four bytes of a number.
fn push_u32(out: &mut Vec<u8>, n: u32)
    ensures
        final(out)@ == old(out)@ + be32(n),
{
    out.push((n / 256 / 256 / 256) as u8);
    out.push((n / 256 / 256 % 256) as u8);
    out.push((n / 256 % 256) as u8);
    out.push((n % 256) as u8);
    assert(out@ =~= old(out)@ + be32(n));
}

/// Appends the eight bytes of a number.
fn push_u64(out: &mut Vec<u8>, n: u64)
    ensures
        final(out)@ == old(out)@ + be64(n),
{
    push_u32(out, (n / 0x1_0000_0000) as u32);
    push_u32(out, (n % 0x1_0000_0000) as u32);
    assert(out@ =~= old(out)@ + be64(n));
}

/// Reads the two bytes at `at` as a number.
fn get_u16(s: &[u8], at: usize) -> (n: u16)
    requires
        at + 2 <= s.len(),
    ensures
        n == u16_of(s@.subrange(at as int, at + 2)),
{
    (s[at] as u16) * 256 + s[at + 1] as u16
}

/// Reads the four bytes at `at` as a number.
fn get_u32(s: &[u8], at: usize) -> (n: u32)
    requires
        at + 4 <= s.len(),
    ensures
        n == u32_of(s@.subrange(at as int, at + 4)),
{
    (((s[at] as u32) * 256 + s[at + 1] as u32) * 256 + s[at + 2] as u32) * 256 + s[at + 3] as u32
}

/// Reads the eight bytes at `at` as a number.
fn get_u64(s: &[u8], at: usize) -> (n: u64)
    requires
        at + 8 <= s.len(),
    ensures
        n == u64_of(s@.subrange(at as int, at + 8)),
{
    let hi = get_u32(s, at);
    let lo = get_u32(s, at + 4);
    proof {
        let t = s@.subrange(at as int, at + 8);
        assert(t.take(4) =~= s@.subrange(at as int, at + 4));
        assert(t.skip(4) =~= s@.subrange(at + 4, at + 8));
    }
    (hi as u64) * 0x1_0000_0000 + lo as u64
}

/// Appends `piece` to `out`.
fn push_all(out: &mut Vec<u8>, piece: &[u8])
    ensures
        final(out)@ == old(out)@ + piece@,
{
    crate::text::push_bytes(out, piece)
}

/// The bytes of the file that holds the records; `None` where a length or
/// the count does not fit its field.
pub fn encode(entries: &Vec<FileEntry>) -> (out: Option<Vec<u8>>)
    ensures
        out.is_some() == all_fit(records(entries@)),
        out matches Some(b) ==> b@ == file_bytes(records(entries@)),
{
    let ghost rs = records(entries@);
    if entries.len() > u32::MAX as usize {
        return None;
    }
    let mut out: Vec<u8> = Vec::new();
    push_u16(&mut out, VERSION);
    push_u32(&mut out, entries.len() as u32);
    let ghost head = out@;
    let mut i: usize = 0;
    assert(records_bytes(rs.take(0)) =~= Seq::<u8>::empty());
    while i < entries.len()
        invariant
            i <= entries.len(),
            rs == records(entries@),
            head == be16(VERSION) + be32(rs.len() as u32),
            forall|k: int| 0 <= k < i ==> (#[trigger] rs[k]).fits(),
            out@ == head + records_bytes(rs.take(i as int)),
        decreases entries.len() - i,
    {
        let e = &entries[i];
        assert(e@ == rs[i as int]);
        if e.key.len() > u16::MAX as usize || e.msg.len() > u32::MAX as usize {
            assert(!rs[i as int].fits());
            return None;
        }
        let ghost before = out@;
        push_u16(&mut out, e.key.len() as u16);
        push_all(&mut out, e.key.as_slice());
        push_u64(&mut out, e.stored_at);
        push_u32(&mut out, e.ttl);
        push_u32(&mut out, e.msg.len() as u32);
        push_all(&mut out, e.msg.as_slice());
        proof {
            assert(out@ =~= before + e@.bytes());
            lemma_records_bytes_push(rs.take(i as int), rs[i as int]);
            assert(rs.take(i + 1) =~= rs.take(i as int).push(rs[i as int]));
        }
        i += 1;
    }
    assert(rs.take(i as int) =~= rs);
    Some(out)
}

/// The bytes of a list with one more record are the bytes of the list and
/// then those of the record.
pub proof fn lemma_records_bytes_push(rs: Seq<RecordSpec>, r: RecordSpec)
    ensures
        records_bytes(rs.push(r)) == records_bytes(rs) + r.bytes(),
    decreases rs.len(),
{
    let all = rs.push(r);
    if rs.len() == 0 {
        assert(all.skip(1) =~= Seq::<RecordSpec>::empty());
        assert(all[0] == r);
        assert(records_bytes(all.skip(1)) =~= Seq::<u8>::empty());
        assert(records_bytes(all) =~= r.bytes() + Seq::<u8>::empty());
        assert(records_bytes(rs) + r.bytes() =~= r.bytes());
    } else {
        assert(all.skip(1) =~= rs.skip(1).push(r));
        lemma_records_bytes_push(rs.skip(1), r);
        assert(all[0] == rs[0]);
        assert(records_bytes(all) =~= records_bytes(rs) + r.bytes());
    }
}

/// Reads the record that starts at place `at`.
fn decode_record(s: &[u8], at: usize) -> (r: Option<(FileEntry, usize)>)
    requires
        at <= s.len(),
    ensures
        r.is_some() == read_record(s@, at as int).is_some(),
        r matches Some((e, next)) ==> read_record(s@, at as int) == Some((e@, next as int))
            && at < next <= s.len(),
{
    let len = s.len();
    if len - at < 2 {
        return None;
    }
    let key_len = get_u16(s, at) as usize;
    if len - at - 2 < key_len {
        return None;
    }
    let p = at + 2 + key_len;
    if len - p < 16 {
        return None;
    }
    let msg_len = get_u32(s, p + 12) as usize;
    if len - p - 16 < msg_len {
        return None;
    }
    let key = vstd::slice::slice_to_vec(vstd::slice::slice_subrange(s, at + 2, p));
    let msg = vstd::slice::slice_to_vec(vstd::slice::slice_subrange(s, p + 16, p + 16 + msg_len));
    let entry = FileEntry { key, stored_at: get_u64(s, p), ttl: get_u32(s, p + 8), msg };
    Some((entry, p + 16 + msg_len))
}

/// The records of a file; `None` for a file that cannot be read.
pub fn decode(s: &[u8]) -> (out: Option<Vec<FileEntry>>)
    ensures
        out.is_some() == read_file(s@).is_some(),
        out matches Some(v) ==> read_file(s@) == Some(records(v@)),
{
    if s.len() < 6 || get_u16(s, 0) != VERSION {
        return None;
    }
    let count = get_u32(s, 2);
    let mut out: Vec<FileEntry> = Vec::new();
    let mut at: usize = 6;
    let mut left: u32 = count;
    let ghost goal = read_records(s@, 6, count as nat);
    assert(records(out@) =~= Seq::<RecordSpec>::empty());
    while left > 0
        invariant
            6 <= at <= s.len(),
            read_file(s@) == match goal {
                Some((rs, end)) => if end == s.len() {
                    Some(rs)
                } else {
                    None
                },
                None => None,
            },
            goal == match read_records(s@, at as int, left as nat) {
                Some((rest, end)) => Some((records(out@) + rest, end)),
                None => None,
            },
        decreases left,
    {
        match decode_record(s, at) {
            Some((e, next)) => {
                let ghost before = records(out@);
                let ghost r = e@;
                out.push(e);
                proof {
                    assert(records(out@) =~= before.push(r));
                    match read_records(s@, next as int, (left - 1) as nat) {
                        Some((rest, end)) => {
                            assert(before + (seq![r] + rest) =~= before.push(r) + rest);
                        },
                        None => {},
                    }
                }
                at = next;
                left = left - 1;
            },
            None => {
                return None;
            },
        }
    }
    proof {
        assert(records(out@) + Seq::<RecordSpec>::empty() =~= records(out@));
    }
    if at == s.len() {
        Some(out)
    } else {
        None
    }
}

/// What is loaded from a file at `now`: its records that are fresh then,
/// in their order; nothing from a file that cannot be read.
pub fn load(s: &[u8], now: u64) -> (out: Vec<FileEntry>)
    ensures
        records(out@) == loaded(s@, now),
{
    match decode(s) {
        Some(all) => keep_fresh(all, now),
        None => {
            let out: Vec<FileEntry> = Vec::new();
            assert(records(out@) =~= Seq::<RecordSpec>::empty());
            out
        },
    }
}

/// The records that are fresh at `now`, in their order.
pub fn keep_fresh(all: Vec<FileEntry>, now: u64) -> (out: Vec<FileEntry>)
    ensures
        records(out@) == fresh_at(records(all@), now),
{
    let mut out: Vec<FileEntry> = Vec::new();
    let mut i: usize = 0;
    let ghost rs = records(all@);
    let ghost keep = |r: RecordSpec| is_fresh(r.stored_at, r.ttl, now);
    proof {
        reveal(Seq::filter);
        assert(rs.take(0) =~= Seq::<RecordSpec>::empty());
        assert(records(out@) =~= rs.take(0).filter(keep));
    }
    while i < all.len()
        invariant
            i <= all.len(),
            rs == records(all@),
            keep == (|r: RecordSpec| is_fresh(r.stored_at, r.ttl, now)),
            records(out@) == rs.take(i as int).filter(keep),
        decreases all.len() - i,
    {
        let e = &all[i];
        assert(e@ == rs[i as int]);
        let a = if now >= e.stored_at {
            now - e.stored_at
        } else {
            0
        };
        let ghost before = records(out@);
        proof {
            reveal(Seq::filter);
            assert(rs.take(i + 1).drop_last() =~= rs.take(i as int));
            assert(rs.take(i + 1).last() == rs[i as int]);
        }
        if a <= e.ttl as u64 {
            out.push(
                FileEntry {
                    key: vstd::slice::slice_to_vec(e.key.as_slice()),
                    stored_at: e.stored_at,
                    ttl: e.ttl,
                    msg: vstd::slice::slice_to_vec(e.msg.as_slice()),
                },
            );
            assert(records(out@) =~= before.push(rs[i as int]));
        }
        i += 1;
    }
    assert(rs.take(i as int) =~= rs);
    out
}

} // verus!
