//! A record file as a byte sequence, what reading it from a position gives,
//! and the laws that tie the reader to the frames that `add_record` appends.
use super::{
    decodable, decode_value, feed_spec, pending_len, lemma_value_roundtrip, record_frame,
    start_spec, type_id_of, value_bytes, FileDBView, PhaseView, RecordStepView, RecordView,
};
use crate::codec::{lemma_u64_be_roundtrip, u64_be_bytes, u64_from_be};
use vstd::prelude::*;

verus! {

/// The file after appending the frames of `rs`, oldest first.
pub open spec fn records_log(rs: Seq<RecordView>) -> Seq<u8>
    decreases rs.len(),
{
    if rs.len() == 0 {
        Seq::empty()
    } else {
        records_log(rs.drop_last()) + record_frame(rs.last())
    }
}

/// What reading one record back from `offset` gives.
pub enum NewestRecord {
    /// Fewer than eight bytes are left: no record.
    End,
    /// The record, and the position where the reading stops.
    Item(RecordView, u64),
    /// The bytes there are not a frame.
    Corrupted,
}

/// Reading the record that ends at `offset` in file `f`: the trailing value length,
/// the value before it, the leading length (skipped) and the type byte before that.
pub open spec fn newest_record(f: Seq<u8>, offset: u64) -> NewestRecord {
    if offset < 8 {
        NewestRecord::End
    } else {
        let len_at = offset - 8;
        let len = u64_from_be(f.subrange(len_at, len_at + 8));
        if len_at < len {
            NewestRecord::Corrupted
        } else {
            let val_at = len_at - len;
            if val_at < 9 {
                NewestRecord::Corrupted
            } else {
                let type_at = val_at - 9;
                let value = f.subrange(val_at, val_at + len);
                let t = f[type_at];
                if decodable(t, value) {
                    NewestRecord::Item(decode_value(t, value), type_at as u64)
                } else {
                    NewestRecord::Corrupted
                }
            }
        }
    }
}

/// The records read back one after the other from `offset` down to the start of
/// the file, or `None` where a frame is corrupted on the way.
pub open spec fn records_newest_first(f: Seq<u8>, offset: u64) -> Option<Seq<RecordView>>
    decreases offset,
{
    match newest_record(f, offset) {
        NewestRecord::End => Some(Seq::empty()),
        NewestRecord::Corrupted => None,
        NewestRecord::Item(r, o) => if o < offset {
            match records_newest_first(f, o) {
                Some(rest) => Some(seq![r] + rest),
                None => None,
            }
        } else {
            None
        },
    }
}

/// A reader that is not in the middle of a record.
pub open spec fn idle_at(offset: u64) -> FileDBView {
    FileDBView { offset, phase: PhaseView::Idle }
}

/// Serving the reader's requests from file `f`, at most `fuel` times.
pub open spec fn follow_reads(f: Seq<u8>, s: FileDBView, a: RecordStepView, fuel: nat) -> (
    FileDBView,
    RecordStepView,
)
    decreases fuel,
{
    match a {
        RecordStepView::ReadAt { pos, len } => if fuel == 0 {
            (s, a)
        } else {
            let next = feed_spec(s, f.subrange(pos as int, pos + len));
            follow_reads(f, next.0, next.1, (fuel - 1) as nat)
        },
        _ => (s, a),
    }
}

/// One call of `start_next`, with every read it asks for served from `f`.
pub open spec fn next_from_file(f: Seq<u8>, s: FileDBView) -> (FileDBView, RecordStepView) {
    let first = start_spec(s);
    follow_reads(f, first.0, first.1, 3)
}

/// The reader, served from the file it reads, gives what reading the file gives:
/// the record that ends at its position and the position before that record, the
/// end where fewer than eight bytes are left, and a corrupted state otherwise.
pub proof fn lemma_reader_follows_file(f: Seq<u8>, offset: u64)
    requires
        offset <= f.len(),
    ensures
        ({
            let (s, a) = next_from_file(f, idle_at(offset));
            match newest_record(f, offset) {
                NewestRecord::End => s == idle_at(offset) && a == RecordStepView::End,
                NewestRecord::Item(r, o) => s == idle_at(o) && a == RecordStepView::Yield(r),
                NewestRecord::Corrupted => s.phase == PhaseView::Broken && a
                    == RecordStepView::Corrupted,
            }
        }),
{
    reveal_with_fuel(follow_reads, 4);
    if offset >= 8 {
        let len_at = (offset - 8) as u64;
        let len = u64_from_be(f.subrange(len_at as int, len_at + 8));
        if len_at >= len {
            let val_at = (len_at - len) as u64;
            if val_at >= 9 {
                let type_at = (val_at - 9) as u64;
                assert(f.subrange(type_at as int, type_at + 1)[0] == f[type_at as int]);
            }
        }
    }
}

/// The file after appending `r` is the file before with the frame of `r` at its end.
pub proof fn lemma_records_log_push(rs: Seq<RecordView>, r: RecordView)
    ensures
        records_log(rs.push(r)) == records_log(rs) + record_frame(r),
{
    assert(rs.push(r).drop_last() =~= rs);
}

/// Reading back from the end of a file of frames gives its newest record and stops
/// where that record's frame begins.
pub proof fn lemma_newest_of_log(rs: Seq<RecordView>)
    requires
        rs.len() > 0,
        records_log(rs).len() <= u64::MAX,
    ensures
        newest_record(records_log(rs), records_log(rs).len() as u64) == NewestRecord::Item(
            rs.last(),
            records_log(rs.drop_last()).len() as u64,
        ),
{
    let f = records_log(rs);
    let pre = records_log(rs.drop_last());
    let r = rs.last();
    let v = value_bytes(r);
    let n = u64_be_bytes(v.len() as u64);
    lemma_u64_be_roundtrip(v.len() as u64);
    lemma_value_roundtrip(r);
    let p = pre.len() as int;
    assert(f == pre + (seq![type_id_of(r)] + n + v + n));
    assert(f.len() == p + 17 + v.len());
    let offset = f.len() as u64;
    assert(f.subrange(offset - 8, offset as int) =~= n);
    assert(u64_from_be(n) == v.len());
    assert(f.subrange(p + 9, p + 9 + v.len()) =~= v);
    assert(f[p] == type_id_of(r));
}

/// Reading from a position looks at nothing past it.
pub proof fn lemma_newest_reads_prefix(f: Seq<u8>, g: Seq<u8>, offset: u64)
    requires
        offset <= f.len(),
        offset <= g.len(),
        f.subrange(0, offset as int) == g.subrange(0, offset as int),
    ensures
        newest_record(f, offset) == newest_record(g, offset),
{
    let fp = f.subrange(0, offset as int);
    if offset >= 8 {
        let len_at = offset - 8;
        assert(f.subrange(len_at, len_at + 8) =~= fp.subrange(len_at, len_at + 8));
        assert(g.subrange(len_at, len_at + 8) =~= fp.subrange(len_at, len_at + 8));
        let len = u64_from_be(f.subrange(len_at, len_at + 8));
        if len_at >= len {
            let val_at = len_at - len;
            if val_at >= 9 {
                let type_at = val_at - 9;
                assert(f.subrange(val_at, val_at + len) =~= fp.subrange(val_at, val_at + len));
                assert(g.subrange(val_at, val_at + len) =~= fp.subrange(val_at, val_at + len));
                assert(f[type_at] == fp[type_at]);
                assert(g[type_at] == fp[type_at]);
            }
        }
    }
}

/// Reading all records from a position looks at nothing past it.
pub proof fn lemma_records_read_prefix(f: Seq<u8>, g: Seq<u8>, offset: u64)
    requires
        offset <= f.len(),
        offset <= g.len(),
        f.subrange(0, offset as int) == g.subrange(0, offset as int),
    ensures
        records_newest_first(f, offset) == records_newest_first(g, offset),
    decreases offset,
{
    lemma_newest_reads_prefix(f, g, offset);
    match newest_record(f, offset) {
        NewestRecord::Item(r, o) => {
            if o < offset {
                assert(f.subrange(0, o as int) =~= f.subrange(0, offset as int).subrange(0, o as int));
                assert(g.subrange(0, o as int) =~= g.subrange(0, offset as int).subrange(0, o as int));
                lemma_records_read_prefix(f, g, o);
            }
        },
        _ => {},
    }
}

/// Reading a file of frames back from its end gives every record that was appended,
/// newest first, and then the end.
pub proof fn lemma_log_reads_back(rs: Seq<RecordView>)
    requires
        records_log(rs).len() <= u64::MAX,
    ensures
        records_newest_first(records_log(rs), records_log(rs).len() as u64) == Some(rs.reverse()),
    decreases rs.len(),
{
    let f = records_log(rs);
    if rs.len() == 0 {
        assert(rs.reverse() =~= Seq::<RecordView>::empty());
    } else {
        let rest = rs.drop_last();
        let pre = records_log(rest);
        lemma_newest_of_log(rs);
        assert(f == pre + record_frame(rs.last()));
        assert(pre.len() < f.len());
        lemma_log_reads_back(rest);
        assert(f.subrange(0, pre.len() as int) =~= pre.subrange(0, pre.len() as int));
        lemma_records_read_prefix(f, pre, pre.len() as u64);
        assert(seq![rs.last()] + rest.reverse() =~= rs.reverse());
    }
}

/// After `add_record` of `r` to a file that holds the frames of `rs`, a reader opened
/// on the file gives `r` first, and is then ready to read the records before it.
pub proof fn lemma_add_then_next(rs: Seq<RecordView>, r: RecordView)
    requires
        records_log(rs).len() + record_frame(r).len() <= u64::MAX,
    ensures
        ({
            let f = records_log(rs) + record_frame(r);
            next_from_file(f, idle_at(f.len() as u64)) == (
                idle_at(records_log(rs).len() as u64),
                RecordStepView::Yield(r),
            )
        }),
{
    let qs = rs.push(r);
    lemma_records_log_push(rs, r);
    assert(qs.drop_last() =~= rs);
    lemma_newest_of_log(qs);
    let f = records_log(qs);
    lemma_reader_follows_file(f, f.len() as u64);
}

/// The reader's state after `k` calls of `start_next` from `s`, each call with
/// every read it asks for served from `f`.
pub open spec fn state_after_calls(f: Seq<u8>, s: FileDBView, k: nat) -> FileDBView
    decreases k,
{
    if k == 0 {
        s
    } else {
        next_from_file(f, state_after_calls(f, s, (k - 1) as nat)).0
    }
}

/// What the call of `start_next` that follows `k` earlier calls from `s` gives,
/// every read served from `f`.
pub open spec fn call_result(f: Seq<u8>, s: FileDBView, k: nat) -> RecordStepView {
    next_from_file(f, state_after_calls(f, s, k)).1
}

/// The file after the first `m` records is the start of the file after all of them.
pub proof fn lemma_records_log_prefix(rs: Seq<RecordView>, m: int)
    requires
        0 <= m <= rs.len(),
    ensures
        records_log(rs.take(m)).len() <= records_log(rs).len(),
        records_log(rs).subrange(0, records_log(rs.take(m)).len() as int) == records_log(
            rs.take(m),
        ),
    decreases rs.len(),
{
    let f = records_log(rs);
    if m == rs.len() {
        assert(rs.take(m) =~= rs);
        assert(f.subrange(0, f.len() as int) =~= f);
    } else {
        let rest = rs.drop_last();
        assert(rest.take(m) =~= rs.take(m));
        lemma_records_log_prefix(rest, m);
        let g = records_log(rs.take(m));
        let r = records_log(rest);
        assert(f == r + record_frame(rs.last()));
        assert(f.subrange(0, g.len() as int) =~= r.subrange(0, g.len() as int));
    }
}

/// A reader standing after the first `m` frames of the file of `rs` gives the
/// `m`-th record and moves back before it, or, at the start of the file, the end.
pub proof fn lemma_next_after_prefix(rs: Seq<RecordView>, m: int)
    requires
        0 <= m <= rs.len(),
        records_log(rs).len() <= u64::MAX,
    ensures
        ({
            let f = records_log(rs);
            let o = records_log(rs.take(m)).len() as u64;
            next_from_file(f, idle_at(o)) == if m > 0 {
                (idle_at(records_log(rs.take(m - 1)).len() as u64), RecordStepView::Yield(rs[m - 1]))
            } else {
                (idle_at(o), RecordStepView::End)
            }
        }),
{
    let f = records_log(rs);
    let g = records_log(rs.take(m));
    let o = g.len() as u64;
    lemma_records_log_prefix(rs, m);
    lemma_reader_follows_file(f, o);
    assert(g.subrange(0, o as int) =~= g);
    lemma_newest_reads_prefix(f, g, o);
    if m > 0 {
        let t = rs.take(m);
        assert(t.drop_last() =~= rs.take(m - 1));
        lemma_newest_of_log(t);
    } else {
        assert(rs.take(m) =~= Seq::<RecordView>::empty());
    }
}

/// After `add_record` of `rs[0]`, ..., `rs[n - 1]` to an empty file, a reader opened
/// on the file gives, at its call numbered `k` from 0, the record `rs[n - 1 - k]`
/// while `k < n`, and the end at every later call: every record once, newest
/// first, nothing else.
pub proof fn lemma_calls_read_back(rs: Seq<RecordView>, k: nat)
    requires
        records_log(rs).len() <= u64::MAX,
    ensures
        ({
            let f = records_log(rs);
            let n = rs.len();
            let s0 = idle_at(f.len() as u64);
            &&& k < n ==> call_result(f, s0, k) == RecordStepView::Yield(rs[n - 1 - k])
            &&& k >= n ==> call_result(f, s0, k) == RecordStepView::End
            &&& state_after_calls(f, s0, k) == idle_at(
                records_log(rs.take(if k <= n { n - k } else { 0 })).len() as u64,
            )
        }),
    decreases k,
{
    let f = records_log(rs);
    let n = rs.len() as int;
    if k == 0 {
        assert(rs.take(n) =~= rs);
    } else {
        lemma_calls_read_back(rs, (k - 1) as nat);
        let m_prev = if k - 1 <= n { n - (k - 1) } else { 0 };
        lemma_next_after_prefix(rs, m_prev);
    }
    let m = if k <= n { n - k } else { 0 };
    lemma_next_after_prefix(rs, m);
}

/// Each record read back is followed by its trailing length and preceded by room
/// for its leading length and type byte: the reading steps back over a whole frame,
/// as long as the trailing length says.
pub proof fn lemma_newest_record_steps_back(f: Seq<u8>, offset: u64)
    ensures
        newest_record(f, offset) matches NewestRecord::Item(r, o) ==> o + 17 + u64_from_be(
            f.subrange(offset - 8, offset as int),
        ) == offset,
{
}

/// The reader never moves forward, and each read that it asks for ends at or
/// before its position: it reads only bytes that lay before the position it
/// started from.
pub proof fn lemma_reader_reads_behind(s: FileDBView, bytes: Seq<u8>)
    requires
        pending_len(s) is Some ==> pending_len(s) == Some(bytes.len()),
    ensures
        start_spec(s).0.offset <= s.offset,
        feed_spec(s, bytes).0.offset <= s.offset,
        start_spec(s).1 matches RecordStepView::ReadAt { pos, len } ==> pos + len <= s.offset
            && start_spec(s).0.offset == pos,
        feed_spec(s, bytes).1 matches RecordStepView::ReadAt { pos, len } ==> pos + len
            <= s.offset && feed_spec(s, bytes).0.offset == pos,
{
}

} // verus!
