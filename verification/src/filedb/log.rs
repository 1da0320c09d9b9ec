//! A payload file as a byte sequence, what reading it from a position gives,
//! and the laws that tie the iterator to the frames that `put` appends.
use super::{
    feed_spec, payload_frame, pending_len, start_spec, IterPhaseView, IterStepView, StoreIteratorView,
};
use crate::codec::{lemma_u64_be_roundtrip, u64_be_bytes, u64_from_be};
use vstd::prelude::*;

verus! {

/// The file after putting the payloads `ps`, oldest first.
pub open spec fn payloads_log(ps: Seq<Seq<u8>>) -> Seq<u8>
    decreases ps.len(),
{
    if ps.len() == 0 {
        Seq::empty()
    } else {
        payloads_log(ps.drop_last()) + payload_frame(ps.last())
    }
}

/// What reading one payload back from `offset` gives.
pub enum NewestPayload {
    /// The start of the file is reached: no payload.
    End,
    /// The payload, and the position where the reading stops.
    Item(Seq<u8>, u64),
    /// The bytes there are not a frame.
    Corrupted,
}

/// Reading the payload that ends at `offset` in file `f`: the trailing length, the
/// payload before it, and the leading length before that.
pub open spec fn newest_payload(f: Seq<u8>, offset: u64) -> NewestPayload {
    if offset == 0 {
        NewestPayload::End
    } else if offset < 8 {
        NewestPayload::Corrupted
    } else {
        let len_at = offset - 8;
        let len = u64_from_be(f.subrange(len_at, len_at + 8));
        if len_at < len {
            NewestPayload::Corrupted
        } else {
            let at = len_at - len;
            if at < 8 {
                NewestPayload::Corrupted
            } else {
                NewestPayload::Item(f.subrange(at, at + len), (at - 8) as u64)
            }
        }
    }
}

/// The payloads read back one after the other from `offset` down to the start of
/// the file, or `None` where a frame is corrupted on the way.
pub open spec fn payloads_newest_first(f: Seq<u8>, offset: u64) -> Option<Seq<Seq<u8>>>
    decreases offset,
{
    match newest_payload(f, offset) {
        NewestPayload::End => Some(Seq::empty()),
        NewestPayload::Corrupted => None,
        NewestPayload::Item(p, o) => if o < offset {
            match payloads_newest_first(f, o) {
                Some(rest) => Some(seq![p] + rest),
                None => None,
            }
        } else {
            None
        },
    }
}

/// An iterator that is not in the middle of a payload.
pub open spec fn idle_at(offset: u64) -> StoreIteratorView {
    StoreIteratorView { offset, phase: IterPhaseView::Idle }
}

/// Serving the iterator's requests from file `f`, at most `fuel` times.
pub open spec fn follow_reads(f: Seq<u8>, s: StoreIteratorView, a: IterStepView, fuel: nat) -> (
    StoreIteratorView,
    IterStepView,
)
    decreases fuel,
{
    match a {
        IterStepView::ReadAt { pos, len } => if fuel == 0 {
            (s, a)
        } else {
            let next = feed_spec(s, f.subrange(pos as int, pos + len));
            follow_reads(f, next.0, next.1, (fuel - 1) as nat)
        },
        _ => (s, a),
    }
}

/// One call of `start_next`, with every read it asks for served from `f`.
pub open spec fn next_from_file(f: Seq<u8>, s: StoreIteratorView) -> (
    StoreIteratorView,
    IterStepView,
) {
    let first = start_spec(s);
    follow_reads(f, first.0, first.1, 2)
}

/// The iterator, served from the file it reads, gives what reading the file gives:
/// the payload that ends at its position and the position before that payload's
/// frame, the end at the start of the file, and a corrupted state otherwise.
pub proof fn lemma_iterator_follows_file(f: Seq<u8>, offset: u64)
    requires
        offset <= f.len(),
    ensures
        ({
            let (s, a) = next_from_file(f, idle_at(offset));
            match newest_payload(f, offset) {
                NewestPayload::End => s == idle_at(offset) && a == IterStepView::End,
                NewestPayload::Item(p, o) => s == idle_at(o) && a == IterStepView::Item(p),
                NewestPayload::Corrupted => s.phase == IterPhaseView::Broken && a is Corrupted,
            }
        }),
{
    reveal_with_fuel(follow_reads, 3);
}

/// The file after putting `p` is the file before with the frame of `p` at its end.
pub proof fn lemma_payloads_log_push(ps: Seq<Seq<u8>>, p: Seq<u8>)
    ensures
        payloads_log(ps.push(p)) == payloads_log(ps) + payload_frame(p),
{
    assert(ps.push(p).drop_last() =~= ps);
}

/// Reading back from the end of a file of frames gives its newest payload and stops
/// where that payload's frame begins.
pub proof fn lemma_newest_of_payload_log(ps: Seq<Seq<u8>>)
    requires
        ps.len() > 0,
        payloads_log(ps).len() <= u64::MAX,
    ensures
        newest_payload(payloads_log(ps), payloads_log(ps).len() as u64) == NewestPayload::Item(
            ps.last(),
            payloads_log(ps.drop_last()).len() as u64,
        ),
{
    let f = payloads_log(ps);
    let pre = payloads_log(ps.drop_last());
    let p = ps.last();
    let n = u64_be_bytes(p.len() as u64);
    lemma_u64_be_roundtrip(p.len() as u64);
    let k = pre.len() as int;
    assert(f == pre + (n + p + n));
    let offset = f.len() as u64;
    assert(f.subrange(offset - 8, offset as int) =~= n);
    assert(f.subrange(k + 8, k + 8 + p.len()) =~= p);
}

/// Reading from a position looks at nothing past it.
pub proof fn lemma_newest_payload_reads_prefix(f: Seq<u8>, g: Seq<u8>, offset: u64)
    requires
        offset <= f.len(),
        offset <= g.len(),
        f.subrange(0, offset as int) == g.subrange(0, offset as int),
    ensures
        newest_payload(f, offset) == newest_payload(g, offset),
{
    let fp = f.subrange(0, offset as int);
    if offset >= 8 {
        let len_at = offset - 8;
        assert(f.subrange(len_at, len_at + 8) =~= fp.subrange(len_at, len_at + 8));
        assert(g.subrange(len_at, len_at + 8) =~= fp.subrange(len_at, len_at + 8));
        let len = u64_from_be(f.subrange(len_at, len_at + 8));
        if len_at >= len {
            let at = len_at - len;
            assert(f.subrange(at, at + len) =~= fp.subrange(at, at + len));
            assert(g.subrange(at, at + len) =~= fp.subrange(at, at + len));
        }
    }
}

/// Reading all payloads from a position looks at nothing past it.
pub proof fn lemma_payloads_read_prefix(f: Seq<u8>, g: Seq<u8>, offset: u64)
    requires
        offset <= f.len(),
        offset <= g.len(),
        f.subrange(0, offset as int) == g.subrange(0, offset as int),
    ensures
        payloads_newest_first(f, offset) == payloads_newest_first(g, offset),
    decreases offset,
{
    lemma_newest_payload_reads_prefix(f, g, offset);
    match newest_payload(f, offset) {
        NewestPayload::Item(p, o) => {
            if o < offset {
                assert(f.subrange(0, o as int) =~= f.subrange(0, offset as int).subrange(0, o as int));
                assert(g.subrange(0, o as int) =~= g.subrange(0, offset as int).subrange(0, o as int));
                lemma_payloads_read_prefix(f, g, o);
            }
        },
        _ => {},
    }
}

/// Reading a store's file back from its end gives every payload that was put,
/// newest first, and then the end.
pub proof fn lemma_payload_log_reads_back(ps: Seq<Seq<u8>>)
    requires
        payloads_log(ps).len() <= u64::MAX,
    ensures
        payloads_newest_first(payloads_log(ps), payloads_log(ps).len() as u64) == Some(
            ps.reverse(),
        ),
    decreases ps.len(),
{
    let f = payloads_log(ps);
    if ps.len() == 0 {
        assert(ps.reverse() =~= Seq::<Seq<u8>>::empty());
    } else {
        let rest = ps.drop_last();
        let pre = payloads_log(rest);
        lemma_newest_of_payload_log(ps);
        assert(f == pre + payload_frame(ps.last()));
        assert(pre.len() < f.len());
        lemma_payload_log_reads_back(rest);
        assert(f.subrange(0, pre.len() as int) =~= pre.subrange(0, pre.len() as int));
        lemma_payloads_read_prefix(f, pre, pre.len() as u64);
        assert(seq![ps.last()] + rest.reverse() =~= ps.reverse());
    }
}

/// After `put(p)` on a store whose file holds the frames of `ps`, an iterator opened
/// on the file gives `p` first, and is then ready to read the payloads before it.
pub proof fn lemma_put_then_next(ps: Seq<Seq<u8>>, p: Seq<u8>)
    requires
        payloads_log(ps).len() + payload_frame(p).len() <= u64::MAX,
    ensures
        ({
            let f = payloads_log(ps) + payload_frame(p);
            next_from_file(f, idle_at(f.len() as u64)) == (
                idle_at(payloads_log(ps).len() as u64),
                IterStepView::Item(p),
            )
        }),
{
    let qs = ps.push(p);
    lemma_payloads_log_push(ps, p);
    assert(qs.drop_last() =~= ps);
    lemma_newest_of_payload_log(qs);
    let f = payloads_log(qs);
    lemma_iterator_follows_file(f, f.len() as u64);
}

/// The iterator's state after `k` calls of `start_next` from `s`, each call with
/// every read it asks for served from `f`.
pub open spec fn state_after_calls(f: Seq<u8>, s: StoreIteratorView, k: nat) -> StoreIteratorView
    decreases k,
{
    if k == 0 {
        s
    } else {
        next_from_file(f, state_after_calls(f, s, (k - 1) as nat)).0
    }
}

/// What the call of `start_next` that follows `k` earlier calls from `s` gives,
/// every read served from `f`.
pub open spec fn call_result(f: Seq<u8>, s: StoreIteratorView, k: nat) -> IterStepView {
    next_from_file(f, state_after_calls(f, s, k)).1
}

/// The file after the first `m` puts is the start of the file after all of them.
pub proof fn lemma_payloads_log_prefix(ps: Seq<Seq<u8>>, m: int)
    requires
        0 <= m <= ps.len(),
    ensures
        payloads_log(ps.take(m)).len() <= payloads_log(ps).len(),
        payloads_log(ps).subrange(0, payloads_log(ps.take(m)).len() as int) == payloads_log(
            ps.take(m),
        ),
    decreases ps.len(),
{
    let f = payloads_log(ps);
    if m == ps.len() {
        assert(ps.take(m) =~= ps);
        assert(f.subrange(0, f.len() as int) =~= f);
    } else {
        let rest = ps.drop_last();
        assert(rest.take(m) =~= ps.take(m));
        lemma_payloads_log_prefix(rest, m);
        let g = payloads_log(ps.take(m));
        let r = payloads_log(rest);
        assert(f == r + payload_frame(ps.last()));
        assert(f.subrange(0, g.len() as int) =~= r.subrange(0, g.len() as int));
    }
}

/// An iterator standing after the first `m` frames of the file of `ps` gives the
/// `m`-th payload and moves back before it, or, at the start of the file, the end.
pub proof fn lemma_next_after_prefix(ps: Seq<Seq<u8>>, m: int)
    requires
        0 <= m <= ps.len(),
        payloads_log(ps).len() <= u64::MAX,
    ensures
        ({
            let f = payloads_log(ps);
            let o = payloads_log(ps.take(m)).len() as u64;
            next_from_file(f, idle_at(o)) == if m > 0 {
                (idle_at(payloads_log(ps.take(m - 1)).len() as u64), IterStepView::Item(ps[m - 1]))
            } else {
                (idle_at(o), IterStepView::End)
            }
        }),
{
    let f = payloads_log(ps);
    let g = payloads_log(ps.take(m));
    let o = g.len() as u64;
    lemma_payloads_log_prefix(ps, m);
    lemma_iterator_follows_file(f, o);
    assert(g.subrange(0, o as int) =~= g);
    lemma_newest_payload_reads_prefix(f, g, o);
    if m > 0 {
        let t = ps.take(m);
        assert(t.drop_last() =~= ps.take(m - 1));
        lemma_newest_of_payload_log(t);
    } else {
        assert(ps.take(m) =~= Seq::<Seq<u8>>::empty());
    }
}

/// After `put` of `ps[0]`, ..., `ps[n - 1]` into an empty store, an iterator opened
/// on the file gives, at its call numbered `k` from 0, the payload `ps[n - 1 - k]`
/// while `k < n`, and the end at every later call: every payload once, newest
/// first, nothing else.
pub proof fn lemma_calls_read_back(ps: Seq<Seq<u8>>, k: nat)
    requires
        payloads_log(ps).len() <= u64::MAX,
    ensures
        ({
            let f = payloads_log(ps);
            let n = ps.len();
            let s0 = idle_at(f.len() as u64);
            &&& k < n ==> call_result(f, s0, k) == IterStepView::Item(ps[n - 1 - k])
            &&& k >= n ==> call_result(f, s0, k) == IterStepView::End
            &&& state_after_calls(f, s0, k) == idle_at(
                payloads_log(ps.take(if k <= n { n - k } else { 0 })).len() as u64,
            )
        }),
    decreases k,
{
    let f = payloads_log(ps);
    let n = ps.len() as int;
    if k == 0 {
        assert(ps.take(n) =~= ps);
    } else {
        lemma_calls_read_back(ps, (k - 1) as nat);
        let m_prev = if k - 1 <= n { n - (k - 1) } else { 0 };
        lemma_next_after_prefix(ps, m_prev);
    }
    let m = if k <= n { n - k } else { 0 };
    lemma_next_after_prefix(ps, m);
}

/// Each payload read back is followed by its trailing length and preceded by room
/// for its leading one: the reading steps back over a whole frame.
pub proof fn lemma_newest_payload_steps_back(f: Seq<u8>, offset: u64)
    requires
        offset <= f.len(),
    ensures
        newest_payload(f, offset) matches NewestPayload::Item(p, o) ==> o + 16 + p.len()
            == offset,
{
}

/// The iterator never moves forward, and each read that it asks for ends at or
/// before its position: it reads only bytes that lay before the position it
/// started from.
pub proof fn lemma_iterator_reads_behind(s: StoreIteratorView, bytes: Seq<u8>)
    requires
        pending_len(s) is Some ==> pending_len(s) == Some(bytes.len()),
    ensures
        start_spec(s).0.offset <= s.offset,
        feed_spec(s, bytes).0.offset <= s.offset,
        start_spec(s).1 matches IterStepView::ReadAt { pos, len } ==> pos + len <= s.offset
            && start_spec(s).0.offset == pos,
        feed_spec(s, bytes).1 matches IterStepView::ReadAt { pos, len } ==> pos + len
            <= s.offset && feed_spec(s, bytes).0.offset == pos,
{
}

} // verus!
