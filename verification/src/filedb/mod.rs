//! A store of raw byte payloads, each framed as
//! `[payload length][payload][payload length]` with the length as a big-endian
//! `u64`, and the iterator that walks such a file back from its end.
pub mod log;

use crate::codec::{be_number, lemma_u64_be_bytes_write_number, u64_be_bytes, u64_from_be, u64_from_be_slice, u64_to_be};
use std::path::PathBuf;
use vstd::prelude::*;

verus! {

/// The size in bytes of each of the two length fields of a frame.
pub const DB_PAYLOAD_SIZE_LEN: u64 = 8;

/// A path to a file on disk, carried through as it is.
#[verifier::external_type_specification]
#[verifier::external_body]
pub struct ExPathBuf(PathBuf);

/// A store kept in the file at `path_buf`.
pub struct DB {
    path_buf: PathBuf,
}

impl DB {
    /// The path of the store's file.
    pub closed spec fn spec_path(&self) -> PathBuf {
        self.path_buf
    }

    /// A store kept at `path_buf`.
    pub fn with_path(path_buf: PathBuf) -> (db: DB)
        ensures
            db.spec_path() == path_buf,
    {
        DB { path_buf }
    }

    /// The path of the store's file.
    pub fn path(&self) -> (r: &PathBuf)
        ensures
            *r == self.spec_path(),
    {
        &self.path_buf
    }

    /// The bytes that `put` appends to the file for `payload`.
    pub fn frame_payload(payload: &[u8]) -> (r: Vec<u8>)
        requires
            payload@.len() + 2 * DB_PAYLOAD_SIZE_LEN <= usize::MAX,
        ensures
            r@ == payload_frame(payload@),
    {
        let len = payload.len();
        let buf_len = u64_to_be(len as u64);

        let mut record_bytes: Vec<u8> = Vec::with_capacity(
            (DB_PAYLOAD_SIZE_LEN + DB_PAYLOAD_SIZE_LEN) as usize + len,
        );
        record_bytes.extend_from_slice(&buf_len);
        record_bytes.extend_from_slice(payload);
        record_bytes.extend_from_slice(&buf_len);
        assert(record_bytes@ =~= payload_frame(payload@));
        record_bytes
    }

    /// An iterator over a file of `file_len` bytes, as `iterator` opens it.
    pub fn iterator_over(file_len: u64) -> (it: StoreIterator)
        ensures
            it@ == (StoreIteratorView { offset: file_len, phase: IterPhaseView::Idle }),
    {
        StoreIterator::new(file_len)
    }
}

/// The frame that `put` appends for `payload`: its length, itself, its length.
pub open spec fn payload_frame(payload: Seq<u8>) -> Seq<u8> {
    let n = u64_be_bytes(payload.len() as u64);
    n + payload + n
}

/// The frame of a payload is laid out as the iterator expects it: the payload
/// length as eight big-endian digits, the payload, and the same length digits
/// once more.
pub proof fn lemma_payload_frame_layout(p: Seq<u8>)
    requires
        p.len() <= u64::MAX,
    ensures
        ({
            let f = payload_frame(p);
            let len = p.len() as int;
            &&& f.len() == 16 + len
            &&& be_number(f.subrange(0, 8)) == len
            &&& f.subrange(8, 8 + len) == p
            &&& f.subrange(8 + len, 16 + len) == f.subrange(0, 8)
        }),
{
    let len = p.len() as int;
    let n = u64_be_bytes(len as u64);
    lemma_u64_be_bytes_write_number(len as u64);
    let f = payload_frame(p);
    assert(f.subrange(0, 8) =~= n);
    assert(f.subrange(8, 8 + len) =~= p);
    assert(f.subrange(8 + len, 16 + len) =~= n);
}

/// Where the iterator stands within the reading of one payload.
pub enum IterPhase {
    /// Between payloads.
    Idle,
    /// Waiting for the eight bytes of the trailing payload length.
    Length,
    /// Waiting for the `len` payload bytes.
    Payload { len: u64 },
    /// A frame did not fit where it should; the file is corrupted.
    Broken,
}

/// An iterator phase as a mathematical value.
pub enum IterPhaseView {
    Idle,
    Length,
    Payload { len: u64 },
    Broken,
}

/// Reads the payloads of a file from its end back to its start: the position
/// reached so far and what it waits for. The file itself is read by the caller,
/// which performs each `ReadAt` the iterator asks for and hands the bytes back.
pub struct StoreIterator {
    offset: u64,
    phase: IterPhase,
}

/// The state of a `StoreIterator`.
pub struct StoreIteratorView {
    pub offset: u64,
    pub phase: IterPhaseView,
}

impl View for StoreIterator {
    type V = StoreIteratorView;

    closed spec fn view(&self) -> StoreIteratorView {
        StoreIteratorView {
            offset: self.offset,
            phase: match self.phase {
                IterPhase::Idle => IterPhaseView::Idle,
                IterPhase::Length => IterPhaseView::Length,
                IterPhase::Payload { len } => IterPhaseView::Payload { len },
                IterPhase::Broken => IterPhaseView::Broken,
            },
        }
    }
}

/// What the iterator asks of its caller next.
pub enum IterStep {
    /// No payload is left.
    End,
    /// Read `len` bytes of the file at byte position `pos`, and hand them to `feed`.
    ReadAt { pos: u64, len: u64 },
    /// The next payload, newest first.
    Item(Vec<u8>),
    /// The position `offset` was reached and `shift` more bytes were needed: the
    /// file is corrupted.
    Corrupted { offset: u64, shift: u64 },
}

/// An iterator's request as a mathematical value.
pub enum IterStepView {
    End,
    ReadAt { pos: u64, len: u64 },
    Item(Seq<u8>),
    Corrupted { offset: u64, shift: u64 },
}

impl View for IterStep {
    type V = IterStepView;

    open spec fn view(&self) -> IterStepView {
        match self {
            IterStep::End => IterStepView::End,
            IterStep::ReadAt { pos, len } => IterStepView::ReadAt { pos: *pos, len: *len },
            IterStep::Item(p) => IterStepView::Item(p@),
            IterStep::Corrupted { offset, shift } => IterStepView::Corrupted {
                offset: *offset,
                shift: *shift,
            },
        }
    }
}

/// The number of bytes that the iterator waits for, if it waits for a read.
pub open spec fn pending_len(s: StoreIteratorView) -> Option<nat> {
    match s.phase {
        IterPhaseView::Length => Some(8),
        IterPhaseView::Payload { len } => Some(len as nat),
        _ => None,
    }
}

/// Stepping back `shift` bytes from `s`: the new state in `phase`, or, where fewer
/// bytes are left, the broken state and the report of the shortfall.
pub open spec fn shift_spec(s: StoreIteratorView, shift: u64, phase: IterPhaseView, step: IterStepView) -> (
    StoreIteratorView,
    IterStepView,
) {
    if s.offset < shift {
        (
            StoreIteratorView { offset: s.offset, phase: IterPhaseView::Broken },
            IterStepView::Corrupted { offset: s.offset, shift },
        )
    } else {
        (StoreIteratorView { offset: (s.offset - shift) as u64, phase }, step)
    }
}

/// Beginning to read the next payload: at the start of the file there is none;
/// otherwise step back over the trailing payload length.
pub open spec fn start_spec(s: StoreIteratorView) -> (StoreIteratorView, IterStepView) {
    match s.phase {
        IterPhaseView::Idle => if s.offset == 0 {
            (s, IterStepView::End)
        } else {
            shift_spec(
                s,
                8,
                IterPhaseView::Length,
                IterStepView::ReadAt { pos: (s.offset - 8) as u64, len: 8 },
            )
        },
        _ => (s, IterStepView::Corrupted { offset: s.offset, shift: 0 }),
    }
}

/// Taking in the bytes that the last `ReadAt` asked for.
pub open spec fn feed_spec(s: StoreIteratorView, bytes: Seq<u8>) -> (
    StoreIteratorView,
    IterStepView,
) {
    match s.phase {
        IterPhaseView::Length => {
            let len = u64_from_be(bytes);
            shift_spec(
                s,
                len,
                IterPhaseView::Payload { len },
                IterStepView::ReadAt { pos: (s.offset - len) as u64, len },
            )
        },
        IterPhaseView::Payload { .. } => shift_spec(
            s,
            8,
            IterPhaseView::Idle,
            IterStepView::Item(bytes),
        ),
        _ => (s, IterStepView::Corrupted { offset: s.offset, shift: 0 }),
    }
}

impl StoreIterator {
    /// An iterator that starts at the end of a file of `file_len` bytes.
    pub fn new(file_len: u64) -> (it: StoreIterator)
        ensures
            it@ == (StoreIteratorView { offset: file_len, phase: IterPhaseView::Idle }),
    {
        StoreIterator { offset: file_len, phase: IterPhase::Idle }
    }

    /// The byte position reached so far.
    pub fn offset(&self) -> (r: u64)
        ensures
            r == self@.offset,
    {
        self.offset
    }

    /// The number of bytes that `feed` waits for, if any.
    pub fn pending_read_len(&self) -> (r: Option<u64>)
        ensures
            r matches Some(n) ==> pending_len(self@) == Some(n as nat),
            r is None ==> pending_len(self@) is None,
    {
        match &self.phase {
            IterPhase::Length => Some(8),
            IterPhase::Payload { len } => Some(*len),
            _ => None,
        }
    }

    /// Steps back `shift` bytes; where fewer bytes are left, the iterator breaks
    /// instead and stays where it is.
    fn shift_offset_to_head(&mut self, shift: u64) -> (ok: bool)
        ensures
            ok == (old(self)@.offset >= shift),
            ok ==> final(self)@ == (StoreIteratorView {
                offset: (old(self)@.offset - shift) as u64,
                phase: old(self)@.phase,
            }),
            !ok ==> final(self)@ == (StoreIteratorView {
                offset: old(self)@.offset,
                phase: IterPhaseView::Broken,
            }),
    {
        if self.offset < shift {
            self.phase = IterPhase::Broken;
            false
        } else {
            self.offset = self.offset - shift;
            true
        }
    }

    /// Begins reading the next payload.
    pub fn start_next(&mut self) -> (r: IterStep)
        requires
            pending_len(old(self)@) is None,
        ensures
            (final(self)@, r@) == start_spec(old(self)@),
    {
        match self.phase {
            IterPhase::Idle => {
                if self.offset == 0 {
                    return IterStep::End;
                }
                let offset = self.offset;
                if self.shift_offset_to_head(DB_PAYLOAD_SIZE_LEN) {
                    self.phase = IterPhase::Length;
                    IterStep::ReadAt { pos: self.offset, len: DB_PAYLOAD_SIZE_LEN }
                } else {
                    IterStep::Corrupted { offset, shift: DB_PAYLOAD_SIZE_LEN }
                }
            },
            _ => IterStep::Corrupted { offset: self.offset, shift: 0 },
        }
    }

    /// Takes in the bytes that the last `ReadAt` asked for.
    pub fn feed(&mut self, bytes: Vec<u8>) -> (r: IterStep)
        requires
            pending_len(old(self)@) == Some(bytes@.len()),
        ensures
            (final(self)@, r@) == feed_spec(old(self)@, bytes@),
    {
        let offset = self.offset;
        match self.phase {
            IterPhase::Length => {
                let len = u64_from_be_slice(bytes.as_slice());
                if self.shift_offset_to_head(len) {
                    self.phase = IterPhase::Payload { len };
                    IterStep::ReadAt { pos: self.offset, len }
                } else {
                    IterStep::Corrupted { offset, shift: len }
                }
            },
            IterPhase::Payload { .. } => {
                if self.shift_offset_to_head(DB_PAYLOAD_SIZE_LEN) {
                    self.phase = IterPhase::Idle;
                    IterStep::Item(bytes)
                } else {
                    IterStep::Corrupted { offset, shift: DB_PAYLOAD_SIZE_LEN }
                }
            },
            _ => IterStep::Corrupted { offset, shift: 0 },
        }
    }
}

} // verus!
