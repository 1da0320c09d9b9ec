//! Typed records (a `u32` or a string) framed as
//! `[type id][value length][value][value length]`, lengths as big-endian `u64`,
//! and the reader that walks such a file back from its end.
pub mod log;

use crate::codec::{
    be_number, lemma_u32_be_bytes_write_number, lemma_u64_be_bytes_write_number,
    u32_be_bytes, u32_from_be, u32_from_be_slice, u32_to_be, u64_be_bytes,
    u64_from_be, u64_from_be_slice, u64_to_be,
};
use vstd::prelude::*;
use vstd::utf8::{decode_utf8, encode_utf8, encode_utf8_decode_utf8, encode_utf8_valid_utf8, valid_utf8};

verus! {

/// One stored value.
#[allow(non_camel_case_types)]
#[derive(Debug)]
pub enum Record {
    U32(u32),
    STRING(String),
}

/// What a record holds, as a mathematical value.
pub enum RecordView {
    U32(u32),
    Str(Seq<char>),
}

impl View for Record {
    type V = RecordView;

    open spec fn view(&self) -> RecordView {
        match self {
            Record::U32(n) => RecordView::U32(*n),
            Record::STRING(s) => RecordView::Str(s@),
        }
    }
}

/// The type byte written in front of a record: 1 for a number, 2 for a string.
pub open spec fn type_id_of(r: RecordView) -> u8 {
    match r {
        RecordView::U32(_) => 1,
        RecordView::Str(_) => 2,
    }
}

/// The value bytes of a record: a number big-endian, a string as UTF-8.
pub open spec fn value_bytes(r: RecordView) -> Seq<u8> {
    match r {
        RecordView::U32(n) => u32_be_bytes(n),
        RecordView::Str(s) => encode_utf8(s),
    }
}

/// The bytes that `add_record` appends for `r`: the type byte, the value length,
/// the value, and the value length once more.
pub open spec fn record_frame(r: RecordView) -> Seq<u8> {
    let v = value_bytes(r);
    let n = u64_be_bytes(v.len() as u64);
    seq![type_id_of(r)] + n + v + n
}

/// The text given back for a type byte that is neither 1 nor 2.
pub open spec fn fallback_text() -> Seq<char> {
    seq!['n', 'o', 't', ' ', 's', 't', 'r', 'i', 'n', 'g']
}

/// The inputs on which a value can be rebuilt from its type byte and value bytes:
/// a number needs four bytes, a string needs valid UTF-8.
pub open spec fn decodable(type_id: u8, buf: Seq<u8>) -> bool {
    &&& type_id == 1 ==> buf.len() >= 4
    &&& type_id == 2 ==> valid_utf8(buf)
}

/// The record rebuilt from a type byte and value bytes.
pub open spec fn decode_value(type_id: u8, buf: Seq<u8>) -> RecordView {
    if type_id == 2 {
        RecordView::Str(decode_utf8(buf))
    } else if type_id == 1 {
        RecordView::U32(u32_from_be(buf))
    } else {
        RecordView::Str(fallback_text())
    }
}

/// Rebuilding a record from its own type byte and value bytes gives it back.
pub proof fn lemma_value_roundtrip(r: RecordView)
    ensures
        decodable(type_id_of(r), value_bytes(r)),
        decode_value(type_id_of(r), value_bytes(r)) == r,
{
    match r {
        RecordView::U32(n) => {
            crate::codec::lemma_u32_be_roundtrip(n);
        },
        RecordView::Str(s) => {
            encode_utf8_valid_utf8(s);
            encode_utf8_decode_utf8(s);
        },
    }
}

/// The frame of a record is laid out as the reader expects it: the type byte (1 for
/// a number, 2 for a string), the value length as eight big-endian digits, the
/// value, and the same length digits once more; a number's value is its four
/// big-endian digits, a string's value its UTF-8 bytes.
pub proof fn lemma_record_frame_layout(r: RecordView)
    requires
        value_bytes(r).len() <= u64::MAX,
    ensures
        ({
            let f = record_frame(r);
            let len = value_bytes(r).len() as int;
            &&& f.len() == 17 + len
            &&& f[0] == (if r is U32 { 1u8 } else { 2u8 })
            &&& be_number(f.subrange(1, 9)) == len
            &&& f.subrange(9 + len, 17 + len) == f.subrange(1, 9)
            &&& f.subrange(9, 9 + len) == value_bytes(r)
            &&& match r {
                RecordView::U32(n) => len == 4 && be_number(value_bytes(r)) == n,
                RecordView::Str(s) => value_bytes(r) == encode_utf8(s),
            }
        }),
{
    let v = value_bytes(r);
    let len = v.len() as int;
    let n = u64_be_bytes(len as u64);
    lemma_u64_be_bytes_write_number(len as u64);
    let f = record_frame(r);
    assert(f == seq![type_id_of(r)] + n + v + n);
    assert(f.subrange(1, 9) =~= n);
    assert(f.subrange(9 + len, 17 + len) =~= n);
    assert(f.subrange(9, 9 + len) =~= v);
    if let RecordView::U32(k) = r {
        lemma_u32_be_bytes_write_number(k);
    }
}

/// Making a record keeps the value: a `u32` gives the number record of that very
/// number, a `String` the string record of its characters.
pub proof fn lemma_make_record_keeps_value(v: u32, s: String)
    ensures
        v.record_of() == RecordView::U32(v),
        s.record_of() == RecordView::Str(s@),
{
}

/// `String::from_utf8`: `None` exactly when `bytes` is not valid UTF-8; otherwise the
/// string whose UTF-8 encoding is `bytes`.
#[verifier::external_body]
fn string_from_utf8(bytes: Vec<u8>) -> (r: Option<String>)
    ensures
        r is Some <==> valid_utf8(bytes@),
        r matches Some(s) ==> encode_utf8(s@) == bytes@,
{
    String::from_utf8(bytes).ok()
}

impl From<u32> for Record {
    fn from(val: u32) -> (r: Record) {
        Record::U32(val)
    }
}

impl vstd::std_specs::convert::FromSpecImpl<u32> for Record {
    open spec fn obeys_from_spec() -> bool {
        true
    }

    open spec fn from_spec(v: u32) -> Record {
        Record::U32(v)
    }
}

impl From<String> for Record {
    fn from(val: String) -> (r: Record) {
        Record::STRING(val)
    }
}

impl vstd::std_specs::convert::FromSpecImpl<String> for Record {
    open spec fn obeys_from_spec() -> bool {
        true
    }

    open spec fn from_spec(v: String) -> Record {
        Record::STRING(v)
    }
}

/// Values that can be stored as a record.
pub trait MakeRecord: Sized {
    /// The record that `new_record` makes of this value.
    spec fn record_of(self) -> RecordView;

    fn new_record(self) -> (r: Record)
        ensures
            r@ == self.record_of(),
    ;
}

impl MakeRecord for String {
    open spec fn record_of(self) -> RecordView {
        RecordView::Str(self@)
    }

    fn new_record(self) -> (r: Record) {
        Record::from(self)
    }
}

impl MakeRecord for u32 {
    open spec fn record_of(self) -> RecordView {
        RecordView::U32(self)
    }

    fn new_record(self) -> (r: Record) {
        Record::from(self)
    }
}

impl Record {
    /// The frame that is appended to the file for this record.
    pub fn bytes_for_db(&self) -> (r: Vec<u8>)
        ensures
            r@ == record_frame(self@),
    {
        let buf_val = self.val_to_bytes();
        let len = buf_val.len() as u64;
        let buf_len = u64_to_be(len);

        let mut res_bytes: Vec<u8> = Vec::new();
        res_bytes.push(self.get_type_id());
        res_bytes.extend_from_slice(&buf_len);
        res_bytes.extend_from_slice(buf_val.as_slice());
        res_bytes.extend_from_slice(&buf_len);
        assert(res_bytes@ =~= record_frame(self@));
        res_bytes
    }

    /// The type byte of this record.
    pub fn get_type_id(&self) -> (r: u8)
        ensures
            r == type_id_of(self@),
    {
        match self {
            Record::U32(_) => 1,
            Record::STRING(_) => 2,
        }
    }

    /// The value bytes of this record.
    pub fn val_to_bytes(&self) -> (r: Vec<u8>)
        ensures
            r@ == value_bytes(self@),
    {
        match self {
            Record::U32(num) => {
                let b = u32_to_be(*num);
                vstd::slice::slice_to_vec(&b)
            },
            Record::STRING(val) => vstd::slice::slice_to_vec(val.as_str().as_bytes()),
        }
    }

    /// The record for a type byte and value bytes, or `None` on the inputs on which
    /// `convert_from_bytes` has no answer.
    pub fn try_convert_from_bytes(type_id: u8, buf: Vec<u8>) -> (r: Option<Record>)
        ensures
            r is Some <==> decodable(type_id, buf@),
            r matches Some(rec) ==> rec@ == decode_value(type_id, buf@),
    {
        if type_id == 2 {
            match string_from_utf8(buf) {
                Some(s) => {
                    proof {
                        encode_utf8_decode_utf8(s@);
                    }
                    Some(Record::from(s))
                },
                None => None,
            }
        } else if type_id == 1 {
            if buf.len() < 4 {
                None
            } else {
                let val = u32_from_be_slice(buf.as_slice());
                Some(Record::from(val))
            }
        } else {
            let text = "not string";
            proof {
                reveal_strlit("not string");
            }
            let s = text.to_owned();
            assert(s@ =~= fallback_text());
            Some(Record::from(s))
        }
    }

    /// The record for a type byte and value bytes.
    pub fn convert_from_bytes(type_id: u8, buf: Vec<u8>) -> (r: Record)
        requires
            decodable(type_id, buf@),
        ensures
            r@ == decode_value(type_id, buf@),
    {
        Record::try_convert_from_bytes(type_id, buf).unwrap()
    }
}

/// Where the reader stands within the reading of one record.
pub enum ReadPhase {
    /// Between records.
    Idle,
    /// Waiting for the eight bytes of the trailing value length.
    Length,
    /// Waiting for the `len` value bytes.
    Value { len: u64 },
    /// Waiting for the type byte that belongs to `value`.
    TypeId { value: Vec<u8> },
    /// A frame did not fit where it should; the file is corrupted.
    Broken,
}

/// A reader phase as a mathematical value.
pub enum PhaseView {
    Idle,
    Length,
    Value { len: u64 },
    TypeId { value: Seq<u8> },
    Broken,
}

/// Reads the records of a file from its end back to its start: the position
/// reached so far and what it waits for. The file itself is read by the caller,
/// which performs each `ReadAt` the reader asks for and hands the bytes back.
pub struct FileDB {
    offset: u64,
    phase: ReadPhase,
}

/// The state of a `FileDB` reader.
pub struct FileDBView {
    pub offset: u64,
    pub phase: PhaseView,
}

impl View for FileDB {
    type V = FileDBView;

    closed spec fn view(&self) -> FileDBView {
        FileDBView {
            offset: self.offset,
            phase: match self.phase {
                ReadPhase::Idle => PhaseView::Idle,
                ReadPhase::Length => PhaseView::Length,
                ReadPhase::Value { len } => PhaseView::Value { len },
                ReadPhase::TypeId { value } => PhaseView::TypeId { value: value@ },
                ReadPhase::Broken => PhaseView::Broken,
            },
        }
    }
}

/// What the reader asks of its caller next.
pub enum RecordStep {
    /// No record is left.
    End,
    /// Read `len` bytes of the file at byte position `pos`, and hand them to `feed`.
    ReadAt { pos: u64, len: u64 },
    /// The next record, newest first.
    Yield(Record),
    /// The file does not hold a well-formed frame here.
    Corrupted,
}

/// A reader's request as a mathematical value.
pub enum RecordStepView {
    End,
    ReadAt { pos: u64, len: u64 },
    Yield(RecordView),
    Corrupted,
}

impl View for RecordStep {
    type V = RecordStepView;

    open spec fn view(&self) -> RecordStepView {
        match self {
            RecordStep::End => RecordStepView::End,
            RecordStep::ReadAt { pos, len } => RecordStepView::ReadAt { pos: *pos, len: *len },
            RecordStep::Yield(r) => RecordStepView::Yield(r@),
            RecordStep::Corrupted => RecordStepView::Corrupted,
        }
    }
}

/// The number of bytes that the reader waits for, if it waits for a read.
pub open spec fn pending_len(s: FileDBView) -> Option<nat> {
    match s.phase {
        PhaseView::Length => Some(8),
        PhaseView::Value { len } => Some(len as nat),
        PhaseView::TypeId { .. } => Some(1),
        _ => None,
    }
}

/// The reader stopped at `offset` after a frame that does not fit.
pub open spec fn broken_at(offset: u64) -> FileDBView {
    FileDBView { offset, phase: PhaseView::Broken }
}

/// Beginning to read the next record: step back over the trailing value length.
pub open spec fn start_spec(s: FileDBView) -> (FileDBView, RecordStepView) {
    match s.phase {
        PhaseView::Idle => if s.offset < 8 {
            (s, RecordStepView::End)
        } else {
            let o = (s.offset - 8) as u64;
            (FileDBView { offset: o, phase: PhaseView::Length }, RecordStepView::ReadAt { pos: o, len: 8 })
        },
        _ => (s, RecordStepView::Corrupted),
    }
}

/// Taking in the bytes that the last `ReadAt` asked for.
pub open spec fn feed_spec(s: FileDBView, bytes: Seq<u8>) -> (FileDBView, RecordStepView) {
    match s.phase {
        PhaseView::Length => {
            let len = u64_from_be(bytes);
            if s.offset < len {
                (broken_at(s.offset), RecordStepView::Corrupted)
            } else {
                let o = (s.offset - len) as u64;
                (FileDBView { offset: o, phase: PhaseView::Value { len } }, RecordStepView::ReadAt { pos: o, len })
            }
        },
        PhaseView::Value { .. } => if s.offset < 8 {
            (broken_at(s.offset), RecordStepView::Corrupted)
        } else if s.offset - 8 < 1 {
            (broken_at((s.offset - 8) as u64), RecordStepView::Corrupted)
        } else {
            let o = (s.offset - 9) as u64;
            (FileDBView { offset: o, phase: PhaseView::TypeId { value: bytes } }, RecordStepView::ReadAt { pos: o, len: 1 })
        },
        PhaseView::TypeId { value } => {
            let t = bytes[0];
            if decodable(t, value) {
                (FileDBView { offset: s.offset, phase: PhaseView::Idle }, RecordStepView::Yield(decode_value(t, value)))
            } else {
                (broken_at(s.offset), RecordStepView::Corrupted)
            }
        },
        _ => (s, RecordStepView::Corrupted),
    }
}

impl FileDB {
    /// A reader that starts at the end of a file of `file_len` bytes.
    pub fn new(file_len: u64) -> (db: FileDB)
        ensures
            db@ == (FileDBView { offset: file_len, phase: PhaseView::Idle }),
    {
        FileDB { offset: file_len, phase: ReadPhase::Idle }
    }

    /// The frame that `add_record` appends for `make_rec`.
    pub fn frame_record<M: MakeRecord>(make_rec: M) -> (r: Vec<u8>)
        ensures
            r@ == record_frame(make_rec.record_of()),
    {
        let val = make_rec.new_record();
        val.bytes_for_db()
    }

    /// The byte position reached so far.
    pub fn offset(&self) -> (r: u64)
        ensures
            r == self@.offset,
    {
        self.offset
    }

    /// The number of bytes that `feed` waits for, if any.
    pub fn pending_read_len(&self) -> (r: Option<u64>)
        ensures
            r matches Some(n) ==> pending_len(self@) == Some(n as nat),
            r is None ==> pending_len(self@) is None,
    {
        match &self.phase {
            ReadPhase::Length => Some(8),
            ReadPhase::Value { len } => Some(*len),
            ReadPhase::TypeId { .. } => Some(1),
            _ => None,
        }
    }

    /// Steps back `step_bytes` bytes, or leaves the position alone and answers
    /// `None` where fewer bytes are left.
    fn shift_offset_to_head(&mut self, step_bytes: u64) -> (r: Option<u64>)
        ensures
            old(self)@.offset >= step_bytes ==> r == Some((old(self)@.offset - step_bytes) as u64)
                && final(self)@.offset == old(self)@.offset - step_bytes,
            old(self)@.offset < step_bytes ==> r is None && final(self)@.offset == old(self)@.offset,
            final(self)@.phase == old(self)@.phase,
    {
        if self.offset >= step_bytes {
            self.offset = self.offset - step_bytes;
            Some(self.offset)
        } else {
            None
        }
    }

    /// Begins reading the next record.
    pub fn start_next(&mut self) -> (r: RecordStep)
        requires
            pending_len(old(self)@) is None,
        ensures
            (final(self)@, r@) == start_spec(old(self)@),
    {
        match self.phase {
            ReadPhase::Idle => match self.shift_offset_to_head(8) {
                Some(pos) => {
                    self.phase = ReadPhase::Length;
                    RecordStep::ReadAt { pos, len: 8 }
                },
                None => RecordStep::End,
            },
            _ => RecordStep::Corrupted,
        }
    }

    /// Takes in the bytes that the last `ReadAt` asked for.
    pub fn feed(&mut self, bytes: Vec<u8>) -> (r: RecordStep)
        requires
            pending_len(old(self)@) == Some(bytes@.len()),
        ensures
            (final(self)@, r@) == feed_spec(old(self)@, bytes@),
    {
        let mut phase = ReadPhase::Broken;
        std::mem::swap(&mut phase, &mut self.phase);
        match phase {
            ReadPhase::Length => {
                let len = u64_from_be_slice(bytes.as_slice());
                match self.shift_offset_to_head(len) {
                    Some(pos) => {
                        self.phase = ReadPhase::Value { len };
                        RecordStep::ReadAt { pos, len }
                    },
                    None => RecordStep::Corrupted,
                }
            },
            ReadPhase::Value { .. } => {
                if self.shift_offset_to_head(8).is_none() {
                    return RecordStep::Corrupted;
                }
                match self.shift_offset_to_head(1) {
                    Some(pos) => {
                        self.phase = ReadPhase::TypeId { value: bytes };
                        RecordStep::ReadAt { pos, len: 1 }
                    },
                    None => RecordStep::Corrupted,
                }
            },
            ReadPhase::TypeId { value } => {
                let type_id = bytes[0];
                match Record::try_convert_from_bytes(type_id, value) {
                    Some(record) => {
                        self.phase = ReadPhase::Idle;
                        RecordStep::Yield(record)
                    },
                    None => RecordStep::Corrupted,
                }
            },
            other => {
                self.phase = other;
                RecordStep::Corrupted
            },
        }
    }
}

} // verus!
