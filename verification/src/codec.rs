//! Big-endian integer encodings used by the on-disk frames.
use vstd::prelude::*;

verus! {

/// The eight bytes of `v`, most significant first.
pub open spec fn u64_be_bytes(v: u64) -> Seq<u8> {
    seq![
        (v >> 56u64) as u8,
        (v >> 48u64) as u8,
        (v >> 40u64) as u8,
        (v >> 32u64) as u8,
        (v >> 24u64) as u8,
        (v >> 16u64) as u8,
        (v >> 8u64) as u8,
        v as u8,
    ]
}

/// The number whose big-endian bytes are the first eight of `s`.
pub open spec fn u64_from_be(s: Seq<u8>) -> u64 {
    (s[0] as u64) << 56u64 | (s[1] as u64) << 48u64 | (s[2] as u64) << 40u64 | (s[3] as u64)
        << 32u64 | (s[4] as u64) << 24u64 | (s[5] as u64) << 16u64 | (s[6] as u64) << 8u64 | (
    s[7] as u64)
}

/// Decoding the big-endian bytes of a `u64` gives the number back.
pub proof fn lemma_u64_be_roundtrip(v: u64)
    ensures
        u64_be_bytes(v).len() == 8,
        u64_from_be(u64_be_bytes(v)) == v,
{
    let s = u64_be_bytes(v);
    let b0 = (v >> 56u64) as u8;
    let b1 = (v >> 48u64) as u8;
    let b2 = (v >> 40u64) as u8;
    let b3 = (v >> 32u64) as u8;
    let b4 = (v >> 24u64) as u8;
    let b5 = (v >> 16u64) as u8;
    let b6 = (v >> 8u64) as u8;
    let b7 = v as u8;
    assert(s[0] == b0 && s[1] == b1 && s[2] == b2 && s[3] == b3 && s[4] == b4 && s[5] == b5
        && s[6] == b6 && s[7] == b7);
    assert(b0 == (v >> 56u64) as u8 && b1 == (v >> 48u64) as u8 && b2 == (v >> 40u64) as u8 && b3
        == (v >> 32u64) as u8 && b4 == (v >> 24u64) as u8 && b5 == (v >> 16u64) as u8 && b6 == (v
        >> 8u64) as u8 && b7 == v as u8 ==> (b0 as u64) << 56u64 | (b1 as u64) << 48u64 | (
    b2 as u64) << 40u64 | (b3 as u64) << 32u64 | (b4 as u64) << 24u64 | (b5 as u64) << 16u64
        | (b6 as u64) << 8u64 | (b7 as u64) == v) by (bit_vector);
}

/// The big-endian bytes of `u64_from_be(s)` are `s` itself, for any eight bytes.
pub proof fn lemma_u64_from_be_roundtrip(s: Seq<u8>)
    requires
        s.len() == 8,
    ensures
        u64_be_bytes(u64_from_be(s)) == s,
{
    let b0 = s[0];
    let b1 = s[1];
    let b2 = s[2];
    let b3 = s[3];
    let b4 = s[4];
    let b5 = s[5];
    let b6 = s[6];
    let b7 = s[7];
    let v = u64_from_be(s);
    assert(v == (b0 as u64) << 56u64 | (b1 as u64) << 48u64 | (b2 as u64) << 40u64 | (b3 as u64)
        << 32u64 | (b4 as u64) << 24u64 | (b5 as u64) << 16u64 | (b6 as u64) << 8u64 | (
    b7 as u64) ==> (v >> 56u64) as u8 == b0 && (v >> 48u64) as u8 == b1 && (v >> 40u64) as u8
        == b2 && (v >> 32u64) as u8 == b3 && (v >> 24u64) as u8 == b4 && (v >> 16u64) as u8 == b5
        && (v >> 8u64) as u8 == b6 && v as u8 == b7) by (bit_vector);
    assert(u64_be_bytes(v) =~= s);
}

/// The number written by the base-256 digits `s`, most significant first.
pub open spec fn be_number(s: Seq<u8>) -> nat
    decreases s.len(),
{
    if s.len() == 0 {
        0
    } else {
        be_number(s.drop_last()) * 256 + s.last() as nat
    }
}

/// The big-endian bytes of a `u64` are eight base-256 digits that write it.
pub proof fn lemma_u64_be_bytes_write_number(v: u64)
    ensures
        u64_be_bytes(v).len() == 8,
        be_number(u64_be_bytes(v)) == v,
{
    let s = u64_be_bytes(v);
    reveal_with_fuel(be_number, 9);
    assert(s.drop_last().drop_last().drop_last().drop_last().drop_last().drop_last().drop_last().drop_last().len() == 0);
    let b0 = (v >> 56u64) as u8;
    let b1 = (v >> 48u64) as u8;
    let b2 = (v >> 40u64) as u8;
    let b3 = (v >> 32u64) as u8;
    let b4 = (v >> 24u64) as u8;
    let b5 = (v >> 16u64) as u8;
    let b6 = (v >> 8u64) as u8;
    let b7 = v as u8;
    assert(b0 == (v >> 56u64) as u8 && b1 == (v >> 48u64) as u8 && b2 == (v >> 40u64) as u8 && b3
        == (v >> 32u64) as u8 && b4 == (v >> 24u64) as u8 && b5 == (v >> 16u64) as u8 && b6 == (v
        >> 8u64) as u8 && b7 == v as u8 ==> v == b0 * 0x100000000000000 + b1 * 0x1000000000000 + b2
        * 0x10000000000 + b3 * 0x100000000 + b4 * 0x1000000 + b5 * 0x10000 + b6 * 0x100 + b7)
        by (bit_vector);
    assert(s.drop_last().drop_last().drop_last().drop_last().drop_last().drop_last().drop_last() =~= seq![b0]);
    assert(s.drop_last().drop_last().drop_last().drop_last().drop_last().drop_last() =~= seq![b0, b1]);
    assert(s.drop_last().drop_last().drop_last().drop_last().drop_last() =~= seq![b0, b1, b2]);
    assert(s.drop_last().drop_last().drop_last().drop_last() =~= seq![b0, b1, b2, b3]);
    assert(s.drop_last().drop_last().drop_last() =~= seq![b0, b1, b2, b3, b4]);
    assert(s.drop_last().drop_last() =~= seq![b0, b1, b2, b3, b4, b5]);
    assert(s.drop_last() =~= seq![b0, b1, b2, b3, b4, b5, b6]);
}

/// The big-endian bytes of a `u32` are four base-256 digits that write it.
pub proof fn lemma_u32_be_bytes_write_number(v: u32)
    ensures
        u32_be_bytes(v).len() == 4,
        be_number(u32_be_bytes(v)) == v,
{
    let s = u32_be_bytes(v);
    reveal_with_fuel(be_number, 5);
    let b0 = (v >> 24u32) as u8;
    let b1 = (v >> 16u32) as u8;
    let b2 = (v >> 8u32) as u8;
    let b3 = v as u8;
    assert(b0 == (v >> 24u32) as u8 && b1 == (v >> 16u32) as u8 && b2 == (v >> 8u32) as u8 && b3
        == v as u8 ==> v == b0 * 0x1000000 + b1 * 0x10000 + b2 * 0x100 + b3) by (bit_vector);
    assert(s.drop_last().drop_last().drop_last().drop_last().len() == 0);
    assert(s.drop_last().drop_last().drop_last() =~= seq![b0]);
    assert(s.drop_last().drop_last() =~= seq![b0, b1]);
    assert(s.drop_last() =~= seq![b0, b1, b2]);
}

/// Big-endian bytes of a `u64`, as `u64::to_be_bytes` gives them.
pub fn u64_to_be(v: u64) -> (r: [u8; 8])
    ensures
        r@ == u64_be_bytes(v),
{
    let r = [
        (v >> 56u64) as u8,
        (v >> 48u64) as u8,
        (v >> 40u64) as u8,
        (v >> 32u64) as u8,
        (v >> 24u64) as u8,
        (v >> 16u64) as u8,
        (v >> 8u64) as u8,
        v as u8,
    ];
    assert(r@ =~= u64_be_bytes(v));
    r
}

/// The number whose big-endian bytes are the first eight of `b`, as
/// `u64::from_be_bytes` reads them.
pub fn u64_from_be_slice(b: &[u8]) -> (r: u64)
    requires
        b@.len() >= 8,
    ensures
        r == u64_from_be(b@),
{
    (b[0] as u64) << 56u64 | (b[1] as u64) << 48u64 | (b[2] as u64) << 40u64 | (b[3] as u64)
        << 32u64 | (b[4] as u64) << 24u64 | (b[5] as u64) << 16u64 | (b[6] as u64) << 8u64 | (
    b[7] as u64)
}

/// The four bytes of `v`, most significant first.
pub open spec fn u32_be_bytes(v: u32) -> Seq<u8> {
    seq![(v >> 24u32) as u8, (v >> 16u32) as u8, (v >> 8u32) as u8, v as u8]
}

/// The number whose big-endian bytes are the first four of `s`.
pub open spec fn u32_from_be(s: Seq<u8>) -> u32 {
    (s[0] as u32) << 24u32 | (s[1] as u32) << 16u32 | (s[2] as u32) << 8u32 | (s[3] as u32)
}

/// Decoding the big-endian bytes of a `u32` gives the number back.
pub proof fn lemma_u32_be_roundtrip(v: u32)
    ensures
        u32_be_bytes(v).len() == 4,
        u32_from_be(u32_be_bytes(v)) == v,
{
    let s = u32_be_bytes(v);
    let b0 = (v >> 24u32) as u8;
    let b1 = (v >> 16u32) as u8;
    let b2 = (v >> 8u32) as u8;
    let b3 = v as u8;
    assert(s[0] == b0 && s[1] == b1 && s[2] == b2 && s[3] == b3);
    assert(b0 == (v >> 24u32) as u8 && b1 == (v >> 16u32) as u8 && b2 == (v >> 8u32) as u8 && b3
        == v as u8 ==> (b0 as u32) << 24u32 | (b1 as u32) << 16u32 | (b2 as u32) << 8u32 | (
    b3 as u32) == v) by (bit_vector);
}

/// Big-endian bytes of a `u32`, as `u32::to_be_bytes` gives them.
pub fn u32_to_be(v: u32) -> (r: [u8; 4])
    ensures
        r@ == u32_be_bytes(v),
{
    let r = [(v >> 24u32) as u8, (v >> 16u32) as u8, (v >> 8u32) as u8, v as u8];
    assert(r@ =~= u32_be_bytes(v));
    r
}

/// The number whose big-endian bytes are the first four of `b`, as
/// `u32::from_be_bytes` reads them.
pub fn u32_from_be_slice(b: &[u8]) -> (r: u32)
    requires
        b@.len() >= 4,
    ensures
        r == u32_from_be(b@),
{
    (b[0] as u32) << 24u32 | (b[1] as u32) << 16u32 | (b[2] as u32) << 8u32 | (b[3] as u32)
}

} // verus!
