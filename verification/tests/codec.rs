use event_store::codec::{u32_from_be_slice, u32_to_be, u64_from_be_slice, u64_to_be};

#[test]
fn u64_big_endian_both_ways() {
    let v = 0x0102_0304_0506_0708u64;
    assert_eq!(u64_to_be(v), v.to_be_bytes());
    assert_eq!(u64_to_be(v), [1, 2, 3, 4, 5, 6, 7, 8]);
    assert_eq!(u64_from_be_slice(&[1, 2, 3, 4, 5, 6, 7, 8, 99]), v);
    assert_eq!(u64_from_be_slice(&u64_to_be(u64::MAX)), u64::MAX);
}

#[test]
fn u32_big_endian_both_ways() {
    assert_eq!(u32_to_be(0xdead_beef), [0xde, 0xad, 0xbe, 0xef]);
    assert_eq!(u32_from_be_slice(&[0xde, 0xad, 0xbe, 0xef]), 0xdead_beef);
    assert_eq!(u32_from_be_slice(&u32_to_be(7)), 7);
}
