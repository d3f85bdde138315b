use tickmyshow::bytes::{bytes_eq, clone_bytes, i64_to_le, u64_to_le};

#[test]
fn u64_little_endian_bytes_are_exact() {
    assert_eq!(u64_to_le(0), vec![0u8; 8]);
    assert_eq!(u64_to_le(1), vec![1, 0, 0, 0, 0, 0, 0, 0]);
    assert_eq!(
        u64_to_le(0x0102_0304_0506_0708),
        vec![0x08, 0x07, 0x06, 0x05, 0x04, 0x03, 0x02, 0x01]
    );
    assert_eq!(u64_to_le(u64::MAX), vec![0xff; 8]);
}

#[test]
fn i64_little_endian_bytes_match_the_two_complement() {
    assert_eq!(i64_to_le(1_700_000_000), 1_700_000_000i64.to_le_bytes().to_vec());
    assert_eq!(i64_to_le(-1), vec![0xff; 8]);
    assert_eq!(i64_to_le(i64::MIN), i64::MIN.to_le_bytes().to_vec());
    assert_eq!(i64_to_le(0), vec![0u8; 8]);
}

#[test]
fn byte_vectors_compare_and_copy_by_contents() {
    let a = vec![1u8, 2, 3];
    let b = vec![1u8, 2, 3];
    let c = vec![1u8, 2, 4];
    assert!(bytes_eq(&a, &b));
    assert!(!bytes_eq(&a, &c));
    assert!(!bytes_eq(&a, &vec![1u8, 2]));
    let d = clone_bytes(&a);
    assert_eq!(d, a);
}
