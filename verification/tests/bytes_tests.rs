use mhrice::bytes::{read_str, read_u16, read_u32, read_u64, u64_to_string};
use mhrice::hash::hash_str;
use mhrice::Error;

#[test]
fn little_endian_reads() {
    let data = [0x78, 0x56, 0x34, 0x12, 0xff, 0x00, 0x00, 0x00, 0x00, 0x00, 0x00, 0x00];
    assert_eq!(read_u16(&data, 0), 0x5678);
    assert_eq!(read_u32(&data, 0), 0x12345678);
    assert_eq!(read_u64(&data, 0), 0x0000_00ff_1234_5678);
}

#[test]
fn decimal_rendering() {
    assert_eq!(u64_to_string(0), "0");
    assert_eq!(u64_to_string(7), "7");
    assert_eq!(u64_to_string(1234567890), "1234567890");
    assert_eq!(u64_to_string(u64::MAX), "18446744073709551615");
}

#[test]
fn utf16_strings_decode() {
    // "救" alongside ASCII: length-prefixed little-endian units
    let mut data = vec![3, 0, 0, 0];
    for u in "a救z".encode_utf16() {
        data.extend_from_slice(&u.to_le_bytes());
    }
    let (s, end) = read_str(&data, 0).unwrap();
    assert_eq!(s, "a救z");
    assert_eq!(end, data.len());
}

#[test]
fn utf16_surrogate_unit_is_corrupt() {
    let mut data = vec![1, 0, 0, 0];
    data.extend_from_slice(&0xd800u16.to_le_bytes());
    assert!(matches!(read_str(&data, 0), Err(Error::CorruptData)));
}

#[test]
fn utf16_truncated_is_corrupt() {
    let data = vec![5, 0, 0, 0, 0x41, 0x00];
    assert!(matches!(read_str(&data, 0), Err(Error::CorruptData)));
}

#[test]
fn path_hash_is_stable_and_spreads() {
    // the fold must actually mix: different paths, different hashes,
    // and the same path twice gives the same hash
    let a = hash_str("enemy/em001/00/mod/em001_00.mesh");
    let b = hash_str("enemy/em001/00/mod/em001_01.mesh");
    let c = hash_str("enemy/em001/00/mod/em001_00.mesh");
    assert_eq!(a, c);
    assert_ne!(a, b);
    assert_ne!(hash_str(""), hash_str("a"));
}
