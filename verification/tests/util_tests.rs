//! Tests for the big-endian read and write primitives.

use netflow9::error::NetFlowError;
use netflow9::util::{take_u128, take_u16, take_u32, take_u64, u128_to_bytes, u16_to_bytes,
    u32_to_bytes, u64_to_bytes};

#[test]
fn test_take() {
    let test_data: [u8; 16] = [
        0x01, 0x23, 0x45, 0x67, 0x89, 0xab, 0xcd, 0xef, 0x01, 0x23, 0x45, 0x67, 0x89, 0xab,
        0xcd, 0xef,
    ];

    let (_, num) = take_u16(&test_data).unwrap();
    assert_eq!(num, 0x0123);
    let (_, num) = take_u32(&test_data).unwrap();
    assert_eq!(num, 0x01234567);
    let (_, num) = take_u64(&test_data).unwrap();
    assert_eq!(num, 0x0123456789abcdef);
    let (_, num) = take_u128(&test_data).unwrap();
    assert_eq!(num, 0x0123456789abcdef0123456789abcdef);
}

#[test]
fn take_reports_short_input() {
    assert!(matches!(take_u16(&[0x01]), Err(NetFlowError::UnexpectedIncomplete)));
    assert!(matches!(take_u32(&[0x01, 0x02, 0x03]), Err(NetFlowError::UnexpectedIncomplete)));
    assert!(matches!(take_u64(&[0u8; 7]), Err(NetFlowError::UnexpectedIncomplete)));
    assert!(matches!(take_u128(&[0u8; 15]), Err(NetFlowError::InvalidLength)));
}

#[test]
fn write_primitives_are_big_endian() {
    assert_eq!(u16_to_bytes(0x0123), vec![0x01, 0x23]);
    assert_eq!(u32_to_bytes(0x01234567), vec![0x01, 0x23, 0x45, 0x67]);
    assert_eq!(u64_to_bytes(0x0123456789abcdef), vec![
        0x01, 0x23, 0x45, 0x67, 0x89, 0xab, 0xcd, 0xef,
    ]);
    assert_eq!(u128_to_bytes(0x0123456789abcdef0123456789abcdef), vec![
        0x01, 0x23, 0x45, 0x67, 0x89, 0xab, 0xcd, 0xef, 0x01, 0x23, 0x45, 0x67, 0x89, 0xab,
        0xcd, 0xef,
    ]);
}

#[test]
fn read_write_round_trip() {
    let bytes = u32_to_bytes(3_000_000_000);
    let (rest, back) = take_u32(&bytes).unwrap();
    assert_eq!(back, 3_000_000_000);
    assert_eq!(rest.len(), 0);
}
