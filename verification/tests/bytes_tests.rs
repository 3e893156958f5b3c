//! Exact values for the little-endian byte readers, and the session flag.

use vcode::bytes::{parse_arr, parse_u32, parse_u64, parse_u8};
use vcode::flags::{get_check_proofs, SessionFlags};

#[test]
fn parse_u8_reads_one_byte() {
    let data = [0xab_u8, 0xcd];
    let mut pos = 0usize;
    assert_eq!(parse_u8(&data, &mut pos), 0xab);
    assert_eq!(pos, 1);
    assert_eq!(parse_u8(&data, &mut pos), 0xcd);
    assert_eq!(pos, 2);
}

#[test]
fn parse_u32_is_little_endian() {
    let data = [0x78_u8, 0x56, 0x34, 0x12];
    let mut pos = 0usize;
    assert_eq!(parse_u32(&data, &mut pos), 0x1234_5678);
    assert_eq!(pos, 4);
}

#[test]
fn parse_u64_is_little_endian() {
    let data = [0xef_u8, 0xcd, 0xab, 0x89, 0x67, 0x45, 0x23, 0x01];
    let mut pos = 0usize;
    assert_eq!(parse_u64(&data, &mut pos), 0x0123_4567_89ab_cdef);
    assert_eq!(pos, 8);
}

#[test]
fn parse_arr_consumes_exactly_n() {
    let data = [1u8, 2, 3, 4, 5];
    let mut pos = 1usize;
    let chunk = parse_arr(&data, &mut pos, 3);
    assert_eq!(chunk, vec![2u8, 3, 4]);
    assert_eq!(pos, 4);
}

#[test]
fn check_proofs_follows_session_flag() {
    let on = SessionFlags::default();
    assert!(get_check_proofs(&on));
    let off = SessionFlags {
        check_proofs: false,
    };
    assert!(!get_check_proofs(&off));
}
