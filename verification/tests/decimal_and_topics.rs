use mmo_net::decimal::{decimal_string, parse_unsigned_bytes, parse_unsigned_string, push_decimal};
use mmo_net::topic::{shard_id_from_topic, shard_topic};

#[test]
fn parse_accepts_what_str_parse_accepts() {
    for s in ["0", "7", "+42", "007", "4294967295", "65535"] {
        let expected: u32 = s.parse().unwrap();
        assert_eq!(parse_unsigned_bytes(s.as_bytes(), u32::MAX as u64), Some(expected as u64));
    }
}

#[test]
fn parse_rejects_what_str_parse_rejects() {
    for s in ["", "+", "-1", "++1", "1a", " 1", "4294967296", "99999999999999999999999"] {
        assert!(s.parse::<u32>().is_err());
        assert_eq!(parse_unsigned_bytes(s.as_bytes(), u32::MAX as u64), None);
    }
}

#[test]
fn parse_respects_u16_bound_and_non_ascii() {
    assert_eq!(parse_unsigned_string(&"65535".to_string(), u16::MAX as u64), Some(65535));
    assert_eq!(parse_unsigned_string(&"65536".to_string(), u16::MAX as u64), None);
    assert_eq!(parse_unsigned_string(&"１２".to_string(), u64::MAX), None);
    assert_eq!(parse_unsigned_string(&"18446744073709551615".to_string(), u64::MAX), Some(u64::MAX));
}

#[test]
fn push_decimal_prints_digits() {
    let mut out = b"x=".to_vec();
    push_decimal(1234567890, &mut out);
    assert_eq!(out, b"x=1234567890".to_vec());
    let mut zero = Vec::new();
    push_decimal(0, &mut zero);
    assert_eq!(zero, b"0".to_vec());
}

#[test]
fn shard_topic_is_padded_name() {
    let t = shard_topic(3);
    let mut expected = [0u8; 32];
    expected[..7].copy_from_slice(b"shard:3");
    assert_eq!(t, expected);
    let t = shard_topic(u32::MAX);
    assert_eq!(&t[..16], b"shard:4294967295");
    assert!(t[16..].iter().all(|b| *b == 0));
}

#[test]
fn topic_roundtrip() {
    for id in [0u32, 1, 9, 10, 12345, u32::MAX] {
        assert_eq!(shard_id_from_topic(&shard_topic(id)), id);
    }
}

fn topic(text: &[u8]) -> [u8; 32] {
    let mut t = [0u8; 32];
    t[..text.len()].copy_from_slice(text);
    t
}

#[test]
fn extract_shard_id_edge_cases() {
    assert_eq!(shard_id_from_topic(&topic(b"zone-without-colon")), 0);
    assert_eq!(shard_id_from_topic(&topic(b"shard:abc")), 0);
    assert_eq!(shard_id_from_topic(&topic(b"shard:")), 0);
    assert_eq!(shard_id_from_topic(&topic(b"\0\0shard:12")), 12);
    assert_eq!(shard_id_from_topic(&topic(b"a:b:3")), 0);
    assert_eq!(shard_id_from_topic(&topic(b"x:+8")), 8);
    assert_eq!(shard_id_from_topic(&topic(b"x:4294967296")), 0);
    assert_eq!(shard_id_from_topic(&[0u8; 32]), 0);
}

#[test]
fn decimal_string_of_edge_values() {
    assert_eq!(decimal_string(0), "0");
    assert_eq!(decimal_string(7000), "7000");
    assert_eq!(decimal_string(u64::MAX), "18446744073709551615");
}
