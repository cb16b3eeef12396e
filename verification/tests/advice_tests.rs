//! The advice map builder: key decoding, field checks and key uniqueness.

use miden_playground::advice::parse_advice_map;
use miden_playground::errors::ParseError;
use miden_playground::field::FIELD_MODULUS;

fn key(prefix: &str) -> String {
    format!("{}{}", prefix, "0".repeat(64 - prefix.len()))
}

#[test]
fn test_advice_map_entries() {
    let entries = vec![(key("aa"), vec![1, 2, 3]), (key("bb"), vec![])];
    let map = parse_advice_map(&entries).unwrap();
    assert_eq!(map.entries.len(), 2);
    assert_eq!(map.entries[0].key[0], 0xaa);
    assert_eq!(map.entries[0].values, vec![1, 2, 3]);
    assert_eq!(map.entries[1].key[0], 0xbb);
    assert!(map.entries[1].values.is_empty());
}

#[test]
fn test_advice_map_duplicate_key() {
    // Two identical hex keys fail construction: no silent overwrite.
    let entries = vec![(key("aa"), vec![1]), (key("aa"), vec![2])];
    match parse_advice_map(&entries) {
        Err(e) => assert_eq!(e, ParseError::DuplicateMapKey),
        Ok(_) => panic!("duplicate keys must be rejected"),
    }
}

#[test]
fn test_advice_map_duplicate_key_case_folded() {
    // Keys that differ only in hex-digit case decode to the same bytes.
    let entries = vec![(key("AB"), vec![1]), (key("ab"), vec![2])];
    match parse_advice_map(&entries) {
        Err(e) => assert_eq!(e, ParseError::DuplicateMapKey),
        Ok(_) => panic!("duplicate keys must be rejected"),
    }
}

#[test]
fn test_advice_map_bad_key() {
    let entries = vec![("too-short".to_string(), vec![1])];
    match parse_advice_map(&entries) {
        Err(e) => assert_eq!(e, ParseError::InvalidHexLength),
        Ok(_) => panic!("malformed keys must be rejected"),
    }
}

#[test]
fn test_advice_map_value_overflow() {
    let entries = vec![(key("aa"), vec![FIELD_MODULUS])];
    match parse_advice_map(&entries) {
        Err(e) => assert_eq!(e, ParseError::FieldOverflow),
        Ok(_) => panic!("out-of-field values must be rejected"),
    }
}
