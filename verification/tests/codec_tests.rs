//! The word codec and the decimal codec on concrete values.

use miden_playground::codec::{decode_hex_key, decode_word, encode_word, parse_u64, u64_to_string};
use miden_playground::errors::ParseError;
use miden_playground::field::{Word, FIELD_MODULUS};

#[test]
fn test_word_round_trip() {
    // A canonical word string decodes and re-encodes to itself.
    let hex = "00000000000000010000000000000002000000000000000300000000000000ff";
    let word = decode_word(hex).unwrap();
    assert_eq!(word.elements, [1, 2, 3, 255]);
    assert_eq!(encode_word(&word), hex);
}

#[test]
fn test_word_round_trip_case_normalized() {
    // Upper-case digits decode to the same word; re-encoding lower-cases.
    let upper = "00000000000000AB0000000000000000000000000000000000000000000000CD";
    let lower = "00000000000000ab0000000000000000000000000000000000000000000000cd";
    let word = decode_word(upper).unwrap();
    assert_eq!(word.elements, [0xab, 0, 0, 0xcd]);
    assert_eq!(encode_word(&word), lower);
}

#[test]
fn test_word_bad_length() {
    assert_eq!(decode_word("abcd"), Err(ParseError::InvalidHexLength));
    assert_eq!(decode_word(""), Err(ParseError::InvalidHexLength));
    // 63 and 65 characters both fail.
    let short = "0".repeat(63);
    let long = "0".repeat(65);
    assert_eq!(decode_word(&short), Err(ParseError::InvalidHexLength));
    assert_eq!(decode_word(&long), Err(ParseError::InvalidHexLength));
}

#[test]
fn test_word_bad_digit() {
    let bad = format!("{}g", "0".repeat(63));
    assert_eq!(decode_word(&bad), Err(ParseError::InvalidHexLength));
}

#[test]
fn test_word_field_overflow() {
    // The first 8-byte group is the field modulus itself: one too large.
    let over = format!("ffffffff00000001{}", "0".repeat(48));
    assert_eq!(decode_word(&over), Err(ParseError::FieldOverflow));
    // One below the modulus is accepted.
    let max = format!("ffffffff00000000{}", "0".repeat(48));
    let word = decode_word(&max).unwrap();
    assert_eq!(word.elements[0], FIELD_MODULUS - 1);
}

#[test]
fn test_encode_zero_word() {
    let zero = Word { elements: [0, 0, 0, 0] };
    assert_eq!(encode_word(&zero), "0".repeat(64));
}

#[test]
fn test_hex_key_decoding() {
    let hex = format!("ff{}", "0".repeat(62));
    let key = decode_hex_key(&hex).unwrap();
    assert_eq!(key.len(), 32);
    assert_eq!(key[0], 0xff);
    assert!(key[1..].iter().all(|b| *b == 0));
    // A key need not be a canonical word: every byte 0xff is fine.
    let all_ff = "f".repeat(64);
    let key = decode_hex_key(&all_ff).unwrap();
    assert!(key.iter().all(|b| *b == 0xff));
    assert_eq!(decode_hex_key("zz"), Err(ParseError::InvalidHexLength));
}

#[test]
fn test_parse_u64_values() {
    assert_eq!(parse_u64("0"), Ok(0));
    assert_eq!(parse_u64("1234567890"), Ok(1234567890));
    assert_eq!(parse_u64("18446744073709551615"), Ok(u64::MAX));
    // A leading plus sign is part of the standard decimal grammar.
    assert_eq!(parse_u64("+42"), Ok(42));
}

#[test]
fn test_parse_u64_rejects() {
    assert_eq!(parse_u64(""), Err(ParseError::NumberFormatError));
    assert_eq!(parse_u64("+"), Err(ParseError::NumberFormatError));
    assert_eq!(parse_u64("-1"), Err(ParseError::NumberFormatError));
    assert_eq!(parse_u64("12a"), Err(ParseError::NumberFormatError));
    assert_eq!(parse_u64(" 12"), Err(ParseError::NumberFormatError));
    // One past the largest 64-bit value overflows.
    assert_eq!(parse_u64("18446744073709551616"), Err(ParseError::NumberFormatError));
}

#[test]
fn test_u64_to_string() {
    assert_eq!(u64_to_string(0), "0");
    assert_eq!(u64_to_string(7), "7");
    assert_eq!(u64_to_string(1234567890), "1234567890");
    assert_eq!(u64_to_string(u64::MAX), "18446744073709551615");
}
