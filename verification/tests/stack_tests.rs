//! The stack input parser: ordering, defaults, and rejection.

use miden_playground::errors::ParseError;
use miden_playground::field::FIELD_MODULUS;
use miden_playground::stack::{parse_field_values, parse_stack_values};

fn strings(values: &[&str]) -> Vec<String> {
    values.iter().map(|s| s.to_string()).collect()
}

#[test]
fn test_stack_order_preserved() {
    // The first listed operand becomes the top of the stack: no reversal.
    let si = parse_stack_values(&strings(&["7", "8", "9"])).unwrap();
    assert_eq!(si.elements, vec![7, 8, 9]);
}

#[test]
fn test_stack_default_single_zero() {
    let si = parse_stack_values(&Vec::new()).unwrap();
    assert_eq!(si.elements, vec![0]);
}

#[test]
fn test_stack_number_format_error() {
    match parse_stack_values(&strings(&["1", "x", "3"])) {
        Err(e) => assert_eq!(e, ParseError::NumberFormatError),
        Ok(_) => panic!("non-numeric operands must be rejected"),
    }
}

#[test]
fn test_stack_field_overflow() {
    let over = FIELD_MODULUS.to_string();
    match parse_stack_values(&strings(&[&over])) {
        Err(e) => assert_eq!(e, ParseError::FieldOverflow),
        Ok(_) => panic!("out-of-field operands must be rejected"),
    }
    let max = (FIELD_MODULUS - 1).to_string();
    let si = parse_stack_values(&strings(&[&max])).unwrap();
    assert_eq!(si.elements, vec![FIELD_MODULUS - 1]);
}

#[test]
fn test_field_values_first_error_wins() {
    // The first failing entry decides the error kind.
    let over = FIELD_MODULUS.to_string();
    match parse_field_values(&strings(&["x", &over])) {
        Err(e) => assert_eq!(e, ParseError::NumberFormatError),
        Ok(_) => panic!("must fail"),
    }
    match parse_field_values(&strings(&[&over, "x"])) {
        Err(e) => assert_eq!(e, ParseError::FieldOverflow),
        Ok(_) => panic!("must fail"),
    }
}
