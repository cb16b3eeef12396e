//! The request and result envelopes, parsed from JSON documents.

use miden_playground::envelope::Inputs;
use miden_playground::errors::ParseError;
use miden_playground::field::FIELD_MODULUS;

#[test]
fn test_parse_output() {
    let output_str: &str = r#"
    {
        "stack_output": [3, 0, 0, 0, 0, 0, 0, 0, 0, 0, 0, 0, 0, 0, 0, 0, 0],
        "overflow_addrs": [0, 1],
        "trace_len": 1024
    }"#;

    let mut inputs: Inputs = Inputs::new();
    inputs.deserialize_outputs(output_str).unwrap();

    let output = inputs.stack_outputs;

    assert_eq!(
        output.stack().clone(),
        vec![3, 0, 0, 0, 0, 0, 0, 0, 0, 0, 0, 0, 0, 0, 0, 0, 0]
    );
    assert_eq!(output.overflow_addrs().clone(), vec![0, 1]);
}

#[test]
fn test_parse_output_defaults() {
    // Absent overflow addresses default to empty; stack_output is required.
    let mut inputs = Inputs::new();
    inputs.deserialize_outputs(r#"{ "stack_output": [5] }"#).unwrap();
    assert_eq!(inputs.stack_outputs.stack().clone(), vec![5]);
    assert!(inputs.stack_outputs.overflow_addrs().is_empty());

    let mut inputs = Inputs::new();
    match inputs.deserialize_outputs(r#"{ "trace_len": 64 }"#) {
        Err(e) => assert_eq!(e, ParseError::InvalidJson),
        Ok(()) => panic!("a result document without stack_output must be rejected"),
    }
}

#[test]
fn test_deserialize_inputs_full_request() {
    let request = r#"
    {
        "operand_stack": ["5", "6"],
        "advice_stack": ["7", "8"],
        "advice_map": {
            "aa00000000000000000000000000000000000000000000000000000000000000": [1, 2]
        },
        "merkle_store": [
            {"merkle_tree": [
                "0000000000000001000000000000000000000000000000000000000000000000",
                "0000000000000002000000000000000000000000000000000000000000000000"
            ]},
            {"sparse_merkle_tree": [
                [42, "0000000000000003000000000000000000000000000000000000000000000000"]
            ]}
        ]
    }"#;
    let mut inputs = Inputs::new();
    inputs.deserialize_inputs(request).unwrap();
    assert_eq!(inputs.stack_inputs.elements, vec![5, 6]);
    assert_eq!(inputs.advice_provider.stack, vec![7, 8]);
    assert_eq!(inputs.advice_provider.map.entries.len(), 1);
    assert_eq!(inputs.advice_provider.map.entries[0].key[0], 0xaa);
    assert_eq!(inputs.advice_provider.map.entries[0].values, vec![1, 2]);
    // One node from the two-leaf dense tree, 64 from the sparse path.
    assert_eq!(inputs.advice_provider.store.nodes.len(), 65);
}

#[test]
fn test_deserialize_inputs_legacy_names() {
    // The legacy field names stack_init and advice_tape are accepted.
    let request = r#"{ "stack_init": ["1", "2"], "advice_tape": ["3"] }"#;
    let mut inputs = Inputs::new();
    inputs.deserialize_inputs(request).unwrap();
    assert_eq!(inputs.stack_inputs.elements, vec![1, 2]);
    assert_eq!(inputs.advice_provider.stack, vec![3]);
}

#[test]
fn test_deserialize_inputs_blank_keeps_defaults() {
    let mut inputs = Inputs::new();
    inputs.deserialize_inputs("").unwrap();
    assert_eq!(inputs.stack_inputs.elements, vec![0]);
    assert!(inputs.advice_provider.stack.is_empty());
    inputs.deserialize_inputs("  \n\t ").unwrap();
    assert_eq!(inputs.stack_inputs.elements, vec![0]);
    // Any Unicode whitespace counts as blank, as trimming would.
    inputs.deserialize_inputs("\u{0c}\u{a0}\u{2028}").unwrap();
    assert_eq!(inputs.stack_inputs.elements, vec![0]);
}

#[test]
fn test_deserialize_inputs_rejects() {
    let mut inputs = Inputs::new();
    // A document that is not an object is rejected.
    match inputs.deserialize_inputs("5") {
        Err(e) => assert_eq!(e, ParseError::InvalidJson),
        Ok(()) => panic!("a non-object request must be rejected"),
    }
    match inputs.deserialize_inputs("{ not json") {
        Err(e) => assert_eq!(e, ParseError::InvalidJson),
        Ok(()) => panic!("malformed JSON must be rejected"),
    }
    match inputs.deserialize_inputs(r#"{ "operand_stack": ["abc"] }"#) {
        Err(e) => assert_eq!(e, ParseError::NumberFormatError),
        Ok(()) => panic!("non-numeric operands must be rejected"),
    }
    let over = format!(r#"{{ "operand_stack": ["{}"] }}"#, FIELD_MODULUS);
    match inputs.deserialize_inputs(&over) {
        Err(e) => assert_eq!(e, ParseError::FieldOverflow),
        Ok(()) => panic!("out-of-field operands must be rejected"),
    }
    // A failed parse leaves the defaults untouched.
    assert_eq!(inputs.stack_inputs.elements, vec![0]);
}

#[test]
fn test_deserialize_inputs_duplicate_map_keys() {
    // Keys differing only in case decode to the same digest bytes.
    let request = r#"
    {
        "advice_map": {
            "AA00000000000000000000000000000000000000000000000000000000000000": [1],
            "aa00000000000000000000000000000000000000000000000000000000000000": [2]
        }
    }"#;
    let mut inputs = Inputs::new();
    match inputs.deserialize_inputs(request) {
        Err(e) => assert_eq!(e, ParseError::DuplicateMapKey),
        Ok(()) => panic!("duplicate advice map keys must be rejected"),
    }
}
