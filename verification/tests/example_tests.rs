//! The bundled examples, proved and verified against the real engine.

use miden_playground::comparison;
use miden_playground::example::Example;
use miden_playground::fibonacci;

/// Compiles an example's source with the engine's assembler.
fn compile(example: &Example) -> miden_processor::Program {
    let assembler = miden_assembly::Assembler::default();
    assembler
        .assemble_program(example.program.as_str())
        .expect("example source must assemble")
}

/// The example's stack inputs in the engine's bottom-first order.
fn stack_inputs(example: &Example) -> miden_processor::StackInputs {
    let values: Vec<miden_processor::Felt> = example
        .inputs
        .stack_init
        .iter()
        .rev()
        .map(|v| miden_processor::Felt::new(*v))
        .collect();
    miden_processor::StackInputs::new(values).expect("stack inputs must fit")
}

/// The example's advice tape.
fn advice_inputs(example: &Example) -> miden_processor::AdviceInputs {
    miden_processor::AdviceInputs::default()
        .with_stack_values(example.inputs.advice_tape.iter().copied())
        .expect("advice values must be field elements")
}

/// Proves the example, checks the outputs against the expected result, and
/// verifies the proof; with `fail` set, tampers with the outputs and
/// expects verification to reject them.
fn test_example(example: Example, fail: bool) {
    let program = compile(&example);
    let mut host = miden_processor::DefaultHost::default();
    let (outputs, proof) = miden_prover::prove(
        &program,
        stack_inputs(&example),
        advice_inputs(&example),
        &mut host,
        miden_prover::ProvingOptions::default(),
    )
    .expect("proving must succeed");

    let top: Vec<u64> = outputs.as_int_vec()[..example.num_outputs].to_vec();
    assert_eq!(top, example.expected_result, "program result was computed incorrectly");

    let program_info = miden_processor::ProgramInfo::from(program);
    if fail {
        let mut tampered = outputs.as_int_vec();
        tampered[0] = tampered[0].wrapping_add(1);
        let tampered_outputs = miden_processor::StackOutputs::try_from_ints(tampered)
            .expect("tampered outputs are field elements");
        assert!(
            miden_verifier::verify(program_info, stack_inputs(&example), tampered_outputs, proof)
                .is_err()
        );
    } else {
        let security = miden_verifier::verify(program_info, stack_inputs(&example), outputs, proof)
            .expect("verification must succeed");
        assert!(security >= 96);
    }
}

#[test]
fn test_comparison_example() {
    let example = comparison::get_example(10);
    test_example(example, false);
}

#[test]
fn test_comparison_example_fail() {
    let example = comparison::get_example(10);
    test_example(example, true);
}

#[test]
fn test_fib_example() {
    let example = fibonacci::get_example(16);
    test_example(example, false);
}

#[test]
fn test_fib_example_fail() {
    let example = fibonacci::get_example(16);
    test_example(example, true);
}

#[test]
fn test_fib_expected_value() {
    let example = fibonacci::get_example(16);
    assert_eq!(example.expected_result, vec![987]);
    assert_eq!(example.inputs.stack_init, vec![0, 1]);
    assert_eq!(example.num_outputs, 1);
}

#[test]
fn test_comparison_expected_values() {
    // 10 is not below 9, so the result is 10 + 9 = 19, which is odd.
    let example = comparison::get_example(10);
    assert_eq!(example.expected_result, vec![1, 19]);
    // 4 is below 9, so the result is 4 * 9 = 36, which is even.
    let small = comparison::get_example(4);
    assert_eq!(small.expected_result, vec![0, 36]);
}
