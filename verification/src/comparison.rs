//! The comparison example: a program that reads a secret value from the
//! advice tape, multiplies it by nine if it is below nine and otherwise
//! adds nine, and reports whether the outcome is odd.

use vstd::prelude::*;
use vstd::string::*;

use crate::example::{Example, ExampleInputs};
use crate::field::is_felt;

verus! {

/// The value the comparison program computes from the secret input.
pub open spec fn spec_comparison_result(value: int) -> int {
    if value < 9 {
        value * 9
    } else {
        value + 9
    }
}

/// The source of the comparison program: the secret value is pushed from
/// the advice tape, compared against nine, transformed, and duplicated so
/// that the final stack holds the oddness flag on top of the outcome; two
/// padding zeros are dropped so the stack ends at its base depth.
pub open spec fn comparison_source() -> Seq<char> {
    "begin\n    adv_push.1\n    dup\n    push.9\n    lt\n    if.true\n        push.9\n        mul\n    else\n        push.9\n        add\n    end\n    dup\n    is_odd\n    movup.15 drop\n    movup.15 drop\nend"@
}

/// Builds the comparison example for a secret input: the fixed program,
/// the value on the advice tape, and the expected final stack, oddness
/// flag first.
pub fn get_example(value: usize) -> (r: Example)
    requires
        value as int + 9 < crate::field::FIELD_MODULUS,
    ensures
        r.wf(),
        r.program@ == comparison_source(),
        r.inputs.stack_init@ =~= Seq::<u64>::empty(),
        r.inputs.advice_tape@ =~= seq![value as u64],
        r.pub_inputs@ =~= Seq::<u64>::empty(),
        r.expected_result@ =~= seq![
            (spec_comparison_result(value as int) % 2) as u64,
            spec_comparison_result(value as int) as u64,
        ],
        r.num_outputs == 2,
{
    let value: u64 = value as u64;
    let expected_result: u64 = if value < 9 {
        value * 9
    } else {
        value + 9
    };
    let program = String::from_str(
        "begin\n    adv_push.1\n    dup\n    push.9\n    lt\n    if.true\n        push.9\n        mul\n    else\n        push.9\n        add\n    end\n    dup\n    is_odd\n    movup.15 drop\n    movup.15 drop\nend",
    );
    let mut advice_tape: Vec<u64> = Vec::new();
    advice_tape.push(value);
    let mut expected: Vec<u64> = Vec::new();
    expected.push(expected_result % 2);
    expected.push(expected_result);
    Example {
        program,
        inputs: ExampleInputs { stack_init: Vec::new(), advice_tape },
        pub_inputs: Vec::new(),
        expected_result: expected,
        num_outputs: 2,
    }
}

} // verus!
