//! A ready-made example: a program's source together with its inputs and
//! the result it is expected to leave on the stack.

use vstd::prelude::*;

use crate::field::is_felt;

verus! {

/// The inputs an example program runs with: the initial operand stack
/// (top element first) and the advice tape it may consume.
pub struct ExampleInputs {
    pub stack_init: Vec<u64>,
    pub advice_tape: Vec<u64>,
}

/// A program source with its inputs, public inputs, expected result (top
/// of stack first) and the number of outputs a checker should compare.
pub struct Example {
    pub program: String,
    pub inputs: ExampleInputs,
    pub pub_inputs: Vec<u64>,
    pub expected_result: Vec<u64>,
    pub num_outputs: usize,
}

impl Example {
    /// Every input and expected value is a canonical field element.
    pub open spec fn wf(&self) -> bool {
        (forall|i: int|
            0 <= i < self.inputs.stack_init@.len() ==> is_felt(
                #[trigger] self.inputs.stack_init@[i],
            )) && (forall|i: int|
            0 <= i < self.inputs.advice_tape@.len() ==> is_felt(
                #[trigger] self.inputs.advice_tape@[i],
            )) && (forall|i: int|
            0 <= i < self.expected_result@.len() ==> is_felt(#[trigger] self.expected_result@[i]))
    }
}

} // verus!
