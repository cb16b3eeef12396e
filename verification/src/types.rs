//! The result record a run or prove call fills in for its caller.

use vstd::prelude::*;

verus! {

/// What a run or prove call reports: the program's content hash, the
/// visible stack after execution, cycle and trace-length counts where the
/// engine reports them, and the proof bytes when one was produced.
pub struct Outputs {
    pub program_hash: String,
    pub stack_output: Vec<u64>,
    pub cycles: Option<u64>,
    pub trace_len: Option<u64>,
    pub proof_bytes: Option<Vec<u8>>,
}

} // verus!
