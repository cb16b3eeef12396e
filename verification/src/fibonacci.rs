//! The Fibonacci example: a program that iterates the Fibonacci step in
//! the field, and the closed-form computation it is checked against.

use vstd::prelude::*;
use vstd::string::*;

use crate::codec::{append_u64_dec, dec_str_of};
use crate::example::{Example, ExampleInputs};
use crate::field::{felt_add, is_felt, FIELD_MODULUS};

verus! {

/// The `n`-th Fibonacci number in the field: `fib(0) = 0`, `fib(1) = 1`,
/// later terms the field sum of the two before.
pub open spec fn spec_fib(n: nat) -> int
    decreases n,
{
    if n == 0 {
        0
    } else if n == 1 {
        1
    } else {
        (spec_fib((n - 1) as nat) + spec_fib((n - 2) as nat)) % (FIELD_MODULUS as int)
    }
}

/// Computes the `n`-th term of the Fibonacci sequence in the field.
pub fn compute_fibonacci(n: usize) -> (r: u64)
    requires
        n >= 1,
    ensures
        r as int == spec_fib(n as nat),
        is_felt(r),
{
    let mut n1: u64 = 0;
    let mut n2: u64 = 1;
    let mut i: usize = 0;
    while i < n - 1
        invariant
            1 <= n,
            i <= n - 1,
            n1 as int == spec_fib(i as nat),
            n2 as int == spec_fib((i + 1) as nat),
            is_felt(n1),
            is_felt(n2),
        decreases n - 1 - i,
    {
        let n3 = felt_add(n1, n2);
        n1 = n2;
        n2 = n3;
        i += 1;
    }
    n2
}

/// The source of the Fibonacci program: the first two terms start on the
/// stack (top element 0, below it 1) and each repetition replaces the top
/// pair `(a, b)` by `(a + b, a)`, so after `n` repetitions the top of the
/// stack is the `n`-th Fibonacci number.
pub fn generate_fibonacci_program(n: usize) -> (r: String)
    ensures
        r@ == "begin\n    repeat."@ + dec_str_of(n as nat)
            + "\n        swap dup.1 add\n    end\nend"@,
{
    let mut source = String::new();
    source.append("begin\n    repeat.");
    append_u64_dec(&mut source, n as u64);
    source.append("\n        swap dup.1 add\n    end\nend");
    proof {
        assert(source@ =~= "begin\n    repeat."@ + dec_str_of(n as nat)
            + "\n        swap dup.1 add\n    end\nend"@);
    }
    source
}

/// Builds the Fibonacci example for the `n`-th term: the generated
/// program, the two starting terms as stack inputs (top element first),
/// and the expected top-of-stack result.
pub fn get_example(n: usize) -> (r: Example)
    requires
        n >= 1,
    ensures
        r.wf(),
        r.program@ == "begin\n    repeat."@ + dec_str_of(n as nat)
            + "\n        swap dup.1 add\n    end\nend"@,
        r.inputs.stack_init@ =~= seq![0u64, 1u64],
        r.inputs.advice_tape@ =~= Seq::<u64>::empty(),
        r.pub_inputs@ =~= seq![0u64, 1u64],
        r.expected_result@ =~= seq![spec_fib(n as nat) as u64],
        r.num_outputs == 1,
{
    let program = generate_fibonacci_program(n);
    let expected = compute_fibonacci(n);
    let mut stack_init: Vec<u64> = Vec::new();
    stack_init.push(0);
    stack_init.push(1);
    let mut pub_inputs: Vec<u64> = Vec::new();
    pub_inputs.push(0);
    pub_inputs.push(1);
    let mut expected_result: Vec<u64> = Vec::new();
    expected_result.push(expected);
    Example {
        program,
        inputs: ExampleInputs { stack_init, advice_tape: Vec::new() },
        pub_inputs,
        expected_result,
        num_outputs: 1,
    }
}

} // verus!
