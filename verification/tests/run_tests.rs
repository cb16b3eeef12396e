//! End to end against the real engine: parse the request with the
//! library, execute, prove and verify with the engine.

use miden_playground::envelope::Inputs;

fn engine_stack_inputs(inputs: &Inputs) -> miden_processor::StackInputs {
    let values: Vec<miden_processor::Felt> = inputs
        .stack_inputs
        .elements
        .iter()
        .rev()
        .map(|v| miden_processor::Felt::new(*v))
        .collect();
    miden_processor::StackInputs::new(values).expect("stack inputs must fit")
}

fn engine_advice_inputs(inputs: &Inputs) -> miden_processor::AdviceInputs {
    miden_processor::AdviceInputs::default()
        .with_stack_values(inputs.advice_provider.stack.iter().copied())
        .expect("advice values must be field elements")
}

#[test]
fn test_run_push_add() {
    let source = "begin
            push.1 push.2 add
            swap drop
        end";
    let mut inputs = Inputs::new();
    inputs.deserialize_inputs("").unwrap();

    let assembler = miden_assembly::Assembler::default();
    let program = assembler.assemble_program(source).unwrap();
    let mut host = miden_processor::DefaultHost::default();
    let trace = miden_processor::execute(
        &program,
        engine_stack_inputs(&inputs),
        engine_advice_inputs(&inputs),
        &mut host,
        miden_processor::ExecutionOptions::default(),
    )
    .unwrap();

    let stack_output = trace.stack_outputs().as_int_vec();
    assert_eq!(stack_output, vec![3, 0, 0, 0, 0, 0, 0, 0, 0, 0, 0, 0, 0, 0, 0, 0]);
}

#[test]
fn test_prove_and_verify_push_add() {
    let source = "begin
        push.1 push.2 add
        swap drop
    end";
    let input_str = r#"
    {
        "operand_stack": ["0"],
        "advice_stack": ["0"]
    }"#;
    let mut inputs = Inputs::new();
    inputs.deserialize_inputs(input_str).unwrap();

    let assembler = miden_assembly::Assembler::default();
    let program = assembler.assemble_program(source).unwrap();
    let mut host = miden_processor::DefaultHost::default();
    let (outputs, proof) = miden_prover::prove(
        &program,
        engine_stack_inputs(&inputs),
        engine_advice_inputs(&inputs),
        &mut host,
        miden_prover::ProvingOptions::default(),
    )
    .unwrap();

    assert_eq!(outputs.as_int_vec()[0], 3);
    assert!(!proof.to_bytes().is_empty());

    // The default proving options target the 96-bit security level.
    let program_info = miden_processor::ProgramInfo::from(program);
    let security =
        miden_verifier::verify(program_info, engine_stack_inputs(&inputs), outputs, proof).unwrap();
    assert_eq!(security, 96);
}

#[test]
fn test_debug_session_against_engine() {
    // Materialize the engine's own trace and drive the library's session
    // controller over it.
    let source = "begin
            push.1 push.2 add
            mem_store.1
        end";
    let mut inputs = Inputs::new();
    inputs.deserialize_inputs("").unwrap();

    let assembler = miden_assembly::Assembler::default().with_debug_mode(true);
    let program = assembler.assemble_program(source).unwrap();
    let mut host = miden_processor::DefaultHost::default();
    let mut iter = miden_processor::execute_iter(
        &program,
        engine_stack_inputs(&inputs),
        engine_advice_inputs(&inputs),
        &mut host,
    );

    let mut trace: Vec<miden_playground::debug::VmSnapshot> = Vec::new();
    while let Some(state) = iter.next() {
        let state = state.expect("execution must not fail");
        trace.push(miden_playground::debug::VmSnapshot {
            clk: state.clk.as_u32(),
            op: state.op.map(|op| format!("{op:?}")),
            asmop: state.asmop.as_ref().map(|a| miden_playground::debug::AsmOp {
                op: a.op().to_string(),
                num_cycles: a.num_cycles(),
                cycle_idx: a.cycle_idx(),
                should_break: a.should_break(),
            }),
            stack: state.stack.iter().map(|f| {
                miden_processor::math::StarkField::as_int(f)
            }).collect(),
            memory: state
                .memory
                .iter()
                .map(|(addr, value)| {
                    (u64::from(u32::from(*addr)), miden_processor::math::StarkField::as_int(value))
                })
                .collect(),
        });
    }

    let mut session =
        miden_playground::debug::DebugExecutor::new(trace).expect("the trace is never empty");
    let output = session.execute(miden_playground::debug::DebugCommand::PlayAll, None);
    // The final snapshot is the End of the program with the sum stored.
    assert_eq!(output.op, Some("End".to_string()));
    assert_eq!(output.stack[0], 0);
    let rewound = session.execute(miden_playground::debug::DebugCommand::RewindAll, None);
    assert_eq!(rewound.clk, 0);
}
