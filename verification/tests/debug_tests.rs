//! The debug session controller over hand-built traces: stepping,
//! boundaries, breakpoints, and the projector's rendering.

use miden_playground::debug::{AsmOp, DebugCommand, DebugExecutor, DebugOutput, VmSnapshot};

fn asmop(op: &str, num_cycles: u8, cycle_idx: u8, should_break: bool) -> AsmOp {
    AsmOp { op: op.to_string(), num_cycles, cycle_idx, should_break }
}

fn snap(
    clk: u32,
    op: Option<&str>,
    note: Option<AsmOp>,
    stack: Vec<u64>,
    memory: Vec<(u64, u64)>,
) -> VmSnapshot {
    VmSnapshot { clk, op: op.map(|s| s.to_string()), asmop: note, stack, memory }
}

/// A recorded trace of a program that pushes 1 and 2, adds them, and
/// stores the sum at address 1.
fn store_program_trace() -> Vec<VmSnapshot> {
    let mem = vec![(0, 0), (1, 3), (2, 0), (3, 0)];
    vec![
        snap(0, None, None, vec![0; 17], vec![]),
        snap(1, Some("Span"), None, vec![0; 17], vec![]),
        snap(2, Some("Pad"), Some(asmop("push.1", 2, 1, false)), vec![0; 17], vec![]),
        snap(
            3,
            Some("Incr"),
            Some(asmop("push.1", 2, 2, false)),
            vec![1, 0, 0, 0, 0, 0, 0, 0, 0, 0, 0, 0, 0, 0, 0, 0, 0, 0],
            vec![],
        ),
        snap(
            4,
            Some("Push(2)"),
            Some(asmop("push.2", 1, 1, false)),
            vec![2, 1, 0, 0, 0, 0, 0, 0, 0, 0, 0, 0, 0, 0, 0, 0, 0],
            vec![],
        ),
        snap(
            5,
            Some("Add"),
            Some(asmop("add", 1, 1, false)),
            vec![3, 0, 0, 0, 0, 0, 0, 0, 0, 0, 0, 0, 0, 0, 0, 0, 0, 0],
            vec![],
        ),
        snap(
            6,
            Some("Pad"),
            Some(asmop("mem_store.1", 4, 1, false)),
            vec![0, 3, 0, 0, 0, 0, 0, 0, 0, 0, 0, 0, 0, 0, 0, 0, 0, 0],
            vec![],
        ),
        snap(
            7,
            Some("Incr"),
            Some(asmop("mem_store.1", 4, 2, false)),
            vec![1, 3, 0, 0, 0, 0, 0, 0, 0, 0, 0, 0, 0, 0, 0, 0, 0],
            vec![],
        ),
        snap(
            8,
            Some("MStore"),
            Some(asmop("mem_store.1", 4, 3, false)),
            vec![3, 0, 0, 0, 0, 0, 0, 0, 0, 0, 0, 0, 0, 0, 0, 0],
            mem.clone(),
        ),
        snap(
            9,
            Some("Drop"),
            Some(asmop("mem_store.1", 4, 4, false)),
            vec![0; 16],
            mem.clone(),
        ),
        snap(10, Some("End"), None, vec![0; 16], mem),
    ]
}

fn assert_step(
    output: &DebugOutput,
    clk: u32,
    op: Option<&str>,
    instruction: Option<&str>,
    num_of_operations: Option<u8>,
    operation_index: Option<u8>,
    stack: Vec<u64>,
    memory: Vec<u64>,
) {
    assert_eq!(output.clk, clk);
    assert_eq!(output.op, op.map(|s| s.to_string()));
    assert_eq!(output.instruction, instruction.map(|s| s.to_string()));
    assert_eq!(output.num_of_operations, num_of_operations);
    assert_eq!(output.operation_index, operation_index);
    assert_eq!(output.stack, stack);
    assert_eq!(output.memory, memory);
}

#[test]
fn test_debug_program() {
    // Playing all the way through a trace whose final memory holds the
    // stored sum at four word-aligned addresses.
    let final_mem = vec![(1234564, 0), (1234565, 0), (1234566, 0), (1234567, 3)];
    let mut trace: Vec<VmSnapshot> = (0..10)
        .map(|clk| snap(clk, Some("Span"), None, vec![0; 16], vec![]))
        .collect();
    trace.push(snap(10, Some("End"), None, vec![0; 16], final_mem));
    let mut debug_executor = DebugExecutor::new(trace).unwrap();
    let output = debug_executor.execute(DebugCommand::PlayAll, None);

    assert_eq!(output.clk, 10);
    assert_eq!(output.op, Some("End".to_string()));
    assert_eq!(output.instruction, None);
    assert_eq!(output.num_of_operations, None);
    assert_eq!(output.operation_index, None);
    assert_eq!(output.stack, vec![0, 0, 0, 0, 0, 0, 0, 0, 0, 0, 0, 0, 0, 0, 0, 0]);
    assert_eq!(output.memory, vec![1234564, 0, 1234565, 0, 1234566, 0, 1234567, 3]);

    let mut debug_executor_2 = DebugExecutor::new(store_program_trace()).unwrap();

    let output = debug_executor_2.execute(DebugCommand::Play, Some(1));
    assert_step(&output, 1, Some("Span"), None, None, None, vec![0; 17], vec![]);

    let output = debug_executor_2.execute(DebugCommand::Play, Some(1));
    assert_step(
        &output,
        2,
        Some("Pad"),
        Some("\"push.1\""),
        Some(2),
        Some(1),
        vec![0; 17],
        vec![],
    );

    let output = debug_executor_2.execute(DebugCommand::Play, Some(1));
    assert_step(
        &output,
        3,
        Some("Incr"),
        Some("\"push.1\""),
        Some(2),
        Some(2),
        vec![1, 0, 0, 0, 0, 0, 0, 0, 0, 0, 0, 0, 0, 0, 0, 0, 0, 0],
        vec![],
    );

    let output = debug_executor_2.execute(DebugCommand::Play, Some(1));
    assert_step(
        &output,
        4,
        Some("Push(2)"),
        Some("\"push.2\""),
        Some(1),
        Some(1),
        vec![2, 1, 0, 0, 0, 0, 0, 0, 0, 0, 0, 0, 0, 0, 0, 0, 0],
        vec![],
    );

    let output = debug_executor_2.execute(DebugCommand::Play, Some(1));
    assert_step(
        &output,
        5,
        Some("Add"),
        Some("\"add\""),
        Some(1),
        Some(1),
        vec![3, 0, 0, 0, 0, 0, 0, 0, 0, 0, 0, 0, 0, 0, 0, 0, 0, 0],
        vec![],
    );

    let output = debug_executor_2.execute(DebugCommand::Play, Some(1));
    assert_step(
        &output,
        6,
        Some("Pad"),
        Some("\"mem_store.1\""),
        Some(4),
        Some(1),
        vec![0, 3, 0, 0, 0, 0, 0, 0, 0, 0, 0, 0, 0, 0, 0, 0, 0, 0],
        vec![],
    );

    let output = debug_executor_2.execute(DebugCommand::Play, Some(1));
    assert_step(
        &output,
        7,
        Some("Incr"),
        Some("\"mem_store.1\""),
        Some(4),
        Some(2),
        vec![1, 3, 0, 0, 0, 0, 0, 0, 0, 0, 0, 0, 0, 0, 0, 0, 0],
        vec![],
    );

    let output = debug_executor_2.execute(DebugCommand::Play, Some(1));
    assert_step(
        &output,
        8,
        Some("MStore"),
        Some("\"mem_store.1\""),
        Some(4),
        Some(3),
        vec![3, 0, 0, 0, 0, 0, 0, 0, 0, 0, 0, 0, 0, 0, 0, 0],
        vec![0, 0, 1, 3, 2, 0, 3, 0],
    );

    let output = debug_executor_2.execute(DebugCommand::Play, Some(1));
    assert_step(
        &output,
        9,
        Some("Drop"),
        Some("\"mem_store.1\""),
        Some(4),
        Some(4),
        vec![0; 16],
        vec![0, 0, 1, 3, 2, 0, 3, 0],
    );

    let output = debug_executor_2.execute(DebugCommand::Play, Some(1));
    assert_step(&output, 10, Some("End"), None, None, None, vec![0; 16], vec![0, 0, 1, 3, 2, 0, 3, 0]);

    // It should not play more cycles.
    let output = debug_executor_2.execute(DebugCommand::Play, Some(1));
    assert_step(&output, 10, Some("End"), None, None, None, vec![0; 16], vec![0, 0, 1, 3, 2, 0, 3, 0]);
}

#[test]
fn test_stepping_equivalence() {
    // Play(1) three times lands where a single Play(3) lands.
    let mut one_by_one = DebugExecutor::new(store_program_trace()).unwrap();
    one_by_one.execute(DebugCommand::Play, Some(1));
    one_by_one.execute(DebugCommand::Play, Some(1));
    let stepped = one_by_one.execute(DebugCommand::Play, Some(1));

    let mut at_once = DebugExecutor::new(store_program_trace()).unwrap();
    let jumped = at_once.execute(DebugCommand::Play, Some(3));
    assert_eq!(stepped.clk, jumped.clk);
    assert_eq!(stepped.op, jumped.op);
    assert_eq!(stepped.stack, jumped.stack);
    assert_eq!(stepped.memory, jumped.memory);

    // A Play of at least the cycle count equals PlayAll.
    let mut big_play = DebugExecutor::new(store_program_trace()).unwrap();
    let by_count = big_play.execute(DebugCommand::Play, Some(1000));
    let mut play_all = DebugExecutor::new(store_program_trace()).unwrap();
    let all = play_all.execute(DebugCommand::PlayAll, None);
    assert_eq!(by_count.clk, all.clk);
    assert_eq!(by_count.stack, all.stack);
    assert_eq!(by_count.memory, all.memory);
}

#[test]
fn test_boundary_idempotence() {
    let mut session = DebugExecutor::new(store_program_trace()).unwrap();
    let at_end = session.execute(DebugCommand::PlayAll, None);
    // Any further Play or PlayAll returns an identical output.
    let again = session.execute(DebugCommand::PlayAll, None);
    assert_eq!(at_end.clk, again.clk);
    assert_eq!(at_end.stack, again.stack);
    assert_eq!(at_end.memory, again.memory);
    let once_more = session.execute(DebugCommand::Play, Some(5));
    assert_eq!(at_end.clk, once_more.clk);
    assert_eq!(at_end.stack, once_more.stack);
    assert_eq!(at_end.memory, once_more.memory);
    // The mirror at the start boundary.
    let mut back = DebugExecutor::new(store_program_trace()).unwrap();
    let start = back.execute(DebugCommand::Rewind, Some(99));
    assert_eq!(start.clk, 0);
    let start_again = back.execute(DebugCommand::RewindAll, None);
    assert_eq!(start_again.clk, 0);
}

#[test]
fn test_breakpoint_halt() {
    // A three-instruction program whose second instruction is flagged.
    let trace = vec![
        snap(0, None, None, vec![0; 16], vec![]),
        snap(1, Some("Pad"), Some(asmop("push.1", 1, 1, false)), vec![0; 16], vec![]),
        snap(2, Some("Pad"), Some(asmop("push.2", 1, 1, true)), vec![0; 16], vec![]),
        snap(3, Some("Add"), Some(asmop("add", 1, 1, false)), vec![0; 16], vec![]),
        snap(4, Some("End"), None, vec![0; 16], vec![]),
    ];
    let mut session = DebugExecutor::new(trace).unwrap();
    let output = session.execute(DebugCommand::PlayAll, None);
    // The session halts at the flagged instruction, not the End snapshot.
    assert_eq!(output.clk, 2);
    assert_eq!(output.instruction, Some("\"push.2\"".to_string()));
    // A further PlayAll runs to completion.
    let output = session.execute(DebugCommand::PlayAll, None);
    assert_eq!(output.clk, 4);
    assert_eq!(output.op, Some("End".to_string()));
    // Rewinding also halts on the flagged instruction.
    let output = session.execute(DebugCommand::RewindAll, None);
    assert_eq!(output.clk, 2);
}

#[test]
fn test_rewind_and_print_state() {
    let mut session = DebugExecutor::new(store_program_trace()).unwrap();
    session.execute(DebugCommand::Play, Some(5));
    let back = session.execute(DebugCommand::Rewind, Some(2));
    assert_eq!(back.clk, 3);
    let shown = session.execute(DebugCommand::PrintState, None);
    assert_eq!(shown.clk, 3);
    assert_eq!(shown.op, Some("Incr".to_string()));
}

#[test]
fn test_empty_trace_rejected() {
    match DebugExecutor::new(Vec::new()) {
        Err(e) => assert_eq!(e, miden_playground::errors::ParseError::EmptySequence),
        Ok(_) => panic!("an empty trace must be rejected"),
    }
}

#[test]
fn test_instruction_rendering_escapes() {
    // Quotes and backslashes inside instruction text are escaped in the
    // rendered annotation.
    let trace = vec![snap(
        0,
        Some("Push(1)"),
        Some(asmop("push.\"1\"", 1, 1, false)),
        vec![0; 16],
        vec![],
    )];
    let mut session = DebugExecutor::new(trace).unwrap();
    let output = session.execute(DebugCommand::PrintState, None);
    assert_eq!(output.instruction, Some("\"push.\\\"1\\\"\"".to_string()));
}

#[test]
fn test_memory_flattening_sorted() {
    // The projector flattens memory in ascending address order even when
    // the snapshot lists addresses out of order.
    let trace = vec![snap(0, None, None, vec![1, 2], vec![(9, 90), (3, 30), (7, 70)])];
    let mut session = DebugExecutor::new(trace).unwrap();
    let output = session.execute(DebugCommand::PrintState, None);
    assert_eq!(output.memory, vec![3, 30, 7, 70, 9, 90]);
    assert_eq!(output.stack, vec![1, 2]);
}
