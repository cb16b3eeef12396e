//! The debug session controller: a bidirectional cursor over the
//! execution-trace snapshots with breakpoint-aware stepping, and the
//! projector that renders the current snapshot for the caller.
//!
//! The controller materializes the deterministic trace as a sequence of
//! snapshots and owns the cursor exclusively. Stepping past either
//! boundary is a no-op, never an error.

use vstd::prelude::*;
use vstd::string::*;

use crate::errors::ParseError;

verus! {

/// The decoded-instruction annotation carried by a snapshot.
pub struct AsmOp {
    /// The assembly instruction's text.
    pub op: String,
    /// How many VM cycles the instruction takes.
    pub num_cycles: u8,
    /// Which of those cycles this snapshot is at, starting at 1.
    pub cycle_idx: u8,
    /// The instruction is marked as a breakpoint.
    pub should_break: bool,
}

/// One cycle's machine state, as plain values: clock, decoded operation
/// name (absent at the terminal snapshot), optional instruction
/// annotation, the full operand stack, and the sparse memory image.
pub struct VmSnapshot {
    pub clk: u32,
    pub op: Option<String>,
    pub asmop: Option<AsmOp>,
    pub stack: Vec<u64>,
    pub memory: Vec<(u64, u64)>,
}

/// The caller-facing flattening of a snapshot.
pub struct DebugOutput {
    pub clk: u32,
    pub op: Option<String>,
    pub instruction: Option<String>,
    pub num_of_operations: Option<u8>,
    pub operation_index: Option<u8>,
    pub stack: Vec<u64>,
    /// Interleaved (address, value) pairs in ascending address order.
    pub memory: Vec<u64>,
}

/// The commands a debug session accepts.
pub enum DebugCommand {
    PlayAll,
    Play,
    RewindAll,
    Rewind,
    PrintState,
}

/// The mathematical image of an instruction annotation.
pub ghost struct AsmOpModel {
    pub op: Seq<char>,
    pub num_cycles: u8,
    pub cycle_idx: u8,
    pub should_break: bool,
}

/// The mathematical image of a snapshot.
pub ghost struct SnapshotModel {
    pub clk: u32,
    pub op: Option<Seq<char>>,
    pub asmop: Option<AsmOpModel>,
    pub stack: Seq<u64>,
    pub memory: Seq<(u64, u64)>,
}

/// The mathematical image of a debug output.
pub ghost struct OutputModel {
    pub clk: u32,
    pub op: Option<Seq<char>>,
    pub instruction: Option<Seq<char>>,
    pub num_of_operations: Option<u8>,
    pub operation_index: Option<u8>,
    pub stack: Seq<u64>,
    pub memory: Seq<u64>,
}

impl AsmOp {
    /// The annotation as plain values.
    pub open spec fn model(&self) -> AsmOpModel {
        AsmOpModel {
            op: self.op@,
            num_cycles: self.num_cycles,
            cycle_idx: self.cycle_idx,
            should_break: self.should_break,
        }
    }
}

impl VmSnapshot {
    /// The snapshot as plain values.
    pub open spec fn model(&self) -> SnapshotModel {
        SnapshotModel {
            clk: self.clk,
            op: match self.op {
                Some(s) => Some(s@),
                None => None,
            },
            asmop: match self.asmop {
                Some(a) => Some(a.model()),
                None => None,
            },
            stack: self.stack@,
            memory: self.memory@,
        }
    }
}

impl DebugOutput {
    /// The output as plain values.
    pub open spec fn model(&self) -> OutputModel {
        OutputModel {
            clk: self.clk,
            op: match self.op {
                Some(s) => Some(s@),
                None => None,
            },
            instruction: match self.instruction {
                Some(s) => Some(s@),
                None => None,
            },
            num_of_operations: self.num_of_operations,
            operation_index: self.operation_index,
            stack: self.stack@,
            memory: self.memory@,
        }
    }
}

/// The snapshot carries an instruction annotation whose breakpoint flag is
/// set.
pub open spec fn breaks(s: SnapshotModel) -> bool {
    match s.asmop {
        Some(a) => a.should_break,
        None => false,
    }
}

// ---------------------------------------------------------------------------
// Memory flattening
// ---------------------------------------------------------------------------

/// Inserts a pair into an address-sorted sequence, after any pair with the
/// same address (a stable insertion).
pub open spec fn insert_mem(s: Seq<(u64, u64)>, p: (u64, u64)) -> Seq<(u64, u64)>
    decreases s.len(),
{
    if s.len() == 0 {
        seq![p]
    } else if p.0 < s.last().0 {
        insert_mem(s.drop_last(), p).push(s.last())
    } else {
        s.push(p)
    }
}

/// Stable insertion sort of memory pairs by ascending address.
pub open spec fn sort_mem(s: Seq<(u64, u64)>) -> Seq<(u64, u64)>
    decreases s.len(),
{
    if s.len() == 0 {
        Seq::empty()
    } else {
        insert_mem(sort_mem(s.drop_last()), s.last())
    }
}

/// The pairs flattened into one alternating (address, value) sequence.
pub open spec fn interleave(s: Seq<(u64, u64)>) -> Seq<u64>
    decreases s.len(),
{
    if s.len() == 0 {
        Seq::empty()
    } else {
        interleave(s.drop_last()) + seq![s.last().0, s.last().1]
    }
}

/// Addresses never decrease along the sequence.
pub open spec fn mem_sorted(s: Seq<(u64, u64)>) -> bool {
    forall|i: int, j: int| 0 <= i < j < s.len() ==> (#[trigger] s[i]).0 <= (#[trigger] s[j]).0
}

proof fn lemma_insert_mem_sorted(s: Seq<(u64, u64)>, p: (u64, u64))
    requires
        mem_sorted(s),
    ensures
        mem_sorted(insert_mem(s, p)),
        insert_mem(s, p).len() == s.len() + 1,
        insert_mem(s, p).to_multiset() == s.to_multiset().insert(p),
    decreases s.len(),
{
    broadcast use vstd::seq_lib::group_to_multiset_ensures;

    if s.len() == 0 {
        assert(seq![p].drop_last() =~= Seq::<(u64, u64)>::empty());
        assert(seq![p] =~= Seq::<(u64, u64)>::empty().push(p));
    } else if p.0 < s.last().0 {
        let d = s.drop_last();
        assert(mem_sorted(d)) by {
            assert(forall|i: int| 0 <= i < d.len() ==> d[i] == s[i]);
        }
        lemma_insert_mem_sorted(d, p);
        let t = insert_mem(d, p);
        assert(mem_sorted(t.push(s.last()))) by {
            assert(forall|i: int| 0 <= i < t.len() ==> t.push(s.last())[i] == t[i]);
            assert(t.push(s.last()).last() == s.last());
            assert forall|i: int| 0 <= i < t.len() implies (#[trigger] t[i]).0
                <= s.last().0 by {
                if t[i].0 != p.0 || t[i] != p {
                    if exists|j: int| 0 <= j < d.len() && #[trigger] d[j] == t[i] {
                        let j = choose|j: int| 0 <= j < d.len() && #[trigger] d[j] == t[i];
                        assert(d[j].0 <= s.last().0) by {
                            assert(s[j] == d[j]);
                        }
                    } else {
                        assert(t.to_multiset().contains(t[i]));
                        assert(d.to_multiset().insert(p).contains(t[i]));
                        if t[i] != p {
                            assert(d.to_multiset().contains(t[i]));
                            assert(d.contains(t[i]));
                        }
                    }
                }
            }
        }
        assert(s =~= d.push(s.last()));
        assert(s.to_multiset() == d.to_multiset().insert(s.last()));
        assert(t.push(s.last()).to_multiset() == t.to_multiset().insert(s.last()));
        assert(d.to_multiset().insert(p).insert(s.last()) =~= d.to_multiset().insert(
            s.last(),
        ).insert(p));
    } else {
        assert(mem_sorted(s.push(p))) by {
            assert(forall|i: int| 0 <= i < s.len() ==> s.push(p)[i] == s[i]);
            assert forall|i: int| 0 <= i < s.len() implies (#[trigger] s[i]).0 <= p.0 by {
                assert(s[i].0 <= s.last().0);
            }
        }
    }
}

/// The flattening law: sorting memory pairs by address keeps exactly the
/// original pairs (as a multiset) and puts the addresses in ascending
/// order.
pub proof fn lemma_sort_mem_correct(s: Seq<(u64, u64)>)
    ensures
        mem_sorted(sort_mem(s)),
        sort_mem(s).len() == s.len(),
        sort_mem(s).to_multiset() == s.to_multiset(),
    decreases s.len(),
{
    broadcast use vstd::seq_lib::group_to_multiset_ensures;

    if s.len() == 0 {
    } else {
        lemma_sort_mem_correct(s.drop_last());
        lemma_insert_mem_sorted(sort_mem(s.drop_last()), s.last());
        assert(s =~= s.drop_last().push(s.last()));
        assert(s.to_multiset() == s.drop_last().to_multiset().insert(s.last()));
    }
}

/// Inserts a pair into an address-sorted vector, after any pair with the
/// same address.
fn insert_sorted(out: &mut Vec<(u64, u64)>, p: (u64, u64))
    ensures
        final(out)@ == insert_mem(old(out)@, p),
    decreases old(out)@.len(),
{
    let n = out.len();
    if n == 0 {
        out.push(p);
        proof {
            assert(out@ =~= seq![p]);
        }
    } else {
        let last = out[n - 1];
        if p.0 < last.0 {
            let ghost before = out@;
            out.pop();
            proof {
                assert(out@ =~= before.drop_last());
            }
            insert_sorted(out, p);
            out.push(last);
        } else {
            out.push(p);
        }
    }
}

/// Memory pairs sorted by ascending address, stably.
fn sorted_memory(mem: &Vec<(u64, u64)>) -> (r: Vec<(u64, u64)>)
    ensures
        r@ == sort_mem(mem@),
{
    let mut out: Vec<(u64, u64)> = Vec::new();
    let mut i: usize = 0;
    proof {
        assert(mem@.subrange(0, 0) =~= Seq::<(u64, u64)>::empty());
    }
    while i < mem.len()
        invariant
            i <= mem.len(),
            out@ == sort_mem(mem@.subrange(0, i as int)),
        decreases mem.len() - i,
    {
        insert_sorted(&mut out, mem[i]);
        proof {
            let next = mem@.subrange(0, i as int + 1);
            assert(next.drop_last() =~= mem@.subrange(0, i as int));
            assert(next.last() == mem@[i as int]);
        }
        i += 1;
    }
    proof {
        assert(mem@.subrange(0, mem@.len() as int) =~= mem@);
    }
    out
}

/// Flattens (address, value) pairs into one alternating sequence, in the
/// order given.
pub fn transform_2d_to_1d(input: &Vec<(u64, u64)>) -> (r: Vec<u64>)
    ensures
        r@ == interleave(input@),
{
    let mut out: Vec<u64> = Vec::new();
    let mut i: usize = 0;
    proof {
        assert(interleave(input@.subrange(0, 0)) =~= Seq::<u64>::empty());
        assert(out@ =~= interleave(input@.subrange(0, 0)));
    }
    while i < input.len()
        invariant
            i <= input.len(),
            out@ == interleave(input@.subrange(0, i as int)),
        decreases input.len() - i,
    {
        let ghost before = out@;
        out.push(input[i].0);
        out.push(input[i].1);
        proof {
            let next = input@.subrange(0, i as int + 1);
            assert(next.drop_last() =~= input@.subrange(0, i as int));
            assert(next.last() == input@[i as int]);
            assert(out@ =~= before + seq![input@[i as int].0, input@[i as int].1]);
        }
        i += 1;
    }
    proof {
        assert(input@.subrange(0, input@.len() as int) =~= input@);
    }
    out
}

// ---------------------------------------------------------------------------
// Snapshot projection
// ---------------------------------------------------------------------------

/// A character as it appears inside the quoted rendering: a double quote
/// or a backslash carries a backslash escape.
pub open spec fn escaped_char(c: char) -> Seq<char> {
    if c == '"' {
        seq!['\\', '"']
    } else if c == '\\' {
        seq!['\\', '\\']
    } else {
        seq![c]
    }
}

/// The text with every double quote and backslash escaped.
pub open spec fn escaped(s: Seq<char>) -> Seq<char>
    decreases s.len(),
{
    if s.len() == 0 {
        Seq::empty()
    } else {
        escaped(s.drop_last()) + escaped_char(s.last())
    }
}

/// The instruction text wrapped in double quotes, its quotes and
/// backslashes escaped, as the session renders it.
pub open spec fn quoted(s: Seq<char>) -> Seq<char> {
    seq!['"'] + escaped(s) + seq!['"']
}

/// The deterministic projection of a snapshot: clock unchanged, operation
/// and instruction rendered only when present, stack order kept, memory
/// flattened in ascending address order.
pub open spec fn project(s: SnapshotModel) -> OutputModel {
    OutputModel {
        clk: s.clk,
        op: s.op,
        instruction: match s.asmop {
            Some(a) => Some(quoted(a.op)),
            None => None,
        },
        num_of_operations: match s.asmop {
            Some(a) => Some(a.num_cycles),
            None => None,
        },
        operation_index: match s.asmop {
            Some(a) => Some(a.cycle_idx),
            None => None,
        },
        stack: s.stack,
        memory: interleave(sort_mem(s.memory)),
    }
}

/// The instruction text wrapped in double quotes, escaped.
fn quote_text(s: &String) -> (r: String)
    ensures
        r@ == quoted(s@),
{
    proof {
        reveal_strlit("\"");
        reveal_strlit("\\\"");
        reveal_strlit("\\\\");
    }
    let text = s.as_str();
    let mut out = String::new();
    out.append("\"");
    let n = text.unicode_len();
    let mut i: usize = 0;
    proof {
        assert(text@.subrange(0, 0) =~= Seq::<char>::empty());
        assert(out@ =~= seq!['"'] + escaped(text@.subrange(0, 0)));
    }
    while i < n
        invariant
            i <= n,
            n == text@.len(),
            out@ == seq!['"'] + escaped(text@.subrange(0, i as int)),
        decreases n - i,
    {
        let ghost before = out@;
        let c = text.get_char(i);
        if c == '"' {
            out.append("\\\"");
            proof {
                reveal_strlit("\\\"");
                assert("\\\""@ =~= seq!['\\', '"']);
            }
        } else if c == '\\' {
            out.append("\\\\");
            proof {
                reveal_strlit("\\\\");
                assert("\\\\"@ =~= seq!['\\', '\\']);
            }
        } else {
            let piece = text.substring_char(i, i + 1);
            out.append(piece);
            proof {
                assert(piece@ =~= seq![text@[i as int]]);
            }
        }
        proof {
            let next = text@.subrange(0, i as int + 1);
            assert(next.drop_last() =~= text@.subrange(0, i as int));
            assert(next.last() == text@[i as int]);
            assert(out@ =~= before + escaped_char(text@[i as int]));
            assert(out@ =~= seq!['"'] + escaped(next));
        }
        i += 1;
    }
    out.append("\"");
    proof {
        assert(text@.subrange(0, n as int) =~= text@);
        assert(out@ =~= quoted(s@));
    }
    out
}

/// A copy of the stack values.
fn clone_stack(values: &Vec<u64>) -> (r: Vec<u64>)
    ensures
        r@ == values@,
{
    let mut out: Vec<u64> = Vec::new();
    let mut i: usize = 0;
    while i < values.len()
        invariant
            i <= values.len(),
            out@ =~= values@.subrange(0, i as int),
        decreases values.len() - i,
    {
        out.push(values[i]);
        proof {
            assert(out@ =~= values@.subrange(0, i as int + 1));
        }
        i += 1;
    }
    proof {
        assert(out@ =~= values@);
    }
    out
}

/// Renders a snapshot for the caller.
pub fn project_snapshot(s: &VmSnapshot) -> (r: DebugOutput)
    ensures
        r.model() == project(s.model()),
{
    let op: Option<String> = match &s.op {
        Some(text) => Some(text.clone()),
        None => None,
    };
    let (instruction, num_of_operations, operation_index): (Option<String>, Option<u8>, Option<
        u8,
    >) = match &s.asmop {
        Some(a) => (Some(quote_text(&a.op)), Some(a.num_cycles), Some(a.cycle_idx)),
        None => (None, None, None),
    };
    let sorted = sorted_memory(&s.memory);
    let memory = transform_2d_to_1d(&sorted);
    let out = DebugOutput {
        clk: s.clk,
        op,
        instruction,
        num_of_operations,
        operation_index,
        stack: clone_stack(&s.stack),
        memory,
    };
    out
}


// ---------------------------------------------------------------------------
// The cursor and its stepping semantics
// ---------------------------------------------------------------------------

/// Where the cursor lands after stepping forward up to `n` cycles: it
/// stops early when the trace is exhausted or when a newly reached
/// snapshot carries a set breakpoint flag.
pub open spec fn play_pos(tr: Seq<SnapshotModel>, pos: int, n: nat) -> int
    decreases n,
{
    if n == 0 || pos + 1 >= tr.len() {
        pos
    } else if breaks(tr[pos + 1]) {
        pos + 1
    } else {
        play_pos(tr, pos + 1, (n - 1) as nat)
    }
}

/// Where the cursor lands after playing to exhaustion or to the next
/// breakpoint, whichever comes first.
pub open spec fn play_all_pos(tr: Seq<SnapshotModel>, pos: int) -> int {
    play_pos(tr, pos, tr.len() as nat)
}

/// Where the cursor lands after stepping backward up to `n` cycles: it
/// stops early at the first snapshot or at a snapshot with a set
/// breakpoint flag.
pub open spec fn rewind_pos(tr: Seq<SnapshotModel>, pos: int, n: nat) -> int
    decreases n,
{
    if n == 0 || pos == 0 {
        pos
    } else if breaks(tr[pos - 1]) {
        pos - 1
    } else {
        rewind_pos(tr, pos - 1, (n - 1) as nat)
    }
}

/// Where the cursor lands after rewinding to the start or to the previous
/// breakpoint, whichever comes first.
pub open spec fn rewind_all_pos(tr: Seq<SnapshotModel>, pos: int) -> int {
    rewind_pos(tr, pos, tr.len() as nat)
}

/// Where a command moves the cursor.
pub open spec fn spec_execute_pos(
    tr: Seq<SnapshotModel>,
    pos: int,
    command: DebugCommand,
    param: Option<u64>,
) -> int {
    match command {
        DebugCommand::PlayAll => play_all_pos(tr, pos),
        DebugCommand::Play => play_pos(tr, pos, param->Some_0 as nat),
        DebugCommand::RewindAll => rewind_all_pos(tr, pos),
        DebugCommand::Rewind => rewind_pos(tr, pos, param->Some_0 as nat),
        DebugCommand::PrintState => pos,
    }
}

/// The debug session controller: the materialized trace and the cursor.
///
/// The cursor always points at a snapshot; construction fails on an empty
/// trace, and stepping past either boundary leaves the cursor in place.
pub struct DebugExecutor {
    trace: Vec<VmSnapshot>,
    pos: usize,
}

impl DebugExecutor {
    /// The trace is non-empty and the cursor points inside it.
    pub closed spec fn wf(&self) -> bool {
        self.trace@.len() > 0 && (self.pos as int) < self.trace@.len()
    }

    /// The trace as plain values.
    pub closed spec fn trace_model(&self) -> Seq<SnapshotModel> {
        self.trace@.map_values(|s: VmSnapshot| s.model())
    }

    /// The cursor's position.
    pub closed spec fn position(&self) -> int {
        self.pos as int
    }

    /// Starts a session over a materialized trace, with the cursor at the
    /// first snapshot. An empty trace fails with `EmptySequence`.
    pub fn new(trace: Vec<VmSnapshot>) -> (r: Result<DebugExecutor, ParseError>)
        ensures
            match r {
                Ok(d) => trace@.len() > 0 && d.wf() && d.trace_model() == trace@.map_values(
                    |s: VmSnapshot| s.model(),
                ) && d.position() == 0,
                Err(e) => trace@.len() == 0 && e == ParseError::EmptySequence,
            },
    {
        if trace.len() == 0 {
            return Err(ParseError::EmptySequence);
        }
        Ok(DebugExecutor { trace, pos: 0 })
    }

    /// The current snapshot carries a set breakpoint flag.
    fn at_breakpoint(&self) -> (r: bool)
        requires
            self.wf(),
        ensures
            r == breaks(self.trace_model()[self.position()]),
    {
        match &self.trace[self.pos].asmop {
            Some(a) => a.should_break,
            None => false,
        }
    }

    /// Executes a debug command against the session's current state and
    /// returns the rendering of the snapshot the cursor lands on.
    ///
    /// `Play` and `Rewind` read their cycle count from `param`; the other
    /// commands ignore it.
    pub fn execute(&mut self, command: DebugCommand, param: Option<u64>) -> (r: DebugOutput)
        requires
            old(self).wf(),
            (command is Play || command is Rewind) ==> param is Some,
        ensures
            final(self).wf(),
            final(self).trace_model() == old(self).trace_model(),
            final(self).position() == spec_execute_pos(
                old(self).trace_model(),
                old(self).position(),
                command,
                param,
            ),
            r.model() == project(final(self).trace_model()[final(self).position()]),
    {
        let ghost tr = self.trace_model();
        match command {
            DebugCommand::PlayAll => {
                let steps = self.trace.len();
                self.play_steps(steps);
            },
            DebugCommand::Play => {
                let requested = param.unwrap();
                let tlen = self.trace.len();
                let steps = if requested > usize::MAX as u64 {
                    proof {
                        assert(tr.len() == tlen);
                        lemma_play_pos_saturates(
                            tr,
                            self.pos as int,
                            usize::MAX as nat,
                            requested as nat,
                        );
                    }
                    usize::MAX
                } else {
                    requested as usize
                };
                self.play_steps(steps);
            },
            DebugCommand::RewindAll => {
                let steps = self.trace.len();
                self.rewind_steps(steps);
            },
            DebugCommand::Rewind => {
                let requested = param.unwrap();
                let steps = if requested > usize::MAX as u64 {
                    proof {
                        lemma_rewind_pos_saturates(
                            tr,
                            self.pos as int,
                            usize::MAX as nat,
                            requested as nat,
                        );
                    }
                    usize::MAX
                } else {
                    requested as usize
                };
                self.rewind_steps(steps);
            },
            DebugCommand::PrintState => {},
        }
        project_snapshot(&self.trace[self.pos])
    }

    /// Advances the cursor up to `steps` cycles.
    fn play_steps(&mut self, steps: usize)
        requires
            old(self).wf(),
        ensures
            final(self).wf(),
            final(self).trace_model() == old(self).trace_model(),
            final(self).position() == play_pos(
                old(self).trace_model(),
                old(self).position(),
                steps as nat,
            ),
    {
        let ghost tr = self.trace_model();
        let ghost pos0 = self.pos as int;
        let mut left = steps;
        while left > 0 && self.pos < self.trace.len() - 1
            invariant
                self.wf(),
                self.trace_model() == tr,
                self.trace@.len() == tr.len(),
                play_pos(tr, pos0, steps as nat) == play_pos(tr, self.pos as int, left as nat),
            decreases left,
        {
            self.pos = self.pos + 1;
            proof {
                assert(self.trace_model()[self.pos as int] == self.trace@[self.pos as int].model());
            }
            if self.at_breakpoint() {
                left = 0;
            } else {
                left = left - 1;
            }
        }
    }

    /// Moves the cursor back up to `steps` cycles.
    fn rewind_steps(&mut self, steps: usize)
        requires
            old(self).wf(),
        ensures
            final(self).wf(),
            final(self).trace_model() == old(self).trace_model(),
            final(self).position() == rewind_pos(
                old(self).trace_model(),
                old(self).position(),
                steps as nat,
            ),
    {
        let ghost tr = self.trace_model();
        let ghost pos0 = self.pos as int;
        let mut left = steps;
        while left > 0 && self.pos > 0
            invariant
                self.wf(),
                self.trace_model() == tr,
                self.trace@.len() == tr.len(),
                rewind_pos(tr, pos0, steps as nat) == rewind_pos(tr, self.pos as int, left as nat),
            decreases left,
        {
            self.pos = self.pos - 1;
            proof {
                assert(self.trace_model()[self.pos as int] == self.trace@[self.pos as int].model());
            }
            if self.at_breakpoint() {
                left = 0;
            } else {
                left = left - 1;
            }
        }
    }
}

// ---------------------------------------------------------------------------
// Stepping laws
// ---------------------------------------------------------------------------

/// Step counts beyond what the trace can use are interchangeable: any two
/// counts at least the trace length land the cursor in the same place.
pub proof fn lemma_play_pos_saturates(tr: Seq<SnapshotModel>, pos: int, n1: nat, n2: nat)
    requires
        0 <= pos < tr.len(),
        n1 >= tr.len() - 1 - pos,
        n2 >= tr.len() - 1 - pos,
    ensures
        play_pos(tr, pos, n1) == play_pos(tr, pos, n2),
    decreases tr.len() - pos,
{
    if pos + 1 < tr.len() && !breaks(tr[pos + 1]) {
        lemma_play_pos_saturates(tr, pos + 1, (n1 - 1) as nat, (n2 - 1) as nat);
    }
}

/// Backward step counts beyond the cursor's position are interchangeable.
pub proof fn lemma_rewind_pos_saturates(tr: Seq<SnapshotModel>, pos: int, n1: nat, n2: nat)
    requires
        0 <= pos < tr.len(),
        n1 >= pos,
        n2 >= pos,
    ensures
        rewind_pos(tr, pos, n1) == rewind_pos(tr, pos, n2),
    decreases pos,
{
    if pos > 0 && !breaks(tr[pos - 1]) {
        lemma_rewind_pos_saturates(tr, pos - 1, (n1 - 1) as nat, (n2 - 1) as nat);
    }
}

/// Stepping never leaves the trace.
proof fn lemma_play_pos_in_bounds(tr: Seq<SnapshotModel>, pos: int, n: nat)
    requires
        0 <= pos < tr.len(),
    ensures
        0 <= play_pos(tr, pos, n) < tr.len(),
    decreases n,
{
    if !(n == 0 || pos + 1 >= tr.len()) && !breaks(tr[pos + 1]) {
        lemma_play_pos_in_bounds(tr, pos + 1, (n - 1) as nat);
    }
}

/// One forward step, repeated.
pub open spec fn play_single_steps(tr: Seq<SnapshotModel>, pos: int, k: nat) -> int
    decreases k,
{
    if k == 0 {
        pos
    } else {
        play_single_steps(tr, play_pos(tr, pos, 1), (k - 1) as nat)
    }
}

/// Stepping equivalence: on a trace without breakpoint marks, `Play(1)`
/// repeated `k` times lands exactly where a single `Play(k)` lands.
pub proof fn lemma_single_steps_equal_play(tr: Seq<SnapshotModel>, pos: int, k: nat)
    requires
        0 <= pos < tr.len(),
        forall|i: int| 0 <= i < tr.len() ==> !breaks(#[trigger] tr[i]),
    ensures
        play_single_steps(tr, pos, k) == play_pos(tr, pos, k),
    decreases k,
{
    if k > 0 {
        let p1 = play_pos(tr, pos, 1);
        lemma_play_pos_in_bounds(tr, pos, 1);
        lemma_single_steps_equal_play(tr, p1, (k - 1) as nat);
        lemma_play_compose(tr, pos, 1, (k - 1) as nat);
    }
}

/// Stepping equivalence: on a trace without breakpoint marks, playing
/// `a + b` cycles lands where playing `a` and then `b` cycles lands. In
/// particular `Play(1)` repeated `k` times equals one `Play(k)`. A trace
/// with a breakpoint flag between the two positions is the exception:
/// there a single large `Play` halts at the breakpoint while repeated
/// single steps walk past it.
pub proof fn lemma_play_compose(tr: Seq<SnapshotModel>, pos: int, a: nat, b: nat)
    requires
        0 <= pos < tr.len(),
        forall|i: int| 0 <= i < tr.len() ==> !breaks(#[trigger] tr[i]),
    ensures
        play_pos(tr, pos, a + b) == play_pos(tr, play_pos(tr, pos, a), b),
    decreases a,
{
    if a == 0 {
    } else if pos + 1 >= tr.len() {
    } else {
        lemma_play_compose(tr, pos + 1, (a - 1) as nat, b);
    }
}

/// Stepping equivalence at the boundary: a `Play` of at least the
/// remaining trace length lands exactly where `PlayAll` lands.
pub proof fn lemma_play_k_is_play_all(tr: Seq<SnapshotModel>, pos: int, k: nat)
    requires
        0 <= pos < tr.len(),
        k >= tr.len() - 1 - pos,
    ensures
        play_pos(tr, pos, k) == play_all_pos(tr, pos),
{
    lemma_play_pos_saturates(tr, pos, k, tr.len() as nat);
}

/// Boundary idempotence: once the cursor stands on the terminal snapshot,
/// any further `Play` or `PlayAll` leaves it there, so the rendered output
/// is identical; the mirror holds for `Rewind` at the first snapshot.
pub proof fn lemma_boundary_idempotent(tr: Seq<SnapshotModel>, pos: int, n: nat)
    requires
        0 <= pos < tr.len(),
    ensures
        pos == tr.len() - 1 ==> play_pos(tr, pos, n) == pos && play_all_pos(tr, pos) == pos,
        pos == 0 ==> rewind_pos(tr, pos, n) == pos && rewind_all_pos(tr, pos) == pos,
{
}

/// Breakpoint halt: `PlayAll` from `pos` stops exactly at the first later
/// snapshot whose breakpoint flag is set, not at the end of the trace.
pub proof fn lemma_play_all_halts_at_breakpoint(tr: Seq<SnapshotModel>, pos: int, b: int)
    requires
        0 <= pos < b < tr.len(),
        breaks(tr[b]),
        forall|i: int| pos < i < b ==> !breaks(#[trigger] tr[i]),
    ensures
        play_all_pos(tr, pos) == b,
{
    lemma_play_stops_at_breakpoint(tr, pos, b, tr.len() as nat);
}

proof fn lemma_play_stops_at_breakpoint(tr: Seq<SnapshotModel>, pos: int, b: int, n: nat)
    requires
        0 <= pos < b < tr.len(),
        breaks(tr[b]),
        forall|i: int| pos < i < b ==> !breaks(#[trigger] tr[i]),
        n >= b - pos,
    ensures
        play_pos(tr, pos, n) == b,
    decreases b - pos,
{
    if pos + 1 == b {
    } else {
        lemma_play_stops_at_breakpoint(tr, pos + 1, b, (n - 1) as nat);
    }
}

/// Completion: `PlayAll` with no breakpoint ahead reaches the terminal
/// snapshot.
pub proof fn lemma_play_all_completes(tr: Seq<SnapshotModel>, pos: int)
    requires
        0 <= pos < tr.len(),
        forall|i: int| pos < i < tr.len() ==> !breaks(#[trigger] tr[i]),
    ensures
        play_all_pos(tr, pos) == tr.len() - 1,
{
    lemma_play_runs_out(tr, pos, tr.len() as nat);
}

proof fn lemma_play_runs_out(tr: Seq<SnapshotModel>, pos: int, n: nat)
    requires
        0 <= pos < tr.len(),
        forall|i: int| pos < i < tr.len() ==> !breaks(#[trigger] tr[i]),
        n >= tr.len() - 1 - pos,
    ensures
        play_pos(tr, pos, n) == tr.len() - 1,
    decreases tr.len() - pos,
{
    if pos + 1 < tr.len() {
        lemma_play_runs_out(tr, pos + 1, (n - 1) as nat);
    }
}

} // verus!
