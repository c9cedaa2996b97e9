//! Liveness of registers: the range of instruction indices over which each
//! register holds a value that is still to be read. From each instruction
//! that reads a register the analysis walks backwards through its block
//! and the blocks that lead to it, up to an instruction that writes the
//! register without reading it.
use vstd::prelude::*;
use crate::analysis::{VirtualRegister, virtual_register_of};
use crate::analysis::basic_block::{BasicBlock, index_range, blocks_partition};
use crate::analysis::control_flow_graph::{ControlFlowGraph, edges_within};
use crate::mir::{InstructionMIR, InstructionMIRView, InstructionMIRDataView, RegisterMIRView, mir_view, assign_register_spec, registers_view, virtual_uses};
use crate::mir::compiler::MIRCompilationResult;
use crate::model::typesystem::is_reference_type;
use crate::mir::RegisterMIR;

verus! {

/// The instructions `start..=end` over which `register` is alive.
#[derive(Clone, Copy, Debug, PartialEq, Eq, Structural, Hash)]
pub struct LiveInterval {
    pub start: usize,
    pub end: usize,
    pub register: VirtualRegister,
}

/// Whether the instruction reads register `v`.
pub open spec fn reads(d: InstructionMIRDataView, v: VirtualRegister) -> bool {
    virtual_uses(d).contains(v)
}

/// Whether the instruction writes register `v`.
pub open spec fn writes(d: InstructionMIRDataView, v: VirtualRegister) -> bool {
    match assign_register_spec(d) {
        Some(r) => virtual_register_of(r) == v,
        None => false,
    }
}

/// Whether register `v` is read or written by one of the instructions.
pub open spec fn appears(s: Seq<InstructionMIRView>, v: VirtualRegister) -> bool {
    exists|p: int| 0 <= p < s.len() && (reads(#[trigger] s[p].data, v) || writes(s[p].data, v))
}

/// The position of the first marked index among the first `n`.
pub open spec fn first_marked(marks: Seq<bool>, n: int) -> Option<int>
    decreases n,
{
    if n <= 0 {
        None
    } else {
        match first_marked(marks, n - 1) {
            Some(p) => Some(p),
            None => if marks[n - 1] {
                Some(n - 1)
            } else {
                None
            },
        }
    }
}

/// The position of the last marked index among the first `n`.
pub open spec fn last_marked(marks: Seq<bool>, n: int) -> Option<int>
    decreases n,
{
    if n <= 0 {
        None
    } else if marks[n - 1] {
        Some(n - 1)
    } else {
        last_marked(marks, n - 1)
    }
}

proof fn lemma_marked_bounds(marks: Seq<bool>, n: int)
    requires
        0 <= n <= marks.len(),
    ensures
        match first_marked(marks, n) {
            Some(p) => 0 <= p < n && marks[p] && forall|q: int| 0 <= q < p ==> !#[trigger] marks[q],
            None => forall|q: int| 0 <= q < n ==> !#[trigger] marks[q],
        },
        match last_marked(marks, n) {
            Some(p) => 0 <= p < n && marks[p] && forall|q: int| p < q < n ==> !#[trigger] marks[q],
            None => forall|q: int| 0 <= q < n ==> !#[trigger] marks[q],
        },
    decreases n,
{
    if n > 0 {
        lemma_marked_bounds(marks, n - 1);
    }
}

/// The interval from the first to the last instruction at which the
/// register is alive; `usize::MAX..=0` when it is alive nowhere.
pub fn get_live_interval(register: &VirtualRegister, alive_at: &Vec<bool>) -> (r: LiveInterval)
    ensures
        r.register == *register,
        r.start == match first_marked(alive_at@, alive_at@.len() as int) {
            Some(p) => p as usize,
            None => usize::MAX,
        },
        r.end == match last_marked(alive_at@, alive_at@.len() as int) {
            Some(p) => p as usize,
            None => 0usize,
        },
{
    let mut start: usize = usize::MAX;
    let mut end: usize = 0;
    let mut instruction_index: usize = 0;
    while instruction_index < alive_at.len()
        invariant
            instruction_index <= alive_at@.len(),
            start == match first_marked(alive_at@, instruction_index as int) {
                Some(p) => p as usize,
                None => usize::MAX,
            },
            end == match last_marked(alive_at@, instruction_index as int) {
                Some(p) => p as usize,
                None => 0usize,
            },
        decreases alive_at@.len() - instruction_index,
    {
        proof {
            lemma_marked_bounds(alive_at@, instruction_index as int);
        }
        if alive_at[instruction_index] {
            if instruction_index < start {
                start = instruction_index;
            }
            if instruction_index > end {
                end = instruction_index;
            }
        }
        instruction_index = instruction_index + 1;
    }
    LiveInterval { start, end, register: *register }
}

/// The number of unvisited blocks.
pub open spec fn unvisited(visited: Seq<bool>, n: int) -> nat
    decreases n,
{
    if n <= 0 {
        0
    } else {
        unvisited(visited, n - 1) + if visited[n - 1] {
            0nat
        } else {
            1nat
        }
    }
}

proof fn lemma_unvisited_mark(visited: Seq<bool>, b: int, n: int)
    requires
        0 <= b < n <= visited.len(),
        !visited[b],
    ensures
        unvisited(visited.update(b, true), n) + 1 == unvisited(visited, n),
    decreases n,
{
    if n - 1 > b {
        lemma_unvisited_mark(visited, b, n - 1);
    } else {
        lemma_unvisited_same(visited, visited.update(b, true), n - 1);
    }
}

proof fn lemma_unvisited_same(a: Seq<bool>, b: Seq<bool>, n: int)
    requires
        0 <= n <= a.len(),
        n <= b.len(),
        forall|q: int| 0 <= q < n ==> a[q] == b[q],
    ensures
        unvisited(a, n) == unvisited(b, n),
    decreases n,
{
    if n > 0 {
        lemma_unvisited_same(a, b, n - 1);
    }
}

proof fn lemma_unvisited_monotone(a: Seq<bool>, b: Seq<bool>, n: int)
    requires
        0 <= n <= a.len(),
        n <= b.len(),
        forall|q: int| 0 <= q < n ==> a[q] ==> b[q],
    ensures
        unvisited(b, n) <= unvisited(a, n),
    decreases n,
{
    if n > 0 {
        lemma_unvisited_monotone(a, b, n - 1);
    }
}

fn instruction_reads(instructions: &Vec<InstructionMIR>, index: usize, register: &VirtualRegister) -> (r: bool)
    requires
        index < instructions@.len(),
    ensures
        r == reads(instructions@[index as int]@.data, *register),
{
    let uses = instructions[index].data.use_virtual_registers();
    let mut q: usize = 0;
    while q < uses.len()
        invariant
            q <= uses@.len(),
            uses@ == virtual_uses(instructions@[index as int]@.data),
            forall|k: int| 0 <= k < q ==> uses@[k] != *register,
        decreases uses@.len() - q,
    {
        if uses[q] == *register {
            assert(uses@[q as int] == *register);
            assert(uses@.contains(*register));
            return true;
        }
        q = q + 1;
    }
    false
}

fn instruction_writes(instructions: &Vec<InstructionMIR>, index: usize, register: &VirtualRegister) -> (r: bool)
    requires
        index < instructions@.len(),
    ensures
        r == writes(instructions@[index as int]@.data, *register),
{
    match instructions[index].data.assign_virtual_register() {
        Some(assigned) => assigned == *register,
        None => false,
    }
}

/// The facts that the backward walk relies on.
pub open spec fn walk_ready(
    instructions: Seq<InstructionMIR>,
    blocks: Seq<BasicBlock>,
    g: ControlFlowGraph,
    visited: Seq<bool>,
    alive_at: Seq<bool>,
) -> bool {
    &&& blocks_partition(blocks, instructions.len() as int)
    &&& edges_within(g, blocks.len() as int)
    &&& visited.len() == blocks.len()
    &&& alive_at.len() == instructions.len()
}

/// The number of blocks not yet visited.
pub open spec fn unvisited_all(visited: Seq<bool>) -> nat {
    unvisited(visited, visited.len() as int)
}

/// Marks the instructions of a block from offset `o` down, stopping after
/// the first that writes `v` without reading it; `true` when one did.
pub open spec fn scan_back(alive: Seq<bool>, s: Seq<InstructionMIRView>, block: BasicBlock, v: VirtualRegister, o: int) -> (
    Seq<bool>,
    bool,
)
    decreases o + 1,
{
    if o < 0 {
        (alive, false)
    } else {
        let marked = alive.update(block.start_offset + o, true);
        let d = s[block.instructions@[o] as int].data;
        if writes(d, v) && !reads(d, v) {
            (marked, true)
        } else {
            scan_back(marked, s, block, v, o - 1)
        }
    }
}

/// The walk backwards from offset `o` of block `b` with `fuel` blocks left
/// to enter: nothing when the block was visited; else the block is marked
/// visited and scanned back, and, unless a write stopped the scan, the walk
/// goes on from the end of each block that leads here, in turn. The
/// visited blocks and the marks after the walk.
pub open spec fn walk(
    fuel: nat,
    s: Seq<InstructionMIRView>,
    blocks: Seq<BasicBlock>,
    g: ControlFlowGraph,
    v: VirtualRegister,
    visited: Seq<bool>,
    alive: Seq<bool>,
    b: int,
    o: int,
) -> (Seq<bool>, Seq<bool>)
    decreases fuel, 0nat, 0int,
{
    if visited[b] || fuel == 0 {
        (visited, alive)
    } else {
        let scanned = scan_back(alive, s, blocks[b], v, o);
        if scanned.1 {
            (visited.update(b, true), scanned.0)
        } else {
            walk_preds((fuel - 1) as nat, s, blocks, g, v, visited.update(b, true), scanned.0, b, g.back_edges@[b]@.len() as int)
        }
    }
}

/// The walks from the ends of the first `q` blocks that lead to block `b`, in turn.
pub open spec fn walk_preds(
    fuel: nat,
    s: Seq<InstructionMIRView>,
    blocks: Seq<BasicBlock>,
    g: ControlFlowGraph,
    v: VirtualRegister,
    visited: Seq<bool>,
    alive: Seq<bool>,
    b: int,
    q: int,
) -> (Seq<bool>, Seq<bool>)
    decreases fuel, 1nat, q,
{
    if q <= 0 {
        (visited, alive)
    } else {
        let prior = walk_preds(fuel, s, blocks, g, v, visited, alive, b, q - 1);
        let to = g.back_edges@[b]@[q - 1].to as int;
        walk(fuel, s, blocks, g, v, prior.0, prior.1, to, blocks[to].instructions@.len() - 1)
    }
}

proof fn lemma_walk_grows(
    fuel: nat,
    s: Seq<InstructionMIRView>,
    blocks: Seq<BasicBlock>,
    g: ControlFlowGraph,
    v: VirtualRegister,
    visited: Seq<bool>,
    alive: Seq<bool>,
    b: int,
    o: int,
)
    requires
        0 <= b < visited.len(),
        visited.len() == blocks.len(),
        edges_within(g, blocks.len() as int),
    ensures
        walk(fuel, s, blocks, g, v, visited, alive, b, o).0.len() == visited.len(),
        forall|k: int| 0 <= k < visited.len() && #[trigger] visited[k] ==> walk(fuel, s, blocks, g, v, visited, alive, b, o).0[k],
        unvisited_all(walk(fuel, s, blocks, g, v, visited, alive, b, o).0) <= unvisited_all(visited),
        !visited[b] && fuel > 0 ==> unvisited_all(walk(fuel, s, blocks, g, v, visited, alive, b, o).0) < unvisited_all(visited),
    decreases fuel, 0nat, 0int,
{
    if !(visited[b] || fuel == 0) {
        let v1 = visited.update(b, true);
        lemma_unvisited_mark(visited, b, visited.len() as int);
        let scanned = scan_back(alive, s, blocks[b], v, o);
        if !scanned.1 {
            lemma_walk_preds_grows((fuel - 1) as nat, s, blocks, g, v, v1, scanned.0, b, g.back_edges@[b]@.len() as int);
            let r = walk_preds((fuel - 1) as nat, s, blocks, g, v, v1, scanned.0, b, g.back_edges@[b]@.len() as int);
            assert forall|k: int| 0 <= k < visited.len() && #[trigger] visited[k] implies r.0[k] by {
                assert(v1[k]);
            }
        }
    }
}

proof fn lemma_walk_preds_grows(
    fuel: nat,
    s: Seq<InstructionMIRView>,
    blocks: Seq<BasicBlock>,
    g: ControlFlowGraph,
    v: VirtualRegister,
    visited: Seq<bool>,
    alive: Seq<bool>,
    b: int,
    q: int,
)
    requires
        0 <= b < visited.len(),
        q <= g.back_edges@[b]@.len(),
        visited.len() == blocks.len(),
        edges_within(g, blocks.len() as int),
    ensures
        walk_preds(fuel, s, blocks, g, v, visited, alive, b, q).0.len() == visited.len(),
        forall|k: int| 0 <= k < visited.len() && #[trigger] visited[k] ==> walk_preds(fuel, s, blocks, g, v, visited, alive, b, q).0[k],
        unvisited_all(walk_preds(fuel, s, blocks, g, v, visited, alive, b, q).0) <= unvisited_all(visited),
    decreases fuel, 1nat, q,
{
    if q > 0 {
        lemma_walk_preds_grows(fuel, s, blocks, g, v, visited, alive, b, q - 1);
        let prior = walk_preds(fuel, s, blocks, g, v, visited, alive, b, q - 1);
        let to = g.back_edges@[b]@[q - 1].to as int;
        assert(0 <= to < blocks.len());
        lemma_walk_grows(fuel, s, blocks, g, v, prior.0, prior.1, to, blocks[to].instructions@.len() - 1);
        let r = walk(fuel, s, blocks, g, v, prior.0, prior.1, to, blocks[to].instructions@.len() - 1);
        assert forall|k: int| 0 <= k < visited.len() && #[trigger] visited[k] implies r.0[k] by {
            assert(prior.0[k]);
        }
    }
}

/// Fuel beyond the number of unvisited blocks changes nothing.
proof fn lemma_walk_fuel(
    fuel: nat,
    s: Seq<InstructionMIRView>,
    blocks: Seq<BasicBlock>,
    g: ControlFlowGraph,
    v: VirtualRegister,
    visited: Seq<bool>,
    alive: Seq<bool>,
    b: int,
    o: int,
)
    requires
        0 <= b < visited.len(),
        visited.len() == blocks.len(),
        edges_within(g, blocks.len() as int),
        fuel >= unvisited_all(visited),
    ensures
        walk(fuel, s, blocks, g, v, visited, alive, b, o) == walk(unvisited_all(visited), s, blocks, g, v, visited, alive, b, o),
    decreases fuel, 0nat, 0int,
{
    if !visited[b] {
        let v1 = visited.update(b, true);
        lemma_unvisited_mark(visited, b, visited.len() as int);
        let scanned = scan_back(alive, s, blocks[b], v, o);
        if !scanned.1 {
            lemma_walk_preds_fuel((fuel - 1) as nat, s, blocks, g, v, v1, scanned.0, b, g.back_edges@[b]@.len() as int);
        }
    }
}

proof fn lemma_walk_preds_fuel(
    fuel: nat,
    s: Seq<InstructionMIRView>,
    blocks: Seq<BasicBlock>,
    g: ControlFlowGraph,
    v: VirtualRegister,
    visited: Seq<bool>,
    alive: Seq<bool>,
    b: int,
    q: int,
)
    requires
        0 <= b < visited.len(),
        q <= g.back_edges@[b]@.len(),
        visited.len() == blocks.len(),
        edges_within(g, blocks.len() as int),
        fuel >= unvisited_all(visited),
    ensures
        walk_preds(fuel, s, blocks, g, v, visited, alive, b, q) == walk_preds(unvisited_all(visited), s, blocks, g, v, visited, alive, b, q),
    decreases fuel, 1nat, q,
{
    if q > 0 {
        lemma_walk_preds_fuel(fuel, s, blocks, g, v, visited, alive, b, q - 1);
        lemma_walk_preds_grows(fuel, s, blocks, g, v, visited, alive, b, q - 1);
        let prior = walk_preds(fuel, s, blocks, g, v, visited, alive, b, q - 1);
        let to = g.back_edges@[b]@[q - 1].to as int;
        assert(0 <= to < blocks.len());
        lemma_walk_fuel(fuel, s, blocks, g, v, prior.0, prior.1, to, blocks[to].instructions@.len() - 1);
        lemma_walk_fuel(unvisited_all(visited), s, blocks, g, v, prior.0, prior.1, to, blocks[to].instructions@.len() - 1);
    }
}

/// Walks backwards from offset `start_offset` of block `block_index`,
/// marking where `register` is alive, unless the block was visited; when
/// no instruction of the block writes the register without reading it,
/// the walk goes on from the end of each block that leads here.
fn compute_liveness_for_register_in_block(
    instructions: &Vec<InstructionMIR>,
    basic_blocks: &Vec<BasicBlock>,
    control_flow_graph: &ControlFlowGraph,
    block_index: usize,
    start_offset: usize,
    visited: &mut Vec<bool>,
    register: &VirtualRegister,
    alive_at: &mut Vec<bool>,
)
    requires
        walk_ready(instructions@, basic_blocks@, *control_flow_graph, old(visited)@, old(alive_at)@),
        block_index < basic_blocks@.len(),
        start_offset < basic_blocks@[block_index as int].instructions@.len(),
    ensures
        walk_ready(instructions@, basic_blocks@, *control_flow_graph, final(visited)@, final(alive_at)@),
        forall|q: int| 0 <= q < final(visited)@.len() ==> old(visited)@[q] ==> #[trigger] final(visited)@[q],
        forall|q: int| 0 <= q < final(alive_at)@.len() ==> old(alive_at)@[q] ==> #[trigger] final(alive_at)@[q],
        unvisited(final(visited)@, final(visited)@.len() as int) <= unvisited(old(visited)@, old(visited)@.len() as int),
        !old(visited)@[block_index as int] ==> final(alive_at)@[basic_blocks@[block_index as int].start_offset + start_offset],
        (final(visited)@, final(alive_at)@) == walk(
            unvisited_all(old(visited)@),
            mir_view(instructions@),
            basic_blocks@,
            *control_flow_graph,
            *register,
            old(visited)@,
            old(alive_at)@,
            block_index as int,
            start_offset as int,
        ),
    decreases unvisited(old(visited)@, old(visited)@.len() as int),
{
    if visited[block_index] {
        return;
    }
    let ghost entry_visited = visited@;
    let ghost entry_alive = alive_at@;
    visited.set(block_index, true);
    proof {
        lemma_unvisited_mark(entry_visited, block_index as int, entry_visited.len() as int);
    }
    let block = &basic_blocks[block_index];
    assert(basic_blocks@[block_index as int].instructions@.len() > 0);
    let block_start = block.start_offset;
    let block_length = block.instructions.len();
    let num_instructions = instructions.len();
    proof {
        assert(block.instructions@ == index_range(block_start as int, block_start + block.instructions@.len()));
        lemma_block_within(basic_blocks@, instructions@.len() as int, block_index as int);
    }
    let ghost s = mir_view(instructions@);
    let ghost scanned = scan_back(entry_alive, s, *block, *register, start_offset as int);
    let mut terminated = false;
    let mut i: usize = start_offset + 1;
    while i > 0 && !terminated
        invariant
            s == mir_view(instructions@),
            scanned == scan_back(entry_alive, s, *block, *register, start_offset as int),
            terminated ==> scanned == (alive_at@, true),
            !terminated ==> scanned == scan_back(alive_at@, s, *block, *register, i - 1),
            i <= start_offset + 1,
            block_length == block.instructions@.len(),
            num_instructions == instructions@.len(),
            visited@ == entry_visited.update(block_index as int, true),
            walk_ready(instructions@, basic_blocks@, *control_flow_graph, entry_visited, entry_alive),
            block_index < basic_blocks@.len(),
            *block == basic_blocks@[block_index as int],
            block_start == block.start_offset,
            terminated ==> i <= start_offset,
            start_offset < block.instructions@.len(),
            block.instructions@ == index_range(block_start as int, block_start + block.instructions@.len()),
            block_start + block.instructions@.len() <= instructions@.len(),
            alive_at@.len() == instructions@.len(),
            forall|q: int| 0 <= q < alive_at@.len() ==> entry_alive[q] ==> #[trigger] alive_at@[q],
            i <= start_offset ==> alive_at@[block_start + start_offset],
        decreases i,
    {
        i = i - 1;
        let instruction_index = block.instructions[i];
        assert(instruction_index == block_start + i);
        assert(s[instruction_index as int] == instructions@[instruction_index as int]@);
        if instruction_writes(instructions, instruction_index, register) && !instruction_reads(
            instructions,
            instruction_index,
            register,
        ) {
            alive_at.set(block_start + i, true);
            terminated = true;
        } else {
            alive_at.set(block_start + i, true);
        }
    }
    let ghost v1 = entry_visited.update(block_index as int, true);
    let ghost a1 = alive_at@;
    assert(scanned == (a1, terminated));
    if !terminated {
        let edges = &control_flow_graph.back_edges[block_index];
        let mut q: usize = 0;
        while q < edges.len()
            invariant
                (visited@, alive_at@) == walk_preds(
                    unvisited_all(v1),
                    s,
                    basic_blocks@,
                    *control_flow_graph,
                    *register,
                    v1,
                    a1,
                    block_index as int,
                    q as int,
                ),
                s == mir_view(instructions@),
                v1.len() == basic_blocks@.len(),
                q <= edges@.len(),
                edges@ == control_flow_graph.back_edges@[block_index as int]@,
                block_index < basic_blocks@.len(),
                walk_ready(instructions@, basic_blocks@, *control_flow_graph, visited@, alive_at@),
                visited@[block_index as int],
                forall|k: int| 0 <= k < visited@.len() ==> entry_visited[k] ==> #[trigger] visited@[k],
                forall|k: int| 0 <= k < alive_at@.len() ==> entry_alive[k] ==> #[trigger] alive_at@[k],
                unvisited(visited@, visited@.len() as int) < unvisited(entry_visited, entry_visited.len() as int),
                entry_visited == old(visited)@,
                block_start + start_offset < alive_at@.len(),
                alive_at@[block_start + start_offset],
            decreases edges@.len() - q,
        {
            let to = edges[q].to;
            assert(control_flow_graph.back_edges@[block_index as int]@[q as int].to < basic_blocks@.len());
            assert(basic_blocks@[to as int].instructions@.len() > 0);
            let ghost before_visited = visited@;
            let ghost before_alive = alive_at@;
            proof {
                lemma_walk_preds_grows(unvisited_all(v1), s, basic_blocks@, *control_flow_graph, *register, v1, a1, block_index as int, q as int);
                lemma_walk_fuel(
                    unvisited_all(v1),
                    s,
                    basic_blocks@,
                    *control_flow_graph,
                    *register,
                    before_visited,
                    before_alive,
                    to as int,
                    basic_blocks@[to as int].instructions@.len() - 1,
                );
            }
            compute_liveness_for_register_in_block(
                instructions,
                basic_blocks,
                control_flow_graph,
                to,
                basic_blocks[to].instructions.len() - 1,
                visited,
                register,
                alive_at,
            );
            proof {
                assert forall|k: int| 0 <= k < visited@.len() implies entry_visited[k] ==> #[trigger] visited@[k] by {
                    if entry_visited[k] {
                        assert(before_visited[k]);
                    }
                }
                assert forall|k: int| 0 <= k < alive_at@.len() implies entry_alive[k] ==> #[trigger] alive_at@[k] by {
                    if entry_alive[k] {
                        assert(before_alive[k]);
                    }
                }
                assert(before_alive[block_start + start_offset]);
            }
            q = q + 1;
        }
    }
    proof {
        lemma_unvisited_monotone(entry_visited.update(block_index as int, true), visited@, visited@.len() as int);
        assert forall|k: int| 0 <= k < visited@.len() implies entry_visited[k] ==> #[trigger] visited@[k] by {
            if entry_visited[k] && k != block_index as int {
                assert(entry_visited.update(block_index as int, true)[k]);
            }
        }
    }
}

proof fn lemma_block_within(blocks: Seq<BasicBlock>, n: int, b: int)
    requires
        blocks_partition(blocks, n),
        0 <= b < blocks.len(),
    ensures
        blocks[b].start_offset + blocks[b].instructions@.len() <= n,
    decreases blocks.len() - b,
{
    if b < blocks.len() - 1 {
        lemma_block_within(blocks, n, b + 1);
        assert(blocks[b + 1].start_offset == blocks[b].start_offset + blocks[b].instructions@.len());
    }
}

/// Every instruction index lies in a block.
proof fn lemma_index_in_block(blocks: Seq<BasicBlock>, n: int, p: int) -> (r: (int, int))
    requires
        blocks_partition(blocks, n),
        0 <= p < n,
    ensures
        0 <= r.0 < blocks.len(),
        0 <= r.1 < blocks[r.0].instructions@.len(),
        blocks[r.0].start_offset + r.1 == p,
{
    lemma_index_in_blocks_from(blocks, n, p, 0)
}

proof fn lemma_index_in_blocks_from(blocks: Seq<BasicBlock>, n: int, p: int, b: int) -> (r: (int, int))
    requires
        blocks_partition(blocks, n),
        0 <= b < blocks.len(),
        blocks[b].start_offset <= p < n,
    ensures
        b <= r.0 < blocks.len(),
        0 <= r.1 < blocks[r.0].instructions@.len(),
        blocks[r.0].start_offset + r.1 == p,
    decreases blocks.len() - b,
{
    if p < blocks[b].start_offset + blocks[b].instructions@.len() {
        (b, p - blocks[b].start_offset)
    } else {
        if b == blocks.len() - 1 {
            assert(false);
        }
        assert(blocks[b + 1].start_offset == blocks[b].start_offset + blocks[b].instructions@.len());
        lemma_index_in_blocks_from(blocks, n, p, b + 1)
    }
}


fn contains_virtual_register(registers: &Vec<VirtualRegister>, register: &VirtualRegister) -> (r: bool)
    ensures
        r == registers@.contains(*register),
{
    let mut i: usize = 0;
    while i < registers.len()
        invariant
            i <= registers@.len(),
            forall|k: int| 0 <= k < i ==> registers@[k] != *register,
        decreases registers@.len() - i,
    {
        if registers[i] == *register {
            assert(registers@[i as int] == *register);
            return true;
        }
        i = i + 1;
    }
    false
}

pub open spec fn no_duplicates(s: Seq<VirtualRegister>) -> bool {
    forall|a: int, b: int| 0 <= a < b < s.len() ==> #[trigger] s[a] != #[trigger] s[b]
}

pub open spec fn sorted_by_number(s: Seq<VirtualRegister>) -> bool {
    forall|a: int, b: int| 0 <= a < b < s.len() ==> #[trigger] s[a].number <= #[trigger] s[b].number
}

/// Sorts registers by number, keeping the order of registers with equal numbers.
fn sort_by_number(registers: Vec<VirtualRegister>) -> (r: Vec<VirtualRegister>)
    requires
        no_duplicates(registers@),
    ensures
        no_duplicates(r@),
        sorted_by_number(r@),
        forall|v: VirtualRegister| #[trigger] r@.contains(v) <==> registers@.contains(v),
{
    let mut sorted: Vec<VirtualRegister> = Vec::new();
    let mut k: usize = 0;
    while k < registers.len()
        invariant
            k <= registers@.len(),
            no_duplicates(registers@),
            no_duplicates(sorted@),
            sorted_by_number(sorted@),
            forall|v: VirtualRegister| #[trigger] sorted@.contains(v) <==> registers@.take(k as int).contains(v),
        decreases registers@.len() - k,
    {
        let x = registers[k];
        let mut p: usize = 0;
        while p < sorted.len() && sorted[p].number <= x.number
            invariant
                p <= sorted@.len(),
                forall|q: int| 0 <= q < p ==> (#[trigger] sorted@[q]).number <= x.number,
            decreases sorted@.len() - p,
        {
            p = p + 1;
        }
        let ghost before = sorted@;
        proof {
            assert(!before.contains(x)) by {
                if before.contains(x) {
                    assert(registers@.take(k as int).contains(x));
                    let q = choose|q: int| 0 <= q < k && #[trigger] registers@.take(k as int)[q] == x;
                    assert(registers@[q] != registers@[k as int]);
                }
            }
        }
        sorted.insert(p, x);
        proof {
            let r = sorted@;
            assert forall|q: int| 0 <= q < r.len() implies #[trigger] r[q] == (if q < p {
                before[q]
            } else if q == p {
                x
            } else {
                before[q - 1]
            }) by {}
            assert forall|a: int, b: int| 0 <= a < b < r.len() implies #[trigger] r[a].number <= #[trigger] r[b].number by {
                if a < p && b > p {
                    assert(before[a].number <= x.number);
                } else if a == p && b > p {
                    if b - 1 > p {
                        assert(before[p as int].number <= before[b - 1].number);
                    }
                } else if a > p {
                    assert(before[a - 1].number <= before[b - 1].number);
                } else if a < p && b < p {
                    assert(before[a].number <= before[b].number);
                }
            }
            assert forall|a: int, b: int| 0 <= a < b < r.len() implies #[trigger] r[a] != #[trigger] r[b] by {
                if a != p && b != p {
                    let aa = if a < p { a } else { a - 1 };
                    let bb = if b < p { b } else { b - 1 };
                    assert(before[aa] != before[bb]);
                } else if a == p {
                    let bb = b - 1;
                    assert(before.contains(before[bb]));
                } else {
                    assert(before.contains(before[a]));
                }
            }
            assert(registers@.take(k + 1) =~= registers@.take(k as int).push(x));
            assert forall|v: VirtualRegister| #[trigger] r.contains(v) <==> registers@.take(k + 1).contains(v) by {
                if r.contains(v) {
                    let q = choose|q: int| 0 <= q < r.len() && r[q] == v;
                    if q < p {
                        assert(before.contains(v));
                    } else if q > p {
                        assert(before[q - 1] == v);
                        assert(before.contains(v));
                    }
                    if v != x {
                        assert(registers@.take(k as int).contains(v));
                        let w = choose|w: int| 0 <= w < k && #[trigger] registers@.take(k as int)[w] == v;
                        assert(registers@.take(k + 1)[w] == v);
                    } else {
                        assert(registers@.take(k + 1)[k as int] == v);
                    }
                }
                if registers@.take(k + 1).contains(v) {
                    let w = choose|w: int| 0 <= w < k + 1 && #[trigger] registers@.take(k + 1)[w] == v;
                    if w < k {
                        assert(registers@.take(k as int)[w] == v);
                        assert(before.contains(v));
                        let q = choose|q: int| 0 <= q < before.len() && before[q] == v;
                        if q < p {
                            assert(r[q] == v);
                        } else {
                            assert(r[q + 1] == v);
                        }
                    } else {
                        assert(r[p as int] == v);
                    }
                }
            }
        }
        k = k + 1;
    }
    assert(registers@.take(k as int) =~= registers@);
    sorted
}

/// The registers that the instructions read or write, each once, sorted by number.
fn get_virtual_registers(
    instructions: &Vec<InstructionMIR>,
    _basic_blocks: &Vec<BasicBlock>,
    _control_flow_graph: &ControlFlowGraph,
) -> (r: Vec<VirtualRegister>)
    ensures
        no_duplicates(r@),
        sorted_by_number(r@),
        forall|v: VirtualRegister| #[trigger] r@.contains(v) <==> appears(mir_view(instructions@), v),
{
    let ghost s = mir_view(instructions@);
    let mut registers: Vec<VirtualRegister> = Vec::new();
    let mut p: usize = 0;
    while p < instructions.len()
        invariant
            p <= instructions@.len(),
            s == mir_view(instructions@),
            no_duplicates(registers@),
            forall|v: VirtualRegister| #[trigger] registers@.contains(v) <==> exists|q: int|
                0 <= q < p && (reads(#[trigger] s[q].data, v) || writes(s[q].data, v)),
        decreases instructions@.len() - p,
    {
        let ghost before = registers@;
        assert(s[p as int] == instructions@[p as int]@);
        let assigned = instructions[p].data.assign_virtual_register();
        let uses = instructions[p].data.use_virtual_registers();
        let mut candidates: Vec<VirtualRegister> = Vec::new();
        match assigned {
            Some(register) => {
                candidates.push(register);
            },
            None => {},
        }
        let mut q: usize = 0;
        while q < uses.len()
            invariant
                q <= uses@.len(),
                candidates@ == match assigned {
                    Some(register) => seq![register],
                    None => Seq::empty(),
                } + uses@.take(q as int),
            decreases uses@.len() - q,
        {
            candidates.push(uses[q]);
            q = q + 1;
            assert(candidates@ =~= match assigned {
                Some(register) => seq![register],
                None => Seq::empty(),
            } + uses@.take(q as int));
        }
        assert(uses@.take(q as int) =~= uses@);
        let ghost cands = candidates@;
        assert forall|v: VirtualRegister| #[trigger] cands.contains(v) <==> (reads(s[p as int].data, v) || writes(s[p as int].data, v)) by {
            match assigned {
                Some(register) => {
                    if cands.contains(v) {
                        let c = choose|c: int| 0 <= c < cands.len() && cands[c] == v;
                        if c > 0 {
                            assert(uses@[c - 1] == v);
                        }
                    }
                    if reads(s[p as int].data, v) {
                        let c = choose|c: int| 0 <= c < uses@.len() && uses@[c] == v;
                        assert(cands[c + 1] == v);
                    }
                    if writes(s[p as int].data, v) {
                        assert(cands[0] == v);
                    }
                },
                None => {
                    assert(cands =~= uses@);
                },
            }
        }
        let mut c: usize = 0;
        while c < candidates.len()
            invariant
                c <= candidates@.len(),
                candidates@ == cands,
                no_duplicates(registers@),
                forall|v: VirtualRegister| #[trigger] registers@.contains(v) <==> (before.contains(v) || cands.take(c as int).contains(v)),
            decreases candidates@.len() - c,
        {
            let v = candidates[c];
            let ghost prior = registers@;
            if !contains_virtual_register(&registers, &v) {
                registers.push(v);
                proof {
                    assert forall|a: int, b: int| 0 <= a < b < registers@.len() implies #[trigger] registers@[a] != #[trigger] registers@[b] by {
                        if b == prior.len() {
                            assert(prior.contains(prior[a]));
                        } else {
                            assert(prior[a] != prior[b]);
                        }
                    }
                }
            }
            proof {
                assert(cands.take(c + 1) =~= cands.take(c as int).push(v));
                assert forall|w: VirtualRegister| #[trigger] registers@.contains(w) <==> (before.contains(w) || cands.take(c + 1).contains(w)) by {
                    if registers@.contains(w) && !prior.contains(w) {
                        assert(w == v) by {
                            let z = choose|z: int| 0 <= z < registers@.len() && registers@[z] == w;
                            if z < prior.len() {
                                assert(prior[z] == w);
                            }
                        }
                        assert(cands.take(c + 1)[c as int] == v);
                    }
                    if prior.contains(w) {
                        let z = choose|z: int| 0 <= z < prior.len() && prior[z] == w;
                        assert(registers@[z] == w);
                    }
                    if cands.take(c + 1).contains(w) {
                        let z = choose|z: int| 0 <= z < c + 1 && #[trigger] cands.take(c + 1)[z] == w;
                        if z < c {
                            assert(cands.take(c as int)[z] == w);
                        } else if !prior.contains(v) {
                            assert(registers@[prior.len() as int] == v);
                        }
                    }
                    if cands.take(c as int).contains(w) {
                        let z = choose|z: int| 0 <= z < c && #[trigger] cands.take(c as int)[z] == w;
                        assert(cands.take(c + 1)[z] == w);
                    }
                }
            }
            c = c + 1;
        }
        proof {
            assert(cands.take(c as int) =~= cands);
            assert forall|v: VirtualRegister| #[trigger] registers@.contains(v) <==> exists|q: int|
                0 <= q < p + 1 && (reads(#[trigger] s[q].data, v) || writes(s[q].data, v)) by {
                if registers@.contains(v) && !before.contains(v) {
                    assert(reads(s[p as int].data, v) || writes(s[p as int].data, v));
                }
                if exists|q: int| 0 <= q < p + 1 && (reads(#[trigger] s[q].data, v) || writes(s[q].data, v)) {
                    let q = choose|q: int| 0 <= q < p + 1 && (reads(#[trigger] s[q].data, v) || writes(s[q].data, v));
                    if q == p {
                        assert(cands.contains(v));
                    }
                }
            }
        }
        p = p + 1;
    }
    sort_by_number(registers)
}


pub(crate) fn false_marks(n: usize) -> (r: Vec<bool>)
    ensures
        r@.len() == n,
        forall|q: int| 0 <= q < n ==> !#[trigger] r@[q],
{
    let mut r: Vec<bool> = Vec::new();
    let mut i: usize = 0;
    while i < n
        invariant
            i <= n,
            r@.len() == i,
            forall|q: int| 0 <= q < i ==> !#[trigger] r@[q],
        decreases n - i,
    {
        r.push(false);
        i = i + 1;
    }
    r
}

/// The numbers of the locals that hold references.
pub open spec fn reference_local(locals: Seq<RegisterMIRView>, number: u32) -> bool {
    exists|k: int| 0 <= k < locals.len() && (#[trigger] locals[k]).number == number && is_reference_type(locals[k].value_type)
}

fn is_reference_local(locals: &Vec<crate::mir::RegisterMIR>, number: u32) -> (r: bool)
    ensures
        r == reference_local(registers_view(locals@), number),
{
    let mut k: usize = 0;
    while k < locals.len()
        invariant
            k <= locals@.len(),
            forall|j: int| 0 <= j < k ==> !((#[trigger] registers_view(locals@)[j]).number == number && is_reference_type(
                registers_view(locals@)[j].value_type,
            )),
        decreases locals@.len() - k,
    {
        if locals[k].number == number && locals[k].value_type.is_reference() {
            assert(registers_view(locals@)[k as int].number == number);
            return true;
        }
        k = k + 1;
    }
    false
}

/// Whether some instruction reads `v`.
pub open spec fn is_read(s: Seq<InstructionMIRView>, v: VirtualRegister) -> bool {
    exists|p: int| 0 <= p < s.len() && reads(#[trigger] s[p].data, v)
}

/// The marks after the walks from the reads of `v` among the first `o`
/// instructions of block `b`, each walk starting with no block visited.
pub open spec fn offsets_walks(
    s: Seq<InstructionMIRView>,
    blocks: Seq<BasicBlock>,
    g: ControlFlowGraph,
    v: VirtualRegister,
    alive: Seq<bool>,
    b: int,
    o: int,
) -> Seq<bool>
    decreases o,
{
    if o <= 0 {
        alive
    } else {
        let prior = offsets_walks(s, blocks, g, v, alive, b, o - 1);
        if reads(s[blocks[b].start_offset + o - 1].data, v) {
            walk(blocks.len(), s, blocks, g, v, Seq::new(blocks.len(), |k: int| false), prior, b, o - 1).1
        } else {
            prior
        }
    }
}

/// The marks after the walks from the reads of `v` in the first `b` blocks.
pub open spec fn blocks_walks(s: Seq<InstructionMIRView>, blocks: Seq<BasicBlock>, g: ControlFlowGraph, v: VirtualRegister, alive: Seq<bool>, b: int) -> Seq<
    bool,
>
    decreases b,
{
    if b <= 0 {
        alive
    } else {
        offsets_walks(s, blocks, g, v, blocks_walks(s, blocks, g, v, alive, b - 1), b - 1, blocks[b - 1].instructions@.len() as int)
    }
}

/// The instructions at which `v` is alive: where the walks from its reads
/// reach; for a register that is never read, also where it is written; and
/// everywhere for a local that holds a reference.
pub open spec fn alive_marks(
    s: Seq<InstructionMIRView>,
    blocks: Seq<BasicBlock>,
    g: ControlFlowGraph,
    locals: Seq<RegisterMIRView>,
    v: VirtualRegister,
) -> Seq<bool> {
    let walked = blocks_walks(s, blocks, g, v, Seq::new(s.len(), |p: int| false), blocks.len() as int);
    let marked = if is_read(s, v) {
        walked
    } else {
        Seq::new(s.len(), |p: int| walked[p] || writes(s[p].data, v))
    };
    if reference_local(locals, v.number) {
        Seq::new(s.len(), |p: int| true)
    } else {
        marked
    }
}

/// The interval of `v`: from the first to the last instruction at which it is alive.
pub open spec fn live_interval_spec(
    s: Seq<InstructionMIRView>,
    blocks: Seq<BasicBlock>,
    g: ControlFlowGraph,
    locals: Seq<RegisterMIRView>,
    v: VirtualRegister,
) -> LiveInterval {
    let marks = alive_marks(s, blocks, g, locals, v);
    LiveInterval {
        start: match first_marked(marks, s.len() as int) {
            Some(p) => p as usize,
            None => usize::MAX,
        },
        end: match last_marked(marks, s.len() as int) {
            Some(p) => p as usize,
            None => 0usize,
        },
        register: v,
    }
}

proof fn lemma_unvisited_none(m: nat)
    ensures
        unvisited_all(Seq::new(m, |k: int| false)) == m,
    decreases m,
{
    lemma_unvisited_prefix(Seq::new(m, |k: int| false), m as int);
}

proof fn lemma_unvisited_prefix(v: Seq<bool>, n: int)
    requires
        0 <= n <= v.len(),
        forall|k: int| 0 <= k < v.len() ==> !#[trigger] v[k],
    ensures
        unvisited(v, n) == n,
    decreases n,
{
    if n > 0 {
        lemma_unvisited_prefix(v, n - 1);
    }
}

/// What the live intervals of the instructions satisfy: one interval per
/// register that the instructions read or write, sorted by register number;
/// each interval covers every instruction that reads its register, and,
/// for a register that is never read, every instruction that writes it;
/// a local that holds a reference is alive everywhere.
pub open spec fn liveness_holds(r: Seq<LiveInterval>, s: Seq<InstructionMIRView>, locals: Seq<RegisterMIRView>) -> bool {
    &&& forall|a: int, b: int| 0 <= a < b < r.len() ==> (#[trigger] r[a]).register != (#[trigger] r[b]).register
    &&& forall|a: int, b: int| 0 <= a < b < r.len() ==> (#[trigger] r[a]).register.number <= (#[trigger] r[b]).register.number
    &&& forall|v: VirtualRegister| appears(s, v) <==> exists|i: int| 0 <= i < r.len() && (#[trigger] r[i]).register == v
    &&& forall|i: int|
        0 <= i < r.len() ==> {
            let interval = #[trigger] r[i];
            &&& interval.start <= interval.end < s.len()
            &&& forall|p: int| 0 <= p < s.len() && reads(#[trigger] s[p].data, interval.register) ==> interval.start <= p <= interval.end
            &&& !is_read(s, interval.register) ==> forall|p: int|
                0 <= p < s.len() && writes(#[trigger] s[p].data, interval.register) ==> interval.start <= p <= interval.end
            &&& reference_local(locals, interval.register.number) ==> interval.start == 0 && interval.end == s.len() - 1
        }
}

/// The live interval of each register that the instructions read or
/// write, sorted by register number: the interval of
/// [`live_interval_spec`], which runs from the first to the last
/// instruction reached by the backward walks from the register's reads
/// (for a register never read, its writes; for a local holding a
/// reference, every instruction).
pub fn compute_liveness(
    compilation_result: &MIRCompilationResult,
    basic_blocks: &Vec<BasicBlock>,
    control_flow_graph: &ControlFlowGraph,
) -> (r: Vec<LiveInterval>)
    requires
        blocks_partition(basic_blocks@, compilation_result.instructions@.len() as int),
        edges_within(*control_flow_graph, basic_blocks@.len() as int),
    ensures
        liveness_holds(
            r@,
            mir_view(compilation_result.instructions@),
            registers_view(compilation_result.local_virtual_registers@),
        ),
        forall|i: int|
            0 <= i < r@.len() ==> #[trigger] r@[i] == live_interval_spec(
                mir_view(compilation_result.instructions@),
                basic_blocks@,
                *control_flow_graph,
                registers_view(compilation_result.local_virtual_registers@),
                r@[i].register,
            ),
{
    let instructions = &compilation_result.instructions;
    let ghost s = mir_view(instructions@);
    let n = instructions.len();
    let m = basic_blocks.len();
    let registers = get_virtual_registers(instructions, basic_blocks, control_flow_graph);
    let mut live_intervals: Vec<LiveInterval> = Vec::new();
    let mut k: usize = 0;
    while k < registers.len()
        invariant
            k <= registers@.len(),
            n == instructions@.len(),
            m == basic_blocks@.len(),
            s == mir_view(instructions@),
            *instructions == compilation_result.instructions,
            blocks_partition(basic_blocks@, n as int),
            edges_within(*control_flow_graph, m as int),
            no_duplicates(registers@),
            sorted_by_number(registers@),
            forall|v: VirtualRegister| #[trigger] registers@.contains(v) <==> appears(s, v),
            live_intervals@.len() == k,
            forall|i: int| 0 <= i < k ==> (#[trigger] live_intervals@[i]).register == registers@[i],
            forall|i: int|
                0 <= i < k ==> #[trigger] live_intervals@[i] == live_interval_spec(
                    s,
                    basic_blocks@,
                    *control_flow_graph,
                    registers_view(compilation_result.local_virtual_registers@),
                    live_intervals@[i].register,
                ),
            forall|i: int|
                0 <= i < k ==> {
                    let interval = #[trigger] live_intervals@[i];
                    &&& interval.start <= interval.end < s.len()
                    &&& forall|p: int| 0 <= p < s.len() && reads(#[trigger] s[p].data, interval.register) ==> interval.start <= p
                        <= interval.end
                    &&& !is_read(s, interval.register) ==> forall|p: int|
                        0 <= p < s.len() && writes(#[trigger] s[p].data, interval.register) ==> interval.start <= p <= interval.end
                    &&& reference_local(registers_view(compilation_result.local_virtual_registers@), interval.register.number)
                        ==> interval.start == 0 && interval.end == s.len() - 1
                },
        decreases registers@.len() - k,
    {
        let register = registers[k];
        assert(registers@.contains(register));
        let mut alive_at = false_marks(n);
        let ghost start_marks = alive_at@;
        assert(start_marks =~= Seq::new(s.len(), |p: int| false));
        let mut used = false;
        let mut b: usize = 0;
        while b < m
            invariant
                alive_at@ == blocks_walks(s, basic_blocks@, *control_flow_graph, register, start_marks, b as int),
                b <= m,
                n == instructions@.len(),
                m == basic_blocks@.len(),
                s == mir_view(instructions@),
                blocks_partition(basic_blocks@, n as int),
                edges_within(*control_flow_graph, m as int),
                alive_at@.len() == n,
                used ==> exists|q: int| 0 <= q < n && alive_at@[q],
                used <==> exists|b2: int, o: int|
                    0 <= b2 < b && 0 <= o < basic_blocks@[b2].instructions@.len() && #[trigger] reads(
                        s[basic_blocks@[b2].start_offset + o].data,
                        register,
                    ),
                forall|b2: int, o: int|
                    0 <= b2 < b && 0 <= o < basic_blocks@[b2].instructions@.len() && #[trigger] reads(
                        s[basic_blocks@[b2].start_offset + o].data,
                        register,
                    ) ==> alive_at@[basic_blocks@[b2].start_offset + o],
            decreases m - b,
        {
            proof {
                lemma_block_within(basic_blocks@, n as int, b as int);
            }
            let block_start = basic_blocks[b].start_offset;
            let block_length = basic_blocks[b].instructions.len();
            let mut o: usize = 0;
            while o < block_length
                invariant
                    alive_at@ == offsets_walks(
                        s,
                        basic_blocks@,
                        *control_flow_graph,
                        register,
                        blocks_walks(s, basic_blocks@, *control_flow_graph, register, start_marks, b as int),
                        b as int,
                        o as int,
                    ),
                    o <= block_length,
                    b < m,
                    block_length == basic_blocks@[b as int].instructions@.len(),
                    block_start == basic_blocks@[b as int].start_offset,
                    block_start + block_length <= n,
                    n == instructions@.len(),
                    m == basic_blocks@.len(),
                    s == mir_view(instructions@),
                    blocks_partition(basic_blocks@, n as int),
                    edges_within(*control_flow_graph, m as int),
                    alive_at@.len() == n,
                    used ==> exists|q: int| 0 <= q < n && alive_at@[q],
                    used <==> (exists|b2: int, o2: int|
                        0 <= b2 < b && 0 <= o2 < basic_blocks@[b2].instructions@.len() && #[trigger] reads(
                            s[basic_blocks@[b2].start_offset + o2].data,
                            register,
                        )) || (exists|o2: int| 0 <= o2 < o && #[trigger] reads(s[block_start + o2].data, register)),
                    forall|b2: int, o2: int|
                        0 <= b2 < b && 0 <= o2 < basic_blocks@[b2].instructions@.len() && #[trigger] reads(
                            s[basic_blocks@[b2].start_offset + o2].data,
                            register,
                        ) ==> alive_at@[basic_blocks@[b2].start_offset + o2],
                    forall|o2: int| 0 <= o2 < o && #[trigger] reads(s[block_start + o2].data, register) ==> alive_at@[block_start + o2],
                decreases block_length - o,
            {
                if instruction_reads(instructions, block_start + o, &register) {
                    let mut visited = false_marks(m);
                    proof {
                        assert(visited@ =~= Seq::new(m as nat, |k: int| false));
                        lemma_unvisited_none(m as nat);
                        assert(basic_blocks@.len() == m);
                    }
                    let ghost prior = alive_at@;
                    compute_liveness_for_register_in_block(
                        instructions,
                        basic_blocks,
                        control_flow_graph,
                        b,
                        o,
                        &mut visited,
                        &register,
                        &mut alive_at,
                    );
                    used = true;
                    proof {
                        assert(alive_at@[block_start + o]);
                        assert forall|b2: int, o2: int|
                            0 <= b2 < b && 0 <= o2 < basic_blocks@[b2].instructions@.len() && #[trigger] reads(
                                s[basic_blocks@[b2].start_offset + o2].data,
                                register,
                            ) implies alive_at@[basic_blocks@[b2].start_offset + o2] by {
                            lemma_block_within(basic_blocks@, n as int, b2);
                            assert(prior[basic_blocks@[b2].start_offset + o2]);
                        }
                        assert forall|o2: int| 0 <= o2 < o + 1 && #[trigger] reads(s[block_start + o2].data, register) implies alive_at@[block_start
                            + o2] by {
                            if o2 < o {
                                assert(prior[block_start + o2]);
                            }
                        }
                        assert(reads(s[block_start + o].data, register));
                    }
                }
                o = o + 1;
            }
            proof {
                assert forall|b2: int, o2: int|
                    0 <= b2 < b + 1 && 0 <= o2 < basic_blocks@[b2].instructions@.len() && #[trigger] reads(
                        s[basic_blocks@[b2].start_offset + o2].data,
                        register,
                    ) implies alive_at@[basic_blocks@[b2].start_offset + o2] by {
                    if b2 == b {
                        assert(reads(s[block_start + o2].data, register));
                    }
                }
                if used {
                    if !(exists|b2: int, o2: int|
                        0 <= b2 < b && 0 <= o2 < basic_blocks@[b2].instructions@.len() && #[trigger] reads(
                            s[basic_blocks@[b2].start_offset + o2].data,
                            register,
                        )) {
                        let o2 = choose|o2: int| 0 <= o2 < o && #[trigger] reads(s[block_start + o2].data, register);
                        assert(reads(s[basic_blocks@[b as int].start_offset + o2].data, register));
                    }
                }
                if exists|b2: int, o2: int|
                    0 <= b2 < b + 1 && 0 <= o2 < basic_blocks@[b2].instructions@.len() && #[trigger] reads(
                        s[basic_blocks@[b2].start_offset + o2].data,
                        register,
                    ) {
                    let (b2, o2) = choose|b2: int, o2: int|
                        0 <= b2 < b + 1 && 0 <= o2 < basic_blocks@[b2].instructions@.len() && #[trigger] reads(
                            s[basic_blocks@[b2].start_offset + o2].data,
                            register,
                        );
                    if b2 == b {
                        assert(reads(s[block_start + o2].data, register));
                    }
                }
            }
            b = b + 1;
        }
        proof {
            assert forall|p: int| 0 <= p < s.len() && reads(#[trigger] s[p].data, register) implies alive_at@[p] by {
                let (b2, o2) = lemma_index_in_block(basic_blocks@, n as int, p);
                assert(reads(s[basic_blocks@[b2].start_offset + o2].data, register));
            }
            if is_read(s, register) {
                let p = choose|p: int| 0 <= p < s.len() && reads(#[trigger] s[p].data, register);
                let (b2, o2) = lemma_index_in_block(basic_blocks@, n as int, p);
                assert(reads(s[basic_blocks@[b2].start_offset + o2].data, register));
            }
            if used {
                let (b2, o2) = choose|b2: int, o2: int|
                    0 <= b2 < m && 0 <= o2 < basic_blocks@[b2].instructions@.len() && #[trigger] reads(
                        s[basic_blocks@[b2].start_offset + o2].data,
                        register,
                    );
                lemma_block_within(basic_blocks@, n as int, b2);
                assert(reads(s[basic_blocks@[b2].start_offset + o2].data, register));
            }
            assert(used == is_read(s, register));
        }
        let ghost walked = alive_at@;
        assert(walked == blocks_walks(s, basic_blocks@, *control_flow_graph, register, start_marks, m as int));
        if !used {
            let mut p: usize = 0;
            while p < n
                invariant
                    p <= n,
                    n == instructions@.len(),
                    s == mir_view(instructions@),
                    alive_at@.len() == n,
                    walked.len() == n,
                    forall|q: int| 0 <= q < p ==> #[trigger] alive_at@[q] == (walked[q] || writes(s[q].data, register)),
                    forall|q: int| p <= q < n ==> #[trigger] alive_at@[q] == walked[q],
                    forall|q: int| 0 <= q < p && writes(#[trigger] s[q].data, register) ==> alive_at@[q],
                    forall|q: int| 0 <= q < s.len() && reads(#[trigger] s[q].data, register) ==> alive_at@[q],
                decreases n - p,
            {
                if instruction_writes(instructions, p, &register) {
                    alive_at.set(p, true);
                }
                p = p + 1;
            }
        }
        proof {
            assert(appears(s, register));
            if used {
                let p = choose|p: int| 0 <= p < s.len() && reads(#[trigger] s[p].data, register);
                assert(alive_at@[p]);
            } else {
                let p = choose|p: int| 0 <= p < s.len() && (reads(#[trigger] s[p].data, register) || writes(s[p].data, register));
                assert(!reads(s[p].data, register));
                assert(alive_at@[p]);
            }
        }
        let ghost marked = alive_at@;
        proof {
            if !used {
                assert(marked =~= Seq::new(s.len(), |p: int| walked[p] || writes(s[p].data, register)));
            }
        }
        let reference = is_reference_local(&compilation_result.local_virtual_registers, register.number);
        if reference {
            let mut p: usize = 0;
            while p < n
                invariant
                    p <= n,
                    alive_at@.len() == n,
                    marked.len() == n,
                    forall|q: int| 0 <= q < p ==> #[trigger] alive_at@[q],
                    forall|q: int| 0 <= q < n ==> marked[q] ==> #[trigger] alive_at@[q],
                decreases n - p,
            {
                alive_at.set(p, true);
                p = p + 1;
            }
        }
        proof {
            assert(forall|q: int| 0 <= q < n ==> marked[q] ==> #[trigger] alive_at@[q]);
            if reference {
                assert(alive_at@ =~= Seq::new(s.len(), |p: int| true));
            }
            assert(alive_at@ == alive_marks(s, basic_blocks@, *control_flow_graph, registers_view(compilation_result.local_virtual_registers@), register));
        }
        let interval = get_live_interval(&register, &alive_at);
        proof {
            lemma_marked_bounds(alive_at@, n as int);
            assert(forall|q: int| 0 <= q < s.len() && reads(#[trigger] s[q].data, register) ==> alive_at@[q]);
            if !is_read(s, register) {
                assert(forall|q: int| 0 <= q < s.len() && writes(#[trigger] s[q].data, register) ==> alive_at@[q]);
            }
            if reference {
                assert(alive_at@[0]);
                assert(alive_at@[n - 1]);
            }
        }
        live_intervals.push(interval);
        k = k + 1;
    }
    proof {
        assert forall|v: VirtualRegister| appears(s, v) <==> exists|i: int| 0 <= i < live_intervals@.len() && (#[trigger] live_intervals@[i]).register == v by {
            if appears(s, v) {
                assert(registers@.contains(v));
                let i = choose|i: int| 0 <= i < registers@.len() && registers@[i] == v;
                assert(live_intervals@[i].register == v);
            }
            if exists|i: int| 0 <= i < live_intervals@.len() && (#[trigger] live_intervals@[i]).register == v {
                let i = choose|i: int| 0 <= i < live_intervals@.len() && (#[trigger] live_intervals@[i]).register == v;
                assert(registers@[i] == v);
                assert(registers@.contains(v));
            }
        }
    }
    live_intervals
}


/// Marks set before a scan stay set, and the scan marks its starting offset.
proof fn lemma_scan_back_marks(alive: Seq<bool>, s: Seq<InstructionMIRView>, block: BasicBlock, v: VirtualRegister, o: int)
    requires
        block.start_offset + block.instructions@.len() <= alive.len(),
        o < block.instructions@.len(),
    ensures
        scan_back(alive, s, block, v, o).0.len() == alive.len(),
        forall|k: int| 0 <= k < alive.len() && alive[k] ==> #[trigger] scan_back(alive, s, block, v, o).0[k],
        o >= 0 ==> scan_back(alive, s, block, v, o).0[block.start_offset + o],
    decreases o + 1,
{
    if o >= 0 {
        let marked = alive.update(block.start_offset + o, true);
        let d = s[block.instructions@[o] as int].data;
        if !(writes(d, v) && !reads(d, v)) {
            lemma_scan_back_marks(marked, s, block, v, o - 1);
        }
    }
}

/// Marks set before a walk stay set, and a walk that enters an unvisited
/// block marks its starting offset.
proof fn lemma_walk_marks(
    fuel: nat,
    s: Seq<InstructionMIRView>,
    blocks: Seq<BasicBlock>,
    g: ControlFlowGraph,
    v: VirtualRegister,
    visited: Seq<bool>,
    alive: Seq<bool>,
    b: int,
    o: int,
)
    requires
        blocks_partition(blocks, s.len() as int),
        edges_within(g, blocks.len() as int),
        visited.len() == blocks.len(),
        alive.len() == s.len(),
        0 <= b < blocks.len(),
        o < blocks[b].instructions@.len(),
    ensures
        walk(fuel, s, blocks, g, v, visited, alive, b, o).1.len() == alive.len(),
        forall|k: int| 0 <= k < alive.len() && alive[k] ==> #[trigger] walk(fuel, s, blocks, g, v, visited, alive, b, o).1[k],
        !visited[b] && fuel > 0 && o >= 0 ==> walk(fuel, s, blocks, g, v, visited, alive, b, o).1[blocks[b].start_offset + o],
    decreases fuel, 0nat, 0int,
{
    if !(visited[b] || fuel == 0) {
        lemma_block_within(blocks, s.len() as int, b);
        lemma_scan_back_marks(alive, s, blocks[b], v, o);
        let scanned = scan_back(alive, s, blocks[b], v, o);
        if !scanned.1 {
            lemma_walk_preds_marks((fuel - 1) as nat, s, blocks, g, v, visited.update(b, true), scanned.0, b, g.back_edges@[b]@.len() as int);
        }
    }
}

proof fn lemma_walk_preds_marks(
    fuel: nat,
    s: Seq<InstructionMIRView>,
    blocks: Seq<BasicBlock>,
    g: ControlFlowGraph,
    v: VirtualRegister,
    visited: Seq<bool>,
    alive: Seq<bool>,
    b: int,
    q: int,
)
    requires
        blocks_partition(blocks, s.len() as int),
        edges_within(g, blocks.len() as int),
        visited.len() == blocks.len(),
        alive.len() == s.len(),
        0 <= b < blocks.len(),
        q <= g.back_edges@[b]@.len(),
    ensures
        walk_preds(fuel, s, blocks, g, v, visited, alive, b, q).1.len() == alive.len(),
        walk_preds(fuel, s, blocks, g, v, visited, alive, b, q).0.len() == visited.len(),
        forall|k: int| 0 <= k < alive.len() && alive[k] ==> #[trigger] walk_preds(fuel, s, blocks, g, v, visited, alive, b, q).1[k],
    decreases fuel, 1nat, q,
{
    if q > 0 {
        lemma_walk_preds_marks(fuel, s, blocks, g, v, visited, alive, b, q - 1);
        lemma_walk_preds_grows(fuel, s, blocks, g, v, visited, alive, b, q - 1);
        let prior = walk_preds(fuel, s, blocks, g, v, visited, alive, b, q - 1);
        let to = g.back_edges@[b]@[q - 1].to as int;
        assert(0 <= to < blocks.len());
        lemma_walk_grows(fuel, s, blocks, g, v, prior.0, prior.1, to, blocks[to].instructions@.len() - 1);
        lemma_walk_marks(fuel, s, blocks, g, v, prior.0, prior.1, to, blocks[to].instructions@.len() - 1);
    }
}

/// The walks from the reads in block `b` keep the marks and mark each read.
proof fn lemma_offsets_walks_marks(
    s: Seq<InstructionMIRView>,
    blocks: Seq<BasicBlock>,
    g: ControlFlowGraph,
    v: VirtualRegister,
    alive: Seq<bool>,
    b: int,
    o: int,
)
    requires
        blocks_partition(blocks, s.len() as int),
        edges_within(g, blocks.len() as int),
        alive.len() == s.len(),
        0 <= b < blocks.len(),
        o <= blocks[b].instructions@.len(),
    ensures
        offsets_walks(s, blocks, g, v, alive, b, o).len() == alive.len(),
        forall|k: int| 0 <= k < alive.len() && alive[k] ==> #[trigger] offsets_walks(s, blocks, g, v, alive, b, o)[k],
        forall|j: int|
            0 <= j < o && reads(s[blocks[b].start_offset + j].data, v) ==> #[trigger] offsets_walks(s, blocks, g, v, alive, b, o)[blocks[b].start_offset
                + j],
    decreases o,
{
    if o > 0 {
        lemma_offsets_walks_marks(s, blocks, g, v, alive, b, o - 1);
        let prior = offsets_walks(s, blocks, g, v, alive, b, o - 1);
        if reads(s[blocks[b].start_offset + o - 1].data, v) {
            let none = Seq::new(blocks.len(), |k: int| false);
            lemma_walk_marks(blocks.len(), s, blocks, g, v, none, prior, b, o - 1);
            lemma_block_within(blocks, s.len() as int, b);
        }
    }
}

/// The walks from the reads in the first `b` blocks keep the marks and mark
/// each read.
proof fn lemma_blocks_walks_marks(
    s: Seq<InstructionMIRView>,
    blocks: Seq<BasicBlock>,
    g: ControlFlowGraph,
    v: VirtualRegister,
    alive: Seq<bool>,
    b: int,
)
    requires
        blocks_partition(blocks, s.len() as int),
        edges_within(g, blocks.len() as int),
        alive.len() == s.len(),
        0 <= b <= blocks.len(),
    ensures
        blocks_walks(s, blocks, g, v, alive, b).len() == alive.len(),
        forall|k: int| 0 <= k < alive.len() && alive[k] ==> #[trigger] blocks_walks(s, blocks, g, v, alive, b)[k],
        forall|c: int, j: int|
            0 <= c < b && 0 <= j < blocks[c].instructions@.len() && reads(s[blocks[c].start_offset + j].data, v)
                ==> #[trigger] blocks_walks(s, blocks, g, v, alive, b)[blocks[c].start_offset + j],
    decreases b,
{
    if b > 0 {
        lemma_blocks_walks_marks(s, blocks, g, v, alive, b - 1);
        let prior = blocks_walks(s, blocks, g, v, alive, b - 1);
        lemma_offsets_walks_marks(s, blocks, g, v, prior, b - 1, blocks[b - 1].instructions@.len() as int);
        let after = blocks_walks(s, blocks, g, v, alive, b);
        assert forall|c: int, j: int|
            0 <= c < b && 0 <= j < blocks[c].instructions@.len() && reads(s[blocks[c].start_offset + j].data, v)
                implies #[trigger] after[blocks[c].start_offset + j] by {
            lemma_block_within(blocks, s.len() as int, c);
            if c < b - 1 {
                assert(prior[blocks[c].start_offset + j]);
            }
        }
    }
}

/// A register is alive at every instruction that reads it, so its live
/// interval runs over each of its reads.
pub proof fn law_alive_at_reads(
    s: Seq<InstructionMIRView>,
    blocks: Seq<BasicBlock>,
    g: ControlFlowGraph,
    locals: Seq<RegisterMIRView>,
    v: VirtualRegister,
    p: int,
)
    requires
        blocks_partition(blocks, s.len() as int),
        edges_within(g, blocks.len() as int),
        0 <= p < s.len(),
        s.len() <= usize::MAX,
        reads(s[p].data, v),
    ensures
        alive_marks(s, blocks, g, locals, v)[p],
        live_interval_spec(s, blocks, g, locals, v).start <= p <= live_interval_spec(s, blocks, g, locals, v).end,
{
    let none = Seq::new(s.len(), |k: int| false);
    lemma_blocks_walks_marks(s, blocks, g, v, none, blocks.len() as int);
    let (c, j) = lemma_index_in_block(blocks, s.len() as int, p);
    assert(blocks_walks(s, blocks, g, v, none, blocks.len() as int)[blocks[c].start_offset + j]);
    assert(is_read(s, v));
    let marks = alive_marks(s, blocks, g, locals, v);
    assert(marks[p]);
    lemma_marked_bounds(marks, s.len() as int);
    let first = first_marked(marks, s.len() as int);
    let last = last_marked(marks, s.len() as int);
    if first is None {
        assert(!marks[p]);
    }
    if last is None {
        assert(!marks[p]);
    }
    if first->0 > p {
        assert(!marks[p]);
    }
    if last->0 < p {
        assert(!marks[p]);
    }
}

} // verus!
