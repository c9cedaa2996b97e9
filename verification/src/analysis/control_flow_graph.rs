//! The control flow graph of the basic blocks: an edge from a block to
//! each block that control can pass to after its last instruction.
use vstd::prelude::*;
use crate::compiler::ir::BranchLabel;
use crate::mir::{InstructionMIR, InstructionMIRData, InstructionMIRView, InstructionMIRDataView, mir_view};
use crate::mir::branches::{create_label_mapping, label_position};
use crate::analysis::basic_block::BasicBlock;

verus! {

broadcast use vstd::std_specs::hash::group_hash_axioms;

/// An edge between two blocks. Among the back edges of a block, `to` is a
/// block that control comes from.
#[derive(Clone, Copy, Debug, PartialEq, Eq, Structural, Hash)]
pub struct ControlFlowEdge {
    pub from: usize,
    pub to: usize,
}

/// The first of the blocks that starts at instruction `p`.
pub open spec fn block_starting_at(blocks: Seq<BasicBlock>, p: int, n: int) -> Option<int>
    decreases n,
{
    if n <= 0 {
        None
    } else {
        match block_starting_at(blocks, p, n - 1) {
            Some(b) => Some(b),
            None => if blocks[n - 1].start_offset == p {
                Some(n - 1)
            } else {
                None
            },
        }
    }
}

pub open spec fn block_at(blocks: Seq<BasicBlock>, p: int) -> Option<int> {
    block_starting_at(blocks, p, blocks.len() as int)
}

/// The instruction that ends block `b`.
pub open spec fn last_data(s: Seq<InstructionMIRView>, blocks: Seq<BasicBlock>, b: int) -> InstructionMIRDataView {
    s[blocks[b].instructions@.last() as int].data
}

/// The block that a branch to `label` jumps to.
pub open spec fn jump_block(s: Seq<InstructionMIRView>, blocks: Seq<BasicBlock>, label: BranchLabel) -> Option<int> {
    match label_position(s, label, s.len() as int) {
        Some(p) => block_at(blocks, p),
        None => None,
    }
}

/// The block that starts right after block `b`.
pub open spec fn next_block(blocks: Seq<BasicBlock>, b: int) -> Option<int> {
    block_at(blocks, blocks[b].start_offset + blocks[b].instructions@.len())
}

/// The blocks that control passes to after block `b`: the target of a
/// branch, the target and the next block after a conditional branch, none
/// after a return, and the next block otherwise.
pub open spec fn successors(s: Seq<InstructionMIRView>, blocks: Seq<BasicBlock>, b: int) -> Seq<int> {
    let d = last_data(s, blocks, b);
    match d {
        InstructionMIRDataView::Branch(label) => seq![jump_block(s, blocks, label)->0],
        InstructionMIRDataView::BranchCondition(_, _, label, _, _) => if jump_block(s, blocks, label)->0 == next_block(
            blocks,
            b,
        )->0 {
            seq![jump_block(s, blocks, label)->0]
        } else {
            seq![jump_block(s, blocks, label)->0, next_block(blocks, b)->0]
        },
        InstructionMIRDataView::Return(_) => seq![],
        _ => seq![next_block(blocks, b)->0],
    }
}

/// Each block is non-empty, its instructions exist, and the blocks that
/// control passes to exist.
pub open spec fn flow_targets_exist(s: Seq<InstructionMIRView>, blocks: Seq<BasicBlock>) -> bool {
    &&& blocks.len() <= usize::MAX
    &&& forall|b: int|
        0 <= b < blocks.len() ==> {
            &&& (#[trigger] blocks[b]).instructions@.len() > 0
            &&& forall|q: int| 0 <= q < blocks[b].instructions@.len() ==> #[trigger] blocks[b].instructions@[q] < s.len()
            &&& blocks[b].start_offset + blocks[b].instructions@.len() <= usize::MAX
            &&& match last_data(s, blocks, b) {
                InstructionMIRDataView::Branch(label) => jump_block(s, blocks, label) is Some,
                InstructionMIRDataView::BranchCondition(_, _, label, _, _) => jump_block(s, blocks, label) is Some && next_block(
                    blocks,
                    b,
                ) is Some,
                InstructionMIRDataView::Return(_) => true,
                _ => next_block(blocks, b) is Some,
            }
        }
}

/// The blocks among the first `k` that pass control to block `c`, in increasing order.
pub open spec fn predecessors_upto(s: Seq<InstructionMIRView>, blocks: Seq<BasicBlock>, c: int, k: int) -> Seq<int>
    decreases k,
{
    if k <= 0 {
        Seq::empty()
    } else if successors(s, blocks, k - 1).contains(c) {
        predecessors_upto(s, blocks, c, k - 1).push(k - 1)
    } else {
        predecessors_upto(s, blocks, c, k - 1)
    }
}

pub open spec fn predecessors(s: Seq<InstructionMIRView>, blocks: Seq<BasicBlock>, c: int) -> Seq<int> {
    predecessors_upto(s, blocks, c, blocks.len() as int)
}

/// The blocks (by index) and the edges out of and into each block.
pub struct ControlFlowGraph {
    pub vertices: Vec<usize>,
    /// For each block, the edges to the blocks that control passes to.
    pub edges: Vec<Vec<ControlFlowEdge>>,
    /// For each block, the edges back to the blocks that control comes from.
    pub back_edges: Vec<Vec<ControlFlowEdge>>,
}

pub open spec fn edge_targets(edges: Seq<ControlFlowEdge>) -> Seq<int> {
    edges.map_values(|e: ControlFlowEdge| e.to as int)
}

/// The graph of the blocks: for each block, its successors and predecessors.
pub open spec fn is_graph_of(g: ControlFlowGraph, s: Seq<InstructionMIRView>, blocks: Seq<BasicBlock>) -> bool {
    &&& g.vertices@ == Seq::new(blocks.len(), |b: int| b as usize)
    &&& g.edges@.len() == blocks.len()
    &&& g.back_edges@.len() == blocks.len()
    &&& forall|b: int|
        0 <= b < blocks.len() ==> {
            &&& edge_targets((#[trigger] g.edges@[b])@) == successors(s, blocks, b)
            &&& forall|q: int| 0 <= q < g.edges@[b]@.len() ==> (#[trigger] g.edges@[b]@[q]).from == b
            &&& edge_targets(g.back_edges@[b]@) == predecessors(s, blocks, b)
            &&& forall|q: int| 0 <= q < g.back_edges@[b]@.len() ==> (#[trigger] g.back_edges@[b]@[q]).from == b
        }
}

fn find_block(blocks: &Vec<BasicBlock>, p: usize) -> (r: Option<usize>)
    ensures
        match r {
            Some(b) => block_at(blocks@, p as int) == Some(b as int),
            None => block_at(blocks@, p as int) is None,
        },
{
    let mut b: usize = 0;
    while b < blocks.len()
        invariant
            b <= blocks@.len(),
            block_starting_at(blocks@, p as int, b as int) is None,
        decreases blocks@.len() - b,
    {
        if blocks[b].start_offset == p {
            proof {
                lemma_block_starting_at_found(blocks@, p as int, blocks@.len() as int, b as int);
            }
            return Some(b);
        }
        b = b + 1;
    }
    None
}

proof fn lemma_block_starting_at_found(blocks: Seq<BasicBlock>, p: int, n: int, b: int)
    requires
        0 <= b < n <= blocks.len(),
        blocks[b].start_offset == p,
        block_starting_at(blocks, p, b) is None,
    ensures
        block_starting_at(blocks, p, n) == Some(b),
    decreases n - b,
{
    if n > b + 1 {
        lemma_block_starting_at_found(blocks, p, n - 1, b);
    }
}

proof fn lemma_block_starting_at(blocks: Seq<BasicBlock>, p: int, n: int)
    requires
        0 <= n <= blocks.len(),
    ensures
        match block_starting_at(blocks, p, n) {
            Some(b) => 0 <= b < n,
            None => true,
        },
    decreases n,
{
    if n > 0 {
        lemma_block_starting_at(blocks, p, n - 1);
    }
}

proof fn lemma_successors(s: Seq<InstructionMIRView>, blocks: Seq<BasicBlock>, b: int)
    requires
        flow_targets_exist(s, blocks),
        0 <= b < blocks.len(),
    ensures
        forall|k: int| 0 <= k < successors(s, blocks, b).len() ==> 0 <= #[trigger] successors(s, blocks, b)[k] < blocks.len(),
        forall|k: int, l: int|
            0 <= k < l < successors(s, blocks, b).len() ==> #[trigger] successors(s, blocks, b)[k] != #[trigger] successors(
                s,
                blocks,
                b,
            )[l],
{
    assert(blocks[b].instructions@.len() > 0);
    match last_data(s, blocks, b) {
        InstructionMIRDataView::Branch(label) => {
            lemma_block_starting_at(blocks, label_position(s, label, s.len() as int)->0, blocks.len() as int);
        },
        InstructionMIRDataView::BranchCondition(_, _, label, _, _) => {
            lemma_block_starting_at(blocks, label_position(s, label, s.len() as int)->0, blocks.len() as int);
            lemma_block_starting_at(blocks, blocks[b].start_offset + blocks[b].instructions@.len(), blocks.len() as int);
        },
        InstructionMIRDataView::Return(_) => {},
        _ => {
            lemma_block_starting_at(blocks, blocks[b].start_offset + blocks[b].instructions@.len(), blocks.len() as int);
        },
    }
}

impl ControlFlowGraph {
    pub fn new(instructions: &Vec<InstructionMIR>, blocks: &Vec<BasicBlock>) -> (r: ControlFlowGraph)
        requires
            flow_targets_exist(mir_view(instructions@), blocks@),
        ensures
            is_graph_of(r, mir_view(instructions@), blocks@),
    {
        let ghost s = mir_view(instructions@);
        let branch_label_mapping = create_label_mapping(instructions);
        let m = blocks.len();
        let mut vertices: Vec<usize> = Vec::new();
        let mut edges: Vec<Vec<ControlFlowEdge>> = Vec::new();
        let mut b: usize = 0;
        while b < m
            invariant
                b <= m,
                m == blocks@.len(),
                s == mir_view(instructions@),
                flow_targets_exist(s, blocks@),
                forall|label: BranchLabel| #![trigger branch_label_mapping@.contains_key(label)]
                    match label_position(s, label, s.len() as int) {
                        Some(p) => branch_label_mapping@.contains_key(label) && branch_label_mapping@[label] == p,
                        None => !branch_label_mapping@.contains_key(label),
                    },
                vertices@ == Seq::new(b as nat, |c: int| c as usize),
                edges@.len() == b,
                forall|c: int|
                    0 <= c < b ==> edge_targets((#[trigger] edges@[c])@) == successors(s, blocks@, c) && forall|q: int|
                        0 <= q < edges@[c]@.len() ==> (#[trigger] edges@[c]@[q]).from == c,
            decreases m - b,
        {
            vertices.push(b);
            assert(vertices@ =~= Seq::new((b + 1) as nat, |c: int| c as usize));
            let block_edges = ControlFlowGraph::block_successors(instructions, blocks, &branch_label_mapping, b);
            edges.push(block_edges);
            b = b + 1;
        }
        let mut back_edges: Vec<Vec<ControlFlowEdge>> = Vec::new();
        let mut c: usize = 0;
        while c < m
            invariant
                c <= m,
                m == blocks@.len(),
                back_edges@.len() == c,
                forall|d: int|
                    0 <= d < c ==> edge_targets((#[trigger] back_edges@[d])@) == predecessors_upto(s, blocks@, d, 0) && forall|q: int|
                        0 <= q < back_edges@[d]@.len() ==> (#[trigger] back_edges@[d]@[q]).from == d,
            decreases m - c,
        {
            back_edges.push(Vec::new());
            assert(edge_targets(back_edges@[c as int]@) =~= predecessors_upto(s, blocks@, c as int, 0));
            c = c + 1;
        }
        let mut from: usize = 0;
        while from < m
            invariant
                from <= m,
                m == blocks@.len(),
                s == mir_view(instructions@),
                flow_targets_exist(s, blocks@),
                edges@.len() == m,
                back_edges@.len() == m,
                forall|c: int|
                    0 <= c < m ==> edge_targets((#[trigger] edges@[c])@) == successors(s, blocks@, c) && forall|q: int|
                        0 <= q < edges@[c]@.len() ==> (#[trigger] edges@[c]@[q]).from == c,
                forall|d: int|
                    0 <= d < m ==> edge_targets((#[trigger] back_edges@[d])@) == predecessors_upto(s, blocks@, d, from as int)
                        && forall|q: int| 0 <= q < back_edges@[d]@.len() ==> (#[trigger] back_edges@[d]@[q]).from == d,
            decreases m - from,
        {
            let ghost before = back_edges@;
            let out = &edges[from];
            proof {
                lemma_successors(s, blocks@, from as int);
                assert forall|k: int| 0 <= k < out@.len() implies 0 <= (#[trigger] out@[k]).to < m by {
                    assert(edge_targets(out@)[k] == out@[k].to);
                }
                assert forall|d: int| 0 <= d < m implies edge_targets((#[trigger] back_edges@[d])@) == if edge_targets(out@).take(
                    0,
                ).contains(d) {
                    predecessors_upto(s, blocks@, d, from as int).push(from as int)
                } else {
                    predecessors_upto(s, blocks@, d, from as int)
                } by {
                    assert(edge_targets(out@).take(0) =~= Seq::<int>::empty());
                }
            }
            let mut q: usize = 0;
            while q < out.len()
                invariant
                    q <= out@.len(),
                    from < m,
                    m == blocks@.len(),
                    out@ == edges@[from as int]@,
                    edge_targets(out@) == successors(s, blocks@, from as int),
                    forall|k: int, l: int|
                        0 <= k < l < out@.len() ==> #[trigger] edge_targets(out@)[k] != #[trigger] edge_targets(out@)[l],
                    forall|k: int| 0 <= k < out@.len() ==> 0 <= (#[trigger] out@[k]).to < m,
                    back_edges@.len() == m,
                    forall|d: int|
                        0 <= d < m ==> edge_targets((#[trigger] back_edges@[d])@) == if edge_targets(out@).take(q as int).contains(d) {
                            predecessors_upto(s, blocks@, d, from as int).push(from as int)
                        } else {
                            predecessors_upto(s, blocks@, d, from as int)
                        } && forall|k: int| 0 <= k < back_edges@[d]@.len() ==> (#[trigger] back_edges@[d]@[k]).from == d,
                decreases out@.len() - q,
            {
                let to = out[q].to;
                let ghost prior = back_edges@;
                let mut list = back_edges.remove(to);
                let ghost old_list = list@;
                list.push(ControlFlowEdge { from: to, to: from });
                back_edges.insert(to, list);
                proof {
                    assert(back_edges@ =~= prior.update(to as int, list));
                    assert(edge_targets(out@)[q as int] == to as int);
                    assert forall|d: int| 0 <= d < m implies edge_targets((#[trigger] back_edges@[d])@) == if edge_targets(out@).take(
                        q + 1,
                    ).contains(d) {
                        predecessors_upto(s, blocks@, d, from as int).push(from as int)
                    } else {
                        predecessors_upto(s, blocks@, d, from as int)
                    } && forall|k: int| 0 <= k < back_edges@[d]@.len() ==> (#[trigger] back_edges@[d]@[k]).from == d by {
                        let t = edge_targets(out@);
                        assert(t.take(q + 1) =~= t.take(q as int).push(to as int));
                        if d == to {
                            assert(!t.take(q as int).contains(d)) by {
                                if t.take(q as int).contains(d) {
                                    let k = choose|k: int| 0 <= k < q && #[trigger] t.take(q as int)[k] == d;
                                    assert(t[k] != t[q as int]);
                                }
                            }
                            assert(t.take(q + 1).contains(d)) by {
                                assert(t.take(q + 1)[q as int] == d);
                            }
                            assert(old_list == prior[d]@);
                            assert(edge_targets(prior[d]@) == predecessors_upto(s, blocks@, d, from as int));
                            assert(back_edges@[d] == list);
                            assert(edge_targets(list@) =~= edge_targets(old_list).push(from as int));
                            assert forall|k: int| 0 <= k < back_edges@[d]@.len() implies #[trigger] back_edges@[d]@[k].from == d by {
                                if k < old_list.len() {
                                    assert(back_edges@[d]@[k] == prior[d]@[k]);
                                }
                            }
                        } else {
                            assert(back_edges@[d] == prior[d]);
                            assert(t.take(q + 1).contains(d) == t.take(q as int).contains(d)) by {
                                if t.take(q + 1).contains(d) {
                                    let k = choose|k: int| 0 <= k < q + 1 && #[trigger] t.take(q + 1)[k] == d;
                                    assert(k != q);
                                    assert(t.take(q as int)[k] == d);
                                }
                                if t.take(q as int).contains(d) {
                                    let k = choose|k: int| 0 <= k < q && #[trigger] t.take(q as int)[k] == d;
                                    assert(t.take(q + 1)[k] == d);
                                }
                            }
                        }
                    }
                }
                q = q + 1;
            }
            proof {
                assert forall|d: int| 0 <= d < m implies edge_targets((#[trigger] back_edges@[d])@) == predecessors_upto(
                    s,
                    blocks@,
                    d,
                    from + 1,
                ) by {
                    assert(edge_targets(out@).take(q as int) =~= edge_targets(out@));
                }
            }
            from = from + 1;
        }
        ControlFlowGraph { vertices, edges, back_edges }
    }

    fn block_successors(
        instructions: &Vec<InstructionMIR>,
        blocks: &Vec<BasicBlock>,
        branch_label_mapping: &std::collections::HashMap<BranchLabel, usize>,
        b: usize,
    ) -> (r: Vec<ControlFlowEdge>)
        requires
            b < blocks@.len(),
            flow_targets_exist(mir_view(instructions@), blocks@),
            forall|label: BranchLabel| #![trigger branch_label_mapping@.contains_key(label)]
                match label_position(mir_view(instructions@), label, instructions@.len() as int) {
                    Some(p) => branch_label_mapping@.contains_key(label) && branch_label_mapping@[label] == p,
                    None => !branch_label_mapping@.contains_key(label),
                },
        ensures
            edge_targets(r@) == successors(mir_view(instructions@), blocks@, b as int),
            forall|q: int| 0 <= q < r@.len() ==> (#[trigger] r@[q]).from == b,
    {
        let ghost s = mir_view(instructions@);
        let block = &blocks[b];
        assert(blocks@[b as int].instructions@.len() > 0);
        let last = block.last();
        assert(last < instructions@.len());
        assert(s[last as int] == instructions@[last as int]@);
        let fall_through = block.start_offset + block.instructions.len();
        let mut r: Vec<ControlFlowEdge> = Vec::new();
        match &instructions[last].data {
            InstructionMIRData::Branch(label) => {
                let target = ControlFlowGraph::label_block(blocks, branch_label_mapping, *label, Ghost(s));
                r.push(ControlFlowEdge { from: b, to: target });
            },
            InstructionMIRData::BranchCondition(_, _, label, _, _) => {
                let target = ControlFlowGraph::label_block(blocks, branch_label_mapping, *label, Ghost(s));
                r.push(ControlFlowEdge { from: b, to: target });
                let next = match find_block(blocks, fall_through) {
                    Some(next) => next,
                    None => 0,
                };
                if next != target {
                    r.push(ControlFlowEdge { from: b, to: next });
                }
            },
            InstructionMIRData::Return(_) => {},
            _ => {
                let next = match find_block(blocks, fall_through) {
                    Some(next) => next,
                    None => 0,
                };
                r.push(ControlFlowEdge { from: b, to: next });
            },
        }
        assert(edge_targets(r@) =~= successors(s, blocks@, b as int));
        r
    }

    fn label_block(
        blocks: &Vec<BasicBlock>,
        branch_label_mapping: &std::collections::HashMap<BranchLabel, usize>,
        label: BranchLabel,
        Ghost(s): Ghost<Seq<InstructionMIRView>>,
    ) -> (r: usize)
        requires
            jump_block(s, blocks@, label) is Some,
            forall|l: BranchLabel| #![trigger branch_label_mapping@.contains_key(l)]
                match label_position(s, l, s.len() as int) {
                    Some(p) => branch_label_mapping@.contains_key(l) && branch_label_mapping@[l] == p,
                    None => !branch_label_mapping@.contains_key(l),
                },
        ensures
            r as int == jump_block(s, blocks@, label)->0,
    {
        assert(branch_label_mapping@.contains_key(label));
        let position = match branch_label_mapping.get(&label) {
            Some(p) => *p,
            None => 0,
        };
        match find_block(blocks, position) {
            Some(target) => target,
            None => 0,
        }
    }
}

/// Every edge of the graph leads to a block.
pub open spec fn edges_within(g: ControlFlowGraph, m: int) -> bool {
    &&& g.back_edges@.len() == m
    &&& forall|b: int, q: int|
        0 <= b < m && 0 <= q < g.back_edges@[b]@.len() ==> (#[trigger] g.back_edges@[b]@[q]).to < m
}

proof fn lemma_predecessors_upto(s: Seq<InstructionMIRView>, blocks: Seq<BasicBlock>, c: int, k: int)
    requires
        0 <= k,
    ensures
        forall|b: int| #[trigger] predecessors_upto(s, blocks, c, k).contains(b) <==> 0 <= b < k && successors(s, blocks, b).contains(c),
    decreases k,
{
    if k > 0 {
        lemma_predecessors_upto(s, blocks, c, k - 1);
        let prior = predecessors_upto(s, blocks, c, k - 1);
        let r = predecessors_upto(s, blocks, c, k);
        assert forall|b: int| #[trigger] r.contains(b) <==> 0 <= b < k && successors(s, blocks, b).contains(c) by {
            if successors(s, blocks, k - 1).contains(c) {
                assert(r == prior.push(k - 1));
                if r.contains(b) && b != k - 1 {
                    let q = choose|q: int| 0 <= q < r.len() && r[q] == b;
                    assert(q < prior.len());
                    assert(prior.contains(b));
                }
                if 0 <= b < k && successors(s, blocks, b).contains(c) {
                    if b == k - 1 {
                        assert(r[prior.len() as int] == b);
                    } else {
                        assert(prior.contains(b));
                        let q = choose|q: int| 0 <= q < prior.len() && prior[q] == b;
                        assert(r[q] == b);
                    }
                }
            }
        }
    }
}

/// In the graph of the blocks, each edge leads to a block, and the edges
/// back into a block mirror the edges out of the others: block `c` has a
/// back edge to block `b` exactly when `b` has an edge to `c`.
pub proof fn lemma_graph_edges(g: ControlFlowGraph, s: Seq<InstructionMIRView>, blocks: Seq<BasicBlock>)
    requires
        is_graph_of(g, s, blocks),
    ensures
        edges_within(g, blocks.len() as int),
        forall|b: int, c: int|
            0 <= b < blocks.len() && 0 <= c < blocks.len() ==> (edge_targets((#[trigger] g.edges@[b])@).contains(c)
                <==> edge_targets((#[trigger] g.back_edges@[c])@).contains(b)),
{
    let m = blocks.len() as int;
    assert forall|c: int, q: int| 0 <= c < m && 0 <= q < g.back_edges@[c]@.len() implies (#[trigger] g.back_edges@[c]@[q]).to < m by {
        lemma_predecessors_upto(s, blocks, c, m);
        assert(edge_targets(g.edges@[c]@) == successors(s, blocks, c));
        assert(edge_targets(g.back_edges@[c]@)[q] == g.back_edges@[c]@[q].to as int);
        assert(predecessors(s, blocks, c).contains(g.back_edges@[c]@[q].to as int));
    }
    assert forall|b: int, c: int| 0 <= b < m && 0 <= c < m implies (edge_targets((#[trigger] g.edges@[b])@).contains(c)
        <==> edge_targets((#[trigger] g.back_edges@[c])@).contains(b)) by {
        lemma_predecessors_upto(s, blocks, c, m);
        assert(edge_targets(g.edges@[b]@) == successors(s, blocks, b));
        assert(edge_targets(g.edges@[c]@) == successors(s, blocks, c));
        assert(edge_targets(g.back_edges@[c]@) == predecessors(s, blocks, c));
    }
}


/// Control leaves a block by its last instruction: after a conditional
/// branch it may go to the block of the branch's label or fall through to
/// the next block, after an unconditional branch only to the label's
/// block, after a return nowhere, and after any other instruction to the
/// next block; no block is a successor twice.
pub proof fn law_block_successors(s: Seq<InstructionMIRView>, blocks: Seq<BasicBlock>, b: int)
    ensures
        ({
            let next = next_block(blocks, b)->0;
            let succ = successors(s, blocks, b);
            &&& succ.no_duplicates()
            &&& match last_data(s, blocks, b) {
                InstructionMIRDataView::BranchCondition(_, _, label, _, _) => {
                    let target = jump_block(s, blocks, label)->0;
                    &&& succ.contains(target)
                    &&& succ.contains(next)
                    &&& forall|c: int| #[trigger] succ.contains(c) ==> c == target || c == next
                },
                InstructionMIRDataView::Branch(label) => succ == seq![jump_block(s, blocks, label)->0],
                InstructionMIRDataView::Return(_) => succ.len() == 0,
                _ => succ == seq![next],
            }
        }),
{
    let succ = successors(s, blocks, b);
    if let InstructionMIRDataView::BranchCondition(_, _, label, _, _) = last_data(s, blocks, b) {
        let target = jump_block(s, blocks, label)->0;
        let next = next_block(blocks, b)->0;
        if target == next {
            assert(succ[0] == target);
        } else {
            assert(succ[0] == target);
            assert(succ[1] == next);
        }
    }
}

} // verus!
