//! Basic blocks: maximal runs of instructions that are entered only at
//! their first instruction. A block starts at the first instruction, at
//! each branch target, and after each branch or return.
use vstd::prelude::*;
use crate::compiler::ir::BranchLabel;
use crate::mir::{InstructionMIR, InstructionMIRData, InstructionMIRView, InstructionMIRDataView, mir_view};
use crate::mir::branches::{create_label_mapping, label_position};

verus! {

broadcast use vstd::std_specs::hash::group_hash_axioms;

/// A block: the index of its first instruction and the indices of its instructions.
pub struct BasicBlock {
    pub start_offset: usize,
    pub instructions: Vec<usize>,
}

pub open spec fn ends_flow(d: InstructionMIRDataView) -> bool {
    d is Branch || d is BranchCondition || d is Return
}

/// The label that a branch jumps to.
pub open spec fn jump_label(d: InstructionMIRDataView) -> Option<BranchLabel> {
    match d {
        InstructionMIRDataView::Branch(label) => Some(label),
        InstructionMIRDataView::BranchCondition(_, _, label, _, _) => Some(label),
        _ => None,
    }
}

/// Instruction `i` is the target of a branch at `j`.
pub open spec fn targeted_by(s: Seq<InstructionMIRView>, j: int, i: int) -> bool {
    &&& jump_label(s[j].data) is Some
    &&& label_position(s, jump_label(s[j].data)->0, s.len() as int) == Some(i)
}

/// Instruction `i` starts a block when it is the first instruction, the
/// target of a branch other than the first instruction, or follows a branch
/// or return that is not the first instruction, without being one itself.
pub open spec fn is_leader(s: Seq<InstructionMIRView>, i: int) -> bool {
    ||| i == 0 && s.len() > 0
    ||| exists|j: int| 1 <= j < s.len() && #[trigger] targeted_by(s, j, i)
    ||| 2 <= i < s.len() && !ends_flow(s[i].data) && ends_flow(s[i - 1].data)
}

/// Every branch after the first instruction jumps to a label that is placed.
pub open spec fn labels_placed(s: Seq<InstructionMIRView>) -> bool {
    forall|j: int|
        1 <= j < s.len() && #[trigger] jump_label(s[j].data) is Some ==> label_position(s, jump_label(s[j].data)->0, s.len() as int)
            is Some
}

/// The leaders among the first `k` instruction indices, in increasing order.
pub open spec fn leaders_upto(s: Seq<InstructionMIRView>, k: int) -> Seq<int>
    decreases k,
{
    if k <= 0 {
        Seq::empty()
    } else if is_leader(s, k - 1) {
        leaders_upto(s, k - 1).push(k - 1)
    } else {
        leaders_upto(s, k - 1)
    }
}

/// The leaders of the instructions, in increasing order.
pub open spec fn leaders(s: Seq<InstructionMIRView>) -> Seq<int> {
    leaders_upto(s, s.len() as int)
}

/// The indices `from..to`.
pub open spec fn index_range(from: int, to: int) -> Seq<usize> {
    Seq::new((to - from) as nat, |q: int| (from + q) as usize)
}

/// The end (exclusive) of block `b`: the next leader, or the end of the instructions.
pub open spec fn block_end(s: Seq<InstructionMIRView>, b: int) -> int {
    if b + 1 < leaders(s).len() {
        leaders(s)[b + 1]
    } else {
        s.len() as int
    }
}

pub proof fn lemma_leaders_upto(s: Seq<InstructionMIRView>, k: int)
    requires
        0 <= k <= s.len(),
    ensures
        forall|a: int| 0 <= a < leaders_upto(s, k).len() ==> 0 <= #[trigger] leaders_upto(s, k)[a] < k,
        forall|a: int, b: int| 0 <= a < b < leaders_upto(s, k).len() ==> #[trigger] leaders_upto(s, k)[a] < #[trigger] leaders_upto(s, k)[b],
        forall|i: int| 0 <= i < k && is_leader(s, i) ==> #[trigger] leaders_upto(s, k).contains(i),
        k > 0 && s.len() > 0 ==> leaders_upto(s, k).len() > 0 && leaders_upto(s, k)[0] == 0,
    decreases k,
{
    if k > 0 {
        lemma_leaders_upto(s, k - 1);
        let prev = leaders_upto(s, k - 1);
        assert forall|i: int| 0 <= i < k && is_leader(s, i) implies #[trigger] leaders_upto(s, k).contains(i) by {
            if i < k - 1 {
                assert(prev.contains(i));
                let q = choose|q: int| 0 <= q < prev.len() && prev[q] == i;
                assert(leaders_upto(s, k)[q] == i);
            } else {
                assert(leaders_upto(s, k).last() == i);
            }
        }
        if k - 1 == 0 && s.len() > 0 {
            assert(is_leader(s, 0));
        }
    }
}

proof fn lemma_labels_distinct_positions(s: Seq<InstructionMIRView>, label: BranchLabel, n: int)
    requires
        0 <= n <= s.len(),
    ensures
        match label_position(s, label, n) {
            Some(p) => 0 <= p < n && s[p].data == InstructionMIRDataView::BranchLabel(label),
            None => true,
        },
    decreases n,
{
    if n > 0 {
        lemma_labels_distinct_positions(s, label, n - 1);
    }
}

impl BasicBlock {
    /// The index of the first instruction.
    pub fn first(&self) -> (r: usize)
        requires
            self.instructions@.len() > 0,
        ensures
            r == self.instructions@[0],
    {
        self.instructions[0]
    }

    /// The index of the last instruction.
    pub fn last(&self) -> (r: usize)
        requires
            self.instructions@.len() > 0,
        ensures
            r == self.instructions@.last(),
    {
        self.instructions[self.instructions.len() - 1]
    }

    /// Marks the leaders of the instructions.
    fn find_leader_marks(instructions: &Vec<InstructionMIR>) -> (r: Vec<bool>)
        requires
            labels_placed(mir_view(instructions@)),
        ensures
            r@.len() == instructions@.len(),
            forall|i: int| 0 <= i < r@.len() ==> #[trigger] r@[i] == is_leader(mir_view(instructions@), i),
    {
        let ghost s = mir_view(instructions@);
        let n = instructions.len();
        let branch_label_mapping = create_label_mapping(instructions);
        let mut marks: Vec<bool> = Vec::new();
        let mut i: usize = 0;
        while i < n
            invariant
                i <= n,
                n == instructions@.len(),
                marks@.len() == i,
                forall|q: int| 0 <= q < i ==> !#[trigger] marks@[q],
            decreases n - i,
        {
            marks.push(false);
            i = i + 1;
        }
        let mut prev_is_branch = false;
        let mut k: usize = 0;
        while k < n
            invariant
                k <= n,
                n == instructions@.len(),
                s == mir_view(instructions@),
                labels_placed(s),
                marks@.len() == n,
                forall|label: BranchLabel| #![trigger branch_label_mapping@.contains_key(label)]
                    match label_position(s, label, n as int) {
                        Some(p) => branch_label_mapping@.contains_key(label) && branch_label_mapping@[label] == p,
                        None => !branch_label_mapping@.contains_key(label),
                    },
                prev_is_branch == (k >= 2 && ends_flow(s[k - 1].data)),
                forall|p: int|
                    0 <= p < n ==> #[trigger] marks@[p] == (p == 0 && k > 0 || (exists|j: int| 1 <= j < k && #[trigger] targeted_by(s, j, p))
                        || 2 <= p < k && !ends_flow(s[p].data) && ends_flow(s[p - 1].data)),
            decreases n - k,
        {
            let ghost before = marks@;
            assert(s[k as int] == instructions@[k as int]@);
            if k == 0 {
                marks.set(0, true);
                proof {
                    assert forall|p: int| 0 <= p < n implies #[trigger] marks@[p] == (p == 0 && k + 1 > 0 || (exists|j: int|
                        1 <= j < k + 1 && #[trigger] targeted_by(s, j, p)) || 2 <= p < k + 1 && !ends_flow(s[p].data) && ends_flow(
                        s[p - 1].data)) by {
                        if p != 0 {
                            assert(marks@[p] == before[p]);
                        }
                    }
                }
                k = k + 1;
                continue;
            }
            let label = match &instructions[k].data {
                InstructionMIRData::Branch(label) => Some(*label),
                InstructionMIRData::BranchCondition(_, _, label, _, _) => Some(*label),
                _ => None,
            };
            let is_return = match &instructions[k].data {
                InstructionMIRData::Return(_) => true,
                _ => false,
            };
            match label {
                Some(label) => {
                    assert(jump_label(s[k as int].data) == Some(label));
                    assert(label_position(s, label, n as int) is Some);
                    proof {
                        lemma_labels_distinct_positions(s, label, n as int);
                    }
                    let target = match branch_label_mapping.get(&label) {
                        Some(p) => *p,
                        None => 0,
                    };
                    marks.set(target, true);
                    prev_is_branch = true;
                    proof {
                        assert(targeted_by(s, k as int, target as int));
                        assert forall|p: int| 0 <= p < n implies #[trigger] marks@[p] == (p == 0 && k + 1 > 0 || (exists|j: int|
                            1 <= j < k + 1 && #[trigger] targeted_by(s, j, p)) || 2 <= p < k + 1 && !ends_flow(s[p].data)
                            && ends_flow(s[p - 1].data)) by {
                            if p != target {
                                assert(marks@[p] == before[p]);
                                if exists|j: int| 1 <= j < k + 1 && #[trigger] targeted_by(s, j, p) {
                                    let j = choose|j: int| 1 <= j < k + 1 && #[trigger] targeted_by(s, j, p);
                                    if j == k {
                                        assert(label_position(s, label, n as int) == Some(p));
                                    }
                                }
                            }
                        }
                    }
                    k = k + 1;
                    continue;
                },
                None => {},
            }
            if is_return {
                prev_is_branch = true;
                proof {
                    assert forall|p: int| 0 <= p < n implies #[trigger] marks@[p] == (p == 0 && k + 1 > 0 || (exists|j: int|
                        1 <= j < k + 1 && #[trigger] targeted_by(s, j, p)) || 2 <= p < k + 1 && !ends_flow(s[p].data) && ends_flow(
                        s[p - 1].data)) by {
                        if exists|j: int| 1 <= j < k + 1 && #[trigger] targeted_by(s, j, p) {
                            let j = choose|j: int| 1 <= j < k + 1 && #[trigger] targeted_by(s, j, p);
                            if j == k {
                                assert(jump_label(s[k as int].data) is None);
                            }
                        }
                    }
                }
                k = k + 1;
                continue;
            }
            if prev_is_branch {
                marks.set(k, true);
                prev_is_branch = false;
            }
            proof {
                assert(!ends_flow(s[k as int].data));
                assert forall|p: int| 0 <= p < n implies #[trigger] marks@[p] == (p == 0 && k + 1 > 0 || (exists|j: int|
                    1 <= j < k + 1 && #[trigger] targeted_by(s, j, p)) || 2 <= p < k + 1 && !ends_flow(s[p].data) && ends_flow(
                    s[p - 1].data)) by {
                    if p != k {
                        assert(marks@[p] == before[p]);
                    }
                    if exists|j: int| 1 <= j < k + 1 && #[trigger] targeted_by(s, j, p) {
                        let j = choose|j: int| 1 <= j < k + 1 && #[trigger] targeted_by(s, j, p);
                        if j == k {
                            assert(jump_label(s[k as int].data) is None);
                        }
                    }
                }
            }
            k = k + 1;
        }
        marks
    }

    /// The leaders of the instructions, in increasing order.
    fn find_leaders(instructions: &Vec<InstructionMIR>) -> (r: Vec<usize>)
        requires
            labels_placed(mir_view(instructions@)),
        ensures
            r@.len() == leaders(mir_view(instructions@)).len(),
            forall|b: int| 0 <= b < r@.len() ==> #[trigger] r@[b] as int == leaders(mir_view(instructions@))[b],
    {
        let ghost s = mir_view(instructions@);
        let marks = BasicBlock::find_leader_marks(instructions);
        let mut leaders_found: Vec<usize> = Vec::new();
        let mut i: usize = 0;
        while i < marks.len()
            invariant
                i <= marks@.len(),
                marks@.len() == instructions@.len(),
                s == mir_view(instructions@),
                forall|q: int| 0 <= q < marks@.len() ==> #[trigger] marks@[q] == is_leader(s, q),
                leaders_found@.len() == leaders_upto(s, i as int).len(),
                forall|b: int| 0 <= b < leaders_found@.len() ==> #[trigger] leaders_found@[b] as int == leaders_upto(s, i as int)[b],
            decreases marks@.len() - i,
        {
            if marks[i] {
                leaders_found.push(i);
            }
            i = i + 1;
        }
        leaders_found
    }

    /// Splits the instructions into basic blocks, one per leader: each block
    /// runs from its leader up to the next leader or the end.
    pub fn create_blocks(instructions: &Vec<InstructionMIR>) -> (r: Vec<BasicBlock>)
        requires
            labels_placed(mir_view(instructions@)),
        ensures
            created_blocks(r@, mir_view(instructions@)),
            blocks_partition(r@, instructions@.len() as int),
            flatten_blocks(r@, r@.len() as int) == index_range(0, instructions@.len() as int),
    {
        let ghost s = mir_view(instructions@);
        let leaders_found = BasicBlock::find_leaders(instructions);
        proof {
            lemma_leaders_upto(s, s.len() as int);
        }
        let n = instructions.len();
        let mut blocks: Vec<BasicBlock> = Vec::new();
        let mut b: usize = 0;
        while b < leaders_found.len()
            invariant
                b <= leaders_found@.len(),
                n == s.len(),
                s == mir_view(instructions@),
                leaders_found@.len() == leaders(s).len(),
                forall|c: int| 0 <= c < leaders_found@.len() ==> #[trigger] leaders_found@[c] as int == leaders(s)[c],
                forall|c: int| 0 <= c < leaders(s).len() ==> 0 <= #[trigger] leaders(s)[c] < s.len(),
                forall|c: int, d: int| 0 <= c < d < leaders(s).len() ==> #[trigger] leaders(s)[c] < #[trigger] leaders(s)[d],
                blocks@.len() == b,
                forall|c: int|
                    0 <= c < b ==> (#[trigger] blocks@[c]).start_offset == leaders(s)[c] && blocks@[c].instructions@ == index_range(
                        leaders(s)[c],
                        block_end(s, c),
                    ),
            decreases leaders_found@.len() - b,
        {
            let leader = leaders_found[b];
            let end = if b + 1 < leaders_found.len() {
                leaders_found[b + 1]
            } else {
                n
            };
            assert(end as int == block_end(s, b as int));
            let mut block_instructions: Vec<usize> = Vec::new();
            let mut instruction_index = leader;
            while instruction_index < end
                invariant
                    leader <= instruction_index <= end,
                    block_instructions@ == index_range(leader as int, instruction_index as int),
                decreases end - instruction_index,
            {
                block_instructions.push(instruction_index);
                instruction_index = instruction_index + 1;
                assert(block_instructions@ =~= index_range(leader as int, instruction_index as int));
            }
            blocks.push(BasicBlock { start_offset: leader, instructions: block_instructions });
            b = b + 1;
        }
        proof {
            lemma_created_blocks_partition(blocks@, s);
        }
        blocks
    }

    /// The instruction indices of the blocks, block after block.
    pub fn linearize(blocks: &Vec<BasicBlock>) -> (r: Vec<usize>)
        ensures
            r@ == flatten_blocks(blocks@, blocks@.len() as int),
    {
        let mut instructions: Vec<usize> = Vec::new();
        let mut b: usize = 0;
        while b < blocks.len()
            invariant
                b <= blocks@.len(),
                instructions@ == flatten_blocks(blocks@, b as int),
            decreases blocks@.len() - b,
        {
            let block_instructions = &blocks[b].instructions;
            let ghost before = instructions@;
            let mut q: usize = 0;
            while q < block_instructions.len()
                invariant
                    q <= block_instructions@.len(),
                    instructions@ == before + block_instructions@.take(q as int),
                decreases block_instructions@.len() - q,
            {
                instructions.push(block_instructions[q]);
                q = q + 1;
                assert(instructions@ =~= before + block_instructions@.take(q as int));
            }
            assert(block_instructions@.take(q as int) =~= block_instructions@);
            b = b + 1;
        }
        instructions
    }
}

/// The instruction indices of the first `n` blocks, block after block.
pub open spec fn flatten_blocks(blocks: Seq<BasicBlock>, n: int) -> Seq<usize>
    decreases n,
{
    if n <= 0 {
        Seq::empty()
    } else {
        flatten_blocks(blocks, n - 1) + blocks[n - 1].instructions@
    }
}

/// The blocks are non-empty runs of consecutive instructions that cover
/// the `n` instructions in order.
pub open spec fn blocks_partition(blocks: Seq<BasicBlock>, n: int) -> bool {
    &&& n == 0 <==> blocks.len() == 0
    &&& blocks.len() > 0 ==> blocks[0].start_offset == 0
    &&& blocks.len() > 0 ==> blocks.last().start_offset + blocks.last().instructions@.len() == n
    &&& forall|b: int|
        0 <= b < blocks.len() ==> {
            &&& (#[trigger] blocks[b]).instructions@.len() > 0
            &&& blocks[b].instructions@ == index_range(
                blocks[b].start_offset as int,
                blocks[b].start_offset + blocks[b].instructions@.len(),
            )
        }
    &&& forall|b: int|
        0 <= b < blocks.len() - 1 ==> #[trigger] blocks[b + 1].start_offset == blocks[b].start_offset
            + blocks[b].instructions@.len()
}

/// The blocks that [`BasicBlock::create_blocks`] makes of the instructions:
/// one per leader, running from it up to the next leader or the end.
pub open spec fn created_blocks(blocks: Seq<BasicBlock>, s: Seq<InstructionMIRView>) -> bool {
    &&& blocks.len() == leaders(s).len()
    &&& forall|b: int|
        0 <= b < blocks.len() ==> (#[trigger] blocks[b]).start_offset == leaders(s)[b] && blocks[b].instructions@ == index_range(
            leaders(s)[b],
            block_end(s, b),
        )
}

/// The blocks made of the instructions cover them once each, in order:
/// laid end to end they give back every instruction index.
pub proof fn lemma_created_blocks_partition(blocks: Seq<BasicBlock>, s: Seq<InstructionMIRView>)
    requires
        created_blocks(blocks, s),
    ensures
        blocks_partition(blocks, s.len() as int),
        flatten_blocks(blocks, blocks.len() as int) == index_range(0, s.len() as int),
{
    let n = s.len() as int;
    let l = leaders(s);
    lemma_leaders_upto(s, n);
    assert(l == leaders_upto(s, n));
    let m = blocks.len() as int;
    if n == 0 {
        assert(l.len() == 0) by {
            if l.len() > 0 {
                assert(0 <= l[0] < n);
            }
        }
    }
    assert forall|b: int| 0 <= b < m implies {
        &&& (#[trigger] blocks[b]).instructions@.len() > 0
        &&& blocks[b].instructions@ == index_range(
            blocks[b].start_offset as int,
            blocks[b].start_offset + blocks[b].instructions@.len(),
        )
        &&& blocks[b].start_offset + blocks[b].instructions@.len() == block_end(s, b)
    } by {
        assert(0 <= l[b] < n);
        if b + 1 < m {
            assert(l[b] < l[b + 1]);
        }
    }
    assert forall|b: int| 0 <= b < m - 1 implies #[trigger] blocks[b + 1].start_offset == blocks[b].start_offset
        + blocks[b].instructions@.len() by {
        assert(blocks[b].start_offset + blocks[b].instructions@.len() == block_end(s, b));
    }
    if m > 0 {
        assert(blocks[m - 1].start_offset + blocks[m - 1].instructions@.len() == block_end(s, m - 1));
    }
    lemma_flatten_created(blocks, s, m);
}

proof fn lemma_flatten_created(blocks: Seq<BasicBlock>, s: Seq<InstructionMIRView>, b: int)
    requires
        created_blocks(blocks, s),
        0 <= b <= blocks.len(),
        forall|c: int| 0 <= c < blocks.len() ==> (#[trigger] blocks[c]).start_offset + blocks[c].instructions@.len() == block_end(s, c),
    ensures
        flatten_blocks(blocks, b) == index_range(0, if b < blocks.len() { leaders(s)[b] } else { s.len() as int }),
    decreases b,
{
    let n = s.len() as int;
    lemma_leaders_upto(s, n);
    if b == 0 {
        if blocks.len() > 0 {
            assert(leaders(s)[0] == 0);
        } else {
            assert(leaders(s).len() == 0);
            if n > 0 {
                assert(leaders_upto(s, n).len() > 0);
            }
        }
        assert(index_range(0, if 0 < blocks.len() { leaders(s)[0] } else { n }) =~= Seq::<usize>::empty());
    } else {
        lemma_flatten_created(blocks, s, b - 1);
        let from = leaders(s)[b - 1];
        let to = block_end(s, b - 1);
        assert(to == if b < blocks.len() { leaders(s)[b] } else { n });
        assert(0 <= from <= to);
        assert(index_range(0, from) + index_range(from, to) =~= index_range(0, to));
    }
}

} // verus!
