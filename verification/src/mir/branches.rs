//! Branch labels: every distinct branch target of a function gets a label,
//! numbered in the order in which the targets first occur.
use vstd::prelude::*;
use std::collections::HashMap;
use crate::compiler::ir::BranchLabel;
use crate::model::instruction::{Instruction, BranchTarget, spec_branch_target};
use crate::mir::{InstructionMIR, InstructionMIRData, InstructionMIRView, InstructionMIRDataView, mir_view};

verus! {

broadcast use vstd::std_specs::hash::group_hash_axioms;

/// The labels given to the targets of the first `n` instructions, and the
/// next free label.
pub open spec fn labels_spec(instructions: Seq<Instruction>, n: int) -> (Map<BranchTarget, BranchLabel>, nat)
    decreases n,
{
    if n <= 0 {
        (Map::empty(), 0)
    } else {
        let (labels, next) = labels_spec(instructions, n - 1);
        match spec_branch_target(instructions[n - 1]) {
            Some(target) => if labels.contains_key(target) {
                (labels, next)
            } else {
                (labels.insert(target, next as BranchLabel), next + 1)
            },
            None => (labels, next),
        }
    }
}

/// The next free label never exceeds the number of instructions read, and
/// every label given is below it.
pub proof fn lemma_labels_bounded(instructions: Seq<Instruction>, n: int)
    requires
        0 <= n,
    ensures
        labels_spec(instructions, n).1 <= n,
        forall|t: BranchTarget| #[trigger] labels_spec(instructions, n).0.contains_key(t) ==> labels_spec(instructions, n).0[t]
            < labels_spec(instructions, n).1,
    decreases n,
{
    if n > 0 {
        lemma_labels_bounded(instructions, n - 1);
    }
}

/// Two targets never share a label.
pub proof fn lemma_labels_distinct(instructions: Seq<Instruction>, n: int, a: BranchTarget, b: BranchTarget)
    requires
        0 <= n,
        n <= u32::MAX,
        labels_spec(instructions, n).0.contains_key(a),
        labels_spec(instructions, n).0.contains_key(b),
        a != b,
    ensures
        labels_spec(instructions, n).0[a] != labels_spec(instructions, n).0[b],
    decreases n,
{
    lemma_labels_bounded(instructions, n - 1);
    let (labels, next) = labels_spec(instructions, n - 1);
    if labels.contains_key(a) && labels.contains_key(b) {
        lemma_labels_distinct(instructions, n - 1, a, b);
    }
}

/// A target has a label exactly when one of the instructions read branches to it.
pub proof fn lemma_labels_are_targets(instructions: Seq<Instruction>, n: int, t: BranchTarget)
    requires
        0 <= n <= instructions.len(),
    ensures
        labels_spec(instructions, n).0.contains_key(t) <==> exists|k: int|
            0 <= k < n && spec_branch_target(#[trigger] instructions[k]) == Some(t),
    decreases n,
{
    if n > 0 {
        lemma_labels_are_targets(instructions, n - 1, t);
        if labels_spec(instructions, n - 1).0.contains_key(t) {
            let k = choose|k: int| 0 <= k < n - 1 && spec_branch_target(#[trigger] instructions[k]) == Some(t);
            assert(0 <= k < n && spec_branch_target(instructions[k]) == Some(t));
        }
        if spec_branch_target(instructions[n - 1]) == Some(t) {
            assert(0 <= n - 1 < n && spec_branch_target(instructions[n - 1]) == Some(t));
        }
    }
}

/// Gives every branch target of a function a label.
pub struct BranchManager {
    branch_labels: HashMap<BranchTarget, BranchLabel>,
    next_branch_label: BranchLabel,
}

impl BranchManager {
    /// The label of each branch target; its keys are the branch targets.
    pub closed spec fn labels(&self) -> Map<BranchTarget, BranchLabel> {
        self.branch_labels@
    }

    pub closed spec fn next_label(&self) -> nat {
        self.next_branch_label as nat
    }

    pub fn new() -> (r: BranchManager)
        ensures
            r.labels() == Map::<BranchTarget, BranchLabel>::empty(),
            r.next_label() == 0,
    {
        BranchManager { branch_labels: HashMap::new(), next_branch_label: 0 }
    }

    /// Labels the targets of `instructions` that have none yet, in the
    /// order in which they occur.
    pub fn define_branch_labels(&mut self, instructions: &Vec<Instruction>)
        requires
            old(self).labels() == Map::<BranchTarget, BranchLabel>::empty(),
            old(self).next_label() == 0,
            instructions@.len() <= u32::MAX,
        ensures
            (final(self).labels(), final(self).next_label()) == labels_spec(instructions@, instructions@.len() as int),
            forall|t: BranchTarget|
                #[trigger] final(self).labels().contains_key(t) <==> exists|k: int|
                    0 <= k < instructions@.len() && spec_branch_target(#[trigger] instructions@[k]) == Some(t),
    {
        let mut i: usize = 0;
        while i < instructions.len()
            invariant
                i <= instructions@.len(),
                instructions@.len() <= u32::MAX,
                (self.labels(), self.next_label()) == labels_spec(instructions@, i as int),
            decreases instructions@.len() - i,
        {
            proof {
                lemma_labels_bounded(instructions@, i as int);
            }
            match instructions[i].branch_target() {
                Some(target) => {
                    if !self.branch_labels.contains_key(&target) {
                        let label = self.next_branch_label;
                        self.next_branch_label = self.next_branch_label + 1;
                        self.branch_labels.insert(target, label);
                    }
                },
                None => {},
            }
            i = i + 1;
        }
        proof {
            assert forall|t: BranchTarget|
                #[trigger] self.labels().contains_key(t) <==> exists|k: int|
                    0 <= k < instructions@.len() && spec_branch_target(#[trigger] instructions@[k]) == Some(t) by {
                lemma_labels_are_targets(instructions@, instructions@.len() as int, t);
            }
        }
    }

    /// The label of the instruction at `instruction_index` when it is a branch target.
    pub fn is_branch(&self, instruction_index: usize) -> (r: Option<BranchLabel>)
        ensures
            r == (if self.labels().contains_key(instruction_index as BranchTarget) {
                Some(self.labels()[instruction_index as BranchTarget])
            } else {
                None
            }),
    {
        let branch_target = instruction_index as BranchTarget;
        match self.branch_labels.get(&branch_target) {
            Some(label) => Some(*label),
            None => None,
        }
    }

    /// The label of a branch target.
    pub fn get_label(&self, target: BranchTarget) -> (r: Option<BranchLabel>)
        ensures
            r == (if self.labels().contains_key(target) {
                Some(self.labels()[target])
            } else {
                None
            }),
    {
        match self.branch_labels.get(&target) {
            Some(label) => Some(*label),
            None => None,
        }
    }
}

/// The position of the last `BranchLabel(label)` among the first `n` instructions.
pub open spec fn label_position(instructions: Seq<InstructionMIRView>, label: BranchLabel, n: int) -> Option<int>
    decreases n,
{
    if n <= 0 {
        None
    } else if instructions[n - 1].data == InstructionMIRDataView::BranchLabel(label) {
        Some(n - 1)
    } else {
        label_position(instructions, label, n - 1)
    }
}

/// Maps each label of the instructions to the position of its `BranchLabel`
/// instruction (the last one, when a label occurs twice).
pub fn create_label_mapping(instructions: &Vec<InstructionMIR>) -> (r: HashMap<BranchLabel, usize>)
    ensures
        forall|label: BranchLabel| #![trigger r@.contains_key(label)]
            match label_position(mir_view(instructions@), label, instructions@.len() as int) {
                Some(p) => r@.contains_key(label) && r@[label] == p,
                None => !r@.contains_key(label),
            },
{
    let ghost s = mir_view(instructions@);
    let mut mapping: HashMap<BranchLabel, usize> = HashMap::new();
    let mut i: usize = 0;
    while i < instructions.len()
        invariant
            i <= instructions@.len(),
            s == mir_view(instructions@),
            forall|label: BranchLabel| #![trigger mapping@.contains_key(label)]
                match label_position(s, label, i as int) {
                    Some(p) => mapping@.contains_key(label) && mapping@[label] == p,
                    None => !mapping@.contains_key(label),
                },
        decreases instructions@.len() - i,
    {
        match &instructions[i].data {
            InstructionMIRData::BranchLabel(label) => {
                mapping.insert(*label, i);
            },
            _ => {},
        }
        proof {
            assert forall|label: BranchLabel| #![trigger mapping@.contains_key(label)]
                match label_position(s, label, i + 1) {
                    Some(p) => mapping@.contains_key(label) && mapping@[label] == p,
                    None => !mapping@.contains_key(label),
                } by {
                assert(s[i as int] == instructions@[i as int]@);
            }
        }
        i = i + 1;
    }
    mapping
}

} // verus!
