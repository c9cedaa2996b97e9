//! Peephole rewriting of the intermediate representation: within each
//! basic block, an instruction reads a local directly in place of a copy of
//! it made earlier in the block, and a value is written straight into a
//! local in place of being copied there by the next instruction.
use vstd::prelude::*;
use crate::mir::{InstructionMIR, InstructionMIRData, InstructionMIRDataView, InstructionMIRView, RegisterMIR, RegisterMIRView, mir_view, registers_view, assign_register_spec, use_registers_spec, with_use_register, with_assign_register, lemma_with_use_register};
use crate::mir::compiler::{MIRCompilationResult, stacks_view};
use crate::analysis::basic_block::{BasicBlock, flatten_blocks};
use crate::analysis::{determine_instructions_operand_stack, operand_stacks_spec};
use crate::analysis::liveness::false_marks;

verus! {

/// Which copies to and from locals the rewriting removes.
pub struct PeepholeSettings {
    pub remove_load_local: bool,
    pub remove_store_local: bool,
}

impl Default for PeepholeSettings {
    fn default() -> (r: Self)
        ensures
            r.remove_load_local,
            r.remove_store_local,
    {
        PeepholeSettings { remove_load_local: true, remove_store_local: true }
    }
}

impl PeepholeSettings {
    pub fn remove_only_load_local() -> (r: PeepholeSettings)
        ensures
            r.remove_load_local,
            !r.remove_store_local,
    {
        PeepholeSettings { remove_load_local: true, remove_store_local: false }
    }

    pub fn remove_only_store_local() -> (r: PeepholeSettings)
        ensures
            !r.remove_load_local,
            r.remove_store_local,
    {
        PeepholeSettings { remove_load_local: false, remove_store_local: true }
    }
}

/// A copy of a local into a register that a later read in the block may
/// replace by the local: the register, the local and the index of the copy.
pub type LoadTargetView = (RegisterMIRView, RegisterMIRView, int);

/// The copies without those into register `r`.
pub open spec fn without_target(t: Seq<LoadTargetView>, r: RegisterMIRView) -> Seq<LoadTargetView>
    decreases t.len(),
{
    if t.len() == 0 {
        t
    } else if t.last().0 == r {
        without_target(t.drop_last(), r)
    } else {
        without_target(t.drop_last(), r).push(t.last())
    }
}

/// The local and the copy index of the last copy into register `r`.
pub open spec fn find_target(t: Seq<LoadTargetView>, r: RegisterMIRView) -> Option<(RegisterMIRView, int)>
    decreases t.len(),
{
    if t.len() == 0 {
        None
    } else if t.last().0 == r {
        Some((t.last().1, t.last().2))
    } else {
        find_target(t.drop_last(), r)
    }
}

/// The first `k` read registers of `d` taken in turn: each that holds a
/// copy of a local is replaced by the local, the copy is forgotten and
/// marked for removal.
pub open spec fn rewrite_uses(d: InstructionMIRDataView, t: Seq<LoadTargetView>, removed: Set<int>, k: int) -> (
    InstructionMIRDataView,
    Seq<LoadTargetView>,
    Set<int>,
)
    decreases k,
{
    if k <= 0 {
        (d, t, removed)
    } else {
        let prior = rewrite_uses(d, t, removed, k - 1);
        let op = use_registers_spec(prior.0)[k - 1];
        match find_target(prior.1, op) {
            Some(found) => (with_use_register(prior.0, k - 1, found.0), without_target(prior.1, op), prior.2.insert(found.1)),
            None => prior,
        }
    }
}

/// The copies without those into the first `k` registers of `uses`.
pub open spec fn remove_uses(t: Seq<LoadTargetView>, uses: Seq<RegisterMIRView>, k: int) -> Seq<LoadTargetView>
    decreases k,
{
    if k <= 0 {
        t
    } else {
        without_target(remove_uses(t, uses, k - 1), uses[k - 1])
    }
}

/// What the rewriting of a block knows after some of its instructions: the
/// data of all instructions, the copies of locals that later reads may
/// replace, the instructions to remove, and the register that the previous
/// instruction wrote with its index.
pub struct PeepholeState {
    pub data: Seq<InstructionMIRDataView>,
    pub targets: Seq<LoadTargetView>,
    pub removed: Set<int>,
    pub prev: Option<(RegisterMIRView, int)>,
}

/// Rewriting instruction `i`. A copy of a local into a register is noted
/// (when copies of locals are removed); a copy into a local forgets the
/// copies into that local; any other instruction reads each noted register
/// from its local instead. The copies into the registers the instruction
/// then reads are forgotten. When copies into locals are removed, a copy
/// into a local of the register that the previous instruction wrote makes
/// that instruction write the local directly, and is removed.
pub open spec fn load_store_step(st: PeepholeState, i: int, locals: Seq<RegisterMIRView>, settings: PeepholeSettings) -> PeepholeState {
    store_step(st, i, copy_step(st, i, locals, settings), locals, settings)
}

/// The first part of rewriting instruction `i`: its data after its reads
/// are rewritten, the copies of locals noted, and the instructions to remove.
pub open spec fn copy_step(st: PeepholeState, i: int, locals: Seq<RegisterMIRView>, settings: PeepholeSettings) -> (
    InstructionMIRDataView,
    Seq<LoadTargetView>,
    Set<int>,
) {
    let d = st.data[i];
    match d {
        InstructionMIRDataView::Move(destination, source) => if locals.contains(source) {
            (
                d,
                if settings.remove_load_local {
                    without_target(st.targets, destination).push((destination, source, i))
                } else {
                    st.targets
                },
                st.removed,
            )
        } else if locals.contains(destination) {
            (d, without_target(st.targets, destination), st.removed)
        } else {
            rewrite_uses(d, st.targets, st.removed, use_registers_spec(d).len() as int)
        },
        _ => rewrite_uses(d, st.targets, st.removed, use_registers_spec(d).len() as int),
    }
}

/// The rest of rewriting instruction `i`, from the outcome `first` of [`copy_step`].
pub open spec fn store_step(
    st: PeepholeState,
    i: int,
    first: (InstructionMIRDataView, Seq<LoadTargetView>, Set<int>),
    locals: Seq<RegisterMIRView>,
    settings: PeepholeSettings,
) -> PeepholeState {
    let d1 = first.0;
    let targets = remove_uses(first.1, use_registers_spec(d1), use_registers_spec(d1).len() as int);
    let data1 = st.data.update(i, d1);
    if settings.remove_store_local {
        let second: (Seq<InstructionMIRDataView>, Set<int>) = match d1 {
            InstructionMIRDataView::Move(destination, source) => if locals.contains(destination) && st.prev is Some
                && (st.prev->0).0 == source {
                (data1.update((st.prev->0).1, with_assign_register(data1[(st.prev->0).1], destination)), first.2.insert(i))
            } else {
                (data1, first.2)
            },
            _ => (data1, first.2),
        };
        PeepholeState {
            data: second.0,
            targets,
            removed: second.1,
            prev: match assign_register_spec(second.0[i]) {
                Some(a) => Some((a, i)),
                None => None,
            },
        }
    } else {
        PeepholeState { data: data1, targets, removed: first.2, prev: st.prev }
    }
}

/// The state after rewriting the first `k` instructions of a block with indices `indices`.
pub open spec fn block_pass(
    st: PeepholeState,
    indices: Seq<usize>,
    k: int,
    locals: Seq<RegisterMIRView>,
    settings: PeepholeSettings,
) -> PeepholeState
    decreases k,
{
    if k <= 0 {
        st
    } else {
        load_store_step(block_pass(st, indices, k - 1, locals, settings), indices[k - 1] as int, locals, settings)
    }
}

/// The state in which the rewriting of a block starts.
pub open spec fn block_start(data: Seq<InstructionMIRDataView>) -> PeepholeState {
    PeepholeState { data, targets: Seq::empty(), removed: Set::empty(), prev: None }
}

/// The indices that are not to be removed, in order.
pub open spec fn retained(indices: Seq<usize>, removed: Set<int>) -> Seq<usize>
    decreases indices.len(),
{
    if indices.len() == 0 {
        indices
    } else if removed.contains(indices.last() as int) {
        retained(indices.drop_last(), removed)
    } else {
        retained(indices.drop_last(), removed).push(indices.last())
    }
}

/// The data of the instructions.
pub open spec fn data_view(s: Seq<InstructionMIR>) -> Seq<InstructionMIRDataView> {
    s.map_values(|x: InstructionMIR| x.data@)
}

struct LoadTarget {
    destination: RegisterMIR,
    source: RegisterMIR,
    load_index: usize,
}

spec fn targets_view(v: Seq<LoadTarget>) -> Seq<LoadTargetView> {
    v.map_values(|t: LoadTarget| (t.destination@, t.source@, t.load_index as int))
}

/// Removes the copies into `register`, and gives the local and index of the last one.
fn take_target(targets: &mut Vec<LoadTarget>, register: &RegisterMIR) -> (r: Option<(RegisterMIR, usize)>)
    ensures
        targets_view(final(targets)@) == without_target(targets_view(old(targets)@), register@),
        match r {
            Some(found) => find_target(targets_view(old(targets)@), register@) == Some((found.0@, found.1 as int)),
            None => find_target(targets_view(old(targets)@), register@) is None,
        },
{
    let ghost entry = targets_view(targets@);
    let mut kept: Vec<LoadTarget> = Vec::new();
    let mut found: Option<(RegisterMIR, usize)> = None;
    let mut i: usize = 0;
    while i < targets.len()
        invariant
            i <= targets@.len(),
            entry == targets_view(targets@),
            targets_view(kept@) == without_target(entry.take(i as int), register@),
            match found {
                Some(f) => find_target(entry.take(i as int), register@) == Some((f.0@, f.1 as int)),
                None => find_target(entry.take(i as int), register@) is None,
            },
        decreases targets@.len() - i,
    {
        let t = &targets[i];
        proof {
            assert(entry.take(i + 1).drop_last() =~= entry.take(i as int));
            assert(entry.take(i + 1).last() == entry[i as int]);
        }
        if t.destination.is_same(register) {
            found = Some((t.source.clone(), t.load_index));
        } else {
            let ghost before = kept@;
            kept.push(LoadTarget { destination: t.destination.clone(), source: t.source.clone(), load_index: t.load_index });
            proof {
                assert(targets_view(kept@) =~= targets_view(before).push(entry[i as int]));
            }
        }
        i = i + 1;
    }
    proof {
        assert(entry.take(i as int) =~= entry);
    }
    *targets = kept;
    found
}

/// Whether `register` is one of the locals.
fn contains_register(locals: &Vec<RegisterMIR>, register: &RegisterMIR) -> (r: bool)
    ensures
        r == registers_view(locals@).contains(register@),
{
    let mut k: usize = 0;
    while k < locals.len()
        invariant
            k <= locals@.len(),
            forall|j: int| 0 <= j < k ==> registers_view(locals@)[j] != register@,
        decreases locals@.len() - k,
    {
        if locals[k].is_same(register) {
            assert(registers_view(locals@)[k as int] == register@);
            return true;
        }
        k = k + 1;
    }
    false
}


/// Every noted copy has an instruction index below `n`.
pub open spec fn targets_bounded(t: Seq<LoadTargetView>, n: int) -> bool {
    forall|q: int| 0 <= q < t.len() ==> 0 <= (#[trigger] t[q]).2 < n
}

/// The facts that rewriting an instruction of `n` instructions relies on:
/// the register noted as written by the previous instruction is the one it writes.
pub open spec fn state_ready(st: PeepholeState, n: int) -> bool {
    &&& st.data.len() == n
    &&& targets_bounded(st.targets, n)
    &&& forall|p: int| #[trigger] st.removed.contains(p) ==> 0 <= p < n
    &&& st.prev is Some ==> 0 <= (st.prev->0).1 < n && assign_register_spec(st.data[(st.prev->0).1]) == Some((st.prev->0).0)
}

proof fn lemma_without_target(t: Seq<LoadTargetView>, r: RegisterMIRView, n: int)
    requires
        targets_bounded(t, n),
    ensures
        targets_bounded(without_target(t, r), n),
        match find_target(t, r) {
            Some(found) => 0 <= found.1 < n,
            None => true,
        },
    decreases t.len(),
{
    if t.len() > 0 {
        assert(targets_bounded(t.drop_last(), n)) by {
            assert forall|q: int| 0 <= q < t.drop_last().len() implies 0 <= (#[trigger] t.drop_last()[q]).2 < n by {
                assert(t.drop_last()[q] == t[q]);
            }
        }
        lemma_without_target(t.drop_last(), r, n);
        assert(t.last() == t[t.len() - 1]);
    }
}

proof fn lemma_remove_uses(t: Seq<LoadTargetView>, uses: Seq<RegisterMIRView>, k: int, n: int)
    requires
        targets_bounded(t, n),
        0 <= k <= uses.len(),
    ensures
        targets_bounded(remove_uses(t, uses, k), n),
    decreases k,
{
    if k > 0 {
        lemma_remove_uses(t, uses, k - 1, n);
        lemma_without_target(remove_uses(t, uses, k - 1), uses[k - 1], n);
    }
}

proof fn lemma_rewrite_uses(d: InstructionMIRDataView, t: Seq<LoadTargetView>, removed: Set<int>, k: int, n: int)
    requires
        0 <= k <= use_registers_spec(d).len(),
        targets_bounded(t, n),
        forall|p: int| #[trigger] removed.contains(p) ==> 0 <= p < n,
    ensures
        use_registers_spec(rewrite_uses(d, t, removed, k).0).len() == use_registers_spec(d).len(),
        forall|j: int| k <= j < use_registers_spec(d).len() ==> #[trigger] use_registers_spec(rewrite_uses(d, t, removed, k).0)[j]
            == use_registers_spec(d)[j],
        assign_register_spec(rewrite_uses(d, t, removed, k).0) == assign_register_spec(d),
        targets_bounded(rewrite_uses(d, t, removed, k).1, n),
        forall|p: int| #[trigger] rewrite_uses(d, t, removed, k).2.contains(p) ==> 0 <= p < n,
    decreases k,
{
    if k > 0 {
        lemma_rewrite_uses(d, t, removed, k - 1, n);
        let prior = rewrite_uses(d, t, removed, k - 1);
        let op = use_registers_spec(prior.0)[k - 1];
        lemma_without_target(prior.1, op, n);
        match find_target(prior.1, op) {
            Some(found) => {
                lemma_with_use_register(prior.0, k - 1, found.0);
            },
            None => {},
        }
    }
}


/// The instructions to remove, marked by index.
pub open spec fn removed_set(marks: Seq<bool>) -> Set<int> {
    Set::new(|p: int| 0 <= p < marks.len() && marks[p])
}

spec fn prev_view(prev: Option<(RegisterMIR, usize)>) -> Option<(RegisterMIRView, int)> {
    match prev {
        Some(x) => Some((x.0@, x.1 as int)),
        None => None,
    }
}

spec fn exec_state(
    instructions: Seq<InstructionMIR>,
    targets: Seq<LoadTarget>,
    removed: Seq<bool>,
    prev: Option<(RegisterMIR, usize)>,
) -> PeepholeState {
    PeepholeState {
        data: data_view(instructions),
        targets: targets_view(targets),
        removed: removed_set(removed),
        prev: prev_view(prev),
    }
}

/// Marks instruction `p` for removal.
fn mark_removed(removed: &mut Vec<bool>, p: usize)
    requires
        p < old(removed)@.len(),
    ensures
        final(removed)@.len() == old(removed)@.len(),
        removed_set(final(removed)@) == removed_set(old(removed)@).insert(p as int),
{
    removed.set(p, true);
    proof {
        assert(removed_set(removed@) =~= removed_set(old(removed)@).insert(p as int));
    }
}

/// Reads each noted register of instruction `i` from its local instead.
fn rewrite_instruction_uses(
    instructions: &mut Vec<InstructionMIR>,
    targets: &mut Vec<LoadTarget>,
    removed: &mut Vec<bool>,
    i: usize,
)
    requires
        i < old(instructions)@.len(),
        old(removed)@.len() == old(instructions)@.len(),
        targets_bounded(targets_view(old(targets)@), old(instructions)@.len() as int),
    ensures
        final(instructions)@.len() == old(instructions)@.len(),
        forall|p: int| 0 <= p < final(instructions)@.len() ==> (#[trigger] final(instructions)@[p]).index == old(instructions)@[p].index,
        final(removed)@.len() == old(removed)@.len(),
        data_view(final(instructions)@) == data_view(old(instructions)@).update(i as int, data_view(final(instructions)@)[i as int]),
        (data_view(final(instructions)@)[i as int], targets_view(final(targets)@), removed_set(final(removed)@)) == rewrite_uses(
            old(instructions)@[i as int].data@,
            targets_view(old(targets)@),
            removed_set(old(removed)@),
            use_registers_spec(old(instructions)@[i as int].data@).len() as int,
        ),
{
    let ghost d0 = instructions@[i as int].data@;
    let ghost t0 = targets_view(targets@);
    let ghost r0 = removed_set(removed@);
    let ghost n = instructions@.len() as int;
    let ghost entry = instructions@;
    let count = instructions[i].data.use_registers().len();
    let mut k: usize = 0;
    while k < count
        invariant
            i < instructions@.len(),
            instructions@.len() == n,
            removed@.len() == n,
            entry.len() == n,
            d0 == entry[i as int].data@,
            count == use_registers_spec(d0).len(),
            k <= count,
            forall|p: int| 0 <= p < n ==> (#[trigger] instructions@[p]).index == entry[p].index,
            data_view(instructions@) == data_view(entry).update(i as int, data_view(instructions@)[i as int]),
            (data_view(instructions@)[i as int], targets_view(targets@), removed_set(removed@)) == rewrite_uses(d0, t0, r0, k as int),
            targets_bounded(t0, n),
            forall|p: int| #[trigger] r0.contains(p) ==> 0 <= p < n,
        decreases count - k,
    {
        proof {
            lemma_rewrite_uses(d0, t0, r0, k as int, n);
            lemma_without_target(targets_view(targets@), use_registers_spec(data_view(instructions@)[i as int])[k as int], n);
        }
        let uses = instructions[i].data.use_registers();
        assert(instructions@[i as int].data@ == data_view(instructions@)[i as int]);
        let op = uses[k].clone();
        assert(op@ == use_registers_spec(data_view(instructions@)[i as int])[k as int]);
        let ghost before = instructions@;
        let ghost prior = rewrite_uses(d0, t0, r0, k as int);
        let ghost prior_targets = targets_view(targets@);
        let ghost prior_removed = removed_set(removed@);
        assert(prior == (before[i as int].data@, prior_targets, prior_removed));
        match take_target(targets, &op) {
            Some(found) => {
                let (source, load_index) = found;
                instructions[i].data.replace_use_register(k, source);
                mark_removed(removed, load_index);
                proof {
                    assert(data_view(instructions@) =~= data_view(before).update(i as int, data_view(instructions@)[i as int]));
                    assert(data_view(instructions@) =~= data_view(entry).update(i as int, data_view(instructions@)[i as int]));
                    assert(data_view(instructions@)[i as int] == with_use_register(prior.0, k as int, source@));
                    assert(rewrite_uses(d0, t0, r0, k + 1) == (
                        with_use_register(prior.0, k as int, source@),
                        without_target(prior.1, op@),
                        prior.2.insert(load_index as int),
                    ));
                }
            },
            None => {
                proof {
                    lemma_no_target(prior_targets, op@);
                }
                assert(rewrite_uses(d0, t0, r0, k + 1) == prior);
                assert(data_view(instructions@)[i as int] == before[i as int].data@);
            },
        }
        k = k + 1;
    }
}


/// Without a copy into `r`, forgetting the copies into `r` changes nothing.
proof fn lemma_no_target(t: Seq<LoadTargetView>, r: RegisterMIRView)
    requires
        find_target(t, r) is None,
    ensures
        without_target(t, r) == t,
    decreases t.len(),
{
    if t.len() > 0 {
        lemma_no_target(t.drop_last(), r);
        assert(t.drop_last().push(t.last()) =~= t);
    }
}

/// Forgets the copies into the registers that instruction `i` reads.
fn forget_read_registers(instructions: &Vec<InstructionMIR>, targets: &mut Vec<LoadTarget>, i: usize)
    requires
        i < instructions@.len(),
    ensures
        targets_view(final(targets)@) == remove_uses(
            targets_view(old(targets)@),
            use_registers_spec(instructions@[i as int].data@),
            use_registers_spec(instructions@[i as int].data@).len() as int,
        ),
{
    let uses = instructions[i].data.use_registers();
    let ghost u = use_registers_spec(instructions@[i as int].data@);
    let ghost t0 = targets_view(targets@);
    let mut k: usize = 0;
    while k < uses.len()
        invariant
            k <= uses@.len(),
            registers_view(uses@) == u,
            targets_view(targets@) == remove_uses(t0, u, k as int),
        decreases uses@.len() - k,
    {
        assert(uses@[k as int]@ == u[k as int]);
        take_target(targets, &uses[k]);
        k = k + 1;
    }
}

/// Rewrites instruction `i` of a block: one step of [`load_store_step`].
fn rewrite_instruction(
    instructions: &mut Vec<InstructionMIR>,
    targets: &mut Vec<LoadTarget>,
    removed: &mut Vec<bool>,
    prev: &mut Option<(RegisterMIR, usize)>,
    i: usize,
    locals: &Vec<RegisterMIR>,
    settings: &PeepholeSettings,
)
    requires
        i < old(instructions)@.len(),
        old(removed)@.len() == old(instructions)@.len(),
        state_ready(exec_state(old(instructions)@, old(targets)@, old(removed)@, *old(prev)), old(instructions)@.len() as int),
    ensures
        final(instructions)@.len() == old(instructions)@.len(),
        forall|p: int| 0 <= p < final(instructions)@.len() ==> (#[trigger] final(instructions)@[p]).index == old(instructions)@[p].index,
        final(removed)@.len() == old(removed)@.len(),
        exec_state(final(instructions)@, final(targets)@, final(removed)@, *final(prev)) == load_store_step(
            exec_state(old(instructions)@, old(targets)@, old(removed)@, *old(prev)),
            i as int,
            registers_view(locals@),
            *settings,
        ),
        state_ready(exec_state(final(instructions)@, final(targets)@, final(removed)@, *final(prev)), old(instructions)@.len() as int),
{
    let ghost st = exec_state(instructions@, targets@, removed@, *prev);
    let ghost n = instructions@.len() as int;
    let ghost lv = registers_view(locals@);
    let ghost entry = instructions@;
    let ghost first = copy_step(st, i as int, lv, *settings);
    assert(st.data[i as int] == instructions@[i as int].data@);
    let mut other = false;
    match &instructions[i].data {
        InstructionMIRData::Move(destination, source) => {
            if contains_register(locals, source) {
                if settings.remove_load_local {
                    let destination = destination.clone();
                    let source = source.clone();
                    take_target(targets, &destination);
                    let ghost kept = targets@;
                    targets.push(LoadTarget { destination, source, load_index: i });
                    proof {
                        assert(targets_view(targets@) =~= targets_view(kept).push((destination@, source@, i as int)));
                    }
                }
            } else if contains_register(locals, destination) {
                take_target(targets, destination);
            } else {
                other = true;
            }
        },
        _ => {
            other = true;
        },
    }
    if other {
        rewrite_instruction_uses(instructions, targets, removed, i);
    }
    proof {
        lemma_rewrite_uses(st.data[i as int], st.targets, st.removed, use_registers_spec(st.data[i as int]).len() as int, n);
        lemma_without_target(st.targets, first.0->Move_0, n);
        assert(data_view(instructions@) =~= st.data.update(i as int, first.0));
        assert(targets_view(targets@) == first.1);
        assert(removed_set(removed@) == first.2);
        assert(targets_bounded(first.1, n));
    }
    forget_read_registers(instructions, targets, i);
    let ghost after_first = instructions@;
    if settings.remove_store_local {
        let mut rewrite: Option<(usize, RegisterMIR)> = None;
        match &instructions[i].data {
            InstructionMIRData::Move(destination, source) => {
                if contains_register(locals, destination) {
                    match prev {
                        Some(p) => {
                            if p.0.is_same(source) {
                                rewrite = Some((p.1, destination.clone()));
                            }
                        },
                        None => {},
                    }
                }
            },
            _ => {},
        }
        match rewrite {
            Some(found) => {
                let (previous_index, destination) = found;
                assert(instructions@[previous_index as int].data@ == st.data.update(i as int, first.0)[previous_index as int]);
                instructions[previous_index].data.replace_assign_register(destination);
                mark_removed(removed, i);
            },
            None => {},
        }
        let assigned = instructions[i].data.assign_register();
        *prev = match assigned {
            Some(a) => Some((a, i)),
            None => None,
        };
    }
    proof {
        assert(data_view(after_first) =~= st.data.update(i as int, first.0));
        let data = data_view(instructions@);
        if settings.remove_store_local {
            assert(data[i as int] == instructions@[i as int].data@);
        }
        let target = load_store_step(st, i as int, lv, *settings);
        assert(data =~= target.data);
        assert(exec_state(instructions@, targets@, removed@, *prev) == target);
        lemma_remove_uses(first.1, use_registers_spec(first.0), use_registers_spec(first.0).len() as int, n);
        assert(assign_register_spec(first.0) == assign_register_spec(st.data[i as int]));
        if !settings.remove_store_local && st.prev is Some {
            let pi = (st.prev->0).1;
            if pi != i {
                assert(data[pi] == st.data[pi]);
            }
        }
    }
}

proof fn lemma_retained(indices: Seq<usize>, removed: Set<int>, n: int)
    requires
        forall|q: int| 0 <= q < indices.len() ==> #[trigger] indices[q] < n,
    ensures
        forall|q: int| 0 <= q < retained(indices, removed).len() ==> #[trigger] retained(indices, removed)[q] < n,
    decreases indices.len(),
{
    if indices.len() > 0 {
        lemma_retained(indices.drop_last(), removed, n);
        assert(indices.last() == indices[indices.len() - 1]);
        let prior = retained(indices.drop_last(), removed);
        assert forall|q: int| 0 <= q < retained(indices, removed).len() implies #[trigger] retained(indices, removed)[q] < n by {
            if q < prior.len() {
                assert(retained(indices, removed)[q] == prior[q]);
            }
        }
    }
}

/// Rewrites the instructions of one block, and drops from the block the
/// instructions that the rewriting made unnecessary.
fn remove_unnecessary_local_for_block(
    compilation_result: &mut MIRCompilationResult,
    local_registers: &Vec<RegisterMIR>,
    basic_block: &mut BasicBlock,
    settings: &PeepholeSettings,
)
    requires
        forall|q: int|
            0 <= q < old(basic_block).instructions@.len() ==> #[trigger] old(basic_block).instructions@[q]
                < old(compilation_result).instructions@.len(),
    ensures
        final(compilation_result).instructions@.len() == old(compilation_result).instructions@.len(),
        forall|p: int|
            0 <= p < final(compilation_result).instructions@.len() ==> (#[trigger] final(compilation_result).instructions@[p]).index
                == old(compilation_result).instructions@[p].index,
        final(compilation_result).local_virtual_registers == old(compilation_result).local_virtual_registers,
        final(compilation_result).instructions_operand_stack == old(compilation_result).instructions_operand_stack,
        final(compilation_result).num_virtual_registers == old(compilation_result).num_virtual_registers,
        final(basic_block).start_offset == old(basic_block).start_offset,
        ({
            let st = block_pass(
                block_start(data_view(old(compilation_result).instructions@)),
                old(basic_block).instructions@,
                old(basic_block).instructions@.len() as int,
                registers_view(local_registers@),
                *settings,
            );
            &&& data_view(final(compilation_result).instructions@) == st.data
            &&& final(basic_block).instructions@ == retained(old(basic_block).instructions@, st.removed)
        }),
{
    let n = compilation_result.instructions.len();
    let ghost entry = compilation_result.instructions@;
    let ghost indices = basic_block.instructions@;
    let ghost lv = registers_view(local_registers@);
    let mut targets: Vec<LoadTarget> = Vec::new();
    let mut removed = false_marks(n);
    let mut prev: Option<(RegisterMIR, usize)> = None;
    proof {
        assert(removed_set(removed@) =~= Set::empty());
        assert(targets_view(targets@) =~= Seq::empty());
        assert(data_view(entry).len() == n);
    }
    let mut k: usize = 0;
    while k < basic_block.instructions.len()
        invariant
            k <= indices.len(),
            indices == basic_block.instructions@,
            n == entry.len(),
            compilation_result.instructions@.len() == n,
            removed@.len() == n,
            forall|q: int| 0 <= q < indices.len() ==> #[trigger] indices[q] < n,
            forall|p: int| 0 <= p < n ==> (#[trigger] compilation_result.instructions@[p]).index == entry[p].index,
            compilation_result.local_virtual_registers == old(compilation_result).local_virtual_registers,
            compilation_result.instructions_operand_stack == old(compilation_result).instructions_operand_stack,
            compilation_result.num_virtual_registers == old(compilation_result).num_virtual_registers,
            entry == old(compilation_result).instructions@,
            lv == registers_view(local_registers@),
            exec_state(compilation_result.instructions@, targets@, removed@, prev) == block_pass(
                block_start(data_view(entry)),
                indices,
                k as int,
                lv,
                *settings,
            ),
            state_ready(exec_state(compilation_result.instructions@, targets@, removed@, prev), n as int),
        decreases indices.len() - k,
    {
        let i = basic_block.instructions[k];
        rewrite_instruction(
            &mut compilation_result.instructions,
            &mut targets,
            &mut removed,
            &mut prev,
            i,
            local_registers,
            settings,
        );
        k = k + 1;
    }
    let ghost st = exec_state(compilation_result.instructions@, targets@, removed@, prev);
    let mut kept: Vec<usize> = Vec::new();
    let mut q: usize = 0;
    while q < basic_block.instructions.len()
        invariant
            q <= indices.len(),
            indices == basic_block.instructions@,
            removed@.len() == n,
            forall|j: int| 0 <= j < indices.len() ==> #[trigger] indices[j] < n,
            st.removed == removed_set(removed@),
            kept@ == retained(indices.take(q as int), st.removed),
        decreases indices.len() - q,
    {
        let index = basic_block.instructions[q];
        proof {
            assert(indices.take(q + 1).drop_last() =~= indices.take(q as int));
            assert(indices.take(q + 1).last() == index);
        }
        if !removed[index] {
            kept.push(index);
        }
        q = q + 1;
    }
    proof {
        assert(indices.take(q as int) =~= indices);
    }
    basic_block.instructions = kept;
}


/// The data of the instructions and the instruction lists of the first `b`
/// blocks after the blocks are rewritten one after the other.
pub open spec fn blocks_pass(
    data: Seq<InstructionMIRDataView>,
    blocks: Seq<BasicBlock>,
    b: int,
    locals: Seq<RegisterMIRView>,
    settings: PeepholeSettings,
) -> (Seq<InstructionMIRDataView>, Seq<Seq<usize>>)
    decreases b,
{
    if b <= 0 {
        (data, Seq::empty())
    } else {
        let prior = blocks_pass(data, blocks, b - 1, locals, settings);
        let indices = blocks[b - 1].instructions@;
        let st = block_pass(block_start(prior.0), indices, indices.len() as int, locals, settings);
        (st.data, prior.1.push(retained(indices, st.removed)))
    }
}

/// The first `k` instructions whose indices are listed, in order.
pub open spec fn keep_listed(s: Seq<InstructionMIRView>, listed: Seq<usize>, k: int) -> Seq<InstructionMIRView>
    decreases k,
{
    if k <= 0 {
        Seq::empty()
    } else if listed.contains((k - 1) as usize) {
        keep_listed(s, listed, k - 1).push(s[k - 1])
    } else {
        keep_listed(s, listed, k - 1)
    }
}

/// Every instruction index of the blocks is below `n`.
pub open spec fn blocks_within(blocks: Seq<BasicBlock>, n: int) -> bool {
    forall|b: int, q: int|
        0 <= b < blocks.len() && 0 <= q < blocks[b].instructions@.len() ==> #[trigger] blocks[b].instructions@[q] < n
}

/// Rewrites the blocks one after the other (see [`load_store_step`]), drops
/// from each block the instructions made unnecessary, keeps only the
/// instructions that some block still lists, and computes their operand
/// stacks anew.
pub fn remove_unnecessary_locals(
    compilation_result: &mut MIRCompilationResult,
    basic_blocks: &mut Vec<BasicBlock>,
    settings: &PeepholeSettings,
)
    requires
        blocks_within(old(basic_blocks)@, old(compilation_result).instructions@.len() as int),
    ensures
        ({
            let before = old(compilation_result).instructions@;
            let outcome = blocks_pass(
                data_view(before),
                old(basic_blocks)@,
                old(basic_blocks)@.len() as int,
                registers_view(old(compilation_result).local_virtual_registers@),
                *settings,
            );
            let rewritten = Seq::new(
                before.len(),
                |p: int| InstructionMIRView { index: before[p].index as int, data: outcome.0[p] },
            );
            &&& final(basic_blocks)@.len() == old(basic_blocks)@.len()
            &&& forall|b: int|
                0 <= b < final(basic_blocks)@.len() ==> (#[trigger] final(basic_blocks)@[b]).start_offset
                    == old(basic_blocks)@[b].start_offset && final(basic_blocks)@[b].instructions@ == outcome.1[b]
            &&& mir_view(final(compilation_result).instructions@) == keep_listed(
                rewritten,
                flatten_blocks(final(basic_blocks)@, final(basic_blocks)@.len() as int),
                before.len() as int,
            )
        }),
        final(compilation_result).local_virtual_registers == old(compilation_result).local_virtual_registers,
        final(compilation_result).num_virtual_registers == old(compilation_result).num_virtual_registers,
        stacks_view(final(compilation_result).instructions_operand_stack@) == operand_stacks_spec(
            mir_view(final(compilation_result).instructions@),
            registers_view(final(compilation_result).local_virtual_registers@),
        ).0,
{
    let ghost entry = compilation_result.instructions@;
    let ghost entry_blocks = basic_blocks@;
    let ghost lv = registers_view(compilation_result.local_virtual_registers@);
    let n = compilation_result.instructions.len();
    let m = basic_blocks.len();
    let local_registers = crate::mir::clone_registers(&compilation_result.local_virtual_registers);
    let mut b: usize = 0;
    while b < m
        invariant
            b <= m,
            m == basic_blocks@.len(),
            m == entry_blocks.len(),
            n == entry.len(),
            compilation_result.instructions@.len() == n,
            forall|p: int| 0 <= p < n ==> (#[trigger] compilation_result.instructions@[p]).index == entry[p].index,
            compilation_result.local_virtual_registers == old(compilation_result).local_virtual_registers,
            compilation_result.num_virtual_registers == old(compilation_result).num_virtual_registers,
            registers_view(local_registers@) == lv,
            lv == registers_view(old(compilation_result).local_virtual_registers@),
            entry == old(compilation_result).instructions@,
            entry_blocks == old(basic_blocks)@,
            blocks_within(entry_blocks, n as int),
            forall|c: int| b <= c < m ==> #[trigger] basic_blocks@[c] == entry_blocks[c],
            forall|c: int|
                0 <= c < b ==> (#[trigger] basic_blocks@[c]).start_offset == entry_blocks[c].start_offset
                    && basic_blocks@[c].instructions@ == blocks_pass(data_view(entry), entry_blocks, b as int, lv, *settings).1[c],
            forall|c: int, q: int|
                0 <= c < b && 0 <= q < basic_blocks@[c].instructions@.len() ==> #[trigger] basic_blocks@[c].instructions@[q] < n,
            data_view(compilation_result.instructions@) == blocks_pass(data_view(entry), entry_blocks, b as int, lv, *settings).0,
            blocks_pass(data_view(entry), entry_blocks, b as int, lv, *settings).1.len() == b,
        decreases m - b,
    {
        let ghost before_blocks = basic_blocks@;
        let ghost prior = blocks_pass(data_view(entry), entry_blocks, b as int, lv, *settings);
        assert(forall|q: int|
            0 <= q < entry_blocks[b as int].instructions@.len() ==> #[trigger] entry_blocks[b as int].instructions@[q] < n);
        let mut block = basic_blocks.remove(b);
        remove_unnecessary_local_for_block(compilation_result, &local_registers, &mut block, settings);
        basic_blocks.insert(b, block);
        proof {
            let st = block_pass(
                block_start(prior.0),
                entry_blocks[b as int].instructions@,
                entry_blocks[b as int].instructions@.len() as int,
                lv,
                *settings,
            );
            lemma_retained(entry_blocks[b as int].instructions@, st.removed, n as int);
            assert(basic_blocks@ =~= before_blocks.update(b as int, basic_blocks@[b as int]));
        }
        b = b + 1;
    }
    let ghost outcome = blocks_pass(data_view(entry), entry_blocks, m as int, lv, *settings);
    let ghost rewritten = Seq::new(
        entry.len(),
        |p: int| InstructionMIRView { index: entry[p].index as int, data: outcome.0[p] },
    );
    proof {
        assert(mir_view(compilation_result.instructions@) =~= rewritten);
    }
    let listed = BasicBlock::linearize(basic_blocks);
    let ghost flat = flatten_blocks(basic_blocks@, m as int);
    proof {
        lemma_flatten_within(basic_blocks@, m as int, n as int);
    }
    let mut marks = false_marks(n);
    let mut q: usize = 0;
    while q < listed.len()
        invariant
            q <= listed@.len(),
            listed@ == flat,
            marks@.len() == n,
            forall|j: int| 0 <= j < flat.len() ==> #[trigger] flat[j] < n,
            forall|p: int| 0 <= p < n ==> (#[trigger] marks@[p] <==> flat.take(q as int).contains(p as usize)),
        decreases listed@.len() - q,
    {
        let index = listed[q];
        marks.set(index, true);
        proof {
            assert(flat.take(q + 1) =~= flat.take(q as int).push(index));
            assert forall|p: int| 0 <= p < n implies (#[trigger] marks@[p] <==> flat.take(q + 1).contains(p as usize)) by {
                if p == index as int {
                    assert(flat.take(q + 1)[q as int] == index);
                } else if flat.take(q + 1).contains(p as usize) {
                    let j = choose|j: int| 0 <= j < q + 1 && #[trigger] flat.take(q + 1)[j] == p as usize;
                    assert(flat.take(q as int)[j] == p as usize);
                } else if flat.take(q as int).contains(p as usize) {
                    let j = choose|j: int| 0 <= j < q && #[trigger] flat.take(q as int)[j] == p as usize;
                    assert(flat.take(q + 1)[j] == p as usize);
                }
            }
        }
        q = q + 1;
    }
    proof {
        assert(flat.take(q as int) =~= flat);
    }
    let mut remaining: Vec<InstructionMIR> = Vec::new();
    std::mem::swap(&mut remaining, &mut compilation_result.instructions);
    let mut kept: Vec<InstructionMIR> = Vec::new();
    let mut p: usize = 0;
    while p < n
        invariant
            p <= n,
            n == rewritten.len(),
            marks@.len() == n,
            forall|j: int| 0 <= j < n ==> (#[trigger] marks@[j] <==> flat.contains(j as usize)),
            mir_view(remaining@) == rewritten.skip(p as int),
            mir_view(kept@) == keep_listed(rewritten, flat, p as int),
        decreases n - p,
    {
        let ghost before = remaining@;
        assert(mir_view(before).len() == before.len());
        assert(before.len() == n - p);
        assert(mir_view(before)[0] == rewritten.skip(p as int)[0]);
        assert(before[0]@ == rewritten[p as int]);
        let instruction = remaining.remove(0);
        proof {
            assert(remaining@ =~= before.subrange(1, before.len() as int));
            assert forall|j: int| 0 <= j < remaining@.len() implies mir_view(remaining@)[j] == rewritten.skip(p + 1)[j] by {
                assert(remaining@[j] == before[j + 1]);
                assert(mir_view(before)[j + 1] == rewritten.skip(p as int)[j + 1]);
            }
            assert(mir_view(remaining@) =~= rewritten.skip(p + 1));
        }
        if marks[p] {
            let ghost prior = kept@;
            kept.push(instruction);
            proof {
                assert(mir_view(kept@) =~= mir_view(prior).push(rewritten[p as int]));
            }
        }
        p = p + 1;
    }
    compilation_result.instructions = kept;
    compilation_result.instructions_operand_stack = determine_instructions_operand_stack(compilation_result);
}

proof fn lemma_flatten_within(blocks: Seq<BasicBlock>, b: int, n: int)
    requires
        0 <= b <= blocks.len(),
        forall|c: int, q: int| 0 <= c < b && 0 <= q < blocks[c].instructions@.len() ==> #[trigger] blocks[c].instructions@[q] < n,
    ensures
        forall|j: int| 0 <= j < flatten_blocks(blocks, b).len() ==> #[trigger] flatten_blocks(blocks, b)[j] < n,
    decreases b,
{
    if b > 0 {
        lemma_flatten_within(blocks, b - 1, n);
        let prior = flatten_blocks(blocks, b - 1);
        assert forall|j: int| 0 <= j < flatten_blocks(blocks, b).len() implies #[trigger] flatten_blocks(blocks, b)[j] < n by {
            if j >= prior.len() {
                assert(flatten_blocks(blocks, b)[j] == blocks[b - 1].instructions@[j - prior.len()]);
            } else {
                assert(flatten_blocks(blocks, b)[j] == prior[j]);
            }
        }
    }
}


proof fn lemma_rewrite_uses_without_targets(d: InstructionMIRDataView, removed: Set<int>, k: int)
    ensures
        rewrite_uses(d, Seq::empty(), removed, k) == (d, Seq::<LoadTargetView>::empty(), removed),
    decreases k,
{
    if k > 0 {
        lemma_rewrite_uses_without_targets(d, removed, k - 1);
    }
}

proof fn lemma_remove_uses_without_targets(uses: Seq<RegisterMIRView>, k: int)
    ensures
        remove_uses(Seq::empty(), uses, k) == Seq::<LoadTargetView>::empty(),
    decreases k,
{
    if k > 0 {
        lemma_remove_uses_without_targets(uses, k - 1);
    }
}

proof fn lemma_block_pass_disabled(
    data: Seq<InstructionMIRDataView>,
    indices: Seq<usize>,
    k: int,
    locals: Seq<RegisterMIRView>,
    settings: PeepholeSettings,
)
    requires
        !settings.remove_load_local,
        !settings.remove_store_local,
        0 <= k <= indices.len(),
        forall|q: int| 0 <= q < indices.len() ==> #[trigger] indices[q] < data.len(),
    ensures
        block_pass(block_start(data), indices, k, locals, settings) == block_start(data),
    decreases k,
{
    if k > 0 {
        lemma_block_pass_disabled(data, indices, k - 1, locals, settings);
        let st = block_start(data);
        let i = indices[k - 1] as int;
        lemma_rewrite_uses_without_targets(data[i], Set::empty(), use_registers_spec(data[i]).len() as int);
        let first = copy_step(st, i, locals, settings);
        assert(first == (data[i], Seq::<LoadTargetView>::empty(), Set::<int>::empty()));
        lemma_remove_uses_without_targets(use_registers_spec(data[i]), use_registers_spec(data[i]).len() as int);
        assert(data.update(i, data[i]) =~= data);
    }
}

proof fn lemma_retained_nothing_removed(indices: Seq<usize>)
    ensures
        retained(indices, Set::empty()) == indices,
    decreases indices.len(),
{
    if indices.len() > 0 {
        lemma_retained_nothing_removed(indices.drop_last());
        assert(indices.drop_last().push(indices.last()) =~= indices);
    }
}

/// With both rewritings switched off the pass changes nothing: every
/// instruction keeps its data and every block keeps all its instructions.
pub proof fn law_peephole_disabled_changes_nothing(
    data: Seq<InstructionMIRDataView>,
    blocks: Seq<BasicBlock>,
    b: int,
    locals: Seq<RegisterMIRView>,
    settings: PeepholeSettings,
)
    requires
        !settings.remove_load_local,
        !settings.remove_store_local,
        blocks_within(blocks, data.len() as int),
        0 <= b <= blocks.len(),
    ensures
        blocks_pass(data, blocks, b, locals, settings).0 == data,
        blocks_pass(data, blocks, b, locals, settings).1.len() == b,
        forall|c: int| 0 <= c < b ==> #[trigger] blocks_pass(data, blocks, b, locals, settings).1[c] == blocks[c].instructions@,
    decreases b,
{
    if b > 0 {
        law_peephole_disabled_changes_nothing(data, blocks, b - 1, locals, settings);
        let indices = blocks[b - 1].instructions@;
        assert forall|q: int| 0 <= q < indices.len() implies #[trigger] indices[q] < data.len() by {
            assert(blocks[b - 1].instructions@[q] < data.len());
        }
        lemma_block_pass_disabled(data, indices, indices.len() as int, locals, settings);
        lemma_retained_nothing_removed(indices);
    }
}


/// Whether each of the indices holds a copy in the data.
pub open spec fn all_copies(data: Seq<InstructionMIRDataView>, indices: Set<int>) -> bool {
    forall|x: int| #[trigger] indices.contains(x) ==> 0 <= x < data.len() && data[x] is Move
}

/// Whether each noted copy of a local holds a copy in the data.
pub open spec fn targets_copies(data: Seq<InstructionMIRDataView>, t: Seq<LoadTargetView>) -> bool {
    forall|q: int| 0 <= q < t.len() ==> 0 <= (#[trigger] t[q]).2 < data.len() && data[t[q].2] is Move
}

proof fn lemma_without_target_copies(data: Seq<InstructionMIRDataView>, t: Seq<LoadTargetView>, r: RegisterMIRView)
    requires
        targets_copies(data, t),
    ensures
        targets_copies(data, without_target(t, r)),
    decreases t.len(),
{
    if t.len() > 0 {
        lemma_without_target_copies(data, t.drop_last(), r);
        let w = without_target(t.drop_last(), r);
        if t.last().0 != r {
            assert forall|q: int| 0 <= q < w.push(t.last()).len() implies 0 <= (#[trigger] w.push(t.last())[q]).2 < data.len()
                && data[w.push(t.last())[q].2] is Move by {
                if q < w.len() {
                    assert(w.push(t.last())[q] == w[q]);
                }
            }
        }
    }
}

proof fn lemma_find_target_copy(data: Seq<InstructionMIRDataView>, t: Seq<LoadTargetView>, r: RegisterMIRView)
    requires
        targets_copies(data, t),
    ensures
        find_target(t, r) matches Some(found) ==> 0 <= found.1 < data.len() && data[found.1] is Move,
    decreases t.len(),
{
    if t.len() > 0 && t.last().0 != r {
        lemma_find_target_copy(data, t.drop_last(), r);
    }
}

proof fn lemma_rewrite_uses_copies(data: Seq<InstructionMIRDataView>, d: InstructionMIRDataView, t: Seq<LoadTargetView>, removed: Set<int>, k: int)
    requires
        targets_copies(data, t),
        all_copies(data, removed),
    ensures
        targets_copies(data, rewrite_uses(d, t, removed, k).1),
        all_copies(data, rewrite_uses(d, t, removed, k).2),
        d is Move ==> rewrite_uses(d, t, removed, k).0 is Move,
    decreases k,
{
    if k > 0 {
        lemma_rewrite_uses_copies(data, d, t, removed, k - 1);
        let prior = rewrite_uses(d, t, removed, k - 1);
        let op = use_registers_spec(prior.0)[k - 1];
        lemma_find_target_copy(data, prior.1, op);
        lemma_without_target_copies(data, prior.1, op);
    }
}

proof fn lemma_remove_uses_copies(data: Seq<InstructionMIRDataView>, t: Seq<LoadTargetView>, uses: Seq<RegisterMIRView>, k: int)
    requires
        targets_copies(data, t),
    ensures
        targets_copies(data, remove_uses(t, uses, k)),
    decreases k,
{
    if k > 0 {
        lemma_remove_uses_copies(data, t, uses, k - 1);
        lemma_without_target_copies(data, remove_uses(t, uses, k - 1), uses[k - 1]);
    }
}

/// Replacing instructions by copies, or copies by copies, keeps copies.
proof fn lemma_update_copies(data: Seq<InstructionMIRDataView>, i: int, d: InstructionMIRDataView, removed: Set<int>, t: Seq<LoadTargetView>)
    requires
        0 <= i < data.len(),
        all_copies(data, removed),
        targets_copies(data, t),
        data[i] is Move ==> d is Move,
    ensures
        all_copies(data.update(i, d), removed),
        targets_copies(data.update(i, d), t),
{
    let u = data.update(i, d);
    assert forall|x: int| #[trigger] removed.contains(x) implies 0 <= x < u.len() && u[x] is Move by {
        if x != i {
            assert(u[x] == data[x]);
        }
    }
    assert forall|q: int| 0 <= q < t.len() implies 0 <= (#[trigger] t[q]).2 < u.len() && u[t[q].2] is Move by {
        if t[q].2 != i {
            assert(u[t[q].2] == data[t[q].2]);
        }
    }
}

proof fn lemma_block_pass_copies(
    data: Seq<InstructionMIRDataView>,
    indices: Seq<usize>,
    k: int,
    locals: Seq<RegisterMIRView>,
    settings: PeepholeSettings,
)
    requires
        0 <= k <= indices.len(),
        forall|q: int| 0 <= q < indices.len() ==> #[trigger] indices[q] < data.len(),
    ensures
        block_pass(block_start(data), indices, k, locals, settings).data.len() == data.len(),
        all_copies(block_pass(block_start(data), indices, k, locals, settings).data, block_pass(block_start(data), indices, k, locals, settings).removed),
        targets_copies(block_pass(block_start(data), indices, k, locals, settings).data, block_pass(block_start(data), indices, k, locals, settings).targets),
        block_pass(block_start(data), indices, k, locals, settings).prev matches Some(p) ==> 0 <= p.1 < data.len(),
    decreases k,
{
    if k > 0 {
        lemma_block_pass_copies(data, indices, k - 1, locals, settings);
        let st = block_pass(block_start(data), indices, k - 1, locals, settings);
        let i = indices[k - 1] as int;
        let d = st.data[i];
        let first = copy_step(st, i, locals, settings);
        match d {
            InstructionMIRDataView::Move(destination, source) => {
                if locals.contains(source) {
                    if settings.remove_load_local {
                        lemma_without_target_copies(st.data, st.targets, destination);
                        let w = without_target(st.targets, destination);
                        assert forall|q: int| 0 <= q < w.push((destination, source, i)).len() implies 0 <= (#[trigger] w.push(
                            (destination, source, i),
                        )[q]).2 < st.data.len() && st.data[w.push((destination, source, i))[q].2] is Move by {
                            if q < w.len() {
                                assert(w.push((destination, source, i))[q] == w[q]);
                            }
                        }
                    }
                } else if locals.contains(destination) {
                    lemma_without_target_copies(st.data, st.targets, destination);
                } else {
                    lemma_rewrite_uses_copies(st.data, d, st.targets, st.removed, use_registers_spec(d).len() as int);
                }
            },
            _ => {
                lemma_rewrite_uses_copies(st.data, d, st.targets, st.removed, use_registers_spec(d).len() as int);
            },
        }
        let d1 = first.0;
        assert(d is Move ==> d1 is Move);
        lemma_remove_uses_copies(st.data, first.1, use_registers_spec(d1), use_registers_spec(d1).len() as int);
        let targets = remove_uses(first.1, use_registers_spec(d1), use_registers_spec(d1).len() as int);
        lemma_update_copies(st.data, i, d1, first.2, targets);
        let data1 = st.data.update(i, d1);
        if settings.remove_store_local {
            if let InstructionMIRDataView::Move(destination, source) = d1 {
                if locals.contains(destination) && st.prev is Some && (st.prev->0).0 == source {
                    let p = (st.prev->0).1;
                    let removed = first.2.insert(i);
                    assert(all_copies(data1, removed));
                    lemma_update_copies(data1, p, with_assign_register(data1[p], destination), removed, targets);
                }
            }
        }
    }
}

/// The pass removes only copies: each instruction that the rewriting of a
/// block marks for removal is a `Move` in the rewritten data.
pub proof fn law_peephole_removes_only_copies(
    data: Seq<InstructionMIRDataView>,
    indices: Seq<usize>,
    locals: Seq<RegisterMIRView>,
    settings: PeepholeSettings,
    x: int,
)
    requires
        forall|q: int| 0 <= q < indices.len() ==> #[trigger] indices[q] < data.len(),
        block_pass(block_start(data), indices, indices.len() as int, locals, settings).removed.contains(x),
    ensures
        0 <= x < data.len(),
        block_pass(block_start(data), indices, indices.len() as int, locals, settings).data[x] is Move,
{
    lemma_block_pass_copies(data, indices, indices.len() as int, locals, settings);
}

} // verus!