//! Which registers may hold null before each instruction, so that null
//! checks on registers known to hold an object can be left out. Within a
//! block the status follows the instructions; a block entered from several
//! blocks takes, for each register, "may be null" when any of them says so.
use vstd::prelude::*;
use crate::mir::{RegisterMIR, RegisterMIRView, InstructionMIRData, InstructionMIRView, InstructionMIRDataView, mir_view, registers_view};
use crate::mir::compiler::MIRCompilationResult;
use crate::model::function::Function;
use crate::model::typesystem::{TypeId, TypeIdView, is_reference_type};
use crate::analysis::basic_block::BasicBlock;
use crate::analysis::control_flow_graph::{ControlFlowGraph, ControlFlowEdge};
use crate::optimization::peephole::blocks_within;

verus! {

/// For the registers whose status is known, whether each may hold null.
#[derive(Debug)]
pub struct RegisterNullStatus {
    entries: Vec<(RegisterMIR, bool)>,
}

/// The map that a list of entries with distinct registers stands for.
pub open spec fn entries_map(s: Seq<(RegisterMIR, bool)>) -> Map<RegisterMIRView, bool>
    decreases s.len(),
{
    if s.len() == 0 {
        Map::empty()
    } else {
        entries_map(s.drop_last()).insert(s.last().0@, s.last().1)
    }
}

pub open spec fn distinct_keys(s: Seq<(RegisterMIR, bool)>) -> bool {
    forall|a: int, b: int| 0 <= a < b < s.len() ==> (#[trigger] s[a]).0@ != (#[trigger] s[b]).0@
}

impl View for RegisterNullStatus {
    type V = Map<RegisterMIRView, bool>;

    closed spec fn view(&self) -> Map<RegisterMIRView, bool> {
        entries_map(self.entries@)
    }
}

proof fn lemma_entries_map(s: Seq<(RegisterMIR, bool)>)
    requires
        distinct_keys(s),
    ensures
        entries_map(s).dom().finite(),
        entries_map(s).dom().len() == s.len(),
        forall|k: RegisterMIRView| #[trigger] entries_map(s).contains_key(k) <==> exists|i: int| 0 <= i < s.len() && s[i].0@ == k,
        forall|i: int| 0 <= i < s.len() ==> entries_map(s)[(#[trigger] s[i]).0@] == s[i].1,
    decreases s.len(),
{
    if s.len() > 0 {
        let prior = s.drop_last();
        assert(distinct_keys(prior)) by {
            assert forall|a: int, b: int| 0 <= a < b < prior.len() implies (#[trigger] prior[a]).0@ != (#[trigger] prior[b]).0@ by {
                assert(prior[a] == s[a] && prior[b] == s[b]);
            }
        }
        lemma_entries_map(prior);
        let last = s.last();
        assert(!entries_map(prior).contains_key(last.0@)) by {
            if entries_map(prior).contains_key(last.0@) {
                let i = choose|i: int| 0 <= i < prior.len() && prior[i].0@ == last.0@;
                assert(s[i] == prior[i]);
                assert(s[s.len() - 1] == last);
            }
        }
        assert(entries_map(s).dom() =~= entries_map(prior).dom().insert(last.0@));
        assert forall|k: RegisterMIRView| #[trigger] entries_map(s).contains_key(k) implies exists|i: int| 0 <= i < s.len() && s[i].0@ == k by {
            if k != last.0@ {
                let i = choose|i: int| 0 <= i < prior.len() && prior[i].0@ == k;
                assert(s[i] == prior[i]);
            } else {
                assert(s[s.len() - 1] == last);
            }
        }
        assert forall|k: RegisterMIRView| (exists|i: int| 0 <= i < s.len() && s[i].0@ == k) implies #[trigger] entries_map(s).contains_key(k) by {
            let i = choose|i: int| 0 <= i < s.len() && s[i].0@ == k;
            if i < s.len() - 1 {
                assert(prior[i] == s[i]);
            }
        }
        assert forall|i: int| 0 <= i < s.len() implies entries_map(s)[(#[trigger] s[i]).0@] == s[i].1 by {
            if i < s.len() - 1 {
                assert(prior[i] == s[i]);
                assert(s[i].0@ != last.0@);
            }
        }
    }
}

proof fn lemma_entries_map_update(s: Seq<(RegisterMIR, bool)>, i: int, e: (RegisterMIR, bool))
    requires
        distinct_keys(s),
        0 <= i < s.len(),
        s[i].0@ == e.0@,
    ensures
        entries_map(s.update(i, e)) == entries_map(s).insert(e.0@, e.1),
        distinct_keys(s.update(i, e)),
    decreases s.len(),
{
    let u = s.update(i, e);
    assert(distinct_keys(u)) by {
        assert forall|a: int, b: int| 0 <= a < b < u.len() implies (#[trigger] u[a]).0@ != (#[trigger] u[b]).0@ by {
            assert(s[a].0@ != s[b].0@);
        }
    }
    let prior = s.drop_last();
    assert(distinct_keys(prior)) by {
        assert forall|a: int, b: int| 0 <= a < b < prior.len() implies (#[trigger] prior[a]).0@ != (#[trigger] prior[b]).0@ by {
            assert(prior[a] == s[a] && prior[b] == s[b]);
        }
    }
    if i == s.len() - 1 {
        assert(u.drop_last() =~= prior);
        assert(entries_map(u) =~= entries_map(s).insert(e.0@, e.1));
    } else {
        lemma_entries_map_update(prior, i, e);
        assert(u.drop_last() =~= prior.update(i, e));
        assert(s.last().0@ != e.0@) by {
            assert(s[s.len() - 1] == s.last());
        }
        assert(entries_map(u) =~= entries_map(s).insert(e.0@, e.1));
    }
}

impl RegisterNullStatus {
    #[verifier::type_invariant]
    spec fn keys_distinct(self) -> bool {
        distinct_keys(self.entries@)
    }

    /// No register's status is known.
    pub fn new() -> (r: RegisterNullStatus)
        ensures
            r@ == Map::<RegisterMIRView, bool>::empty(),
    {
        RegisterNullStatus { entries: Vec::new() }
    }

    /// The number of registers whose status is known.
    pub fn len(&self) -> (r: usize)
        ensures
            r == self@.len(),
    {
        proof {
            use_type_invariant(self);
            lemma_entries_map(self.entries@);
        }
        self.entries.len()
    }

    /// Whether `register` may hold null, if its status is known.
    pub fn get(&self, register: &RegisterMIR) -> (r: Option<bool>)
        ensures
            r == (if self@.contains_key(register@) {
                Some(self@[register@])
            } else {
                None
            }),
    {
        proof {
            use_type_invariant(self);
            lemma_entries_map(self.entries@);
        }
        let mut i: usize = 0;
        while i < self.entries.len()
            invariant
                i <= self.entries@.len(),
                distinct_keys(self.entries@),
                forall|j: int| 0 <= j < i ==> self.entries@[j].0@ != register@,
            decreases self.entries@.len() - i,
        {
            if self.entries[i].0.is_same(register) {
                proof {
                    lemma_entries_map(self.entries@);
                    assert(self.entries@[i as int].0@ == register@);
                }
                return Some(self.entries[i].1);
            }
            i = i + 1;
        }
        proof {
            lemma_entries_map(self.entries@);
        }
        None
    }

    /// Records whether `register` may hold null.
    pub fn insert(&mut self, register: RegisterMIR, is_null: bool)
        ensures
            final(self)@ == old(self)@.insert(register@, is_null),
    {
        proof {
            use_type_invariant(&*self);
        }
        let ghost before = self.entries@;
        let mut i: usize = 0;
        while i < self.entries.len()
            invariant
                i <= self.entries@.len(),
                before == self.entries@,
                entries_map(before) == old(self)@,
                distinct_keys(before),
                forall|j: int| 0 <= j < i ==> before[j].0@ != register@,
            decreases self.entries@.len() - i,
        {
            if self.entries[i].0.is_same(&register) {
                proof {
                    lemma_entries_map_update(before, i as int, (register, is_null));
                }
                let mut entries: Vec<(RegisterMIR, bool)> = Vec::new();
                std::mem::swap(&mut entries, &mut self.entries);
                entries.set(i, (register, is_null));
                self.entries = entries;
                return;
            }
            i = i + 1;
        }
        proof {
            lemma_entries_map(before);
            assert(distinct_keys(before.push((register, is_null)))) by {
                let s = before.push((register, is_null));
                assert forall|a: int, b: int| 0 <= a < b < s.len() implies (#[trigger] s[a]).0@ != (#[trigger] s[b]).0@ by {
                    if b == before.len() {
                        assert(s[a] == before[a]);
                    } else {
                        assert(s[a] == before[a] && s[b] == before[b]);
                    }
                }
            }
            assert(before.push((register, is_null)).drop_last() =~= before);
        }
        let mut entries: Vec<(RegisterMIR, bool)> = Vec::new();
                std::mem::swap(&mut entries, &mut self.entries);
        entries.push((register, is_null));
        self.entries = entries;
    }
}

impl Clone for RegisterNullStatus {
    fn clone(&self) -> (r: Self)
        ensures
            r@ == self@,
    {
        proof {
            use_type_invariant(self);
        }
        let mut entries: Vec<(RegisterMIR, bool)> = Vec::new();
        let mut i: usize = 0;
        while i < self.entries.len()
            invariant
                i <= self.entries@.len(),
                distinct_keys(self.entries@),
                entries@ == self.entries@.take(i as int),
            decreases self.entries@.len() - i,
        {
            entries.push((self.entries[i].0.clone(), self.entries[i].1));
            i = i + 1;
            assert(entries@ =~= self.entries@.take(i as int));
        }
        assert(entries@ =~= self.entries@);
        RegisterNullStatus { entries }
    }
}


/// The null status of registers as a map from register to "may be null".
pub type NullMap = Map<RegisterMIRView, bool>;

/// The types of the parameters of the function.
pub open spec fn parameter_types(function: Function) -> Seq<TypeIdView> {
    function.spec_declaration().spec_parameters().map_values(|t: TypeId| t@)
}

/// The status after instruction `d`: a copy between references takes the
/// status of its source, a null, a call result, an argument, an element or a
/// field of reference type may be null, a new array or object is not.
/// `None` where the instruction copies a reference from a register of
/// unknown status, or loads an argument that the function does not have.
pub open spec fn null_step(m: NullMap, d: InstructionMIRDataView, parameters: Seq<TypeIdView>) -> Option<NullMap> {
    match d {
        InstructionMIRDataView::Move(destination, source) => if is_reference_type(source.value_type) && is_reference_type(
            destination.value_type,
        ) {
            if m.contains_key(source) {
                Some(m.insert(destination, m[source]))
            } else {
                None
            }
        } else {
            Some(m)
        },
        InstructionMIRDataView::Call(_, destination, _) => match destination {
            Some(register) => if is_reference_type(register.value_type) {
                Some(m.insert(register, true))
            } else {
                Some(m)
            },
            None => Some(m),
        },
        InstructionMIRDataView::LoadArgument(index, destination) => if index < parameters.len() {
            if is_reference_type(parameters[index as int]) {
                Some(m.insert(destination, true))
            } else {
                Some(m)
            }
        } else {
            None
        },
        InstructionMIRDataView::LoadNull(destination) => Some(m.insert(destination, true)),
        InstructionMIRDataView::NewArray(_, destination, _) => Some(m.insert(destination, false)),
        InstructionMIRDataView::LoadElement(_, destination, _, _) => if is_reference_type(destination.value_type) {
            Some(m.insert(destination, true))
        } else {
            Some(m)
        },
        InstructionMIRDataView::NewObject(_, destination) => Some(m.insert(destination, false)),
        InstructionMIRDataView::LoadField(_, _, destination, _) => if is_reference_type(destination.value_type) {
            Some(m.insert(destination, true))
        } else {
            Some(m)
        },
        _ => Some(m),
    }
}

/// From status `m`, the status before each of the first `k` instructions
/// of a block with indices `indices`, and the status after them.
pub open spec fn block_walk(
    m: NullMap,
    s: Seq<InstructionMIRView>,
    indices: Seq<usize>,
    parameters: Seq<TypeIdView>,
    k: int,
) -> Option<(Seq<NullMap>, NullMap)>
    decreases k,
{
    if k <= 0 {
        Some((Seq::empty(), m))
    } else {
        match block_walk(m, s, indices, parameters, k - 1) {
            Some(prior) => match null_step(prior.1, s[indices[k - 1] as int].data, parameters) {
                Some(next) => Some((prior.0.push(prior.1), next)),
                None => None,
            },
            None => None,
        }
    }
}

/// Every local may be null.
pub open spec fn locals_map(locals: Seq<RegisterMIRView>) -> NullMap {
    Map::new(|r: RegisterMIRView| locals.contains(r), |r: RegisterMIRView| true)
}

/// The registers of either map; each may be null when it may be in either.
pub open spec fn merge_maps(a: NullMap, b: NullMap) -> NullMap {
    Map::new(
        |r: RegisterMIRView| a.contains_key(r) || b.contains_key(r),
        |r: RegisterMIRView| (a.contains_key(r) && a[r]) || (b.contains_key(r) && b[r]),
    )
}

/// The statuses of `x`, each merged with the status at the same instruction of `y`.
pub open spec fn merge_lists(x: Seq<NullMap>, y: Seq<NullMap>) -> Seq<NullMap> {
    Seq::new(x.len(), |i: int| if i < y.len() { merge_maps(x[i], y[i]) } else { x[i] })
}

/// The first `k` lists of statuses merged.
pub open spec fn merge_all_lists(ps: Seq<Seq<NullMap>>, k: int) -> Seq<NullMap>
    decreases k,
{
    if k <= 1 {
        ps[0]
    } else {
        merge_lists(merge_all_lists(ps, k - 1), ps[k - 1])
    }
}

/// The first `k` maps merged.
pub open spec fn merge_all_maps(ms: Seq<NullMap>, k: int) -> NullMap
    decreases k,
{
    if k <= 1 {
        ms[0]
    } else {
        merge_maps(merge_all_maps(ms, k - 1), ms[k - 1])
    }
}

/// The walks of a block from the status after each of the first `k`
/// blocks that lead to it, among blocks that have results. `None` where a
/// walk is undefined; `Some(None)` where a block leading here has no result
/// yet (a jump backwards).
pub open spec fn pred_walks(
    results: Seq<(Seq<NullMap>, NullMap)>,
    preds: Seq<ControlFlowEdge>,
    s: Seq<InstructionMIRView>,
    indices: Seq<usize>,
    parameters: Seq<TypeIdView>,
    k: int,
) -> Option<Option<(Seq<Seq<NullMap>>, Seq<NullMap>)>>
    decreases k,
{
    if k <= 0 {
        Some(Some((Seq::empty(), Seq::empty())))
    } else {
        match pred_walks(results, preds, s, indices, parameters, k - 1) {
            Some(Some(prior)) => {
                let p = preds[k - 1].to as int;
                if p < results.len() {
                    match block_walk(results[p].1, s, indices, parameters, indices.len() as int) {
                        Some(w) => Some(Some((prior.0.push(w.0), prior.1.push(w.1)))),
                        None => None,
                    }
                } else {
                    Some(None)
                }
            },
            other => other,
        }
    }
}

/// The statuses with those of the first `k` instructions of a block written at their indices.
pub open spec fn write_block(statuses: Seq<NullMap>, indices: Seq<usize>, w: Seq<NullMap>, k: int) -> Seq<NullMap>
    decreases k,
{
    if k <= 0 {
        statuses
    } else {
        write_block(statuses, indices, w, k - 1).update(indices[k - 1] as int, w[k - 1])
    }
}

/// The results of the first `b` blocks, each from the locals when no block
/// leads to it, else merged over the blocks that lead to it; and the status
/// before each instruction. `None` where a walk is undefined; `Some(None)`
/// where a block is entered by a jump backwards.
pub open spec fn elision_blocks(
    s: Seq<InstructionMIRView>,
    locals: Seq<RegisterMIRView>,
    parameters: Seq<TypeIdView>,
    blocks: Seq<BasicBlock>,
    g: ControlFlowGraph,
    b: int,
) -> Option<Option<(Seq<(Seq<NullMap>, NullMap)>, Seq<NullMap>)>>
    decreases b,
{
    if b <= 0 {
        Some(Some((Seq::empty(), Seq::new(s.len(), |p: int| Map::<RegisterMIRView, bool>::empty()))))
    } else {
        match elision_blocks(s, locals, parameters, blocks, g, b - 1) {
            Some(Some(prior)) => {
                let indices = blocks[b - 1].instructions@;
                let preds = g.back_edges@[b - 1]@;
                let outcome: Option<Option<(Seq<NullMap>, NullMap)>> = if preds.len() == 0 {
                    match block_walk(locals_map(locals), s, indices, parameters, indices.len() as int) {
                        Some(w) => Some(Some(w)),
                        None => None,
                    }
                } else {
                    match pred_walks(prior.0, preds, s, indices, parameters, preds.len() as int) {
                        Some(Some(ps)) => Some(Some((merge_all_lists(ps.0, ps.0.len() as int), merge_all_maps(ps.1, ps.1.len() as int)))),
                        Some(None) => Some(None),
                        None => None,
                    }
                };
                match outcome {
                    Some(Some(w)) => Some(Some((prior.0.push(w), write_block(prior.1, indices, w.0, indices.len() as int)))),
                    Some(None) => Some(None),
                    None => None,
                }
            },
            other => other,
        }
    }
}

/// The status before each instruction: for a single block, its walk from
/// the locals; else the results of [`elision_blocks`], or nothing known
/// anywhere when a block is entered by a jump backwards. `None` where a walk
/// is undefined.
pub open spec fn null_check_elision_spec(
    s: Seq<InstructionMIRView>,
    locals: Seq<RegisterMIRView>,
    parameters: Seq<TypeIdView>,
    blocks: Seq<BasicBlock>,
    g: ControlFlowGraph,
) -> Option<Seq<NullMap>> {
    if blocks.len() == 1 {
        match block_walk(locals_map(locals), s, blocks[0].instructions@, parameters, blocks[0].instructions@.len() as int) {
            Some(w) => Some(w.0),
            None => None,
        }
    } else {
        match elision_blocks(s, locals, parameters, blocks, g, blocks.len() as int) {
            Some(Some(outcome)) => Some(outcome.1),
            Some(None) => Some(Seq::new(s.len(), |p: int| Map::<RegisterMIRView, bool>::empty())),
            None => None,
        }
    }
}

pub open spec fn statuses_view(v: Seq<RegisterNullStatus>) -> Seq<NullMap> {
    v.map_values(|x: RegisterNullStatus| x@)
}

/// Updates the status across one instruction (see [`null_step`]).
fn apply_instruction(function: &Function, data: &InstructionMIRData, status: &mut RegisterNullStatus)
    requires
        null_step(old(status)@, data@, parameter_types(*function)) is Some,
    ensures
        final(status)@ == null_step(old(status)@, data@, parameter_types(*function))->0,
{
    match data {
        InstructionMIRData::Move(destination, source) => {
            if source.value_type.is_reference() && destination.value_type.is_reference() {
                match status.get(source) {
                    Some(is_null) => {
                        status.insert(destination.clone(), is_null);
                    },
                    None => {},
                }
            }
        },
        InstructionMIRData::Call(_, destination, _) => {
            match destination {
                Some(register) => {
                    if register.value_type.is_reference() {
                        status.insert(register.clone(), true);
                    }
                },
                None => {},
            }
        },
        InstructionMIRData::LoadArgument(index, destination) => {
            let parameters = function.declaration().parameters();
            let position = *index as usize;
            if parameters[position].is_reference() {
                status.insert(destination.clone(), true);
            }
        },
        InstructionMIRData::LoadNull(destination) => {
            status.insert(destination.clone(), true);
        },
        InstructionMIRData::NewArray(_, destination, _) => {
            status.insert(destination.clone(), false);
        },
        InstructionMIRData::LoadElement(_, destination, _, _) => {
            if destination.value_type.is_reference() {
                status.insert(destination.clone(), true);
            }
        },
        InstructionMIRData::NewObject(_, destination) => {
            status.insert(destination.clone(), false);
        },
        InstructionMIRData::LoadField(_, _, destination, _) => {
            if destination.value_type.is_reference() {
                status.insert(destination.clone(), true);
            }
        },
        _ => {},
    }
}

/// Walks a block from status `register_is_null`: the status before each of
/// its instructions, and the status after the block.
fn compute_null_check_elision_for_block_internal(
    function: &Function,
    compilation_result: &MIRCompilationResult,
    basic_block: &BasicBlock,
    register_is_null: RegisterNullStatus,
) -> (r: (Vec<RegisterNullStatus>, RegisterNullStatus))
    requires
        forall|q: int|
            0 <= q < basic_block.instructions@.len() ==> #[trigger] basic_block.instructions@[q]
                < compilation_result.instructions@.len(),
        block_walk(
            register_is_null@,
            mir_view(compilation_result.instructions@),
            basic_block.instructions@,
            parameter_types(*function),
            basic_block.instructions@.len() as int,
        ) is Some,
    ensures
        ({
            let w = block_walk(
                register_is_null@,
                mir_view(compilation_result.instructions@),
                basic_block.instructions@,
                parameter_types(*function),
                basic_block.instructions@.len() as int,
            )->0;
            statuses_view(r.0@) == w.0 && r.1@ == w.1
        }),
{
    let ghost s = mir_view(compilation_result.instructions@);
    let ghost indices = basic_block.instructions@;
    let ghost parameters = parameter_types(*function);
    let ghost start = register_is_null@;
    let mut register_is_null = register_is_null;
    let mut instructions_status: Vec<RegisterNullStatus> = Vec::new();
    let mut k: usize = 0;
    while k < basic_block.instructions.len()
        invariant
            k <= indices.len(),
            indices == basic_block.instructions@,
            s == mir_view(compilation_result.instructions@),
            forall|q: int| 0 <= q < indices.len() ==> #[trigger] indices[q] < s.len(),
            parameters == parameter_types(*function),
            block_walk(start, s, indices, parameters, indices.len() as int) is Some,
            block_walk(start, s, indices, parameters, k as int) == Some((statuses_view(instructions_status@), register_is_null@)),
        decreases indices.len() - k,
    {
        proof {
            lemma_block_walk_prefix(start, s, indices, parameters, k + 1, indices.len() as int);
        }
        let instruction_index = basic_block.instructions[k];
        let ghost before = instructions_status@;
        let ghost current = register_is_null@;
        let copy = register_is_null.clone();
        instructions_status.push(copy);
        assert(compilation_result.instructions@[instruction_index as int].data@ == s[indices[k as int] as int].data);
        assert(block_walk(start, s, indices, parameters, k + 1) == match null_step(current, s[indices[k as int] as int].data, parameters) {
            Some(next) => Some((statuses_view(before).push(current), next)),
            None => None::<(Seq<NullMap>, NullMap)>,
        });
        apply_instruction(function, &compilation_result.instructions[instruction_index].data, &mut register_is_null);
        proof {
            assert(statuses_view(instructions_status@) =~= statuses_view(before).push(current));
        }
        k = k + 1;
    }
    (instructions_status, register_is_null)
}

/// A walk that is defined for `k` instructions is defined for fewer.
proof fn lemma_block_walk_prefix(m: NullMap, s: Seq<InstructionMIRView>, indices: Seq<usize>, parameters: Seq<TypeIdView>, j: int, k: int)
    requires
        0 <= j <= k,
        block_walk(m, s, indices, parameters, k) is Some,
    ensures
        block_walk(m, s, indices, parameters, j) is Some,
    decreases k - j,
{
    if j < k {
        lemma_block_walk_prefix(m, s, indices, parameters, j, k - 1);
    }
}

/// The registers of `locals_map(locals)` are the locals.
proof fn lemma_locals_map_domain(locals: Seq<RegisterMIRView>, r: RegisterMIRView)
    ensures
        locals_map(locals).contains_key(r) == locals.contains(r),
        locals_map(locals).contains_key(r) ==> locals_map(locals)[r] == true,
{
}

/// The status of the locals at the start of the function: each may be null.
#[verifier::spinoff_prover]
fn locals_status(compilation_result: &MIRCompilationResult) -> (r: RegisterNullStatus)
    ensures
        r@ == locals_map(registers_view(compilation_result.local_virtual_registers@)),
{
    let locals = &compilation_result.local_virtual_registers;
    let ghost lv = registers_view(locals@);
    let mut register_is_null = RegisterNullStatus::new();
    let mut k: usize = 0;
    while k < locals.len()
        invariant
            k <= locals@.len(),
            lv == registers_view(locals@),
            register_is_null@ == locals_map(lv.take(k as int)),
        decreases locals@.len() - k,
    {
        let ghost before = register_is_null@;
        let register = locals[k].clone();
        register_is_null.insert(register, true);
        proof {
            assert(register@ == lv[k as int]);
            assert(register_is_null@ == before.insert(lv[k as int], true));
            assert(lv.take(k + 1) =~= lv.take(k as int).push(lv[k as int]));
            assert forall|r: RegisterMIRView| lv.take(k + 1).contains(r) <==> (lv.take(k as int).contains(r) || r == lv[k as int]) by {
                if lv.take(k + 1).contains(r) {
                    let j = choose|j: int| 0 <= j < k + 1 && #[trigger] lv.take(k + 1)[j] == r;
                    if j < k {
                        assert(lv.take(k as int)[j] == r);
                    }
                }
                if lv.take(k as int).contains(r) {
                    let j = choose|j: int| 0 <= j < k && #[trigger] lv.take(k as int)[j] == r;
                    assert(lv.take(k + 1)[j] == r);
                }
                if r == lv[k as int] {
                    assert(lv.take(k + 1)[k as int] == r);
                }
            }
            assert(locals@[k as int]@ == lv[k as int]);
            assert forall|r: RegisterMIRView| #[trigger] register_is_null@.contains_key(r) == locals_map(lv.take(k + 1)).contains_key(r) by {
                lemma_locals_map_domain(lv.take(k + 1), r);
                lemma_locals_map_domain(lv.take(k as int), r);
            }
            assert(register_is_null@ =~= locals_map(lv.take(k + 1)));
        }
        k = k + 1;
    }
    proof {
        assert(lv.take(k as int) =~= lv);
    }
    register_is_null
}

/// Walks a block from the start of the function, where every local may be null.
pub fn compute_null_check_elision_for_block(
    function: &Function,
    compilation_result: &MIRCompilationResult,
    basic_block: &BasicBlock,
) -> (r: (Vec<RegisterNullStatus>, RegisterNullStatus))
    requires
        forall|q: int|
            0 <= q < basic_block.instructions@.len() ==> #[trigger] basic_block.instructions@[q]
                < compilation_result.instructions@.len(),
        block_walk(
            locals_map(registers_view(compilation_result.local_virtual_registers@)),
            mir_view(compilation_result.instructions@),
            basic_block.instructions@,
            parameter_types(*function),
            basic_block.instructions@.len() as int,
        ) is Some,
    ensures
        ({
            let w = block_walk(
                locals_map(registers_view(compilation_result.local_virtual_registers@)),
                mir_view(compilation_result.instructions@),
                basic_block.instructions@,
                parameter_types(*function),
                basic_block.instructions@.len() as int,
            )->0;
            statuses_view(r.0@) == w.0 && r.1@ == w.1
        }),
{
    let register_is_null = locals_status(compilation_result);
    compute_null_check_elision_for_block_internal(function, compilation_result, basic_block, register_is_null)
}

/// Merges `other` into `target` (see [`merge_maps`]).
fn merge_into(target: &mut RegisterNullStatus, other: &RegisterNullStatus)
    ensures
        final(target)@ == merge_maps(old(target)@, other@),
{
    proof {
        use_type_invariant(other);
    }
    let ghost start = target@;
    let ghost e = other.entries@;
    let mut k: usize = 0;
    while k < other.entries.len()
        invariant
            k <= e.len(),
            e == other.entries@,
            distinct_keys(e),
            target@ == merge_maps(start, entries_map(e.take(k as int))),
        decreases e.len() - k,
    {
        let register = &other.entries[k].0;
        let is_null = other.entries[k].1;
        let current_is_null = match target.get(register) {
            Some(v) => v,
            None => false,
        };
        proof {
            let t = e.take(k as int);
            assert(distinct_keys(t)) by {
                assert forall|a: int, b: int| 0 <= a < b < t.len() implies (#[trigger] t[a]).0@ != (#[trigger] t[b]).0@ by {
                    assert(t[a] == e[a] && t[b] == e[b]);
                }
            }
            lemma_entries_map(t);
            assert(!entries_map(t).contains_key(register@)) by {
                if entries_map(t).contains_key(register@) {
                    let i = choose|i: int| 0 <= i < t.len() && t[i].0@ == register@;
                    assert(t[i] == e[i]);
                }
            }
            assert(e.take(k + 1).drop_last() =~= t);
            assert(e.take(k + 1).last() == e[k as int]);
        }
        target.insert(register.clone(), is_null || current_is_null);
        proof {
            assert(target@ =~= merge_maps(start, entries_map(e.take(k + 1))));
        }
        k = k + 1;
    }
    proof {
        assert(e.take(k as int) =~= e);
    }
}

pub open spec fn lists_view(ps: Seq<Vec<RegisterNullStatus>>) -> Seq<Seq<NullMap>> {
    ps.map_values(|v: Vec<RegisterNullStatus>| statuses_view(v@))
}

/// Merges the walks of a block from each block that leads to it: a
/// register may be null before an instruction, or after the block, when it
/// may be so in any of them.
fn merge_results(
    potentials_instructions: Vec<Vec<RegisterNullStatus>>,
    potentials_register: Vec<RegisterNullStatus>,
) -> (r: (Vec<RegisterNullStatus>, RegisterNullStatus))
    requires
        potentials_instructions@.len() >= 1,
        potentials_register@.len() >= 1,
        forall|j: int|
            0 <= j < potentials_instructions@.len() ==> (#[trigger] potentials_instructions@[j])@.len()
                <= potentials_instructions@[0]@.len(),
    ensures
        statuses_view(r.0@) == merge_all_lists(lists_view(potentials_instructions@), potentials_instructions@.len() as int),
        r.1@ == merge_all_maps(statuses_view(potentials_register@), potentials_register@.len() as int),
{
    let ghost lists = lists_view(potentials_instructions@);
    let ghost maps = statuses_view(potentials_register@);
    let mut potentials_instructions = potentials_instructions;
    let mut final_instructions = potentials_instructions.remove(0);
    let mut j: usize = 0;
    while j < potentials_instructions.len()
        invariant
            j <= potentials_instructions@.len(),
            potentials_instructions@.len() + 1 == lists.len(),
            forall|x: int| 0 <= x < potentials_instructions@.len() ==> statuses_view((#[trigger] potentials_instructions@[x])@) == lists[x + 1],
            forall|x: int| 0 <= x < lists.len() ==> (#[trigger] lists[x]).len() <= lists[0].len(),
            statuses_view(final_instructions@) == merge_all_lists(lists, j + 1),
        decreases potentials_instructions@.len() - j,
    {
        let ghost merged = statuses_view(final_instructions@);
        let ghost other = lists[j + 1];
        proof {
            lemma_merge_all_lists_len(lists, j + 1);
        }
        let potential_instructions = &potentials_instructions[j];
        let mut i: usize = 0;
        while i < potential_instructions.len()
            invariant
                i <= potential_instructions@.len(),
                statuses_view(potential_instructions@) == other,
                other.len() <= merged.len(),
                final_instructions@.len() == merged.len(),
                statuses_view(final_instructions@) == Seq::new(
                    merged.len(),
                    |x: int| if x < i { merge_maps(merged[x], other[x]) } else { merged[x] },
                ),
            decreases potential_instructions@.len() - i,
        {
            let ghost before = statuses_view(final_instructions@);
            let ghost before_exec = final_instructions@;
            assert(before[i as int] == merged[i as int]);
            assert(potential_instructions@[i as int]@ == other[i as int]);
            merge_into(&mut final_instructions[i], &potential_instructions[i]);
            proof {
                assert(final_instructions@.len() == merged.len());
                assert forall|x: int| 0 <= x < merged.len() implies #[trigger] statuses_view(final_instructions@)[x] == (if x < i + 1 {
                    merge_maps(merged[x], other[x])
                } else {
                    merged[x]
                }) by {
                    if x != i {
                        assert(final_instructions@[x] == before_exec[x]);
                        assert(before[x] == before_exec[x]@);
                    }
                }
                assert(statuses_view(final_instructions@) =~= Seq::new(
                    merged.len(),
                    |x: int| if x < i + 1 { merge_maps(merged[x], other[x]) } else { merged[x] },
                ));
            }
            i = i + 1;
        }
        proof {
            assert(statuses_view(final_instructions@) =~= merge_lists(merged, other));
        }
        j = j + 1;
    }
    let mut potentials_register = potentials_register;
    let mut final_registers = potentials_register.remove(0);
    let mut j: usize = 0;
    while j < potentials_register.len()
        invariant
            j <= potentials_register@.len(),
            potentials_register@.len() + 1 == maps.len(),
            forall|x: int| 0 <= x < potentials_register@.len() ==> (#[trigger] potentials_register@[x])@ == maps[x + 1],
            final_registers@ == merge_all_maps(maps, j + 1),
        decreases potentials_register@.len() - j,
    {
        merge_into(&mut final_registers, &potentials_register[j]);
        j = j + 1;
    }
    (final_instructions, final_registers)
}

proof fn lemma_merge_all_lists_len(ps: Seq<Seq<NullMap>>, k: int)
    requires
        1 <= k <= ps.len(),
    ensures
        merge_all_lists(ps, k).len() == ps[0].len(),
    decreases k,
{
    if k > 1 {
        lemma_merge_all_lists_len(ps, k - 1);
    }
}

proof fn lemma_block_walk_len(m: NullMap, s: Seq<InstructionMIRView>, indices: Seq<usize>, parameters: Seq<TypeIdView>, k: int)
    requires
        0 <= k,
        block_walk(m, s, indices, parameters, k) is Some,
    ensures
        (block_walk(m, s, indices, parameters, k)->0).0.len() == k,
    decreases k,
{
    if k > 0 {
        lemma_block_walk_len(m, s, indices, parameters, k - 1);
    }
}

/// Once a walk from a block leading here is undefined or missing, it stays so.
proof fn lemma_pred_walks_stop(
    results: Seq<(Seq<NullMap>, NullMap)>,
    preds: Seq<ControlFlowEdge>,
    s: Seq<InstructionMIRView>,
    indices: Seq<usize>,
    parameters: Seq<TypeIdView>,
    q: int,
    k: int,
)
    requires
        0 <= q <= k,
        !(pred_walks(results, preds, s, indices, parameters, q) matches Some(Some(_))),
    ensures
        pred_walks(results, preds, s, indices, parameters, k) == pred_walks(results, preds, s, indices, parameters, q),
    decreases k - q,
{
    if q < k {
        lemma_pred_walks_stop(results, preds, s, indices, parameters, q, k - 1);
    }
}

/// The walks so far each cover the whole block.
proof fn lemma_pred_walks_len(
    results: Seq<(Seq<NullMap>, NullMap)>,
    preds: Seq<ControlFlowEdge>,
    s: Seq<InstructionMIRView>,
    indices: Seq<usize>,
    parameters: Seq<TypeIdView>,
    k: int,
)
    requires
        0 <= k,
        pred_walks(results, preds, s, indices, parameters, k) matches Some(Some(_)),
    ensures
        ({
            let ps = pred_walks(results, preds, s, indices, parameters, k)->0->0;
            &&& ps.0.len() == k
            &&& ps.1.len() == k
            &&& forall|j: int| 0 <= j < k ==> (#[trigger] ps.0[j]).len() == indices.len()
        }),
    decreases k,
{
    if k > 0 {
        lemma_pred_walks_len(results, preds, s, indices, parameters, k - 1);
        let p = preds[k - 1].to as int;
        lemma_block_walk_len(results[p].1, s, indices, parameters, indices.len() as int);
        let prior = pred_walks(results, preds, s, indices, parameters, k - 1)->0->0;
        let ps = pred_walks(results, preds, s, indices, parameters, k)->0->0;
        assert forall|j: int| 0 <= j < k implies (#[trigger] ps.0[j]).len() == indices.len() by {
            if j < k - 1 {
                assert(ps.0[j] == prior.0[j]);
            }
        }
    }
}

/// Once the analysis of the blocks is undefined or meets a jump backwards, it stays so.
proof fn lemma_elision_blocks_stop(
    s: Seq<InstructionMIRView>,
    locals: Seq<RegisterMIRView>,
    parameters: Seq<TypeIdView>,
    blocks: Seq<BasicBlock>,
    g: ControlFlowGraph,
    b: int,
    k: int,
)
    requires
        0 <= b <= k,
        !(elision_blocks(s, locals, parameters, blocks, g, b) matches Some(Some(_))),
    ensures
        elision_blocks(s, locals, parameters, blocks, g, k) == elision_blocks(s, locals, parameters, blocks, g, b),
    decreases k - b,
{
    if b < k {
        lemma_elision_blocks_stop(s, locals, parameters, blocks, g, b, k - 1);
    }
}

pub open spec fn results_view(v: Seq<(Vec<RegisterNullStatus>, RegisterNullStatus)>) -> Seq<(Seq<NullMap>, NullMap)> {
    v.map_values(|x: (Vec<RegisterNullStatus>, RegisterNullStatus)| (statuses_view(x.0@), x.1@))
}

/// Nothing known before any of `n` instructions.
fn empty_statuses(n: usize) -> (r: Vec<RegisterNullStatus>)
    ensures
        statuses_view(r@) == Seq::new(n as nat, |p: int| Map::<RegisterMIRView, bool>::empty()),
{
    let mut r: Vec<RegisterNullStatus> = Vec::new();
    let mut i: usize = 0;
    while i < n
        invariant
            i <= n,
            statuses_view(r@) == Seq::new(i as nat, |p: int| Map::<RegisterMIRView, bool>::empty()),
        decreases n - i,
    {
        let ghost before = r@;
        r.push(RegisterNullStatus::new());
        assert(statuses_view(r@) =~= statuses_view(before).push(Map::<RegisterMIRView, bool>::empty()));
        i = i + 1;
        assert(statuses_view(r@) =~= Seq::new(i as nat, |p: int| Map::<RegisterMIRView, bool>::empty()));
    }
    r
}

/// Which registers may hold null before each instruction (see
/// [`null_check_elision_spec`]). The analysis must be defined: every copy
/// between references reads a register whose status is known, and every
/// argument loaded exists.
pub fn compute_null_check_elision(
    function: &Function,
    compilation_result: &MIRCompilationResult,
    basic_blocks: &Vec<BasicBlock>,
    control_flow_graph: &ControlFlowGraph,
) -> (r: Vec<RegisterNullStatus>)
    requires
        blocks_within(basic_blocks@, compilation_result.instructions@.len() as int),
        control_flow_graph.back_edges@.len() == basic_blocks@.len(),
        null_check_elision_spec(
            mir_view(compilation_result.instructions@),
            registers_view(compilation_result.local_virtual_registers@),
            parameter_types(*function),
            basic_blocks@,
            *control_flow_graph,
        ) is Some,
    ensures
        statuses_view(r@) == null_check_elision_spec(
            mir_view(compilation_result.instructions@),
            registers_view(compilation_result.local_virtual_registers@),
            parameter_types(*function),
            basic_blocks@,
            *control_flow_graph,
        )->0,
{
    let ghost s = mir_view(compilation_result.instructions@);
    let ghost lv = registers_view(compilation_result.local_virtual_registers@);
    let ghost parameters = parameter_types(*function);
    let ghost blocks = basic_blocks@;
    let ghost g = *control_flow_graph;
    let n = compilation_result.instructions.len();
    let m = basic_blocks.len();
    if m == 1 {
        assert(forall|q: int| 0 <= q < blocks[0].instructions@.len() ==> #[trigger] blocks[0].instructions@[q] < n);
        let (statuses, _) = compute_null_check_elision_for_block(function, compilation_result, &basic_blocks[0]);
        return statuses;
    }
    let mut basic_blocks_results: Vec<(Vec<RegisterNullStatus>, RegisterNullStatus)> = Vec::new();
    let mut instruction_results = empty_statuses(n);
    proof {
        assert(results_view(basic_blocks_results@) =~= Seq::empty());
        assert(statuses_view(instruction_results@).len() == instruction_results@.len());
        assert(elision_blocks(s, lv, parameters, blocks, g, m as int) !is None);
    }
    let mut b: usize = 0;
    while b < m
        invariant
            b <= m,
            m == blocks.len(),
            m != 1,
            n == s.len(),
            s == mir_view(compilation_result.instructions@),
            lv == registers_view(compilation_result.local_virtual_registers@),
            parameters == parameter_types(*function),
            blocks == basic_blocks@,
            g == *control_flow_graph,
            g.back_edges@.len() == m,
            blocks_within(blocks, n as int),
            instruction_results@.len() == n,
            !(elision_blocks(s, lv, parameters, blocks, g, m as int) is None),
            elision_blocks(s, lv, parameters, blocks, g, b as int) == Some(Some((results_view(basic_blocks_results@), statuses_view(instruction_results@)))),
        decreases m - b,
    {
        let block = &basic_blocks[b];
        let ghost indices = block.instructions@;
        assert(forall|q: int| 0 <= q < indices.len() ==> #[trigger] indices[q] < n);
        let entry_points = &control_flow_graph.back_edges[b];
        let ghost preds = entry_points@;
        let ghost prior = (results_view(basic_blocks_results@), statuses_view(instruction_results@));
        let block_result: (Vec<RegisterNullStatus>, RegisterNullStatus);
        if entry_points.len() > 0 {
            let mut potentials_instructions: Vec<Vec<RegisterNullStatus>> = Vec::new();
            let mut potentials_registers: Vec<RegisterNullStatus> = Vec::new();
            let mut q: usize = 0;
            proof {
                assert(lists_view(potentials_instructions@) =~= Seq::empty());
                assert(statuses_view(potentials_registers@) =~= Seq::empty());
            }
            while q < entry_points.len()
                invariant
                    q <= preds.len(),
                    preds == entry_points@,
                    preds.len() > 0,
                    b < m,
                    m != 1,
                    g.back_edges@.len() == m,
                    m == blocks.len(),
                    n == s.len(),
                    s == mir_view(compilation_result.instructions@),
                    lv == registers_view(compilation_result.local_virtual_registers@),
                    parameters == parameter_types(*function),
                    blocks == basic_blocks@,
                    g == *control_flow_graph,
                    *block == blocks[b as int],
                    indices == block.instructions@,
                    preds == g.back_edges@[b as int]@,
                    forall|q: int| 0 <= q < indices.len() ==> #[trigger] indices[q] < n,
                    prior == (results_view(basic_blocks_results@), statuses_view(instruction_results@)),
                    elision_blocks(s, lv, parameters, blocks, g, b as int) == Some(Some(prior)),
                    !(elision_blocks(s, lv, parameters, blocks, g, m as int) is None),
                    pred_walks(prior.0, preds, s, indices, parameters, q as int) == Some(
                        Some((lists_view(potentials_instructions@), statuses_view(potentials_registers@))),
                    ),
                decreases preds.len() - q,
            {
                let p = entry_points[q].to;
                if p < basic_blocks_results.len() {
                    proof {
                        if block_walk(prior.0[p as int].1, s, indices, parameters, indices.len() as int) is None {
                            lemma_pred_walks_stop(prior.0, preds, s, indices, parameters, q + 1, preds.len() as int);
                            lemma_elision_blocks_stop(s, lv, parameters, blocks, g, b + 1, m as int);
                        }
                    }
                    let start = basic_blocks_results[p].1.clone();
                    let walked = compute_null_check_elision_for_block_internal(function, compilation_result, block, start);
                    let (potential_instructions, potential_registers) = walked;
                    let ghost before_i = potentials_instructions@;
                    let ghost before_r = potentials_registers@;
                    potentials_instructions.push(potential_instructions);
                    potentials_registers.push(potential_registers);
                    proof {
                        assert(lists_view(potentials_instructions@) =~= lists_view(before_i).push(statuses_view(walked.0@)));
                        assert(statuses_view(potentials_registers@) =~= statuses_view(before_r).push(walked.1@));
                    }
                } else {
                    proof {
                        assert(preds[q as int].to == p);
                        assert(pred_walks(prior.0, preds, s, indices, parameters, q + 1) == Some(
                            None::<(Seq<Seq<NullMap>>, Seq<NullMap>)>,
                        ));
                        lemma_pred_walks_stop(prior.0, preds, s, indices, parameters, q + 1, preds.len() as int);
                        assert(elision_blocks(s, lv, parameters, blocks, g, b + 1) == Some(
                            None::<(Seq<(Seq<NullMap>, NullMap)>, Seq<NullMap>)>,
                        ));
                        lemma_elision_blocks_stop(s, lv, parameters, blocks, g, b + 1, m as int);
                    }
                    return empty_statuses(n);
                }
                q = q + 1;
            }
            proof {
                lemma_pred_walks_len(prior.0, preds, s, indices, parameters, preds.len() as int);
                assert forall|j: int| 0 <= j < potentials_instructions@.len() implies (#[trigger] potentials_instructions@[j])@.len()
                    == indices.len() by {
                    assert(lists_view(potentials_instructions@)[j] == statuses_view(potentials_instructions@[j]@));
                }
            }
            block_result = merge_results(potentials_instructions, potentials_registers);
            proof {
                lemma_merge_all_lists_len(lists_view(potentials_instructions@), preds.len() as int);
            }
        } else {
            proof {
                if block_walk(locals_map(lv), s, indices, parameters, indices.len() as int) is None {
                    lemma_elision_blocks_stop(s, lv, parameters, blocks, g, b + 1, m as int);
                }
            }
            block_result = compute_null_check_elision_for_block(function, compilation_result, block);
            proof {
                lemma_block_walk_len(locals_map(lv), s, indices, parameters, indices.len() as int);
            }
        }
        let ghost w = (statuses_view(block_result.0@), block_result.1@);
        assert(elision_blocks(s, lv, parameters, blocks, g, b + 1) == Some(
            Some((prior.0.push(w), write_block(prior.1, indices, w.0, indices.len() as int))),
        ));
        let mut o: usize = 0;
        while o < block_result.0.len()
            invariant
                o <= indices.len(),
                block_result.0@.len() == indices.len(),
                w == (statuses_view(block_result.0@), block_result.1@),
                indices == block.instructions@,
                forall|q: int| 0 <= q < indices.len() ==> #[trigger] indices[q] < n,
                instruction_results@.len() == n,
                statuses_view(instruction_results@) == write_block(prior.1, indices, w.0, o as int),
            decreases indices.len() - o,
        {
            let instruction_index = block.instructions[o];
            let status = block_result.0[o].clone();
            let ghost before = statuses_view(instruction_results@);
            instruction_results.set(instruction_index, status);
            proof {
                assert(statuses_view(instruction_results@) =~= before.update(instruction_index as int, w.0[o as int]));
            }
            o = o + 1;
        }
        let ghost before_results = basic_blocks_results@;
        basic_blocks_results.push(block_result);
        proof {
            assert(results_view(basic_blocks_results@) =~= results_view(before_results).push(w));
        }
        b = b + 1;
    }
    instruction_results
}


/// What one instruction does to the null status of its destination: a
/// reference loaded from a field, an array element, a call's result, an
/// argument, or a null may be null; a new object or array is not; a copy of
/// a reference takes the status of its source. No other register changes.
pub proof fn law_null_step_destination(m: NullMap, d: InstructionMIRDataView, parameters: Seq<TypeIdView>)
    requires
        null_step(m, d, parameters) is Some,
    ensures
        ({
            let after = null_step(m, d, parameters)->0;
            match d {
                InstructionMIRDataView::LoadField(_, _, r, _) => is_reference_type(r.value_type) ==> after.contains_key(r)
                    && after[r] == true,
                InstructionMIRDataView::LoadElement(_, r, _, _) => is_reference_type(r.value_type) ==> after.contains_key(r)
                    && after[r] == true,
                InstructionMIRDataView::Call(_, Some(r), _) => is_reference_type(r.value_type) ==> after.contains_key(r)
                    && after[r] == true,
                InstructionMIRDataView::LoadArgument(index, r) => is_reference_type(parameters[index as int])
                    ==> after.contains_key(r) && after[r] == true,
                InstructionMIRDataView::LoadNull(r) => after.contains_key(r) && after[r] == true,
                InstructionMIRDataView::NewObject(_, r) => after.contains_key(r) && after[r] == false,
                InstructionMIRDataView::NewArray(_, r, _) => after.contains_key(r) && after[r] == false,
                InstructionMIRDataView::Move(r, source) => is_reference_type(r.value_type) && is_reference_type(
                    source.value_type,
                ) ==> m.contains_key(source) && after.contains_key(r) && after[r] == m[source],
                _ => after == m,
            }
        }),
        forall|q: RegisterMIRView|
            !(#[trigger] written_register(d) == Some(q)) ==> (null_step(m, d, parameters)->0.contains_key(q)
                == m.contains_key(q) && (m.contains_key(q) ==> null_step(m, d, parameters)->0[q] == m[q])),
{
}

/// The register whose status an instruction may set.
pub open spec fn written_register(d: InstructionMIRDataView) -> Option<RegisterMIRView> {
    match d {
        InstructionMIRDataView::LoadField(_, _, r, _) => Some(r),
        InstructionMIRDataView::LoadElement(_, r, _, _) => Some(r),
        InstructionMIRDataView::Call(_, r, _) => r,
        InstructionMIRDataView::LoadArgument(_, r) => Some(r),
        InstructionMIRDataView::LoadNull(r) => Some(r),
        InstructionMIRDataView::NewObject(_, r) => Some(r),
        InstructionMIRDataView::NewArray(_, r, _) => Some(r),
        InstructionMIRDataView::Move(r, _) => Some(r),
        _ => None,
    }
}

/// Only a new object or array, or a copy of a register known not to be
/// null, makes a register known not to be null: a register is marked "not
/// null" after an instruction only where it was so before and the
/// instruction did not write it, or the instruction is one of those.
pub proof fn law_null_step_not_null_sources(m: NullMap, d: InstructionMIRDataView, parameters: Seq<TypeIdView>, q: RegisterMIRView)
    requires
        null_step(m, d, parameters) is Some,
        null_step(m, d, parameters)->0.contains_key(q),
        null_step(m, d, parameters)->0[q] == false,
    ensures
        (written_register(d) != Some(q) && m.contains_key(q) && m[q] == false) || (d matches InstructionMIRDataView::NewObject(
            _,
            r,
        ) && r == q) || (d matches InstructionMIRDataView::NewArray(_, r, _) && r == q) || (d matches InstructionMIRDataView::Move(
            r,
            source,
        ) && r == q && m.contains_key(source) && m[source] == false) || (written_register(d) == Some(q) && !is_written_reference(
            d,
            parameters,
        ) && m.contains_key(q) && m[q] == false),
{
}

/// Whether the instruction sets the status of its destination: a reference
/// is loaded, copied or created.
pub open spec fn is_written_reference(d: InstructionMIRDataView, parameters: Seq<TypeIdView>) -> bool {
    match d {
        InstructionMIRDataView::LoadField(_, _, r, _) => is_reference_type(r.value_type),
        InstructionMIRDataView::LoadElement(_, r, _, _) => is_reference_type(r.value_type),
        InstructionMIRDataView::Call(_, Some(r), _) => is_reference_type(r.value_type),
        InstructionMIRDataView::LoadArgument(index, _) => is_reference_type(parameters[index as int]),
        InstructionMIRDataView::Move(r, source) => is_reference_type(r.value_type) && is_reference_type(source.value_type),
        InstructionMIRDataView::LoadNull(_) => true,
        InstructionMIRDataView::NewObject(..) => true,
        InstructionMIRDataView::NewArray(..) => true,
        _ => false,
    }
}


/// Where several paths meet, a register is known on the merged path when
/// some path knows it, and it may be null there when it may be null on
/// some path: it is known not to be null only where every path that knows
/// it says so.
pub proof fn law_merge_may_be_null(ms: Seq<NullMap>, k: int, r: RegisterMIRView)
    requires
        1 <= k <= ms.len(),
    ensures
        merge_all_maps(ms, k).contains_key(r) <==> exists|j: int| 0 <= j < k && #[trigger] ms[j].contains_key(r),
        merge_all_maps(ms, k).contains_key(r) ==> (merge_all_maps(ms, k)[r] <==> exists|j: int|
            0 <= j < k && #[trigger] ms[j].contains_key(r) && ms[j][r]),
    decreases k,
{
    if k > 1 {
        law_merge_may_be_null(ms, k - 1, r);
        let prior = merge_all_maps(ms, k - 1);
        let merged = merge_all_maps(ms, k);
        assert(merged == merge_maps(prior, ms[k - 1]));
        if merged.contains_key(r) {
            if merged[r] {
                if prior.contains_key(r) && prior[r] {
                    let j = choose|j: int| 0 <= j < k - 1 && #[trigger] ms[j].contains_key(r) && ms[j][r];
                    assert(0 <= j < k && ms[j].contains_key(r) && ms[j][r]);
                } else {
                    assert(ms[k - 1].contains_key(r) && ms[k - 1][r]);
                }
            } else {
                assert forall|j: int| 0 <= j < k && #[trigger] ms[j].contains_key(r) implies !ms[j][r] by {
                    if j < k - 1 {
                        assert(prior.contains_key(r));
                    }
                }
            }
        } else {
            assert forall|j: int| 0 <= j < k implies !#[trigger] ms[j].contains_key(r) by {
                if j < k - 1 {
                    assert(!prior.contains_key(r));
                }
            }
        }
        if exists|j: int| 0 <= j < k && #[trigger] ms[j].contains_key(r) {
            let j = choose|j: int| 0 <= j < k && #[trigger] ms[j].contains_key(r);
            if j < k - 1 {
                assert(prior.contains_key(r));
            }
        }
    }
}

} // verus!
