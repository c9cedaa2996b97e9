//! Analyses of the intermediate representation.
use vstd::prelude::*;
use crate::model::typesystem::TypeId;
use crate::mir::{RegisterMIR, RegisterMIRView, InstructionMIRView, InstructionMIRDataView, registers_view, mir_view, assign_register_spec, use_registers_spec, clone_registers};
use crate::mir::compiler::{MIRCompilationResult, compilable, compiled, compile_spec, local_registers, stack_registers, stack_register, result_register, local_register, ops, pops, pushes, depth_after, num_locals, translate, instruction_compilable, collect_signature, print_stack_frame_signature, function_labels, stacks_view};
use crate::model::function::Function;
use crate::model::binder::Binder;
use crate::model::instruction::{Instruction, BranchTarget};
use crate::compiler::ir::BranchLabel;
use crate::optimization::null_check_elision::RegisterNullStatus;

pub mod liveness;
pub mod basic_block;
pub mod control_flow_graph;

verus! {

/// What the optimizations found out about a compiled function: for each
/// instruction, which registers are known to be null or not null before it.
pub struct OptimizationResult {
    pub instructions_register_null_status: Vec<RegisterNullStatus>,
}

/// The register file that a register is allocated from.
#[derive(Clone, Copy, Debug, PartialEq, Eq, Structural, Hash, PartialOrd, Ord)]
pub enum VirtualRegisterType {
    Int,
    Float,
}

/// A register as the allocator sees it: its number and its register file.
#[derive(Clone, Copy, Debug, PartialEq, Eq, Structural, Hash, PartialOrd, Ord)]
pub struct VirtualRegister {
    pub number: u32,
    pub register_type: VirtualRegisterType,
}

/// Float registers go to the float file, all others to the integer file.
pub open spec fn virtual_register_of(r: RegisterMIRView) -> VirtualRegister {
    VirtualRegister {
        number: r.number,
        register_type: if r.value_type is Float32 {
            VirtualRegisterType::Float
        } else {
            VirtualRegisterType::Int
        },
    }
}

impl VirtualRegister {
    pub fn new(number: u32, register_type: VirtualRegisterType) -> (r: VirtualRegister)
        ensures
            r.number == number,
            r.register_type == register_type,
    {
        VirtualRegister { number, register_type }
    }

    pub fn from(register: &RegisterMIR) -> (r: VirtualRegister)
        ensures
            r == virtual_register_of(register@),
    {
        match register.value_type {
            TypeId::Float32 => VirtualRegister { number: register.number, register_type: VirtualRegisterType::Float },
            _ => VirtualRegister { number: register.number, register_type: VirtualRegisterType::Int },
        }
    }
}

/// The operand types recorded by verification follow the instructions: the
/// stack is empty before the first instruction, and each instruction leaves
/// the operands below the ones it takes untouched and the recorded depth
/// after it. Calls of the runtime functions `std.gc.collect` and
/// `std.gc.print_stack_frame` return nothing.
pub open spec fn records_follow(f: Function, b: Binder) -> bool {
    let n = f.spec_instructions().len() as int;
    &&& n > 0 ==> ops(f, 0).len() == 0
    &&& forall|i: int|
        0 <= i < n - 1 ==> {
            let keep = ops(f, i).len() - pops(f, b, i);
            &&& #[trigger] ops(f, i + 1).len() == depth_after(f, b, i)
            &&& ops(f, i + 1).take(keep) == ops(f, i).take(keep)
        }
    &&& forall|i: int|
        0 <= i < n ==> match #[trigger] f.spec_instructions()[i] {
            Instruction::Call(signature) => (signature@ == collect_signature() || signature@ == print_stack_frame_signature())
                ==> !pushes(f, b, i),
            _ => true,
        }
}

/// The instructions of a translation.
pub open spec fn compiled_instructions(s: Seq<(InstructionMIRView, Seq<RegisterMIRView>)>) -> Seq<InstructionMIRView> {
    s.map_values(|e: (InstructionMIRView, Seq<RegisterMIRView>)| e.0)
}

/// The operand stack registers that a translation records before each instruction.
pub open spec fn compiled_stacks(s: Seq<(InstructionMIRView, Seq<RegisterMIRView>)>) -> Seq<Seq<RegisterMIRView>> {
    s.map_values(|e: (InstructionMIRView, Seq<RegisterMIRView>)| e.1)
}

/// How many of the first `j` registers of `uses` are not locals.
pub open spec fn non_local_count(uses: Seq<RegisterMIRView>, locals: Seq<RegisterMIRView>, j: int) -> nat
    decreases j,
{
    if j <= 0 {
        0
    } else {
        non_local_count(uses, locals, j - 1) + if locals.contains(uses[j - 1]) {
            0nat
        } else {
            1nat
        }
    }
}

/// The operand stack after an instruction: one register is popped for each
/// register that it reads and that is not a local, and the register that it
/// writes is pushed unless it is a local.
pub open spec fn operand_stack_step(
    stack: Seq<RegisterMIRView>,
    data: InstructionMIRDataView,
    locals: Seq<RegisterMIRView>,
) -> Seq<RegisterMIRView> {
    let uses = use_registers_spec(data);
    let c = non_local_count(uses, locals, uses.len() as int);
    let popped = if c <= stack.len() {
        stack.take(stack.len() - c)
    } else {
        Seq::empty()
    };
    match assign_register_spec(data) {
        Some(r) => if locals.contains(r) {
            popped
        } else {
            popped.push(r)
        },
        None => popped,
    }
}

/// The operand stack before each instruction of `instructions`, and the
/// operand stack after the last one, starting from an empty stack.
pub open spec fn operand_stacks_spec(instructions: Seq<InstructionMIRView>, locals: Seq<RegisterMIRView>) -> (
    Seq<Seq<RegisterMIRView>>,
    Seq<RegisterMIRView>,
)
    decreases instructions.len(),
{
    if instructions.len() == 0 {
        (Seq::empty(), Seq::empty())
    } else {
        let (records, stack) = operand_stacks_spec(instructions.drop_last(), locals);
        (records.push(stack), operand_stack_step(stack, instructions.last().data, locals))
    }
}

fn contains_register(registers: &Vec<RegisterMIR>, register: &RegisterMIR) -> (r: bool)
    ensures
        r == registers_view(registers@).contains(register@),
{
    let mut i: usize = 0;
    while i < registers.len()
        invariant
            i <= registers@.len(),
            forall|j: int| 0 <= j < i ==> registers@[j]@ != register@,
        decreases registers@.len() - i,
    {
        if registers[i].is_same(register) {
            assert(registers_view(registers@)[i as int] == register@);
            return true;
        }
        i = i + 1;
    }
    proof {
        if registers_view(registers@).contains(register@) {
            let j = choose|j: int| 0 <= j < registers_view(registers@).len() && registers_view(registers@)[j] == register@;
            assert(registers@[j]@ == register@);
        }
    }
    false
}

proof fn lemma_count_all_non_local(uses: Seq<RegisterMIRView>, locals: Seq<RegisterMIRView>, j: int)
    requires
        0 <= j <= uses.len(),
        forall|k: int| 0 <= k < uses.len() ==> !locals.contains(#[trigger] uses[k]),
    ensures
        non_local_count(uses, locals, j) == j,
    decreases j,
{
    if j > 0 {
        lemma_count_all_non_local(uses, locals, j - 1);
    }
}

proof fn lemma_count_all_local(uses: Seq<RegisterMIRView>, locals: Seq<RegisterMIRView>, j: int)
    requires
        0 <= j <= uses.len(),
        forall|k: int| 0 <= k < uses.len() ==> locals.contains(#[trigger] uses[k]),
    ensures
        non_local_count(uses, locals, j) == 0,
    decreases j,
{
    if j > 0 {
        lemma_count_all_local(uses, locals, j - 1);
    }
}

/// The effect of an instruction that reads only stack registers, takes the
/// `pops` topmost operands, and writes the new top of stack when it pushes.
proof fn lemma_stack_effect(f: Function, b: Binder, i: int, data: InstructionMIRDataView)
    requires
        compilable(f, b),
        records_follow(f, b),
        0 <= i < f.spec_instructions().len() - 1,
        forall|k: int| 0 <= k < use_registers_spec(data).len() ==> !local_registers(f).contains(#[trigger] use_registers_spec(data)[k]),
        use_registers_spec(data).len() == pops(f, b, i),
        match assign_register_spec(data) {
            Some(r) => (pushes(f, b, i) && r == result_register(f, i, ops(f, i).len() - pops(f, b, i))) || (!pushes(f, b, i)
                && local_registers(f).contains(r)),
            None => !pushes(f, b, i),
        },
    ensures
        operand_stack_step(stack_registers(f, i), data, local_registers(f)) == stack_registers(f, i + 1),
{
    let uses = use_registers_spec(data);
    let locals = local_registers(f);
    assert(instruction_compilable(f, b, i));
    lemma_count_all_non_local(uses, locals, uses.len() as int);
    let d = ops(f, i).len() as int;
    let k = pops(f, b, i);
    let keep = d - k;
    assert(ops(f, i + 1).len() == depth_after(f, b, i));
    assert(ops(f, i + 1).take(keep) == ops(f, i).take(keep));
    let popped = stack_registers(f, i).take(keep);
    assert forall|p: int| 0 <= p < keep implies #[trigger] popped[p] == stack_registers(f, i + 1)[p] by {
        assert(ops(f, i + 1).take(keep)[p] == ops(f, i).take(keep)[p]);
    }
    if pushes(f, b, i) {
        assert(operand_stack_step(stack_registers(f, i), data, locals) =~= stack_registers(f, i + 1));
    } else {
        assert(operand_stack_step(stack_registers(f, i), data, locals) =~= stack_registers(f, i + 1));
    }
}

/// A register numbered at or above the number of locals is not a local register.
proof fn lemma_not_local(f: Function, r: RegisterMIRView)
    requires
        num_locals(f) < u32::MAX,
        r.number >= num_locals(f),
    ensures
        !local_registers(f).contains(r),
{
    if local_registers(f).contains(r) {
        let x = choose|x: int| 0 <= x < local_registers(f).len() && local_registers(f)[x] == r;
        assert(local_registers(f)[x].number == x as u32);
    }
}

/// Translating instruction `i` moves the recorded stack registers before
/// it to those before the next instruction.
proof fn lemma_translate_step(f: Function, b: Binder, i: int)
    requires
        compilable(f, b),
        records_follow(f, b),
        0 <= i < f.spec_instructions().len() - 1,
        !(f.spec_instructions()[i] is LoadArrayLength),
    ensures
        operand_stack_step(stack_registers(f, i), translate(f, b, i), local_registers(f)) == stack_registers(f, i + 1),
{
    assert(instruction_compilable(f, b, i));
    let d = ops(f, i).len() as int;
    let locals = local_registers(f);
    assert forall|p: int| 0 <= p < d implies !locals.contains(#[trigger] stack_register(f, i, p)) by {
        lemma_not_local(f, stack_register(f, i, p));
    }
    assert forall|p: int| 0 <= p <= d implies !locals.contains(#[trigger] result_register(f, i, p)) by {
        lemma_not_local(f, result_register(f, i, p));
    }
    let data = translate(f, b, i);
    let uses = use_registers_spec(data);
    match f.spec_instructions()[i] {
        Instruction::LoadLocal(x) => {
            assert(locals[x as int] == local_register(f, x as int));
            assert(locals.contains(uses[0]));
            lemma_count_all_local(uses, locals, 1);
            let popped = stack_registers(f, i).take(d);
            assert(popped =~= stack_registers(f, i));
            assert forall|p: int| 0 <= p < d implies #[trigger] stack_registers(f, i)[p] == stack_registers(f, i + 1)[p] by {
                assert(ops(f, i + 1).take(d)[p] == ops(f, i).take(d)[p]);
            }
            assert(operand_stack_step(stack_registers(f, i), data, locals) =~= stack_registers(f, i + 1));
        },
        Instruction::StoreLocal(x) => {
            assert(locals[x as int] == local_register(f, x as int));
            lemma_stack_effect(f, b, i, data);
        },
        Instruction::Call(signature) => {
            if signature@ == collect_signature() || signature@ == print_stack_frame_signature() {
                lemma_stack_effect(f, b, i, data);
            } else {
                assert forall|k: int| 0 <= k < uses.len() implies !locals.contains(#[trigger] uses[k]) by {
                    assert(uses[k] == stack_register(f, i, d - pops(f, b, i) + k));
                }
                lemma_stack_effect(f, b, i, data);
            }
        },
        _ => {
            lemma_stack_effect(f, b, i, data);
        },
    }
}

proof fn lemma_stacks_push(
    s: Seq<(InstructionMIRView, Seq<RegisterMIRView>)>,
    e: (InstructionMIRView, Seq<RegisterMIRView>),
    locals: Seq<RegisterMIRView>,
)
    ensures
        operand_stacks_spec(compiled_instructions(s.push(e)), locals) == (
            operand_stacks_spec(compiled_instructions(s), locals).0.push(operand_stacks_spec(compiled_instructions(s), locals).1),
            operand_stack_step(operand_stacks_spec(compiled_instructions(s), locals).1, e.0.data, locals),
        ),
        compiled_stacks(s.push(e)) == compiled_stacks(s).push(e.1),
{
    assert(compiled_instructions(s.push(e)).drop_last() =~= compiled_instructions(s));
    assert(compiled_stacks(s.push(e)) =~= compiled_stacks(s).push(e.1));
}

proof fn lemma_compiled_prefix(f: Function, b: Binder, i: int)
    requires
        compilable(f, b),
        records_follow(f, b),
        forall|k: int| 0 <= k < f.spec_instructions().len() ==> !(#[trigger] f.spec_instructions()[k] is LoadArrayLength),
        0 <= i <= f.spec_instructions().len(),
    ensures
        operand_stacks_spec(compiled_instructions(compile_spec(f, b, i)), local_registers(f)).0 == compiled_stacks(
            compile_spec(f, b, i),
        ),
        i < f.spec_instructions().len() ==> operand_stacks_spec(compiled_instructions(compile_spec(f, b, i)), local_registers(f)).1
            == stack_registers(f, i),
    decreases i,
{
    let locals = local_registers(f);
    if i == 0 {
        assert(compiled_instructions(compile_spec(f, b, 0)) =~= Seq::<InstructionMIRView>::empty());
        assert(compiled_stacks(compile_spec(f, b, 0)) =~= Seq::<Seq<RegisterMIRView>>::empty());
        if f.spec_instructions().len() > 0 {
            assert(stack_registers(f, 0) =~= Seq::<RegisterMIRView>::empty());
        }
    } else {
        let j = i - 1;
        lemma_compiled_prefix(f, b, j);
        let before = compile_spec(f, b, j);
        let labels = function_labels(f);
        let stack = stack_registers(f, j);
        let with_label = if labels.contains_key(j as BranchTarget) {
            before.push((InstructionMIRView { index: j, data: InstructionMIRDataView::BranchLabel(labels[j as BranchTarget]) }, stack))
        } else {
            before
        };
        if labels.contains_key(j as BranchTarget) {
            let e = (InstructionMIRView { index: j, data: InstructionMIRDataView::BranchLabel(labels[j as BranchTarget]) }, stack);
            lemma_stacks_push(before, e, locals);
            assert(stack.take(stack.len() as int) =~= stack);
        }
        assert(operand_stacks_spec(compiled_instructions(with_label), locals).0 == compiled_stacks(with_label));
        assert(operand_stacks_spec(compiled_instructions(with_label), locals).1 == stack);
        let main = (InstructionMIRView { index: j, data: translate(f, b, j) }, stack);
        lemma_stacks_push(with_label, main, locals);
        assert(compile_spec(f, b, i) == with_label.push(main));
        if i < f.spec_instructions().len() {
            lemma_translate_step(f, b, j);
        }
    }
}

/// For a function whose recorded operand types follow its instructions
/// (as verification records them), the operand stacks that the translation
/// records are those that `determine_instructions_operand_stack` computes
/// from the translated instructions. (`LoadArrayLength` is left out: its
/// translation lists no read register, so the computed stack keeps the
/// array reference that the recorded one drops.)
pub proof fn lemma_compiled_operand_stacks(f: Function, b: Binder)
    requires
        compilable(f, b),
        records_follow(f, b),
        forall|k: int| 0 <= k < f.spec_instructions().len() ==> !(#[trigger] f.spec_instructions()[k] is LoadArrayLength),
    ensures
        operand_stacks_spec(compiled_instructions(compiled(f, b)), local_registers(f)).0 == compiled_stacks(compiled(f, b)),
{
    lemma_compiled_prefix(f, b, f.spec_instructions().len() as int);
}

/// The operand stack registers before each instruction: starting from an
/// empty stack, each instruction pops one register for every register that
/// it reads that is not a local, and pushes the register that it writes
/// unless it is a local.
pub fn determine_instructions_operand_stack(compilation_result: &MIRCompilationResult) -> (r: Vec<Vec<RegisterMIR>>)
    ensures
        stacks_view(r@) == operand_stacks_spec(
            mir_view(compilation_result.instructions@),
            registers_view(compilation_result.local_virtual_registers@),
        ).0,
{
    let instructions = &compilation_result.instructions;
    let locals = &compilation_result.local_virtual_registers;
    let ghost lv = registers_view(locals@);
    let ghost s = mir_view(instructions@);
    let mut operand_stack: Vec<RegisterMIR> = Vec::new();
    let mut instructions_operands: Vec<Vec<RegisterMIR>> = Vec::new();
    let mut i: usize = 0;
    while i < instructions.len()
        invariant
            i <= instructions@.len(),
            lv == registers_view(locals@),
            s == mir_view(instructions@),
            (stacks_view(instructions_operands@), registers_view(operand_stack@)) == operand_stacks_spec(s.take(i as int), lv),
        decreases instructions@.len() - i,
    {
        let ghost before = registers_view(operand_stack@);
        let ghost records = stacks_view(instructions_operands@);
        instructions_operands.push(clone_registers(&operand_stack));
        assert(stacks_view(instructions_operands@) =~= records.push(before));
        let data = &instructions[i].data;
        let uses = data.use_registers();
        let ghost uv = registers_view(uses@);
        let num_uses = uses.len();
        let mut j: usize = num_uses;
        let mut popped: usize = 0;
        while j > 0
            invariant
                j <= uses@.len(),
                uv == registers_view(uses@),
                uv == use_registers_spec(data@),
                lv == registers_view(locals@),
                popped + non_local_count(uv, lv, j as int) == non_local_count(uv, lv, uv.len() as int),
                num_uses == uses@.len(),
                popped <= num_uses - j,
                registers_view(operand_stack@) == (if popped <= before.len() {
                    before.take(before.len() - popped)
                } else {
                    Seq::empty()
                }),
            decreases j,
        {
            j = j - 1;
            if !contains_register(locals, &uses[j]) {
                assert(uv[j as int] == uses@[j as int]@);
                let ghost prev = operand_stack@;
                let ghost old_popped = popped;
                operand_stack.pop();
                proof {
                    if prev.len() > 0 {
                        assert(operand_stack@ =~= prev.drop_last());
                        assert(registers_view(operand_stack@) =~= registers_view(prev).drop_last());
                    } else {
                        assert(operand_stack@ =~= prev);
                    }
                }
                popped = popped + 1;
                proof {
                    if popped <= before.len() {
                        assert(registers_view(prev) == before.take(before.len() - old_popped));
                        assert(registers_view(operand_stack@) =~= before.take(before.len() - popped));
                    } else {
                        assert(registers_view(operand_stack@) =~= Seq::<RegisterMIRView>::empty());
                    }
                }
            } else {
                assert(uv[j as int] == uses@[j as int]@);
            }
        }
        match data.assign_register() {
            Some(register) => {
                if !contains_register(locals, &register) {
                    operand_stack.push(register);
                }
            },
            None => {},
        }
        proof {
            let t = s.take(i + 1);
            assert(t.drop_last() =~= s.take(i as int));
            assert(t.last() == s[i as int]);
            assert(s[i as int] == instructions@[i as int]@);
            assert(registers_view(operand_stack@) =~= operand_stack_step(before, data@, lv));
        }
        i = i + 1;
    }
    assert(s.take(i as int) =~= s);
    instructions_operands
}

} // verus!
