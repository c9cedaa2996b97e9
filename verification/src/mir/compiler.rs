//! Translation of a verified stack-machine function into the register-based
//! intermediate representation. Local `k` becomes register `k`; the operand
//! stack slot at depth `p` becomes register `locals + p`, typed by the operand
//! types that verification recorded.
use vstd::prelude::*;
use crate::model::typesystem::{TypeId, TypeIdView, types_view};
use crate::model::function::{Function, FunctionDeclaration};
use crate::model::instruction::{Instruction, BranchTarget, spec_branch_target};
use crate::model::binder::Binder;
use crate::model::typesystem::TypeStorage;
use crate::model::verification::{Verifier, VerifyError, ErrorView, verify_spec, verified_records, run_spec, step_spec, operand_types_before, lemma_run_prefix};
use crate::analysis::records_follow;
use crate::model::class::str_equal;
use crate::compiler::ir::{BranchLabel, Condition};
use crate::mir::{RegisterMIR, RegisterMIRView, InstructionMIR, InstructionMIRData, InstructionMIRView, InstructionMIRDataView, registers_view, clone_registers, use_registers_spec, assign_register_spec};
use crate::mir::branches::{BranchManager, labels_spec};

verus! {

/// The operand types recorded before instruction `i`.
pub open spec fn ops(f: Function, i: int) -> Seq<TypeIdView> {
    types_view(f.spec_operand_types(i))
}

pub open spec fn num_locals(f: Function) -> int {
    f.spec_locals().len() as int
}

/// The register of the operand stack slot `p` before instruction `i`.
pub open spec fn stack_register(f: Function, i: int, p: int) -> RegisterMIRView {
    RegisterMIRView { number: (num_locals(f) + p) as u32, value_type: ops(f, i)[p] }
}

/// The register of the operand stack slot `p` after instruction `i`.
pub open spec fn result_register(f: Function, i: int, p: int) -> RegisterMIRView {
    RegisterMIRView { number: (num_locals(f) + p) as u32, value_type: ops(f, i + 1)[p] }
}

/// The register of local `x`.
pub open spec fn local_register(f: Function, x: int) -> RegisterMIRView {
    RegisterMIRView { number: x as u32, value_type: f.spec_locals()[x]@ }
}

/// The registers of the whole operand stack before instruction `i`.
pub open spec fn stack_registers(f: Function, i: int) -> Seq<RegisterMIRView> {
    Seq::new(ops(f, i).len(), |p: int| stack_register(f, i, p))
}

/// The registers of the stack slots `from..to` before instruction `i`.
pub open spec fn stack_registers_range(f: Function, i: int, from: int, to: int) -> Seq<RegisterMIRView> {
    Seq::new((to - from) as nat, |p: int| stack_register(f, i, from + p))
}

/// The registers of all locals.
pub open spec fn local_registers(f: Function) -> Seq<RegisterMIRView> {
    Seq::new(f.spec_locals().len(), |x: int| local_register(f, x))
}

pub open spec fn callee(b: Binder, signature: (Seq<char>, Seq<TypeIdView>)) -> FunctionDeclaration {
    b.lookup(signature)->0
}

pub open spec fn collect_signature() -> (Seq<char>, Seq<TypeIdView>) {
    ("std.gc.collect"@, Seq::empty())
}

pub open spec fn print_stack_frame_signature() -> (Seq<char>, Seq<TypeIdView>) {
    ("std.gc.print_stack_frame"@, Seq::empty())
}

/// How many operands instruction `i` takes from the operand stack.
pub open spec fn pops(f: Function, b: Binder, i: int) -> int {
    match f.spec_instructions()[i] {
        Instruction::StoreLocal(_) => 1,
        Instruction::Add => 2,
        Instruction::Sub => 2,
        Instruction::Call(signature) => signature@.1.len() as int,
        Instruction::Return => if f.spec_declaration().spec_return_type()@ is Void {
            0
        } else {
            1
        },
        Instruction::NewArray(_) => 1,
        Instruction::LoadElement(_) => 2,
        Instruction::StoreElement(_) => 3,
        Instruction::LoadArrayLength => 1,
        Instruction::LoadField(_, _) => 1,
        Instruction::StoreField(_, _) => 2,
        Instruction::BranchEqual(_) => 2,
        Instruction::BranchNotEqual(_) => 2,
        Instruction::BranchGreaterThan(_) => 2,
        Instruction::BranchGreaterThanOrEqual(_) => 2,
        Instruction::BranchLessThan(_) => 2,
        Instruction::BranchLessThanOrEqual(_) => 2,
        _ => 0,
    }
}

/// Whether instruction `i` puts a value on the operand stack.
pub open spec fn pushes(f: Function, b: Binder, i: int) -> bool {
    match f.spec_instructions()[i] {
        Instruction::LoadInt32(_) => true,
        Instruction::LoadFloat32(_) => true,
        Instruction::LoadNull(_) => true,
        Instruction::LoadLocal(_) => true,
        Instruction::Add => true,
        Instruction::Sub => true,
        Instruction::Call(signature) => !(callee(b, signature@).spec_return_type()@ is Void),
        Instruction::LoadArgument(_) => true,
        Instruction::NewArray(_) => true,
        Instruction::LoadElement(_) => true,
        Instruction::LoadArrayLength => true,
        Instruction::NewObject(_) => true,
        Instruction::LoadField(_, _) => true,
        _ => false,
    }
}

/// The operand stack depth after instruction `i`.
pub open spec fn depth_after(f: Function, b: Binder, i: int) -> int {
    ops(f, i).len() - pops(f, b, i) + if pushes(f, b, i) {
        1int
    } else {
        0int
    }
}

/// What the translation of instruction `i` needs from the function: the
/// operands that it takes are on the recorded operand stack, the locals,
/// arguments and callee that it names exist, arithmetic is on `Int` or
/// `Float` operands, register numbers fit in 32 bits, and a value that it
/// pushes is typed by the record of the next instruction.
pub open spec fn instruction_compilable(f: Function, b: Binder, i: int) -> bool {
    let n = f.spec_instructions().len() as int;
    let d = ops(f, i).len() as int;
    &&& pops(f, b, i) <= d
    &&& num_locals(f) + d + 1 <= u32::MAX
    &&& pushes(f, b, i) ==> i + 1 < n && ops(f, i + 1).len() == depth_after(f, b, i)
    &&& match f.spec_instructions()[i] {
        Instruction::LoadLocal(x) => x < num_locals(f),
        Instruction::StoreLocal(x) => x < num_locals(f),
        Instruction::LoadArgument(x) => x < f.spec_declaration().spec_parameters().len(),
        Instruction::Call(signature) => b.lookup(signature@) is Some,
        Instruction::Add => ops(f, i)[d - 1] is Int32 || ops(f, i)[d - 1] is Float32,
        Instruction::Sub => ops(f, i)[d - 1] is Int32 || ops(f, i)[d - 1] is Float32,
        _ => true,
    }
}

/// Every instruction of the function can be translated.
pub open spec fn compilable(f: Function, b: Binder) -> bool {
    &&& f.wf()
    &&& b.wf()
    &&& f.spec_instructions().len() <= u32::MAX
    &&& forall|i: int| 0 <= i < f.spec_instructions().len() ==> #[trigger] instruction_compilable(f, b, i)
}

/// The labels of the branch targets of the function.
pub open spec fn function_labels(f: Function) -> Map<BranchTarget, BranchLabel> {
    labels_spec(f.spec_instructions(), f.spec_instructions().len() as int).0
}

pub open spec fn condition_of(instruction: Instruction) -> Condition {
    match instruction {
        Instruction::BranchEqual(_) => Condition::Equal,
        Instruction::BranchNotEqual(_) => Condition::NotEqual,
        Instruction::BranchGreaterThan(_) => Condition::GreaterThan,
        Instruction::BranchGreaterThanOrEqual(_) => Condition::GreaterThanOrEqual,
        Instruction::BranchLessThan(_) => Condition::LessThan,
        _ => Condition::LessThanOrEqual,
    }
}

/// The intermediate instruction that instruction `i` is translated into.
pub open spec fn translate(f: Function, b: Binder, i: int) -> InstructionMIRDataView {
    let d = ops(f, i).len() as int;
    let labels = function_labels(f);
    match f.spec_instructions()[i] {
        Instruction::LoadInt32(v) => InstructionMIRDataView::LoadInt32(result_register(f, i, d), v),
        Instruction::LoadFloat32(t) => InstructionMIRDataView::LoadFloat32(result_register(f, i, d), t@),
        Instruction::LoadNull(_) => InstructionMIRDataView::LoadNull(result_register(f, i, d)),
        Instruction::LoadLocal(x) => InstructionMIRDataView::Move(result_register(f, i, d), local_register(f, x as int)),
        Instruction::StoreLocal(x) => InstructionMIRDataView::Move(local_register(f, x as int), stack_register(f, i, d - 1)),
        Instruction::Add => if ops(f, i)[d - 1] is Float32 {
            InstructionMIRDataView::AddFloat32(result_register(f, i, d - 2), stack_register(f, i, d - 2), stack_register(f, i, d - 1))
        } else {
            InstructionMIRDataView::AddInt32(result_register(f, i, d - 2), stack_register(f, i, d - 2), stack_register(f, i, d - 1))
        },
        Instruction::Sub => if ops(f, i)[d - 1] is Float32 {
            InstructionMIRDataView::SubFloat32(result_register(f, i, d - 2), stack_register(f, i, d - 2), stack_register(f, i, d - 1))
        } else {
            InstructionMIRDataView::SubInt32(result_register(f, i, d - 2), stack_register(f, i, d - 2), stack_register(f, i, d - 1))
        },
        Instruction::Call(signature) => if signature@ == collect_signature() {
            InstructionMIRDataView::GarbageCollect
        } else if signature@ == print_stack_frame_signature() {
            InstructionMIRDataView::PrintStackFrame
        } else {
            let k = pops(f, b, i);
            InstructionMIRDataView::Call(
                signature@,
                if pushes(f, b, i) {
                    Some(result_register(f, i, d - k))
                } else {
                    None
                },
                stack_registers_range(f, i, d - k, d),
            )
        },
        Instruction::LoadArgument(x) => InstructionMIRDataView::LoadArgument(x, result_register(f, i, d)),
        Instruction::Return => InstructionMIRDataView::Return(
            if f.spec_declaration().spec_return_type()@ is Void {
                None
            } else {
                Some(stack_register(f, i, d - 1))
            },
        ),
        Instruction::NewArray(e) => InstructionMIRDataView::NewArray(e@, result_register(f, i, d - 1), stack_register(f, i, d - 1)),
        Instruction::LoadElement(e) => InstructionMIRDataView::LoadElement(
            e@,
            result_register(f, i, d - 2),
            stack_register(f, i, d - 2),
            stack_register(f, i, d - 1),
        ),
        Instruction::StoreElement(e) => InstructionMIRDataView::StoreElement(
            e@,
            stack_register(f, i, d - 3),
            stack_register(f, i, d - 2),
            stack_register(f, i, d - 1),
        ),
        Instruction::LoadArrayLength => InstructionMIRDataView::LoadArrayLength(result_register(f, i, d - 1), stack_register(f, i, d - 1)),
        Instruction::NewObject(c) => InstructionMIRDataView::NewObject(TypeIdView::Class(c@), result_register(f, i, d)),
        Instruction::LoadField(c, field) => InstructionMIRDataView::LoadField(
            TypeIdView::Class(c@),
            field@,
            result_register(f, i, d - 1),
            stack_register(f, i, d - 1),
        ),
        Instruction::StoreField(c, field) => InstructionMIRDataView::StoreField(
            TypeIdView::Class(c@),
            field@,
            stack_register(f, i, d - 2),
            stack_register(f, i, d - 1),
        ),
        Instruction::Branch(t) => InstructionMIRDataView::Branch(labels[t]),
        Instruction::BranchEqual(t) => conditional_branch(f, i, labels[t]),
        Instruction::BranchNotEqual(t) => conditional_branch(f, i, labels[t]),
        Instruction::BranchGreaterThan(t) => conditional_branch(f, i, labels[t]),
        Instruction::BranchGreaterThanOrEqual(t) => conditional_branch(f, i, labels[t]),
        Instruction::BranchLessThan(t) => conditional_branch(f, i, labels[t]),
        Instruction::BranchLessThanOrEqual(t) => conditional_branch(f, i, labels[t]),
    }
}

/// A conditional branch on the two topmost operands, compared as values of
/// the type of the top operand.
pub open spec fn conditional_branch(f: Function, i: int, label: BranchLabel) -> InstructionMIRDataView {
    let d = ops(f, i).len() as int;
    InstructionMIRDataView::BranchCondition(
        condition_of(f.spec_instructions()[i]),
        ops(f, i)[d - 1],
        label,
        stack_register(f, i, d - 2),
        stack_register(f, i, d - 1),
    )
}

/// The intermediate instructions of the first `n` instructions, each paired
/// with the operand stack registers before it: a `BranchLabel` in front of
/// every branch target, then the translation of the instruction.
pub open spec fn compile_spec(f: Function, b: Binder, n: int) -> Seq<(InstructionMIRView, Seq<RegisterMIRView>)>
    decreases n,
{
    if n <= 0 {
        Seq::empty()
    } else {
        let i = n - 1;
        let before = compile_spec(f, b, i);
        let labels = function_labels(f);
        let stack = stack_registers(f, i);
        let with_label = if labels.contains_key(i as BranchTarget) {
            before.push((InstructionMIRView { index: i, data: InstructionMIRDataView::BranchLabel(labels[i as BranchTarget]) }, stack))
        } else {
            before
        };
        with_label.push((InstructionMIRView { index: i, data: translate(f, b, i) }, stack))
    }
}

/// The translation of the whole function.
pub open spec fn compiled(f: Function, b: Binder) -> Seq<(InstructionMIRView, Seq<RegisterMIRView>)> {
    compile_spec(f, b, f.spec_instructions().len() as int)
}

pub open spec fn stacks_view(s: Seq<Vec<RegisterMIR>>) -> Seq<Seq<RegisterMIRView>> {
    s.map_values(|v: Vec<RegisterMIR>| registers_view(v@))
}

/// The outcome of translating a function.
pub struct MIRCompilationResult {
    pub instructions: Vec<InstructionMIR>,
    /// The registers of the locals, by local index.
    pub local_virtual_registers: Vec<RegisterMIR>,
    /// The operand stack registers before each instruction.
    pub instructions_operand_stack: Vec<Vec<RegisterMIR>>,
    /// The number of registers: one per local and per operand stack slot.
    pub num_virtual_registers: usize,
}

/// Every target of a branch among the first `n` instructions has a label.
pub proof fn lemma_targets_labelled(instructions: Seq<Instruction>, n: int, i: int)
    requires
        0 <= i < n <= instructions.len(),
        spec_branch_target(instructions[i]) is Some,
    ensures
        labels_spec(instructions, n).0.contains_key(spec_branch_target(instructions[i])->0),
    decreases n,
{
    if i < n - 1 {
        lemma_targets_labelled(instructions, n - 1, i);
    }
}

/// Translates a verified function into the intermediate representation.
pub struct InstructionMIRCompiler<'a> {
    binder: &'a Binder,
    function: &'a Function,
    branch_manager: BranchManager,
    instructions: Vec<InstructionMIR>,
    instructions_operand_stack: Vec<Vec<RegisterMIR>>,
    local_virtual_registers: Vec<RegisterMIR>,
}

impl<'a> InstructionMIRCompiler<'a> {
    pub closed spec fn spec_binder(&self) -> Binder {
        *self.binder
    }

    pub closed spec fn spec_function(&self) -> Function {
        *self.function
    }

    /// The intermediate instructions emitted so far, each with the operand
    /// stack registers before it.
    pub closed spec fn emitted(&self) -> Seq<(InstructionMIRView, Seq<RegisterMIRView>)> {
        Seq::new(self.instructions@.len(), |k: int| (self.instructions@[k]@, registers_view(self.instructions_operand_stack@[k]@)))
    }

    pub closed spec fn spec_local_registers(&self) -> Seq<RegisterMIRView> {
        registers_view(self.local_virtual_registers@)
    }

    /// Nothing has been compiled yet.
    pub closed spec fn is_fresh(&self) -> bool {
        &&& self.instructions@.len() == 0
        &&& self.instructions_operand_stack@.len() == 0
        &&& self.local_virtual_registers@.len() == 0
        &&& self.branch_manager.labels() == Map::<BranchTarget, BranchLabel>::empty()
        &&& self.branch_manager.next_label() == 0
    }

    /// The whole function has been compiled.
    pub closed spec fn is_done(&self) -> bool {
        &&& self.instructions@.len() == self.instructions_operand_stack@.len()
        &&& self.emitted() == compiled(*self.function, *self.binder)
        &&& self.spec_local_registers() == local_registers(*self.function)
    }

    pub fn new(binder: &'a Binder, function: &'a Function) -> (r: InstructionMIRCompiler<'a>)
        ensures
            r.spec_binder() == *binder,
            r.spec_function() == *function,
            r.is_fresh(),
    {
        InstructionMIRCompiler {
            binder,
            function,
            branch_manager: BranchManager::new(),
            instructions: Vec::new(),
            instructions_operand_stack: Vec::new(),
            local_virtual_registers: Vec::new(),
        }
    }

    /// Compiles `instructions`, the instructions of the function.
    pub fn compile(&mut self, instructions: &Vec<Instruction>)
        requires
            old(self).is_fresh(),
            instructions@ == old(self).spec_function().spec_instructions(),
            compilable(old(self).spec_function(), old(self).spec_binder()),
        ensures
            final(self).spec_binder() == old(self).spec_binder(),
            final(self).spec_function() == old(self).spec_function(),
            final(self).is_done(),
    {
        self.branch_manager.define_branch_labels(instructions);
        let locals = self.function.locals();
        let mut x: usize = 0;
        while x < locals.len()
            invariant
                x <= locals@.len(),
                locals@ == self.function.spec_locals(),
                compilable(*self.function, *self.binder),
                self.binder == old(self).binder,
                self.function == old(self).function,
                instructions@ == self.function.spec_instructions(),
                self.branch_manager.labels() == function_labels(*self.function),
                self.instructions@.len() == 0,
                self.instructions_operand_stack@.len() == 0,
                registers_view(self.local_virtual_registers@) == local_registers(*self.function).subrange(0, x as int),
            decreases locals@.len() - x,
        {
            let register = RegisterMIR::new(#[verifier::truncate] (x as u32), locals[x].clone());
            let ghost before = registers_view(self.local_virtual_registers@);
            assert(register@ == local_register(*self.function, x as int));
            self.local_virtual_registers.push(register);
            assert(registers_view(self.local_virtual_registers@) =~= before.push(register@));
            x = x + 1;
            assert(registers_view(self.local_virtual_registers@) =~= local_registers(*self.function).subrange(0, x as int));
        }
        assert(registers_view(self.local_virtual_registers@) =~= local_registers(*self.function));
        assert(self.emitted() =~= compile_spec(*self.function, *self.binder, 0));
        let mut i: usize = 0;
        while i < instructions.len()
            invariant
                i <= instructions@.len(),
                instructions@ == self.function.spec_instructions(),
                compilable(*self.function, *self.binder),
                self.binder == old(self).binder,
                self.function == old(self).function,
                self.branch_manager.labels() == function_labels(*self.function),
                self.instructions@.len() == self.instructions_operand_stack@.len(),
                self.emitted() == compile_spec(*self.function, *self.binder, i as int),
                registers_view(self.local_virtual_registers@) == local_registers(*self.function),
            decreases instructions@.len() - i,
        {
            self.compile_instruction(i);
            i = i + 1;
        }
    }

    /// The registers of the operand stack slots `from..to` before instruction `i`.
    fn stack_registers_from(&self, i: usize, from: usize, to: usize) -> (r: Vec<RegisterMIR>)
        requires
            compilable(*self.function, *self.binder),
            i < self.function.spec_instructions().len(),
            from <= to <= ops(*self.function, i as int).len(),
        ensures
            registers_view(r@) == stack_registers_range(*self.function, i as int, from as int, to as int),
    {
        proof {
            assert(instruction_compilable(*self.function, *self.binder, i as int));
        }
        let types = self.function.instruction_operand_types(i);
        let num_locals = self.function.locals().len();
        let mut r: Vec<RegisterMIR> = Vec::new();
        let mut p: usize = from;
        while p < to
            invariant
                from <= p <= to,
                to <= types@.len(),
                types@ == self.function.spec_operand_types(i as int),
                num_locals == self.function.spec_locals().len(),
                num_locals + types@.len() + 1 <= u32::MAX,
                registers_view(r@) == stack_registers_range(*self.function, i as int, from as int, p as int),
            decreases to - p,
        {
            let register = RegisterMIR::new((num_locals + p) as u32, types[p].clone());
            let ghost before = registers_view(r@);
            assert(register@ == stack_register(*self.function, i as int, p as int));
            r.push(register);
            assert(registers_view(r@) =~= before.push(register@));
            assert(stack_registers_range(*self.function, i as int, from as int, p + 1) =~= stack_registers_range(
                *self.function,
                i as int,
                from as int,
                p as int,
            ).push(stack_register(*self.function, i as int, p as int)));
            p = p + 1;
        }
        r
    }

    /// The register of the operand stack slot `p` before instruction `i`.
    fn stack_register_at(&self, i: usize, p: usize) -> (r: RegisterMIR)
        requires
            compilable(*self.function, *self.binder),
            i < self.function.spec_instructions().len(),
            p < ops(*self.function, i as int).len(),
        ensures
            r@ == stack_register(*self.function, i as int, p as int),
    {
        proof {
            assert(instruction_compilable(*self.function, *self.binder, i as int));
        }
        let types = self.function.instruction_operand_types(i);
        let num_locals = self.function.locals().len();
        RegisterMIR::new((num_locals + p) as u32, types[p].clone())
    }

    /// The register of the operand stack slot `p` after instruction `i`.
    fn result_register_at(&self, i: usize, p: usize) -> (r: RegisterMIR)
        requires
            compilable(*self.function, *self.binder),
            i < self.function.spec_instructions().len(),
            pushes(*self.function, *self.binder, i as int),
            p < depth_after(*self.function, *self.binder, i as int),
        ensures
            r@ == result_register(*self.function, i as int, p as int),
    {
        proof {
            assert(instruction_compilable(*self.function, *self.binder, i as int));
        }
        let types = self.function.instruction_operand_types(i + 1);
        let num_locals = self.function.locals().len();
        RegisterMIR::new((num_locals + p) as u32, types[p].clone())
    }

    /// The register of local `x`.
    fn local_register_at(&self, x: u32) -> (r: RegisterMIR)
        requires
            x < self.function.spec_locals().len(),
        ensures
            r@ == local_register(*self.function, x as int),
    {
        let locals = self.function.locals();
        RegisterMIR::new(x, locals[x as usize].clone())
    }

    fn emit(&mut self, index: usize, data: InstructionMIRData, stack: &Vec<RegisterMIR>)
        ensures
            final(self).binder == old(self).binder,
            final(self).function == old(self).function,
            final(self).branch_manager == old(self).branch_manager,
            final(self).local_virtual_registers == old(self).local_virtual_registers,
            final(self).instructions@ == old(self).instructions@.push(InstructionMIR { index, data }),
            final(self).instructions_operand_stack@.len() == old(self).instructions_operand_stack@.len() + 1,
            old(self).instructions@.len() == old(self).instructions_operand_stack@.len() ==> final(self).emitted()
                == old(self).emitted().push((InstructionMIR { index, data }@, registers_view(stack@))),
    {
        let ghost before = self.emitted();
        self.instructions.push(InstructionMIR::new(index, data));
        self.instructions_operand_stack.push(clone_registers(stack));
        proof {
            if old(self).instructions@.len() == old(self).instructions_operand_stack@.len() {
                assert(self.emitted() =~= before.push((InstructionMIR { index, data }@, registers_view(stack@))));
            }
        }
    }

    fn compile_instruction(&mut self, i: usize)
        requires
            i < old(self).function.spec_instructions().len(),
            compilable(*old(self).function, *old(self).binder),
            old(self).branch_manager.labels() == function_labels(*old(self).function),
            old(self).instructions@.len() == old(self).instructions_operand_stack@.len(),
            old(self).emitted() == compile_spec(*old(self).function, *old(self).binder, i as int),
        ensures
            final(self).binder == old(self).binder,
            final(self).function == old(self).function,
            final(self).branch_manager == old(self).branch_manager,
            final(self).local_virtual_registers == old(self).local_virtual_registers,
            final(self).instructions@.len() == final(self).instructions_operand_stack@.len(),
            final(self).emitted() == compile_spec(*old(self).function, *old(self).binder, i + 1),
    {
        let ghost f = *self.function;
        let ghost b = *self.binder;
        proof {
            assert(instruction_compilable(f, b, i as int));
        }
        let d = self.function.instruction_operand_types(i).len();
        let stack = self.stack_registers_from(i, 0, d);
        assert(registers_view(stack@) =~= stack_registers(f, i as int));
        match self.branch_manager.is_branch(i) {
            Some(label) => {
                self.emit(i, InstructionMIRData::BranchLabel(label), &stack);
            },
            None => {},
        }
        let data = self.translate_instruction(i, d);
        self.emit(i, data, &stack);
    }

    fn branch_label(&self, i: usize, target: BranchTarget) -> (r: BranchLabel)
        requires
            compilable(*self.function, *self.binder),
            i < self.function.spec_instructions().len(),
            spec_branch_target(self.function.spec_instructions()[i as int]) == Some(target),
            self.branch_manager.labels() == function_labels(*self.function),
        ensures
            r == function_labels(*self.function)[target],
    {
        proof {
            lemma_targets_labelled(self.function.spec_instructions(), self.function.spec_instructions().len() as int, i as int);
        }
        match self.branch_manager.get_label(target) {
            Some(label) => label,
            None => 0,
        }
    }

    fn translate_instruction(&self, i: usize, d: usize) -> (r: InstructionMIRData)
        requires
            i < self.function.spec_instructions().len(),
            compilable(*self.function, *self.binder),
            self.branch_manager.labels() == function_labels(*self.function),
            d == ops(*self.function, i as int).len(),
        ensures
            r@ == translate(*self.function, *self.binder, i as int),
    {
        let ghost f = *self.function;
        let ghost b = *self.binder;
        proof {
            assert(instruction_compilable(f, b, i as int));
        }
        let instructions = self.function.instructions();
        match &instructions[i] {
            Instruction::LoadInt32(value) => InstructionMIRData::LoadInt32(self.result_register_at(i, d), *value),
            Instruction::LoadFloat32(value) => InstructionMIRData::LoadFloat32(self.result_register_at(i, d), value.clone()),
            Instruction::LoadNull(_) => InstructionMIRData::LoadNull(self.result_register_at(i, d)),
            Instruction::LoadLocal(x) => InstructionMIRData::Move(self.result_register_at(i, d), self.local_register_at(*x)),
            Instruction::StoreLocal(x) => InstructionMIRData::Move(self.local_register_at(*x), self.stack_register_at(i, d - 1)),
            Instruction::Add => {
                let types = self.function.instruction_operand_types(i);
                let destination = self.result_register_at(i, d - 2);
                let op1 = self.stack_register_at(i, d - 2);
                let op2 = self.stack_register_at(i, d - 1);
                match &types[d - 1] {
                    TypeId::Float32 => InstructionMIRData::AddFloat32(destination, op1, op2),
                    _ => InstructionMIRData::AddInt32(destination, op1, op2),
                }
            },
            Instruction::Sub => {
                let types = self.function.instruction_operand_types(i);
                let destination = self.result_register_at(i, d - 2);
                let op1 = self.stack_register_at(i, d - 2);
                let op2 = self.stack_register_at(i, d - 1);
                match &types[d - 1] {
                    TypeId::Float32 => InstructionMIRData::SubFloat32(destination, op1, op2),
                    _ => InstructionMIRData::SubInt32(destination, op1, op2),
                }
            },
            Instruction::Call(signature) => {
                let no_parameters = signature.parameters.len() == 0;
                if no_parameters && str_equal(signature.name.as_str(), "std.gc.collect") {
                    proof {
                        reveal_strlit("std.gc.collect");
                        assert(types_view(signature.parameters@) =~= Seq::<TypeIdView>::empty());
                    }
                    InstructionMIRData::GarbageCollect
                } else if no_parameters && str_equal(signature.name.as_str(), "std.gc.print_stack_frame") {
                    proof {
                        reveal_strlit("std.gc.print_stack_frame");
                        assert(types_view(signature.parameters@) =~= Seq::<TypeIdView>::empty());
                    }
                    InstructionMIRData::PrintStackFrame
                } else {
                    proof {
                        reveal_strlit("std.gc.collect");
                        reveal_strlit("std.gc.print_stack_frame");
                    }
                    let k = signature.parameters.len();
                    let declaration = match self.binder.get(signature) {
                        Some(declaration) => declaration,
                        None => {
                            return InstructionMIRData::GarbageCollect;
                        },
                    };
                    let returns_value = match declaration.return_type() {
                        TypeId::Void => false,
                        _ => true,
                    };
                    let arguments = self.stack_registers_from(i, d - k, d);
                    let destination = if returns_value {
                        Some(self.result_register_at(i, d - k))
                    } else {
                        None
                    };
                    InstructionMIRData::Call(signature.clone(), destination, arguments)
                }
            },
            Instruction::LoadArgument(x) => InstructionMIRData::LoadArgument(*x, self.result_register_at(i, d)),
            Instruction::Return => {
                match self.function.declaration().return_type() {
                    TypeId::Void => InstructionMIRData::Return(None),
                    _ => InstructionMIRData::Return(Some(self.stack_register_at(i, d - 1))),
                }
            },
            Instruction::NewArray(element) => InstructionMIRData::NewArray(
                element.clone(),
                self.result_register_at(i, d - 1),
                self.stack_register_at(i, d - 1),
            ),
            Instruction::LoadElement(element) => InstructionMIRData::LoadElement(
                element.clone(),
                self.result_register_at(i, d - 2),
                self.stack_register_at(i, d - 2),
                self.stack_register_at(i, d - 1),
            ),
            Instruction::StoreElement(element) => InstructionMIRData::StoreElement(
                element.clone(),
                self.stack_register_at(i, d - 3),
                self.stack_register_at(i, d - 2),
                self.stack_register_at(i, d - 1),
            ),
            Instruction::LoadArrayLength => InstructionMIRData::LoadArrayLength(
                self.result_register_at(i, d - 1),
                self.stack_register_at(i, d - 1),
            ),
            Instruction::NewObject(class) => InstructionMIRData::NewObject(
                TypeId::Class(class.clone()),
                self.result_register_at(i, d),
            ),
            Instruction::LoadField(class, field) => InstructionMIRData::LoadField(
                TypeId::Class(class.clone()),
                field.clone(),
                self.result_register_at(i, d - 1),
                self.stack_register_at(i, d - 1),
            ),
            Instruction::StoreField(class, field) => InstructionMIRData::StoreField(
                TypeId::Class(class.clone()),
                field.clone(),
                self.stack_register_at(i, d - 2),
                self.stack_register_at(i, d - 1),
            ),
            Instruction::Branch(target) => InstructionMIRData::Branch(self.branch_label(i, *target)),
            Instruction::BranchEqual(target) => self.conditional_branch(i, d, Condition::Equal, *target),
            Instruction::BranchNotEqual(target) => self.conditional_branch(i, d, Condition::NotEqual, *target),
            Instruction::BranchGreaterThan(target) => self.conditional_branch(i, d, Condition::GreaterThan, *target),
            Instruction::BranchGreaterThanOrEqual(target) => self.conditional_branch(
                i,
                d,
                Condition::GreaterThanOrEqual,
                *target,
            ),
            Instruction::BranchLessThan(target) => self.conditional_branch(i, d, Condition::LessThan, *target),
            Instruction::BranchLessThanOrEqual(target) => self.conditional_branch(i, d, Condition::LessThanOrEqual, *target),
        }
    }

    fn conditional_branch(&self, i: usize, d: usize, condition: Condition, target: BranchTarget) -> (r: InstructionMIRData)
        requires
            i < self.function.spec_instructions().len(),
            compilable(*self.function, *self.binder),
            self.branch_manager.labels() == function_labels(*self.function),
            d == ops(*self.function, i as int).len(),
            2 <= d,
            spec_branch_target(self.function.spec_instructions()[i as int]) == Some(target),
            condition == condition_of(self.function.spec_instructions()[i as int]),
        ensures
            r@ == conditional_branch(*self.function, i as int, function_labels(*self.function)[target]),
    {
        let types = self.function.instruction_operand_types(i);
        let label = self.branch_label(i, target);
        InstructionMIRData::BranchCondition(
            condition,
            types[d - 1].clone(),
            label,
            self.stack_register_at(i, d - 2),
            self.stack_register_at(i, d - 1),
        )
    }

    /// The translation: the intermediate instructions, the registers of the
    /// locals, the operand stack registers before each intermediate
    /// instruction, and the number of registers.
    pub fn done(self) -> (r: MIRCompilationResult)
        requires
            self.is_done(),
            self.spec_function().spec_locals().len() + self.spec_function().spec_operand_stack_size() <= usize::MAX,
        ensures
            r.instructions@.len() == r.instructions_operand_stack@.len(),
            r.instructions@.len() == compiled(self.spec_function(), self.spec_binder()).len(),
            forall|k: int| 0 <= k < r.instructions@.len() ==> (#[trigger] r.instructions@[k])@ == compiled(
                self.spec_function(),
                self.spec_binder(),
            )[k].0,
            forall|k: int| 0 <= k < r.instructions@.len() ==> registers_view(#[trigger] r.instructions_operand_stack@[k]@)
                == compiled(self.spec_function(), self.spec_binder())[k].1,
            registers_view(r.local_virtual_registers@) == local_registers(self.spec_function()),
            r.num_virtual_registers == self.spec_function().spec_locals().len() + self.spec_function().spec_operand_stack_size(),
    {
        proof {
            assert forall|k: int| 0 <= k < self.instructions@.len() implies (#[trigger] self.instructions@[k])@ == compiled(
                *self.function,
                *self.binder,
            )[k].0 && registers_view(self.instructions_operand_stack@[k]@) == compiled(*self.function, *self.binder)[k].1 by {
                assert(self.emitted()[k] == compiled(*self.function, *self.binder)[k]);
            }
        }
        let num_virtual_registers = self.function.locals().len() + self.function.operand_stack_size();
        MIRCompilationResult {
            instructions: self.instructions,
            local_virtual_registers: self.local_virtual_registers,
            instructions_operand_stack: self.instructions_operand_stack,
            num_virtual_registers,
        }
    }
}

/// What one instruction that type-checks does to the operand stack: it
/// takes the operands that it pops from the top, leaves the rest, and
/// pushes its result when it has one; and it names only locals, arguments
/// and callees that exist.
proof fn lemma_step_shape(
    f: Function,
    b: Binder,
    ts: TypeStorage,
    i: int,
    stack: Seq<TypeIdView>,
    branches: Seq<(int, int, Seq<TypeIdView>)>,
)
    requires
        0 <= i < f.spec_instructions().len(),
        step_spec(f, b, ts, i, stack, branches) is Ok,
    ensures
        ({
            let after = step_spec(f, b, ts, i, stack, branches)->Ok_0.0;
            let keep = stack.len() - pops(f, b, i);
            &&& 0 <= keep
            &&& after.len() == keep + if pushes(f, b, i) {
                1int
            } else {
                0int
            }
            &&& after.take(keep) == stack.take(keep)
            &&& match f.spec_instructions()[i] {
                Instruction::LoadLocal(x) => x < num_locals(f),
                Instruction::StoreLocal(x) => x < num_locals(f),
                Instruction::LoadArgument(x) => x < f.spec_declaration().spec_parameters().len(),
                Instruction::Call(signature) => b.lookup(signature@) is Some,
                Instruction::Add => stack[stack.len() - 1] is Int32 || stack[stack.len() - 1] is Float32,
                Instruction::Sub => stack[stack.len() - 1] is Int32 || stack[stack.len() - 1] is Float32,
                _ => true,
            }
        }),
{
    let after = step_spec(f, b, ts, i, stack, branches)->Ok_0.0;
    let keep = stack.len() - pops(f, b, i);
    match f.spec_instructions()[i] {
        Instruction::Call(signature) => {
            let d = b.lookup(signature@)->0;
            let index = b.index_of(signature@)->0;
            assert(b.declarations()[index].signature_view() == signature@);
            assert(types_view(d.spec_parameters()).len() == signature@.1.len());
            assert(after.take(keep) =~= stack.take(keep));
        },
        Instruction::LoadLocal(_) => {
            assert(types_view(f.spec_locals()).len() == f.spec_locals().len());
            assert(after.take(keep) =~= stack.take(keep));
        },
        Instruction::StoreLocal(_) => {
            assert(types_view(f.spec_locals()).len() == f.spec_locals().len());
            assert(after.take(keep) =~= stack.take(keep));
        },
        Instruction::LoadArgument(_) => {
            assert(types_view(f.spec_declaration().spec_parameters()).len() == f.spec_declaration().spec_parameters().len());
            assert(after.take(keep) =~= stack.take(keep));
        },
        _ => {
            assert(after.take(keep) =~= stack.take(keep));
        },
    }
}

/// The largest operand stack of a run bounds each stack before its instructions.
proof fn lemma_run_max(f: Function, b: Binder, ts: TypeStorage, k: int, n: int)
    requires
        0 <= k < n,
        run_spec(f, b, ts, n) is Ok,
    ensures
        run_spec(f, b, ts, k)->Ok_0.stack.len() <= run_spec(f, b, ts, n)->Ok_0.max,
    decreases n - k,
{
    lemma_run_prefix(f, b, ts, n, n - 1);
    if k < n - 1 {
        lemma_run_max(f, b, ts, k, n - 1);
    }
}

/// A function that verification accepts can be compiled: the operand types
/// that verification records follow the instructions, and each instruction
/// can be translated. The binder must be well formed, the function small
/// enough for 32-bit register numbers, and the runtime functions
/// `std.gc.collect` and `std.gc.print_stack_frame`, where the binder
/// declares them, must return nothing.
pub proof fn lemma_verified_compilable(after: Function, before: Function, b: Binder, ts: TypeStorage)
    requires
        verify_spec(before, b, ts) is Ok,
        verified_records(after, before, b, ts),
        after.same_body(before),
        after.wf(),
        b.wf(),
        after.spec_instructions().len() <= u32::MAX,
        num_locals(after) + after.spec_operand_stack_size() + 1 <= u32::MAX,
        b.lookup(collect_signature()) is Some ==> b.lookup(collect_signature())->0.spec_return_type()@ is Void,
        b.lookup(print_stack_frame_signature()) is Some ==> b.lookup(print_stack_frame_signature())->0.spec_return_type()@ is Void,
    ensures
        compilable(after, b),
        records_follow(after, b),
{
    let n = before.spec_instructions().len() as int;
    assert(types_view(before.spec_locals()) == types_view(after.spec_locals()));
    assert(forall|k: int| 0 <= k <= n ==> #[trigger] run_spec(before, b, ts, k) is Ok) by {
        assert forall|k: int| 0 <= k <= n implies #[trigger] run_spec(before, b, ts, k) is Ok by {
            lemma_run_prefix(before, b, ts, n, k);
        }
    }
    let final_state = run_spec(before, b, ts, n)->Ok_0;
    assert(final_state.stack.len() == 0);
    assert forall|i: int| 0 <= i < n implies {
        let stack = run_spec(before, b, ts, i)->Ok_0.stack;
        let next = run_spec(before, b, ts, i + 1)->Ok_0.stack;
        let keep = stack.len() - pops(after, b, i);
        &&& ops(after, i) == stack
        &&& 0 <= keep
        &&& next.len() == keep + if pushes(after, b, i) {
            1int
        } else {
            0int
        }
        &&& next.take(keep) == stack.take(keep)
        &&& #[trigger] instruction_compilable(after, b, i)
    } by {
        let st = run_spec(before, b, ts, i)->Ok_0;
        assert(run_spec(before, b, ts, i + 1) is Ok);
        assert(step_spec(before, b, ts, i, st.stack, st.branches) is Ok);
        lemma_step_shape(before, b, ts, i, st.stack, st.branches);
        assert(ops(after, i) == operand_types_before(before, b, ts, i));
        lemma_run_max(before, b, ts, i, n);
        if pushes(after, b, i) && i + 1 >= n {
            assert(i + 1 == n);
        }
        if i + 1 < n {
            assert(ops(after, i + 1) == operand_types_before(before, b, ts, i + 1));
        }
    }
    assert forall|i: int| 0 <= i < n - 1 implies {
        let keep = ops(after, i).len() - pops(after, b, i);
        &&& #[trigger] ops(after, i + 1).len() == depth_after(after, b, i)
        &&& ops(after, i + 1).take(keep) == ops(after, i).take(keep)
    } by {
        assert(instruction_compilable(after, b, i));
        assert(ops(after, i + 1) == operand_types_before(before, b, ts, i + 1));
    }
    if n > 0 {
        assert(ops(after, 0) == operand_types_before(before, b, ts, 0));
    }
    assert forall|i: int| 0 <= i < n implies match #[trigger] after.spec_instructions()[i] {
        Instruction::Call(signature) => (signature@ == collect_signature() || signature@ == print_stack_frame_signature())
            ==> !pushes(after, b, i),
        _ => true,
    } by {
        assert(instruction_compilable(after, b, i));
    }
}

/// Verifies `function` and, where it passes, compiles it to MIR: the
/// verification error where it fails, `Ok(None)` where the verified function
/// is too large to number its registers in a `u32`, else the translation.
pub fn verify_and_compile(binder: &Binder, type_storage: &TypeStorage, function: &mut Function) -> (r: Result<
    Option<MIRCompilationResult>,
    VerifyError,
>)
    requires
        old(function).wf(),
        binder.wf(),
        type_storage.wf(),
        binder.lookup(collect_signature()) is Some ==> binder.lookup(collect_signature())->0.spec_return_type()@ is Void,
        binder.lookup(print_stack_frame_signature()) is Some ==> binder.lookup(
            print_stack_frame_signature(),
        )->0.spec_return_type()@ is Void,
    ensures
        final(function).same_body(*old(function)),
        match r {
            Err(e) => verify_spec(*old(function), *binder, *type_storage) == Err::<(), ErrorView>(e@),
            Ok(c) => {
                &&& verify_spec(*old(function), *binder, *type_storage) is Ok
                &&& verified_records(*final(function), *old(function), *binder, *type_storage)
                &&& c is None <==> !(final(function).spec_instructions().len() <= u32::MAX && num_locals(*final(function))
                    + final(function).spec_operand_stack_size() + 1 <= u32::MAX)
                &&& c matches Some(m) ==> {
                    &&& m.instructions@.len() == compiled(*final(function), *binder).len()
                    &&& forall|k: int| 0 <= k < m.instructions@.len() ==> (#[trigger] m.instructions@[k])@
                        == compiled(*final(function), *binder)[k].0
                }
            },
        },
{
    match Verifier::verify_function(binder, type_storage, function) {
        Err(e) => {
            return Err(e);
        },
        Ok(()) => {},
    }
    let f: &Function = function;
    if f.instructions().len() > 0xffff_ffffusize || f.locals().len() > 0xffff_ffffusize
        || f.operand_stack_size() >= 0xffff_ffffusize - f.locals().len() {
        return Ok(None);
    }
    proof {
        lemma_verified_compilable(*f, *old(function), *binder, *type_storage);
    }
    let mut compiler = InstructionMIRCompiler::new(binder, f);
    compiler.compile(f.instructions());
    Ok(Some(compiler.done()))
}


/// Each conditional branch of the bytecode becomes a conditional branch on
/// the comparison of the same name: `beq` tests equality, `bne` inequality,
/// `bgt` strictly greater, `bge` greater or equal, `blt` strictly less and
/// `ble` less or equal, of the operand below the top against the top one,
/// compared as values of the top operand's type, jumping to the label of
/// the branch's target.
pub proof fn law_branch_condition_matches_opcode(f: Function, b: Binder, i: int)
    requires
        0 <= i < f.spec_instructions().len(),
    ensures
        ({
            let d = ops(f, i).len() as int;
            let labels = function_labels(f);
            let left = stack_register(f, i, d - 2);
            let right = stack_register(f, i, d - 1);
            let t = ops(f, i)[d - 1];
            match f.spec_instructions()[i] {
                Instruction::BranchEqual(target) => translate(f, b, i)
                    == InstructionMIRDataView::BranchCondition(Condition::Equal, t, labels[target], left, right),
                Instruction::BranchNotEqual(target) => translate(f, b, i)
                    == InstructionMIRDataView::BranchCondition(Condition::NotEqual, t, labels[target], left, right),
                Instruction::BranchGreaterThan(target) => translate(f, b, i)
                    == InstructionMIRDataView::BranchCondition(Condition::GreaterThan, t, labels[target], left, right),
                Instruction::BranchGreaterThanOrEqual(target) => translate(f, b, i)
                    == InstructionMIRDataView::BranchCondition(Condition::GreaterThanOrEqual, t, labels[target], left, right),
                Instruction::BranchLessThan(target) => translate(f, b, i)
                    == InstructionMIRDataView::BranchCondition(Condition::LessThan, t, labels[target], left, right),
                Instruction::BranchLessThanOrEqual(target) => translate(f, b, i)
                    == InstructionMIRDataView::BranchCondition(Condition::LessThanOrEqual, t, labels[target], left, right),
                _ => !(translate(f, b, i) is BranchCondition),
            }
        }),
{
}


/// `add` and `sub` become the addition and subtraction of the two topmost
/// operands, below the top minus the top for `sub`, as floats where the
/// operands are floats and as integers otherwise, with the result in the
/// register of the slot below the top.
pub proof fn law_arithmetic_translation(f: Function, b: Binder, i: int)
    requires
        0 <= i < f.spec_instructions().len(),
    ensures
        ({
            let d = ops(f, i).len() as int;
            let result = result_register(f, i, d - 2);
            let left = stack_register(f, i, d - 2);
            let right = stack_register(f, i, d - 1);
            let float = ops(f, i)[d - 1] == TypeIdView::Float32;
            match f.spec_instructions()[i] {
                Instruction::Add => translate(f, b, i) == if float {
                    InstructionMIRDataView::AddFloat32(result, left, right)
                } else {
                    InstructionMIRDataView::AddInt32(result, left, right)
                },
                Instruction::Sub => translate(f, b, i) == if float {
                    InstructionMIRDataView::SubFloat32(result, left, right)
                } else {
                    InstructionMIRDataView::SubInt32(result, left, right)
                },
                _ => true,
            }
        }),
{
}


/// Every instruction is translated to one that reads the registers of the
/// operands it takes, in their order on the operand stack, and writes the
/// register of the slot where its result lands: the first slot that it
/// freed. Loads and stores of locals read or write the local's register,
/// the array length reads the array's slot and overwrites it, and calls of
/// the runtime functions become their own instructions.
pub proof fn law_translation_registers(f: Function, b: Binder, i: int)
    requires
        0 <= i < f.spec_instructions().len(),
    ensures
        ({
            let d = ops(f, i).len() as int;
            let k = pops(f, b, i);
            let t = translate(f, b, i);
            match f.spec_instructions()[i] {
                Instruction::LoadLocal(x) => use_registers_spec(t) == seq![local_register(f, x as int)]
                    && assign_register_spec(t) == Some(result_register(f, i, d)),
                Instruction::StoreLocal(x) => use_registers_spec(t) == seq![stack_register(f, i, d - 1)]
                    && assign_register_spec(t) == Some(local_register(f, x as int)),
                Instruction::LoadArrayLength => t == InstructionMIRDataView::LoadArrayLength(
                    result_register(f, i, d - 1),
                    stack_register(f, i, d - 1),
                ),
                Instruction::Call(signature) => if signature@ == collect_signature() {
                    t == InstructionMIRDataView::GarbageCollect
                } else if signature@ == print_stack_frame_signature() {
                    t == InstructionMIRDataView::PrintStackFrame
                } else {
                    use_registers_spec(t) == stack_registers_range(f, i, d - k, d) && assign_register_spec(t) == if pushes(
                        f,
                        b,
                        i,
                    ) {
                        Some(result_register(f, i, d - k))
                    } else {
                        None
                    }
                },
                _ => use_registers_spec(t) == stack_registers_range(f, i, d - k, d) && assign_register_spec(t) == if pushes(
                    f,
                    b,
                    i,
                ) {
                    Some(result_register(f, i, d - k))
                } else {
                    None
                },
            }
        }),
{
    let d = ops(f, i).len() as int;
    let k = pops(f, b, i);
    let t = translate(f, b, i);
    match f.spec_instructions()[i] {
        Instruction::LoadLocal(_) => {},
        Instruction::StoreLocal(_) => {},
        Instruction::LoadArrayLength => {},
        Instruction::Call(signature) => {
            if signature@ != collect_signature() && signature@ != print_stack_frame_signature() {
                assert(use_registers_spec(t) =~= stack_registers_range(f, i, d - k, d));
            }
        },
        _ => {
            assert(use_registers_spec(t) =~= stack_registers_range(f, i, d - k, d));
        },
    }
}

} // verus!

