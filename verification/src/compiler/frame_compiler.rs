//! Lowering of MIR instructions without register allocation: every
//! register lives in its slot of the stack frame, operands are loaded into
//! the first integer (or float) registers, and results are stored back.
use vstd::prelude::*;
use crate::compiler::allocated_compiler::slot_offset;
use crate::compiler::ir::{BranchLabel, Condition, HardwareRegister, HardwareRegisterExplicit, return_register};
use crate::compiler::stack_layout;
use crate::mir::{RegisterMIR, InstructionMIR, InstructionMIRData, assign_register_spec, use_registers_spec};
use crate::model::binder::Binder;
use crate::model::function::{Function, FunctionSignature};
use crate::model::typesystem::TypeId;

verus! {

/// The comparison of a conditional branch.
pub type JumpCondition = Condition;

/// Where an argument is read from: a register, the operand stack or a slot
/// of the stack frame.
#[derive(Clone, Copy, Debug, PartialEq, Eq, Structural)]
pub enum Variable {
    Register(HardwareRegister),
    OperandStack,
    Memory(i32),
}

/// An instruction of the low-level representation over stack-frame slots.
#[derive(Debug, PartialEq)]
pub enum InstructionIR {
    Marker(usize),
    InitializeFunction,
    LoadInt32(i32),
    LoadZeroToRegister(HardwareRegister),
    AddToStackPointer(i32),
    SubFromStackPointer(i32),
    PushOperand(HardwareRegister),
    PopOperand(HardwareRegister),
    PushNormal(HardwareRegister),
    PopNormal(HardwareRegister),
    PushOperandExplicit(HardwareRegisterExplicit),
    PopOperandExplicit(HardwareRegisterExplicit),
    PushNormalExplicit(HardwareRegisterExplicit),
    PopNormalExplicit(HardwareRegisterExplicit),
    LoadMemory(HardwareRegister, i32),
    StoreMemory(i32, HardwareRegister),
    LoadMemoryExplicit(HardwareRegisterExplicit, i32),
    StoreMemoryExplicit(i32, HardwareRegisterExplicit),
    MoveImplicitToExplicit(HardwareRegisterExplicit, HardwareRegister),
    MoveExplicitToImplicit(HardwareRegister, HardwareRegisterExplicit),
    AddInt32(HardwareRegister, HardwareRegister),
    SubInt32(HardwareRegister, HardwareRegister),
    AddFloat32(HardwareRegister, HardwareRegister),
    SubFloat32(HardwareRegister, HardwareRegister),
    MoveInt32ToMemory(i32, i32),
    Call(FunctionSignature, Vec<Variable>),
    Return,
    NullReferenceCheck(HardwareRegister),
    ArrayBoundsCheck(HardwareRegister, HardwareRegister),
    NewArray(TypeId, HardwareRegister),
    LoadElement(TypeId, HardwareRegister, HardwareRegister),
    StoreElement(TypeId, HardwareRegister, HardwareRegister, HardwareRegister),
    LoadArrayLength(HardwareRegister),
    BranchLabel(BranchLabel),
    Branch(BranchLabel),
    BranchCondition(JumpCondition, TypeId, BranchLabel, HardwareRegister, HardwareRegister),
}

/// Two instructions are the same; a call is compared by the views of its
/// signature and of its argument list.
pub open spec fn same_instruction(a: InstructionIR, b: InstructionIR) -> bool {
    match (a, b) {
        (InstructionIR::Call(s1, v1), InstructionIR::Call(s2, v2)) => s1@ == s2@ && v1@ == v2@,
        _ => a == b,
    }
}

/// `after` is `before` followed by instructions that are the same as `added`.
pub open spec fn appended(before: Seq<InstructionIR>, after: Seq<InstructionIR>, added: Seq<InstructionIR>) -> bool {
    &&& after.len() == before.len() + added.len()
    &&& after.subrange(0, before.len() as int) == before
    &&& forall|k: int| 0 <= k < added.len() ==> same_instruction(#[trigger] after[before.len() + k], added[k])
}

/// The slot of register `r`.
pub open spec fn slot_of(f: Function, r: RegisterMIR) -> i32 {
    slot_offset(f, r.number as int)
}

/// The slots of the call arguments.
pub open spec fn argument_sources(f: Function, arguments: Seq<RegisterMIR>) -> Seq<Variable> {
    Seq::new(arguments.len(), |k: int| Variable::Memory(slot_of(f, arguments[k])))
}

/// An argument list whose view is `sources`.
pub open spec fn argument_list(sources: Seq<Variable>) -> Vec<Variable> {
    choose|v: Vec<Variable>| v@ == sources
}

/// `operation` on the values of two slots, loaded into `x` and `y`, with
/// the result stored in the destination's slot.
pub open spec fn slot_operation_spec(
    f: Function,
    x: HardwareRegister,
    y: HardwareRegister,
    operation: InstructionIR,
    destination: RegisterMIR,
    operand1: RegisterMIR,
    operand2: RegisterMIR,
) -> Seq<InstructionIR> {
    seq![
        InstructionIR::LoadMemory(x, slot_of(f, operand1)),
        InstructionIR::LoadMemory(y, slot_of(f, operand2)),
        operation,
        InstructionIR::StoreMemory(slot_of(f, destination), x),
    ]
}

/// The instructions that lower MIR instruction `data` of `f`.
pub open spec fn frame_lower_spec(b: Binder, f: Function, data: InstructionMIRData) -> Seq<InstructionIR> {
    let i0 = HardwareRegister::Int(0);
    let i1 = HardwareRegister::Int(1);
    let i2 = HardwareRegister::Int(2);
    let f0 = HardwareRegister::Float(0);
    let f1 = HardwareRegister::Float(1);
    match data {
        InstructionMIRData::LoadInt32(d, v) => seq![InstructionIR::MoveInt32ToMemory(slot_of(f, d), v)],
        InstructionMIRData::Move(d, s) => seq![
            InstructionIR::LoadMemory(i0, slot_of(f, s)),
            InstructionIR::StoreMemory(slot_of(f, d), i0),
        ],
        InstructionMIRData::AddInt32(d, x, y) => slot_operation_spec(f, i0, i1, InstructionIR::AddInt32(i0, i1), d, x, y),
        InstructionMIRData::SubInt32(d, x, y) => slot_operation_spec(f, i0, i1, InstructionIR::SubInt32(i0, i1), d, x, y),
        InstructionMIRData::AddFloat32(d, x, y) => slot_operation_spec(f, f0, f1, InstructionIR::AddFloat32(f0, f1), d, x, y),
        InstructionMIRData::SubFloat32(d, x, y) => slot_operation_spec(f, f0, f1, InstructionIR::SubFloat32(f0, f1), d, x, y),
        InstructionMIRData::Return(source) => match source {
            Some(s) => match return_register(f.spec_declaration().spec_return_type()) {
                Some(r) => seq![InstructionIR::LoadMemoryExplicit(r, slot_of(f, s)), InstructionIR::Return],
                None => seq![InstructionIR::Return],
            },
            None => seq![InstructionIR::Return],
        },
        InstructionMIRData::Call(signature, return_value, arguments) => {
            let call = seq![InstructionIR::Call(signature, argument_list(argument_sources(f, arguments@)))];
            match return_value {
                Some(r) => match return_register(b.lookup(signature@)->0.spec_return_type()) {
                    Some(x) => call.push(InstructionIR::StoreMemoryExplicit(slot_of(f, r), x)),
                    None => call,
                },
                None => call,
            }
        },
        InstructionMIRData::LoadArgument(n, d) => seq![
            InstructionIR::LoadMemory(i0, (-8 * (1 + n)) as i32),
            InstructionIR::StoreMemory(slot_of(f, d), i0),
        ],
        InstructionMIRData::LoadNull(d) => seq![InstructionIR::MoveInt32ToMemory(slot_of(f, d), 0i32)],
        InstructionMIRData::NewArray(t, d, size) => seq![
            InstructionIR::LoadMemory(i0, slot_of(f, size)),
            InstructionIR::NewArray(t, i0),
            InstructionIR::StoreMemoryExplicit(slot_of(f, d), HardwareRegisterExplicit::Rax),
        ],
        InstructionMIRData::LoadElement(t, d, array, index) => seq![
            InstructionIR::LoadMemory(i1, slot_of(f, index)),
            InstructionIR::LoadMemory(i0, slot_of(f, array)),
            InstructionIR::NullReferenceCheck(i0),
            InstructionIR::ArrayBoundsCheck(i0, i1),
            InstructionIR::LoadElement(t, i0, i1),
            InstructionIR::StoreMemoryExplicit(slot_of(f, d), HardwareRegisterExplicit::Rax),
        ],
        InstructionMIRData::StoreElement(t, array, index, value) => seq![
            InstructionIR::LoadMemory(i2, slot_of(f, value)),
            InstructionIR::LoadMemory(i1, slot_of(f, index)),
            InstructionIR::LoadMemory(i0, slot_of(f, array)),
            InstructionIR::NullReferenceCheck(i0),
            InstructionIR::ArrayBoundsCheck(i0, i1),
            InstructionIR::StoreElement(t, i0, i1, i2),
        ],
        InstructionMIRData::LoadArrayLength(d, array) => seq![
            InstructionIR::LoadMemory(i0, slot_of(f, array)),
            InstructionIR::NullReferenceCheck(i0),
            InstructionIR::LoadArrayLength(i0),
            InstructionIR::StoreMemoryExplicit(slot_of(f, d), HardwareRegisterExplicit::Rax),
        ],
        InstructionMIRData::BranchLabel(l) => seq![InstructionIR::BranchLabel(l)],
        InstructionMIRData::Branch(l) => seq![InstructionIR::Branch(l)],
        InstructionMIRData::BranchCondition(c, t, l, x, y) => if t is Float32 {
            seq![
                InstructionIR::LoadMemory(f0, slot_of(f, x)),
                InstructionIR::LoadMemory(f1, slot_of(f, y)),
                InstructionIR::BranchCondition(c, TypeId::Float32, l, f0, f1),
            ]
        } else {
            seq![
                InstructionIR::LoadMemory(i0, slot_of(f, x)),
                InstructionIR::LoadMemory(i1, slot_of(f, y)),
                InstructionIR::BranchCondition(c, TypeId::Int32, l, i0, i1),
            ]
        },
        _ => Seq::empty(),
    }
}

/// The instructions lowered from `instruction`: a marker of the instruction
/// it came from, then its lowering.
pub open spec fn frame_ir_spec(b: Binder, f: Function, instruction: InstructionMIR) -> Seq<InstructionIR> {
    seq![InstructionIR::Marker(instruction.index)] + frame_lower_spec(b, f, instruction.data)
}

/// The instructions that this lowering handles: those of its instruction
/// set except float constants, with branches that compare integers or
/// floats.
pub open spec fn frame_lowerable(data: InstructionMIRData) -> bool {
    match data {
        InstructionMIRData::LoadInt32(..) => true,
        InstructionMIRData::Move(..) => true,
        InstructionMIRData::AddInt32(..) => true,
        InstructionMIRData::SubInt32(..) => true,
        InstructionMIRData::AddFloat32(..) => true,
        InstructionMIRData::SubFloat32(..) => true,
        InstructionMIRData::Return(..) => true,
        InstructionMIRData::Call(..) => true,
        InstructionMIRData::LoadArgument(..) => true,
        InstructionMIRData::LoadNull(..) => true,
        InstructionMIRData::NewArray(..) => true,
        InstructionMIRData::LoadElement(..) => true,
        InstructionMIRData::StoreElement(..) => true,
        InstructionMIRData::LoadArrayLength(..) => true,
        InstructionMIRData::BranchLabel(..) => true,
        InstructionMIRData::Branch(..) => true,
        InstructionMIRData::BranchCondition(_, t, _, _, _) => t is Int32 || t is Float32,
        _ => false,
    }
}

/// Every register of `data` has a slot with an offset that fits the frame,
/// arguments are parameters, and a called function is bound.
pub open spec fn frame_compilable(b: Binder, f: Function, data: InstructionMIRData) -> bool {
    let p = f.spec_declaration().spec_parameters().len();
    &&& assign_register_spec(data@) matches Some(r) ==> p + r.number < 268_435_456
    &&& forall|k: int| 0 <= k < use_registers_spec(data@).len() ==> p + (#[trigger] use_registers_spec(data@)[k]).number < 268_435_456
    &&& data matches InstructionMIRData::LoadArrayLength(d, _) ==> p + d.number < 268_435_456
    &&& data matches InstructionMIRData::LoadArgument(n, _) ==> n < p
    &&& data matches InstructionMIRData::Call(s, _, _) ==> b.lookup(s@) is Some
    &&& p < 268_435_456
}

/// Lowers MIR instructions with every register in its stack-frame slot.
pub struct InstructionIRCompiler<'a> {
    binder: &'a Binder,
    function: &'a Function,
    instructions: Vec<InstructionIR>,
}

impl<'a> InstructionIRCompiler<'a> {
    pub closed spec fn spec_binder(&self) -> Binder {
        *self.binder
    }

    pub closed spec fn spec_function(&self) -> Function {
        *self.function
    }

    /// The instructions lowered so far.
    pub closed spec fn spec_instructions(&self) -> Seq<InstructionIR> {
        self.instructions@
    }

    pub fn new(binder: &'a Binder, function: &'a Function) -> (r: InstructionIRCompiler<'a>)
        ensures
            r.spec_binder() == *binder,
            r.spec_function() == *function,
            r.spec_instructions() == Seq::<InstructionIR>::empty(),
    {
        InstructionIRCompiler { binder, function, instructions: Vec::new() }
    }

    /// The lowered instructions.
    pub fn done(self) -> (r: Vec<InstructionIR>)
        ensures
            r@ == self.spec_instructions(),
    {
        self.instructions
    }

    fn emit(&mut self, instruction: InstructionIR)
        ensures
            final(self).spec_binder() == old(self).spec_binder(),
            final(self).spec_function() == old(self).spec_function(),
            final(self).spec_instructions() == old(self).spec_instructions().push(instruction),
    {
        self.instructions.push(instruction);
    }

    fn slot(&self, r: &RegisterMIR) -> (o: i32)
        requires
            self.spec_function().spec_declaration().spec_parameters().len() + r.number < 268_435_456,
        ensures
            o == slot_of(self.spec_function(), *r),
    {
        stack_layout::virtual_register_stack_offset(self.function, r.number)
    }

    fn argument_sources(&self, arguments: &Vec<RegisterMIR>) -> (v: Vec<Variable>)
        requires
            forall|k: int|
                0 <= k < arguments@.len() ==> self.spec_function().spec_declaration().spec_parameters().len()
                    + (#[trigger] arguments@[k]).number < 268_435_456,
        ensures
            v@ == argument_sources(self.spec_function(), arguments@),
    {
        let mut v: Vec<Variable> = Vec::new();
        let mut i: usize = 0;
        while i < arguments.len()
            invariant
                i <= arguments@.len(),
                forall|k: int|
                    0 <= k < arguments@.len() ==> self.spec_function().spec_declaration().spec_parameters().len()
                        + (#[trigger] arguments@[k]).number < 268_435_456,
                v@ == argument_sources(self.spec_function(), arguments@.subrange(0, i as int)),
            decreases arguments@.len() - i,
        {
            let o = self.slot(&arguments[i]);
            v.push(Variable::Memory(o));
            i = i + 1;
            assert(v@ =~= argument_sources(self.spec_function(), arguments@.subrange(0, i as int)));
        }
        assert(arguments@.subrange(0, i as int) =~= arguments@);
        v
    }

    /// Lowers `instruction`, appending its instructions.
    #[verifier::rlimit(40)]
    pub fn compile_instruction(&mut self, instruction_index: usize, instruction: &InstructionMIR)
        requires
            old(self).spec_binder().wf(),
            frame_lowerable(instruction.data),
            frame_compilable(old(self).spec_binder(), old(self).spec_function(), instruction.data),
        ensures
            final(self).spec_binder() == old(self).spec_binder(),
            final(self).spec_function() == old(self).spec_function(),
            appended(
                old(self).spec_instructions(),
                final(self).spec_instructions(),
                frame_ir_spec(old(self).spec_binder(), old(self).spec_function(), *instruction),
            ),
    {
        let ghost b = self.spec_binder();
        let ghost f = self.spec_function();
        let ghost before = self.spec_instructions();
        let ghost uses = use_registers_spec(instruction.data@);
        let ghost p = f.spec_declaration().spec_parameters().len();
        let i0 = HardwareRegister::Int(0);
        let i1 = HardwareRegister::Int(1);
        let i2 = HardwareRegister::Int(2);
        let f0 = HardwareRegister::Float(0);
        let f1 = HardwareRegister::Float(1);
        self.emit(InstructionIR::Marker(instruction.index));
        match &instruction.data {
            InstructionMIRData::LoadInt32(d, v) => {
                let o = self.slot(d);
                self.emit(InstructionIR::MoveInt32ToMemory(o, *v));
            },
            InstructionMIRData::Move(d, s) => {
                assert(uses[0] == s@);
                let so = self.slot(s);
                let d_o = self.slot(d);
                self.emit(InstructionIR::LoadMemory(i0, so));
                self.emit(InstructionIR::StoreMemory(d_o, i0));
            },
            InstructionMIRData::AddInt32(d, x, y) => {
                assert(uses[0] == x@ && uses[1] == y@);
                self.slot_operation(i0, i1, InstructionIR::AddInt32(i0, i1), d, x, y);
            },
            InstructionMIRData::SubInt32(d, x, y) => {
                assert(uses[0] == x@ && uses[1] == y@);
                self.slot_operation(i0, i1, InstructionIR::SubInt32(i0, i1), d, x, y);
            },
            InstructionMIRData::AddFloat32(d, x, y) => {
                assert(uses[0] == x@ && uses[1] == y@);
                self.slot_operation(f0, f1, InstructionIR::AddFloat32(f0, f1), d, x, y);
            },
            InstructionMIRData::SubFloat32(d, x, y) => {
                assert(uses[0] == x@ && uses[1] == y@);
                self.slot_operation(f0, f1, InstructionIR::SubFloat32(f0, f1), d, x, y);
            },
            InstructionMIRData::Return(source) => {
                match source {
                    Some(s) => {
                        assert(uses[0] == s@);
                        match self.function.declaration().return_type() {
                            TypeId::Void => {},
                            TypeId::Float32 => {
                                let o = self.slot(s);
                                self.emit(InstructionIR::LoadMemoryExplicit(HardwareRegisterExplicit::Xmm0, o));
                            },
                            _ => {
                                let o = self.slot(s);
                                self.emit(InstructionIR::LoadMemoryExplicit(HardwareRegisterExplicit::Rax, o));
                            },
                        }
                    },
                    None => {},
                }
                self.emit(InstructionIR::Return);
            },
            InstructionMIRData::Call(signature, return_value, arguments) => {
                assert(forall|k: int| 0 <= k < arguments@.len() ==> uses[k] == (#[trigger] arguments@[k])@);
                let func_to_call = self.binder.get(signature).unwrap();
                let sources = self.argument_sources(arguments);
                self.emit(InstructionIR::Call(signature.clone(), sources));
                match return_value {
                    Some(r) => {
                        match func_to_call.return_type() {
                            TypeId::Void => {},
                            TypeId::Float32 => {
                                let o = self.slot(r);
                                self.emit(InstructionIR::StoreMemoryExplicit(o, HardwareRegisterExplicit::Xmm0));
                            },
                            _ => {
                                let o = self.slot(r);
                                self.emit(InstructionIR::StoreMemoryExplicit(o, HardwareRegisterExplicit::Rax));
                            },
                        }
                    },
                    None => {},
                }
            },
            InstructionMIRData::LoadArgument(n, d) => {
                let a = stack_layout::argument_stack_offset(self.function, *n);
                let o = self.slot(d);
                self.emit(InstructionIR::LoadMemory(i0, a));
                self.emit(InstructionIR::StoreMemory(o, i0));
            },
            InstructionMIRData::LoadNull(d) => {
                let o = self.slot(d);
                self.emit(InstructionIR::MoveInt32ToMemory(o, 0));
            },
            InstructionMIRData::NewArray(t, d, size) => {
                assert(uses[0] == size@);
                let so = self.slot(size);
                let d_o = self.slot(d);
                self.emit(InstructionIR::LoadMemory(i0, so));
                self.emit(InstructionIR::NewArray(t.clone(), i0));
                self.emit(InstructionIR::StoreMemoryExplicit(d_o, HardwareRegisterExplicit::Rax));
            },
            InstructionMIRData::LoadElement(t, d, array, index) => {
                assert(uses[0] == array@ && uses[1] == index@);
                let io = self.slot(index);
                let ao = self.slot(array);
                let d_o = self.slot(d);
                self.emit(InstructionIR::LoadMemory(i1, io));
                self.emit(InstructionIR::LoadMemory(i0, ao));
                self.emit(InstructionIR::NullReferenceCheck(i0));
                self.emit(InstructionIR::ArrayBoundsCheck(i0, i1));
                self.emit(InstructionIR::LoadElement(t.clone(), i0, i1));
                self.emit(InstructionIR::StoreMemoryExplicit(d_o, HardwareRegisterExplicit::Rax));
            },
            InstructionMIRData::StoreElement(t, array, index, value) => {
                assert(uses[0] == array@ && uses[1] == index@ && uses[2] == value@);
                let vo = self.slot(value);
                let io = self.slot(index);
                let ao = self.slot(array);
                self.emit(InstructionIR::LoadMemory(i2, vo));
                self.emit(InstructionIR::LoadMemory(i1, io));
                self.emit(InstructionIR::LoadMemory(i0, ao));
                self.emit(InstructionIR::NullReferenceCheck(i0));
                self.emit(InstructionIR::ArrayBoundsCheck(i0, i1));
                self.emit(InstructionIR::StoreElement(t.clone(), i0, i1, i2));
            },
            InstructionMIRData::LoadArrayLength(d, array) => {
                let ao = self.slot(array);
                let d_o = self.slot(d);
                self.emit(InstructionIR::LoadMemory(i0, ao));
                self.emit(InstructionIR::NullReferenceCheck(i0));
                self.emit(InstructionIR::LoadArrayLength(i0));
                self.emit(InstructionIR::StoreMemoryExplicit(d_o, HardwareRegisterExplicit::Rax));
            },
            InstructionMIRData::BranchLabel(l) => self.emit(InstructionIR::BranchLabel(*l)),
            InstructionMIRData::Branch(l) => self.emit(InstructionIR::Branch(*l)),
            InstructionMIRData::BranchCondition(c, t, l, x, y) => {
                assert(uses[0] == x@ && uses[1] == y@);
                let xo = self.slot(x);
                let yo = self.slot(y);
                match t {
                    TypeId::Float32 => {
                        self.emit(InstructionIR::LoadMemory(f0, xo));
                        self.emit(InstructionIR::LoadMemory(f1, yo));
                        self.emit(InstructionIR::BranchCondition(*c, TypeId::Float32, *l, f0, f1));
                    },
                    _ => {
                        self.emit(InstructionIR::LoadMemory(i0, xo));
                        self.emit(InstructionIR::LoadMemory(i1, yo));
                        self.emit(InstructionIR::BranchCondition(*c, TypeId::Int32, *l, i0, i1));
                    },
                }
            },
            _ => {},
        }
        proof {
            let added = frame_ir_spec(b, f, *instruction);
            let after = self.spec_instructions();
            assert(after.subrange(0, before.len() as int) =~= before);
            assert forall|k: int| 0 <= k < added.len() implies same_instruction(#[trigger] after[before.len() + k], added[k]) by {
                if let InstructionMIRData::Call(s, _, arguments) = instruction.data {
                    if k == 1 {
                        let v = after[before.len() as int + 1]->Call_1;
                        assert(v@ == argument_sources(f, arguments@));
                        assert(argument_list(argument_sources(f, arguments@))@ == argument_sources(f, arguments@));
                    }
                }
            }
        }
    }

    fn slot_operation(
        &mut self,
        x: HardwareRegister,
        y: HardwareRegister,
        operation: InstructionIR,
        destination: &RegisterMIR,
        operand1: &RegisterMIR,
        operand2: &RegisterMIR,
    )
        requires
            old(self).spec_function().spec_declaration().spec_parameters().len() + destination.number < 268_435_456,
            old(self).spec_function().spec_declaration().spec_parameters().len() + operand1.number < 268_435_456,
            old(self).spec_function().spec_declaration().spec_parameters().len() + operand2.number < 268_435_456,
        ensures
            final(self).spec_binder() == old(self).spec_binder(),
            final(self).spec_function() == old(self).spec_function(),
            final(self).spec_instructions() == old(self).spec_instructions() + slot_operation_spec(
                old(self).spec_function(),
                x,
                y,
                operation,
                *destination,
                *operand1,
                *operand2,
            ),
    {
        let ghost before = self.spec_instructions();
        let ghost op = operation;
        let o1 = self.slot(operand1);
        let o2 = self.slot(operand2);
        let d = self.slot(destination);
        self.emit(InstructionIR::LoadMemory(x, o1));
        self.emit(InstructionIR::LoadMemory(y, o2));
        self.emit(operation);
        self.emit(InstructionIR::StoreMemory(d, x));
        assert(self.spec_instructions() =~= before + slot_operation_spec(
            self.spec_function(),
            x,
            y,
            op,
            *destination,
            *operand1,
            *operand2,
        ));
    }
}


/// Each arithmetic MIR instruction `d = x op y` is lowered to the operation
/// of the same name: `x` is loaded into the first register and `y` into the
/// second (integer registers for integers, float registers for floats),
/// the operation leaves `x op y` in the first, and that is stored into the
/// slot of `d`.
pub proof fn law_frame_arithmetic_lowering(b: Binder, f: Function, data: InstructionMIRData)
    ensures
        ({
            let (r0, r1) = match data {
                InstructionMIRData::AddFloat32(..) => (HardwareRegister::Float(0), HardwareRegister::Float(1)),
                InstructionMIRData::SubFloat32(..) => (HardwareRegister::Float(0), HardwareRegister::Float(1)),
                _ => (HardwareRegister::Int(0), HardwareRegister::Int(1)),
            };
            let around = |d: RegisterMIR, x: RegisterMIR, y: RegisterMIR, operation: InstructionIR|
                seq![
                    InstructionIR::LoadMemory(r0, slot_of(f, x)),
                    InstructionIR::LoadMemory(r1, slot_of(f, y)),
                    operation,
                    InstructionIR::StoreMemory(slot_of(f, d), r0),
                ];
            match data {
                InstructionMIRData::AddInt32(d, x, y) => frame_lower_spec(b, f, data) == around(d, x, y, InstructionIR::AddInt32(r0, r1)),
                InstructionMIRData::SubInt32(d, x, y) => frame_lower_spec(b, f, data) == around(d, x, y, InstructionIR::SubInt32(r0, r1)),
                InstructionMIRData::AddFloat32(d, x, y) => frame_lower_spec(b, f, data) == around(d, x, y, InstructionIR::AddFloat32(r0, r1)),
                InstructionMIRData::SubFloat32(d, x, y) => frame_lower_spec(b, f, data) == around(d, x, y, InstructionIR::SubFloat32(r0, r1)),
                _ => true,
            }
        }),
{
}

} // verus!
