//! Machine-level names shared by the compiler stages: hardware registers,
//! the machine registers they are encoded as, branch labels, comparison
//! conditions and the low-level instructions lowered from MIR.
use vstd::prelude::*;
use crate::model::function::FunctionSignature;
use crate::model::typesystem::TypeId;

verus! {

/// A register of the target machine: one of the allocatable integer or
/// float registers, or the scratch register of either kind.
#[derive(Clone, Copy, Debug, PartialEq, Eq, Structural, PartialOrd, Ord, Hash)]
pub enum HardwareRegister {
    Int(u32),
    IntSpill,
    Float(u32),
    FloatSpill,
}

/// A label that branches of the intermediate representations jump to.
pub type BranchLabel = u32;

/// The comparison of a conditional branch.
#[derive(Clone, Copy, Debug, PartialEq, Eq, Structural)]
pub enum Condition {
    Equal,
    NotEqual,
    LessThan,
    LessThanOrEqual,
    GreaterThan,
    GreaterThanOrEqual,
}

/// A register of the target machine named by the calling convention: the
/// integer argument and return registers and the float argument registers.
#[derive(Clone, Copy, Debug, PartialEq, Eq, Structural)]
pub enum HardwareRegisterExplicit {
    Rax,
    Rdi,
    Rsi,
    Rdx,
    Rcx,
    R8,
    R9,
    R10,
    R11,
    Xmm0,
    Xmm1,
    Xmm2,
    Xmm3,
    Xmm4,
    Xmm5,
    Xmm6,
    Xmm7,
}

/// Where a value is read from or written to: a hardware register, a
/// register named by the calling convention, or a slot of the stack frame.
#[derive(Clone, Copy, Debug, PartialEq, Eq, Structural)]
pub enum Variable {
    Register(HardwareRegister),
    RegisterExplicit(HardwareRegisterExplicit),
    FrameMemory(i32),
}

/// An instruction of the low-level representation that the native code is
/// encoded from. Frame memory is addressed by its offset from the frame
/// pointer.
#[derive(Debug, PartialEq)]
pub enum InstructionIR {
    Marker(usize, usize),
    InitializeFunction,
    LoadZeroToRegister(HardwareRegister),
    AddToStackPointer(i32),
    SubFromStackPointer(i32),

    Push(HardwareRegister),
    Pop(HardwareRegister),
    PushExplicit(HardwareRegisterExplicit),
    PopExplicit(HardwareRegisterExplicit),
    PopEmpty,
    PushInt32(i32),

    LoadFrameMemory(HardwareRegister, i32),
    StoreFrameMemory(i32, HardwareRegister),
    LoadFrameMemoryExplicit(HardwareRegisterExplicit, i32),
    StoreFrameMemoryExplicit(i32, HardwareRegisterExplicit),

    Move(HardwareRegister, HardwareRegister),
    MoveExplicit(HardwareRegisterExplicit, HardwareRegisterExplicit),
    MoveImplicitToExplicit(HardwareRegisterExplicit, HardwareRegister),
    MoveExplicitToImplicit(HardwareRegister, HardwareRegisterExplicit),

    MoveInt32ToFrameMemory(i32, i32),
    MoveInt32ToRegister(HardwareRegister, i32),

    AddInt32(HardwareRegister, HardwareRegister),
    AddInt32FromFrameMemory(HardwareRegister, i32),
    AddInt32ToFrameMemory(i32, HardwareRegister),
    AddInt32Constant(HardwareRegister, i32),
    AddInt32ConstantToFrameMemory(i32, i32),

    SubInt32(HardwareRegister, HardwareRegister),
    SubInt32FromFrameMemory(HardwareRegister, i32),
    SubInt32ToFrameMemory(i32, HardwareRegister),
    SubInt32Constant(HardwareRegister, i32),
    SubInt32ConstantToFrameMemory(i32, i32),

    MultiplyInt32(HardwareRegister, HardwareRegister),
    MultiplyInt32FromFrameMemory(HardwareRegister, i32),

    DivideInt32(HardwareRegister, HardwareRegister),
    DivideInt32FromFrameMemory(HardwareRegister, i32),

    AndInt32(HardwareRegister, HardwareRegister),
    AndInt32FromFrameMemory(HardwareRegister, i32),
    AndInt32ToFrameMemory(i32, HardwareRegister),
    AndInt32Constant(HardwareRegister, i32),
    AndInt32ConstantToFrameMemory(i32, i32),

    OrInt32(HardwareRegister, HardwareRegister),
    OrInt32FromFrameMemory(HardwareRegister, i32),
    OrInt32ToFrameMemory(i32, HardwareRegister),
    OrInt32Constant(HardwareRegister, i32),
    OrInt32ConstantToFrameMemory(i32, i32),

    NotInt32(HardwareRegister),
    NotInt32FrameMemory(i32),

    AddFloat32(HardwareRegister, HardwareRegister),
    AddFloat32FromFrameMemory(HardwareRegister, i32),

    SubFloat32(HardwareRegister, HardwareRegister),
    SubFloat32FromFrameMemory(HardwareRegister, i32),

    MultiplyFloat32(HardwareRegister, HardwareRegister),
    MultiplyFloat32FromFrameMemory(HardwareRegister, i32),

    DivideFloat32(HardwareRegister, HardwareRegister),
    DivideFloat32FromFrameMemory(HardwareRegister, i32),

    Call(FunctionSignature, Vec<Variable>, usize),
    Return,

    NullReferenceCheck(HardwareRegister),
    ArrayBoundsCheck(HardwareRegister, HardwareRegister),

    NewArray(TypeId, HardwareRegister, usize),
    LoadElement(TypeId, HardwareRegister, HardwareRegister, HardwareRegister),
    StoreElement(TypeId, HardwareRegister, HardwareRegister, HardwareRegister),
    LoadArrayLength(HardwareRegister, HardwareRegister),

    NewObject(TypeId),
    LoadField(TypeId, usize, HardwareRegister, HardwareRegister),
    StoreField(TypeId, usize, HardwareRegister, HardwareRegister),

    Compare(TypeId, HardwareRegister, HardwareRegister),
    CompareFromFrameMemory(TypeId, HardwareRegister, i32),
    CompareToFrameMemory(TypeId, i32, HardwareRegister),

    BranchLabel(BranchLabel),
    Branch(BranchLabel),
    BranchCondition(Condition, bool, BranchLabel),

    CompareResult(Condition, bool, HardwareRegister),

    PrintStackFrame(usize),
    GarbageCollect(usize),
}

/// Whether `register` has a machine register: integer registers 0 to 5 and
/// float registers 0 to 4, and the scratch registers.
pub open spec fn is_mapped(register: HardwareRegister) -> bool {
    match register {
        HardwareRegister::Int(n) => n < 6,
        HardwareRegister::Float(n) => n < 5,
        _ => true,
    }
}

/// The machine register of `register`: integer registers are RDX, RCX, R8,
/// R9, R10 and R11, float registers XMM1 to XMM5; the integer scratch
/// register is RAX and the float one XMM0.
pub open spec fn machine_register(register: HardwareRegister) -> HardwareRegisterExplicit {
    match register {
        HardwareRegister::Int(n) => if n == 0 {
            HardwareRegisterExplicit::Rdx
        } else if n == 1 {
            HardwareRegisterExplicit::Rcx
        } else if n == 2 {
            HardwareRegisterExplicit::R8
        } else if n == 3 {
            HardwareRegisterExplicit::R9
        } else if n == 4 {
            HardwareRegisterExplicit::R10
        } else {
            HardwareRegisterExplicit::R11
        },
        HardwareRegister::IntSpill => HardwareRegisterExplicit::Rax,
        HardwareRegister::Float(n) => if n == 0 {
            HardwareRegisterExplicit::Xmm1
        } else if n == 1 {
            HardwareRegisterExplicit::Xmm2
        } else if n == 2 {
            HardwareRegisterExplicit::Xmm3
        } else if n == 3 {
            HardwareRegisterExplicit::Xmm4
        } else {
            HardwareRegisterExplicit::Xmm5
        },
        HardwareRegister::FloatSpill => HardwareRegisterExplicit::Xmm0,
    }
}

/// The machine register that `register` is encoded as.
pub fn get_machine_register(register: HardwareRegister) -> (r: HardwareRegisterExplicit)
    requires
        is_mapped(register),
    ensures
        r == machine_register(register),
{
    match register {
        HardwareRegister::Int(n) => if n == 0 {
            HardwareRegisterExplicit::Rdx
        } else if n == 1 {
            HardwareRegisterExplicit::Rcx
        } else if n == 2 {
            HardwareRegisterExplicit::R8
        } else if n == 3 {
            HardwareRegisterExplicit::R9
        } else if n == 4 {
            HardwareRegisterExplicit::R10
        } else {
            HardwareRegisterExplicit::R11
        },
        HardwareRegister::IntSpill => HardwareRegisterExplicit::Rax,
        HardwareRegister::Float(n) => if n == 0 {
            HardwareRegisterExplicit::Xmm1
        } else if n == 1 {
            HardwareRegisterExplicit::Xmm2
        } else if n == 2 {
            HardwareRegisterExplicit::Xmm3
        } else if n == 3 {
            HardwareRegisterExplicit::Xmm4
        } else {
            HardwareRegisterExplicit::Xmm5
        },
        HardwareRegister::FloatSpill => HardwareRegisterExplicit::Xmm0,
    }
}

/// The register that a value of type `t` is returned in, if any.
pub open spec fn return_register(t: TypeId) -> Option<HardwareRegisterExplicit> {
    match t {
        TypeId::Void => None,
        TypeId::Float32 => Some(HardwareRegisterExplicit::Xmm0),
        _ => Some(HardwareRegisterExplicit::Rax),
    }
}

/// The register that a value of type `t` is returned in, if any.
pub fn get_return_register(t: &TypeId) -> (r: Option<HardwareRegisterExplicit>)
    ensures
        r == return_register(*t),
{
    match t {
        TypeId::Void => None,
        TypeId::Float32 => Some(HardwareRegisterExplicit::Xmm0),
        _ => Some(HardwareRegisterExplicit::Rax),
    }
}

/// The instruction that moves `v` into the machine register `destination`.
pub open spec fn move_to_explicit_spec(v: Variable, destination: HardwareRegisterExplicit) -> InstructionIR {
    match v {
        Variable::Register(source) => InstructionIR::MoveImplicitToExplicit(destination, source),
        Variable::RegisterExplicit(source) => InstructionIR::MoveExplicit(destination, source),
        Variable::FrameMemory(offset) => InstructionIR::LoadFrameMemoryExplicit(destination, offset),
    }
}

/// The instruction that moves the machine register `source` into `v`.
pub open spec fn move_from_explicit_spec(v: Variable, source: HardwareRegisterExplicit) -> InstructionIR {
    match v {
        Variable::Register(destination) => InstructionIR::MoveExplicitToImplicit(destination, source),
        Variable::RegisterExplicit(destination) => InstructionIR::MoveExplicit(destination, source),
        Variable::FrameMemory(offset) => InstructionIR::StoreFrameMemoryExplicit(offset, source),
    }
}

/// The instructions that push `v` on the machine stack.
pub open spec fn move_to_stack_spec(v: Variable) -> Seq<InstructionIR> {
    match v {
        Variable::Register(source) => seq![InstructionIR::Push(source)],
        Variable::RegisterExplicit(source) => seq![InstructionIR::PushExplicit(source)],
        Variable::FrameMemory(offset) => seq![
            InstructionIR::LoadFrameMemory(HardwareRegister::IntSpill, offset),
            InstructionIR::Push(HardwareRegister::IntSpill),
        ],
    }
}

impl Variable {
    /// Moves the value into the hardware register `destination`.
    pub fn move_to_register(&self, destination: HardwareRegister, instructions: &mut Vec<InstructionIR>)
        ensures
            final(instructions)@ == old(instructions)@.push(
                match *self {
                    Variable::Register(source) => InstructionIR::Move(destination, source),
                    Variable::RegisterExplicit(source) => InstructionIR::MoveExplicitToImplicit(destination, source),
                    Variable::FrameMemory(offset) => InstructionIR::LoadFrameMemory(destination, offset),
                },
            ),
    {
        match self {
            Variable::Register(source) => instructions.push(InstructionIR::Move(destination, *source)),
            Variable::RegisterExplicit(source) => instructions.push(InstructionIR::MoveExplicitToImplicit(destination, *source)),
            Variable::FrameMemory(offset) => instructions.push(InstructionIR::LoadFrameMemory(destination, *offset)),
        }
    }

    /// Moves the value into the machine register `destination`.
    pub fn move_to_explicit(&self, destination: HardwareRegisterExplicit, instructions: &mut Vec<InstructionIR>)
        ensures
            final(instructions)@ == old(instructions)@.push(move_to_explicit_spec(*self, destination)),
    {
        match self {
            Variable::Register(source) => instructions.push(InstructionIR::MoveImplicitToExplicit(destination, *source)),
            Variable::RegisterExplicit(source) => instructions.push(InstructionIR::MoveExplicit(destination, *source)),
            Variable::FrameMemory(offset) => instructions.push(InstructionIR::LoadFrameMemoryExplicit(destination, *offset)),
        }
    }

    /// Pushes the value on the machine stack; a value in memory goes
    /// through the integer scratch register.
    pub fn move_to_stack(&self, instructions: &mut Vec<InstructionIR>)
        ensures
            final(instructions)@ == old(instructions)@ + move_to_stack_spec(*self),
    {
        match self {
            Variable::Register(source) => instructions.push(InstructionIR::Push(*source)),
            Variable::RegisterExplicit(source) => instructions.push(InstructionIR::PushExplicit(*source)),
            Variable::FrameMemory(offset) => {
                instructions.push(InstructionIR::LoadFrameMemory(HardwareRegister::IntSpill, *offset));
                instructions.push(InstructionIR::Push(HardwareRegister::IntSpill));
            },
        }
        assert(final(instructions)@ =~= old(instructions)@ + move_to_stack_spec(*self));
    }

    /// Stores the value in the frame slot at `frame_offset`; a value in
    /// memory goes through the integer scratch register.
    pub fn move_to_stack_frame(&self, frame_offset: i32, instructions: &mut Vec<InstructionIR>)
        ensures
            final(instructions)@ == old(instructions)@ + match *self {
                Variable::Register(source) => seq![InstructionIR::StoreFrameMemory(frame_offset, source)],
                Variable::RegisterExplicit(source) => seq![InstructionIR::StoreFrameMemoryExplicit(frame_offset, source)],
                Variable::FrameMemory(offset) => seq![
                    InstructionIR::LoadFrameMemory(HardwareRegister::IntSpill, offset),
                    InstructionIR::StoreFrameMemory(frame_offset, HardwareRegister::IntSpill),
                ],
            },
    {
        match self {
            Variable::Register(source) => instructions.push(InstructionIR::StoreFrameMemory(frame_offset, *source)),
            Variable::RegisterExplicit(source) => instructions.push(InstructionIR::StoreFrameMemoryExplicit(frame_offset, *source)),
            Variable::FrameMemory(offset) => {
                instructions.push(InstructionIR::LoadFrameMemory(HardwareRegister::IntSpill, *offset));
                instructions.push(InstructionIR::StoreFrameMemory(frame_offset, HardwareRegister::IntSpill));
            },
        }
        assert(final(instructions)@ =~= old(instructions)@ + match *self {
            Variable::Register(source) => seq![InstructionIR::StoreFrameMemory(frame_offset, source)],
            Variable::RegisterExplicit(source) => seq![InstructionIR::StoreFrameMemoryExplicit(frame_offset, source)],
            Variable::FrameMemory(offset) => seq![
                InstructionIR::LoadFrameMemory(HardwareRegister::IntSpill, offset),
                InstructionIR::StoreFrameMemory(frame_offset, HardwareRegister::IntSpill),
            ],
        });
    }

    /// Moves the value of the machine register `source` into this place.
    pub fn move_from_explicit(&self, source: HardwareRegisterExplicit, instructions: &mut Vec<InstructionIR>)
        ensures
            final(instructions)@ == old(instructions)@.push(move_from_explicit_spec(*self, source)),
    {
        match self {
            Variable::Register(destination) => instructions.push(InstructionIR::MoveExplicitToImplicit(*destination, source)),
            Variable::RegisterExplicit(destination) => instructions.push(InstructionIR::MoveExplicit(*destination, source)),
            Variable::FrameMemory(offset) => instructions.push(InstructionIR::StoreFrameMemoryExplicit(*offset, source)),
        }
    }
}

} // verus!
