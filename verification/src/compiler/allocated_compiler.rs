//! Lowering of MIR instructions to the low-level representation once every
//! register has been allocated: a register lives either in a hardware
//! register or in its slot of the stack frame, and each instruction is
//! lowered to moves and operations over those locations, with the scratch
//! registers `IntSpill` and `FloatSpill` where both operands are in memory
//! or the destination differs from the first operand.
use vstd::prelude::*;
use crate::analysis::{VirtualRegister, virtual_register_of};
use crate::compiler::ir::{HardwareRegister, HardwareRegisterExplicit, InstructionIR, Variable, is_mapped, machine_register, get_machine_register, return_register, get_return_register};
use crate::compiler::calling_conventions::{call_register, get_call_register};
use crate::model::binder::Binder;
use crate::model::function::FunctionDeclaration;
use crate::model::typesystem::types_view;
use crate::compiler::stack_layout;
use crate::mir::{RegisterMIR, InstructionMIR, InstructionMIRData, assign_register_spec, use_registers_spec};
use crate::model::function::{Function, FunctionSignature};
use crate::model::typesystem::{TypeId, TypeIdView};
use crate::optimization::register_allocation::{RegisterAllocation, alive_entries, hardware_register_of};

verus! {

/// The offset from the frame pointer of the slot of register `number`.
pub open spec fn slot_offset(f: Function, number: int) -> i32 {
    (-8 * (1 + f.spec_declaration().spec_parameters().len() + number)) as i32
}

/// The slot of register `r`.
pub open spec fn register_offset(f: Function, r: RegisterMIR) -> i32 {
    slot_offset(f, r.number as int)
}

/// The hardware register that `r` was given, or `None` where it lives in
/// its slot.
pub open spec fn location(a: RegisterAllocation, r: RegisterMIR) -> Option<HardwareRegister> {
    hardware_register_of(a.allocation()[virtual_register_of(r@)])
}

/// Whether `r` has an allocation.
pub open spec fn is_allocated(a: RegisterAllocation, r: RegisterMIR) -> bool {
    a.allocation().contains_key(virtual_register_of(r@))
}

/// The moves of `source` into the hardware register `destination`.
pub open spec fn move_to_hardware_spec(
    a: RegisterAllocation,
    f: Function,
    destination: HardwareRegister,
    source: RegisterMIR,
) -> Seq<InstructionIR> {
    match location(a, source) {
        Some(s) => seq![InstructionIR::Move(destination, s)],
        None => seq![InstructionIR::LoadFrameMemory(destination, register_offset(f, source))],
    }
}

/// The moves of the hardware register `source` into `destination`.
pub open spec fn move_from_hardware_spec(
    a: RegisterAllocation,
    f: Function,
    destination: RegisterMIR,
    source: HardwareRegister,
) -> Seq<InstructionIR> {
    match location(a, destination) {
        Some(d) => seq![InstructionIR::Move(d, source)],
        None => seq![InstructionIR::StoreFrameMemory(register_offset(f, destination), source)],
    }
}

/// The moves of `source` into `destination`; memory to memory goes through
/// `IntSpill`.
pub open spec fn move_register_spec(a: RegisterAllocation, f: Function, destination: RegisterMIR, source: RegisterMIR) -> Seq<
    InstructionIR,
> {
    match (location(a, destination), location(a, source)) {
        (Some(d), Some(s)) => seq![InstructionIR::Move(d, s)],
        (Some(d), None) => seq![InstructionIR::LoadFrameMemory(d, register_offset(f, source))],
        (None, Some(s)) => seq![InstructionIR::StoreFrameMemory(register_offset(f, destination), s)],
        (None, None) => seq![
            InstructionIR::LoadFrameMemory(HardwareRegister::IntSpill, register_offset(f, source)),
            InstructionIR::StoreFrameMemory(register_offset(f, destination), HardwareRegister::IntSpill),
        ],
    }
}

/// An integer operation that may take either operand from memory.
#[derive(Clone, Copy, Debug, PartialEq, Eq, Structural)]
pub enum BinaryOperation {
    AddInt32,
    SubInt32,
    AndInt32,
    OrInt32,
    CompareInt32,
}

pub open spec fn binary_reg_reg(op: BinaryOperation, x: HardwareRegister, y: HardwareRegister) -> InstructionIR {
    match op {
        BinaryOperation::AddInt32 => InstructionIR::AddInt32(x, y),
        BinaryOperation::SubInt32 => InstructionIR::SubInt32(x, y),
        BinaryOperation::AndInt32 => InstructionIR::AndInt32(x, y),
        BinaryOperation::OrInt32 => InstructionIR::OrInt32(x, y),
        BinaryOperation::CompareInt32 => InstructionIR::Compare(TypeId::Int32, x, y),
    }
}

pub open spec fn binary_reg_mem(op: BinaryOperation, x: HardwareRegister, o: i32) -> InstructionIR {
    match op {
        BinaryOperation::AddInt32 => InstructionIR::AddInt32FromFrameMemory(x, o),
        BinaryOperation::SubInt32 => InstructionIR::SubInt32FromFrameMemory(x, o),
        BinaryOperation::AndInt32 => InstructionIR::AndInt32FromFrameMemory(x, o),
        BinaryOperation::OrInt32 => InstructionIR::OrInt32FromFrameMemory(x, o),
        BinaryOperation::CompareInt32 => InstructionIR::CompareFromFrameMemory(TypeId::Int32, x, o),
    }
}

pub open spec fn binary_mem_reg(op: BinaryOperation, o: i32, y: HardwareRegister) -> InstructionIR {
    match op {
        BinaryOperation::AddInt32 => InstructionIR::AddInt32ToFrameMemory(o, y),
        BinaryOperation::SubInt32 => InstructionIR::SubInt32ToFrameMemory(o, y),
        BinaryOperation::AndInt32 => InstructionIR::AndInt32ToFrameMemory(o, y),
        BinaryOperation::OrInt32 => InstructionIR::OrInt32ToFrameMemory(o, y),
        BinaryOperation::CompareInt32 => InstructionIR::CompareToFrameMemory(TypeId::Int32, o, y),
    }
}

/// `op` on two operands, each a hardware register or a slot offset; two
/// memory operands go through `IntSpill`.
pub open spec fn binary_internal_spec(
    op: BinaryOperation,
    operand1: (Option<HardwareRegister>, i32),
    operand2: (Option<HardwareRegister>, i32),
) -> Seq<InstructionIR> {
    match (operand1.0, operand2.0) {
        (Some(x), Some(y)) => seq![binary_reg_reg(op, x, y)],
        (Some(x), None) => seq![binary_reg_mem(op, x, operand2.1)],
        (None, Some(y)) => seq![binary_mem_reg(op, operand1.1, y)],
        (None, None) => seq![
            InstructionIR::LoadFrameMemory(HardwareRegister::IntSpill, operand2.1),
            binary_mem_reg(op, operand1.1, HardwareRegister::IntSpill),
        ],
    }
}

/// The operands `r` as (location, slot offset).
pub open spec fn operand(a: RegisterAllocation, f: Function, r: RegisterMIR) -> (Option<HardwareRegister>, i32) {
    (location(a, r), register_offset(f, r))
}

/// `destination = operand1 op operand2`: in place where the destination is
/// the first operand, else through `IntSpill`.
pub open spec fn binary_with_destination_spec(
    a: RegisterAllocation,
    f: Function,
    op: BinaryOperation,
    destination: RegisterMIR,
    operand1: RegisterMIR,
    operand2: RegisterMIR,
) -> Seq<InstructionIR> {
    if destination@ == operand1@ {
        binary_internal_spec(op, operand(a, f, destination), operand(a, f, operand2))
    } else {
        move_to_hardware_spec(a, f, HardwareRegister::IntSpill, operand1) + binary_internal_spec(
            op,
            (Some(HardwareRegister::IntSpill), 0i32),
            operand(a, f, operand2),
        ) + move_from_hardware_spec(a, f, destination, HardwareRegister::IntSpill)
    }
}

/// An operation whose first operand must be a register: integer
/// multiplication and the float operations.
#[derive(Clone, Copy, Debug, PartialEq, Eq, Structural)]
pub enum RegisterOperation {
    MultiplyInt32,
    AddFloat32,
    SubFloat32,
    MultiplyFloat32,
    DivideFloat32,
    CompareFloat32,
}

pub open spec fn register_reg_reg(op: RegisterOperation, x: HardwareRegister, y: HardwareRegister) -> InstructionIR {
    match op {
        RegisterOperation::MultiplyInt32 => InstructionIR::MultiplyInt32(x, y),
        RegisterOperation::AddFloat32 => InstructionIR::AddFloat32(x, y),
        RegisterOperation::SubFloat32 => InstructionIR::SubFloat32(x, y),
        RegisterOperation::MultiplyFloat32 => InstructionIR::MultiplyFloat32(x, y),
        RegisterOperation::DivideFloat32 => InstructionIR::DivideFloat32(x, y),
        RegisterOperation::CompareFloat32 => InstructionIR::Compare(TypeId::Float32, x, y),
    }
}

pub open spec fn register_reg_mem(op: RegisterOperation, x: HardwareRegister, o: i32) -> InstructionIR {
    match op {
        RegisterOperation::MultiplyInt32 => InstructionIR::MultiplyInt32FromFrameMemory(x, o),
        RegisterOperation::AddFloat32 => InstructionIR::AddFloat32FromFrameMemory(x, o),
        RegisterOperation::SubFloat32 => InstructionIR::SubFloat32FromFrameMemory(x, o),
        RegisterOperation::MultiplyFloat32 => InstructionIR::MultiplyFloat32FromFrameMemory(x, o),
        RegisterOperation::DivideFloat32 => InstructionIR::DivideFloat32FromFrameMemory(x, o),
        RegisterOperation::CompareFloat32 => InstructionIR::CompareFromFrameMemory(TypeId::Float32, x, o),
    }
}

/// `op` with a first operand in memory loaded into `spill`, operated on
/// and stored back.
pub open spec fn register_internal_spec(
    op: RegisterOperation,
    spill: HardwareRegister,
    operand1: (Option<HardwareRegister>, i32),
    operand2: (Option<HardwareRegister>, i32),
) -> Seq<InstructionIR> {
    match (operand1.0, operand2.0) {
        (Some(x), Some(y)) => seq![register_reg_reg(op, x, y)],
        (Some(x), None) => seq![register_reg_mem(op, x, operand2.1)],
        (None, Some(y)) => seq![
            InstructionIR::LoadFrameMemory(spill, operand1.1),
            register_reg_reg(op, spill, y),
            InstructionIR::StoreFrameMemory(operand1.1, spill),
        ],
        (None, None) => seq![
            InstructionIR::LoadFrameMemory(spill, operand1.1),
            register_reg_mem(op, spill, operand2.1),
            InstructionIR::StoreFrameMemory(operand1.1, spill),
        ],
    }
}

pub open spec fn register_with_destination_spec(
    a: RegisterAllocation,
    f: Function,
    op: RegisterOperation,
    spill: HardwareRegister,
    destination: RegisterMIR,
    operand1: RegisterMIR,
    operand2: RegisterMIR,
) -> Seq<InstructionIR> {
    if destination@ == operand1@ {
        register_internal_spec(op, spill, operand(a, f, destination), operand(a, f, operand2))
    } else {
        move_to_hardware_spec(a, f, spill, operand1) + register_internal_spec(
            op,
            spill,
            (Some(spill), 0i32),
            operand(a, f, operand2),
        ) + move_from_hardware_spec(a, f, destination, spill)
    }
}

/// An integer operation with a constant second operand.
#[derive(Clone, Copy, Debug, PartialEq, Eq, Structural)]
pub enum ConstantOperation {
    AddInt32,
    SubInt32,
}

pub open spec fn constant_spec(op: ConstantOperation, operand1: (Option<HardwareRegister>, i32), c: i32) -> InstructionIR {
    match (op, operand1.0) {
        (ConstantOperation::AddInt32, Some(x)) => InstructionIR::AddInt32Constant(x, c),
        (ConstantOperation::AddInt32, None) => InstructionIR::AddInt32ConstantToFrameMemory(operand1.1, c),
        (ConstantOperation::SubInt32, Some(x)) => InstructionIR::SubInt32Constant(x, c),
        (ConstantOperation::SubInt32, None) => InstructionIR::SubInt32ConstantToFrameMemory(operand1.1, c),
    }
}

pub open spec fn constant_with_destination_spec(
    a: RegisterAllocation,
    f: Function,
    op: ConstantOperation,
    destination: RegisterMIR,
    operand1: RegisterMIR,
    c: i32,
) -> Seq<InstructionIR> {
    if destination@ == operand1@ {
        seq![constant_spec(op, operand(a, f, destination), c)]
    } else {
        move_to_hardware_spec(a, f, HardwareRegister::IntSpill, operand1) + seq![
            constant_spec(op, (Some(HardwareRegister::IntSpill), 0i32), c),
        ] + move_from_hardware_spec(a, f, destination, HardwareRegister::IntSpill)
    }
}

/// The registers in a hardware register that are alive at instruction `index`.
pub open spec fn alive_at_spec(a: RegisterAllocation, index: int) -> Seq<(VirtualRegister, HardwareRegister)> {
    alive_entries(a.entries(), index, a.entries().len() as int)
}

/// Saves each alive register in its slot, in order.
pub open spec fn push_alive_spec(f: Function, alive: Seq<(VirtualRegister, HardwareRegister)>) -> Seq<InstructionIR> {
    Seq::new(
        alive.len(),
        |k: int| InstructionIR::StoreFrameMemory(slot_offset(f, alive[k].0.number as int), alive[k].1),
    )
}

/// Restores the first `n` alive registers from their slots, last first,
/// skipping the register that receives the result.
pub open spec fn pop_alive_spec(
    f: Function,
    alive: Seq<(VirtualRegister, HardwareRegister)>,
    destination: Option<HardwareRegister>,
    n: int,
) -> Seq<InstructionIR>
    decreases n,
{
    if n <= 0 {
        Seq::empty()
    } else {
        let here = if destination == Some(alive[n - 1].1) {
            Seq::empty()
        } else {
            seq![InstructionIR::LoadFrameMemory(alive[n - 1].1, slot_offset(f, alive[n - 1].0.number as int))]
        };
        here + pop_alive_spec(f, alive, destination, n - 1)
    }
}

/// A runtime call at instruction `index`: alive registers saved around it,
/// the one receiving the result not restored.
pub open spec fn around_call_spec(
    a: RegisterAllocation,
    f: Function,
    index: int,
    call: Seq<InstructionIR>,
    destination: Option<HardwareRegister>,
) -> Seq<InstructionIR> {
    let alive = alive_at_spec(a, index);
    push_alive_spec(f, alive) + call + pop_alive_spec(f, alive, destination, alive.len() as int)
}

/// A constant loaded into `destination`.
pub open spec fn load_constant_spec(a: RegisterAllocation, f: Function, destination: RegisterMIR, value: i32) -> Seq<InstructionIR> {
    match location(a, destination) {
        Some(r) => seq![InstructionIR::MoveInt32ToRegister(r, value)],
        None => seq![InstructionIR::MoveInt32ToFrameMemory(register_offset(f, destination), value)],
    }
}

/// The return value of `f` moved from `source` into its return register,
/// then the return.
pub open spec fn return_spec(a: RegisterAllocation, f: Function, source: Option<RegisterMIR>) -> Seq<InstructionIR> {
    let value = match source {
        Some(s) => match return_register(f.spec_declaration().spec_return_type()) {
            Some(x) => match location(a, s) {
                Some(r) => seq![InstructionIR::MoveImplicitToExplicit(x, r)],
                None => seq![InstructionIR::LoadFrameMemoryExplicit(x, register_offset(f, s))],
            },
            None => Seq::empty(),
        },
        None => Seq::empty(),
    };
    value + seq![InstructionIR::Return]
}

/// Where argument `k` of a call is read from: its hardware register, unless
/// that register is the argument register of a later argument (and so is
/// overwritten before the call), or its slot.
pub open spec fn argument_source(
    a: RegisterAllocation,
    f: Function,
    parameters: Seq<TypeIdView>,
    arguments: Seq<RegisterMIR>,
    k: int,
) -> Variable {
    match location(a, arguments[k]) {
        Some(h) => if exists|j: int|
            k < j < arguments.len() && #[trigger] call_register(parameters, j, arguments[j]@.value_type) == Some(
                machine_register(h),
            ) {
            Variable::FrameMemory(register_offset(f, arguments[k]))
        } else {
            Variable::Register(h)
        },
        None => Variable::FrameMemory(register_offset(f, arguments[k])),
    }
}

/// The sources of the call arguments, in argument order.
pub open spec fn argument_sources(
    a: RegisterAllocation,
    f: Function,
    parameters: Seq<TypeIdView>,
    arguments: Seq<RegisterMIR>,
) -> Seq<Variable> {
    Seq::new(arguments.len(), |k: int| argument_source(a, f, parameters, arguments, k))
}

/// An argument list whose view is `sources`.
pub open spec fn argument_list(sources: Seq<Variable>) -> Vec<Variable> {
    choose|v: Vec<Variable>| v@ == sources
}

/// The call's result moved from the return register of the called
/// function into `destination`.
pub open spec fn handle_return_spec(
    a: RegisterAllocation,
    f: Function,
    destination: Option<RegisterMIR>,
    return_type: TypeId,
) -> Seq<InstructionIR> {
    match destination {
        Some(d) => match return_register(return_type) {
            Some(x) => match location(a, d) {
                Some(r) => seq![InstructionIR::MoveExplicitToImplicit(r, x)],
                None => seq![InstructionIR::StoreFrameMemoryExplicit(register_offset(f, d), x)],
            },
            None => Seq::empty(),
        },
        None => Seq::empty(),
    }
}

/// Two instructions are the same; a call is compared by the views of its
/// signature and of its argument list.
pub open spec fn same_ir(x: InstructionIR, y: InstructionIR) -> bool {
    match (x, y) {
        (InstructionIR::Call(s1, v1, n1), InstructionIR::Call(s2, v2, n2)) => s1@ == s2@ && v1@ == v2@ && n1 == n2,
        _ => x == y,
    }
}

/// `after` is `before` followed by instructions that are the same as `added`.
pub open spec fn ir_appended(before: Seq<InstructionIR>, after: Seq<InstructionIR>, added: Seq<InstructionIR>) -> bool {
    &&& after.len() == before.len() + added.len()
    &&& after.subrange(0, before.len() as int) == before
    &&& forall|k: int| 0 <= k < added.len() ==> same_ir(#[trigger] after[before.len() + k], added[k])
}

proof fn lemma_exact_appended(before: Seq<InstructionIR>, added: Seq<InstructionIR>)
    ensures
        ir_appended(before, before + added, added),
{
    assert((before + added).subrange(0, before.len() as int) =~= before);
    assert forall|k: int| 0 <= k < added.len() implies same_ir(#[trigger] (before + added)[before.len() + k], added[k]) by {
        assert((before + added)[before.len() + k] == added[k]);
    }
}

/// Every call names a bound function, and every argument in a hardware
/// register has a machine register.
pub open spec fn call_ready(b: Binder, a: RegisterAllocation, data: InstructionMIRData) -> bool {
    data matches InstructionMIRData::Call(s, _, arguments) ==> {
        &&& b.lookup(s@) is Some
        &&& forall|k: int| 0 <= k < arguments@.len() ==> (location(a, #[trigger] arguments@[k]) matches Some(h) ==> is_mapped(h))
    }
}

/// The instructions that lower MIR instruction `data` at `index`.
pub open spec fn lower_spec(b: Binder, a: RegisterAllocation, f: Function, index: int, data: InstructionMIRData) -> Seq<InstructionIR> {
    match data {
        InstructionMIRData::Return(source) => return_spec(a, f, source),
        InstructionMIRData::Call(signature, destination, arguments) => {
            let callee = b.lookup(signature@)->0;
            around_call_spec(
                a,
                f,
                index,
                seq![
                    InstructionIR::Call(
                        signature,
                        argument_list(argument_sources(a, f, types_view(callee.spec_parameters()), arguments@)),
                        0usize,
                    ),
                ] + handle_return_spec(a, f, destination, callee.spec_return_type()),
                match destination {
                    Some(d) => location(a, d),
                    None => None,
                },
            )
        },
        InstructionMIRData::LoadInt32(d, v) => load_constant_spec(a, f, d, v),
        InstructionMIRData::LoadBool(d, b) => load_constant_spec(a, f, d, if b { 1i32 } else { 0i32 }),
        InstructionMIRData::LoadNull(d) => load_constant_spec(a, f, d, 0i32),
        InstructionMIRData::Move(d, s) => move_register_spec(a, f, d, s),
        InstructionMIRData::AddInt32(d, x, y) => binary_with_destination_spec(a, f, BinaryOperation::AddInt32, d, x, y),
        InstructionMIRData::SubInt32(d, x, y) => binary_with_destination_spec(a, f, BinaryOperation::SubInt32, d, x, y),
        InstructionMIRData::AndBool(d, x, y) => binary_with_destination_spec(a, f, BinaryOperation::AndInt32, d, x, y),
        InstructionMIRData::OrBool(d, x, y) => binary_with_destination_spec(a, f, BinaryOperation::OrInt32, d, x, y),
        InstructionMIRData::AddInt32Constant(d, x, c) => constant_with_destination_spec(a, f, ConstantOperation::AddInt32, d, x, c),
        InstructionMIRData::SubInt32Constant(d, x, c) => constant_with_destination_spec(a, f, ConstantOperation::SubInt32, d, x, c),
        InstructionMIRData::MultiplyInt32(d, x, y) => register_with_destination_spec(
            a,
            f,
            RegisterOperation::MultiplyInt32,
            HardwareRegister::IntSpill,
            d,
            x,
            y,
        ),
        InstructionMIRData::AddFloat32(d, x, y) => register_with_destination_spec(
            a,
            f,
            RegisterOperation::AddFloat32,
            HardwareRegister::FloatSpill,
            d,
            x,
            y,
        ),
        InstructionMIRData::SubFloat32(d, x, y) => register_with_destination_spec(
            a,
            f,
            RegisterOperation::SubFloat32,
            HardwareRegister::FloatSpill,
            d,
            x,
            y,
        ),
        InstructionMIRData::MultiplyFloat32(d, x, y) => register_with_destination_spec(
            a,
            f,
            RegisterOperation::MultiplyFloat32,
            HardwareRegister::FloatSpill,
            d,
            x,
            y,
        ),
        InstructionMIRData::DivideFloat32(d, x, y) => register_with_destination_spec(
            a,
            f,
            RegisterOperation::DivideFloat32,
            HardwareRegister::FloatSpill,
            d,
            x,
            y,
        ),
        InstructionMIRData::LoadArgument(n, d) => {
            let argument_offset = (-8 * (1 + n)) as i32;
            match location(a, d) {
                Some(r) => seq![InstructionIR::LoadFrameMemory(r, argument_offset)],
                None => seq![
                    InstructionIR::LoadFrameMemory(HardwareRegister::IntSpill, argument_offset),
                    InstructionIR::StoreFrameMemory(register_offset(f, d), HardwareRegister::IntSpill),
                ],
            }
        },
        InstructionMIRData::NewObject(t, d) => around_call_spec(
            a,
            f,
            index,
            seq![
                InstructionIR::NewObject(t),
                match location(a, d) {
                    Some(r) => InstructionIR::MoveExplicitToImplicit(r, HardwareRegisterExplicit::Rax),
                    None => InstructionIR::StoreFrameMemoryExplicit(register_offset(f, d), HardwareRegisterExplicit::Rax),
                },
            ],
            location(a, d),
        ),
        InstructionMIRData::GarbageCollect => around_call_spec(
            a,
            f,
            index,
            seq![InstructionIR::GarbageCollect(index as usize)],
            None,
        ),
        InstructionMIRData::PrintStackFrame => around_call_spec(
            a,
            f,
            index,
            seq![InstructionIR::PrintStackFrame(index as usize)],
            None,
        ),
        InstructionMIRData::BranchLabel(l) => seq![InstructionIR::BranchLabel(l)],
        InstructionMIRData::Branch(l) => seq![InstructionIR::Branch(l)],
        InstructionMIRData::BranchCondition(c, t, l, x, y) => if t is Float32 {
            register_internal_spec(
                RegisterOperation::CompareFloat32,
                HardwareRegister::FloatSpill,
                operand(a, f, x),
                operand(a, f, y),
            ) + seq![InstructionIR::BranchCondition(c, false, l)]
        } else {
            binary_internal_spec(BinaryOperation::CompareInt32, operand(a, f, x), operand(a, f, y)) + seq![
                InstructionIR::BranchCondition(c, true, l),
            ]
        },
        _ => Seq::empty(),
    }
}

/// The instructions lowered from MIR instruction `instruction` at `index`:
/// a marker that ties them to the instruction, then its lowering.
pub open spec fn allocated_ir_spec(b: Binder, a: RegisterAllocation, f: Function, index: int, instruction: InstructionMIR) -> Seq<
    InstructionIR,
> {
    seq![InstructionIR::Marker(instruction.index, index as usize)] + lower_spec(b, a, f, index, instruction.data)
}

/// The instructions whose lowering is determined by the register
/// allocation, the frame layout and the calling convention (no array or
/// field access, float constant or compare-to-register).
pub open spec fn lowerable(data: InstructionMIRData) -> bool {
    match data {
        InstructionMIRData::LoadFloat32(..) => false,
        InstructionMIRData::NewArray(..) => false,
        InstructionMIRData::LoadElement(..) => false,
        InstructionMIRData::StoreElement(..) => false,
        InstructionMIRData::LoadArrayLength(..) => false,
        InstructionMIRData::LoadField(..) => false,
        InstructionMIRData::StoreField(..) => false,
        InstructionMIRData::Compare(..) => false,
        InstructionMIRData::BranchCondition(_, t, _, _, _) => !(t is Void),
        _ => true,
    }
}

/// Every register that `data` names has an allocation.
pub open spec fn registers_allocated(a: RegisterAllocation, data: InstructionMIRData) -> bool {
    &&& (assign_register_spec(data@) matches Some(r) ==> a.allocation().contains_key(virtual_register_of(r)))
    &&& forall|k: int|
        0 <= k < use_registers_spec(data@).len() ==> a.allocation().contains_key(
            virtual_register_of(#[trigger] use_registers_spec(data@)[k]),
        )
}

/// Whether the two registers are the same register of the same type.
fn same_register(a: &RegisterMIR, b: &RegisterMIR) -> (r: bool)
    ensures
        r == (a@ == b@),
{
    a.number == b.number && a.value_type.is_same_type(&b.value_type)
}

fn binary_reg_reg_exec(op: BinaryOperation, x: HardwareRegister, y: HardwareRegister) -> (r: InstructionIR)
    ensures
        r == binary_reg_reg(op, x, y),
{
    match op {
        BinaryOperation::AddInt32 => InstructionIR::AddInt32(x, y),
        BinaryOperation::SubInt32 => InstructionIR::SubInt32(x, y),
        BinaryOperation::AndInt32 => InstructionIR::AndInt32(x, y),
        BinaryOperation::OrInt32 => InstructionIR::OrInt32(x, y),
        BinaryOperation::CompareInt32 => InstructionIR::Compare(TypeId::Int32, x, y),
    }
}

fn binary_reg_mem_exec(op: BinaryOperation, x: HardwareRegister, o: i32) -> (r: InstructionIR)
    ensures
        r == binary_reg_mem(op, x, o),
{
    match op {
        BinaryOperation::AddInt32 => InstructionIR::AddInt32FromFrameMemory(x, o),
        BinaryOperation::SubInt32 => InstructionIR::SubInt32FromFrameMemory(x, o),
        BinaryOperation::AndInt32 => InstructionIR::AndInt32FromFrameMemory(x, o),
        BinaryOperation::OrInt32 => InstructionIR::OrInt32FromFrameMemory(x, o),
        BinaryOperation::CompareInt32 => InstructionIR::CompareFromFrameMemory(TypeId::Int32, x, o),
    }
}

fn binary_mem_reg_exec(op: BinaryOperation, o: i32, y: HardwareRegister) -> (r: InstructionIR)
    ensures
        r == binary_mem_reg(op, o, y),
{
    match op {
        BinaryOperation::AddInt32 => InstructionIR::AddInt32ToFrameMemory(o, y),
        BinaryOperation::SubInt32 => InstructionIR::SubInt32ToFrameMemory(o, y),
        BinaryOperation::AndInt32 => InstructionIR::AndInt32ToFrameMemory(o, y),
        BinaryOperation::OrInt32 => InstructionIR::OrInt32ToFrameMemory(o, y),
        BinaryOperation::CompareInt32 => InstructionIR::CompareToFrameMemory(TypeId::Int32, o, y),
    }
}

fn register_reg_reg_exec(op: RegisterOperation, x: HardwareRegister, y: HardwareRegister) -> (r: InstructionIR)
    ensures
        r == register_reg_reg(op, x, y),
{
    match op {
        RegisterOperation::MultiplyInt32 => InstructionIR::MultiplyInt32(x, y),
        RegisterOperation::AddFloat32 => InstructionIR::AddFloat32(x, y),
        RegisterOperation::SubFloat32 => InstructionIR::SubFloat32(x, y),
        RegisterOperation::MultiplyFloat32 => InstructionIR::MultiplyFloat32(x, y),
        RegisterOperation::DivideFloat32 => InstructionIR::DivideFloat32(x, y),
        RegisterOperation::CompareFloat32 => InstructionIR::Compare(TypeId::Float32, x, y),
    }
}

fn register_reg_mem_exec(op: RegisterOperation, x: HardwareRegister, o: i32) -> (r: InstructionIR)
    ensures
        r == register_reg_mem(op, x, o),
{
    match op {
        RegisterOperation::MultiplyInt32 => InstructionIR::MultiplyInt32FromFrameMemory(x, o),
        RegisterOperation::AddFloat32 => InstructionIR::AddFloat32FromFrameMemory(x, o),
        RegisterOperation::SubFloat32 => InstructionIR::SubFloat32FromFrameMemory(x, o),
        RegisterOperation::MultiplyFloat32 => InstructionIR::MultiplyFloat32FromFrameMemory(x, o),
        RegisterOperation::DivideFloat32 => InstructionIR::DivideFloat32FromFrameMemory(x, o),
        RegisterOperation::CompareFloat32 => InstructionIR::CompareFromFrameMemory(TypeId::Float32, x, o),
    }
}

fn constant_exec(op: ConstantOperation, operand1: (Option<HardwareRegister>, i32), c: i32) -> (r: InstructionIR)
    ensures
        r == constant_spec(op, operand1, c),
{
    match (op, operand1.0) {
        (ConstantOperation::AddInt32, Some(x)) => InstructionIR::AddInt32Constant(x, c),
        (ConstantOperation::AddInt32, None) => InstructionIR::AddInt32ConstantToFrameMemory(operand1.1, c),
        (ConstantOperation::SubInt32, Some(x)) => InstructionIR::SubInt32Constant(x, c),
        (ConstantOperation::SubInt32, None) => InstructionIR::SubInt32ConstantToFrameMemory(operand1.1, c),
    }
}

/// Lowers MIR instructions against a register allocation.
pub struct AllocatedInstructionIRCompiler<'a> {
    binder: &'a Binder,
    function: &'a Function,
    register_allocation: &'a RegisterAllocation,
    instructions: Vec<InstructionIR>,
}

impl<'a> AllocatedInstructionIRCompiler<'a> {
    pub closed spec fn spec_binder(&self) -> Binder {
        *self.binder
    }

    pub closed spec fn spec_function(&self) -> Function {
        *self.function
    }

    pub closed spec fn spec_allocation(&self) -> RegisterAllocation {
        *self.register_allocation
    }

    /// The instructions lowered so far.
    pub closed spec fn spec_instructions(&self) -> Seq<InstructionIR> {
        self.instructions@
    }

    /// The allocation is well formed and every allocated register's slot
    /// has an offset that fits the frame.
    pub open spec fn wf(&self) -> bool {
        &&& self.spec_binder().wf()
        &&& self.spec_allocation().wf()
        &&& self.spec_function().spec_declaration().spec_parameters().len() < 268_435_456
        &&& forall|k: int|
            0 <= k < self.spec_allocation().entries().len() ==> self.spec_function().spec_declaration().spec_parameters().len()
                + (#[trigger] self.spec_allocation().entries()[k]).0.number < 268_435_456
    }

    pub fn new(binder: &'a Binder, function: &'a Function, register_allocation: &'a RegisterAllocation) -> (r: AllocatedInstructionIRCompiler<'a>)
        ensures
            r.spec_binder() == *binder,
            r.spec_function() == *function,
            r.spec_allocation() == *register_allocation,
            r.spec_instructions() == Seq::<InstructionIR>::empty(),
    {
        AllocatedInstructionIRCompiler { binder, function, register_allocation, instructions: Vec::new() }
    }

    /// The lowered instructions.
    pub fn done(self) -> (r: Vec<InstructionIR>)
        ensures
            r@ == self.spec_instructions(),
    {
        self.instructions
    }

    proof fn lemma_allocated_bound(&self, v: VirtualRegister)
        requires
            self.wf(),
            self.spec_allocation().allocation().contains_key(v),
        ensures
            self.spec_function().spec_declaration().spec_parameters().len() + v.number < 268_435_456,
    {
        let k = choose|k: int| 0 <= k < self.spec_allocation().entries().len() && self.spec_allocation().entries()[k].0 == v;
        assert(self.spec_allocation().entries()[k].0 == v);
    }

    proof fn lemma_alive_bound(&self, index: int, n: int)
        requires
            self.wf(),
            0 <= n <= self.spec_allocation().entries().len(),
        ensures
            forall|j: int|
                0 <= j < alive_entries(self.spec_allocation().entries(), index, n).len() ==> self.spec_function().spec_declaration().spec_parameters().len()
                    + (#[trigger] alive_entries(self.spec_allocation().entries(), index, n)[j]).0.number < 268_435_456,
        decreases n,
    {
        if n > 0 {
            self.lemma_alive_bound(index, n - 1);
            let e = self.spec_allocation().entries()[n - 1];
            assert(self.spec_function().spec_declaration().spec_parameters().len() + e.0.number < 268_435_456);
        }
    }

    fn emit(&mut self, instruction: InstructionIR)
        ensures
            final(self).spec_binder() == old(self).spec_binder(),
            final(self).spec_function() == old(self).spec_function(),
            final(self).spec_allocation() == old(self).spec_allocation(),
            final(self).spec_instructions() == old(self).spec_instructions().push(instruction),
    {
        self.instructions.push(instruction);
    }

    fn location_of(&self, r: &RegisterMIR) -> (h: Option<HardwareRegister>)
        requires
            self.wf(),
            is_allocated(self.spec_allocation(), *r),
        ensures
            h == location(self.spec_allocation(), *r),
    {
        self.register_allocation.get_register(r).hardware_register()
    }

    fn offset_of(&self, r: &RegisterMIR) -> (o: i32)
        requires
            self.wf(),
            is_allocated(self.spec_allocation(), *r),
        ensures
            o == register_offset(self.spec_function(), *r),
    {
        proof {
            self.lemma_allocated_bound(virtual_register_of(r@));
        }
        stack_layout::virtual_register_stack_offset(self.function, r.number)
    }

    fn move_to_hardware_register(&mut self, destination: HardwareRegister, source: &RegisterMIR)
        requires
            old(self).wf(),
            is_allocated(old(self).spec_allocation(), *source),
        ensures
            final(self).spec_binder() == old(self).spec_binder(),
            final(self).spec_function() == old(self).spec_function(),
            final(self).spec_allocation() == old(self).spec_allocation(),
            final(self).spec_instructions() == old(self).spec_instructions() + move_to_hardware_spec(
                old(self).spec_allocation(),
                old(self).spec_function(),
                destination,
                *source,
            ),
    {
        match self.location_of(source) {
            Some(s) => self.emit(InstructionIR::Move(destination, s)),
            None => {
                let o = self.offset_of(source);
                self.emit(InstructionIR::LoadFrameMemory(destination, o));
            },
        }
    }

    fn move_from_hardware_register(&mut self, destination: &RegisterMIR, source: HardwareRegister)
        requires
            old(self).wf(),
            is_allocated(old(self).spec_allocation(), *destination),
        ensures
            final(self).spec_binder() == old(self).spec_binder(),
            final(self).spec_function() == old(self).spec_function(),
            final(self).spec_allocation() == old(self).spec_allocation(),
            final(self).spec_instructions() == old(self).spec_instructions() + move_from_hardware_spec(
                old(self).spec_allocation(),
                old(self).spec_function(),
                *destination,
                source,
            ),
    {
        match self.location_of(destination) {
            Some(d) => self.emit(InstructionIR::Move(d, source)),
            None => {
                let o = self.offset_of(destination);
                self.emit(InstructionIR::StoreFrameMemory(o, source));
            },
        }
    }

    fn emit_binary(&mut self, op: BinaryOperation, operand1: (Option<HardwareRegister>, i32), operand2: (Option<HardwareRegister>, i32))
        ensures
            final(self).spec_binder() == old(self).spec_binder(),
            final(self).spec_function() == old(self).spec_function(),
            final(self).spec_allocation() == old(self).spec_allocation(),
            final(self).spec_instructions() == old(self).spec_instructions() + binary_internal_spec(op, operand1, operand2),
    {
        let ghost before = self.spec_instructions();
        match (operand1.0, operand2.0) {
            (Some(x), Some(y)) => self.emit(binary_reg_reg_exec(op, x, y)),
            (Some(x), None) => self.emit(binary_reg_mem_exec(op, x, operand2.1)),
            (None, Some(y)) => self.emit(binary_mem_reg_exec(op, operand1.1, y)),
            (None, None) => {
                self.emit(InstructionIR::LoadFrameMemory(HardwareRegister::IntSpill, operand2.1));
                self.emit(binary_mem_reg_exec(op, operand1.1, HardwareRegister::IntSpill));
            },
        }
        assert(self.spec_instructions() =~= before + binary_internal_spec(op, operand1, operand2));
    }

    fn binary_with_destination(&mut self, op: BinaryOperation, destination: &RegisterMIR, operand1: &RegisterMIR, operand2: &RegisterMIR)
        requires
            old(self).wf(),
            is_allocated(old(self).spec_allocation(), *destination),
            is_allocated(old(self).spec_allocation(), *operand1),
            is_allocated(old(self).spec_allocation(), *operand2),
        ensures
            final(self).spec_binder() == old(self).spec_binder(),
            final(self).spec_function() == old(self).spec_function(),
            final(self).spec_allocation() == old(self).spec_allocation(),
            final(self).spec_instructions() == old(self).spec_instructions() + binary_with_destination_spec(
                old(self).spec_allocation(),
                old(self).spec_function(),
                op,
                *destination,
                *operand1,
                *operand2,
            ),
    {
        let ghost before = self.spec_instructions();
        let second = (self.location_of(operand2), self.offset_of(operand2));
        if same_register(destination, operand1) {
            let first = (self.location_of(destination), self.offset_of(destination));
            self.emit_binary(op, first, second);
        } else {
            self.move_to_hardware_register(HardwareRegister::IntSpill, operand1);
            self.emit_binary(op, (Some(HardwareRegister::IntSpill), 0i32), second);
            self.move_from_hardware_register(destination, HardwareRegister::IntSpill);
        }
        assert(self.spec_instructions() =~= before + binary_with_destination_spec(
            old(self).spec_allocation(),
            old(self).spec_function(),
            op,
            *destination,
            *operand1,
            *operand2,
        ));
    }

    fn emit_register_operation(
        &mut self,
        op: RegisterOperation,
        spill: HardwareRegister,
        operand1: (Option<HardwareRegister>, i32),
        operand2: (Option<HardwareRegister>, i32),
    )
        ensures
            final(self).spec_binder() == old(self).spec_binder(),
            final(self).spec_function() == old(self).spec_function(),
            final(self).spec_allocation() == old(self).spec_allocation(),
            final(self).spec_instructions() == old(self).spec_instructions() + register_internal_spec(op, spill, operand1, operand2),
    {
        let ghost before = self.spec_instructions();
        match (operand1.0, operand2.0) {
            (Some(x), Some(y)) => self.emit(register_reg_reg_exec(op, x, y)),
            (Some(x), None) => self.emit(register_reg_mem_exec(op, x, operand2.1)),
            (None, Some(y)) => {
                self.emit(InstructionIR::LoadFrameMemory(spill, operand1.1));
                self.emit(register_reg_reg_exec(op, spill, y));
                self.emit(InstructionIR::StoreFrameMemory(operand1.1, spill));
            },
            (None, None) => {
                self.emit(InstructionIR::LoadFrameMemory(spill, operand1.1));
                self.emit(register_reg_mem_exec(op, spill, operand2.1));
                self.emit(InstructionIR::StoreFrameMemory(operand1.1, spill));
            },
        }
        assert(self.spec_instructions() =~= before + register_internal_spec(op, spill, operand1, operand2));
    }

    fn register_with_destination(
        &mut self,
        op: RegisterOperation,
        spill: HardwareRegister,
        destination: &RegisterMIR,
        operand1: &RegisterMIR,
        operand2: &RegisterMIR,
    )
        requires
            old(self).wf(),
            is_allocated(old(self).spec_allocation(), *destination),
            is_allocated(old(self).spec_allocation(), *operand1),
            is_allocated(old(self).spec_allocation(), *operand2),
        ensures
            final(self).spec_binder() == old(self).spec_binder(),
            final(self).spec_function() == old(self).spec_function(),
            final(self).spec_allocation() == old(self).spec_allocation(),
            final(self).spec_instructions() == old(self).spec_instructions() + register_with_destination_spec(
                old(self).spec_allocation(),
                old(self).spec_function(),
                op,
                spill,
                *destination,
                *operand1,
                *operand2,
            ),
    {
        let ghost before = self.spec_instructions();
        let second = (self.location_of(operand2), self.offset_of(operand2));
        if same_register(destination, operand1) {
            let first = (self.location_of(destination), self.offset_of(destination));
            self.emit_register_operation(op, spill, first, second);
        } else {
            self.move_to_hardware_register(spill, operand1);
            self.emit_register_operation(op, spill, (Some(spill), 0i32), second);
            self.move_from_hardware_register(destination, spill);
        }
        assert(self.spec_instructions() =~= before + register_with_destination_spec(
            old(self).spec_allocation(),
            old(self).spec_function(),
            op,
            spill,
            *destination,
            *operand1,
            *operand2,
        ));
    }

    fn constant_with_destination(&mut self, op: ConstantOperation, destination: &RegisterMIR, operand1: &RegisterMIR, c: i32)
        requires
            old(self).wf(),
            is_allocated(old(self).spec_allocation(), *destination),
            is_allocated(old(self).spec_allocation(), *operand1),
        ensures
            final(self).spec_binder() == old(self).spec_binder(),
            final(self).spec_function() == old(self).spec_function(),
            final(self).spec_allocation() == old(self).spec_allocation(),
            final(self).spec_instructions() == old(self).spec_instructions() + constant_with_destination_spec(
                old(self).spec_allocation(),
                old(self).spec_function(),
                op,
                *destination,
                *operand1,
                c,
            ),
    {
        let ghost before = self.spec_instructions();
        if same_register(destination, operand1) {
            let first = (self.location_of(destination), self.offset_of(destination));
            self.emit(constant_exec(op, first, c));
        } else {
            self.move_to_hardware_register(HardwareRegister::IntSpill, operand1);
            self.emit(constant_exec(op, (Some(HardwareRegister::IntSpill), 0i32), c));
            self.move_from_hardware_register(destination, HardwareRegister::IntSpill);
        }
        assert(self.spec_instructions() =~= before + constant_with_destination_spec(
            old(self).spec_allocation(),
            old(self).spec_function(),
            op,
            *destination,
            *operand1,
            c,
        ));
    }

    fn load_constant(&mut self, destination: &RegisterMIR, value: i32)
        requires
            old(self).wf(),
            is_allocated(old(self).spec_allocation(), *destination),
        ensures
            final(self).spec_binder() == old(self).spec_binder(),
            final(self).spec_function() == old(self).spec_function(),
            final(self).spec_allocation() == old(self).spec_allocation(),
            final(self).spec_instructions() == old(self).spec_instructions() + load_constant_spec(
                old(self).spec_allocation(),
                old(self).spec_function(),
                *destination,
                value,
            ),
    {
        match self.location_of(destination) {
            Some(r) => self.emit(InstructionIR::MoveInt32ToRegister(r, value)),
            None => {
                let o = self.offset_of(destination);
                self.emit(InstructionIR::MoveInt32ToFrameMemory(o, value));
            },
        }
    }

    /// Saves the registers alive at `index` and hands them back.
    fn push_alive_registers(&mut self, index: usize) -> (alive: Vec<(VirtualRegister, HardwareRegister)>)
        requires
            old(self).wf(),
        ensures
            final(self).spec_binder() == old(self).spec_binder(),
            final(self).spec_function() == old(self).spec_function(),
            final(self).spec_allocation() == old(self).spec_allocation(),
            alive@ == alive_at_spec(old(self).spec_allocation(), index as int),
            final(self).spec_instructions() == old(self).spec_instructions() + push_alive_spec(old(self).spec_function(), alive@),
    {
        let alive = self.register_allocation.alive_registers_at(index);
        proof {
            self.lemma_alive_bound(index as int, self.spec_allocation().entries().len() as int);
        }
        let ghost before = self.spec_instructions();
        let mut i: usize = 0;
        while i < alive.len()
            invariant
                self.wf(),
                self.spec_binder() == old(self).spec_binder(),
                self.spec_function() == old(self).spec_function(),
                self.spec_allocation() == old(self).spec_allocation(),
                alive@ == alive_at_spec(self.spec_allocation(), index as int),
                forall|j: int|
                    0 <= j < alive@.len() ==> self.spec_function().spec_declaration().spec_parameters().len()
                        + (#[trigger] alive@[j]).0.number < 268_435_456,
                i <= alive@.len(),
                self.spec_instructions() == before + push_alive_spec(self.spec_function(), alive@.subrange(0, i as int)),
            decreases alive@.len() - i,
        {
            let (v, r) = alive[i];
            assert(self.spec_function().spec_declaration().spec_parameters().len() + alive@[i as int].0.number < 268_435_456);
            let o = stack_layout::virtual_register_stack_offset(self.function, v.number);
            self.emit(InstructionIR::StoreFrameMemory(o, r));
            i = i + 1;
            assert(self.spec_instructions() =~= before + push_alive_spec(self.spec_function(), alive@.subrange(0, i as int)));
        }
        assert(alive@.subrange(0, i as int) =~= alive@);
        alive
    }

    /// Restores the saved registers, last first, except `destination`.
    fn pop_alive_registers(&mut self, alive: &Vec<(VirtualRegister, HardwareRegister)>, destination: Option<HardwareRegister>)
        requires
            old(self).wf(),
            forall|j: int|
                0 <= j < alive@.len() ==> old(self).spec_function().spec_declaration().spec_parameters().len()
                    + (#[trigger] alive@[j]).0.number < 268_435_456,
        ensures
            final(self).spec_binder() == old(self).spec_binder(),
            final(self).spec_function() == old(self).spec_function(),
            final(self).spec_allocation() == old(self).spec_allocation(),
            final(self).spec_instructions() == old(self).spec_instructions() + pop_alive_spec(
                old(self).spec_function(),
                alive@,
                destination,
                alive@.len() as int,
            ),
    {
        let ghost before = self.spec_instructions();
        let ghost f = self.spec_function();
        let mut i: usize = alive.len();
        while i > 0
            invariant
                self.wf(),
                self.spec_binder() == old(self).spec_binder(),
                self.spec_function() == f,
                f == old(self).spec_function(),
                self.spec_allocation() == old(self).spec_allocation(),
                forall|j: int|
                    0 <= j < alive@.len() ==> f.spec_declaration().spec_parameters().len()
                        + (#[trigger] alive@[j]).0.number < 268_435_456,
                i <= alive@.len(),
                before + pop_alive_spec(f, alive@, destination, alive@.len() as int) == self.spec_instructions()
                    + pop_alive_spec(f, alive@, destination, i as int),
            decreases i,
        {
            let (v, r) = alive[i - 1];
            let ghost rest = pop_alive_spec(f, alive@, destination, i - 1);
            let ghost current = self.spec_instructions();
            if destination == Some(r) {
                assert(pop_alive_spec(f, alive@, destination, i as int) =~= rest);
            } else {
                assert(f.spec_declaration().spec_parameters().len() + alive@[i - 1].0.number < 268_435_456);
                let o = stack_layout::virtual_register_stack_offset(self.function, v.number);
                self.emit(InstructionIR::LoadFrameMemory(r, o));
                assert(pop_alive_spec(f, alive@, destination, i as int) =~= seq![InstructionIR::LoadFrameMemory(r, o)] + rest);
                assert(current + pop_alive_spec(f, alive@, destination, i as int) =~= self.spec_instructions() + rest);
            }
            i = i - 1;
        }
        assert(self.spec_instructions() + pop_alive_spec(f, alive@, destination, 0) =~= self.spec_instructions());
    }

    #[verifier::rlimit(60)]
    #[verifier::spinoff_prover]
    fn lower_values(&mut self, instruction_index: usize, data: &InstructionMIRData)
        requires
            old(self).wf(),
            lowerable(*data),
            *data is LoadInt32 || *data is LoadBool || *data is LoadNull || *data is Move || *data is LoadArgument,
            data matches InstructionMIRData::LoadArgument(n, _) ==> n < old(
                self,
            ).spec_function().spec_declaration().spec_parameters().len(),
            registers_allocated(old(self).spec_allocation(), *data),
        ensures
            final(self).wf(),
            final(self).spec_binder() == old(self).spec_binder(),
            final(self).spec_function() == old(self).spec_function(),
            final(self).spec_allocation() == old(self).spec_allocation(),
            final(self).spec_instructions() == old(self).spec_instructions() + lower_spec(
                old(self).spec_binder(),
                old(self).spec_allocation(),
                old(self).spec_function(),
                instruction_index as int,
                *data,
            ),
    {
        let ghost a = self.spec_allocation();
        let ghost f = self.spec_function();
        let ghost index = instruction_index as int;
        let ghost uses = use_registers_spec(data@);
        let ghost marked = self.spec_instructions();
        match data {
            InstructionMIRData::LoadInt32(d, v) => self.load_constant(d, *v),
            InstructionMIRData::LoadBool(d, b) => self.load_constant(d, if *b { 1i32 } else { 0i32 }),
            InstructionMIRData::LoadNull(d) => self.load_constant(d, 0i32),
            InstructionMIRData::Move(d, x) => {
                assert(uses[0] == x@);
                self.move_register(d, x);
            },
            InstructionMIRData::LoadArgument(n, d) => {
                let argument_offset = stack_layout::argument_stack_offset(self.function, *n);
                match self.location_of(d) {
                    Some(r) => self.emit(InstructionIR::LoadFrameMemory(r, argument_offset)),
                    None => {
                        let o = self.offset_of(d);
                        self.emit(InstructionIR::LoadFrameMemory(HardwareRegister::IntSpill, argument_offset));
                        self.emit(InstructionIR::StoreFrameMemory(o, HardwareRegister::IntSpill));
                    },
                }
            },
            _ => {},
        }
    }

    #[verifier::rlimit(60)]
    #[verifier::spinoff_prover]
    fn lower_integer_operations(&mut self, instruction_index: usize, data: &InstructionMIRData)
        requires
            old(self).wf(),
            lowerable(*data),
            *data is AddInt32 || *data is SubInt32 || *data is AndBool || *data is OrBool || *data is AddInt32Constant || *data is SubInt32Constant || *data is MultiplyInt32,
            data matches InstructionMIRData::LoadArgument(n, _) ==> n < old(
                self,
            ).spec_function().spec_declaration().spec_parameters().len(),
            registers_allocated(old(self).spec_allocation(), *data),
        ensures
            final(self).wf(),
            final(self).spec_binder() == old(self).spec_binder(),
            final(self).spec_function() == old(self).spec_function(),
            final(self).spec_allocation() == old(self).spec_allocation(),
            final(self).spec_instructions() == old(self).spec_instructions() + lower_spec(
                old(self).spec_binder(),
                old(self).spec_allocation(),
                old(self).spec_function(),
                instruction_index as int,
                *data,
            ),
    {
        let ghost a = self.spec_allocation();
        let ghost f = self.spec_function();
        let ghost index = instruction_index as int;
        let ghost uses = use_registers_spec(data@);
        let ghost marked = self.spec_instructions();
        match data {
            InstructionMIRData::AddInt32(d, x, y) => {
                assert(uses[0] == x@ && uses[1] == y@);
                self.binary_with_destination(BinaryOperation::AddInt32, d, x, y);
            },
            InstructionMIRData::SubInt32(d, x, y) => {
                assert(uses[0] == x@ && uses[1] == y@);
                self.binary_with_destination(BinaryOperation::SubInt32, d, x, y);
            },
            InstructionMIRData::AndBool(d, x, y) => {
                assert(uses[0] == x@ && uses[1] == y@);
                self.binary_with_destination(BinaryOperation::AndInt32, d, x, y);
            },
            InstructionMIRData::OrBool(d, x, y) => {
                assert(uses[0] == x@ && uses[1] == y@);
                self.binary_with_destination(BinaryOperation::OrInt32, d, x, y);
            },
            InstructionMIRData::AddInt32Constant(d, x, c) => {
                assert(uses[0] == x@);
                self.constant_with_destination(ConstantOperation::AddInt32, d, x, *c);
            },
            InstructionMIRData::SubInt32Constant(d, x, c) => {
                assert(uses[0] == x@);
                self.constant_with_destination(ConstantOperation::SubInt32, d, x, *c);
            },
            InstructionMIRData::MultiplyInt32(d, x, y) => {
                assert(uses[0] == x@ && uses[1] == y@);
                self.register_with_destination(RegisterOperation::MultiplyInt32, HardwareRegister::IntSpill, d, x, y);
            },
            _ => {},
        }
    }

    #[verifier::rlimit(60)]
    #[verifier::spinoff_prover]
    fn lower_float_operations(&mut self, instruction_index: usize, data: &InstructionMIRData)
        requires
            old(self).wf(),
            lowerable(*data),
            *data is AddFloat32 || *data is SubFloat32 || *data is MultiplyFloat32 || *data is DivideFloat32,
            data matches InstructionMIRData::LoadArgument(n, _) ==> n < old(
                self,
            ).spec_function().spec_declaration().spec_parameters().len(),
            registers_allocated(old(self).spec_allocation(), *data),
        ensures
            final(self).wf(),
            final(self).spec_binder() == old(self).spec_binder(),
            final(self).spec_function() == old(self).spec_function(),
            final(self).spec_allocation() == old(self).spec_allocation(),
            final(self).spec_instructions() == old(self).spec_instructions() + lower_spec(
                old(self).spec_binder(),
                old(self).spec_allocation(),
                old(self).spec_function(),
                instruction_index as int,
                *data,
            ),
    {
        let ghost a = self.spec_allocation();
        let ghost f = self.spec_function();
        let ghost index = instruction_index as int;
        let ghost uses = use_registers_spec(data@);
        let ghost marked = self.spec_instructions();
        match data {
            InstructionMIRData::AddFloat32(d, x, y) => {
                assert(uses[0] == x@ && uses[1] == y@);
                self.register_with_destination(RegisterOperation::AddFloat32, HardwareRegister::FloatSpill, d, x, y);
            },
            InstructionMIRData::SubFloat32(d, x, y) => {
                assert(uses[0] == x@ && uses[1] == y@);
                self.register_with_destination(RegisterOperation::SubFloat32, HardwareRegister::FloatSpill, d, x, y);
            },
            InstructionMIRData::MultiplyFloat32(d, x, y) => {
                assert(uses[0] == x@ && uses[1] == y@);
                self.register_with_destination(RegisterOperation::MultiplyFloat32, HardwareRegister::FloatSpill, d, x, y);
            },
            InstructionMIRData::DivideFloat32(d, x, y) => {
                assert(uses[0] == x@ && uses[1] == y@);
                self.register_with_destination(RegisterOperation::DivideFloat32, HardwareRegister::FloatSpill, d, x, y);
            },
            _ => {},
        }
    }

    #[verifier::rlimit(60)]
    #[verifier::spinoff_prover]
    fn lower_runtime_calls(&mut self, instruction_index: usize, data: &InstructionMIRData)
        requires
            old(self).wf(),
            lowerable(*data),
            *data is NewObject || *data is GarbageCollect || *data is PrintStackFrame,
            data matches InstructionMIRData::LoadArgument(n, _) ==> n < old(
                self,
            ).spec_function().spec_declaration().spec_parameters().len(),
            registers_allocated(old(self).spec_allocation(), *data),
        ensures
            final(self).wf(),
            final(self).spec_binder() == old(self).spec_binder(),
            final(self).spec_function() == old(self).spec_function(),
            final(self).spec_allocation() == old(self).spec_allocation(),
            final(self).spec_instructions() == old(self).spec_instructions() + lower_spec(
                old(self).spec_binder(),
                old(self).spec_allocation(),
                old(self).spec_function(),
                instruction_index as int,
                *data,
            ),
    {
        let ghost a = self.spec_allocation();
        let ghost f = self.spec_function();
        let ghost index = instruction_index as int;
        let ghost uses = use_registers_spec(data@);
        let ghost marked = self.spec_instructions();
        match data {
            InstructionMIRData::NewObject(t, d) => {
                let alive = self.push_alive_registers(instruction_index);
                proof {
                    self.lemma_alive_bound(index, a.entries().len() as int);
                }
                self.emit(InstructionIR::NewObject(t.clone()));
                let destination = self.location_of(d);
                match destination {
                    Some(r) => self.emit(InstructionIR::MoveExplicitToImplicit(r, HardwareRegisterExplicit::Rax)),
                    None => {
                        let o = self.offset_of(d);
                        self.emit(InstructionIR::StoreFrameMemoryExplicit(o, HardwareRegisterExplicit::Rax));
                    },
                }
                self.pop_alive_registers(&alive, destination);
            },
            InstructionMIRData::GarbageCollect => {
                let alive = self.push_alive_registers(instruction_index);
                proof {
                    self.lemma_alive_bound(index, a.entries().len() as int);
                }
                self.emit(InstructionIR::GarbageCollect(instruction_index));
                self.pop_alive_registers(&alive, None);
            },
            InstructionMIRData::PrintStackFrame => {
                let alive = self.push_alive_registers(instruction_index);
                proof {
                    self.lemma_alive_bound(index, a.entries().len() as int);
                }
                self.emit(InstructionIR::PrintStackFrame(instruction_index));
                self.pop_alive_registers(&alive, None);
            },
            _ => {},
        }
    }

    #[verifier::rlimit(60)]
    #[verifier::spinoff_prover]
    fn lower_branches(&mut self, instruction_index: usize, data: &InstructionMIRData)
        requires
            old(self).wf(),
            lowerable(*data),
            *data is BranchLabel || *data is Branch || *data is BranchCondition,
            data matches InstructionMIRData::LoadArgument(n, _) ==> n < old(
                self,
            ).spec_function().spec_declaration().spec_parameters().len(),
            registers_allocated(old(self).spec_allocation(), *data),
        ensures
            final(self).wf(),
            final(self).spec_binder() == old(self).spec_binder(),
            final(self).spec_function() == old(self).spec_function(),
            final(self).spec_allocation() == old(self).spec_allocation(),
            final(self).spec_instructions() == old(self).spec_instructions() + lower_spec(
                old(self).spec_binder(),
                old(self).spec_allocation(),
                old(self).spec_function(),
                instruction_index as int,
                *data,
            ),
    {
        let ghost a = self.spec_allocation();
        let ghost f = self.spec_function();
        let ghost index = instruction_index as int;
        let ghost uses = use_registers_spec(data@);
        let ghost marked = self.spec_instructions();
        match data {
            InstructionMIRData::BranchLabel(l) => self.emit(InstructionIR::BranchLabel(*l)),
            InstructionMIRData::Branch(l) => self.emit(InstructionIR::Branch(*l)),
            InstructionMIRData::BranchCondition(c, t, l, x, y) => {
                assert(uses[0] == x@ && uses[1] == y@);
                let first = (self.location_of(x), self.offset_of(x));
                let second = (self.location_of(y), self.offset_of(y));
                match t {
                    TypeId::Float32 => {
                        self.emit_register_operation(RegisterOperation::CompareFloat32, HardwareRegister::FloatSpill, first, second);
                        self.emit(InstructionIR::BranchCondition(*c, false, *l));
                    },
                    _ => {
                        self.emit_binary(BinaryOperation::CompareInt32, first, second);
                        self.emit(InstructionIR::BranchCondition(*c, true, *l));
                    },
                }
            },
            _ => {},
        }
    }

    /// Moves the return value into its register and returns.
    fn lower_return(&mut self, source: &Option<RegisterMIR>)
        requires
            old(self).wf(),
            *source matches Some(s) ==> is_allocated(old(self).spec_allocation(), s),
        ensures
            final(self).wf(),
            final(self).spec_binder() == old(self).spec_binder(),
            final(self).spec_function() == old(self).spec_function(),
            final(self).spec_allocation() == old(self).spec_allocation(),
            final(self).spec_instructions() == old(self).spec_instructions() + return_spec(
                old(self).spec_allocation(),
                old(self).spec_function(),
                *source,
            ),
    {
        let ghost before = self.spec_instructions();
        match source {
            Some(s) => {
                match get_return_register(self.function.declaration().return_type()) {
                    Some(x) => match self.location_of(s) {
                        Some(r) => self.emit(InstructionIR::MoveImplicitToExplicit(x, r)),
                        None => {
                            let o = self.offset_of(s);
                            self.emit(InstructionIR::LoadFrameMemoryExplicit(x, o));
                        },
                    },
                    None => {},
                }
            },
            None => {},
        }
        self.emit(InstructionIR::Return);
        assert(self.spec_instructions() =~= before + return_spec(self.spec_allocation(), self.spec_function(), *source));
    }

    /// Whether `x` is among `registers`.
    fn contains_register(registers: &Vec<HardwareRegisterExplicit>, x: HardwareRegisterExplicit) -> (r: bool)
        ensures
            r == registers@.contains(x),
    {
        let mut i: usize = 0;
        while i < registers.len()
            invariant
                i <= registers@.len(),
                forall|j: int| 0 <= j < i ==> registers@[j] != x,
            decreases registers@.len() - i,
        {
            if registers[i] == x {
                return true;
            }
            i = i + 1;
        }
        false
    }

    /// The sources of the call arguments, read last to first.
    fn call_argument_sources(&self, callee: &FunctionDeclaration, arguments: &Vec<RegisterMIR>) -> (v: Vec<Variable>)
        requires
            self.wf(),
            forall|k: int| 0 <= k < arguments@.len() ==> is_allocated(self.spec_allocation(), #[trigger] arguments@[k]),
            forall|k: int|
                0 <= k < arguments@.len() ==> (location(self.spec_allocation(), #[trigger] arguments@[k]) matches Some(h)
                    ==> is_mapped(h)),
        ensures
            v@ == argument_sources(
                self.spec_allocation(),
                self.spec_function(),
                types_view(callee.spec_parameters()),
                arguments@,
            ),
    {
        let ghost a = self.spec_allocation();
        let ghost f = self.spec_function();
        let ghost params = types_view(callee.spec_parameters());
        let n = arguments.len();
        let mut reversed: Vec<Variable> = Vec::new();
        let mut overwritten: Vec<HardwareRegisterExplicit> = Vec::new();
        let mut k: usize = n;
        while k > 0
            invariant
                self.wf(),
                n == arguments@.len(),
                k <= n,
                a == self.spec_allocation(),
                f == self.spec_function(),
                params == types_view(callee.spec_parameters()),
                forall|q: int| 0 <= q < arguments@.len() ==> is_allocated(a, #[trigger] arguments@[q]),
                forall|q: int|
                    0 <= q < arguments@.len() ==> (location(a, #[trigger] arguments@[q]) matches Some(h) ==> is_mapped(h)),
                reversed@.len() == n - k,
                forall|q: int| k <= q < n ==> #[trigger] reversed@[n - 1 - q] == argument_source(a, f, params, arguments@, q),
                forall|x: HardwareRegisterExplicit|
                    overwritten@.contains(x) <==> exists|j: int|
                        k <= j < n && #[trigger] call_register(params, j, arguments@[j]@.value_type) == Some(x),
            decreases k,
        {
            let q = k - 1;
            let argument = &arguments[q];
            let source = match self.location_of(argument) {
                Some(h) => {
                    let m = get_machine_register(h);
                    if Self::contains_register(&overwritten, m) {
                        let o = self.offset_of(argument);
                        Variable::FrameMemory(o)
                    } else {
                        Variable::Register(h)
                    }
                },
                None => {
                    let o = self.offset_of(argument);
                    Variable::FrameMemory(o)
                },
            };
            assert(source == argument_source(a, f, params, arguments@, q as int));
            reversed.push(source);
            let ghost before_overwritten = overwritten@;
            match get_call_register(callee, q, &argument.value_type) {
                Some(x) => {
                    overwritten.push(x);
                },
                None => {},
            }
            proof {
                assert forall|x: HardwareRegisterExplicit|
                    overwritten@.contains(x) <==> exists|j: int|
                        q <= j < n && #[trigger] call_register(params, j, arguments@[j]@.value_type) == Some(x) by {
                    if overwritten@.contains(x) {
                        if before_overwritten.contains(x) {
                            let j = choose|j: int|
                                k <= j < n && #[trigger] call_register(params, j, arguments@[j]@.value_type) == Some(x);
                            assert(q <= j < n);
                        } else {
                            let w = choose|w: int| 0 <= w < overwritten@.len() && overwritten@[w] == x;
                            assert(call_register(params, q as int, arguments@[q as int]@.value_type) == Some(x));
                        }
                    }
                    if exists|j: int| q <= j < n && #[trigger] call_register(params, j, arguments@[j]@.value_type) == Some(x) {
                        let j = choose|j: int| q <= j < n && #[trigger] call_register(params, j, arguments@[j]@.value_type) == Some(x);
                        if j == q {
                            assert(overwritten@[overwritten@.len() - 1] == x);
                        } else {
                            assert(before_overwritten.contains(x));
                            let w = choose|w: int| 0 <= w < before_overwritten.len() && before_overwritten[w] == x;
                            assert(overwritten@[w] == x);
                        }
                    }
                }
            }
            k = q;
        }
        let mut v: Vec<Variable> = Vec::new();
        let mut i: usize = 0;
        while i < n
            invariant
                i <= n,
                n == arguments@.len(),
                reversed@.len() == n,
                forall|q: int| 0 <= q < n ==> #[trigger] reversed@[n - 1 - q] == argument_source(a, f, params, arguments@, q),
                v@.len() == i,
                forall|q: int| 0 <= q < i ==> #[trigger] v@[q] == argument_source(a, f, params, arguments@, q),
            decreases n - i,
        {
            v.push(reversed[n - 1 - i]);
            i = i + 1;
        }
        assert(v@ =~= argument_sources(a, f, params, arguments@));
        v
    }

    /// Moves the result of a call from the callee's return register.
    fn handle_return_value(&mut self, destination: &Option<RegisterMIR>, return_type: &TypeId)
        requires
            old(self).wf(),
            *destination matches Some(d) ==> is_allocated(old(self).spec_allocation(), d),
        ensures
            final(self).wf(),
            final(self).spec_binder() == old(self).spec_binder(),
            final(self).spec_function() == old(self).spec_function(),
            final(self).spec_allocation() == old(self).spec_allocation(),
            final(self).spec_instructions() == old(self).spec_instructions() + handle_return_spec(
                old(self).spec_allocation(),
                old(self).spec_function(),
                *destination,
                *return_type,
            ),
    {
        let ghost before = self.spec_instructions();
        match destination {
            Some(d) => match get_return_register(return_type) {
                Some(x) => match self.location_of(d) {
                    Some(r) => self.emit(InstructionIR::MoveExplicitToImplicit(r, x)),
                    None => {
                        let o = self.offset_of(d);
                        self.emit(InstructionIR::StoreFrameMemoryExplicit(o, x));
                    },
                },
                None => {},
            },
            None => {},
        }
        assert(self.spec_instructions() =~= before + handle_return_spec(
            self.spec_allocation(),
            self.spec_function(),
            *destination,
            *return_type,
        ));
    }

    /// Lowers a call: alive registers saved, arguments named, the call, the
    /// result moved, the saved registers restored except the result's.
    #[verifier::rlimit(40)]
    fn lower_call(
        &mut self,
        instruction_index: usize,
        signature: &FunctionSignature,
        destination: &Option<RegisterMIR>,
        arguments: &Vec<RegisterMIR>,
    )
        requires
            old(self).wf(),
            old(self).spec_binder().lookup(signature@) is Some,
            *destination matches Some(d) ==> is_allocated(old(self).spec_allocation(), d),
            forall|k: int| 0 <= k < arguments@.len() ==> is_allocated(old(self).spec_allocation(), #[trigger] arguments@[k]),
            forall|k: int|
                0 <= k < arguments@.len() ==> (location(old(self).spec_allocation(), #[trigger] arguments@[k]) matches Some(h)
                    ==> is_mapped(h)),
        ensures
            final(self).wf(),
            final(self).spec_binder() == old(self).spec_binder(),
            final(self).spec_function() == old(self).spec_function(),
            final(self).spec_allocation() == old(self).spec_allocation(),
            ir_appended(
                old(self).spec_instructions(),
                final(self).spec_instructions(),
                lower_spec(
                    old(self).spec_binder(),
                    old(self).spec_allocation(),
                    old(self).spec_function(),
                    instruction_index as int,
                    InstructionMIRData::Call(*signature, *destination, *arguments),
                ),
            ),
    {
        let ghost a = self.spec_allocation();
        let ghost f = self.spec_function();
        let ghost bnd = self.spec_binder();
        let ghost before = self.spec_instructions();
        let callee = self.binder.get(signature).unwrap();
        let alive = self.push_alive_registers(instruction_index);
        proof {
            self.lemma_alive_bound(instruction_index as int, a.entries().len() as int);
        }
        let ghost pushed = self.spec_instructions();
        let sources = self.call_argument_sources(callee, arguments);
        let ghost sources_view = sources@;
        self.emit(InstructionIR::Call(signature.clone(), sources, 0));
        let ghost called = self.spec_instructions();
        self.handle_return_value(destination, callee.return_type());
        let returned = match destination {
            Some(d) => self.location_of(d),
            None => None,
        };
        self.pop_alive_registers(&alive, returned);
        proof {
            let params = types_view(callee.spec_parameters());
            let list = argument_list(argument_sources(a, f, params, arguments@));
            assert(list@ == argument_sources(a, f, params, arguments@));
            let added = lower_spec(bnd, a, f, instruction_index as int, InstructionMIRData::Call(*signature, *destination, *arguments));
            let after = self.spec_instructions();
            let p = push_alive_spec(f, alive@);
            let h = handle_return_spec(a, f, *destination, callee.spec_return_type());
            let q = pop_alive_spec(f, alive@, returned, alive@.len() as int);
            assert(added =~= p + (seq![InstructionIR::Call(*signature, list, 0usize)] + h) + q);
            assert(after =~= before + p + seq![called.last()] + h + q);
            assert(after.subrange(0, before.len() as int) =~= before);
            assert forall|k: int| 0 <= k < added.len() implies same_ir(#[trigger] after[before.len() + k], added[k]) by {
                if k < p.len() {
                    assert(after[before.len() + k] == p[k]);
                } else if k == p.len() {
                    assert(after[before.len() + k] == called.last());
                } else if k < p.len() + 1 + h.len() {
                    assert(after[before.len() + k] == h[k - p.len() - 1]);
                } else {
                    assert(after[before.len() + k] == q[k - p.len() - 1 - h.len()]);
                }
            }
        }
    }

    /// Lowers `data`, instruction `instruction_index` of the compiled function.
    fn lower(&mut self, instruction_index: usize, data: &InstructionMIRData)
        requires
            old(self).wf(),
            lowerable(*data),
            data matches InstructionMIRData::LoadArgument(n, _) ==> n < old(
                self,
            ).spec_function().spec_declaration().spec_parameters().len(),
            registers_allocated(old(self).spec_allocation(), *data),
            call_ready(old(self).spec_binder(), old(self).spec_allocation(), *data),
        ensures
            final(self).wf(),
            final(self).spec_binder() == old(self).spec_binder(),
            final(self).spec_function() == old(self).spec_function(),
            final(self).spec_allocation() == old(self).spec_allocation(),
            ir_appended(
                old(self).spec_instructions(),
                final(self).spec_instructions(),
                lower_spec(
                    old(self).spec_binder(),
                    old(self).spec_allocation(),
                    old(self).spec_function(),
                    instruction_index as int,
                    *data,
                ),
            ),
    {
        let ghost before = self.spec_instructions();
        let ghost added = lower_spec(self.spec_binder(), self.spec_allocation(), self.spec_function(), instruction_index as int, *data);
        let ghost uses = use_registers_spec(data@);
        match data {
            InstructionMIRData::LoadInt32(..) | InstructionMIRData::LoadBool(..) | InstructionMIRData::LoadNull(..) | InstructionMIRData::Move(..) | InstructionMIRData::LoadArgument(..) => self.lower_values(instruction_index, data),
            InstructionMIRData::AddInt32(..) | InstructionMIRData::SubInt32(..) | InstructionMIRData::AndBool(..) | InstructionMIRData::OrBool(..) | InstructionMIRData::AddInt32Constant(..) | InstructionMIRData::SubInt32Constant(..) | InstructionMIRData::MultiplyInt32(..) => self.lower_integer_operations(instruction_index, data),
            InstructionMIRData::AddFloat32(..) | InstructionMIRData::SubFloat32(..) | InstructionMIRData::MultiplyFloat32(..) | InstructionMIRData::DivideFloat32(..) => self.lower_float_operations(instruction_index, data),
            InstructionMIRData::NewObject(..) | InstructionMIRData::GarbageCollect | InstructionMIRData::PrintStackFrame => self.lower_runtime_calls(instruction_index, data),
            InstructionMIRData::BranchLabel(..) | InstructionMIRData::Branch(..) | InstructionMIRData::BranchCondition(..) => self.lower_branches(instruction_index, data),
            InstructionMIRData::Return(source) => {
                proof {
                    if source.is_some() {
                        assert(uses[0] == source->0@);
                    }
                }
                self.lower_return(source);
            },
            InstructionMIRData::Call(signature, destination, arguments) => {
                assert(forall|k: int| 0 <= k < arguments@.len() ==> uses[k] == (#[trigger] arguments@[k])@);
                self.lower_call(instruction_index, signature, destination, arguments);
            },
            _ => {},
        }
        proof {
            if !(*data is Call) {
                lemma_exact_appended(before, added);
            }
        }
    }

    /// Lowers instruction `instruction_index` of the compiled function,
    /// appending its instructions.
    pub fn compile_instruction(&mut self, instruction_index: usize, instruction: &InstructionMIR)
        requires
            old(self).wf(),
            lowerable(instruction.data),
            instruction.data matches InstructionMIRData::LoadArgument(n, _) ==> n < old(
                self,
            ).spec_function().spec_declaration().spec_parameters().len(),
            registers_allocated(old(self).spec_allocation(), instruction.data),
            call_ready(old(self).spec_binder(), old(self).spec_allocation(), instruction.data),
        ensures
            final(self).wf(),
            final(self).spec_binder() == old(self).spec_binder(),
            final(self).spec_function() == old(self).spec_function(),
            final(self).spec_allocation() == old(self).spec_allocation(),
            ir_appended(
                old(self).spec_instructions(),
                final(self).spec_instructions(),
                allocated_ir_spec(
                    old(self).spec_binder(),
                    old(self).spec_allocation(),
                    old(self).spec_function(),
                    instruction_index as int,
                    *instruction,
                ),
            ),
    {
        let ghost before = self.spec_instructions();
        self.emit(InstructionIR::Marker(instruction.index, instruction_index));
        let ghost marked = self.spec_instructions();
        self.lower(instruction_index, &instruction.data);
        proof {
            let lowered = lower_spec(
                self.spec_binder(),
                self.spec_allocation(),
                self.spec_function(),
                instruction_index as int,
                instruction.data,
            );
            let added = allocated_ir_spec(
                self.spec_binder(),
                self.spec_allocation(),
                self.spec_function(),
                instruction_index as int,
                *instruction,
            );
            let after = self.spec_instructions();
            assert(added =~= seq![InstructionIR::Marker(instruction.index, instruction_index)] + lowered);
            assert(after.subrange(0, marked.len() as int) =~= marked);
            assert(after.subrange(0, before.len() as int) =~= before) by {
                assert(marked.subrange(0, before.len() as int) =~= before);
            }
            assert forall|k: int| 0 <= k < added.len() implies same_ir(#[trigger] after[before.len() + k], added[k]) by {
                if k == 0 {
                    assert(after[before.len() as int] == marked[before.len() as int]);
                } else {
                    assert(same_ir(after[marked.len() + (k - 1)], lowered[k - 1]));
                }
            }
        }
    }

    fn move_register(&mut self, destination: &RegisterMIR, source: &RegisterMIR)
        requires
            old(self).wf(),
            is_allocated(old(self).spec_allocation(), *destination),
            is_allocated(old(self).spec_allocation(), *source),
        ensures
            final(self).spec_binder() == old(self).spec_binder(),
            final(self).spec_function() == old(self).spec_function(),
            final(self).spec_allocation() == old(self).spec_allocation(),
            final(self).spec_instructions() == old(self).spec_instructions() + move_register_spec(
                old(self).spec_allocation(),
                old(self).spec_function(),
                *destination,
                *source,
            ),
    {
        let d = self.location_of(destination);
        let s = self.location_of(source);
        match (d, s) {
            (Some(d), Some(s)) => self.emit(InstructionIR::Move(d, s)),
            (Some(d), None) => {
                let o = self.offset_of(source);
                self.emit(InstructionIR::LoadFrameMemory(d, o));
            },
            (None, Some(s)) => {
                let o = self.offset_of(destination);
                self.emit(InstructionIR::StoreFrameMemory(o, s));
            },
            (None, None) => {
                let so = self.offset_of(source);
                let d_o = self.offset_of(destination);
                self.emit(InstructionIR::LoadFrameMemory(HardwareRegister::IntSpill, so));
                self.emit(InstructionIR::StoreFrameMemory(d_o, HardwareRegister::IntSpill));
                assert(self.spec_instructions() =~= old(self).spec_instructions() + move_register_spec(
                    old(self).spec_allocation(),
                    old(self).spec_function(),
                    *destination,
                    *source,
                ));
            },
        }
    }
}


/// An arithmetic or logical operation, whatever its operands.
pub enum Arithmetic {
    AddInt32,
    SubInt32,
    MultiplyInt32,
    DivideInt32,
    AndInt32,
    OrInt32,
    AddFloat32,
    SubFloat32,
    MultiplyFloat32,
    DivideFloat32,
}

/// The operation that a low-level instruction performs, if it is one of
/// the arithmetic or logical operations, on registers, memory or a constant.
pub open spec fn ir_arithmetic(ir: InstructionIR) -> Option<Arithmetic> {
    match ir {
        InstructionIR::AddInt32(..) => Some(Arithmetic::AddInt32),
        InstructionIR::AddInt32FromFrameMemory(..) => Some(Arithmetic::AddInt32),
        InstructionIR::AddInt32ToFrameMemory(..) => Some(Arithmetic::AddInt32),
        InstructionIR::AddInt32Constant(..) => Some(Arithmetic::AddInt32),
        InstructionIR::AddInt32ConstantToFrameMemory(..) => Some(Arithmetic::AddInt32),
        InstructionIR::SubInt32(..) => Some(Arithmetic::SubInt32),
        InstructionIR::SubInt32FromFrameMemory(..) => Some(Arithmetic::SubInt32),
        InstructionIR::SubInt32ToFrameMemory(..) => Some(Arithmetic::SubInt32),
        InstructionIR::SubInt32Constant(..) => Some(Arithmetic::SubInt32),
        InstructionIR::SubInt32ConstantToFrameMemory(..) => Some(Arithmetic::SubInt32),
        InstructionIR::MultiplyInt32(..) => Some(Arithmetic::MultiplyInt32),
        InstructionIR::MultiplyInt32FromFrameMemory(..) => Some(Arithmetic::MultiplyInt32),
        InstructionIR::DivideInt32(..) => Some(Arithmetic::DivideInt32),
        InstructionIR::DivideInt32FromFrameMemory(..) => Some(Arithmetic::DivideInt32),
        InstructionIR::AndInt32(..) => Some(Arithmetic::AndInt32),
        InstructionIR::AndInt32FromFrameMemory(..) => Some(Arithmetic::AndInt32),
        InstructionIR::AndInt32ToFrameMemory(..) => Some(Arithmetic::AndInt32),
        InstructionIR::AndInt32Constant(..) => Some(Arithmetic::AndInt32),
        InstructionIR::AndInt32ConstantToFrameMemory(..) => Some(Arithmetic::AndInt32),
        InstructionIR::OrInt32(..) => Some(Arithmetic::OrInt32),
        InstructionIR::OrInt32FromFrameMemory(..) => Some(Arithmetic::OrInt32),
        InstructionIR::OrInt32ToFrameMemory(..) => Some(Arithmetic::OrInt32),
        InstructionIR::OrInt32Constant(..) => Some(Arithmetic::OrInt32),
        InstructionIR::OrInt32ConstantToFrameMemory(..) => Some(Arithmetic::OrInt32),
        InstructionIR::AddFloat32(..) => Some(Arithmetic::AddFloat32),
        InstructionIR::AddFloat32FromFrameMemory(..) => Some(Arithmetic::AddFloat32),
        InstructionIR::SubFloat32(..) => Some(Arithmetic::SubFloat32),
        InstructionIR::SubFloat32FromFrameMemory(..) => Some(Arithmetic::SubFloat32),
        InstructionIR::MultiplyFloat32(..) => Some(Arithmetic::MultiplyFloat32),
        InstructionIR::MultiplyFloat32FromFrameMemory(..) => Some(Arithmetic::MultiplyFloat32),
        InstructionIR::DivideFloat32(..) => Some(Arithmetic::DivideFloat32),
        InstructionIR::DivideFloat32FromFrameMemory(..) => Some(Arithmetic::DivideFloat32),
        _ => None,
    }
}

/// The operation that an arithmetic or logical MIR instruction performs
/// (booleans are computed as integers).
pub open spec fn mir_arithmetic(data: InstructionMIRData) -> Option<Arithmetic> {
    match data {
        InstructionMIRData::AddInt32(..) => Some(Arithmetic::AddInt32),
        InstructionMIRData::AddInt32Constant(..) => Some(Arithmetic::AddInt32),
        InstructionMIRData::SubInt32(..) => Some(Arithmetic::SubInt32),
        InstructionMIRData::SubInt32Constant(..) => Some(Arithmetic::SubInt32),
        InstructionMIRData::MultiplyInt32(..) => Some(Arithmetic::MultiplyInt32),
        InstructionMIRData::AndBool(..) => Some(Arithmetic::AndInt32),
        InstructionMIRData::OrBool(..) => Some(Arithmetic::OrInt32),
        InstructionMIRData::AddFloat32(..) => Some(Arithmetic::AddFloat32),
        InstructionMIRData::SubFloat32(..) => Some(Arithmetic::SubFloat32),
        InstructionMIRData::MultiplyFloat32(..) => Some(Arithmetic::MultiplyFloat32),
        InstructionMIRData::DivideFloat32(..) => Some(Arithmetic::DivideFloat32),
        _ => None,
    }
}

/// Whether `s` performs operation `op` once and no other arithmetic.
pub open spec fn performs_only(s: Seq<InstructionIR>, op: Arithmetic) -> bool {
    &&& exists|k: int| 0 <= k < s.len() && ir_arithmetic(#[trigger] s[k]) == Some(op)
    &&& forall|k: int| 0 <= k < s.len() && (#[trigger] ir_arithmetic(s[k])) is Some ==> ir_arithmetic(s[k]) == Some(op)
}

/// Each arithmetic or logical MIR instruction is lowered to the operation
/// of the same name, whichever of its registers live in memory: a float
/// subtraction to a float subtraction, an integer addition (with a register
/// or a constant) to an integer addition, and so on; no other arithmetic
/// takes part in its lowering.
pub proof fn law_arithmetic_lowering(b: Binder, a: RegisterAllocation, f: Function, index: int, data: InstructionMIRData)
    requires
        mir_arithmetic(data) is Some,
    ensures
        performs_only(lower_spec(b, a, f, index, data), mir_arithmetic(data)->0),
{
    match data {
        InstructionMIRData::AddInt32(d, x, y) => lemma_binary_lowering(a, f, BinaryOperation::AddInt32, d, x, y),
        InstructionMIRData::SubInt32(d, x, y) => lemma_binary_lowering(a, f, BinaryOperation::SubInt32, d, x, y),
        InstructionMIRData::AndBool(d, x, y) => lemma_binary_lowering(a, f, BinaryOperation::AndInt32, d, x, y),
        InstructionMIRData::OrBool(d, x, y) => lemma_binary_lowering(a, f, BinaryOperation::OrInt32, d, x, y),
        InstructionMIRData::AddInt32Constant(d, x, c) => lemma_constant_lowering(a, f, ConstantOperation::AddInt32, d, x, c),
        InstructionMIRData::SubInt32Constant(d, x, c) => lemma_constant_lowering(a, f, ConstantOperation::SubInt32, d, x, c),
        InstructionMIRData::MultiplyInt32(d, x, y) => lemma_register_lowering(
            a,
            f,
            RegisterOperation::MultiplyInt32,
            HardwareRegister::IntSpill,
            d,
            x,
            y,
        ),
        InstructionMIRData::AddFloat32(d, x, y) => lemma_register_lowering(
            a,
            f,
            RegisterOperation::AddFloat32,
            HardwareRegister::FloatSpill,
            d,
            x,
            y,
        ),
        InstructionMIRData::SubFloat32(d, x, y) => lemma_register_lowering(
            a,
            f,
            RegisterOperation::SubFloat32,
            HardwareRegister::FloatSpill,
            d,
            x,
            y,
        ),
        InstructionMIRData::MultiplyFloat32(d, x, y) => lemma_register_lowering(
            a,
            f,
            RegisterOperation::MultiplyFloat32,
            HardwareRegister::FloatSpill,
            d,
            x,
            y,
        ),
        InstructionMIRData::DivideFloat32(d, x, y) => lemma_register_lowering(
            a,
            f,
            RegisterOperation::DivideFloat32,
            HardwareRegister::FloatSpill,
            d,
            x,
            y,
        ),
        _ => {},
    }
}

/// The arithmetic of the integer operations that may take memory operands.
pub open spec fn binary_arithmetic(op: BinaryOperation) -> Option<Arithmetic> {
    match op {
        BinaryOperation::AddInt32 => Some(Arithmetic::AddInt32),
        BinaryOperation::SubInt32 => Some(Arithmetic::SubInt32),
        BinaryOperation::AndInt32 => Some(Arithmetic::AndInt32),
        BinaryOperation::OrInt32 => Some(Arithmetic::OrInt32),
        BinaryOperation::CompareInt32 => None,
    }
}

/// The arithmetic of the operations whose first operand is a register.
pub open spec fn register_arithmetic(op: RegisterOperation) -> Option<Arithmetic> {
    match op {
        RegisterOperation::MultiplyInt32 => Some(Arithmetic::MultiplyInt32),
        RegisterOperation::AddFloat32 => Some(Arithmetic::AddFloat32),
        RegisterOperation::SubFloat32 => Some(Arithmetic::SubFloat32),
        RegisterOperation::MultiplyFloat32 => Some(Arithmetic::MultiplyFloat32),
        RegisterOperation::DivideFloat32 => Some(Arithmetic::DivideFloat32),
        RegisterOperation::CompareFloat32 => None,
    }
}

/// Moves around an operation add no arithmetic.
proof fn lemma_performs_between(m1: Seq<InstructionIR>, s: Seq<InstructionIR>, m2: Seq<InstructionIR>, op: Arithmetic)
    requires
        performs_only(s, op),
        forall|k: int| 0 <= k < m1.len() ==> ir_arithmetic(#[trigger] m1[k]) is None,
        forall|k: int| 0 <= k < m2.len() ==> ir_arithmetic(#[trigger] m2[k]) is None,
    ensures
        performs_only(m1 + s + m2, op),
{
    let t = m1 + s + m2;
    let k = choose|k: int| 0 <= k < s.len() && ir_arithmetic(#[trigger] s[k]) == Some(op);
    assert(t[m1.len() + k] == s[k]);
    assert forall|j: int| 0 <= j < t.len() && (#[trigger] ir_arithmetic(t[j])) is Some implies ir_arithmetic(t[j]) == Some(op) by {
        if j < m1.len() {
            assert(t[j] == m1[j]);
        } else if j < m1.len() + s.len() {
            assert(t[j] == s[j - m1.len()]);
        } else {
            assert(t[j] == m2[j - m1.len() - s.len()]);
        }
    }
}

proof fn lemma_binary_internal(op: BinaryOperation, o1: (Option<HardwareRegister>, i32), o2: (Option<HardwareRegister>, i32))
    requires
        binary_arithmetic(op) is Some,
    ensures
        performs_only(binary_internal_spec(op, o1, o2), binary_arithmetic(op)->0),
{
    let s = binary_internal_spec(op, o1, o2);
    match (o1.0, o2.0) {
        (None, None) => assert(ir_arithmetic(s[1]) == binary_arithmetic(op)),
        _ => assert(ir_arithmetic(s[0]) == binary_arithmetic(op)),
    }
}

proof fn lemma_register_internal(
    op: RegisterOperation,
    spill: HardwareRegister,
    o1: (Option<HardwareRegister>, i32),
    o2: (Option<HardwareRegister>, i32),
)
    requires
        register_arithmetic(op) is Some,
    ensures
        performs_only(register_internal_spec(op, spill, o1, o2), register_arithmetic(op)->0),
{
    let s = register_internal_spec(op, spill, o1, o2);
    match o1.0 {
        None => assert(ir_arithmetic(s[1]) == register_arithmetic(op)),
        _ => assert(ir_arithmetic(s[0]) == register_arithmetic(op)),
    }
}

proof fn lemma_binary_lowering(
    a: RegisterAllocation,
    f: Function,
    op: BinaryOperation,
    d: RegisterMIR,
    x: RegisterMIR,
    y: RegisterMIR,
)
    requires
        binary_arithmetic(op) is Some,
    ensures
        performs_only(binary_with_destination_spec(a, f, op, d, x, y), binary_arithmetic(op)->0),
{
    if d@ == x@ {
        lemma_binary_internal(op, operand(a, f, d), operand(a, f, y));
    } else {
        lemma_binary_internal(op, (Some(HardwareRegister::IntSpill), 0i32), operand(a, f, y));
        lemma_performs_between(
            move_to_hardware_spec(a, f, HardwareRegister::IntSpill, x),
            binary_internal_spec(op, (Some(HardwareRegister::IntSpill), 0i32), operand(a, f, y)),
            move_from_hardware_spec(a, f, d, HardwareRegister::IntSpill),
            binary_arithmetic(op)->0,
        );
    }
}

proof fn lemma_register_lowering(
    a: RegisterAllocation,
    f: Function,
    op: RegisterOperation,
    spill: HardwareRegister,
    d: RegisterMIR,
    x: RegisterMIR,
    y: RegisterMIR,
)
    requires
        register_arithmetic(op) is Some,
    ensures
        performs_only(register_with_destination_spec(a, f, op, spill, d, x, y), register_arithmetic(op)->0),
{
    if d@ == x@ {
        lemma_register_internal(op, spill, operand(a, f, d), operand(a, f, y));
    } else {
        lemma_register_internal(op, spill, (Some(spill), 0i32), operand(a, f, y));
        lemma_performs_between(
            move_to_hardware_spec(a, f, spill, x),
            register_internal_spec(op, spill, (Some(spill), 0i32), operand(a, f, y)),
            move_from_hardware_spec(a, f, d, spill),
            register_arithmetic(op)->0,
        );
    }
}

proof fn lemma_constant_lowering(
    a: RegisterAllocation,
    f: Function,
    op: ConstantOperation,
    d: RegisterMIR,
    x: RegisterMIR,
    c: i32,
)
    ensures
        performs_only(
            constant_with_destination_spec(a, f, op, d, x, c),
            match op {
                ConstantOperation::AddInt32 => Arithmetic::AddInt32,
                ConstantOperation::SubInt32 => Arithmetic::SubInt32,
            },
        ),
{
    let arithmetic = match op {
        ConstantOperation::AddInt32 => Arithmetic::AddInt32,
        ConstantOperation::SubInt32 => Arithmetic::SubInt32,
    };
    if d@ == x@ {
        let s = constant_with_destination_spec(a, f, op, d, x, c);
        assert(ir_arithmetic(s[0]) == Some(arithmetic));
    } else {
        let s = seq![constant_spec(op, (Some(HardwareRegister::IntSpill), 0i32), c)];
        assert(ir_arithmetic(s[0]) == Some(arithmetic));
        lemma_performs_between(
            move_to_hardware_spec(a, f, HardwareRegister::IntSpill, x),
            s,
            move_from_hardware_spec(a, f, d, HardwareRegister::IntSpill),
            arithmetic,
        );
    }
}


/// The instruction that performs the arithmetic of `data` on the hardware
/// registers `a` and `b` (or `a` and the constant of `data`), leaving the
/// result in `a`.
pub open spec fn operation_on_registers(data: InstructionMIRData, a: HardwareRegister, b: HardwareRegister) -> InstructionIR {
    match data {
        InstructionMIRData::AddInt32(..) => InstructionIR::AddInt32(a, b),
        InstructionMIRData::SubInt32(..) => InstructionIR::SubInt32(a, b),
        InstructionMIRData::AndBool(..) => InstructionIR::AndInt32(a, b),
        InstructionMIRData::OrBool(..) => InstructionIR::OrInt32(a, b),
        InstructionMIRData::MultiplyInt32(..) => InstructionIR::MultiplyInt32(a, b),
        InstructionMIRData::AddFloat32(..) => InstructionIR::AddFloat32(a, b),
        InstructionMIRData::SubFloat32(..) => InstructionIR::SubFloat32(a, b),
        InstructionMIRData::MultiplyFloat32(..) => InstructionIR::MultiplyFloat32(a, b),
        InstructionMIRData::DivideFloat32(..) => InstructionIR::DivideFloat32(a, b),
        InstructionMIRData::AddInt32Constant(_, _, c) => InstructionIR::AddInt32Constant(a, c),
        InstructionMIRData::SubInt32Constant(_, _, c) => InstructionIR::SubInt32Constant(a, c),
        _ => arbitrary(),
    }
}

/// The destination, the first operand and the second operand (the first
/// operand again for a constant operation) of an arithmetic instruction.
pub open spec fn arithmetic_registers(data: InstructionMIRData) -> (RegisterMIR, RegisterMIR, RegisterMIR) {
    match data {
        InstructionMIRData::AddInt32(d, x, y) => (d, x, y),
        InstructionMIRData::SubInt32(d, x, y) => (d, x, y),
        InstructionMIRData::AndBool(d, x, y) => (d, x, y),
        InstructionMIRData::OrBool(d, x, y) => (d, x, y),
        InstructionMIRData::MultiplyInt32(d, x, y) => (d, x, y),
        InstructionMIRData::AddFloat32(d, x, y) => (d, x, y),
        InstructionMIRData::SubFloat32(d, x, y) => (d, x, y),
        InstructionMIRData::MultiplyFloat32(d, x, y) => (d, x, y),
        InstructionMIRData::DivideFloat32(d, x, y) => (d, x, y),
        InstructionMIRData::AddInt32Constant(d, x, _) => (d, x, x),
        InstructionMIRData::SubInt32Constant(d, x, _) => (d, x, x),
        _ => arbitrary(),
    }
}

/// Where all its registers live in hardware registers, an arithmetic
/// instruction `d = x op y` is lowered to `op` on the register of `x` (in
/// place when `d` is `x`, else on a copy in the scratch register of its
/// kind, copied to `d` after) and the register of `y`: the first operand
/// comes first and the result lands in `d`.
pub proof fn law_arithmetic_operands(b: Binder, a: RegisterAllocation, f: Function, index: int, data: InstructionMIRData)
    requires
        mir_arithmetic(data) is Some,
        location(a, arithmetic_registers(data).0) is Some,
        location(a, arithmetic_registers(data).1) is Some,
        location(a, arithmetic_registers(data).2) is Some,
    ensures
        ({
            let (d, x, y) = arithmetic_registers(data);
            let (hd, hx, hy) = (location(a, d)->0, location(a, x)->0, location(a, y)->0);
            let spill = match mir_arithmetic(data)->0 {
                Arithmetic::AddFloat32 => HardwareRegister::FloatSpill,
                Arithmetic::SubFloat32 => HardwareRegister::FloatSpill,
                Arithmetic::MultiplyFloat32 => HardwareRegister::FloatSpill,
                Arithmetic::DivideFloat32 => HardwareRegister::FloatSpill,
                _ => HardwareRegister::IntSpill,
            };
            lower_spec(b, a, f, index, data) == if d@ == x@ {
                seq![operation_on_registers(data, hd, hy)]
            } else {
                seq![
                    InstructionIR::Move(spill, hx),
                    operation_on_registers(data, spill, hy),
                    InstructionIR::Move(hd, spill),
                ]
            }
        }),
{
    let (d, x, y) = arithmetic_registers(data);
    if d@ == x@ {
        assert(location(a, d) == location(a, x)) by {
            assert(virtual_register_of(d@) == virtual_register_of(x@));
        }
    }
}

} // verus!
