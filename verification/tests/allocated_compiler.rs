use lib::analysis::liveness::LiveInterval;
use lib::analysis::{VirtualRegister, VirtualRegisterType};
use lib::compiler::allocated_compiler::AllocatedInstructionIRCompiler;
use lib::compiler::ir::{Condition, HardwareRegister, HardwareRegisterExplicit, InstructionIR};
use lib::mir::{InstructionMIR, InstructionMIRData, RegisterMIR};
use lib::compiler::ir::Variable;
use lib::model::binder::Binder;
use lib::model::function::{Function, FunctionDeclaration, FunctionSignature};
use lib::model::typesystem::TypeId;
use lib::optimization::register_allocation::RegisterAllocation;

fn interval(number: u32) -> LiveInterval {
    LiveInterval { start: 0, end: 5, register: VirtualRegister::new(number, VirtualRegisterType::Int) }
}

/// Registers 0 and 1 in hardware registers 0 and 1, register 2 in its slot.
fn allocation() -> RegisterAllocation {
    RegisterAllocation::new(vec![(interval(0), 0), (interval(1), 1)], vec![interval(2)])
}

fn function(parameters: Vec<TypeId>) -> Function {
    Function::new(FunctionDeclaration::new_managed("test".to_owned(), parameters, TypeId::Int32), vec![], vec![])
}

fn r(number: u32) -> RegisterMIR {
    RegisterMIR::new(number, TypeId::Int32)
}

fn lower(function: &Function, index: usize, data: InstructionMIRData) -> Vec<InstructionIR> {
    lower_with(&Binder::new(), function, index, data)
}

fn lower_with(binder: &Binder, function: &Function, index: usize, data: InstructionMIRData) -> Vec<InstructionIR> {
    let allocation = allocation();
    let mut compiler = AllocatedInstructionIRCompiler::new(binder, function, &allocation);
    compiler.compile_instruction(index, &InstructionMIR::new(index, data));
    compiler.done()
}

#[test]
fn add_in_place_uses_the_hardware_registers() {
    let f = function(vec![]);
    assert_eq!(
        vec![InstructionIR::Marker(0, 0), InstructionIR::AddInt32(HardwareRegister::Int(0), HardwareRegister::Int(1))],
        lower(&f, 0, InstructionMIRData::AddInt32(r(0), r(0), r(1)))
    );
}

#[test]
fn add_to_another_destination_goes_through_the_spill_register() {
    let f = function(vec![]);
    assert_eq!(
        vec![
            InstructionIR::Marker(1, 1),
            InstructionIR::Move(HardwareRegister::IntSpill, HardwareRegister::Int(0)),
            InstructionIR::AddInt32(HardwareRegister::IntSpill, HardwareRegister::Int(1)),
            InstructionIR::StoreFrameMemory(-24, HardwareRegister::IntSpill),
        ],
        lower(&f, 1, InstructionMIRData::AddInt32(r(2), r(0), r(1)))
    );
}

#[test]
fn memory_operands_are_loaded_into_the_spill_register() {
    let f = function(vec![]);
    assert_eq!(
        vec![
            InstructionIR::Marker(0, 0),
            InstructionIR::LoadFrameMemory(HardwareRegister::IntSpill, -24),
            InstructionIR::SubInt32ToFrameMemory(-24, HardwareRegister::IntSpill),
        ],
        lower(&f, 0, InstructionMIRData::SubInt32(r(2), r(2), r(2)))
    );
    assert_eq!(
        vec![
            InstructionIR::Marker(0, 0),
            InstructionIR::LoadFrameMemory(HardwareRegister::IntSpill, -24),
            InstructionIR::MultiplyInt32(HardwareRegister::IntSpill, HardwareRegister::Int(0)),
            InstructionIR::StoreFrameMemory(-24, HardwareRegister::IntSpill),
        ],
        lower(&f, 0, InstructionMIRData::MultiplyInt32(r(2), r(2), r(0)))
    );
}

#[test]
fn constants_go_to_register_or_slot() {
    let f = function(vec![]);
    assert_eq!(
        vec![InstructionIR::Marker(0, 0), InstructionIR::MoveInt32ToFrameMemory(-24, 7)],
        lower(&f, 0, InstructionMIRData::LoadInt32(r(2), 7))
    );
    assert_eq!(
        vec![InstructionIR::Marker(0, 0), InstructionIR::MoveInt32ToRegister(HardwareRegister::Int(1), 1)],
        lower(&f, 0, InstructionMIRData::LoadBool(r(1), true))
    );
    assert_eq!(
        vec![InstructionIR::Marker(0, 0), InstructionIR::SubInt32Constant(HardwareRegister::Int(0), 3)],
        lower(&f, 0, InstructionMIRData::SubInt32Constant(r(0), r(0), 3))
    );
}

#[test]
fn runtime_calls_save_and_restore_alive_registers() {
    let f = function(vec![]);
    assert_eq!(
        vec![
            InstructionIR::Marker(3, 3),
            InstructionIR::StoreFrameMemory(-8, HardwareRegister::Int(0)),
            InstructionIR::StoreFrameMemory(-16, HardwareRegister::Int(1)),
            InstructionIR::GarbageCollect(3),
            InstructionIR::LoadFrameMemory(HardwareRegister::Int(1), -16),
            InstructionIR::LoadFrameMemory(HardwareRegister::Int(0), -8),
        ],
        lower(&f, 3, InstructionMIRData::GarbageCollect)
    );
    assert_eq!(
        vec![
            InstructionIR::Marker(3, 3),
            InstructionIR::StoreFrameMemory(-8, HardwareRegister::Int(0)),
            InstructionIR::StoreFrameMemory(-16, HardwareRegister::Int(1)),
            InstructionIR::NewObject(TypeId::Class("Point".to_owned())),
            InstructionIR::MoveExplicitToImplicit(HardwareRegister::Int(0), HardwareRegisterExplicit::Rax),
            InstructionIR::LoadFrameMemory(HardwareRegister::Int(1), -16),
        ],
        lower(&f, 3, InstructionMIRData::NewObject(TypeId::Class("Point".to_owned()), RegisterMIR::new(0, TypeId::Class("Point".to_owned()))))
    );
}

#[test]
fn conditional_branch_compares_then_jumps() {
    let f = function(vec![]);
    assert_eq!(
        vec![
            InstructionIR::Marker(2, 2),
            InstructionIR::CompareFromFrameMemory(TypeId::Int32, HardwareRegister::Int(0), -24),
            InstructionIR::BranchCondition(Condition::Equal, true, 5),
        ],
        lower(&f, 2, InstructionMIRData::BranchCondition(Condition::Equal, TypeId::Int32, 5, r(0), r(2)))
    );
}

#[test]
fn arguments_are_read_from_their_slots() {
    let f = function(vec![TypeId::Int32, TypeId::Int32]);
    assert_eq!(
        vec![
            InstructionIR::Marker(0, 0),
            InstructionIR::LoadFrameMemory(HardwareRegister::IntSpill, -16),
            InstructionIR::StoreFrameMemory(-40, HardwareRegister::IntSpill),
        ],
        lower(&f, 0, InstructionMIRData::LoadArgument(1, r(2)))
    );
}

#[test]
fn return_moves_the_value_into_the_return_register() {
    let f = function(vec![]);
    assert_eq!(
        vec![
            InstructionIR::Marker(4, 4),
            InstructionIR::LoadFrameMemoryExplicit(HardwareRegisterExplicit::Rax, -24),
            InstructionIR::Return,
        ],
        lower(&f, 4, InstructionMIRData::Return(Some(r(2))))
    );
    assert_eq!(
        vec![
            InstructionIR::Marker(4, 4),
            InstructionIR::MoveImplicitToExplicit(HardwareRegisterExplicit::Rax, HardwareRegister::Int(0)),
            InstructionIR::Return,
        ],
        lower(&f, 4, InstructionMIRData::Return(Some(r(0))))
    );
}

#[test]
fn call_reads_overwritten_argument_registers_from_their_slots() {
    let f = function(vec![]);
    let mut binder = Binder::new();
    let parameters = vec![TypeId::Int32, TypeId::Int32, TypeId::Int32, TypeId::Int32];
    binder.define(FunctionDeclaration::new_managed("callee".to_owned(), parameters.clone(), TypeId::Int32));
    let signature = FunctionSignature::new("callee".to_owned(), parameters.clone());
    assert_eq!(
        vec![
            InstructionIR::Marker(3, 3),
            InstructionIR::StoreFrameMemory(-8, HardwareRegister::Int(0)),
            InstructionIR::StoreFrameMemory(-16, HardwareRegister::Int(1)),
            InstructionIR::Call(
                FunctionSignature::new("callee".to_owned(), parameters.clone()),
                vec![
                    Variable::FrameMemory(-8),
                    Variable::FrameMemory(-16),
                    Variable::Register(HardwareRegister::Int(0)),
                    Variable::Register(HardwareRegister::Int(1)),
                ],
                0,
            ),
            InstructionIR::StoreFrameMemoryExplicit(-24, HardwareRegisterExplicit::Rax),
            InstructionIR::LoadFrameMemory(HardwareRegister::Int(1), -16),
            InstructionIR::LoadFrameMemory(HardwareRegister::Int(0), -8),
        ],
        lower_with(&binder, &f, 3, InstructionMIRData::Call(signature, Some(r(2)), vec![r(0), r(1), r(0), r(1)]))
    );
}

#[test]
fn variables_move_through_the_scratch_register_from_memory() {
    let mut instructions = Vec::new();
    Variable::FrameMemory(-8).move_to_stack(&mut instructions);
    Variable::Register(HardwareRegister::Int(1)).move_from_explicit(HardwareRegisterExplicit::Rax, &mut instructions);
    Variable::FrameMemory(-16).move_to_stack_frame(-24, &mut instructions);
    Variable::RegisterExplicit(HardwareRegisterExplicit::Rdi).move_to_register(HardwareRegister::Int(2), &mut instructions);
    assert_eq!(
        vec![
            InstructionIR::LoadFrameMemory(HardwareRegister::IntSpill, -8),
            InstructionIR::Push(HardwareRegister::IntSpill),
            InstructionIR::MoveExplicitToImplicit(HardwareRegister::Int(1), HardwareRegisterExplicit::Rax),
            InstructionIR::LoadFrameMemory(HardwareRegister::IntSpill, -16),
            InstructionIR::StoreFrameMemory(-24, HardwareRegister::IntSpill),
            InstructionIR::MoveExplicitToImplicit(HardwareRegister::Int(2), HardwareRegisterExplicit::Rdi),
        ],
        instructions
    );
}
