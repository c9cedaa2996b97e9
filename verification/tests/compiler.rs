use lib::analysis::liveness::LiveInterval;
use lib::analysis::{VirtualRegister, VirtualRegisterType};
use lib::compiler::calling_conventions::{get_call_register, CallingConventions};
use lib::compiler::ir::{HardwareRegister, HardwareRegisterExplicit, InstructionIR, Variable};
use lib::compiler::stack_layout;
use lib::compiler::temp_registers::TempRegisters;
use lib::compiler::{float_register_call_arguments, register_call_arguments};
use lib::mir::compiler::MIRCompilationResult;
use lib::mir::RegisterMIR;
use lib::model::function::{Function, FunctionDeclaration};
use lib::model::typesystem::TypeId;
use lib::optimization::register_allocation::RegisterAllocation;

fn function_with(parameters: Vec<TypeId>, locals: Vec<TypeId>) -> Function {
    Function::new(FunctionDeclaration::new_managed("f".to_owned(), parameters, TypeId::Int32), locals, vec![])
}

fn compilation_result(num_virtual_registers: usize) -> MIRCompilationResult {
    MIRCompilationResult {
        instructions: vec![],
        local_virtual_registers: vec![],
        instructions_operand_stack: vec![],
        num_virtual_registers,
    }
}

#[test]
fn frame_sizes_are_rounded_to_sixteen_bytes() {
    assert_eq!(0, stack_layout::align_size(0));
    assert_eq!(16, stack_layout::align_size(1));
    assert_eq!(16, stack_layout::align_size(16));
    assert_eq!(32, stack_layout::align_size(17));
    assert_eq!(0, stack_layout::align_size(-17));

    let function = function_with(vec![TypeId::Int32, TypeId::Float32], vec![TypeId::Int32, TypeId::Int32, TypeId::Bool]);
    let result = compilation_result(5);
    assert_eq!(56, stack_layout::needed_stack_size(&function, &result));
    assert_eq!(64, stack_layout::stack_size(&function, &result));
}

#[test]
fn frame_offsets() {
    let function = function_with(vec![TypeId::Int32, TypeId::Float32], vec![TypeId::Int32, TypeId::Int32, TypeId::Bool]);
    let result = compilation_result(5);
    assert_eq!(-8, stack_layout::argument_stack_offset(&function, 0));
    assert_eq!(-16, stack_layout::argument_stack_offset(&function, 1));
    assert_eq!(-32, stack_layout::local_stack_offset(&function, 1));
    assert_eq!(-48, stack_layout::operand_stack_offset(&function, 0));
    assert_eq!(-48, stack_layout::virtual_register_stack_offset(&function, 3));
    assert_eq!(-72, stack_layout::stack_value_offset(&function, &result, 0));
    assert_eq!(-80, stack_layout::stack_value_offset(&function, &result, 1));
}

#[test]
fn arguments_beyond_the_registers_go_on_the_stack() {
    let mut parameters = vec![TypeId::Int32; 7];
    parameters.extend(vec![TypeId::Float32; 9]);
    let function = function_with(parameters.clone(), vec![]);
    let calling_conventions = CallingConventions::new();

    assert_eq!(2, calling_conventions.num_stack_arguments(&parameters));
    assert_eq!(0, calling_conventions.get_stack_argument_index(&function, 6));
    assert_eq!(1, calling_conventions.get_stack_argument_index(&function, 15));
    assert_eq!(2, calling_conventions.get_stack_argument_index(&function, 100));

    assert_eq!(0, calling_conventions.stack_alignment(function.declaration(), 0));
    assert_eq!(8, calling_conventions.stack_alignment(function.declaration(), 1));
}

#[test]
fn relative_argument_indices() {
    let parameters = vec![TypeId::Int32, TypeId::Float32, TypeId::Int32, TypeId::Float32, TypeId::Bool];
    assert_eq!(0, register_call_arguments::get_relative_index(&parameters, 0));
    assert_eq!(1, register_call_arguments::get_relative_index(&parameters, 2));
    assert_eq!(2, register_call_arguments::get_relative_index(&parameters, 4));
    assert_eq!(0, float_register_call_arguments::get_relative_index(&parameters, 1));
    assert_eq!(1, float_register_call_arguments::get_relative_index(&parameters, 3));
    assert_eq!(6, register_call_arguments::NUM_ARGUMENTS);
    assert_eq!(8, float_register_call_arguments::NUM_ARGUMENTS);
}

#[test]
fn scratch_registers_avoid_allocated_ones() {
    let in_register = LiveInterval { start: 0, end: 3, register: VirtualRegister::new(0, VirtualRegisterType::Int) };
    let spilled = LiveInterval { start: 1, end: 2, register: VirtualRegister::new(1, VirtualRegisterType::Int) };
    let allocation = RegisterAllocation::new(vec![(in_register, 4)], vec![spilled]);

    let mut temp_registers = TempRegisters::new(&allocation);
    temp_registers.try_remove(&RegisterMIR::new(0, TypeId::Int32));

    assert_eq!((false, HardwareRegister::Int(4)), temp_registers.get_register(&RegisterMIR::new(0, TypeId::Int32)));
    assert_eq!((true, HardwareRegister::Int(5)), temp_registers.get_register(&RegisterMIR::new(1, TypeId::Int32)));
    assert_eq!((true, HardwareRegister::Int(3)), temp_registers.get_register(&RegisterMIR::new(1, TypeId::Int32)));
}

#[test]
fn call_registers_follow_the_argument_kinds() {
    let callee = lib::model::function::FunctionDeclaration::new_managed(
        "f".to_owned(),
        vec![lib::model::typesystem::TypeId::Int32, lib::model::typesystem::TypeId::Float32, lib::model::typesystem::TypeId::Int32],
        lib::model::typesystem::TypeId::Void,
    );
    assert_eq!(Some(HardwareRegisterExplicit::Rdi), get_call_register(&callee, 0, &lib::model::typesystem::TypeId::Int32));
    assert_eq!(Some(HardwareRegisterExplicit::Xmm0), get_call_register(&callee, 1, &lib::model::typesystem::TypeId::Float32));
    assert_eq!(Some(HardwareRegisterExplicit::Rsi), get_call_register(&callee, 2, &lib::model::typesystem::TypeId::Int32));
}

#[test]
fn arguments_are_passed_last_first() {

    let signature = lib::model::function::FunctionSignature::new(
        "f".to_owned(),
        vec![lib::model::typesystem::TypeId::Int32, lib::model::typesystem::TypeId::Float32],
    );
    let arguments = vec![Variable::FrameMemory(-8), Variable::Register(HardwareRegister::Float(0))];
    let mut instructions = Vec::new();
    CallingConventions::new().call_function_arguments(&signature, &arguments, &mut instructions);
    assert_eq!(
        vec![
            InstructionIR::MoveImplicitToExplicit(HardwareRegisterExplicit::Xmm0, HardwareRegister::Float(0)),
            InstructionIR::LoadFrameMemoryExplicit(HardwareRegisterExplicit::Rdi, -8),
        ],
        instructions
    );
}

#[test]
fn arguments_are_stored_in_their_slots_on_entry() {

    let parameters = vec![lib::model::typesystem::TypeId::Int32; 7];
    let function = lib::model::function::Function::new(
        lib::model::function::FunctionDeclaration::new_managed("f".to_owned(), parameters, lib::model::typesystem::TypeId::Void),
        vec![],
        vec![],
    );
    let mut instructions = Vec::new();
    CallingConventions::new().move_arguments_to_stack(&function, &mut instructions);
    assert_eq!(8, instructions.len());
    assert_eq!(InstructionIR::LoadFrameMemoryExplicit(HardwareRegisterExplicit::Rax, 16), instructions[0]);
    assert_eq!(InstructionIR::StoreFrameMemoryExplicit(-56, HardwareRegisterExplicit::Rax), instructions[1]);
    assert_eq!(InstructionIR::StoreFrameMemoryExplicit(-48, HardwareRegisterExplicit::R9), instructions[2]);
    assert_eq!(InstructionIR::StoreFrameMemoryExplicit(-8, HardwareRegisterExplicit::Rdi), instructions[7]);
}
