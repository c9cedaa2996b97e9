use lib::analysis::determine_instructions_operand_stack;
use lib::mir::compiler::{InstructionMIRCompiler, MIRCompilationResult};
use lib::mir::{InstructionMIR, InstructionMIRData, RegisterMIR};
use lib::model::binder::Binder;
use lib::model::function::{Function, FunctionDeclaration, FunctionSignature};
use lib::model::instruction::Instruction;
use lib::model::typesystem::{TypeId, TypeStorage};
use lib::model::verification::Verifier;

fn compile(binder: &Binder, function: &mut Function) -> MIRCompilationResult {
    let type_storage = TypeStorage::new();
    Verifier::new(binder, &type_storage, function).verify().unwrap();
    let function: &Function = function;
    let mut compiler = InstructionMIRCompiler::new(binder, function);
    compiler.compile(function.instructions());
    compiler.done()
}

fn println_vec(original: &Vec<Instruction>, irs: &Vec<InstructionMIR>) {
    for ir in irs {
        println!("{:?}\t{:?}", original[ir.index], ir.data);
    }
}

fn int_register(number: u32) -> RegisterMIR {
    RegisterMIR::new(number, TypeId::Int32)
}

#[test]
fn compiler_test_simple1() {
    let mut function = Function::new(
        FunctionDeclaration::new_managed("test".to_owned(), vec![], TypeId::Int32),
        vec![],
        vec![
            Instruction::LoadInt32(1),
            Instruction::LoadInt32(2),
            Instruction::Add,
            Instruction::LoadInt32(3),
            Instruction::Add,
            Instruction::Return,
        ]
    );

    let binder = Binder::new();
    let result = compile(&binder, &mut function);
    println_vec(function.instructions(), &result.instructions);

    assert_eq!(6, result.instructions.len());
    assert_eq!(InstructionMIRData::AddInt32(int_register(0), int_register(0), int_register(1)), result.instructions[2].data);
    assert_eq!(InstructionMIRData::Return(Some(int_register(0))), result.instructions[5].data);
}

#[test]
fn compiler_test_simple2() {
    let mut function = Function::new(
        FunctionDeclaration::new_managed("test".to_owned(), vec![], TypeId::Int32),
        vec![],
        vec![
            Instruction::LoadInt32(1),
            Instruction::LoadInt32(2),
            Instruction::LoadInt32(3),
            Instruction::Add,
            Instruction::Add,
            Instruction::Return,
        ]
    );

    let binder = Binder::new();
    let result = compile(&binder, &mut function);
    println_vec(function.instructions(), &result.instructions);

    assert_eq!(InstructionMIRData::AddInt32(int_register(1), int_register(1), int_register(2)), result.instructions[3].data);
    assert_eq!(InstructionMIRData::AddInt32(int_register(0), int_register(0), int_register(1)), result.instructions[4].data);
    assert_eq!(3, result.num_virtual_registers);
}

#[test]
fn compiler_test_simple3() {
    let mut function = Function::new(
        FunctionDeclaration::new_managed("test".to_owned(), vec![], TypeId::Int32),
        vec![TypeId::Int32, TypeId::Int32],
        vec![
            Instruction::LoadInt32(1000),
            Instruction::StoreLocal(0),
            Instruction::LoadInt32(2000),
            Instruction::StoreLocal(1),
            Instruction::LoadLocal(0),
            Instruction::LoadLocal(1),
            Instruction::Add,
            Instruction::LoadInt32(3000),
            Instruction::Add,
            Instruction::Return
        ]
    );

    let binder = Binder::new();
    let result = compile(&binder, &mut function);
    println_vec(function.instructions(), &result.instructions);

    assert_eq!(vec![int_register(0), int_register(1)], result.local_virtual_registers);
    assert_eq!(InstructionMIRData::LoadInt32(int_register(2), 1000), result.instructions[0].data);
    assert_eq!(InstructionMIRData::Move(int_register(0), int_register(2)), result.instructions[1].data);
    assert_eq!(InstructionMIRData::Move(int_register(2), int_register(0)), result.instructions[4].data);
    assert_eq!(InstructionMIRData::Move(int_register(3), int_register(1)), result.instructions[5].data);
}

#[test]
fn compiler_test_simple4() {
    let mut function = Function::new(
        FunctionDeclaration::new_managed("test".to_owned(), vec![], TypeId::Int32),
        vec![TypeId::Int32],
        vec![
            Instruction::LoadInt32(1000),
            Instruction::LoadInt32(2000),
            Instruction::Add,
            Instruction::StoreLocal(0),
            Instruction::LoadInt32(0),
            Instruction::Return
        ]
    );

    let binder = Binder::new();
    let result = compile(&binder, &mut function);
    println_vec(function.instructions(), &result.instructions);

    assert_eq!(InstructionMIRData::AddInt32(int_register(1), int_register(1), int_register(2)), result.instructions[2].data);
    assert_eq!(InstructionMIRData::Move(int_register(0), int_register(1)), result.instructions[3].data);
}

#[test]
fn compiler_test_simple5() {
    let mut function = Function::new(
        FunctionDeclaration::new_managed("test".to_owned(), vec![], TypeId::Int32),
        vec![TypeId::Int32],
        vec![
            Instruction::LoadInt32(1000),
            Instruction::LoadFloat32("2000.0".to_owned()),
            Instruction::Call(FunctionSignature::new("add".to_owned(), vec![TypeId::Int32, TypeId::Float32])),
            Instruction::Return
        ]
    );

    let mut binder = Binder::new();
    binder.define(FunctionDeclaration::new_managed(
        "add".to_owned(),
        vec![TypeId::Int32, TypeId::Float32],
        TypeId::Int32
    ));

    let result = compile(&binder, &mut function);
    println_vec(function.instructions(), &result.instructions);

    assert_eq!(
        InstructionMIRData::Call(
            FunctionSignature::new("add".to_owned(), vec![TypeId::Int32, TypeId::Float32]),
            Some(int_register(1)),
            vec![int_register(1), RegisterMIR::new(2, TypeId::Float32)]
        ),
        result.instructions[2].data
    );
}

#[test]
fn test_determine_instructions_operand_stack1() {
    let mut function = Function::new(
        FunctionDeclaration::new_managed("test".to_owned(), vec![], TypeId::Int32),
        vec![TypeId::Int32],
        vec![
            Instruction::LoadInt32(1000),
            Instruction::LoadInt32(2000),
            Instruction::Add,
            Instruction::StoreLocal(0),
            Instruction::LoadInt32(0),
            Instruction::Return
        ]
    );

    let binder = Binder::new();
    let result = compile(&binder, &mut function);

    let instructions_operand_stack = determine_instructions_operand_stack(&result);
    assert_eq!(result.instructions_operand_stack, instructions_operand_stack);
}

#[test]
fn test_determine_instructions_operand_stack2() {
    let mut function = Function::new(
        FunctionDeclaration::new_managed("test".to_owned(), vec![], TypeId::Int32),
        vec![TypeId::Int32, TypeId::Int32],
        vec![
            Instruction::LoadInt32(1337),
            Instruction::StoreLocal(0),
            Instruction::LoadInt32(4711),
            Instruction::StoreLocal(1),

            Instruction::LoadLocal(0),
            Instruction::LoadLocal(1),
            Instruction::Add,

            Instruction::LoadLocal(1),
            Instruction::Add,

            Instruction::Return,
        ]
    );

    let binder = Binder::new();
    let result = compile(&binder, &mut function);

    let instructions_operand_stack = determine_instructions_operand_stack(&result);
    assert_eq!(result.instructions_operand_stack, instructions_operand_stack);
}

#[test]
fn branch_targets_get_labels() {
    let mut function = Function::new(
        FunctionDeclaration::new_managed("test".to_owned(), Vec::new(), TypeId::Int32),
        vec![TypeId::Int32],
        vec![
            Instruction::LoadInt32(1),
            Instruction::LoadInt32(2),
            Instruction::BranchNotEqual(6),
            Instruction::LoadInt32(1337),
            Instruction::StoreLocal(0),
            Instruction::Branch(8),
            Instruction::LoadInt32(4711),
            Instruction::StoreLocal(0),
            Instruction::LoadLocal(0),
            Instruction::Return,
        ]
    );

    let binder = Binder::new();
    let result = compile(&binder, &mut function);
    println_vec(function.instructions(), &result.instructions);

    assert_eq!(12, result.instructions.len());
    assert_eq!(InstructionMIR::new(6, InstructionMIRData::BranchLabel(0)), result.instructions[6]);
    assert_eq!(InstructionMIR::new(8, InstructionMIRData::BranchLabel(1)), result.instructions[9]);
    assert_eq!(InstructionMIRData::Branch(1), result.instructions[5].data);
    assert_eq!(result.instructions_operand_stack, determine_instructions_operand_stack(&result));
}

#[test]
fn runtime_calls_become_runtime_instructions() {
    let mut function = Function::new(
        FunctionDeclaration::new_managed("test".to_owned(), Vec::new(), TypeId::Int32),
        vec![],
        vec![
            Instruction::Call(FunctionSignature::new("std.gc.collect".to_owned(), vec![])),
            Instruction::Call(FunctionSignature::new("std.gc.print_stack_frame".to_owned(), vec![])),
            Instruction::LoadInt32(0),
            Instruction::Return,
        ]
    );

    let binder = Binder::new();
    let result = compile(&binder, &mut function);
    assert_eq!(InstructionMIRData::GarbageCollect, result.instructions[0].data);
    assert_eq!(InstructionMIRData::PrintStackFrame, result.instructions[1].data);
    assert_eq!("GarbageCollect", result.instructions[0].name());
}

#[test]
fn array_length_names_the_array_register() {
    let data = InstructionMIRData::LoadArrayLength(int_register(1), RegisterMIR::new(0, TypeId::Array(Box::new(TypeId::Int32))));
    assert_eq!(Some(RegisterMIR::new(0, TypeId::Array(Box::new(TypeId::Int32)))), data.assign_register());
    assert!(data.use_registers().is_empty());
}

#[test]
fn branch_labels_mark_exactly_the_branch_targets() {
    let instructions = vec![
        Instruction::Branch(3),
        Instruction::LoadInt32(1),
        Instruction::BranchEqual(1),
        Instruction::Return,
    ];
    let mut manager = lib::mir::branches::BranchManager::new();
    manager.define_branch_labels(&instructions);
    assert_eq!(Some(0), manager.is_branch(3));
    assert_eq!(Some(1), manager.is_branch(1));
    assert_eq!(None, manager.is_branch(0));
    assert_eq!(None, manager.is_branch(2));
    for i in 0..4usize {
        assert_eq!(manager.get_label(i as u32), manager.is_branch(i));
    }
}
