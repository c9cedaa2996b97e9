use lib::analysis::basic_block::BasicBlock;
use lib::mir::compiler::InstructionMIRCompiler;
use lib::mir::{InstructionMIR, InstructionMIRData, RegisterMIR};
use lib::model::binder::Binder;
use lib::model::function::{Function, FunctionDeclaration};
use lib::model::instruction::Instruction;
use lib::model::typesystem::{TypeId, TypeStorage};
use lib::model::verification::Verifier;
use lib::optimization::peephole::{remove_unnecessary_locals, PeepholeSettings};

#[test]
fn test_combine_load_local1() {
    let mut function = Function::new(
        FunctionDeclaration::new_managed("test".to_owned(), vec![], TypeId::Int32),
        vec![TypeId::Int32],
        vec![
            Instruction::LoadLocal(0),
            Instruction::Return,
        ]
    );

    let binder = Binder::new();
    let type_storage = TypeStorage::new();
    Verifier::new(&binder, &type_storage, &mut function).verify().unwrap();

    let mut compiler = InstructionMIRCompiler::new(&binder, &function);
    compiler.compile(function.instructions());
    let mut compilation_result = compiler.done();

    println!("Before optimization:");
    for instruction in &compilation_result.instructions {
        println!("{:?}", instruction);
    }

    let mut basic_blocks = BasicBlock::create_blocks(&compilation_result.instructions);
    remove_unnecessary_locals(&mut compilation_result, &mut basic_blocks, &PeepholeSettings::remove_only_load_local());

    println!();
    println!("After optimization:");
    for instruction in &compilation_result.instructions {
        println!("{:?}", instruction);
    }

    assert_eq!(1, compilation_result.instructions.len());
    assert_eq!(
        &InstructionMIR::new(1, InstructionMIRData::Return(Some(RegisterMIR::new(0, TypeId::Int32)))),
        &compilation_result.instructions[0]
    );
}

#[test]
fn test_combine_load_local2() {
    let mut function = Function::new(
        FunctionDeclaration::new_managed("test".to_owned(), vec![], TypeId::Int32),
        vec![TypeId::Int32],
        vec![
            Instruction::LoadInt32(4711),
            Instruction::LoadLocal(0),
            Instruction::Add,
            Instruction::Return,
        ]
    );

    let binder = Binder::new();
    let type_storage = TypeStorage::new();
    Verifier::new(&binder, &type_storage, &mut function).verify().unwrap();

    let mut compiler = InstructionMIRCompiler::new(&binder, &function);
    compiler.compile(function.instructions());
    let mut compilation_result = compiler.done();

    println!("Before optimization:");
    for instruction in &compilation_result.instructions {
        println!("{:?}", instruction);
    }

    let mut basic_blocks = BasicBlock::create_blocks(&compilation_result.instructions);
    remove_unnecessary_locals(&mut compilation_result, &mut basic_blocks, &PeepholeSettings::remove_only_load_local());

    println!();
    println!("After optimization:");
    for instruction in &compilation_result.instructions {
        println!("{:?}", instruction);
    }

    assert_eq!(3, compilation_result.instructions.len());
    assert_eq!(
        &InstructionMIR::new(2, InstructionMIRData::AddInt32(RegisterMIR::new(1, TypeId::Int32), RegisterMIR::new(1, TypeId::Int32), RegisterMIR::new(0, TypeId::Int32))),
        &compilation_result.instructions[1]
    );
}

#[test]
fn test_combine_load_local3() {
    let mut function = Function::new(
        FunctionDeclaration::new_managed("test".to_owned(), vec![], TypeId::Int32),
        vec![TypeId::Int32, TypeId::Int32],
        vec![
            Instruction::LoadLocal(0),
            Instruction::LoadLocal(1),
            Instruction::Add,
            Instruction::Return,
        ]
    );

    let binder = Binder::new();
    let type_storage = TypeStorage::new();
    Verifier::new(&binder, &type_storage, &mut function).verify().unwrap();

    let mut compiler = InstructionMIRCompiler::new(&binder, &function);
    compiler.compile(function.instructions());
    let mut compilation_result = compiler.done();

    println!("Before optimization:");
    for instruction in &compilation_result.instructions {
        println!("{:?}", instruction);
    }

    let mut basic_blocks = BasicBlock::create_blocks(&compilation_result.instructions);
    remove_unnecessary_locals(&mut compilation_result, &mut basic_blocks, &PeepholeSettings::remove_only_load_local());

    println!();
    println!("After optimization:");
    for instruction in &compilation_result.instructions {
        println!("{:?}", instruction);
    }

    assert_eq!(2, compilation_result.instructions.len());
    assert_eq!(
        &InstructionMIR::new(2, InstructionMIRData::AddInt32(RegisterMIR::new(2, TypeId::Int32), RegisterMIR::new(0, TypeId::Int32), RegisterMIR::new(1, TypeId::Int32))),
        &compilation_result.instructions[0]
    );
}

#[test]
fn test_combine_load_local4() {
    let mut function = Function::new(
        FunctionDeclaration::new_managed("test".to_owned(), vec![], TypeId::Int32),
        vec![TypeId::Int32, TypeId::Int32],
        vec![
            Instruction::LoadInt32(1337),
            Instruction::StoreLocal(0),
            Instruction::LoadInt32(4711),
            Instruction::StoreLocal(1),

            Instruction::LoadLocal(0),
            Instruction::LoadLocal(1),
            Instruction::Add,

            Instruction::LoadLocal(0),
            Instruction::Add,

            Instruction::Return,
        ]
    );

    let binder = Binder::new();
    let type_storage = TypeStorage::new();
    Verifier::new(&binder, &type_storage, &mut function).verify().unwrap();

    let mut compiler = InstructionMIRCompiler::new(&binder, &function);
    compiler.compile(function.instructions());
    let mut compilation_result = compiler.done();

    println!("Before optimization:");
    for instruction in &compilation_result.instructions {
        println!("{:?}", instruction);
    }

    let mut basic_blocks = BasicBlock::create_blocks(&compilation_result.instructions);
    remove_unnecessary_locals(&mut compilation_result, &mut basic_blocks, &PeepholeSettings::remove_only_load_local());

    println!();
    println!("After optimization:");
    for instruction in &compilation_result.instructions {
        println!("{:?}", instruction);
    }

    assert_eq!(7, compilation_result.instructions.len());
    assert_eq!(0, compilation_result.instructions[0].index);
    assert_eq!(1, compilation_result.instructions[1].index);
    assert_eq!(2, compilation_result.instructions[2].index);
    assert_eq!(3, compilation_result.instructions[3].index);

    assert_eq!(
        &InstructionMIR::new(6, InstructionMIRData::AddInt32(RegisterMIR::new(2, TypeId::Int32), RegisterMIR::new(0, TypeId::Int32), RegisterMIR::new(1, TypeId::Int32))),
        &compilation_result.instructions[4]
    );

    assert_eq!(
        &InstructionMIR::new(8, InstructionMIRData::AddInt32(RegisterMIR::new(2, TypeId::Int32), RegisterMIR::new(2, TypeId::Int32), RegisterMIR::new(0, TypeId::Int32))),
        &compilation_result.instructions[5]
    );
}

#[test]
fn test_combine_load_local5() {
    let mut function = Function::new(
        FunctionDeclaration::new_managed("test".to_owned(), vec![], TypeId::Int32),
        vec![TypeId::Int32],
        vec![
            Instruction::LoadLocal(0),
            Instruction::LoadLocal(0),
            Instruction::Add,
            Instruction::Return,
        ]
    );

    let binder = Binder::new();
    let type_storage = TypeStorage::new();
    Verifier::new(&binder, &type_storage, &mut function).verify().unwrap();

    let mut compiler = InstructionMIRCompiler::new(&binder, &function);
    compiler.compile(function.instructions());
    let mut compilation_result = compiler.done();

    println!("Before optimization:");
    for instruction in &compilation_result.instructions {
        println!("{:?}", instruction);
    }

    let mut basic_blocks = BasicBlock::create_blocks(&compilation_result.instructions);
    remove_unnecessary_locals(&mut compilation_result, &mut basic_blocks, &PeepholeSettings::remove_only_load_local());

    println!();
    println!("After optimization:");
    for instruction in &compilation_result.instructions {
        println!("{:?}", instruction);
    }

    assert_eq!(2, compilation_result.instructions.len());
    assert_eq!(
        &InstructionMIR::new(2, InstructionMIRData::AddInt32(RegisterMIR::new(1, TypeId::Int32), RegisterMIR::new(0, TypeId::Int32), RegisterMIR::new(0, TypeId::Int32))),
        &compilation_result.instructions[0]
    );
}

#[test]
fn test_combine_load_local6() {
    let mut function = Function::new(
        FunctionDeclaration::new_managed("test".to_owned(), vec![], TypeId::Int32),
        vec![TypeId::Int32],
        vec![
            Instruction::LoadLocal(0),
            Instruction::LoadInt32(1),
            Instruction::Add,
            Instruction::StoreLocal(0),

            Instruction::LoadInt32(200000),
            Instruction::LoadLocal(0),
            Instruction::BranchGreaterThan(0),

            Instruction::LoadLocal(0),
            Instruction::Return,
        ]
    );

    let binder = Binder::new();
    let type_storage = TypeStorage::new();
    Verifier::new(&binder, &type_storage, &mut function).verify().unwrap();

    let mut compiler = InstructionMIRCompiler::new(&binder, &function);
    compiler.compile(function.instructions());
    let mut compilation_result = compiler.done();

    println!("Before optimization:");
    for instruction in &compilation_result.instructions {
        println!("{:?}", instruction);
    }

    let mut basic_blocks = BasicBlock::create_blocks(&compilation_result.instructions);
    remove_unnecessary_locals(&mut compilation_result, &mut basic_blocks, &PeepholeSettings::remove_only_load_local());

    println!();
    println!("After optimization:");
    for instruction in &compilation_result.instructions {
        println!("{:?}", instruction);
    }

    assert_eq!(7, compilation_result.instructions.len());
}

#[test]
fn test_combine_store_local1() {
    let mut function = Function::new(
        FunctionDeclaration::new_managed("test".to_owned(), vec![], TypeId::Int32),
        vec![TypeId::Int32],
        vec![
            Instruction::LoadInt32(4711),
            Instruction::StoreLocal(0),
            Instruction::LoadLocal(0),
            Instruction::Return,
        ]
    );

    let binder = Binder::new();
    let type_storage = TypeStorage::new();
    Verifier::new(&binder, &type_storage, &mut function).verify().unwrap();

    let mut compiler = InstructionMIRCompiler::new(&binder, &function);
    compiler.compile(function.instructions());
    let mut compilation_result = compiler.done();

    println!("Before optimization:");
    for instruction in &compilation_result.instructions {
        println!("{:?}", instruction);
    }

    let mut basic_blocks = BasicBlock::create_blocks(&compilation_result.instructions);
    remove_unnecessary_locals(&mut compilation_result, &mut basic_blocks, &PeepholeSettings::remove_only_store_local());

    println!();
    println!("After optimization:");
    for instruction in &compilation_result.instructions {
        println!("{:?}", instruction);
    }

    assert_eq!(3, compilation_result.instructions.len());
    assert_eq!(
        &InstructionMIR::new(0, InstructionMIRData::LoadInt32(RegisterMIR::new(0, TypeId::Int32), 4711)),
        &compilation_result.instructions[0]
    );

    assert_eq!(2, compilation_result.instructions[1].index);
}


#[test]
fn test_combine_load_store_local1() {
    let mut function = Function::new(
        FunctionDeclaration::new_managed("test".to_owned(), vec![], TypeId::Int32),
        vec![TypeId::Int32, TypeId::Int32],
        vec![
            Instruction::LoadLocal(0),
            Instruction::LoadLocal(1),
            Instruction::Add,
            Instruction::StoreLocal(0),

            Instruction::LoadInt32(0),
            Instruction::Return,
        ]
    );

    let binder = Binder::new();
    let type_storage = TypeStorage::new();
    Verifier::new(&binder, &type_storage, &mut function).verify().unwrap();

    let mut compiler = InstructionMIRCompiler::new(&binder, &function);
    compiler.compile(function.instructions());
    let mut compilation_result = compiler.done();

    println!("Before optimization:");
    for instruction in &compilation_result.instructions {
        println!("{:?}", instruction);
    }

    let mut basic_blocks = BasicBlock::create_blocks(&compilation_result.instructions);
    remove_unnecessary_locals(&mut compilation_result, &mut basic_blocks, &Default::default());

    println!();
    println!("After optimization:");
    for instruction in &compilation_result.instructions {
        println!("{:?}", instruction);
    }

    assert_eq!(3, compilation_result.instructions.len());
    assert_eq!(
        &InstructionMIR::new(2, InstructionMIRData::AddInt32(RegisterMIR::new(0, TypeId::Int32), RegisterMIR::new(0, TypeId::Int32), RegisterMIR::new(1, TypeId::Int32))),
        &compilation_result.instructions[0]
    );
}
