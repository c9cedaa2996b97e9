use lib::analysis::basic_block::BasicBlock;
use lib::analysis::control_flow_graph::ControlFlowGraph;
use lib::mir::compiler::InstructionMIRCompiler;
use lib::mir::RegisterMIR;
use lib::model::binder::Binder;
use lib::model::function::{Function, FunctionDeclaration};
use lib::model::instruction::Instruction;
use lib::model::typesystem::{TypeId, TypeStorage};
use lib::model::verification::Verifier;
use lib::optimization::null_check_elision::{compute_null_check_elision, compute_null_check_elision_for_block};

#[test]
fn null_check_elision_test_no_branches1() {
    let mut function = Function::new(
        FunctionDeclaration::new_managed("test".to_owned(), vec![], TypeId::Array(Box::new(TypeId::Int32))),
        vec![],
        vec![
            Instruction::LoadNull(TypeId::Array(Box::new(TypeId::Int32))),
            Instruction::Return,
        ]
    );

    let binder = Binder::new();
    let type_storage = TypeStorage::new();
    Verifier::new(&binder, &type_storage, &mut function).verify().unwrap();

    let mut compiler = InstructionMIRCompiler::new(&binder, &function);
    compiler.compile(function.instructions());
    let compilation_result = compiler.done();
    let basic_blocks = BasicBlock::create_blocks(&compilation_result.instructions);

    let (result, _) = compute_null_check_elision_for_block(&function, &compilation_result, &basic_blocks[0]);

    for instruction in &result {
        println!("{:?}", instruction);
    }

    assert_eq!(1, result[1].len());
    assert_eq!(true, result[1].get(&RegisterMIR::new(0, TypeId::Array(Box::new(TypeId::Int32)))).unwrap());
}

#[test]
fn test_no_branches2() {
    let mut function = Function::new(
        FunctionDeclaration::new_managed("test".to_owned(), vec![], TypeId::Array(Box::new(TypeId::Int32))),
        vec![],
        vec![
            Instruction::LoadInt32(1000),
            Instruction::NewArray(TypeId::Int32),
            Instruction::Return,
        ]
    );

    let binder = Binder::new();
    let type_storage = TypeStorage::new();
    Verifier::new(&binder, &type_storage, &mut function).verify().unwrap();

    let mut compiler = InstructionMIRCompiler::new(&binder, &function);
    compiler.compile(function.instructions());
    let compilation_result = compiler.done();
    let basic_blocks = BasicBlock::create_blocks(&compilation_result.instructions);

    let (result, _) = compute_null_check_elision_for_block(&function, &compilation_result, &basic_blocks[0]);

    for instruction in &result {
        println!("{:?}", instruction);
    }

    assert_eq!(1, result[2].len());
    assert_eq!(false, result[2].get(&RegisterMIR::new(0, TypeId::Array(Box::new(TypeId::Int32)))).unwrap());
}

#[test]
fn test_no_branches3() {
    let mut function = Function::new(
        FunctionDeclaration::new_managed("test".to_owned(), vec![], TypeId::Int32),
        vec![],
        vec![
            Instruction::LoadInt32(1000),
            Instruction::NewArray(TypeId::Int32),
            Instruction::LoadInt32(0),
            Instruction::LoadElement(TypeId::Int32),
            Instruction::Return,
        ]
    );

    let binder = Binder::new();
    let type_storage = TypeStorage::new();
    Verifier::new(&binder, &type_storage, &mut function).verify().unwrap();

    let mut compiler = InstructionMIRCompiler::new(&binder, &function);
    compiler.compile(function.instructions());
    let compilation_result = compiler.done();
    let basic_blocks = BasicBlock::create_blocks(&compilation_result.instructions);

    let (result, _) = compute_null_check_elision_for_block(&function, &compilation_result, &basic_blocks[0]);

    for instruction in &result {
        println!("{:?}", instruction);
    }

    assert_eq!(1, result[2].len());
    assert_eq!(false, result[2].get(&RegisterMIR::new(0, TypeId::Array(Box::new(TypeId::Int32)))).unwrap());

    assert_eq!(1, result[3].len());
    assert_eq!(false, result[3].get(&RegisterMIR::new(0, TypeId::Array(Box::new(TypeId::Int32)))).unwrap());

    assert_eq!(1, result[4].len());
    assert_eq!(false, result[4].get(&RegisterMIR::new(0, TypeId::Array(Box::new(TypeId::Int32)))).unwrap());
}

#[test]
fn test_no_branches4() {
    let mut function = Function::new(
        FunctionDeclaration::new_managed("test".to_owned(), vec![], TypeId::Int32),
        vec![TypeId::Array(Box::new(TypeId::Int32))],
        vec![
            Instruction::LoadLocal(0),
            Instruction::LoadInt32(0),
            Instruction::LoadElement(TypeId::Int32),
            Instruction::Return,
        ]
    );

    let binder = Binder::new();
    let type_storage = TypeStorage::new();
    Verifier::new(&binder, &type_storage, &mut function).verify().unwrap();

    let mut compiler = InstructionMIRCompiler::new(&binder, &function);
    compiler.compile(function.instructions());
    let compilation_result = compiler.done();
    let basic_blocks = BasicBlock::create_blocks(&compilation_result.instructions);

    let (result, _) = compute_null_check_elision_for_block(&function, &compilation_result, &basic_blocks[0]);

    for instruction in &result {
        println!("{:?}", instruction);
    }

    assert_eq!(1, result[0].len());
    assert_eq!(true, result[0].get(&RegisterMIR::new(0, TypeId::Array(Box::new(TypeId::Int32)))).unwrap());

    assert_eq!(2, result[1].len());
    assert_eq!(true, result[1].get(&RegisterMIR::new(0, TypeId::Array(Box::new(TypeId::Int32)))).unwrap());
    assert_eq!(true, result[1].get(&RegisterMIR::new(1, TypeId::Array(Box::new(TypeId::Int32)))).unwrap());

    assert_eq!(2, result[2].len());
    assert_eq!(true, result[2].get(&RegisterMIR::new(0, TypeId::Array(Box::new(TypeId::Int32)))).unwrap());
    assert_eq!(true, result[2].get(&RegisterMIR::new(1, TypeId::Array(Box::new(TypeId::Int32)))).unwrap());

    assert_eq!(2, result[3].len());
    assert_eq!(true, result[3].get(&RegisterMIR::new(0, TypeId::Array(Box::new(TypeId::Int32)))).unwrap());
    assert_eq!(true, result[3].get(&RegisterMIR::new(1, TypeId::Array(Box::new(TypeId::Int32)))).unwrap());
}

#[test]
fn test_no_branches5() {
    let mut function = Function::new(
        FunctionDeclaration::new_managed("test".to_owned(), vec![], TypeId::Int32),
        vec![TypeId::Array(Box::new(TypeId::Int32))],
        vec![
            Instruction::LoadInt32(1000),
            Instruction::NewArray(TypeId::Int32),
            Instruction::StoreLocal(0),

            Instruction::LoadLocal(0),
            Instruction::LoadInt32(0),
            Instruction::LoadElement(TypeId::Int32),
            Instruction::Return,
        ]
    );

    let binder = Binder::new();
    let type_storage = TypeStorage::new();
    Verifier::new(&binder, &type_storage, &mut function).verify().unwrap();

    let mut compiler = InstructionMIRCompiler::new(&binder, &function);
    compiler.compile(function.instructions());
    let compilation_result = compiler.done();
    let basic_blocks = BasicBlock::create_blocks(&compilation_result.instructions);

    let (result, _) = compute_null_check_elision_for_block(&function, &compilation_result, &basic_blocks[0]);

    for instruction in &result {
        println!("{:?}", instruction);
    }

    assert_eq!(1, result[0].len());
    assert_eq!(true, result[0].get(&RegisterMIR::new(0, TypeId::Array(Box::new(TypeId::Int32)))).unwrap());

    assert_eq!(1, result[1].len());
    assert_eq!(true, result[1].get(&RegisterMIR::new(0, TypeId::Array(Box::new(TypeId::Int32)))).unwrap());

    assert_eq!(2, result[2].len());
    assert_eq!(true, result[2].get(&RegisterMIR::new(0, TypeId::Array(Box::new(TypeId::Int32)))).unwrap());
    assert_eq!(false, result[2].get(&RegisterMIR::new(1, TypeId::Array(Box::new(TypeId::Int32)))).unwrap());

    assert_eq!(2, result[3].len());
    assert_eq!(false, result[3].get(&RegisterMIR::new(0, TypeId::Array(Box::new(TypeId::Int32)))).unwrap());
    assert_eq!(false, result[3].get(&RegisterMIR::new(1, TypeId::Array(Box::new(TypeId::Int32)))).unwrap());

    assert_eq!(2, result[4].len());
    assert_eq!(false, result[4].get(&RegisterMIR::new(0, TypeId::Array(Box::new(TypeId::Int32)))).unwrap());
    assert_eq!(false, result[4].get(&RegisterMIR::new(1, TypeId::Array(Box::new(TypeId::Int32)))).unwrap());

    assert_eq!(2, result[5].len());
    assert_eq!(false, result[5].get(&RegisterMIR::new(0, TypeId::Array(Box::new(TypeId::Int32)))).unwrap());
    assert_eq!(false, result[5].get(&RegisterMIR::new(1, TypeId::Array(Box::new(TypeId::Int32)))).unwrap());

    assert_eq!(2, result[6].len());
    assert_eq!(false, result[6].get(&RegisterMIR::new(0, TypeId::Array(Box::new(TypeId::Int32)))).unwrap());
    assert_eq!(false, result[6].get(&RegisterMIR::new(1, TypeId::Array(Box::new(TypeId::Int32)))).unwrap());
}

#[test]
fn test_no_branches6() {
    let mut function = Function::new(
        FunctionDeclaration::new_managed("test".to_owned(), vec![], TypeId::Int32),
        vec![TypeId::Array(Box::new(TypeId::Int32))],
        vec![
            Instruction::LoadInt32(1000),
            Instruction::NewArray(TypeId::Int32),
            Instruction::StoreLocal(0),

            Instruction::LoadLocal(0),
            Instruction::LoadInt32(0),
            Instruction::LoadElement(TypeId::Int32),

            Instruction::LoadNull(TypeId::Array(Box::new(TypeId::Int32))),
            Instruction::StoreLocal(0),

            Instruction::Return,
        ]
    );

    let binder = Binder::new();
    let type_storage = TypeStorage::new();
    Verifier::new(&binder, &type_storage, &mut function).verify().unwrap();

    let mut compiler = InstructionMIRCompiler::new(&binder, &function);
    compiler.compile(function.instructions());
    let compilation_result = compiler.done();
    let basic_blocks = BasicBlock::create_blocks(&compilation_result.instructions);

    let (result, _) = compute_null_check_elision_for_block(&function, &compilation_result, &basic_blocks[0]);

    for instruction in &result {
        println!("{:?}", instruction);
    }

    assert_eq!(1, result[0].len());
    assert_eq!(true, result[0].get(&RegisterMIR::new(0, TypeId::Array(Box::new(TypeId::Int32)))).unwrap());

    assert_eq!(1, result[1].len());
    assert_eq!(true, result[1].get(&RegisterMIR::new(0, TypeId::Array(Box::new(TypeId::Int32)))).unwrap());

    assert_eq!(2, result[2].len());
    assert_eq!(true, result[2].get(&RegisterMIR::new(0, TypeId::Array(Box::new(TypeId::Int32)))).unwrap());
    assert_eq!(false, result[2].get(&RegisterMIR::new(1, TypeId::Array(Box::new(TypeId::Int32)))).unwrap());

    assert_eq!(2, result[3].len());
    assert_eq!(false, result[3].get(&RegisterMIR::new(0, TypeId::Array(Box::new(TypeId::Int32)))).unwrap());
    assert_eq!(false, result[3].get(&RegisterMIR::new(1, TypeId::Array(Box::new(TypeId::Int32)))).unwrap());

    assert_eq!(2, result[4].len());
    assert_eq!(false, result[4].get(&RegisterMIR::new(0, TypeId::Array(Box::new(TypeId::Int32)))).unwrap());
    assert_eq!(false, result[4].get(&RegisterMIR::new(1, TypeId::Array(Box::new(TypeId::Int32)))).unwrap());

    assert_eq!(2, result[5].len());
    assert_eq!(false, result[5].get(&RegisterMIR::new(0, TypeId::Array(Box::new(TypeId::Int32)))).unwrap());
    assert_eq!(false, result[5].get(&RegisterMIR::new(1, TypeId::Array(Box::new(TypeId::Int32)))).unwrap());

    assert_eq!(2, result[6].len());
    assert_eq!(false, result[6].get(&RegisterMIR::new(0, TypeId::Array(Box::new(TypeId::Int32)))).unwrap());
    assert_eq!(false, result[6].get(&RegisterMIR::new(1, TypeId::Array(Box::new(TypeId::Int32)))).unwrap());

    assert_eq!(3, result[7].len());
    assert_eq!(false, result[7].get(&RegisterMIR::new(0, TypeId::Array(Box::new(TypeId::Int32)))).unwrap());
    assert_eq!(false, result[7].get(&RegisterMIR::new(1, TypeId::Array(Box::new(TypeId::Int32)))).unwrap());
    assert_eq!(true, result[7].get(&RegisterMIR::new(2, TypeId::Array(Box::new(TypeId::Int32)))).unwrap());

    assert_eq!(3, result[8].len());
    assert_eq!(true, result[8].get(&RegisterMIR::new(0, TypeId::Array(Box::new(TypeId::Int32)))).unwrap());
    assert_eq!(false, result[8].get(&RegisterMIR::new(1, TypeId::Array(Box::new(TypeId::Int32)))).unwrap());
    assert_eq!(true, result[8].get(&RegisterMIR::new(2, TypeId::Array(Box::new(TypeId::Int32)))).unwrap());
}

#[test]
fn test_no_branches7() {
    let mut function = Function::new(
        FunctionDeclaration::new_managed("test".to_owned(), vec![], TypeId::Array(Box::new(TypeId::Int32))),
        vec![],
        vec![
            Instruction::LoadInt32(1000),
            Instruction::NewArray(TypeId::Array(Box::new(TypeId::Int32))),
            Instruction::LoadInt32(0),
            Instruction::LoadElement(TypeId::Array(Box::new(TypeId::Int32))),
            Instruction::Return,
        ]
    );

    let binder = Binder::new();
    let type_storage = TypeStorage::new();
    Verifier::new(&binder, &type_storage, &mut function).verify().unwrap();

    let mut compiler = InstructionMIRCompiler::new(&binder, &function);
    compiler.compile(function.instructions());
    let compilation_result = compiler.done();
    let basic_blocks = BasicBlock::create_blocks(&compilation_result.instructions);

    let (result, _) = compute_null_check_elision_for_block(&function, &compilation_result, &basic_blocks[0]);

    for instruction in &result {
        println!("{:?}", instruction);
    }

    assert_eq!(1, result[2].len());
    assert_eq!(false, result[2].get(&RegisterMIR::new(0, TypeId::Array(Box::new(TypeId::Array(Box::new(TypeId::Int32)))))).unwrap());

    assert_eq!(1, result[3].len());
    assert_eq!(false, result[3].get(&RegisterMIR::new(0, TypeId::Array(Box::new(TypeId::Array(Box::new(TypeId::Int32)))))).unwrap());

    assert_eq!(2, result[4].len());
    assert_eq!(false, result[4].get(&RegisterMIR::new(0, TypeId::Array(Box::new(TypeId::Array(Box::new(TypeId::Int32)))))).unwrap());
    assert_eq!(true, result[4].get(&RegisterMIR::new(0, TypeId::Array(Box::new(TypeId::Int32)))).unwrap());
}

#[test]
fn null_check_elision_test_branches1() {
    let mut function = Function::new(
        FunctionDeclaration::new_managed("test".to_owned(), vec![], TypeId::Array(Box::new(TypeId::Int32))),
        vec![TypeId::Array(Box::new(TypeId::Int32))],
        vec![
            Instruction::LoadInt32(0),
            Instruction::LoadInt32(0),
            Instruction::BranchEqual(6),

            Instruction::LoadNull(TypeId::Array(Box::new(TypeId::Int32))),
            Instruction::StoreLocal(0),
            Instruction::Branch(9),

            Instruction::LoadInt32(1000),
            Instruction::NewArray(TypeId::Int32),
            Instruction::StoreLocal(0),

            Instruction::LoadLocal(0),
            Instruction::Return
        ]
    );

    let binder = Binder::new();
    let type_storage = TypeStorage::new();
    Verifier::new(&binder, &type_storage, &mut function).verify().unwrap();

    let mut compiler = InstructionMIRCompiler::new(&binder, &function);
    compiler.compile(function.instructions());
    let compilation_result = compiler.done();
    let basic_blocks = BasicBlock::create_blocks(&compilation_result.instructions);
    let control_flow_graph = ControlFlowGraph::new(&compilation_result.instructions, &basic_blocks);

    let result = compute_null_check_elision(&function, &compilation_result, &basic_blocks, &control_flow_graph);

    for (block_index, block) in basic_blocks.iter().enumerate() {
        println!("Block #{}", block_index);
        for &instruction_index in &block.instructions {
            println!("\t{}: {:?}", compilation_result.instructions[instruction_index].name(), result[instruction_index]);
        }
    }

    assert_eq!(2, result[12].len());
    assert_eq!(true, result[12].get(&RegisterMIR::new(0, TypeId::Array(Box::new(TypeId::Int32)))).unwrap());
}

#[test]
fn null_check_elision_test_branches2() {
    let mut function = Function::new(
        FunctionDeclaration::new_managed("test".to_owned(), vec![], TypeId::Array(Box::new(TypeId::Int32))),
        vec![TypeId::Array(Box::new(TypeId::Int32))],
        vec![
            Instruction::LoadInt32(0),
            Instruction::LoadInt32(0),
            Instruction::BranchEqual(7),

            Instruction::LoadInt32(1000),
            Instruction::NewArray(TypeId::Int32),
            Instruction::StoreLocal(0),
            Instruction::Branch(10),

            Instruction::LoadInt32(1000),
            Instruction::NewArray(TypeId::Int32),
            Instruction::StoreLocal(0),

            Instruction::LoadLocal(0),
            Instruction::Return
        ]
    );

    let binder = Binder::new();
    let type_storage = TypeStorage::new();
    Verifier::new(&binder, &type_storage, &mut function).verify().unwrap();

    let mut compiler = InstructionMIRCompiler::new(&binder, &function);
    compiler.compile(function.instructions());
    let compilation_result = compiler.done();
    let basic_blocks = BasicBlock::create_blocks(&compilation_result.instructions);
    let control_flow_graph = ControlFlowGraph::new(&compilation_result.instructions, &basic_blocks);

    let result = compute_null_check_elision(&function, &compilation_result, &basic_blocks, &control_flow_graph);

    for (block_index, block) in basic_blocks.iter().enumerate() {
        println!("Block #{}", block_index);
        for &instruction_index in &block.instructions {
            println!("\t{}: {:?}", compilation_result.instructions[instruction_index].name(), result[instruction_index]);
        }
    }

    assert_eq!(2, result[13].len());
    assert_eq!(false, result[13].get(&RegisterMIR::new(0, TypeId::Array(Box::new(TypeId::Int32)))).unwrap());
}
