use lib::compiler::frame_compiler::{InstructionIR, InstructionIRCompiler};
use lib::compiler::ir::{HardwareRegister, HardwareRegisterExplicit};
use lib::mir::compiler::InstructionMIRCompiler;
use lib::mir::InstructionMIRData;
use lib::model::binder::Binder;
use lib::model::function::{Function, FunctionDeclaration, FunctionSignature};
use lib::model::instruction::Instruction;
use lib::model::typesystem::{TypeId, TypeStorage};
use lib::model::verification::Verifier;

/// Verifies and compiles `function`, then lowers every instruction that the
/// frame lowering handles.
fn lower(binder: &Binder, function: &mut Function) -> Vec<InstructionIR> {
    let type_storage = TypeStorage::new();
    Verifier::verify_function(binder, &type_storage, function).unwrap();
    let function: &Function = function;
    let mut mir_compiler = InstructionMIRCompiler::new(binder, function);
    mir_compiler.compile(function.instructions());
    let mir_result = mir_compiler.done();

    let mut compiler = InstructionIRCompiler::new(binder, function);
    for (index, instruction) in mir_result.instructions.iter().enumerate() {
        match &instruction.data {
            InstructionMIRData::LoadFloat32(..) => {}
            _ => compiler.compile_instruction(index, instruction),
        }
    }
    compiler.done()
}

fn println_vec(original: &Vec<Instruction>, irs: &Vec<InstructionIR>) {
    for ir in irs {
        match ir {
            InstructionIR::Marker(index) => println!("{:?}", original[*index]),
            instruction => println!("\t{:?}", instruction),
        }
    }
}

fn markers(irs: &Vec<InstructionIR>) -> usize {
    irs.iter().filter(|ir| matches!(ir, InstructionIR::Marker(_))).count()
}

#[test]
fn ir_compiler_test_simple1() {
    let mut function = Function::new(
        FunctionDeclaration::new_managed("test".to_owned(), vec![], TypeId::Int32),
        vec![],
        vec![
            Instruction::LoadInt32(1),
            Instruction::LoadInt32(2),
            Instruction::Add,
            Instruction::LoadInt32(3),
            Instruction::Add,
            Instruction::Return,
        ],
    );
    let binder = Binder::new();
    let instructions_ir = lower(&binder, &mut function);
    println_vec(function.instructions(), &instructions_ir);

    assert_eq!(6, markers(&instructions_ir));
    assert_eq!(InstructionIR::Marker(0), instructions_ir[0]);
    assert_eq!(InstructionIR::MoveInt32ToMemory(-8, 1), instructions_ir[1]);
    assert_eq!(InstructionIR::MoveInt32ToMemory(-16, 2), instructions_ir[3]);
    assert_eq!(InstructionIR::LoadMemory(HardwareRegister::Int(0), -8), instructions_ir[5]);
    assert_eq!(InstructionIR::LoadMemory(HardwareRegister::Int(1), -16), instructions_ir[6]);
    assert_eq!(InstructionIR::AddInt32(HardwareRegister::Int(0), HardwareRegister::Int(1)), instructions_ir[7]);
    assert_eq!(InstructionIR::StoreMemory(-8, HardwareRegister::Int(0)), instructions_ir[8]);
    let n = instructions_ir.len();
    assert_eq!(InstructionIR::LoadMemoryExplicit(HardwareRegisterExplicit::Rax, -8), instructions_ir[n - 2]);
    assert_eq!(InstructionIR::Return, instructions_ir[n - 1]);
}

#[test]
fn ir_compiler_test_simple2() {
    let mut function = Function::new(
        FunctionDeclaration::new_managed("test".to_owned(), vec![], TypeId::Int32),
        vec![],
        vec![
            Instruction::LoadInt32(1),
            Instruction::LoadInt32(2),
            Instruction::LoadInt32(3),
            Instruction::Add,
            Instruction::Add,
            Instruction::Return,
        ],
    );
    let binder = Binder::new();
    let instructions_ir = lower(&binder, &mut function);
    println_vec(function.instructions(), &instructions_ir);

    assert_eq!(6, markers(&instructions_ir));
    assert_eq!(InstructionIR::MoveInt32ToMemory(-24, 3), instructions_ir[5]);
    assert_eq!(InstructionIR::LoadMemory(HardwareRegister::Int(0), -16), instructions_ir[7]);
    assert_eq!(InstructionIR::LoadMemory(HardwareRegister::Int(1), -24), instructions_ir[8]);
    assert_eq!(InstructionIR::StoreMemory(-16, HardwareRegister::Int(0)), instructions_ir[10]);
}

#[test]
fn ir_compiler_test_simple3() {
    let mut function = Function::new(
        FunctionDeclaration::new_managed("test".to_owned(), vec![], TypeId::Int32),
        vec![TypeId::Int32, TypeId::Int32],
        vec![
            Instruction::LoadInt32(1000),
            Instruction::StoreLocal(0),
            Instruction::LoadInt32(2000),
            Instruction::StoreLocal(1),
            Instruction::LoadLocal(0),
            Instruction::LoadLocal(1),
            Instruction::Add,
            Instruction::LoadInt32(3000),
            Instruction::Add,
            Instruction::Return,
        ],
    );
    let binder = Binder::new();
    let instructions_ir = lower(&binder, &mut function);
    println_vec(function.instructions(), &instructions_ir);

    assert_eq!(10, markers(&instructions_ir));
    assert_eq!(InstructionIR::MoveInt32ToMemory(-24, 1000), instructions_ir[1]);
    assert_eq!(InstructionIR::LoadMemory(HardwareRegister::Int(0), -24), instructions_ir[3]);
    assert_eq!(InstructionIR::StoreMemory(-8, HardwareRegister::Int(0)), instructions_ir[4]);
}

#[test]
fn ir_compiler_test_simple4() {
    let mut function = Function::new(
        FunctionDeclaration::new_managed("test".to_owned(), vec![], TypeId::Int32),
        vec![TypeId::Int32],
        vec![
            Instruction::LoadInt32(1000),
            Instruction::LoadInt32(2000),
            Instruction::Add,
            Instruction::StoreLocal(0),
            Instruction::LoadInt32(0),
            Instruction::Return,
        ],
    );
    let binder = Binder::new();
    let instructions_ir = lower(&binder, &mut function);
    println_vec(function.instructions(), &instructions_ir);

    assert_eq!(6, markers(&instructions_ir));
    assert_eq!(InstructionIR::Return, instructions_ir[instructions_ir.len() - 1]);
}

#[test]
fn ir_compiler_test_simple5() {
    let mut function = Function::new(
        FunctionDeclaration::new_managed("test".to_owned(), vec![], TypeId::Int32),
        vec![TypeId::Int32],
        vec![
            Instruction::LoadInt32(1000),
            Instruction::LoadFloat32("2000.0".to_owned()),
            Instruction::Call(FunctionSignature::new("add".to_owned(), vec![TypeId::Int32, TypeId::Float32])),
            Instruction::Return,
        ],
    );
    let mut binder = Binder::new();
    binder.define(FunctionDeclaration::new_managed("add".to_owned(), vec![TypeId::Int32, TypeId::Float32], TypeId::Int32));
    let instructions_ir = lower(&binder, &mut function);
    println_vec(function.instructions(), &instructions_ir);

    let call = instructions_ir.iter().position(|ir| matches!(ir, InstructionIR::Call(..))).unwrap();
    match &instructions_ir[call] {
        InstructionIR::Call(signature, arguments) => {
            assert_eq!("add", signature.name);
            assert_eq!(2, arguments.len());
        }
        _ => unreachable!(),
    }
    assert_eq!(
        InstructionIR::StoreMemoryExplicit(-16, HardwareRegisterExplicit::Rax),
        instructions_ir[call + 1]
    );
}
