use lib::model::binder::Binder;
use lib::model::function::{Function, FunctionDeclaration, FunctionSignature};
use lib::model::instruction::Instruction;
use lib::model::typesystem::{TypeId, TypeStorage};
use lib::model::verification::{Verifier, VerifyError, VerifyErrorMessage};

#[test]
fn verifier_test_simple1() {
    let mut function = Function::new(
        FunctionDeclaration::new_managed("test".to_owned(), Vec::new(), TypeId::Int32),
        Vec::new(),
        vec![
            Instruction::LoadInt32(4711),
            Instruction::Return,
        ]
    );

    let binder = Binder::new();
    let type_storage = TypeStorage::new();
    let mut verifier = Verifier::new(&binder, &type_storage, &mut function);
    assert_eq!(Ok(()), verifier.verify());
}

#[test]
fn verifier_test_simple2() {
    let mut function = Function::new(
        FunctionDeclaration::new_managed("test".to_owned(), Vec::new(), TypeId::Int32),
        Vec::new(),
        vec![
            Instruction::LoadInt32(4711),
            Instruction::LoadInt32(1337),
            Instruction::Add,
            Instruction::Return,
        ]
    );

    let binder = Binder::new();
    let type_storage = TypeStorage::new();
    let mut verifier = Verifier::new(&binder, &type_storage, &mut function);
    assert_eq!(Ok(()), verifier.verify());
    assert_eq!(&vec![TypeId::Int32, TypeId::Int32], function.instruction_operand_types(2));
}

#[test]
fn verifier_test_simple3() {
    let mut function = Function::new(
        FunctionDeclaration::new_managed("test".to_owned(), Vec::new(), TypeId::Float32),
        Vec::new(),
        vec![
            Instruction::LoadFloat32("47.11".to_owned()),
            Instruction::LoadFloat32("13.37".to_owned()),
            Instruction::Add,
            Instruction::Return,
        ]
    );

    let binder = Binder::new();
    let type_storage = TypeStorage::new();
    let mut verifier = Verifier::new(&binder, &type_storage, &mut function);
    assert_eq!(Ok(()), verifier.verify());
    assert_eq!(&vec![TypeId::Float32, TypeId::Float32], function.instruction_operand_types(2));
}

#[test]
fn test_return1() {
    let mut function = Function::new(
        FunctionDeclaration::new_managed("test".to_owned(), Vec::new(), TypeId::Void),
        Vec::new(),
        vec![
            Instruction::LoadInt32(4711),
            Instruction::LoadInt32(1337),
            Instruction::Add,
            Instruction::Return,
        ]
    );

    let binder = Binder::new();
    let type_storage = TypeStorage::new();
    let mut verifier = Verifier::new(&binder, &type_storage, &mut function);
    assert_eq!(Err(VerifyError::new(VerifyErrorMessage::NonEmptyOperandStackOnReturn)), verifier.verify());
}

#[test]
fn test_return2() {
    let mut function = Function::new(
        FunctionDeclaration::new_managed("test".to_owned(), Vec::new(), TypeId::Void),
        Vec::new(),
        vec![
            Instruction::LoadInt32(4711),
            Instruction::LoadInt32(1337),
            Instruction::Return,
        ]
    );

    let binder = Binder::new();
    let type_storage = TypeStorage::new();
    let mut verifier = Verifier::new(&binder, &type_storage, &mut function);
    assert_eq!(Err(VerifyError::new(VerifyErrorMessage::NonEmptyOperandStackOnReturn)), verifier.verify());
}


#[test]
fn test_return3() {
    let mut function = Function::new(
        FunctionDeclaration::new_managed("test".to_owned(), Vec::new(), TypeId::Float32),
        Vec::new(),
        vec![
            Instruction::LoadInt32(4711),
            Instruction::LoadInt32(1337),
            Instruction::Add,
            Instruction::Return,
        ]
    );

    let binder = Binder::new();
    let type_storage = TypeStorage::new();
    let mut verifier = Verifier::new(&binder, &type_storage, &mut function);
    assert_eq!(
        Err(VerifyError::with_index(3, VerifyErrorMessage::WrongType(TypeId::Float32, TypeId::Int32))),
        verifier.verify()
    );
}


#[test]
fn test_local1() {
    let mut function = Function::new(
        FunctionDeclaration::new_managed("test".to_owned(), Vec::new(), TypeId::Int32),
        vec![TypeId::Int32],
        vec![
            Instruction::LoadInt32(4711),
            Instruction::StoreLocal(0),
            Instruction::LoadLocal(0),
            Instruction::Return,
        ]
    );

    let binder = Binder::new();
    let type_storage = TypeStorage::new();
    let mut verifier = Verifier::new(&binder, &type_storage, &mut function);
    assert_eq!(Ok(()), verifier.verify());
}

#[test]
fn test_local2() {
    let mut function = Function::new(
        FunctionDeclaration::new_managed("test".to_owned(), Vec::new(), TypeId::Int32),
        vec![],
        vec![
            Instruction::LoadInt32(4711),
            Instruction::StoreLocal(0),
            Instruction::LoadLocal(0),
            Instruction::Return,
        ]
    );

    let binder = Binder::new();
    let type_storage = TypeStorage::new();
    let mut verifier = Verifier::new(&binder, &type_storage, &mut function);
    assert_eq!(
        Err(VerifyError::with_index(1, VerifyErrorMessage::LocalIndexOutOfRange)),
        verifier.verify()
    );
}

#[test]
fn test_call1() {
    let mut function = Function::new(
        FunctionDeclaration::new_managed("test".to_owned(), vec![TypeId::Int32], TypeId::Int32),
        vec![],
        vec![
            Instruction::LoadArgument(0),
            Instruction::Return,
        ]
    );

    let binder = Binder::new();
    let type_storage = TypeStorage::new();
    let mut verifier = Verifier::new(&binder, &type_storage, &mut function);
    assert_eq!(Ok(()), verifier.verify());
    assert_eq!(&vec![TypeId::Int32], function.instruction_operand_types(1));
}

#[test]
fn test_call2() {
    let mut function = Function::new(
        FunctionDeclaration::new_managed("test".to_owned(), vec![TypeId::Int32], TypeId::Int32),
        vec![],
        vec![
            Instruction::LoadInt32(1),
            Instruction::LoadInt32(2),
            Instruction::LoadFloat32("3.0".to_owned()),
            Instruction::LoadInt32(4),
            Instruction::LoadFloat32("5.0".to_owned()),
            Instruction::Call(FunctionSignature::new("test_call".to_owned(), vec![TypeId::Int32, TypeId::Int32, TypeId::Float32, TypeId::Int32, TypeId::Float32])),
            Instruction::Return,
        ]
    );

    let mut binder = Binder::new();
    let type_storage = TypeStorage::new();
    binder.define(FunctionDeclaration::new_managed("test_call".to_owned(), vec![TypeId::Int32, TypeId::Int32, TypeId::Float32, TypeId::Int32, TypeId::Float32], TypeId::Int32));

    let mut verifier = Verifier::new(&binder, &type_storage, &mut function);
    assert_eq!(Ok(()), verifier.verify());
}

#[test]
fn test_call3() {
    let mut function = Function::new(
        FunctionDeclaration::new_managed("test".to_owned(), vec![TypeId::Int32], TypeId::Int32),
        vec![],
        vec![
            Instruction::LoadInt32(1),
            Instruction::LoadInt32(2),
            Instruction::LoadFloat32("5.0".to_owned()),
            Instruction::Call(FunctionSignature::new("test_call".to_owned(), vec![TypeId::Int32, TypeId::Int32, TypeId::Float32, TypeId::Int32, TypeId::Float32])),
            Instruction::Return,
        ]
    );

    let mut binder = Binder::new();
    let type_storage = TypeStorage::new();
    binder.define(FunctionDeclaration::new_managed("test_call".to_owned(), vec![TypeId::Int32, TypeId::Int32, TypeId::Float32, TypeId::Int32, TypeId::Float32], TypeId::Int32));

    let mut verifier = Verifier::new(&binder, &type_storage, &mut function);
    assert_eq!(
        Err(VerifyError::with_index(3, VerifyErrorMessage::ExpectedNumberOfOperands(5))),
        verifier.verify()
    );
}

#[test]
fn test_call4() {
    let mut function = Function::new(
        FunctionDeclaration::new_managed("test".to_owned(), vec![TypeId::Int32], TypeId::Int32),
        vec![],
        vec![
            Instruction::LoadInt32(1),
            Instruction::LoadInt32(2),
            Instruction::LoadInt32(3),
            Instruction::LoadInt32(4),
            Instruction::LoadFloat32("5.0".to_owned()),
            Instruction::Call(FunctionSignature::new("test_call".to_owned(), vec![TypeId::Int32, TypeId::Int32, TypeId::Float32, TypeId::Int32, TypeId::Float32])),
            Instruction::Return,
        ]
    );

    let mut binder = Binder::new();
    let type_storage = TypeStorage::new();
    binder.define(FunctionDeclaration::new_managed("test_call".to_owned(), vec![TypeId::Int32, TypeId::Int32, TypeId::Float32, TypeId::Int32, TypeId::Float32], TypeId::Int32));

    let mut verifier = Verifier::new(&binder, &type_storage, &mut function);
    assert_eq!(
        Err(VerifyError::with_index(5, VerifyErrorMessage::WrongType(TypeId::Float32, TypeId::Int32))),
        verifier.verify()
    );
}

#[test]
fn verifier_test_array1() {
    let mut function = Function::new(
        FunctionDeclaration::new_managed("test".to_owned(), Vec::new(), TypeId::Int32),
        Vec::new(),
        vec![
            Instruction::LoadInt32(4711),
            Instruction::NewArray(TypeId::Int32),
            Instruction::LoadInt32(1000),
            Instruction::LoadElement(TypeId::Int32),
            Instruction::Return,
        ]
    );

    let binder = Binder::new();
    let type_storage = TypeStorage::new();
    let mut verifier = Verifier::new(&binder, &type_storage, &mut function);
    assert_eq!(Ok(()), verifier.verify());
}

#[test]
fn verifier_test_array2() {
    let mut function = Function::new(
        FunctionDeclaration::new_managed("test".to_owned(), Vec::new(), TypeId::Void),
        Vec::new(),
        vec![
            Instruction::LoadInt32(4711),
            Instruction::NewArray(TypeId::Float32),
            Instruction::LoadInt32(1000),
            Instruction::LoadFloat32("47.11".to_owned()),
            Instruction::StoreElement(TypeId::Float32),
            Instruction::Return,
        ]
    );

    let binder = Binder::new();
    let type_storage = TypeStorage::new();
    let mut verifier = Verifier::new(&binder, &type_storage, &mut function);
    assert_eq!(Ok(()), verifier.verify());
}

#[test]
fn test_array3() {
    let mut function = Function::new(
        FunctionDeclaration::new_managed("test".to_owned(), Vec::new(), TypeId::Void),
        Vec::new(),
        vec![
            Instruction::LoadInt32(4711),
            Instruction::NewArray(TypeId::Int32),
            Instruction::LoadInt32(1000),
            Instruction::LoadFloat32("47.11".to_owned()),
            Instruction::StoreElement(TypeId::Float32),
            Instruction::Return,
        ]
    );

    let binder = Binder::new();
    let type_storage = TypeStorage::new();
    let mut verifier = Verifier::new(&binder, &type_storage, &mut function);
    assert_eq!(
        Err(VerifyError::with_index(4, VerifyErrorMessage::WrongType(TypeId::Array(Box::new(TypeId::Float32)), TypeId::Array(Box::new(TypeId::Int32))))),
        verifier.verify()
    );
}

#[test]
fn test_array4() {
    let mut function = Function::new(
        FunctionDeclaration::new_managed("test".to_owned(), Vec::new(), TypeId::Int32),
        Vec::new(),
        vec![
            Instruction::LoadInt32(4711),
            Instruction::LoadInt32(5411),
            Instruction::LoadInt32(1000),
            Instruction::LoadElement(TypeId::Int32),
            Instruction::Return,
        ]
    );

    let binder = Binder::new();
    let type_storage = TypeStorage::new();
    let mut verifier = Verifier::new(&binder, &type_storage, &mut function);
    assert_eq!(
        Err(VerifyError::with_index(3, VerifyErrorMessage::WrongType(TypeId::Array(Box::new(TypeId::Int32)), TypeId::Int32))),
        verifier.verify()
    );
}

#[test]
fn test_array5() {
    let mut function = Function::new(
        FunctionDeclaration::new_managed("test".to_owned(), Vec::new(), TypeId::Int32),
        Vec::new(),
        vec![
            Instruction::LoadInt32(4711),
            Instruction::NewArray(TypeId::Float32),
            Instruction::LoadArrayLength,
            Instruction::Return,
        ]
    );

    let binder = Binder::new();
    let type_storage = TypeStorage::new();
    let mut verifier = Verifier::new(&binder, &type_storage, &mut function);
    assert_eq!(Ok(()), verifier.verify());
}

#[test]
fn verifier_test_branches1() {
    let mut function = Function::new(
        FunctionDeclaration::new_managed("test".to_owned(), Vec::new(), TypeId::Void),
        vec![TypeId::Int32],
        vec![
            Instruction::LoadInt32(1),
            Instruction::LoadInt32(2),
            Instruction::BranchNotEqual(5),
            Instruction::LoadInt32(3),
            Instruction::StoreLocal(0),
            Instruction::Return,
        ]
    );

    let binder = Binder::new();
    let type_storage = TypeStorage::new();
    let mut verifier = Verifier::new(&binder, &type_storage, &mut function);
    assert_eq!(Ok(()), verifier.verify());
}

#[test]
fn verifier_test_branches2() {
    let mut function = Function::new(
        FunctionDeclaration::new_managed("test".to_owned(), Vec::new(), TypeId::Int32),
        vec![TypeId::Int32],
        vec![
            Instruction::LoadInt32(1),
            Instruction::LoadInt32(2),
            Instruction::BranchNotEqual(6),
            Instruction::LoadInt32(1337),
            Instruction::StoreLocal(0),
            Instruction::Branch(8),
            Instruction::LoadInt32(4711),
            Instruction::StoreLocal(0),
            Instruction::LoadLocal(0),
            Instruction::Return,
        ]
    );

    let binder = Binder::new();
    let type_storage = TypeStorage::new();
    let mut verifier = Verifier::new(&binder, &type_storage, &mut function);
    assert_eq!(Ok(()), verifier.verify());
}

#[test]
fn test_branches3() {
    let mut function = Function::new(
        FunctionDeclaration::new_managed("test".to_owned(), Vec::new(), TypeId::Void),
        Vec::new(),
        vec![
            Instruction::LoadInt32(1),
            Instruction::LoadInt32(2),
            Instruction::LoadInt32(3),
            Instruction::BranchNotEqual(6),
            Instruction::LoadInt32(4),
            Instruction::LoadInt32(5),
            Instruction::Return,
        ]
    );

    let binder = Binder::new();
    let type_storage = TypeStorage::new();
    let mut verifier = Verifier::new(&binder, &type_storage, &mut function);
    assert_eq!(
        Err(VerifyError::with_index(3, VerifyErrorMessage::BranchDifferentNumberOfOperands(1, 3))),
        verifier.verify()
    );
}

#[test]
fn test_branches4() {
    let mut function = Function::new(
        FunctionDeclaration::new_managed("test".to_owned(), Vec::new(), TypeId::Void),
        vec![TypeId::Int32],
        vec![
            Instruction::LoadInt32(1),
            Instruction::LoadInt32(2),
            Instruction::LoadInt32(3),
            Instruction::BranchNotEqual(5),
            Instruction::LoadInt32(4),
            Instruction::Return,
        ]
    );

    let binder = Binder::new();
    let type_storage = TypeStorage::new();
    let mut verifier = Verifier::new(&binder, &type_storage, &mut function);
    assert_eq!(
        Err(VerifyError::with_index(3, VerifyErrorMessage::BranchDifferentNumberOfOperands(1, 2))),
        verifier.verify()
    );
}

#[test]
fn test_branches5() {
    let mut function = Function::new(
        FunctionDeclaration::new_managed("test".to_owned(), Vec::new(), TypeId::Int32),
        vec![TypeId::Int32],
        vec![
            Instruction::LoadInt32(1),
            Instruction::LoadInt32(2),
            Instruction::BranchLessThanOrEqual(6),
            Instruction::LoadInt32(1337),
            Instruction::StoreLocal(0),
            Instruction::Branch(8),
            Instruction::LoadInt32(4711),
            Instruction::StoreLocal(0),
            Instruction::LoadLocal(0),
            Instruction::Return,
        ]
    );

    let binder = Binder::new();
    let type_storage = TypeStorage::new();
    let mut verifier = Verifier::new(&binder, &type_storage, &mut function);
    assert_eq!(Ok(()), verifier.verify());
}

#[test]
fn test_branches6() {
    let mut function = Function::new(
        FunctionDeclaration::new_managed("test".to_owned(), Vec::new(), TypeId::Int32),
        vec![TypeId::Array(Box::new(TypeId::Int32))],
        vec![
            Instruction::LoadLocal(0),
            Instruction::LoadLocal(0),
            Instruction::BranchLessThanOrEqual(6),
            Instruction::LoadInt32(1337),
            Instruction::StoreLocal(0),
            Instruction::Branch(8),
            Instruction::LoadInt32(4711),
            Instruction::StoreLocal(0),
            Instruction::LoadLocal(0),
            Instruction::Return,
        ]
    );

    let binder = Binder::new();
    let type_storage = TypeStorage::new();
    let mut verifier = Verifier::new(&binder, &type_storage, &mut function);
    assert_eq!(
        Err(VerifyError::with_index(2, VerifyErrorMessage::ExpectedComparableType)),
        verifier.verify()
    );
}

#[test]
fn test_null1() {
    let mut function = Function::new(
        FunctionDeclaration::new_managed("test".to_owned(), Vec::new(), TypeId::Int32),
        vec![TypeId::Array(Box::new(TypeId::Int32))],
        vec![
            Instruction::LoadNull(TypeId::Array(Box::new(TypeId::Int32))),
            Instruction::StoreLocal(0),
            Instruction::LoadInt32(4711),
            Instruction::Return,
        ]
    );

    let binder = Binder::new();
    let type_storage = TypeStorage::new();
    let mut verifier = Verifier::new(&binder, &type_storage, &mut function);
    assert_eq!(Ok(()), verifier.verify());

    assert!(function.instruction_operand_types(1)[0].is_reference());
}

#[test]
fn test_null2() {
    let mut function = Function::new(
        FunctionDeclaration::new_managed("test".to_owned(), Vec::new(), TypeId::Int32),
        Vec::new(),
        vec![
            Instruction::LoadNull(TypeId::Array(Box::new(TypeId::Int32))),
            Instruction::LoadInt32(1000),
            Instruction::LoadElement(TypeId::Int32),
            Instruction::Return,
        ]
    );

    let binder = Binder::new();
    let type_storage = TypeStorage::new();
    let mut verifier = Verifier::new(&binder, &type_storage, &mut function);
    assert_eq!(Ok(()), verifier.verify());

    assert!(function.instruction_operand_types(2)[0].is_reference());
}

#[test]
fn test_null3() {
    let mut function = Function::new(
        FunctionDeclaration::new_managed("test".to_owned(), Vec::new(), TypeId::Int32),
        Vec::new(),
        vec![
            Instruction::LoadNull(TypeId::Array(Box::new(TypeId::Int32))),
            Instruction::LoadInt32(1000),
            Instruction::LoadInt32(4711),
            Instruction::StoreElement(TypeId::Int32),
            Instruction::LoadInt32(0),
            Instruction::Return,
        ]
    );

    let binder = Binder::new();
    let type_storage = TypeStorage::new();
    let mut verifier = Verifier::new(&binder, &type_storage, &mut function);
    assert_eq!(Ok(()), verifier.verify());

    assert!(function.instruction_operand_types(3)[0].is_reference());
}
#[test]
fn verify_function_records_operand_types() {
    let mut function = Function::new(
        FunctionDeclaration::new_managed("test".to_owned(), Vec::new(), TypeId::Int32),
        Vec::new(),
        vec![Instruction::LoadInt32(4711), Instruction::LoadInt32(1337), Instruction::Add, Instruction::Return],
    );
    let binder = Binder::new();
    let type_storage = TypeStorage::new();
    assert_eq!(Ok(()), Verifier::verify_function(&binder, &type_storage, &mut function));
    assert_eq!(&vec![TypeId::Int32, TypeId::Int32], function.instruction_operand_types(2));
    assert_eq!(2, function.operand_stack_size());
}

#[test]
fn verify_and_compile_reports_the_verification_error() {
    let mut function = Function::new(
        FunctionDeclaration::new_managed("test".to_owned(), Vec::new(), TypeId::Int32),
        Vec::new(),
        vec![Instruction::LoadInt32(1), Instruction::Add, Instruction::Return],
    );
    let binder = Binder::new();
    let type_storage = TypeStorage::new();
    assert!(lib::mir::compiler::verify_and_compile(&binder, &type_storage, &mut function).is_err());

    let mut function = Function::new(
        FunctionDeclaration::new_managed("test".to_owned(), Vec::new(), TypeId::Int32),
        Vec::new(),
        vec![Instruction::LoadInt32(4711), Instruction::LoadInt32(1337), Instruction::Add, Instruction::Return],
    );
    let compiled = lib::mir::compiler::verify_and_compile(&binder, &type_storage, &mut function).unwrap().unwrap();
    assert_eq!(4, compiled.instructions.len());
}
