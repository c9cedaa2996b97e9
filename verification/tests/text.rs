use lib::model::function::{FunctionDeclaration, FunctionSignature};
use lib::model::instruction::Instruction;
use lib::model::typesystem::TypeId;

#[test]
fn type_texts() {
    assert_eq!("Void", TypeId::Void.to_string());
    assert_eq!("Int", TypeId::Int32.to_string());
    assert_eq!("Float", TypeId::Float32.to_string());
    assert_eq!("Bool", TypeId::Bool.to_string());
    assert_eq!("Ref.Array[Ref.Array[Int]]", TypeId::Array(Box::new(TypeId::Array(Box::new(TypeId::Int32)))).to_string());
    assert_eq!("Ref.Point", TypeId::Class("Point".to_owned()).to_string());
}

#[test]
fn signature_and_declaration_texts() {
    let signature = FunctionSignature::new("add".to_owned(), vec![TypeId::Int32, TypeId::Float32]);
    assert_eq!("add(Int Float)", signature.to_string());
    assert_eq!("main()", FunctionSignature::new("main".to_owned(), vec![]).to_string());

    let declaration = FunctionDeclaration::new_managed("add".to_owned(), vec![TypeId::Int32, TypeId::Int32], TypeId::Int32);
    assert_eq!("add(Int Int) Int", declaration.to_string());
}

#[test]
fn instruction_texts() {
    assert_eq!("LoadInt32 -42", Instruction::LoadInt32(-42).to_string());
    assert_eq!("LoadInt32 1337", Instruction::LoadInt32(1337).to_string());
    assert_eq!("LoadInt32 -2147483648", Instruction::LoadInt32(i32::MIN).to_string());
    assert_eq!("LoadFloat32 13.37", Instruction::LoadFloat32("13.37".to_owned()).to_string());
    assert_eq!("LoadNull", Instruction::LoadNull(TypeId::Class("Point".to_owned())).to_string());
    assert_eq!("LoadLocal 0", Instruction::LoadLocal(0).to_string());
    assert_eq!("StoreLocal 10", Instruction::StoreLocal(10).to_string());
    assert_eq!(
        "Call add(Int Int)",
        Instruction::Call(FunctionSignature::new("add".to_owned(), vec![TypeId::Int32, TypeId::Int32])).to_string()
    );
    assert_eq!("NewArray Ref.Array[Float]", Instruction::NewArray(TypeId::Array(Box::new(TypeId::Float32))).to_string());
    assert_eq!("LoadField Point::x", Instruction::LoadField("Point".to_owned(), "x".to_owned()).to_string());
    assert_eq!("StoreField Point::y", Instruction::StoreField("Point".to_owned(), "y".to_owned()).to_string());
    assert_eq!("BranchLessThanOrEqual 4711", Instruction::BranchLessThanOrEqual(4711).to_string());
    assert_eq!("Return", Instruction::Return.to_string());
}
