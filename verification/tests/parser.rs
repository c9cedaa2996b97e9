use lib::model::function::FunctionSignature;
use lib::model::instruction::Instruction;
use lib::model::typesystem::TypeId;
use lib::parser::{tokenize, Parser};

#[test]
fn test_parse_function1() {
    let text = r"
    func test(Int Int) Int
    {
        LDINT 100
        LDINT 200
        ADD
        RET
    }
    ";

    let mut parser = Parser::new(tokenize(text).unwrap());
    let functions = parser.parse().unwrap();

    assert_eq!(1, functions.len());

    let function = &functions[0];
    assert_eq!("test", function.declaration().name());
    assert_eq!(&vec![TypeId::Int32, TypeId::Int32], function.declaration().parameters());
    assert_eq!(&TypeId::Int32, function.declaration().return_type());

    assert_eq!(Instruction::LoadInt32(100), function.instructions()[0]);
    assert_eq!(Instruction::LoadInt32(200), function.instructions()[1]);
    assert_eq!(Instruction::Add, function.instructions()[2]);
    assert_eq!(Instruction::Return, function.instructions()[3]);
}


#[test]
fn test_parse_function2() {
    let text = r"
    func test(Int Int) Int
    {
        .locals 1
        .local 0 Int
        LDINT 100
        LDLOC 0
        ADD
        RET
    }
    ";

    let mut parser = Parser::new(tokenize(text).unwrap());
    let functions = parser.parse().unwrap();

    assert_eq!(1, functions.len());

    let function = &functions[0];
    assert_eq!("test", function.declaration().name());
    assert_eq!(&vec![TypeId::Int32, TypeId::Int32], function.declaration().parameters());
    assert_eq!(&TypeId::Int32, function.declaration().return_type());
    assert_eq!(&vec![TypeId::Int32], function.locals());

    assert_eq!(Instruction::LoadInt32(100), function.instructions()[0]);
    assert_eq!(Instruction::LoadLocal(0), function.instructions()[1]);
    assert_eq!(Instruction::Add, function.instructions()[2]);
    assert_eq!(Instruction::Return, function.instructions()[3]);
}

#[test]
fn test_parse_function3() {
    let text = r"
    func test(Int Int) Int
    {
        .locals 1
        .local 0 Int
        LDINT 100
        LDLOC 0
        CALL addInt(Int Int)
        RET
    }
    ";

    let mut parser = Parser::new(tokenize(text).unwrap());
    let functions = parser.parse().unwrap();

    assert_eq!(1, functions.len());

    let function = &functions[0];
    assert_eq!("test", function.declaration().name());
    assert_eq!(&vec![TypeId::Int32, TypeId::Int32], function.declaration().parameters());
    assert_eq!(&TypeId::Int32, function.declaration().return_type());
    assert_eq!(&vec![TypeId::Int32], function.locals());

    assert_eq!(Instruction::LoadInt32(100), function.instructions()[0]);
    assert_eq!(Instruction::LoadLocal(0), function.instructions()[1]);
    assert_eq!(Instruction::Call(FunctionSignature { name: "addInt".to_string(), parameters: vec![TypeId::Int32, TypeId::Int32] }), function.instructions()[2]);
    assert_eq!(Instruction::Return, function.instructions()[3]);
}

#[test]
fn test_parse_function4() {
    let text = r"
    func test() Int
    {
        NEWOBJ Point
        LDFIELD Point::x
        RET
    }
    ";

    let mut parser = Parser::new(tokenize(text).unwrap());
    let functions = parser.parse().unwrap();

    assert_eq!(1, functions.len());

    let function = &functions[0];
    assert_eq!("test", function.declaration().name());
    assert_eq!(&Vec::<TypeId>::new(), function.declaration().parameters());
    assert_eq!(&TypeId::Int32, function.declaration().return_type());

    assert_eq!(Instruction::NewObject("Point".to_owned()), function.instructions()[0]);
    assert_eq!(Instruction::LoadField("Point".to_owned(), "x".to_owned()), function.instructions()[1]);
    assert_eq!(Instruction::Return, function.instructions()[2]);
}

#[test]
fn test_parse_function5() {
    let text = r"
    func test() Int
    {
        LDINT 1
        LDINT 2
        BNE 6
        LDINT 1337
        STLOC 0
        BR 8
        LDINT 4711
        STLOC 0
        LDLOC 0
        RET
    }
    ";

    let mut parser = Parser::new(tokenize(text).unwrap());
    let functions = parser.parse().unwrap();

    assert_eq!(1, functions.len());

    let function = &functions[0];
    assert_eq!("test", function.declaration().name());
    assert_eq!(&Vec::<TypeId>::new(), function.declaration().parameters());
    assert_eq!(&TypeId::Int32, function.declaration().return_type());

    assert_eq!(Instruction::LoadInt32(1), function.instructions()[0]);
    assert_eq!(Instruction::LoadInt32(2), function.instructions()[1]);
    assert_eq!(Instruction::BranchNotEqual(6), function.instructions()[2]);
    assert_eq!(Instruction::LoadInt32(1337), function.instructions()[3]);
    assert_eq!(Instruction::StoreLocal(0), function.instructions()[4]);
    assert_eq!(Instruction::Branch(8), function.instructions()[5]);
    assert_eq!(Instruction::LoadInt32(4711), function.instructions()[6]);
    assert_eq!(Instruction::StoreLocal(0), function.instructions()[7]);
    assert_eq!(Instruction::LoadLocal(0), function.instructions()[8]);
    assert_eq!(Instruction::Return, function.instructions()[9]);
}
#[test]
fn checked_parse_refuses_invalid_locals() {
    let outside = r"
    func test() Int
    {
        .locals 1
        .local 1 Int
        LDINT 1
        RET
    }
    ";
    assert!(Parser::new(tokenize(outside).unwrap()).parse_checked().is_none());

    let valid = r"
    func test() Int
    {
        .locals 1
        .local 0 Int
        LDINT 1
        RET
    }
    ";
    let functions = Parser::new(tokenize(valid).unwrap()).parse_checked().unwrap().unwrap();
    assert_eq!(1, functions.len());
    assert_eq!(&vec![TypeId::Int32], functions[0].locals());
}

#[test]
fn mnemonics_ignore_letter_case() {
    for spelling in ["LDINT", "ldint", "LdInt"] {
        let text = format!("{} 5 RET", spelling);
        let tokens = tokenize(&text).unwrap();
        let identifier = spelling.to_owned();
        let (instruction, _) = lib::parser::parse_instruction(&tokens, 0, &identifier).unwrap();
        assert_eq!(Instruction::LoadInt32(5), instruction);
    }
    let tokens = tokenize("LdX 5 RET").unwrap();
    match lib::parser::parse_instruction(&tokens, 0, &"LdX".to_owned()) {
        Err(lib::parser::ParserError::NotDefinedInstruction(name)) => assert_eq!("LdX", name),
        _ => panic!("expected NotDefinedInstruction"),
    }
}
