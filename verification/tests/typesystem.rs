use lib::model::typesystem::TypeId;

#[test]
fn test_parse1() {
    assert_eq!(Some(TypeId::Int32), TypeId::from_str("Int"));
    assert_eq!(Some(TypeId::Float32), TypeId::from_str("Float"));
    assert_eq!(Some(TypeId::Void), TypeId::from_str("Void"));
    assert_eq!(Some(TypeId::Bool), TypeId::from_str("Bool"));
}

#[test]
fn test_parse2() {
    assert_eq!(Some(TypeId::Array(Box::new(TypeId::Int32))), TypeId::from_str("Ref.Array[Int]"));
    assert_eq!(Some(TypeId::Array(Box::new(TypeId::Array(Box::new(TypeId::Int32))))), TypeId::from_str("Ref.Array[Ref.Array[Int]]"));
}

#[test]
fn test_parse3() {
    assert_eq!(Some(TypeId::Class("Point".to_owned())), TypeId::from_str("Ref.Point"));
    assert_eq!(Some(TypeId::Array(Box::new(TypeId::Class("Point".to_owned())))), TypeId::from_str("Ref.Array[Ref.Point]"));
    assert_eq!(Some(TypeId::Array(Box::new(TypeId::Array(Box::new(TypeId::Class("Point".to_owned())))))), TypeId::from_str("Ref.Array[Ref.Array[Ref.Point]]"));
}

#[test]
fn parse_unknown_type_names() {
    assert_eq!(None, TypeId::from_str("Number"));
    assert_eq!(None, TypeId::from_str(""));
    // A name is recognised by its prefix.
    assert_eq!(Some(TypeId::Int32), TypeId::from_str("Integer"));
}

#[test]
fn type_sizes_and_kinds() {
    assert_eq!(4, TypeId::Int32.size());
    assert_eq!(4, TypeId::Float32.size());
    assert_eq!(1, TypeId::Bool.size());
    assert_eq!(0, TypeId::Void.size());
    assert_eq!(8, TypeId::Array(Box::new(TypeId::Int32)).size());
    assert!(TypeId::Class("Point".to_owned()).is_reference());
    assert!(!TypeId::Int32.is_reference());
    assert!(TypeId::Float32.is_float());
    assert_eq!(Some(&TypeId::Int32), TypeId::Array(Box::new(TypeId::Int32)).element_type());
    assert_eq!(Some("Point"), TypeId::Class("Point".to_owned()).class_name());
}

#[test]
fn printed_types_parse_back() {
    let types = vec![
        TypeId::Void,
        TypeId::Int32,
        TypeId::Float32,
        TypeId::Bool,
        TypeId::Class("Point".to_owned()),
        TypeId::Array(Box::new(TypeId::Array(Box::new(TypeId::Class("Point".to_owned()))))),
    ];
    for t in types {
        assert_eq!(Some(t.clone()), TypeId::from_str(&t.to_string()));
    }
    assert_eq!(None, TypeId::from_str("Foo"));
    assert_eq!(None, TypeId::from_str(""));
    assert_eq!(None, TypeId::from_str("Ref"));
}
