use velo::token::{Token, TokenType};
use velo::types::Type;

#[test]
fn names_of_types() {
    assert_eq!(Type::Bool.to_string(), "bool");
    assert_eq!(Type::Short.to_string(), "short");
    assert_eq!(Type::Int.to_string(), "int");
    assert_eq!(Type::Large.to_string(), "large");
    assert_eq!(Type::Float.to_string(), "float");
    assert_eq!(Type::String.to_string(), "string");
    assert_eq!(Type::Void.to_string(), "void");
    assert_eq!(Type::Array(Box::new(Type::Int)).to_string(), "int[]");
    assert_eq!(Type::Array(Box::new(Type::Array(Box::new(Type::Bool)))).to_string(), "bool[][]");
    assert_eq!(Type::Tuple(vec![]).to_string(), "()");
    assert_eq!(Type::Tuple(vec![Type::Int]).to_string(), "(int)");
    assert_eq!(
        Type::Tuple(vec![Type::Int, Type::Array(Box::new(Type::String)), Type::Void]).to_string(),
        "(int, string[], void)"
    );
}

#[test]
fn types_of_names() {
    assert_eq!(Type::from_string("bool"), Some(Type::Bool));
    assert_eq!(Type::from_string("short"), Some(Type::Short));
    assert_eq!(Type::from_string("int"), Some(Type::Int));
    assert_eq!(Type::from_string("large"), Some(Type::Large));
    assert_eq!(Type::from_string("float"), Some(Type::Float));
    assert_eq!(Type::from_string("string"), Some(Type::String));
    assert_eq!(Type::from_string("void"), Some(Type::Void));
    assert_eq!(Type::from_string("int[]"), Some(Type::Array(Box::new(Type::Int))));
    assert_eq!(
        Type::from_string("float[][]"),
        Some(Type::Array(Box::new(Type::Array(Box::new(Type::Float)))))
    );
    for name in ["", "Int", "integer", "[]", "int[", "int]", "(int)", "int []", "ïnt", "é[]"] {
        assert_eq!(Type::from_string(name), None, "{:?}", name);
    }
}

#[test]
fn name_of_a_type_reads_back_as_the_type() {
    let types = vec![
        Type::Bool,
        Type::Short,
        Type::Int,
        Type::Large,
        Type::Float,
        Type::String,
        Type::Void,
        Type::Array(Box::new(Type::Large)),
        Type::Array(Box::new(Type::Array(Box::new(Type::Void)))),
    ];
    for t in types {
        assert_eq!(Type::from_string(&t.to_string()), Some(t));
    }
}

#[test]
fn tuple_types_compare_by_elements() {
    let a = Type::Tuple(vec![Type::Int, Type::Short]);
    let b = Type::Tuple(vec![Type::Int, Type::Short]);
    let c = Type::Tuple(vec![Type::Int, Type::Int]);
    let d = Type::Tuple(vec![Type::Int]);
    assert!(a.same(&b));
    assert!(!a.same(&c));
    assert!(!a.same(&d));
    assert!(!a.same(&Type::Int));
    assert!(Type::Array(Box::new(Type::Int)).same(&Type::Array(Box::new(Type::Int))));
    assert!(!Type::Array(Box::new(Type::Int)).same(&Type::Array(Box::new(Type::Short))));
    assert_eq!(a.clone(), b);
    assert_eq!(a.duplicate(), a);
}

#[test]
fn names_of_token_classes_and_reserved_words() {
    assert_eq!(TokenType::ColonEq.to_string(), ":=");
    assert_eq!(TokenType::EOF.name(), "end of input");
    assert_eq!(TokenType::NumericLiteral.name(), "number");
    assert_eq!(TokenType::keyword(&"import".to_string()), Some(TokenType::Import));
    assert_eq!(TokenType::keyword(&"immut".to_string()), Some(TokenType::Immut));
    assert_eq!(TokenType::keyword(&"let".to_string()), Some(TokenType::Let));
    assert_eq!(TokenType::keyword(&"function".to_string()), Some(TokenType::Function));
    assert_eq!(TokenType::keyword(&"true".to_string()), Some(TokenType::True));
    assert_eq!(TokenType::keyword(&"false".to_string()), Some(TokenType::False));
    assert_eq!(TokenType::keyword(&"Import".to_string()), None);
    assert_eq!(TokenType::keyword(&"x".to_string()), None);
    assert!(TokenType::Div.operator());
    assert!(!TokenType::Eq.operator());
    assert!(TokenType::Identifier.operand());
    assert!(!TokenType::String.operand());
    let t = Token::new(TokenType::Comma, ",".to_string(), 2);
    assert_eq!(t.clone(), t);
}
