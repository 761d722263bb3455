use velo::ast::{Ast, BinaryExpression, Expression, FunctionBody, Literal, Statement};
use velo::decimal::Decimal;
use velo::error::{ErrorType, VeloError};
use velo::token::TokenType;
use velo::types::Type;

fn null() -> Ast {
    Ast::Expression(Expression::Literal(Literal::Null))
}

#[test]
fn node_of_a_literal() {
    let nameless = |value: Expression| {
        Ast::Statement(Statement::VariableAssignment {
            name: String::new(),
            constant: false,
            var_type: Type::Void,
            value,
        })
    };
    assert_eq!(
        Ast::from(Literal::Float(Decimal::parse("1.5").unwrap())),
        nameless(Expression::Literal(Literal::Null))
    );
    assert_eq!(
        Ast::from(Literal::StringLiteral("s".to_string())),
        nameless(Expression::Literal(Literal::StringLiteral("s".to_string())))
    );
    assert_eq!(Ast::from(Literal::Short(1)), null());
    assert_eq!(Ast::from(Literal::Int(1)), null());
    assert_eq!(Ast::from(Literal::Large(1)), null());
    assert_eq!(Ast::from(Literal::Bool(true)), null());
    assert_eq!(Ast::from(Literal::Null), null());
}

#[test]
fn function_body_keeps_its_parts() {
    let inner = FunctionBody::new(vec![], vec![Expression::Identifier("x".to_string())], None);
    let outer = FunctionBody::new(
        vec![Statement::ImportPath { path: "p".to_string(), is_library: false }],
        vec![],
        Some(Box::new(inner)),
    );
    assert_eq!(outer.stmts.len(), 1);
    assert!(outer.exprs.is_empty());
    assert_eq!(
        outer.block,
        Some(Box::new(FunctionBody {
            stmts: vec![],
            exprs: vec![Expression::Identifier("x".to_string())],
            block: None,
        }))
    );
}

#[test]
fn binary_expression_holds_two_nodes() {
    let e = BinaryExpression { lhs: Box::new(null()), operator: TokenType::Add, rhs: Box::new(null()) };
    assert_eq!(e.operator, TokenType::Add);
    assert_eq!(*e.lhs, *e.rhs);
}

#[test]
fn errors_compare_and_copy() {
    let e = VeloError::error(3, "message", ErrorType::ParseError);
    assert_eq!(e.line, 3);
    assert_eq!(e.message, "message");
    assert_eq!(e.clone(), e);
    assert_ne!(e, VeloError::error(3, "message", ErrorType::RuntimeError));
}

#[test]
fn nodes_copy_to_equal_nodes() {
    let call = Expression::CallExpr {
        name: "f".to_string(),
        params: vec![
            Expression::Literal(Literal::Float(Decimal::parse("2.5").unwrap())),
            Expression::BinaryOp {
                lhs: Box::new(Expression::Identifier("a".to_string())),
                rhs: Box::new(Expression::Literal(Literal::Bool(false))),
                operator: TokenType::Sub,
            },
        ],
    };
    assert_eq!(call.clone(), call);
    let function = Statement::Function {
        name: "g".to_string(),
        params: vec![("x".to_string(), Type::Tuple(vec![Type::Int, Type::Float]))],
        ret_type: Type::Array(Box::new(Type::String)),
        body: vec![
            Ast::Expression(call.clone()),
            Ast::Statement(Statement::VariableAssignment {
                name: "v".to_string(),
                constant: true,
                var_type: Type::Large,
                value: Expression::Literal(Literal::Large(1)),
            }),
            Ast::Statement(Statement::ImportPath { path: "p".to_string(), is_library: true }),
        ],
    };
    assert_eq!(function.clone(), function);
    let node = Ast::Statement(function.clone());
    assert_eq!(node.clone(), node);
    let body = FunctionBody::new(
        vec![function],
        vec![call],
        Some(Box::new(FunctionBody::new(vec![], vec![], None))),
    );
    assert_eq!(body.clone(), body);
    let operation =
        BinaryExpression { lhs: Box::new(node.clone()), operator: TokenType::Mul, rhs: Box::new(node) };
    assert_eq!(operation.clone(), operation);
}
