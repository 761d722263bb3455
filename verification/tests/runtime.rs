use velo::ast::{Ast, Expression, Literal, Statement};
use velo::error::{ErrorType, VeloError};
use velo::runtime::environment::{Environment, LibFunction};
use velo::runtime::interpreter::{receive_input, step, Action};
use velo::token::TokenType;
use velo::types::Type;

fn text(s: &str) -> Expression {
    Expression::Literal(Literal::StringLiteral(s.to_string()))
}

fn name(s: &str) -> Expression {
    Expression::Identifier(s.to_string())
}

fn call(function: &str, params: Vec<Expression>) -> Ast {
    Ast::Expression(Expression::CallExpr { name: function.to_string(), params })
}

fn declare(variable: &str, constant: bool, value: Expression) -> Ast {
    Ast::Statement(Statement::VariableAssignment {
        name: variable.to_string(),
        constant,
        var_type: Type::Void,
        value,
    })
}

#[test]
fn a_new_environment_has_the_standard_library() {
    let env = Environment::init();
    assert!(env.is_library_function(&"print".to_string()));
    assert!(env.is_library_function(&"input".to_string()));
    assert!(!env.is_library_function(&"println".to_string()));
    assert!(env.errors().is_empty());
    assert_eq!(env.lookup(&"x".to_string()), None);
    assert_eq!(
        Environment::make_lib("print", Some(1)),
        LibFunction { name: "print".to_string(), param_len: Some(1) }
    );
}

#[test]
fn declaring_a_variable_twice_is_an_error_and_keeps_the_first_value() {
    let mut env = Environment::init();
    let null = Expression::Literal(Literal::Null);
    assert_eq!(env.declare_variable("x".to_string(), text("one"), false), null);
    assert_eq!(env.lookup(&"x".to_string()), Some(&text("one")));
    assert!(env.errors().is_empty());
    assert_eq!(env.declare_variable("x".to_string(), text("two"), false), null);
    assert_eq!(env.lookup(&"x".to_string()), Some(&text("one")));
    assert_eq!(
        env.errors(),
        &vec![VeloError::error(
            0,
            "Variable with name 'x' already exists, did you mean to use `:=` instead of `=`?",
            ErrorType::RuntimeError
        )]
    );
}

#[test]
fn constants_are_no_variables() {
    let mut env = Environment::init();
    env.declare_variable("x".to_string(), text("one"), true);
    env.declare_variable("x".to_string(), text("two"), true);
    assert_eq!(env.lookup(&"x".to_string()), None);
    assert!(env.errors().is_empty());
    env.declare_variable("x".to_string(), text("three"), false);
    assert_eq!(env.lookup(&"x".to_string()), Some(&text("three")));
}

#[test]
fn runtime_errors_are_kept_in_order() {
    let mut env = Environment::init();
    env.throw_error("first".to_string());
    env.throw_error("second".to_string());
    assert_eq!(
        env.errors(),
        &vec![
            VeloError::error(0, "first", ErrorType::RuntimeError),
            VeloError::error(0, "second", ErrorType::RuntimeError),
        ]
    );
}

#[test]
fn print_writes_strings_and_string_variables() {
    let mut env = Environment::init();
    assert_eq!(step(&mut env, call("print", vec![text("hello")])), Action::Print("hello".to_string()));
    assert_eq!(step(&mut env, declare("greeting", false, text("hi"))), Action::Nothing);
    assert_eq!(step(&mut env, call("print", vec![name("greeting")])), Action::Print("hi".to_string()));
    assert_eq!(
        step(&mut env, call("print", vec![name("nobody")])),
        Action::ShowUndeclared("nobody".to_string())
    );
}

#[test]
fn what_evaluation_does_not_cover() {
    let mut env = Environment::init();
    step(&mut env, declare("n", false, Expression::Literal(Literal::Short(1))));
    assert_eq!(step(&mut env, call("print", vec![name("n")])), Action::Unsupported);
    assert_eq!(step(&mut env, call("print", vec![])), Action::Unsupported);
    assert_eq!(
        step(&mut env, call("print", vec![Expression::Literal(Literal::Short(1))])),
        Action::Unsupported
    );
    assert_eq!(step(&mut env, call("input", vec![text("x")])), Action::Unsupported);
    assert_eq!(step(&mut env, call("input", vec![])), Action::Unsupported);
    assert_eq!(step(&mut env, Ast::Expression(name("n"))), Action::Unsupported);
    assert_eq!(
        step(
            &mut env,
            Ast::Expression(Expression::BinaryOp {
                lhs: Box::new(name("a")),
                rhs: Box::new(name("b")),
                operator: TokenType::Add,
            })
        ),
        Action::Unsupported
    );
    assert_eq!(
        step(
            &mut env,
            Ast::Statement(Statement::ImportPath { path: "std".to_string(), is_library: true })
        ),
        Action::Unsupported
    );
}

#[test]
fn other_nodes_do_nothing() {
    let mut env = Environment::init();
    assert_eq!(step(&mut env, call("unknown", vec![text("x")])), Action::Nothing);
    assert_eq!(step(&mut env, Ast::Expression(Expression::Literal(Literal::Null))), Action::Nothing);
    assert!(env.errors().is_empty());
}

#[test]
fn input_reads_a_line_into_a_variable() {
    let mut env = Environment::init();
    assert_eq!(step(&mut env, call("input", vec![name("answer")])), Action::ReadLine("answer".to_string()));
    assert_eq!(env.lookup(&"answer".to_string()), None);
    receive_input(&mut env, "answer".to_string(), "42".to_string());
    assert_eq!(env.lookup(&"answer".to_string()), Some(&text("42")));
    receive_input(&mut env, "answer".to_string(), "43".to_string());
    assert_eq!(env.lookup(&"answer".to_string()), Some(&text("42")));
    assert_eq!(env.errors().len(), 1);
}

#[test]
fn declarations_in_a_program_reach_the_environment() {
    let mut env = Environment::init();
    step(&mut env, declare("x", false, text("a")));
    step(&mut env, declare("x", false, text("b")));
    step(&mut env, declare("y", true, text("c")));
    assert_eq!(env.lookup(&"x".to_string()), Some(&text("a")));
    assert_eq!(env.lookup(&"y".to_string()), None);
    assert_eq!(env.errors().len(), 1);
}
