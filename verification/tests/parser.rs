use velo::ast::{Ast, Expression, Literal, Statement};
use velo::error::{ErrorType, ParseFailure, VeloError};
use velo::parse::Parser;
use velo::token::{Token, TokenType};
use velo::types::Type;

fn tok(token_type: TokenType, lexeme: &str) -> Token {
    Token::new(token_type, lexeme.to_string(), 1)
}

fn tok_at(token_type: TokenType, lexeme: &str, line: usize) -> Token {
    Token::new(token_type, lexeme.to_string(), line)
}

fn ident(name: &str) -> Token {
    tok(TokenType::Identifier, name)
}

fn num(text: &str) -> Token {
    tok(TokenType::NumericLiteral, text)
}

fn semi() -> Token {
    tok(TokenType::Semicolon, ";")
}

fn parse(tokens: Vec<Token>) -> Result<Vec<Ast>, ParseFailure> {
    Parser::new(tokens).parse()
}

fn declaration(name: &str, constant: bool, var_type: Type, value: Expression) -> Ast {
    Ast::Statement(Statement::VariableAssignment {
        name: name.to_string(),
        constant,
        var_type,
        value,
    })
}

fn errors_of(result: Result<Vec<Ast>, ParseFailure>) -> Vec<VeloError> {
    match result {
        Err(ParseFailure::Errors(errors)) => errors,
        other => panic!("expected recorded errors, got {:?}", other),
    }
}

#[test]
fn inferred_declaration_of_a_small_number() {
    let nodes = parse(vec![ident("x"), tok(TokenType::ColonEq, ":="), num("5"), semi()]).unwrap();
    assert_eq!(
        nodes,
        vec![declaration("x", false, Type::Short, Expression::Literal(Literal::Short(5)))]
    );
}

#[test]
fn inferred_declaration_of_an_int() {
    let nodes =
        parse(vec![ident("x"), tok(TokenType::ColonEq, ":="), num("70000"), semi()]).unwrap();
    assert_eq!(
        nodes,
        vec![declaration("x", false, Type::Int, Expression::Literal(Literal::Int(70000)))]
    );
}

#[test]
fn declared_int_holds_a_small_number() {
    let nodes = parse(vec![
        ident("x"),
        tok(TokenType::Colon, ":"),
        ident("int"),
        tok(TokenType::Eq, "="),
        num("5"),
        semi(),
    ])
    .unwrap();
    assert_eq!(
        nodes,
        vec![declaration("x", false, Type::Int, Expression::Literal(Literal::Int(5)))]
    );
}

#[test]
fn end_of_input_adds_the_null_marker() {
    let nodes = parse(vec![
        ident("x"),
        tok(TokenType::ColonEq, ":="),
        num("5"),
        semi(),
        tok(TokenType::EOF, ""),
    ])
    .unwrap();
    assert_eq!(nodes.len(), 2);
    assert_eq!(nodes[1], Ast::Expression(Expression::Literal(Literal::Null)));
    assert_eq!(
        nodes[0],
        declaration("x", false, Type::Short, Expression::Literal(Literal::Short(5)))
    );
}

#[test]
fn nothing_is_read_behind_the_end_of_input() {
    let nodes = parse(vec![tok(TokenType::EOF, ""), tok(TokenType::RBrace, "}")]).unwrap();
    assert_eq!(nodes, vec![Ast::Expression(Expression::Literal(Literal::Null))]);
}

#[test]
fn import_of_a_path_that_is_no_string_is_fatal() {
    let result = parse(vec![tok(TokenType::Import, "import"), ident("not_a_string_literal"), semi()]);
    match result {
        Err(ParseFailure::Fatal(e)) => {
            assert_eq!(e.message, "expected string for import path but found 'identifier'");
            assert_eq!(e.error_type, ErrorType::ParseError);
        }
        other => panic!("expected a fatal failure, got {:?}", other),
    }
}

#[test]
fn fatal_failure_leaves_the_parser_unchanged_and_parse_spends_it() {
    let tokens = vec![tok(TokenType::Import, "import"), ident("oops"), semi()];
    let mut parser = Parser::new(tokens.clone());
    assert!(parser.parse_import().is_err());
    assert_eq!(parser.tokens, tokens);
    assert!(parser.nodes.is_empty());
    assert!(parser.parse().is_err());
    assert!(parser.tokens.is_empty());
    assert!(parser.nodes.is_empty());
    assert!(parser.errors.is_empty());
}

#[test]
fn import_of_a_library_path() {
    let nodes = parse(vec![tok(TokenType::Import, "import"), tok(TokenType::String, "std/io"), semi()])
        .unwrap();
    assert_eq!(
        nodes,
        vec![Ast::Statement(Statement::ImportPath { path: "std/io".to_string(), is_library: true })]
    );
}

#[test]
fn import_of_another_path() {
    let nodes =
        parse(vec![tok(TokenType::Import, "import"), tok(TokenType::String, "lib/util"), semi()])
            .unwrap();
    assert_eq!(
        nodes,
        vec![Ast::Statement(Statement::ImportPath {
            path: "lib/util".to_string(),
            is_library: false
        })]
    );
}

#[test]
fn import_at_the_end_of_the_input_is_fatal() {
    match parse(vec![tok_at(TokenType::Import, "import", 7)]) {
        Err(ParseFailure::Fatal(e)) => {
            assert_eq!(e.message, "unexpected EOF");
            assert_eq!(e.line, 7);
        }
        other => panic!("expected a fatal failure, got {:?}", other),
    }
}

#[test]
fn call_with_a_string_argument() {
    let nodes = parse(vec![
        ident("print"),
        tok(TokenType::LParen, "("),
        tok(TokenType::String, "hello"),
        tok(TokenType::RParen, ")"),
        semi(),
    ])
    .unwrap();
    assert_eq!(
        nodes,
        vec![Ast::Expression(Expression::CallExpr {
            name: "print".to_string(),
            params: vec![Expression::Literal(Literal::StringLiteral("hello".to_string()))],
        })]
    );
}

#[test]
fn call_with_several_arguments() {
    let nodes = parse(vec![
        ident("f"),
        tok(TokenType::LParen, "("),
        ident("a"),
        tok(TokenType::Comma, ","),
        num("2"),
        tok(TokenType::Mul, "*"),
        num("3"),
        tok(TokenType::Comma, ","),
        tok(TokenType::String, "s"),
        tok(TokenType::RParen, ")"),
    ])
    .unwrap();
    assert_eq!(
        nodes,
        vec![Ast::Expression(Expression::CallExpr {
            name: "f".to_string(),
            params: vec![
                Expression::Identifier("a".to_string()),
                Expression::Literal(Literal::Short(6)),
                Expression::Literal(Literal::StringLiteral("s".to_string())),
            ],
        })]
    );
}

#[test]
fn call_without_arguments() {
    let nodes =
        parse(vec![ident("f"), tok(TokenType::LParen, "("), tok(TokenType::RParen, ")")]).unwrap();
    assert_eq!(
        nodes,
        vec![Ast::Expression(Expression::CallExpr { name: "f".to_string(), params: vec![] })]
    );
}

#[test]
fn call_with_a_token_that_is_no_argument_is_fatal() {
    let result = parse(vec![
        ident("f"),
        tok(TokenType::LParen, "("),
        tok(TokenType::LBrace, "{"),
        tok(TokenType::RParen, ")"),
    ]);
    match result {
        Err(ParseFailure::Fatal(e)) => assert_eq!(e.message, "`{` cannot be an argument"),
        other => panic!("expected a fatal failure, got {:?}", other),
    }
}

#[test]
fn call_that_is_not_closed_is_fatal() {
    let result = parse(vec![ident("f"), tok(TokenType::LParen, "("), ident("a")]);
    match result {
        Err(ParseFailure::Fatal(e)) => assert_eq!(e.message, "unexpected EOF"),
        other => panic!("expected a fatal failure, got {:?}", other),
    }
}

#[test]
fn call_with_a_wrong_separator_is_fatal() {
    let result = parse(vec![
        ident("f"),
        tok(TokenType::LParen, "("),
        tok(TokenType::String, "a"),
        semi(),
    ]);
    match result {
        Err(ParseFailure::Fatal(e)) => {
            assert_eq!(e.message, "Expected ',' or ')' after argument but found ';'")
        }
        other => panic!("expected a fatal failure, got {:?}", other),
    }
}

#[test]
fn reassignment_is_not_implemented() {
    let result = parse(vec![ident("x"), tok(TokenType::Eq, "="), num("5"), semi()]);
    match result {
        Err(ParseFailure::NotImplemented(e)) => {
            assert_eq!(e.message, "Reassignment of 'x' is not implemented")
        }
        other => panic!("expected a not-implemented failure, got {:?}", other),
    }
}

#[test]
fn identifier_followed_by_something_else_is_not_implemented() {
    let result = parse(vec![ident("x"), tok(TokenType::Gt, ">"), num("5"), semi()]);
    match result {
        Err(ParseFailure::NotImplemented(e)) => assert_eq!(
            e.message,
            "Statements that start with 'x' followed by '>' are not implemented"
        ),
        other => panic!("expected a not-implemented failure, got {:?}", other),
    }
}

#[test]
fn lone_identifier_is_fatal() {
    match parse(vec![ident("x")]) {
        Err(ParseFailure::Fatal(e)) => assert_eq!(e.message, "unexpected EOF"),
        other => panic!("expected a fatal failure, got {:?}", other),
    }
}

#[test]
fn unknown_leading_token_is_fatal() {
    match parse(vec![tok_at(TokenType::RBrace, "}", 3), semi()]) {
        Err(ParseFailure::Fatal(e)) => {
            assert_eq!(e.message, "incomplete: no statement starts with '}' (})");
            assert_eq!(e.line, 3);
        }
        other => panic!("expected a fatal failure, got {:?}", other),
    }
}

#[test]
fn semicolons_alone_make_no_node() {
    assert_eq!(parse(vec![semi(), semi()]).unwrap(), vec![]);
}

#[test]
fn empty_input_makes_no_node() {
    assert_eq!(parse(vec![]).unwrap(), vec![]);
}

#[test]
fn product_is_made_before_sum() {
    let nodes = parse(vec![
        ident("x"),
        tok(TokenType::ColonEq, ":="),
        num("2"),
        tok(TokenType::Add, "+"),
        num("3"),
        tok(TokenType::Mul, "*"),
        num("4"),
        semi(),
    ])
    .unwrap();
    assert_eq!(
        nodes,
        vec![declaration("x", false, Type::Short, Expression::Literal(Literal::Short(14)))]
    );
}

#[test]
fn nested_tuple_type_is_an_error() {
    let result = parse(vec![
        ident("x"),
        tok(TokenType::Colon, ":"),
        tok(TokenType::LParen, "("),
        ident("int"),
        tok(TokenType::Comma, ","),
        tok_at(TokenType::LParen, "(", 2),
        ident("int"),
        tok(TokenType::Comma, ","),
        ident("int"),
        tok(TokenType::RParen, ")"),
        tok(TokenType::RParen, ")"),
        tok(TokenType::Eq, "="),
        ident("y"),
        semi(),
    ]);
    let errors = errors_of(result);
    assert_eq!(errors.len(), 1);
    assert_eq!(errors[0].message, "Tuple types cannot contain tuple types");
    assert_eq!(errors[0].line, 2);
}

#[test]
fn tuple_type_of_plain_elements() {
    let nodes = parse(vec![
        ident("x"),
        tok(TokenType::Colon, ":"),
        tok(TokenType::LParen, "("),
        ident("int"),
        tok(TokenType::Comma, ","),
        ident("string"),
        tok(TokenType::RParen, ")"),
        tok(TokenType::Eq, "="),
        ident("y"),
        semi(),
    ])
    .unwrap();
    assert_eq!(
        nodes,
        vec![declaration(
            "x",
            false,
            Type::Tuple(vec![Type::Int, Type::String]),
            Expression::Identifier("y".to_string())
        )]
    );
}

#[test]
fn unknown_type_gives_up_the_declaration_only() {
    let result = parse(vec![
        ident("x"),
        tok(TokenType::Colon, ":"),
        ident("quux"),
        tok(TokenType::Eq, "="),
        num("1"),
        semi(),
        ident("y"),
        tok(TokenType::Colon, ":"),
        ident("short"),
        tok(TokenType::Eq, "="),
        num("40000"),
        semi(),
    ]);
    let errors = errors_of(result);
    assert_eq!(errors.len(), 2);
    assert_eq!(errors[0].message, "Unknown type 'quux'");
    assert_eq!(
        errors[1].message,
        "Value cannot be represented as 'short' without loss of precision"
    );
}

#[test]
fn second_declaration_of_a_variable_is_an_error() {
    let mut parser = Parser::new(vec![
        ident("x"),
        tok(TokenType::ColonEq, ":="),
        num("1"),
        semi(),
        tok_at(TokenType::Identifier, "x", 2),
        tok(TokenType::ColonEq, ":="),
        num("2"),
        semi(),
    ]);
    assert_eq!(parser.variable_assignment(false, None, false), None);
    assert_eq!(parser.nodes.len(), 1);
    assert_eq!(parser.variable_assignment(false, None, false), None);
    assert_eq!(
        parser.nodes,
        vec![declaration("x", false, Type::Short, Expression::Literal(Literal::Short(1)))]
    );
    assert_eq!(parser.errors.len(), 1);
    assert_eq!(parser.errors[0].message, "Variable with name 'x' already exists");
    assert_eq!(parser.errors[0].line, 2);
    assert!(parser.tokens.is_empty());
}

#[test]
fn constants_may_share_a_name() {
    let nodes = parse(vec![
        tok(TokenType::Immut, "immut"),
        ident("x"),
        tok(TokenType::ColonEq, ":="),
        num("1"),
        semi(),
        tok(TokenType::Immut, "immut"),
        ident("x"),
        tok(TokenType::Eq, "="),
        tok(TokenType::True, "true"),
        semi(),
    ])
    .unwrap();
    assert_eq!(
        nodes,
        vec![
            declaration("x", true, Type::Short, Expression::Literal(Literal::Short(1))),
            declaration("x", true, Type::Bool, Expression::Literal(Literal::Bool(true))),
        ]
    );
}

#[test]
fn let_declares_a_variable() {
    let nodes = parse(vec![
        tok(TokenType::Let, "let"),
        ident("s"),
        tok(TokenType::Colon, ":"),
        ident("string"),
        tok(TokenType::Eq, "="),
        tok(TokenType::String, "hi"),
        semi(),
    ])
    .unwrap();
    assert_eq!(
        nodes,
        vec![declaration(
            "s",
            false,
            Type::String,
            Expression::Literal(Literal::StringLiteral("hi".to_string()))
        )]
    );
}

#[test]
fn missing_semicolon_is_recorded_and_parsing_goes_on() {
    let result = parse(vec![
        ident("x"),
        tok(TokenType::ColonEq, ":="),
        num("1"),
        tok_at(TokenType::Identifier, "y", 2),
        tok(TokenType::ColonEq, ":="),
        tok(TokenType::False, "false"),
    ]);
    let errors = errors_of(result);
    assert_eq!(errors.len(), 2);
    assert_eq!(errors[0].message, "Expected semicolon following variable 'x'");
    assert_eq!(errors[0].line, 2);
    assert_eq!(errors[1].message, "Expected semicolon following variable 'y'");
}

#[test]
fn type_mismatch_of_a_boolean() {
    let result = parse(vec![
        ident("x"),
        tok(TokenType::Colon, ":"),
        ident("int"),
        tok(TokenType::Eq, "="),
        tok(TokenType::True, "true"),
        semi(),
    ]);
    let errors = errors_of(result);
    assert_eq!(errors.len(), 1);
    assert_eq!(errors[0].message, "Expected type 'int' but found 'bool'");
}

#[test]
fn keyword_inside_an_expression() {
    let result = parse(vec![
        ident("x"),
        tok(TokenType::ColonEq, ":="),
        num("1"),
        tok(TokenType::Add, "+"),
        tok(TokenType::Function, "function"),
        semi(),
    ]);
    let errors = errors_of(result);
    assert_eq!(errors.len(), 1);
    assert_eq!(errors[0].message, "Expected ';' after expression, found keyword 'function'");
}

#[test]
fn string_whose_text_is_a_reserved_word_is_no_keyword() {
    let result = parse(vec![
        ident("x"),
        tok(TokenType::ColonEq, ":="),
        num("1"),
        tok(TokenType::Add, "+"),
        tok(TokenType::String, "let"),
        semi(),
    ]);
    let errors = errors_of(result);
    assert_eq!(errors.len(), 1);
    assert_eq!(errors[0].message, "Malformed expression");
}

#[test]
fn last_keyword_in_an_expression_is_named() {
    let result = parse(vec![
        ident("x"),
        tok(TokenType::ColonEq, ":="),
        num("1"),
        tok(TokenType::Add, "+"),
        tok(TokenType::Let, "let"),
        tok(TokenType::True, "true"),
        semi(),
    ]);
    let errors = errors_of(result);
    assert_eq!(errors.len(), 1);
    assert_eq!(errors[0].message, "Expected ';' after expression, found keyword 'true'");
}

#[test]
fn malformed_expression() {
    let result = parse(vec![
        ident("x"),
        tok(TokenType::ColonEq, ":="),
        num("1"),
        tok(TokenType::Add, "+"),
        tok(TokenType::Add, "+"),
        num("2"),
        semi(),
    ]);
    let errors = errors_of(result);
    assert_eq!(errors.len(), 1);
    assert_eq!(errors[0].message, "Malformed expression");
}

#[test]
fn invalid_number() {
    let result = parse(vec![ident("x"), tok(TokenType::ColonEq, ":="), num("1.2.3"), semi()]);
    let errors = errors_of(result);
    assert_eq!(errors[0].message, "Invalid numeric literal '1.2.3'");
}

#[test]
fn value_that_is_no_value() {
    let result =
        parse(vec![ident("x"), tok(TokenType::ColonEq, ":="), tok(TokenType::Comma, ","), semi()]);
    let errors = errors_of(result);
    assert_eq!(errors.len(), 1);
    assert_eq!(errors[0].message, "Cannot assign items of type , to variables");
}

#[test]
fn expression_with_an_identifier_stays_symbolic() {
    let nodes = parse(vec![
        ident("x"),
        tok(TokenType::ColonEq, ":="),
        num("2"),
        tok(TokenType::Mul, "*"),
        num("3"),
        tok(TokenType::Add, "+"),
        ident("y"),
        semi(),
    ])
    .unwrap();
    assert_eq!(
        nodes,
        vec![declaration(
            "x",
            false,
            Type::Void,
            Expression::BinaryOp {
                lhs: Box::new(Expression::Literal(Literal::Short(6))),
                rhs: Box::new(Expression::Identifier("y".to_string())),
                operator: TokenType::Add,
            }
        )]
    );
}

#[test]
fn function_declaration_with_parameters_and_return_type() {
    let nodes = parse(vec![
        tok(TokenType::Function, "function"),
        ident("add"),
        tok(TokenType::LParen, "("),
        ident("a"),
        tok(TokenType::Colon, ":"),
        ident("int"),
        tok(TokenType::Comma, ","),
        ident("b"),
        tok(TokenType::Colon, ":"),
        ident("float"),
        tok(TokenType::RParen, ")"),
        tok(TokenType::Gt, ">"),
        ident("large"),
        tok(TokenType::LBrace, "{"),
        ident("a"),
        tok(TokenType::LBrace, "{"),
        tok(TokenType::RBrace, "}"),
        tok(TokenType::RBrace, "}"),
    ])
    .unwrap();
    let null = || Ast::Expression(Expression::Literal(Literal::Null));
    assert_eq!(
        nodes,
        vec![Ast::Statement(Statement::Function {
            name: "add".to_string(),
            params: vec![("a".to_string(), Type::Int), ("b".to_string(), Type::Float)],
            ret_type: Type::Large,
            body: vec![null(), null(), null()],
        })]
    );
}

#[test]
fn function_declaration_without_return_type() {
    let nodes = parse(vec![
        tok(TokenType::Function, "function"),
        ident("f"),
        tok(TokenType::LParen, "("),
        tok(TokenType::RParen, ")"),
        tok(TokenType::LBrace, "{"),
        tok(TokenType::RBrace, "}"),
        semi(),
    ])
    .unwrap();
    assert_eq!(
        nodes,
        vec![Ast::Statement(Statement::Function {
            name: "f".to_string(),
            params: vec![],
            ret_type: Type::Void,
            body: vec![],
        })]
    );
}

#[test]
fn function_errors_drop_the_remaining_tokens() {
    let cases: Vec<(Vec<Token>, &str)> = vec![
        (
            vec![tok(TokenType::Function, "function")],
            "Unexpected end of input while parsing function declaration",
        ),
        (
            vec![tok(TokenType::Function, "function"), num("1"), ident("x"), semi()],
            "Cannot declare function with name of type number",
        ),
        (
            vec![tok(TokenType::Function, "function"), ident("f")],
            "Unexpected end of tokens while parsing parameters for function 'f'",
        ),
        (
            vec![tok(TokenType::Function, "function"), ident("f"), semi(), ident("x"), semi()],
            "Expected '(' after function name, found ';' for function 'f'",
        ),
        (
            vec![
                tok(TokenType::Function, "function"),
                ident("f"),
                tok(TokenType::LParen, "("),
                ident("a"),
                ident("int"),
            ],
            "Expected type to follow parameter, but found 'int' for function 'f'",
        ),
        (
            vec![
                tok(TokenType::Function, "function"),
                ident("f"),
                tok(TokenType::LParen, "("),
                ident("a"),
                tok(TokenType::Colon, ":"),
            ],
            "Expected parameter type after ':'",
        ),
        (
            vec![
                tok(TokenType::Function, "function"),
                ident("f"),
                tok(TokenType::LParen, "("),
                ident("a"),
                tok(TokenType::Colon, ":"),
                ident("nope"),
                tok(TokenType::RParen, ")"),
            ],
            "Unknown type 'nope'",
        ),
        (
            vec![
                tok(TokenType::Function, "function"),
                ident("f"),
                tok(TokenType::LParen, "("),
                ident("a"),
                tok(TokenType::Colon, ":"),
                ident("int"),
                semi(),
            ],
            "Unexpected token ';' while parsing parameters for function 'f'",
        ),
        (
            vec![
                tok(TokenType::Function, "function"),
                ident("f"),
                tok(TokenType::LParen, "("),
                tok(TokenType::RParen, ")"),
            ],
            "Unexpected end of tokens while parsing return type for function 'f'",
        ),
        (
            vec![
                tok(TokenType::Function, "function"),
                ident("f"),
                tok(TokenType::LParen, "("),
                tok(TokenType::RParen, ")"),
                tok(TokenType::Gt, ">"),
            ],
            "Expected return type after '>' for function 'f'",
        ),
        (
            vec![
                tok(TokenType::Function, "function"),
                ident("f"),
                tok(TokenType::LParen, "("),
                tok(TokenType::RParen, ")"),
                ident("oops"),
            ],
            "Expected either '>' or '{' when parsing function 'f', but found oops",
        ),
        (
            vec![
                tok(TokenType::Function, "function"),
                ident("f"),
                tok(TokenType::LParen, "("),
                tok(TokenType::RParen, ")"),
                tok(TokenType::Gt, ">"),
                ident("int"),
                semi(),
                ident("x"),
                tok(TokenType::ColonEq, ":="),
            ],
            "Expected '{' to start function body, found ';'",
        ),
        (
            vec![
                tok(TokenType::Function, "function"),
                ident("f"),
                tok(TokenType::LParen, "("),
                tok(TokenType::RParen, ")"),
                tok(TokenType::LBrace, "{"),
                tok(TokenType::LBrace, "{"),
                tok(TokenType::RBrace, "}"),
            ],
            "Unexpected end of tokens while parsing function body",
        ),
    ];
    for (tokens, message) in cases {
        let mut parser = Parser::new(tokens);
        parser.function_declaration();
        assert_eq!(parser.errors.len(), 1, "{}", message);
        assert_eq!(parser.errors[0].message, message);
        assert!(parser.tokens.is_empty());
        assert!(parser.nodes.is_empty());
        assert_eq!(parser.cursor, 0);
    }
}

#[test]
fn declaration_in_a_function_body_is_handed_back() {
    let tokens = vec![
        semi(),
        ident("x"),
        tok(TokenType::ColonEq, ":="),
        num("1.50"),
        semi(),
        ident("rest"),
    ];
    let mut parser = Parser::new(tokens.clone());
    let statement = parser.variable_assignment(false, Some(1), true);
    match statement {
        Some(Statement::VariableAssignment { name, constant, var_type, value }) => {
            assert_eq!(name, "x");
            assert!(!constant);
            assert_eq!(var_type, Type::Float);
            match value {
                Expression::Literal(lit) => assert_eq!(lit.to_string(), "1.5"),
                other => panic!("expected a literal, got {:?}", other),
            }
        }
        other => panic!("expected a declaration, got {:?}", other),
    }
    assert_eq!(parser.cursor, 5);
    assert_eq!(parser.tokens, tokens);
    assert!(parser.nodes.is_empty());
    assert!(parser.errors.is_empty());
}

#[test]
fn parse_literal_moves_the_cursor_to_the_last_token_of_the_value() {
    let tokens = vec![num("1"), tok(TokenType::Sub, "-"), num("4"), semi()];
    let mut parser = Parser::new(tokens.clone());
    let (value, ty) = parser.parse_literal(tokens[0].clone(), &Type::Void, true);
    assert_eq!(value, Expression::Literal(Literal::Short(-3)));
    assert_eq!(ty, Some(Type::Short));
    assert_eq!(parser.cursor, 2);
    assert!(parser.errors.is_empty());
}

#[test]
fn parse_literal_reports_a_mismatch_and_keeps_the_literal() {
    let tokens = vec![tok_at(TokenType::String, "abc", 4)];
    let mut parser = Parser::new(tokens.clone());
    let (value, ty) = parser.parse_literal(tokens[0].clone(), &Type::Bool, false);
    assert_eq!(value, Expression::Literal(Literal::StringLiteral("abc".to_string())));
    assert_eq!(ty, None);
    assert_eq!(parser.errors.len(), 1);
    assert_eq!(parser.errors[0].message, "Expected type 'bool' but found 'string'");
    assert_eq!(parser.errors[0].line, 4);
    assert_eq!(parser.cursor, 0);
}

#[test]
fn expect_records_an_error_for_another_token() {
    let mut parser = Parser::new(vec![tok_at(TokenType::Comma, ",", 9)]);
    parser.expect(TokenType::Comma, 0, "no comma".to_string());
    assert!(parser.errors.is_empty());
    parser.expect(TokenType::Semicolon, 0, "no semicolon".to_string());
    parser.expect(TokenType::Semicolon, 5, "nothing there".to_string());
    assert_eq!(parser.errors.len(), 2);
    assert_eq!(parser.errors[0], VeloError::error(9, "no semicolon", ErrorType::ParseError));
    assert_eq!(parser.errors[1], VeloError::error(9, "nothing there", ErrorType::ParseError));
}

#[test]
fn throw_error_records_the_line_and_throw_error_ref_does_not() {
    let mut parser = Parser::new(vec![]);
    parser.throw_error(3, "first".to_string());
    parser.throw_error_ref(&4, "second".to_string());
    assert_eq!(
        parser.errors,
        vec![
            VeloError::error(3, "first", ErrorType::ParseError),
            VeloError::error(0, "second", ErrorType::ParseError),
        ]
    );
}

#[test]
fn parse_var_name_of_a_variable_and_of_a_constant() {
    let mut parser = Parser::new(vec![tok(TokenType::Immut, "immut"), ident("x")]);
    assert_eq!(parser.parse_var_name(true, false), "x");
    assert_eq!(parser.cursor, 1);
    assert_eq!(parser.parse_var_name(false, false), "x");
    assert_eq!(parser.cursor, 1);
}

#[test]
fn declaration_that_starts_behind_the_tokens() {
    let mut parser = Parser::new(vec![ident("x"), tok(TokenType::ColonEq, ":=")]);
    assert_eq!(parser.variable_assignment(false, Some(100), false), None);
    assert_eq!(parser.errors.len(), 1);
    assert_eq!(parser.errors[0].message, "Unexpected end of input in variable declaration");
    assert_eq!(parser.errors[0].line, 0);
    assert!(parser.tokens.is_empty());
    assert_eq!(parser.cursor, 0);
}

#[test]
fn declaration_that_ends_too_early() {
    for tokens in [
        vec![tok(TokenType::Let, "let")],
        vec![ident("x")],
        vec![ident("x"), tok(TokenType::ColonEq, ":=")],
        vec![ident("x"), tok(TokenType::Colon, ":")],
        vec![ident("x"), tok(TokenType::Colon, ":"), ident("int")],
        vec![ident("x"), tok(TokenType::Colon, ":"), ident("int"), tok(TokenType::Eq, "=")],
        vec![ident("x"), tok(TokenType::Colon, ":"), tok(TokenType::LParen, "(")],
        vec![ident("x"), tok(TokenType::Colon, ":"), tok(TokenType::LParen, "("), ident("int")],
    ] {
        let mut parser = Parser::new(tokens);
        assert_eq!(parser.variable_assignment(false, None, false), None);
        assert_eq!(parser.errors.len(), 1);
        assert_eq!(parser.errors[0].message, "Unexpected end of input in variable declaration");
        assert!(parser.tokens.is_empty());
        assert!(parser.nodes.is_empty());
    }
}

#[test]
fn declaration_with_an_error_in_a_function_body_keeps_the_tokens() {
    let tokens = vec![
        ident("x"),
        tok(TokenType::Colon, ":"),
        ident("nope"),
        tok(TokenType::Eq, "="),
        num("1"),
        semi(),
        ident("y"),
    ];
    let mut parser = Parser::new(tokens.clone());
    assert_eq!(parser.variable_assignment(false, None, true), None);
    assert_eq!(parser.tokens, tokens);
    assert_eq!(parser.cursor, 6);
    assert_eq!(parser.errors.len(), 1);
    assert_eq!(parser.errors[0].message, "Unknown type 'nope'");
}

#[test]
fn declaration_without_a_name_or_a_binding() {
    let mut parser = Parser::new(vec![
        tok(TokenType::Immut, "immut"),
        num("1"),
        tok(TokenType::Eq, "="),
        num("2"),
        semi(),
        ident("x"),
        tok(TokenType::Comma, ","),
        semi(),
        ident("y"),
        tok(TokenType::Colon, ":"),
        ident("int"),
        num("3"),
        semi(),
        ident("z"),
        tok(TokenType::Colon, ":"),
        tok(TokenType::LParen, "("),
        ident("int"),
        ident("int"),
        tok(TokenType::RParen, ")"),
        semi(),
    ]);
    assert_eq!(parser.variable_assignment(true, None, false), None);
    assert_eq!(parser.tokens.len(), 15);
    assert_eq!(parser.variable_assignment(false, None, false), None);
    assert_eq!(parser.tokens.len(), 12);
    assert_eq!(parser.variable_assignment(false, None, false), None);
    assert_eq!(parser.tokens.len(), 7);
    assert_eq!(parser.variable_assignment(false, None, false), None);
    assert!(parser.tokens.is_empty());
    let messages: Vec<&str> = parser.errors.iter().map(|e| e.message.as_str()).collect();
    assert_eq!(
        messages,
        vec![
            "Expected a variable name but found 'number'",
            "Expected ':=', '=' or ':' after variable 'x' but found ','",
            "Expected ':=', '=' or ':' after variable 'y' but found 'number'",
            "Expected ',' or ')' in tuple type but found 'identifier'",
        ]
    );
    assert!(parser.nodes.is_empty());
}

#[test]
fn declared_float_holds_any_number() {
    let mut parser = Parser::new(vec![
        ident("x"),
        tok(TokenType::Colon, ":"),
        ident("float"),
        tok(TokenType::Eq, "="),
        num("3"),
        semi(),
    ]);
    parser.variable_assignment(false, None, false);
    assert!(parser.errors.is_empty());
    match &parser.nodes[0] {
        Ast::Statement(Statement::VariableAssignment { var_type, value, .. }) => {
            assert_eq!(var_type, &Type::Float);
            match value {
                Expression::Literal(Literal::Float(d)) => assert_eq!(d.to_text(), "3"),
                other => panic!("expected a float, got {:?}", other),
            }
        }
        other => panic!("expected a declaration, got {:?}", other),
    }
}

#[test]
fn declared_type_goes_with_an_expression_of_identifiers() {
    let nodes = parse(vec![
        ident("x"),
        tok(TokenType::Colon, ":"),
        ident("large"),
        tok(TokenType::Eq, "="),
        ident("a"),
        tok(TokenType::Div, "/"),
        ident("b"),
        semi(),
    ])
    .unwrap();
    assert_eq!(
        nodes,
        vec![declaration(
            "x",
            false,
            Type::Large,
            Expression::BinaryOp {
                lhs: Box::new(Expression::Identifier("a".to_string())),
                rhs: Box::new(Expression::Identifier("b".to_string())),
                operator: TokenType::Div,
            }
        )]
    );
}

#[test]
fn folded_value_must_fit_the_declared_type() {
    let result = parse(vec![
        ident("x"),
        tok(TokenType::Colon, ":"),
        ident("short"),
        tok(TokenType::Eq, "="),
        num("200"),
        tok(TokenType::Mul, "*"),
        num("200"),
        semi(),
    ]);
    let errors = errors_of(result);
    assert_eq!(errors.len(), 1);
    assert_eq!(
        errors[0].message,
        "Value cannot be represented as 'short' without loss of precision"
    );
}

#[test]
fn call_keeps_the_errors_of_its_arguments() {
    let mut parser = Parser::new(vec![
        ident("f"),
        tok(TokenType::LParen, "("),
        num("1.2.3"),
        tok(TokenType::Comma, ","),
        num("1"),
        tok(TokenType::Add, "+"),
        tok(TokenType::Mul, "*"),
        tok(TokenType::RParen, ")"),
        semi(),
    ]);
    assert!(parser.call_expr().is_ok());
    assert_eq!(
        parser.nodes,
        vec![Ast::Expression(Expression::CallExpr {
            name: "f".to_string(),
            params: vec![
                Expression::Literal(Literal::Null),
                Expression::Literal(Literal::Null)
            ],
        })]
    );
    let messages: Vec<&str> = parser.errors.iter().map(|e| e.message.as_str()).collect();
    assert_eq!(messages, vec!["Invalid numeric literal '1.2.3'", "Malformed expression"]);
    assert_eq!(parser.tokens, vec![semi()]);
    assert!(parser.parse().is_err());
}

#[test]
fn fatal_call_leaves_the_parser_as_it_was() {
    let tokens = vec![ident("f"), tok(TokenType::LParen, "("), num("x1"), tok(TokenType::Eq, "=")];
    let mut parser = Parser::new(tokens.clone());
    let error = parser.call_expr().unwrap_err();
    assert_eq!(error.message, "Expected ',' or ')' after argument but found '='");
    assert_eq!(parser.tokens, tokens);
    assert!(parser.errors.is_empty());
    assert!(parser.nodes.is_empty());
    let mut parser = Parser::new(vec![ident("f"), semi()]);
    assert_eq!(
        parser.call_expr().unwrap_err().message,
        "Expected '(' after function name but found ';'"
    );
    let mut parser = Parser::new(vec![]);
    assert_eq!(parser.call_expr().unwrap_err().message, "unexpected EOF");
}

#[test]
fn parse_starts_at_the_front_whatever_the_cursor_is() {
    let mut parser = Parser::new(vec![ident("x"), tok(TokenType::ColonEq, ":="), num("1"), semi()]);
    parser.cursor = 3;
    let nodes = parser.parse().unwrap();
    assert_eq!(
        nodes,
        vec![declaration("x", false, Type::Short, Expression::Literal(Literal::Short(1)))]
    );
}

#[test]
fn statements_keep_their_order() {
    let nodes = parse(vec![
        ident("b"),
        tok(TokenType::ColonEq, ":="),
        num("1"),
        semi(),
        ident("f"),
        tok(TokenType::LParen, "("),
        tok(TokenType::RParen, ")"),
        semi(),
        ident("a"),
        tok(TokenType::ColonEq, ":="),
        num("2"),
        semi(),
    ])
    .unwrap();
    assert_eq!(
        nodes,
        vec![
            declaration("b", false, Type::Short, Expression::Literal(Literal::Short(1))),
            Ast::Expression(Expression::CallExpr { name: "f".to_string(), params: vec![] }),
            declaration("a", false, Type::Short, Expression::Literal(Literal::Short(2))),
        ]
    );
}
