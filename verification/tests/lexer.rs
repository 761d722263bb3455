use velo::ast::{Ast, Expression, Literal, Statement};
use velo::error::ParseFailure;
use velo::lexer::tokenize;
use velo::parse::Parser;
use velo::token::{Token, TokenType};
use velo::types::Type;

fn classes(text: &str) -> Vec<TokenType> {
    tokenize(text).iter().map(|t| t.token_type).collect()
}

fn lexemes(text: &str) -> Vec<String> {
    tokenize(text).iter().map(|t| t.lexeme.clone()).collect()
}

fn lines(text: &str) -> Vec<usize> {
    tokenize(text).iter().map(|t| t.line_num).collect()
}

fn run(text: &str) -> Result<Vec<Ast>, ParseFailure> {
    Parser::new(tokenize(text)).parse()
}

fn null() -> Ast {
    Ast::Expression(Expression::Literal(Literal::Null))
}

#[test]
fn empty_text_has_the_end_token_only() {
    assert_eq!(tokenize(""), vec![Token::new(TokenType::EOF, String::new(), 1)]);
    assert_eq!(tokenize(" \t\r\n\n "), vec![Token::new(TokenType::EOF, String::new(), 3)]);
}

#[test]
fn tokens_of_a_declaration() {
    assert_eq!(
        tokenize("x := 5;"),
        vec![
            Token::new(TokenType::Identifier, "x".to_string(), 1),
            Token::new(TokenType::ColonEq, ":=".to_string(), 1),
            Token::new(TokenType::NumericLiteral, "5".to_string(), 1),
            Token::new(TokenType::Semicolon, ";".to_string(), 1),
            Token::new(TokenType::EOF, String::new(), 1),
        ]
    );
}

#[test]
fn every_mark_has_its_class() {
    assert_eq!(
        classes("(){}:,;=>.+-*/:="),
        vec![
            TokenType::LParen,
            TokenType::RParen,
            TokenType::LBrace,
            TokenType::RBrace,
            TokenType::Colon,
            TokenType::Comma,
            TokenType::Semicolon,
            TokenType::Eq,
            TokenType::Gt,
            TokenType::Dot,
            TokenType::Add,
            TokenType::Sub,
            TokenType::Mul,
            TokenType::Div,
            TokenType::ColonEq,
            TokenType::EOF,
        ]
    );
    assert_eq!(classes(": ="), vec![TokenType::Colon, TokenType::Eq, TokenType::EOF]);
}

#[test]
fn words_are_reserved_words_or_identifiers() {
    assert_eq!(
        classes("import immut let function true false imports _x x1 int[] Let"),
        vec![
            TokenType::Import,
            TokenType::Immut,
            TokenType::Let,
            TokenType::Function,
            TokenType::True,
            TokenType::False,
            TokenType::Identifier,
            TokenType::Identifier,
            TokenType::Identifier,
            TokenType::Identifier,
            TokenType::Identifier,
            TokenType::EOF,
        ]
    );
    assert_eq!(lexemes("int[][] x[ y"), vec!["int[][]", "x", "[", "y", ""]);
    assert_eq!(classes("x[")[1], TokenType::Null);
}

#[test]
fn numbers_take_a_point_only_before_a_digit() {
    assert_eq!(lexemes("12 3.5 4. .5 1.2.3 7x"), vec![
        "12", "3.5", "4", ".", ".", "5", "1.2", ".", "3", "7", "x", ""
    ]);
    assert_eq!(classes("3.5"), vec![TokenType::NumericLiteral, TokenType::EOF]);
}

#[test]
fn strings_hold_what_stands_between_the_quotes() {
    assert_eq!(
        tokenize("print(\"héllo, wörld\")"),
        vec![
            Token::new(TokenType::Identifier, "print".to_string(), 1),
            Token::new(TokenType::LParen, "(".to_string(), 1),
            Token::new(TokenType::String, "héllo, wörld".to_string(), 1),
            Token::new(TokenType::RParen, ")".to_string(), 1),
            Token::new(TokenType::EOF, String::new(), 1),
        ]
    );
    assert_eq!(lexemes("\"\" \"a"), vec!["", "a", ""]);
    assert_eq!(lexemes("\"ab\ncd\""), vec!["ab", "cd", "", ""]);
    assert_eq!(lines("\"ab\ncd\""), vec![1, 2, 2, 2]);
}

#[test]
fn number_tokens_read_as_numbers() {
    for token in tokenize("1 22.5 0.125 7.x 9.9.9 00 1e5") {
        if token.token_type == TokenType::NumericLiteral {
            assert!(velo::decimal::Decimal::parse(&token.lexeme).is_some(), "{}", token.lexeme);
        }
    }
}

#[test]
fn lines_count_from_one() {
    assert_eq!(lines("a\nb\n\nc d\n"), vec![1, 2, 4, 4, 5]);
}

#[test]
fn unknown_characters_are_null_tokens() {
    assert_eq!(
        tokenize("a ? é"),
        vec![
            Token::new(TokenType::Identifier, "a".to_string(), 1),
            Token::new(TokenType::Null, "?".to_string(), 1),
            Token::new(TokenType::Null, "é".to_string(), 1),
            Token::new(TokenType::EOF, String::new(), 1),
        ]
    );
}

#[test]
fn text_of_a_declaration_parses() {
    assert_eq!(
        run("x := 5;").unwrap(),
        vec![
            Ast::Statement(Statement::VariableAssignment {
                name: "x".to_string(),
                constant: false,
                var_type: Type::Short,
                value: Expression::Literal(Literal::Short(5)),
            }),
            null(),
        ]
    );
}

#[test]
fn text_of_a_program_parses() {
    let nodes = run(
        "import \"std/io\";\nimmut limit: large = 2 * 3 + 4;\nlet half := 7 / 2;\nprint(\"hello\");\nfunction f(a: int, b: int[]) > float { a := 1; }\n",
    )
    .unwrap();
    assert_eq!(nodes.len(), 6);
    assert_eq!(
        nodes[0],
        Ast::Statement(Statement::ImportPath { path: "std/io".to_string(), is_library: true })
    );
    assert_eq!(
        nodes[1],
        Ast::Statement(Statement::VariableAssignment {
            name: "limit".to_string(),
            constant: true,
            var_type: Type::Large,
            value: Expression::Literal(Literal::Large(10)),
        })
    );
    match &nodes[2] {
        Ast::Statement(Statement::VariableAssignment { name, constant, var_type, value }) => {
            assert_eq!(name, "half");
            assert!(!constant);
            assert_eq!(var_type, &Type::Float);
            match value {
                Expression::Literal(lit) => assert_eq!(lit.to_string(), "3.5"),
                other => panic!("expected a literal, got {:?}", other),
            }
        }
        other => panic!("expected a declaration, got {:?}", other),
    }
    assert_eq!(
        nodes[3],
        Ast::Expression(Expression::CallExpr {
            name: "print".to_string(),
            params: vec![Expression::Literal(Literal::StringLiteral("hello".to_string()))],
        })
    );
    assert_eq!(
        nodes[4],
        Ast::Statement(Statement::Function {
            name: "f".to_string(),
            params: vec![
                ("a".to_string(), Type::Int),
                ("b".to_string(), Type::Array(Box::new(Type::Int)))
            ],
            ret_type: Type::Float,
            body: vec![null(), null(), null(), null()],
        })
    );
    assert_eq!(nodes[5], null());
}

#[test]
fn text_with_errors_gives_the_errors_in_order() {
    match run("x : short = 40000;\ny : (int, (int, int)) = z;\nx := 1;\nx := 2;\n") {
        Err(ParseFailure::Errors(errors)) => {
            let found: Vec<(usize, &str)> =
                errors.iter().map(|e| (e.line, e.message.as_str())).collect();
            assert_eq!(
                found,
                vec![
                    (1, "Value cannot be represented as 'short' without loss of precision"),
                    (2, "Tuple types cannot contain tuple types"),
                    (4, "Variable with name 'x' already exists"),
                ]
            );
        }
        other => panic!("expected recorded errors, got {:?}", other),
    }
}

#[test]
fn text_of_an_import_without_a_string_is_fatal() {
    match run("import not_a_string_literal;") {
        Err(ParseFailure::Fatal(e)) => {
            assert_eq!(e.message, "expected string for import path but found 'identifier'")
        }
        other => panic!("expected a fatal failure, got {:?}", other),
    }
}
