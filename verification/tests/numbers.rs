use velo::ast::{Expression, Literal};
use velo::decimal::{int_to_text, Decimal, Scaled};
use velo::fold::fold;
use velo::parse::expression::{combined, leaf_of, parse_expression};
use velo::token::{Token, TokenType};
use velo::types::Type;

fn decimal(text: &str) -> Decimal {
    Decimal::parse(text).unwrap()
}

fn infer(text: &str) -> Literal {
    Literal::narrowest(decimal(text))
}

fn float(text: &str) -> Literal {
    Literal::Float(decimal(text))
}

fn run(words: &[&str]) -> Vec<Token> {
    words
        .iter()
        .map(|w| {
            let class = match *w {
                "+" => TokenType::Add,
                "-" => TokenType::Sub,
                "*" => TokenType::Mul,
                "/" => TokenType::Div,
                w if w.as_bytes()[0].is_ascii_digit() => TokenType::NumericLiteral,
                _ => TokenType::Identifier,
            };
            Token::new(class, w.to_string(), 1)
        })
        .collect()
}

fn evaluate(words: &[&str]) -> Option<Expression> {
    parse_expression(run(words))
}

fn number(lit: Literal) -> Option<Expression> {
    Some(Expression::Literal(lit))
}

#[test]
fn numerals_are_read_in_canonical_form() {
    assert_eq!(decimal("007.500").to_text(), "7.5");
    assert_eq!(decimal("-0.0").to_text(), "0");
    assert_eq!(decimal("0.05").to_text(), "0.05");
    assert_eq!(decimal("-12.340").to_text(), "-12.34");
    assert_eq!(decimal("100").to_text(), "100");
    assert_eq!(decimal("000").to_text(), "0");
    assert_eq!(decimal("1.0"), decimal("1"));
    assert_eq!(decimal("0.10"), decimal("00.1"));
}

#[test]
fn texts_that_are_no_numerals() {
    for text in ["", "-", ".", "1.", ".5", "1.2.3", "1e5", "+1", "0x10", "--1", "1 ", "١", "1-", "a"] {
        assert_eq!(Decimal::parse(text), None, "{:?}", text);
    }
}

#[test]
fn numerals_of_any_length_keep_their_digits() {
    let text = "123456789012345678901234567890123456789012345678901234567890.000000000000000000000000000001";
    assert_eq!(decimal(text).to_text(), text);
    assert_eq!(decimal(text).to_scaled(), None);
}

#[test]
fn narrowest_type_is_inferred() {
    assert_eq!(infer("0"), Literal::Short(0));
    assert_eq!(infer("32767"), Literal::Short(32767));
    assert_eq!(infer("-32768"), Literal::Short(-32768));
    assert_eq!(infer("32768"), Literal::Int(32768));
    assert_eq!(infer("-32769"), Literal::Int(-32769));
    assert_eq!(infer("2147483647"), Literal::Int(2147483647));
    assert_eq!(infer("2147483648"), Literal::Large(2147483648));
    assert_eq!(infer("-2147483649"), Literal::Large(-2147483649));
    assert_eq!(infer("9223372036854775807"), Literal::Large(i64::MAX));
    assert_eq!(infer("-9223372036854775808"), Literal::Large(i64::MIN));
    assert_eq!(infer("9223372036854775808"), float("9223372036854775808"));
    assert_eq!(infer("-9223372036854775809"), float("-9223372036854775809"));
    assert_eq!(infer("5.0"), Literal::Short(5));
    assert_eq!(infer("5.5"), float("5.5"));
    assert_eq!(infer("0.000000000000000000001"), float("0.000000000000000000001"));
}

#[test]
fn inferred_literals_write_back_the_same_value() {
    for text in [
        "0",
        "5",
        "-5",
        "32768",
        "4294967296",
        "9223372036854775808",
        "3.25",
        "-0.001",
        "1000000000000000000000000.5",
    ] {
        let written = infer(text).to_string();
        assert_eq!(written, text);
        assert_eq!(decimal(&written), decimal(text));
    }
    assert_eq!(infer("010.50").to_string(), "10.5");
    assert_eq!(infer("0005").to_string(), "5");
}

#[test]
fn literals_of_other_kinds_have_a_text() {
    assert_eq!(Literal::Bool(true).to_string(), "true");
    assert_eq!(Literal::Bool(false).to_string(), "false");
    assert_eq!(Literal::StringLiteral("a b".to_string()).to_string(), "a b");
    assert_eq!(Literal::Null.to_string(), "null");
    assert_eq!(Literal::Large(i64::MIN).to_string(), "-9223372036854775808");
    assert_eq!(int_to_text(0), "0");
    assert_eq!(int_to_text(-10), "-10");
}

#[test]
fn literals_conform_to_types_that_hold_them() {
    assert_eq!(infer("5").conform(&Type::Short), Some(Literal::Short(5)));
    assert_eq!(infer("5").conform(&Type::Int), Some(Literal::Int(5)));
    assert_eq!(infer("5").conform(&Type::Large), Some(Literal::Large(5)));
    assert_eq!(infer("5").conform(&Type::Float), Some(float("5")));
    assert_eq!(infer("-70000").conform(&Type::Float), Some(float("-70000")));
    assert_eq!(infer("2.5").conform(&Type::Float), Some(float("2.5")));
    assert_eq!(infer("40000").conform(&Type::Short), None);
    assert_eq!(infer("3000000000").conform(&Type::Int), None);
    assert_eq!(infer("9223372036854775808").conform(&Type::Large), None);
    assert_eq!(infer("2.5").conform(&Type::Int), None);
    assert_eq!(infer("5").conform(&Type::Bool), None);
    assert_eq!(infer("5").conform(&Type::String), None);
    assert_eq!(infer("5").conform(&Type::Void), None);
    assert_eq!(infer("5").conform(&Type::Array(Box::new(Type::Int))), None);
    assert_eq!(infer("5").conform(&Type::Tuple(vec![Type::Int])), None);
    assert_eq!(Literal::Bool(true).conform(&Type::Bool), None);
    assert_eq!(Literal::Null.conform(&Type::Float), None);
}

#[test]
fn type_of_a_literal() {
    assert_eq!(infer("5").type_of(), Type::Short);
    assert_eq!(infer("2.5").type_of(), Type::Float);
    assert_eq!(Literal::Bool(true).type_of(), Type::Bool);
    assert_eq!(Literal::StringLiteral(String::new()).type_of(), Type::String);
    assert_eq!(Literal::Null.type_of(), Type::Void);
}

#[test]
fn scaled_numbers_of_literals() {
    assert_eq!(infer("5").to_scaled(), Some(Scaled { mantissa: 5, scale: 0 }));
    assert_eq!(infer("-2.50").to_scaled(), Some(Scaled { mantissa: -25, scale: 1 }));
    assert_eq!(infer("0.000000000000000001").to_scaled(), Some(Scaled { mantissa: 1, scale: 18 }));
    assert_eq!(infer("0.0000000000000000001").to_scaled(), None);
    assert_eq!(infer("9223372036854775808").to_scaled(), None);
    assert_eq!(
        infer("-9223372036854775808").to_scaled(),
        Some(Scaled { mantissa: i64::MIN, scale: 0 })
    );
    assert_eq!(Literal::Bool(true).to_scaled(), None);
    assert_eq!(Decimal::from_scaled(Scaled { mantissa: -5, scale: 3 }).to_text(), "-0.005");
    assert_eq!(Decimal::from_scaled(Scaled { mantissa: 1234, scale: 2 }).to_text(), "12.34");
    assert_eq!(Literal::of_scaled(Scaled { mantissa: 1234, scale: 0 }), Literal::Short(1234));
    assert_eq!(Literal::of_scaled(Scaled { mantissa: 15, scale: 1 }), float("1.5"));
}

#[test]
fn scaled_numbers_have_a_shortest_form() {
    let s = |mantissa: i64, scale: u8| Scaled { mantissa, scale };
    assert_eq!(s(1500, 2).shortest(), s(15, 0));
    assert_eq!(s(1500, 3).shortest(), s(15, 1));
    assert_eq!(s(-1500, 5).shortest(), s(-15, 3));
    assert_eq!(s(0, 7).shortest(), s(0, 0));
    assert_eq!(s(15, 0).shortest(), s(15, 0));
    assert_eq!(s(i64::MIN, 1).shortest(), s(i64::MIN, 1));
    assert_eq!(s(i64::MIN + 8, 1).shortest(), s(-922337203685477580, 0));
    assert_eq!(Decimal::from_scaled(s(1500, 3)).to_text(), "1.5");
    assert_eq!(Decimal::from_scaled(s(i64::MIN, 0)).to_text(), "-9223372036854775808");
    assert_eq!(Decimal::from_scaled(s(7, 255)).to_text().len(), 257);
    assert_eq!(Literal::of_scaled(s(150, 1)), Literal::Short(15));
    assert_eq!(Literal::of_scaled(s(-70000, 0)), Literal::Int(-70000));
    assert_eq!(Literal::of_scaled(s(i64::MAX, 0)), Literal::Large(i64::MAX));
}

#[test]
fn folding_is_exact() {
    let s = |mantissa: i64, scale: u8| Scaled { mantissa, scale };
    assert_eq!(fold(s(2, 0), TokenType::Add, s(3, 0)), Some(s(5, 0)));
    assert_eq!(fold(s(5, 1), TokenType::Add, s(5, 1)), Some(s(1, 0)));
    assert_eq!(fold(s(1, 0), TokenType::Sub, s(25, 2)), Some(s(75, 2)));
    assert_eq!(fold(s(15, 1), TokenType::Mul, s(4, 0)), Some(s(6, 0)));
    assert_eq!(fold(s(-3, 1), TokenType::Mul, s(3, 1)), Some(s(-9, 2)));
    assert_eq!(fold(s(i64::MAX, 0), TokenType::Add, s(1, 0)), None);
    assert_eq!(fold(s(i64::MIN, 0), TokenType::Sub, s(1, 0)), None);
    assert_eq!(fold(s(i64::MIN, 0), TokenType::Add, s(0, 0)), Some(s(i64::MIN, 0)));
    assert_eq!(fold(s(i64::MAX, 0), TokenType::Mul, s(2, 0)), None);
    assert_eq!(fold(s(1, 18), TokenType::Mul, s(1, 1)), None);
    assert_eq!(fold(s(1, 19), TokenType::Add, s(1, 0)), None);
    assert_eq!(fold(s(1, 0), TokenType::Comma, s(1, 0)), None);
}

#[test]
fn division_is_exact_or_left_alone() {
    let s = |mantissa: i64, scale: u8| Scaled { mantissa, scale };
    assert_eq!(fold(s(7, 0), TokenType::Div, s(2, 0)), Some(s(35, 1)));
    assert_eq!(fold(s(6, 0), TokenType::Div, s(3, 0)), Some(s(2, 0)));
    assert_eq!(fold(s(-1, 0), TokenType::Div, s(8, 0)), Some(s(-125, 3)));
    assert_eq!(fold(s(1, 0), TokenType::Div, s(-8, 0)), Some(s(-125, 3)));
    assert_eq!(fold(s(-1, 0), TokenType::Div, s(-8, 0)), Some(s(125, 3)));
    assert_eq!(fold(s(0, 0), TokenType::Div, s(5, 0)), Some(s(0, 0)));
    assert_eq!(fold(s(15, 1), TokenType::Div, s(5, 1)), Some(s(3, 0)));
    assert_eq!(fold(s(1, 2), TokenType::Div, s(4, 0)), Some(s(25, 4)));
    assert_eq!(fold(s(100, 0), TokenType::Div, s(1, 3)), Some(s(100000, 0)));
    assert_eq!(fold(s(1, 0), TokenType::Div, s(1024, 0)), Some(s(9765625, 10)));
    assert_eq!(fold(s(1, 0), TokenType::Div, s(262144, 0)), Some(s(3814697265625, 18)));
    assert_eq!(fold(s(1, 0), TokenType::Div, s(524288, 0)), None);
    assert_eq!(fold(s(1, 0), TokenType::Div, s(3, 0)), None);
    assert_eq!(fold(s(1, 0), TokenType::Div, s(0, 0)), None);
    assert_eq!(fold(s(0, 0), TokenType::Div, s(0, 0)), None);
    assert_eq!(fold(s(i64::MIN, 0), TokenType::Div, s(-1, 0)), None);
    assert_eq!(fold(s(i64::MIN, 0), TokenType::Div, s(1, 0)), Some(s(i64::MIN, 0)));
    assert_eq!(fold(s(i64::MAX, 0), TokenType::Div, s(1, 18)), None);
    assert_eq!(fold(s(i64::MAX, 0), TokenType::Div, s(i64::MAX, 0)), Some(s(1, 0)));
    assert_eq!(fold(s(i64::MAX, 18), TokenType::Div, s(i64::MIN, 18)), None);
    assert_eq!(fold(s(1, 18), TokenType::Div, s(i64::MAX, 0)), None);
}

#[test]
fn expressions_fold_with_precedence() {
    assert_eq!(evaluate(&["2", "+", "3", "*", "4"]), number(Literal::Short(14)));
    assert_eq!(evaluate(&["2", "*", "3", "+", "4"]), number(Literal::Short(10)));
    assert_eq!(evaluate(&["10", "-", "2", "-", "3"]), number(Literal::Short(5)));
    assert_eq!(evaluate(&["2", "*", "3", "*", "4", "-", "30"]), number(Literal::Short(-6)));
    assert_eq!(evaluate(&["1.5", "+", "1.5"]), number(Literal::Short(3)));
    assert_eq!(evaluate(&["0.1", "+", "0.2"]), number(float("0.3")));
    assert_eq!(evaluate(&["200", "*", "200"]), number(Literal::Int(40000)));
    assert_eq!(evaluate(&["7", "/", "2"]), number(float("3.5")));
    assert_eq!(evaluate(&["8", "/", "2", "/", "2"]), number(Literal::Short(2)));
    assert_eq!(evaluate(&["2", "+", "7", "/", "2"]), number(float("5.5")));
    assert_eq!(evaluate(&["1", "/", "4", "*", "4"]), number(Literal::Short(1)));
    assert_eq!(evaluate(&["7"]), number(Literal::Short(7)));
    assert_eq!(evaluate(&["x"]), Some(Expression::Identifier("x".to_string())));
}

#[test]
fn identifiers_stay_in_the_tree() {
    let x = || Expression::Identifier("x".to_string());
    let short = |v: i16| Expression::Literal(Literal::Short(v));
    let op = |lhs: Expression, operator: TokenType, rhs: Expression| Expression::BinaryOp {
        lhs: Box::new(lhs),
        rhs: Box::new(rhs),
        operator,
    };
    assert_eq!(
        evaluate(&["1", "+", "x", "*", "2"]),
        Some(op(short(1), TokenType::Add, op(x(), TokenType::Mul, short(2))))
    );
    assert_eq!(
        evaluate(&["x", "-", "2", "*", "3"]),
        Some(op(x(), TokenType::Sub, short(6)))
    );
    assert_eq!(
        evaluate(&["1", "+", "2", "+", "x"]),
        Some(op(short(3), TokenType::Add, x()))
    );
    assert_eq!(
        evaluate(&["x", "+", "1", "+", "2"]),
        Some(op(op(x(), TokenType::Add, short(1)), TokenType::Add, short(2)))
    );
}

#[test]
fn what_cannot_be_folded_stays_an_operation() {
    let big = || Expression::Literal(Literal::Large(i64::MAX));
    assert_eq!(
        evaluate(&["9223372036854775807", "+", "1"]),
        Some(Expression::BinaryOp {
            lhs: Box::new(big()),
            rhs: Box::new(Expression::Literal(Literal::Short(1))),
            operator: TokenType::Add,
        })
    );
    let short = |v: i16| Expression::Literal(Literal::Short(v));
    assert_eq!(
        evaluate(&["1", "/", "0"]),
        Some(Expression::BinaryOp {
            lhs: Box::new(short(1)),
            rhs: Box::new(short(0)),
            operator: TokenType::Div,
        })
    );
    assert_eq!(
        evaluate(&["1", "/", "3", "*", "3"]),
        Some(Expression::BinaryOp {
            lhs: Box::new(Expression::BinaryOp {
                lhs: Box::new(short(1)),
                rhs: Box::new(short(3)),
                operator: TokenType::Div,
            }),
            rhs: Box::new(short(3)),
            operator: TokenType::Mul,
        })
    );
    assert_eq!(
        combined(big(), TokenType::Mul, big()),
        Expression::BinaryOp { lhs: Box::new(big()), rhs: Box::new(big()), operator: TokenType::Mul }
    );
}

#[test]
fn malformed_runs_have_no_value() {
    assert_eq!(evaluate(&[]), None);
    assert_eq!(evaluate(&["+"]), None);
    assert_eq!(evaluate(&["1", "+"]), None);
    assert_eq!(evaluate(&["1", "2"]), None);
    assert_eq!(evaluate(&["1", "+", "+", "2"]), None);
    assert_eq!(evaluate(&["1", "+", "2", "3"]), None);
    assert_eq!(parse_expression(vec![Token::new(TokenType::NumericLiteral, "x1".to_string(), 1)]), None);
    assert_eq!(leaf_of(&Token::new(TokenType::String, "1".to_string(), 1)), None);
}
