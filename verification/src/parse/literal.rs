//! Values: a literal, an identifier, or an arithmetic expression, read against
//! a declared type or with its type inferred.

use crate::ast::{Expression, ExpressionView, Literal, LiteralView};
use crate::decimal::Decimal;
use crate::error::{error_at, parse_error, ErrorView, VeloError};
use crate::literal::{conform, narrowest, representable};
use crate::numeral::{is_numeral, numeral_decimal, numeral_value};
use crate::parse::changes::recorded;
use crate::parse::expression::{evaluated, parse_expression};
use crate::parse::messages::{
    invalid_number_message, keyword_message, malformed_expression_message, mismatch_message,
    not_assignable_message, precision_loss_message,
};
use crate::parse::Parser;
use crate::text::{joined3, joined5};
use crate::token::{token_name, Token, TokenType};
use crate::types::{name_of_type, Type, TypeView};
use vstd::prelude::*;
use vstd::string::*;

verus! {

/// What reading one value gives: the expression, its type where one is
/// known, the error that was recorded, if any, and the index of the last
/// token of the value.
pub struct LiteralOutcome {
    pub expr: ExpressionView,
    pub ty: Option<TypeView>,
    pub error: Option<ErrorView>,
    pub last: int,
}

/// The expression that stands where no value could be read.
pub open spec fn no_value() -> ExpressionView {
    ExpressionView::Literal(LiteralView::Null)
}

/// A token that continues an arithmetic expression: an operand, an operator,
/// or a reserved word, which is an error there.
pub open spec fn in_run(t: Token) -> bool {
    t.token_type.is_operand() || t.token_type.is_operator() || t.token_type.is_keyword()
}

/// The index of the first token from `from` on that does not continue the
/// expression; the length of `tokens` if all do.
pub open spec fn run_end(tokens: Seq<Token>, from: int) -> int
    decreases tokens.len() - from,
{
    if 0 <= from < tokens.len() && in_run(tokens[from]) {
        run_end(tokens, from + 1)
    } else {
        from
    }
}

/// A run ends no earlier than it starts, and within the tokens.
pub proof fn lemma_run_end_bounds(tokens: Seq<Token>, from: int)
    ensures
        from <= run_end(tokens, from),
        0 <= from <= tokens.len() ==> run_end(tokens, from) <= tokens.len(),
    decreases tokens.len() - from,
{
    if 0 <= from < tokens.len() && in_run(tokens[from]) {
        lemma_run_end_bounds(tokens, from + 1);
    }
}

/// The class of the last token from `from` up to `to` that is a reserved word.
pub open spec fn last_keyword(tokens: Seq<Token>, from: int, to: int) -> Option<TokenType>
    decreases to - from,
{
    if to <= from {
        None
    } else if tokens[to - 1].token_type.is_keyword() {
        Some(tokens[to - 1].token_type)
    } else {
        last_keyword(tokens, from, to - 1)
    }
}

/// A value of a fixed type `found`, held against the declared type.
pub open spec fn checked(
    lit: LiteralView,
    found: TypeView,
    expected: TypeView,
    infer: bool,
    line: usize,
    last: int,
) -> LiteralOutcome {
    if !infer && expected != found {
        LiteralOutcome {
            expr: ExpressionView::Literal(lit),
            ty: None,
            error: Some(
                parse_error(line, mismatch_message(name_of_type(expected), name_of_type(found))),
            ),
            last,
        }
    } else {
        LiteralOutcome { expr: ExpressionView::Literal(lit), ty: Some(found), error: None, last }
    }
}

/// A number, inferred or held against the declared type. With a declared
/// type the number must fit it exactly, else a loss of precision is
/// recorded and the number stays as it was inferred, without a type.
pub open spec fn typed_number(
    lit: LiteralView,
    expected: TypeView,
    infer: bool,
    line: usize,
    last: int,
) -> LiteralOutcome {
    if infer {
        LiteralOutcome {
            expr: ExpressionView::Literal(lit),
            ty: Some(lit.type_of()),
            error: None,
            last,
        }
    } else {
        match conform(lit, expected) {
            Some(c) => LiteralOutcome {
                expr: ExpressionView::Literal(c),
                ty: Some(expected),
                error: None,
                last,
            },
            None => LiteralOutcome {
                expr: ExpressionView::Literal(lit),
                ty: None,
                error: Some(parse_error(line, precision_loss_message(name_of_type(expected)))),
                last,
            },
        }
    }
}

/// An evaluated expression, typed: a number as `typed_number` says, anything
/// else with the declared type, or none where the type is to be inferred.
pub open spec fn typed_expression(
    e: ExpressionView,
    expected: TypeView,
    infer: bool,
    line: usize,
    last: int,
) -> LiteralOutcome {
    match e {
        ExpressionView::Literal(lit) => typed_number(lit, expected, infer, line, last),
        _ => LiteralOutcome {
            expr: e,
            ty: if infer {
                None
            } else {
                Some(expected)
            },
            error: None,
            last,
        },
    }
}

/// A failed value: no expression, no type, one error.
pub open spec fn failed(line: usize, message: Seq<char>, last: int) -> LiteralOutcome {
    LiteralOutcome { expr: no_value(), ty: None, error: Some(parse_error(line, message)), last }
}

/// What reading the value that starts with `token` at `cursor` gives.
pub open spec fn literal_outcome(
    tokens: Seq<Token>,
    cursor: int,
    token: Token,
    expected: TypeView,
    infer: bool,
) -> LiteralOutcome {
    let line = token.line_num;
    match token.token_type {
        TokenType::True => checked(
            LiteralView::Bool(true),
            TypeView::Bool,
            expected,
            infer,
            line,
            cursor,
        ),
        TokenType::False => checked(
            LiteralView::Bool(false),
            TypeView::Bool,
            expected,
            infer,
            line,
            cursor,
        ),
        TokenType::String => checked(
            LiteralView::StringLiteral(token.lexeme@),
            TypeView::String,
            expected,
            infer,
            line,
            cursor,
        ),
        TokenType::NumericLiteral | TokenType::Identifier => {
            if 0 <= cursor && cursor + 1 < tokens.len() && tokens[cursor + 1].token_type.is_operator() {
                let end = run_end(tokens, cursor + 1);
                match last_keyword(tokens, cursor + 1, end) {
                    Some(k) => failed(line, keyword_message(token_name(k)), end - 1),
                    None => match evaluated(seq![token] + tokens.subrange(cursor + 1, end)) {
                        Some(e) => typed_expression(e, expected, infer, line, end - 1),
                        None => failed(line, malformed_expression_message(), end - 1),
                    },
                }
            } else if token.token_type == TokenType::Identifier {
                typed_expression(
                    ExpressionView::Identifier(token.lexeme@),
                    expected,
                    infer,
                    line,
                    cursor,
                )
            } else if is_numeral(token.lexeme@) {
                typed_number(narrowest(numeral_decimal(token.lexeme@)), expected, infer, line, cursor)
            } else {
                failed(line, invalid_number_message(token.lexeme@), cursor)
            }
        },
        _ => LiteralOutcome {
            expr: no_value(),
            ty: Some(TypeView::Void),
            error: Some(parse_error(line, not_assignable_message(token_name(token.token_type)))),
            last: cursor,
        },
    }
}

/// A numeric literal goes with a declared type exactly when the type holds
/// its value exactly. Then the value is kept, as a literal of that type;
/// else a loss of precision is recorded, and the literal gets no type.
pub proof fn lemma_declared_type_must_hold_the_value(
    s: Seq<char>,
    t: TypeView,
    line: usize,
    last: int,
)
    requires
        is_numeral(s),
    ensures
        ({
            let out = typed_number(narrowest(numeral_decimal(s)), t, false, line, last);
            &&& out.error is None <==> representable(numeral_value(s), t)
            &&& out.error is None ==> out.ty == Some(t)
            &&& out.error is None ==> (out.expr matches ExpressionView::Literal(c) && c.type_of()
                == t && c.number() == Some(numeral_value(s)))
            &&& out.error matches Some(e) ==> e == parse_error(
                line,
                precision_loss_message(name_of_type(t)),
            ) && out.ty is None
        }),
{
    let d = numeral_decimal(s);
    crate::literal::lemma_numeral_decimal_wf(s);
    crate::literal::lemma_narrowest(d);
    crate::literal::lemma_conform_exact(narrowest(d), t);
}

/// A type that is inferred is the type of a literal, and so no tuple.
pub proof fn lemma_inferred_type_is_no_tuple(tokens: Seq<Token>, cursor: int, token: Token)
    ensures
        literal_outcome(tokens, cursor, token, TypeView::Void, true).ty matches Some(t) ==> !(t is Tuple),
{
}

/// What `literal_outcome` describes, as values.
pub struct LiteralParse {
    pub expr: Expression,
    pub ty: Option<Type>,
    pub error: Option<VeloError>,
    pub last: usize,
}

impl LiteralParse {
    /// The values are those that `out` describes.
    pub open spec fn matches(self, out: LiteralOutcome) -> bool {
        &&& self.expr@ == out.expr
        &&& self.ty is Some <==> out.ty is Some
        &&& self.ty matches Some(t) ==> Some(t@) == out.ty
        &&& self.error is Some <==> out.error is Some
        &&& self.error matches Some(e) ==> Some(e@) == out.error
        &&& self.last == out.last
    }
}

fn null_expression() -> (r: Expression)
    ensures
        r@ == no_value(),
{
    Expression::Literal(Literal::Null)
}

fn fail(line: usize, message: String, last: usize) -> (r: LiteralParse)
    ensures
        r.matches(failed(line, message@, last as int)),
{
    LiteralParse { expr: null_expression(), ty: None, error: Some(error_at(line, message)), last }
}

fn check(lit: Literal, found: Type, expected: &Type, infer: bool, line: usize, last: usize) -> (r:
    LiteralParse)
    ensures
        r.matches(checked(lit@, found@, expected@, infer, line, last as int)),
{
    if !infer && !expected.same(&found) {
        let message = joined5(
            "Expected type '",
            expected.to_string().as_str(),
            "' but found '",
            found.to_string().as_str(),
            "'",
        );
        LiteralParse {
            expr: Expression::Literal(lit),
            ty: None,
            error: Some(error_at(line, message)),
            last,
        }
    } else {
        LiteralParse { expr: Expression::Literal(lit), ty: Some(found), error: None, last }
    }
}

fn type_number(lit: Literal, expected: &Type, infer: bool, line: usize, last: usize) -> (r:
    LiteralParse)
    ensures
        r.matches(typed_number(lit@, expected@, infer, line, last as int)),
{
    if infer {
        let ty = lit.type_of();
        LiteralParse { expr: Expression::Literal(lit), ty: Some(ty), error: None, last }
    } else {
        match lit.conform(expected) {
            Some(c) => LiteralParse {
                expr: Expression::Literal(c),
                ty: Some(expected.clone()),
                error: None,
                last,
            },
            None => {
                let message = joined3(
                    "Value cannot be represented as '",
                    expected.to_string().as_str(),
                    "' without loss of precision",
                );
                LiteralParse {
                    expr: Expression::Literal(lit),
                    ty: None,
                    error: Some(error_at(line, message)),
                    last,
                }
            },
        }
    }
}

fn type_expression(e: Expression, expected: &Type, infer: bool, line: usize, last: usize) -> (r:
    LiteralParse)
    ensures
        r.matches(typed_expression(e@, expected@, infer, line, last as int)),
{
    match e {
        Expression::Literal(lit) => type_number(lit, expected, infer, line, last),
        other => {
            let ty = if infer {
                None
            } else {
                Some(expected.clone())
            };
            LiteralParse { expr: other, ty, error: None, last }
        },
    }
}

fn continues(t: &Token) -> (r: bool)
    ensures
        r == in_run(*t),
{
    t.token_type.operand() || t.token_type.operator() || t.token_type.reserved()
}

/// The tokens of the expression that starts with `first` and goes on at
/// `from`, the index where it ends, and the last reserved word in it.
fn gather(tokens: &Vec<Token>, first: Token, from: usize) -> (r: (
    Vec<Token>,
    usize,
    Option<TokenType>,
))
    requires
        from <= tokens.len(),
    ensures
        r.1 == run_end(tokens@, from as int),
        from <= r.1 <= tokens.len(),
        r.0@ == seq![first] + tokens@.subrange(from as int, r.1 as int),
        r.2 == last_keyword(tokens@, from as int, r.1 as int),
{
    let mut run: Vec<Token> = Vec::new();
    run.push(first);
    let mut fault: Option<TokenType> = None;
    let mut i: usize = from;
    assert(run@ =~= seq![first] + tokens@.subrange(from as int, from as int));
    while i < tokens.len() && continues(&tokens[i])
        invariant
            from <= i <= tokens.len(),
            run_end(tokens@, from as int) == run_end(tokens@, i as int),
            run@ == seq![first] + tokens@.subrange(from as int, i as int),
            fault == last_keyword(tokens@, from as int, i as int),
        decreases tokens.len() - i,
    {
        let t = &tokens[i];
        if t.token_type.reserved() {
            fault = Some(t.token_type);
        }
        run.push(t.clone());
        assert(run@ =~= seq![first] + tokens@.subrange(from as int, i as int + 1));
        i += 1;
    }
    (run, i, fault)
}

/// Reads the value that starts with `token`, the token at `cursor`.
pub fn read_literal(
    tokens: &Vec<Token>,
    cursor: usize,
    token: Token,
    expected: &Type,
    infer: bool,
) -> (r: LiteralParse)
    ensures
        r.matches(literal_outcome(tokens@, cursor as int, token, expected@, infer)),
{
    let line = token.line_num;
    match token.token_type {
        TokenType::True => check(Literal::Bool(true), Type::Bool, expected, infer, line, cursor),
        TokenType::False => check(Literal::Bool(false), Type::Bool, expected, infer, line, cursor),
        TokenType::String => check(
            Literal::StringLiteral(token.lexeme),
            Type::String,
            expected,
            infer,
            line,
            cursor,
        ),
        TokenType::NumericLiteral | TokenType::Identifier => {
            let n: usize = tokens.len();
            if cursor < n && cursor + 1 < n && tokens[cursor + 1].token_type.operator() {
                let (run, end, fault) = gather(tokens, token, cursor + 1);
                proof {
                    assert(in_run(tokens@[cursor + 1]));
                    lemma_run_end_bounds(tokens@, cursor + 2);
                }
                match fault {
                    Some(k) => fail(
                        line,
                        joined3("Expected ';' after expression, found keyword '", k.name(), "'"),
                        end - 1,
                    ),
                    None => match parse_expression(run) {
                        Some(e) => type_expression(e, expected, infer, line, end - 1),
                        None => fail(line, String::from_str("Malformed expression"), end - 1),
                    },
                }
            } else if token.token_type == TokenType::Identifier {
                type_expression(Expression::Identifier(token.lexeme), expected, infer, line, cursor)
            } else {
                match Decimal::parse(token.lexeme.as_str()) {
                    Some(d) => type_number(Literal::narrowest(d), expected, infer, line, cursor),
                    None => fail(
                        line,
                        joined3("Invalid numeric literal '", token.lexeme.as_str(), "'"),
                        cursor,
                    ),
                }
            }
        },
        other => {
            let message = joined3("Cannot assign items of type ", other.name(), " to variables");
            LiteralParse {
                expr: null_expression(),
                ty: Some(Type::Void),
                error: Some(error_at(line, message)),
                last: cursor,
            }
        },
    }
}

impl Parser {
    /// Reads the value that starts with `token`, the token under the cursor:
    /// a boolean or a string, a number, an identifier, or an arithmetic
    /// expression of numbers and identifiers. The cursor ends on the last
    /// token of the value. An error is recorded, not returned; what comes
    /// back then is the best that could be made of the tokens.
    pub fn parse_literal(&mut self, token: Token, expected: &Type, infer_type: bool) -> (r: (
        Expression,
        Option<Type>,
    ))
        ensures
            ({
                let out = literal_outcome(
                    old(self).tokens@,
                    old(self).cursor as int,
                    token,
                    expected@,
                    infer_type,
                );
                &&& r.0@ == out.expr
                &&& r.1 is Some <==> out.ty is Some
                &&& r.1 matches Some(t) ==> Some(t@) == out.ty
                &&& final(self).cursor == out.last
                &&& recorded(old(self).errors@, final(self).errors@, out.error)
                &&& final(self).tokens == old(self).tokens
                &&& final(self).nodes == old(self).nodes
            }),
    {
        let parse = read_literal(&self.tokens, self.cursor, token, expected, infer_type);
        self.cursor = parse.last;
        match parse.error {
            Some(e) => {
                self.errors.push(e);
                assert(self.errors@.drop_last() =~= old(self).errors@);
            },
            None => {},
        }
        (parse.expr, parse.ty)
    }
}

} // verus!
