//! Arithmetic expressions: evaluation with precedence, folding numbers and
//! keeping identifiers.

use crate::ast::{Expression, ExpressionView, Literal};
use crate::decimal::Decimal;
use crate::fold::{fold, folded};
use crate::literal::narrowest;
use crate::number::DecimalView;
use crate::numeral::{is_numeral, numeral_decimal};
use crate::token::{Token, TokenType};
use vstd::prelude::*;

verus! {

/// A token that can be an operand: an identifier, or a number that reads as one.
pub open spec fn is_leaf(t: Token) -> bool {
    t.token_type == TokenType::Identifier || (t.token_type == TokenType::NumericLiteral
        && is_numeral(t.lexeme@))
}

/// The expression of an operand: an identifier stays a name, a number
/// becomes the literal of the narrowest type that holds it.
pub open spec fn leaf(t: Token) -> ExpressionView {
    if t.token_type == TokenType::Identifier {
        ExpressionView::Identifier(t.lexeme@)
    } else {
        ExpressionView::Literal(narrowest(numeral_decimal(t.lexeme@)))
    }
}

/// Operands and operators alternate, from an operand to an operand.
pub open spec fn well_formed_run(run: Seq<Token>) -> bool {
    &&& run.len() % 2 == 1
    &&& forall|i: int|
        0 <= i < run.len() ==> if i % 2 == 0 {
            is_leaf(#[trigger] run[i])
        } else {
            run[i].token_type.is_operator()
        }
}

/// `l op r`: one literal where both sides are numbers and the result can be
/// computed exactly, else the operation itself, left for later.
#[verifier::opaque]
pub open spec fn combine(l: ExpressionView, op: TokenType, r: ExpressionView) -> ExpressionView {
    if l is Literal && r is Literal && l->Literal_0.number() is Some && r->Literal_0.number() is Some
        && folded(l->Literal_0.number()->0, op, r->Literal_0.number()->0) is Some {
        ExpressionView::Literal(
            narrowest(
                DecimalView::of_number(
                    folded(l->Literal_0.number()->0, op, r->Literal_0.number()->0)->0,
                ),
            ),
        )
    } else {
        ExpressionView::BinaryOp { lhs: Box::new(l), rhs: Box::new(r), operator: op }
    }
}

/// The sum so far with the product so far added to it.
pub open spec fn closed(sum: Option<(ExpressionView, TokenType)>, term: ExpressionView) -> ExpressionView {
    match sum {
        None => term,
        Some((acc, op)) => combine(acc, op, term),
    }
}

/// The value of a run from the operator at `i` on, given the sum and the
/// product that the operands before `i` have made. A `*` or `/` extends the
/// product; a `+` or `-` adds the product to the sum and starts a new one.
pub open spec fn evaluated_from(
    run: Seq<Token>,
    i: int,
    sum: Option<(ExpressionView, TokenType)>,
    term: ExpressionView,
) -> ExpressionView
    decreases run.len() - i,
{
    if 0 <= i && i + 1 < run.len() {
        let op = run[i].token_type;
        let operand = leaf(run[i + 1]);
        if op.is_multiplicative() {
            evaluated_from(run, i + 2, sum, combine(term, op, operand))
        } else {
            evaluated_from(run, i + 2, Some((closed(sum, term), op)), operand)
        }
    } else {
        closed(sum, term)
    }
}

/// The expression that a run of operands and operators makes, with `*` and
/// `/` before `+` and `-` and each of the two from left to right; nothing
/// for a run in which operands and operators do not alternate.
pub open spec fn evaluated(run: Seq<Token>) -> Option<ExpressionView> {
    if well_formed_run(run) {
        Some(evaluated_from(run, 1, None, leaf(run[0])))
    } else {
        None
    }
}

/// In `a + b * c` the product is made first, whatever the operands are.
pub proof fn lemma_product_before_sum(run: Seq<Token>)
    requires
        run.len() == 5,
        well_formed_run(run),
        !run[1].token_type.is_multiplicative(),
        run[3].token_type.is_multiplicative(),
    ensures
        evaluated(run) == Some(
            combine(
                leaf(run[0]),
                run[1].token_type,
                combine(leaf(run[2]), run[3].token_type, leaf(run[4])),
            ),
        ),
{
    reveal_with_fuel(evaluated_from, 4);
}

/// In `a * b + c` the product is made first, too.
pub proof fn lemma_sum_after_product(run: Seq<Token>)
    requires
        run.len() == 5,
        well_formed_run(run),
        run[1].token_type.is_multiplicative(),
        !run[3].token_type.is_multiplicative(),
    ensures
        evaluated(run) == Some(
            combine(
                combine(leaf(run[0]), run[1].token_type, leaf(run[2])),
                run[3].token_type,
                leaf(run[4]),
            ),
        ),
{
    reveal_with_fuel(evaluated_from, 4);
}

/// Operators of the same rank group from the left: `a - b - c` is
/// `(a - b) - c`, and `a / b / c` is `(a / b) / c`.
pub proof fn lemma_same_rank_groups_from_the_left(run: Seq<Token>)
    requires
        run.len() == 5,
        well_formed_run(run),
        run[1].token_type.is_multiplicative() == run[3].token_type.is_multiplicative(),
    ensures
        evaluated(run) == Some(
            combine(
                combine(leaf(run[0]), run[1].token_type, leaf(run[2])),
                run[3].token_type,
                leaf(run[4]),
            ),
        ),
{
    reveal_with_fuel(evaluated_from, 4);
}

/// A run of one operand is that operand.
pub proof fn lemma_single_operand(run: Seq<Token>)
    requires
        run.len() == 1,
        is_leaf(run[0]),
    ensures
        evaluated(run) == Some(leaf(run[0])),
{
}

/// The expression of an operand token.
pub fn leaf_of(t: &Token) -> (r: Option<Expression>)
    ensures
        r is Some <==> is_leaf(*t),
        r matches Some(e) ==> e@ == leaf(*t),
{
    if t.token_type == TokenType::Identifier {
        Some(Expression::Identifier(t.lexeme.clone()))
    } else if t.token_type == TokenType::NumericLiteral {
        match Decimal::parse(t.lexeme.as_str()) {
            Some(d) => Some(Expression::Literal(Literal::narrowest(d))),
            None => None,
        }
    } else {
        None
    }
}

/// `l op r`, folded where both are numbers and the result is exact.
pub fn combined(l: Expression, op: TokenType, r: Expression) -> (e: Expression)
    ensures
        e@ == combine(l@, op, r@),
{
    reveal(combine);
    let folded_value = match (&l, &r) {
        (Expression::Literal(a), Expression::Literal(b)) => match (a.to_scaled(), b.to_scaled()) {
            (Some(x), Some(y)) => fold(x, op, y),
            _ => None,
        },
        _ => None,
    };
    match folded_value {
        Some(z) => {
            assert(z@.normalized() == z@);
            Expression::Literal(Literal::of_scaled(z))
        },
        None => Expression::BinaryOp { lhs: Box::new(l), rhs: Box::new(r), operator: op },
    }
}

fn close(sum: Option<(Expression, TokenType)>, term: Expression) -> (e: Expression)
    ensures
        e@ == closed(
            match sum {
                Some((acc, op)) => Some((acc@, op)),
                None => None,
            },
            term@,
        ),
{
    match sum {
        None => term,
        Some((acc, op)) => combined(acc, op, term),
    }
}

/// Evaluates a run of operands and operators: `*` and `/` first, then `+`
/// and `-`, each from left to right. Numbers fold into one literal where
/// the result is exact; identifiers, and what cannot be folded, stay as
/// operations.
pub fn parse_expression(tokens: Vec<Token>) -> (r: Option<Expression>)
    ensures
        r is Some <==> evaluated(tokens@) is Some,
        r matches Some(e) ==> Some(e@) == evaluated(tokens@),
{
    let n: usize = tokens.len();
    if n == 0 {
        return None;
    }
    let mut term = match leaf_of(&tokens[0]) {
        Some(e) => e,
        None => {
            return None;
        },
    };
    let mut sum: Option<(Expression, TokenType)> = None;
    let mut i: usize = 1;
    while i < n
        invariant
            n == tokens.len(),
            1 <= i <= n,
            i % 2 == 1,
            is_leaf(tokens@[0]),
            forall|k: int|
                0 <= k < i ==> if k % 2 == 0 {
                    is_leaf(#[trigger] tokens@[k])
                } else {
                    tokens@[k].token_type.is_operator()
                },
            evaluated_from(tokens@, 1, None, leaf(tokens@[0])) == evaluated_from(
                tokens@,
                i as int,
                match sum {
                    Some((acc, op)) => Some((acc@, op)),
                    None => None,
                },
                term@,
            ),
        decreases n - i,
    {
        if i + 1 >= n {
            return None;
        }
        let op = tokens[i].token_type;
        if !op.operator() {
            return None;
        }
        let operand = match leaf_of(&tokens[i + 1]) {
            Some(e) => e,
            None => {
                assert(!is_leaf(tokens@[i + 1]));
                return None;
            },
        };
        if op == TokenType::Mul || op == TokenType::Div {
            term = combined(term, op, operand);
        } else {
            let acc = close(sum, term);
            sum = Some((acc, op));
            term = operand;
        }
        i += 2;
    }
    Some(close(sum, term))
}

} // verus!
