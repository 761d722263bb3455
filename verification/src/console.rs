//! What printing an expression writes.

use crate::ast::{Expression, ExpressionView, Literal, LiteralView};
use vstd::prelude::*;

verus! {

/// The text that printing an expression writes: that of a string literal,
/// and none for any other expression.
pub open spec fn printed_text(e: ExpressionView) -> Option<Seq<char>> {
    match e {
        ExpressionView::Literal(LiteralView::StringLiteral(s)) => Some(s),
        _ => None,
    }
}

/// The text to write for `input`, if it can be printed.
pub fn printable(input: Expression) -> (r: Option<String>)
    ensures
        r is Some <==> printed_text(input@) is Some,
        r matches Some(s) ==> Some(s@) == printed_text(input@),
{
    match input {
        Expression::Literal(Literal::StringLiteral(s)) => Some(s),
        _ => None,
    }
}

} // verus!
