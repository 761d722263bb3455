//! Calls: `name ( argument , ... )`.

use crate::ast::{
    expression_views, lemma_call_view, Ast, AstView, Expression, ExpressionView, Literal,
    LiteralView,
};
use crate::error::{error_at, error_views, parse_error, ErrorView, VeloError};
use crate::parse::literal::{literal_outcome, read_literal};
use crate::parse::messages::{
    argument_message, argument_separator_message, call_paren_message, end_of_input_message,
};
use crate::parse::changes::{appended, extended};
use crate::parse::stmt::variable::lemma_literal_last_bounds;
use crate::parse::Parser;
use crate::text::joined3;
use crate::token::{token_name, Token, TokenType};
use crate::types::{Type, TypeView};
use vstd::prelude::*;
use vstd::string::*;

verus! {

/// A call that was read: the expression, the errors that its arguments
/// recorded, and the index behind the closing `)`; or the error that stops
/// the parse.
pub type CallOutcome = Result<(ExpressionView, Seq<ErrorView>, int), ErrorView>;

/// `errors` with `e` added, if there is one.
pub open spec fn with_error(errors: Seq<ErrorView>, e: Option<ErrorView>) -> Seq<ErrorView> {
    match e {
        Some(e) => errors.push(e),
        None => errors,
    }
}

/// The view of an error, if there is one.
pub open spec fn option_error_view(e: Option<VeloError>) -> Option<ErrorView> {
    match e {
        Some(e) => Some(e@),
        None => None,
    }
}

/// The argument that starts at `p`: a string as it stands, or a number, an
/// identifier or an arithmetic expression, read as a value whose type is
/// inferred. With it come the error that reading it recorded and the index
/// behind it. No other token starts an argument.
pub open spec fn argument_at(tokens: Seq<Token>, p: int) -> Result<
    (ExpressionView, Option<ErrorView>, int),
    ErrorView,
> {
    match tokens[p].token_type {
        TokenType::String => Ok(
            (ExpressionView::Literal(LiteralView::StringLiteral(tokens[p].lexeme@)), None, p + 1),
        ),
        TokenType::Identifier | TokenType::NumericLiteral => {
            let out = literal_outcome(tokens, p, tokens[p], TypeView::Void, true);
            Ok((out.expr, out.error, out.last + 1))
        },
        _ => Err(parse_error(tokens[p].line_num, argument_message(tokens[p].lexeme@))),
    }
}

/// The arguments from `p` on: `)` ends the list; else an argument follows,
/// and then `,` or `)`.
pub open spec fn arguments_from(
    tokens: Seq<Token>,
    p: int,
    args: Seq<ExpressionView>,
    errors: Seq<ErrorView>,
) -> Result<(Seq<ExpressionView>, Seq<ErrorView>, int), ErrorView>
    decreases tokens.len() - p,
{
    if p < 0 || p >= tokens.len() {
        Err(parse_error(0, end_of_input_message()))
    } else if tokens[p].token_type == TokenType::RParen {
        Ok((args, errors, p + 1))
    } else {
        match argument_at(tokens, p) {
            Err(e) => Err(e),
            Ok((arg, error, after)) => if after <= p || after >= tokens.len() {
                Err(parse_error(0, end_of_input_message()))
            } else if tokens[after].token_type == TokenType::Comma {
                arguments_from(tokens, after + 1, args.push(arg), with_error(errors, error))
            } else if tokens[after].token_type == TokenType::RParen {
                Ok((args.push(arg), with_error(errors, error), after + 1))
            } else {
                Err(
                    parse_error(
                        tokens[after].line_num,
                        argument_separator_message(token_name(tokens[after].token_type)),
                    ),
                )
            },
        }
    }
}

/// The call that starts with the name at `start`: the name, `(`, the
/// arguments separated by `,`, and `)`.
pub open spec fn call_outcome(tokens: Seq<Token>, start: int) -> CallOutcome {
    if start < 0 || start >= tokens.len() {
        Err(parse_error(0, end_of_input_message()))
    } else if start + 1 >= tokens.len() {
        Err(parse_error(tokens[start].line_num, end_of_input_message()))
    } else if tokens[start + 1].token_type != TokenType::LParen {
        Err(
            parse_error(
                tokens[start + 1].line_num,
                call_paren_message(token_name(tokens[start + 1].token_type)),
            ),
        )
    } else {
        match arguments_from(tokens, start + 2, Seq::empty(), Seq::empty()) {
            Ok((params, errors, next)) => Ok(
                (ExpressionView::CallExpr { name: tokens[start].lexeme@, params }, errors, next),
            ),
            Err(e) => Err(e),
        }
    }
}

/// An argument list ends behind where it starts, within the tokens.
pub proof fn lemma_arguments_bounds(
    tokens: Seq<Token>,
    p: int,
    args: Seq<ExpressionView>,
    errors: Seq<ErrorView>,
)
    ensures
        arguments_from(tokens, p, args, errors) matches Ok((_, _, next)) ==> p < next
            <= tokens.len(),
    decreases tokens.len() - p,
{
    if 0 <= p < tokens.len() && tokens[p].token_type != TokenType::RParen {
        match argument_at(tokens, p) {
            Ok((arg, error, after)) => {
                if p < after < tokens.len() && tokens[after].token_type == TokenType::Comma {
                    lemma_arguments_bounds(
                        tokens,
                        after + 1,
                        args.push(arg),
                        with_error(errors, error),
                    );
                }
            },
            Err(_) => {},
        }
    }
}

fn end_of_input() -> (r: VeloError)
    ensures
        r@ == parse_error(0, end_of_input_message()),
{
    error_at(0, String::from_str("unexpected EOF"))
}

fn read_argument(tokens: &Vec<Token>, p: usize) -> (r: Result<
    (Expression, Option<VeloError>, usize),
    VeloError,
>)
    requires
        p < tokens.len(),
    ensures
        match argument_at(tokens@, p as int) {
            Ok((arg, error, after)) => {
                &&& r matches Ok((a, e, n))
                &&& a@ == arg
                &&& e is Some <==> error is Some
                &&& e matches Some(err) ==> Some(err@) == error
                &&& n == after
                &&& p < after <= tokens.len()
            },
            Err(e) => r matches Err(err) && err@ == e,
        },
{
    let t = &tokens[p];
    match t.token_type {
        TokenType::String => Ok(
            (Expression::Literal(Literal::StringLiteral(t.lexeme.clone())), None, p + 1),
        ),
        TokenType::Identifier | TokenType::NumericLiteral => {
            let void = Type::Void;
            proof {
                lemma_literal_last_bounds(tokens@, p as int, tokens@[p as int], TypeView::Void, true);
            }
            let parse = read_literal(tokens, p, t.clone(), &void, true);
            Ok((parse.expr, parse.error, parse.last + 1))
        },
        _ => Err(error_at(t.line_num, joined3("`", t.lexeme.as_str(), "` cannot be an argument"))),
    }
}

fn read_arguments(tokens: &Vec<Token>, from: usize) -> (r: Result<
    (Vec<Expression>, Vec<VeloError>, usize),
    VeloError,
>)
    ensures
        match arguments_from(tokens@, from as int, Seq::empty(), Seq::empty()) {
            Ok((args, errors, next)) => {
                &&& r matches Ok((a, e, n))
                &&& expression_views(a@) == args
                &&& error_views(e@) == errors
                &&& n == next
            },
            Err(e) => r matches Err(err) && err@ == e,
        },
{
    let n: usize = tokens.len();
    let mut args: Vec<Expression> = Vec::new();
    let mut errors: Vec<VeloError> = Vec::new();
    let mut p: usize = from;
    assert(expression_views(args@) =~= Seq::empty());
    assert(error_views(errors@) =~= Seq::empty());
    loop
        invariant
            n == tokens.len(),
            arguments_from(tokens@, from as int, Seq::empty(), Seq::empty()) == arguments_from(
                tokens@,
                p as int,
                expression_views(args@),
                error_views(errors@),
            ),
        decreases n - p,
    {
        if p >= n {
            return Err(end_of_input());
        }
        if tokens[p].token_type == TokenType::RParen {
            return Ok((args, errors, p + 1));
        }
        let (arg, error, after) = match read_argument(tokens, p) {
            Ok(v) => v,
            Err(e) => {
                return Err(e);
            },
        };
        let ghost args_before = expression_views(args@);
        let ghost errors_before = error_views(errors@);
        let ghost error_view = option_error_view(error);
        args.push(arg);
        assert(expression_views(args@) =~= args_before.push(arg@));
        match error {
            Some(e) => {
                errors.push(e);
                assert(error_views(errors@) =~= errors_before.push(e@));
            },
            None => {},
        }
        assert(error_views(errors@) == with_error(errors_before, error_view));
        if after >= n {
            return Err(end_of_input());
        }
        let separator = &tokens[after];
        if separator.token_type == TokenType::Comma {
            p = after + 1;
        } else if separator.token_type == TokenType::RParen {
            return Ok((args, errors, after + 1));
        } else {
            return Err(
                error_at(
                    separator.line_num,
                    joined3(
                        "Expected ',' or ')' after argument but found '",
                        separator.token_type.name(),
                        "'",
                    ),
                ),
            );
        }
    }
}

/// Reads the call that starts at `start`.
pub fn read_call(tokens: &Vec<Token>, start: usize) -> (r: Result<
    (Expression, Vec<VeloError>, usize),
    VeloError,
>)
    ensures
        match call_outcome(tokens@, start as int) {
            Ok((call, errors, next)) => {
                &&& r matches Ok((c, e, n))
                &&& c@ == call
                &&& error_views(e@) == errors
                &&& n == next
            },
            Err(e) => r matches Err(err) && err@ == e,
        },
{
    let n: usize = tokens.len();
    if start >= n {
        return Err(end_of_input());
    }
    if start + 1 >= n {
        return Err(error_at(tokens[start].line_num, String::from_str("unexpected EOF")));
    }
    let paren = &tokens[start + 1];
    if paren.token_type != TokenType::LParen {
        return Err(
            error_at(
                paren.line_num,
                joined3(
                    "Expected '(' after function name but found '",
                    paren.token_type.name(),
                    "'",
                ),
            ),
        );
    }
    match read_arguments(tokens, start + 2) {
        Ok((params, errors, next)) => {
            let call = Expression::CallExpr { name: tokens[start].lexeme.clone(), params };
            proof {
                lemma_call_view(call);
            }
            Ok((call, errors, next))
        },
        Err(e) => Err(e),
    }
}

impl Parser {
    /// Reads the call under the cursor: a name, `(`, arguments separated by
    /// `,`, and `)`. The call becomes a node, the errors that its arguments
    /// recorded are kept, and its tokens leave the stream. A token that can
    /// be no argument, a missing `,` or `)`, or the end of the input stop
    /// the whole parse: the error comes back and the parser is left as it was.
    pub fn call_expr(&mut self) -> (r: Result<(), VeloError>)
        ensures
            match call_outcome(old(self).tokens@, old(self).cursor as int) {
                Ok((call, errors, next)) => {
                    &&& r is Ok
                    &&& appended(old(self).nodes@, final(self).nodes@, AstView::Expression(call))
                    &&& extended(old(self).errors@, final(self).errors@, errors)
                    &&& final(self).tokens@ == old(self).tokens@.skip(next)
                    &&& final(self).cursor == 0
                },
                Err(e) => r matches Err(err) && err@ == e && *final(self) == *old(self),
            },
    {
        proof {
            lemma_arguments_bounds(self.tokens@, self.cursor + 2, Seq::empty(), Seq::empty());
        }
        match read_call(&self.tokens, self.cursor) {
            Ok((call, mut errors, next)) => {
                let ghost added = errors@;
                let rest = self.tokens.split_off(next);
                self.tokens = rest;
                self.nodes.push(Ast::Expression(call));
                self.errors.append(&mut errors);
                self.cursor = 0;
                assert(self.nodes@.drop_last() =~= old(self).nodes@);
                assert(self.tokens@ =~= old(self).tokens@.skip(next as int));
                assert(self.errors@.take(old(self).errors@.len() as int) =~= old(self).errors@);
                assert(self.errors@.skip(old(self).errors@.len() as int) =~= added);
                Ok(())
            },
            Err(e) => Err(e),
        }
    }
}

} // verus!
