//! Evaluation, one node at a time: what changes in the environment, and what
//! the host has to do.

use crate::ast::{Ast, AstView, Expression, ExpressionView, Literal, LiteralView, Statement, StatementView};
use crate::runtime::environment::{Environment, EnvironmentView};
use crate::text::text_is;
use vstd::prelude::*;

verus! {

/// What the host has to do after a node has been evaluated.
#[derive(Debug, PartialEq, Eq)]
pub enum Action {
    /// Nothing.
    Nothing,
    /// Write the text and a line end.
    Print(String),
    /// Show the name of a variable that is not declared.
    ShowUndeclared(String),
    /// Read a line and hand it to `receive_input` for the variable named.
    ReadLine(String),
    /// The node is of a kind that evaluation does not cover yet.
    Unsupported,
}

/// An action as contracts speak of it.
pub enum ActionView {
    Nothing,
    Print(Seq<char>),
    ShowUndeclared(Seq<char>),
    ReadLine(Seq<char>),
    Unsupported,
}

impl View for Action {
    type V = ActionView;

    open spec fn view(&self) -> ActionView {
        match self {
            Action::Nothing => ActionView::Nothing,
            Action::Print(s) => ActionView::Print(s@),
            Action::ShowUndeclared(s) => ActionView::ShowUndeclared(s@),
            Action::ReadLine(s) => ActionView::ReadLine(s@),
            Action::Unsupported => ActionView::Unsupported,
        }
    }
}

/// What `print` does with its first argument: a string is written; a
/// variable that holds a string is written; a name that is not declared is
/// shown as it stands.
pub open spec fn print_action(env: EnvironmentView, params: Seq<ExpressionView>) -> ActionView {
    if params.len() == 0 {
        ActionView::Unsupported
    } else {
        match params[0] {
            ExpressionView::Literal(LiteralView::StringLiteral(s)) => ActionView::Print(s),
            ExpressionView::Identifier(name) => match env.value_of(name) {
                Some(ExpressionView::Literal(LiteralView::StringLiteral(s))) => ActionView::Print(
                    s,
                ),
                Some(_) => ActionView::Unsupported,
                None => ActionView::ShowUndeclared(name),
            },
            _ => ActionView::Unsupported,
        }
    }
}

/// What `input` does with its first argument: a line is read into the
/// variable that it names.
pub open spec fn input_action(params: Seq<ExpressionView>) -> ActionView {
    if params.len() > 0 && params[0] is Identifier {
        ActionView::ReadLine(params[0]->Identifier_0)
    } else {
        ActionView::Unsupported
    }
}

/// What the host has to do for a node.
pub open spec fn action_of(env: EnvironmentView, node: AstView) -> ActionView {
    match node {
        AstView::Expression(ExpressionView::CallExpr { name, params }) => if !env.has_library_function(
            name,
        ) {
            ActionView::Nothing
        } else if name == "print"@ {
            print_action(env, params)
        } else if name == "input"@ {
            input_action(params)
        } else {
            ActionView::Unsupported
        },
        AstView::Expression(ExpressionView::Literal(LiteralView::Null)) => ActionView::Nothing,
        AstView::Expression(_) => ActionView::Unsupported,
        AstView::Statement(StatementView::VariableAssignment { .. }) => ActionView::Nothing,
        AstView::Statement(_) => ActionView::Unsupported,
    }
}

/// The environment after a node has been evaluated: a declaration declares
/// its variable; no other node changes anything.
pub open spec fn environment_after(env: EnvironmentView, node: AstView) -> EnvironmentView {
    match node {
        AstView::Statement(StatementView::VariableAssignment { name, constant, value, .. }) => env.declared(
            name,
            value,
            constant,
        ),
        _ => env,
    }
}

fn print(env: &Environment, params: &Vec<Expression>) -> (r: Action)
    ensures
        r@ == print_action(env@, crate::ast::expression_views(params@)),
{
    if params.len() == 0 {
        return Action::Unsupported;
    }
    match &params[0] {
        Expression::Literal(Literal::StringLiteral(s)) => Action::Print(s.clone()),
        Expression::Identifier(name) => match env.lookup(name) {
            Some(Expression::Literal(Literal::StringLiteral(s))) => Action::Print(s.clone()),
            Some(_) => Action::Unsupported,
            None => Action::ShowUndeclared(name.clone()),
        },
        _ => Action::Unsupported,
    }
}

fn input(params: &Vec<Expression>) -> (r: Action)
    ensures
        r@ == input_action(crate::ast::expression_views(params@)),
{
    if params.len() == 0 {
        return Action::Unsupported;
    }
    match &params[0] {
        Expression::Identifier(name) => Action::ReadLine(name.clone()),
        _ => Action::Unsupported,
    }
}

/// Evaluates one node: changes the environment as the node says, and tells
/// the host what to do.
pub fn step(env: &mut Environment, node: Ast) -> (r: Action)
    ensures
        r@ == action_of(old(env)@, node@),
        final(env)@ == environment_after(old(env)@, node@),
        old(env)@.wf() ==> final(env)@.wf(),
{
    match node {
        Ast::Expression(Expression::CallExpr { name, params }) => {
            proof {
                crate::ast::lemma_call_view(Expression::CallExpr { name, params });
            }
            if !env.is_library_function(&name) {
                Action::Nothing
            } else if text_is(&name, "print") {
                print(env, &params)
            } else if text_is(&name, "input") {
                input(&params)
            } else {
                Action::Unsupported
            }
        },
        Ast::Expression(Expression::Literal(Literal::Null)) => Action::Nothing,
        Ast::Expression(_) => Action::Unsupported,
        Ast::Statement(Statement::VariableAssignment { name, constant, var_type, value }) => {
            env.declare_variable(name, value, constant);
            Action::Nothing
        },
        Ast::Statement(_) => Action::Unsupported,
    }
}

/// Declares the variable `name` with the line that the host has read for it.
pub fn receive_input(env: &mut Environment, name: String, line: String)
    ensures
        old(env)@.wf() ==> final(env)@.wf(),
        final(env)@ == old(env)@.declared(
            name@,
            ExpressionView::Literal(LiteralView::StringLiteral(line@)),
            false,
        ),
{
    env.declare_variable(name, Expression::Literal(Literal::StringLiteral(line)), false);
}

} // verus!
