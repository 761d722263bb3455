//! The parser: from tokens to the nodes of the syntax tree.

pub mod call;
pub mod changes;
pub mod expression;
pub mod import;
pub mod literal;
pub mod messages;
pub mod stmt;

use crate::ast::{ast_views, end_marker, Ast, AstView, Expression, Literal, StatementView};
use crate::error::{
    error_at, error_views, parse_error, ErrorView, FailureView, ParseFailure, VeloError,
};
use crate::parse::call::{call_outcome, lemma_arguments_bounds};
use crate::parse::changes::{lemma_appended, lemma_extended, lemma_recorded};
use crate::parse::import::import_outcome;
use crate::parse::messages::{
    end_of_input_message, identifier_message, reassignment_message, statement_message,
};
use crate::parse::stmt::function::{
    function_outcome, lemma_function_holds_no_tuple, lemma_function_progress,
};
use crate::parse::stmt::variable::{
    declared_name, declares, lemma_variable_progress, unique_declarations, variable_outcome,
};
use crate::text::{joined3, joined5};
use crate::token::{token_name, Token, TokenType};
use vstd::prelude::*;
use vstd::string::*;

verus! {

/// The state of one parse: the tokens still to be read, the position in
/// them, the nodes made so far and the errors recorded so far.
#[derive(Debug)]
pub struct Parser {
    pub tokens: Vec<Token>,
    pub cursor: usize,
    pub nodes: Vec<Ast>,
    pub errors: Vec<VeloError>,
}

/// What a parse ends with when no token is left: the nodes, if no error was
/// recorded; else the errors.
pub open spec fn finished(nodes: Seq<AstView>, errors: Seq<ErrorView>) -> Result<
    Seq<AstView>,
    FailureView,
> {
    if errors.len() == 0 {
        Ok(nodes)
    } else {
        Err(FailureView::Errors(errors))
    }
}

/// What reading a declaration at the front of `tokens` leads to.
pub open spec fn after_variable(
    tokens: Seq<Token>,
    constant: bool,
    nodes: Seq<AstView>,
    errors: Seq<ErrorView>,
) -> Result<Seq<AstView>, FailureView>
    decreases tokens.len(), 0nat,
{
    if tokens.len() == 0 {
        finished(nodes, errors)
    } else {
        proof {
            lemma_variable_progress(tokens, 0, constant, nodes, true);
        }
        match variable_outcome(tokens, 0, constant, nodes, true) {
            Ok((s, next)) => parse_from(tokens.skip(next), nodes.push(AstView::Statement(s)), errors),
            Err((e, next)) => parse_from(tokens.skip(next), nodes, errors.push(e)),
        }
    }
}

/// What parsing `tokens` gives, with `nodes` made and `errors` recorded
/// before. The class of the first token decides which statement is read;
/// what is left after it is parsed in the same way. An error inside a
/// declaration is recorded and the parse goes on; a statement that cannot be
/// made out at all ends the parse at once.
pub open spec fn parse_from(tokens: Seq<Token>, nodes: Seq<AstView>, errors: Seq<ErrorView>) -> Result<
    Seq<AstView>,
    FailureView,
>
    decreases tokens.len(), 1nat,
{
    if tokens.len() == 0 {
        finished(nodes, errors)
    } else {
        let first = tokens[0];
        match first.token_type {
            TokenType::Import => match import_outcome(tokens, 0) {
                Ok((s, next)) => parse_from(
                    tokens.skip(next),
                    nodes.push(AstView::Statement(s)),
                    errors,
                ),
                Err(e) => Err(FailureView::Fatal(e)),
            },
            TokenType::Immut => after_variable(tokens, true, nodes, errors),
            TokenType::Let => after_variable(tokens, false, nodes, errors),
            TokenType::Function => {
                proof {
                    lemma_function_progress(tokens, 0);
                }
                match function_outcome(tokens, 0) {
                    Ok((f, next)) => parse_from(
                        tokens.skip(next),
                        nodes.push(AstView::Statement(f)),
                        errors,
                    ),
                    Err(e) => finished(nodes, errors.push(e)),
                }
            },
            TokenType::Identifier => if tokens.len() < 2 {
                Err(FailureView::Fatal(parse_error(first.line_num, end_of_input_message())))
            } else {
                match tokens[1].token_type {
                    TokenType::ColonEq | TokenType::Colon => after_variable(
                        tokens,
                        false,
                        nodes,
                        errors,
                    ),
                    TokenType::LParen => {
                        proof {
                            lemma_arguments_bounds(tokens, 2, Seq::empty(), Seq::empty());
                        }
                        match call_outcome(tokens, 0) {
                            Ok((call, added, next)) => parse_from(
                                tokens.skip(next),
                                nodes.push(AstView::Expression(call)),
                                errors + added,
                            ),
                            Err(e) => Err(FailureView::Fatal(e)),
                        }
                    },
                    TokenType::Eq => Err(
                        FailureView::NotImplemented(
                            parse_error(first.line_num, reassignment_message(first.lexeme@)),
                        ),
                    ),
                    other => Err(
                        FailureView::NotImplemented(
                            parse_error(
                                tokens[1].line_num,
                                identifier_message(first.lexeme@, token_name(other)),
                            ),
                        ),
                    ),
                }
            },
            TokenType::Semicolon => parse_from(tokens.skip(1), nodes, errors),
            TokenType::EOF => finished(nodes.push(end_marker()), errors),
            other => Err(
                FailureView::Fatal(
                    parse_error(first.line_num, statement_message(token_name(other), first.lexeme@)),
                ),
            ),
        }
    }
}

/// A parse that succeeds started without errors.
pub proof fn lemma_success_means_no_error(
    tokens: Seq<Token>,
    nodes: Seq<AstView>,
    errors: Seq<ErrorView>,
)
    ensures
        parse_from(tokens, nodes, errors) is Ok ==> errors.len() == 0,
        parse_from(tokens, nodes, errors) matches Err(FailureView::Errors(es)) ==> es.len() > 0,
    decreases tokens.len(), 1nat,
{
    if tokens.len() > 0 {
        let first = tokens[0];
        match first.token_type {
            TokenType::Import => match import_outcome(tokens, 0) {
                Ok((s, next)) => {
                    lemma_success_means_no_error(
                        tokens.skip(next),
                        nodes.push(AstView::Statement(s)),
                        errors,
                    );
                },
                Err(e) => {},
            },
            TokenType::Immut => lemma_after_variable_no_error(tokens, true, nodes, errors),
            TokenType::Let => lemma_after_variable_no_error(tokens, false, nodes, errors),
            TokenType::Function => {
                lemma_function_progress(tokens, 0);
                match function_outcome(tokens, 0) {
                    Ok((f, next)) => {
                        lemma_success_means_no_error(
                            tokens.skip(next),
                            nodes.push(AstView::Statement(f)),
                            errors,
                        );
                    },
                    Err(e) => {},
                }
            },
            TokenType::Identifier => if tokens.len() >= 2 {
                match tokens[1].token_type {
                    TokenType::ColonEq | TokenType::Colon => lemma_after_variable_no_error(
                        tokens,
                        false,
                        nodes,
                        errors,
                    ),
                    TokenType::LParen => {
                        lemma_arguments_bounds(tokens, 2, Seq::empty(), Seq::empty());
                        match call_outcome(tokens, 0) {
                            Ok((call, added, next)) => {
                                lemma_success_means_no_error(
                                    tokens.skip(next),
                                    nodes.push(AstView::Expression(call)),
                                    errors + added,
                                );
                            },
                            Err(e) => {},
                        }
                    },
                    _ => {},
                }
            },
            TokenType::Semicolon => {
                lemma_success_means_no_error(tokens.skip(1), nodes, errors);
            },
            _ => {},
        }
    }
}

proof fn lemma_after_variable_no_error(
    tokens: Seq<Token>,
    constant: bool,
    nodes: Seq<AstView>,
    errors: Seq<ErrorView>,
)
    ensures
        after_variable(tokens, constant, nodes, errors) is Ok ==> errors.len() == 0,
        after_variable(tokens, constant, nodes, errors) matches Err(FailureView::Errors(es))
            ==> es.len() > 0,
    decreases tokens.len(), 0nat,
{
    if tokens.len() > 0 {
        lemma_variable_progress(tokens, 0, constant, nodes, true);
        match variable_outcome(tokens, 0, constant, nodes, true) {
            Ok((s, next)) => {
                lemma_success_means_no_error(
                    tokens.skip(next),
                    nodes.push(AstView::Statement(s)),
                    errors,
                );
            },
            Err((e, next)) => {
                lemma_success_means_no_error(tokens.skip(next), nodes, errors.push(e));
            },
        }
    }
}

/// No tuple type in the node holds a tuple: the type of a declaration is
/// flat, and the types in the head of a function hold no tuple at all.
pub open spec fn flat_node(node: AstView) -> bool {
    match node {
        AstView::Statement(StatementView::VariableAssignment { var_type, .. }) => var_type.flat(),
        AstView::Statement(StatementView::Function { params, ret_type, .. }) => ret_type.tuple_free()
            && forall|i: int| 0 <= i < params.len() ==> (#[trigger] params[i]).1.tuple_free(),
        _ => true,
    }
}

/// What holds of the nodes of every parse: no two of them declare a
/// variable of the same name, and no tuple type in them holds a tuple.
pub open spec fn tidy(nodes: Seq<AstView>) -> bool {
    &&& unique_declarations(nodes)
    &&& forall|i: int| 0 <= i < nodes.len() ==> flat_node(#[trigger] nodes[i])
}

/// What a successful parse keeps of the nodes made before.
pub open spec fn kept(nodes: Seq<AstView>, all: Seq<AstView>) -> bool {
    &&& nodes.len() <= all.len()
    &&& all.take(nodes.len() as int) == nodes
    &&& tidy(nodes) ==> tidy(all)
}

/// The nodes of a successful parse start with the nodes made before, in
/// their order. If the nodes made before are tidy, so are all: no variable
/// is declared twice, and no tuple type holds a tuple.
pub proof fn lemma_parse_keeps_nodes_tidy(
    tokens: Seq<Token>,
    nodes: Seq<AstView>,
    errors: Seq<ErrorView>,
)
    ensures
        parse_from(tokens, nodes, errors) matches Ok(all) ==> kept(nodes, all),
    decreases tokens.len(), 1nat,
{
    assert(nodes.take(nodes.len() as int) =~= nodes);
    if tokens.len() > 0 {
        let first = tokens[0];
        match first.token_type {
            TokenType::Import => match import_outcome(tokens, 0) {
                Ok((s, next)) => {
                    lemma_step_keeps(tokens.skip(next), nodes, AstView::Statement(s), errors);
                },
                Err(e) => {},
            },
            TokenType::Immut => lemma_after_variable_keeps(tokens, true, nodes, errors),
            TokenType::Let => lemma_after_variable_keeps(tokens, false, nodes, errors),
            TokenType::Function => {
                lemma_function_progress(tokens, 0);
                lemma_function_holds_no_tuple(tokens, 0);
                match function_outcome(tokens, 0) {
                    Ok((f, next)) => {
                        lemma_step_keeps(tokens.skip(next), nodes, AstView::Statement(f), errors);
                    },
                    Err(e) => {},
                }
            },
            TokenType::Identifier => if tokens.len() >= 2 {
                match tokens[1].token_type {
                    TokenType::ColonEq | TokenType::Colon => lemma_after_variable_keeps(
                        tokens,
                        false,
                        nodes,
                        errors,
                    ),
                    TokenType::LParen => {
                        lemma_arguments_bounds(tokens, 2, Seq::empty(), Seq::empty());
                        match call_outcome(tokens, 0) {
                            Ok((call, added, next)) => {
                                lemma_step_keeps(
                                    tokens.skip(next),
                                    nodes,
                                    AstView::Expression(call),
                                    errors + added,
                                );
                            },
                            Err(e) => {},
                        }
                    },
                    _ => {},
                }
            },
            TokenType::Semicolon => {
                lemma_parse_keeps_nodes_tidy(tokens.skip(1), nodes, errors);
            },
            TokenType::EOF => {
                lemma_push_keeps(nodes, end_marker());
            },
            _ => {},
        }
    }
}

/// Adding a node keeps the nodes tidy if the node is flat and declares no
/// variable, or one of a new name.
proof fn lemma_push_keeps(nodes: Seq<AstView>, node: AstView)
    requires
        declared_name(node) matches Some(name) ==> !declares(nodes, name),
        flat_node(node),
    ensures
        kept(nodes, nodes.push(node)),
{
    let all = nodes.push(node);
    assert(all.take(nodes.len() as int) =~= nodes);
    if tidy(nodes) {
        assert forall|i: int, j: int|
            0 <= i < j < all.len() && declared_name(#[trigger] all[i]) is Some implies declared_name(
            #[trigger] all[j],
        ) != declared_name(all[i]) by {
            if j < nodes.len() {
                assert(all[i] == nodes[i] && all[j] == nodes[j]);
            } else {
                assert(all[i] == nodes[i]);
                if declared_name(node) == declared_name(nodes[i]) {
                    assert(declares(nodes, declared_name(node)->0));
                }
            }
        }
        assert forall|i: int| 0 <= i < all.len() implies flat_node(#[trigger] all[i]) by {
            if i < nodes.len() {
                assert(all[i] == nodes[i]);
            }
        }
    }
}

proof fn lemma_step_keeps(
    rest: Seq<Token>,
    nodes: Seq<AstView>,
    node: AstView,
    errors: Seq<ErrorView>,
)
    requires
        declared_name(node) matches Some(name) ==> !declares(nodes, name),
        flat_node(node),
    ensures
        parse_from(rest, nodes.push(node), errors) matches Ok(all) ==> kept(nodes, all),
    decreases rest.len(), 2nat,
{
    lemma_push_keeps(nodes, node);
    lemma_parse_keeps_nodes_tidy(rest, nodes.push(node), errors);
    match parse_from(rest, nodes.push(node), errors) {
        Ok(all) => {
            assert(all.take(nodes.len() as int) =~= all.take(nodes.len() as int + 1).take(
                nodes.len() as int,
            ));
        },
        Err(_) => {},
    }
}

proof fn lemma_after_variable_keeps(
    tokens: Seq<Token>,
    constant: bool,
    nodes: Seq<AstView>,
    errors: Seq<ErrorView>,
)
    ensures
        after_variable(tokens, constant, nodes, errors) matches Ok(all) ==> kept(nodes, all),
    decreases tokens.len(), 0nat,
{
    assert(nodes.take(nodes.len() as int) =~= nodes);
    if tokens.len() > 0 {
        lemma_variable_progress(tokens, 0, constant, nodes, true);
        match variable_outcome(tokens, 0, constant, nodes, true) {
            Ok((s, next)) => {
                crate::parse::stmt::variable::lemma_declaration_is_new(tokens, 0, constant, nodes);
                lemma_step_keeps(tokens.skip(next), nodes, AstView::Statement(s), errors);
            },
            Err((e, next)) => {
                lemma_parse_keeps_nodes_tidy(tokens.skip(next), nodes, errors.push(e));
            },
        }
    }
}

impl Parser {
    /// A parser at the start of `tokens`, with no node and no error yet.
    pub fn new(tokens: Vec<Token>) -> (r: Parser)
        ensures
            r.tokens == tokens,
            r.cursor == 0,
            r.nodes@ == Seq::<Ast>::empty(),
            r.errors@ == Seq::<VeloError>::empty(),
    {
        Parser { tokens, cursor: 0, nodes: Vec::new(), errors: Vec::new() }
    }

    /// Empties the parser.
    fn spend(&mut self)
        ensures
            final(self).tokens@.len() == 0,
            final(self).nodes@.len() == 0,
            final(self).errors@.len() == 0,
            final(self).cursor == 0,
    {
        self.tokens.clear();
        self.nodes.clear();
        self.errors.clear();
        self.cursor = 0;
    }

    /// Hands out what the parse ends with when no token is left.
    fn finish(&mut self) -> (r: Result<Vec<Ast>, ParseFailure>)
        ensures
            match finished(ast_views(old(self).nodes@), error_views(old(self).errors@)) {
                Ok(nodes) => r matches Ok(v) && ast_views(v@) == nodes,
                Err(f) => r matches Err(failure) && failure@ == f,
            },
            final(self).tokens@.len() == 0,
            final(self).nodes@.len() == 0,
            final(self).errors@.len() == 0,
            final(self).cursor == 0,
    {
        let mut nodes: Vec<Ast> = Vec::new();
        let mut errors: Vec<VeloError> = Vec::new();
        core::mem::swap(&mut nodes, &mut self.nodes);
        core::mem::swap(&mut errors, &mut self.errors);
        self.spend();
        if errors.len() == 0 {
            Ok(nodes)
        } else {
            Err(ParseFailure::Errors(errors))
        }
    }

    /// Reads the declaration at the front of the stream.
    fn step_declaration(&mut self, constant: bool)
        requires
            old(self).tokens@.len() > 0,
            old(self).cursor == 0,
        ensures
            after_variable(
                old(self).tokens@,
                constant,
                ast_views(old(self).nodes@),
                error_views(old(self).errors@),
            ) == parse_from(
                final(self).tokens@,
                ast_views(final(self).nodes@),
                error_views(final(self).errors@),
            ),
            final(self).tokens@.len() < old(self).tokens@.len(),
            final(self).cursor == 0,
    {
        let ghost tokens = self.tokens@;
        let ghost nodes = self.nodes@;
        let ghost errors = self.errors@;
        proof {
            lemma_variable_progress(tokens, 0, constant, ast_views(nodes), true);
        }
        self.variable_assignment(constant, None, false);
        proof {
            match variable_outcome(tokens, 0, constant, ast_views(nodes), true) {
                Ok((s, next)) => {
                    lemma_appended(nodes, self.nodes@, AstView::Statement(s));
                },
                Err((e, next)) => {
                    lemma_recorded(errors, self.errors@, e);
                },
            }
        }
    }

    /// Reads the function declaration at the front of the stream.
    fn step_function(&mut self)
        requires
            old(self).tokens@.len() > 0,
            old(self).tokens@[0].token_type == TokenType::Function,
            old(self).cursor == 0,
        ensures
            parse_from(
                old(self).tokens@,
                ast_views(old(self).nodes@),
                error_views(old(self).errors@),
            ) == parse_from(
                final(self).tokens@,
                ast_views(final(self).nodes@),
                error_views(final(self).errors@),
            ),
            final(self).tokens@.len() < old(self).tokens@.len(),
            final(self).cursor == 0,
    {
        let ghost tokens = self.tokens@;
        let ghost nodes = self.nodes@;
        let ghost errors = self.errors@;
        proof {
            lemma_function_progress(tokens, 0);
        }
        self.function_declaration();
        proof {
            match function_outcome(tokens, 0) {
                Ok((f, next)) => {
                    lemma_appended(nodes, self.nodes@, AstView::Statement(f));
                },
                Err(e) => {
                    lemma_recorded(errors, self.errors@, e);
                    assert(self.tokens@.len() == 0);
                },
            }
        }
    }

    /// Reads the import at the front of the stream.
    fn step_import(&mut self) -> (r: Option<ParseFailure>)
        requires
            old(self).tokens@.len() > 0,
            old(self).tokens@[0].token_type == TokenType::Import,
            old(self).cursor == 0,
        ensures
            match r {
                None => parse_from(
                    old(self).tokens@,
                    ast_views(old(self).nodes@),
                    error_views(old(self).errors@),
                ) == parse_from(
                    final(self).tokens@,
                    ast_views(final(self).nodes@),
                    error_views(final(self).errors@),
                ) && final(self).tokens@.len() < old(self).tokens@.len(),
                Some(f) => parse_from(
                    old(self).tokens@,
                    ast_views(old(self).nodes@),
                    error_views(old(self).errors@),
                ) == Err::<Seq<AstView>, FailureView>(f@),
            },
            final(self).cursor == 0,
    {
        let ghost tokens = self.tokens@;
        let ghost nodes = self.nodes@;
        match self.parse_import() {
            Ok(()) => {
                proof {
                    lemma_appended(
                        nodes,
                        self.nodes@,
                        AstView::Statement(import_outcome(tokens, 0)->Ok_0.0),
                    );
                }
                None
            },
            Err(e) => Some(ParseFailure::Fatal(e)),
        }
    }

    /// Reads the call at the front of the stream.
    fn step_call(&mut self) -> (r: Option<ParseFailure>)
        requires
            old(self).tokens@.len() >= 2,
            old(self).tokens@[0].token_type == TokenType::Identifier,
            old(self).tokens@[1].token_type == TokenType::LParen,
            old(self).cursor == 0,
        ensures
            match r {
                None => parse_from(
                    old(self).tokens@,
                    ast_views(old(self).nodes@),
                    error_views(old(self).errors@),
                ) == parse_from(
                    final(self).tokens@,
                    ast_views(final(self).nodes@),
                    error_views(final(self).errors@),
                ) && final(self).tokens@.len() < old(self).tokens@.len(),
                Some(f) => parse_from(
                    old(self).tokens@,
                    ast_views(old(self).nodes@),
                    error_views(old(self).errors@),
                ) == Err::<Seq<AstView>, FailureView>(f@),
            },
            final(self).cursor == 0,
    {
        let ghost tokens = self.tokens@;
        let ghost nodes = self.nodes@;
        let ghost errors = self.errors@;
        proof {
            lemma_arguments_bounds(tokens, 2, Seq::empty(), Seq::empty());
        }
        match self.call_expr() {
            Ok(()) => {
                proof {
                    let out = call_outcome(tokens, 0)->Ok_0;
                    lemma_appended(nodes, self.nodes@, AstView::Expression(out.0));
                    lemma_extended(errors, self.errors@, out.1);
                }
                None
            },
            Err(e) => Some(ParseFailure::Fatal(e)),
        }
    }

    /// The failure for a statement that starts with a token that starts none,
    /// or with an identifier that nothing known follows.
    fn step_unknown(&self) -> (r: ParseFailure)
        requires
            self.tokens@.len() > 0,
            match self.tokens@[0].token_type {
                TokenType::Import | TokenType::Immut | TokenType::Let | TokenType::Function
                | TokenType::Semicolon | TokenType::EOF => false,
                TokenType::Identifier => self.tokens@.len() < 2 || !(self.tokens@[1].token_type
                    == TokenType::ColonEq || self.tokens@[1].token_type == TokenType::Colon
                    || self.tokens@[1].token_type == TokenType::LParen),
                _ => true,
            },
        ensures
            parse_from(self.tokens@, ast_views(self.nodes@), error_views(self.errors@)) == Err::<
                Seq<AstView>,
                FailureView,
            >(r@),
    {
        let first = &self.tokens[0];
        if first.token_type == TokenType::Identifier {
            if self.tokens.len() < 2 {
                ParseFailure::Fatal(error_at(first.line_num, String::from_str("unexpected EOF")))
            } else if self.tokens[1].token_type == TokenType::Eq {
                ParseFailure::NotImplemented(
                    error_at(
                        first.line_num,
                        joined3("Reassignment of '", first.lexeme.as_str(), "' is not implemented"),
                    ),
                )
            } else {
                ParseFailure::NotImplemented(
                    error_at(
                        self.tokens[1].line_num,
                        joined5(
                            "Statements that start with '",
                            first.lexeme.as_str(),
                            "' followed by '",
                            self.tokens[1].token_type.name(),
                            "' are not implemented",
                        ),
                    ),
                )
            }
        } else {
            ParseFailure::Fatal(
                error_at(
                    first.line_num,
                    joined5(
                        "incomplete: no statement starts with '",
                        first.token_type.name(),
                        "' (",
                        first.lexeme.as_str(),
                        ")",
                    ),
                ),
            )
        }
    }

    /// Parses the tokens from the front of the stream to its end, statement
    /// by statement, and spends the parser. The nodes come back, in the
    /// order of the statements, if no error was recorded; else the errors
    /// come back, and no node. A statement that cannot be made out at all
    /// ends the parse at once with that one error.
    pub fn parse(&mut self) -> (r: Result<Vec<Ast>, ParseFailure>)
        ensures
            match parse_from(
                old(self).tokens@,
                ast_views(old(self).nodes@),
                error_views(old(self).errors@),
            ) {
                Ok(nodes) => r matches Ok(v) && ast_views(v@) == nodes,
                Err(f) => r matches Err(failure) && failure@ == f,
            },
            r matches Ok(v) ==> old(self).errors@.len() == 0 && kept(
                ast_views(old(self).nodes@),
                ast_views(v@),
            ),
            r matches Err(ParseFailure::Errors(es)) ==> es@.len() > 0,
            final(self).tokens@.len() == 0,
            final(self).nodes@.len() == 0,
            final(self).errors@.len() == 0,
            final(self).cursor == 0,
    {
        proof {
            lemma_success_means_no_error(
                self.tokens@,
                ast_views(self.nodes@),
                error_views(self.errors@),
            );
            lemma_parse_keeps_nodes_tidy(
                self.tokens@,
                ast_views(self.nodes@),
                error_views(self.errors@),
            );
        }
        self.cursor = 0;
        let ghost goal = parse_from(
            old(self).tokens@,
            ast_views(old(self).nodes@),
            error_views(old(self).errors@),
        );
        while self.tokens.len() > 0
            invariant
                self.cursor == 0,
                goal == parse_from(
                    old(self).tokens@,
                    ast_views(old(self).nodes@),
                    error_views(old(self).errors@),
                ),
                goal == parse_from(self.tokens@, ast_views(self.nodes@), error_views(self.errors@)),
                goal matches Err(FailureView::Errors(es)) ==> es.len() > 0,
            decreases self.tokens.len(),
        {
            let first = self.tokens[0].token_type;
            let second = if self.tokens.len() >= 2 {
                Some(self.tokens[1].token_type)
            } else {
                None
            };
            let failure = match (first, second) {
                (TokenType::Immut, _) => {
                    self.step_declaration(true);
                    None
                },
                (TokenType::Let, _) => {
                    self.step_declaration(false);
                    None
                },
                (TokenType::Identifier, Some(TokenType::ColonEq)) => {
                    self.step_declaration(false);
                    None
                },
                (TokenType::Identifier, Some(TokenType::Colon)) => {
                    self.step_declaration(false);
                    None
                },
                (TokenType::Identifier, Some(TokenType::LParen)) => self.step_call(),
                (TokenType::Import, _) => self.step_import(),
                (TokenType::Function, _) => {
                    self.step_function();
                    None
                },
                (TokenType::Semicolon, _) => {
                    let ghost tokens = self.tokens@;
                    self.tokens.remove(0);
                    assert(self.tokens@ =~= tokens.skip(1));
                    None
                },
                (TokenType::EOF, _) => {
                    let ghost nodes = self.nodes@;
                    self.nodes.push(Ast::Expression(Expression::Literal(Literal::Null)));
                    self.tokens.clear();
                    assert(ast_views(self.nodes@) =~= ast_views(nodes).push(end_marker()));
                    None
                },
                _ => Some(self.step_unknown()),
            };
            match failure {
                Some(f) => {
                    self.spend();
                    return Err(f);
                },
                None => {},
            }
        }
        self.finish()
    }
}

} // verus!
