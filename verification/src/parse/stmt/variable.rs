//! Variable declarations: `name := value ;` and `name : type = value ;`, with
//! or without `immut` or `let` before the name.

use crate::ast::{ast_views, Ast, AstView, Statement, StatementView};
use crate::error::{error_at, parse_error, ErrorView, VeloError};
use crate::parse::changes::{appended, recorded};
use crate::parse::literal::{lemma_run_end_bounds, literal_outcome, read_literal};
use crate::parse::messages::{
    binding_message, declaration_end_message, duplicate_message, nested_tuple_message,
    semicolon_message, tuple_separator_message, unknown_type_message, variable_name_message,
};
use crate::parse::Parser;
use crate::text::{joined3, joined5};
use crate::token::{token_name, Token, TokenType};
use crate::types::{type_of_name, Type, TypeView};
use vstd::prelude::*;
use vstd::string::*;

verus! {

/// A declaration that was read, with the index behind it; or the error that
/// was recorded, with the index where reading goes on.
pub type VariableOutcome = Result<(StatementView, int), (ErrorView, int)>;

/// A keyword that starts a declaration: the name follows it.
pub open spec fn is_declaration_keyword(t: TokenType) -> bool {
    t == TokenType::Immut || t == TokenType::Let
}

/// `:=` or `=`.
pub open spec fn is_binding(t: TokenType) -> bool {
    t == TokenType::ColonEq || t == TokenType::Eq
}

/// The index behind the first semicolon at or after `from`; the number of
/// tokens where there is none. This is where reading goes on after a
/// declaration that was given up.
pub open spec fn skip_statement(tokens: Seq<Token>, from: int) -> int
    decreases tokens.len() - from,
{
    if from < 0 || from >= tokens.len() {
        tokens.len() as int
    } else if tokens[from].token_type == TokenType::Semicolon {
        from + 1
    } else {
        skip_statement(tokens, from + 1)
    }
}

/// The error that expecting a token of class `class` at `at` records: none
/// where such a token stands there. Where the tokens end before `at`, the
/// error is put on the line of the last token.
pub open spec fn expectation(tokens: Seq<Token>, at: int, class: TokenType, message: Seq<char>) -> Option<
    ErrorView,
> {
    if 0 <= at < tokens.len() {
        if tokens[at].token_type == class {
            None
        } else {
            Some(parse_error(tokens[at].line_num, message))
        }
    } else if tokens.len() > 0 {
        Some(parse_error(tokens[tokens.len() - 1].line_num, message))
    } else {
        Some(parse_error(0, message))
    }
}

/// The name that a node declares, where it declares a variable that is no constant.
pub open spec fn declared_name(node: AstView) -> Option<Seq<char>> {
    match node {
        AstView::Statement(StatementView::VariableAssignment { name, constant, .. }) => if constant {
            None
        } else {
            Some(name)
        },
        _ => None,
    }
}

/// Whether `nodes` hold the declaration of a variable, not a constant, named `name`.
pub open spec fn declares(nodes: Seq<AstView>, name: Seq<char>) -> bool {
    exists|i: int| 0 <= i < nodes.len() && declared_name(#[trigger] nodes[i]) == Some(name)
}

/// No two nodes declare a variable of the same name.
pub open spec fn unique_declarations(nodes: Seq<AstView>) -> bool {
    forall|i: int, j: int|
        0 <= i < j < nodes.len() && declared_name(#[trigger] nodes[i]) is Some ==> declared_name(
            #[trigger] nodes[j],
        ) != declared_name(nodes[i])
}

/// The element types of a tuple type from `p` on, and the index behind the
/// closing `)`; or the error, with the index of the token that caused it.
/// A `(` among the elements is an error: a tuple holds no tuple.
pub open spec fn tuple_from(tokens: Seq<Token>, p: int, acc: Seq<TypeView>) -> Result<
    (Seq<TypeView>, int),
    (ErrorView, int),
>
    decreases tokens.len() - p,
{
    if p < 0 || p >= tokens.len() {
        Err((parse_error(0, declaration_end_message()), tokens.len() as int))
    } else if tokens[p].token_type == TokenType::RParen {
        Ok((acc, p + 1))
    } else if tokens[p].token_type == TokenType::LParen {
        Err((parse_error(tokens[p].line_num, nested_tuple_message()), p))
    } else {
        match type_of_name(tokens[p].lexeme@) {
            None => Err(
                (parse_error(tokens[p].line_num, unknown_type_message(tokens[p].lexeme@)), p),
            ),
            Some(t) => if p + 1 >= tokens.len() {
                Err((parse_error(0, declaration_end_message()), tokens.len() as int))
            } else if tokens[p + 1].token_type == TokenType::Comma {
                tuple_from(tokens, p + 2, acc.push(t))
            } else if tokens[p + 1].token_type == TokenType::RParen {
                Ok((acc.push(t), p + 2))
            } else {
                Err(
                    (
                        parse_error(
                            tokens[p + 1].line_num,
                            tuple_separator_message(token_name(tokens[p + 1].token_type)),
                        ),
                        p + 1,
                    ),
                )
            },
        }
    }
}

/// The type that is written at `p`, behind the `:` of a declaration: one
/// type name, or the elements of a tuple in parentheses.
pub open spec fn type_clause_at(tokens: Seq<Token>, p: int) -> Result<
    (TypeView, int),
    (ErrorView, int),
> {
    if p < 0 || p >= tokens.len() {
        Err((parse_error(0, declaration_end_message()), tokens.len() as int))
    } else if tokens[p].token_type == TokenType::LParen {
        match tuple_from(tokens, p + 1, Seq::empty()) {
            Ok((es, next)) => Ok((TypeView::Tuple(es), next)),
            Err(e) => Err(e),
        }
    } else {
        match type_of_name(tokens[p].lexeme@) {
            Some(t) => Ok((t, p + 1)),
            None => Err(
                (parse_error(tokens[p].line_num, unknown_type_message(tokens[p].lexeme@)), p),
            ),
        }
    }
}

/// The view of a declared type, if one was declared.
pub open spec fn declared_view(declared: Option<Type>) -> Option<TypeView> {
    match declared {
        Some(t) => Some(t@),
        None => None,
    }
}

/// The type that a value is read against: the declared one, or `Void`
/// where the type is to be inferred.
pub open spec fn expected_type(declared: Option<TypeView>) -> TypeView {
    match declared {
        Some(t) => t,
        None => TypeView::Void,
    }
}

/// The declaration of `name` whose value starts at `v`. The value is read
/// against the declared type, or its type is inferred where none was
/// declared. A semicolon must follow. A variable, not a constant, must not
/// have been declared before.
pub open spec fn value_at(
    tokens: Seq<Token>,
    v: int,
    name_at: int,
    constant: bool,
    declared: Option<TypeView>,
    nodes: Seq<AstView>,
    check: bool,
) -> VariableOutcome {
    if v < 0 || v >= tokens.len() {
        Err((parse_error(0, declaration_end_message()), tokens.len() as int))
    } else {
        let name = tokens[name_at].lexeme@;
        let out = literal_outcome(tokens, v, tokens[v], expected_type(declared), declared is None);
        match out.error {
            Some(e) => Err((e, skip_statement(tokens, out.last + 1))),
            None => match expectation(
                tokens,
                out.last + 1,
                TokenType::Semicolon,
                semicolon_message(name),
            ) {
                Some(e) => Err((e, out.last + 1)),
                None => if check && !constant && declares(nodes, name) {
                    Err(
                        (
                            parse_error(tokens[name_at].line_num, duplicate_message(name)),
                            out.last + 2,
                        ),
                    )
                } else {
                    Ok(
                        (
                            StatementView::VariableAssignment {
                                name,
                                constant,
                                var_type: match declared {
                                    Some(t) => t,
                                    None => match out.ty {
                                        Some(t) => t,
                                        None => TypeView::Void,
                                    },
                                },
                                value: out.expr,
                            },
                            out.last + 2,
                        ),
                    )
                },
            },
        }
    }
}

/// The declaration that starts at `start`: an optional `immut` or `let`,
/// the name, then `:=` or `=` and the value, or `:`, a type, `:=` or `=`
/// and the value; then a semicolon.
pub open spec fn variable_outcome(
    tokens: Seq<Token>,
    start: int,
    constant: bool,
    nodes: Seq<AstView>,
    check: bool,
) -> VariableOutcome {
    let end = tokens.len() as int;
    if start < 0 || start >= tokens.len() {
        Err((parse_error(0, declaration_end_message()), end))
    } else {
        let name_at = if is_declaration_keyword(tokens[start].token_type) {
            start + 1
        } else {
            start
        };
        if name_at >= tokens.len() {
            Err((parse_error(0, declaration_end_message()), end))
        } else if tokens[name_at].token_type != TokenType::Identifier {
            Err(
                (
                    parse_error(
                        tokens[name_at].line_num,
                        variable_name_message(token_name(tokens[name_at].token_type)),
                    ),
                    skip_statement(tokens, name_at),
                ),
            )
        } else if name_at + 1 >= tokens.len() {
            Err((parse_error(0, declaration_end_message()), end))
        } else if is_binding(tokens[name_at + 1].token_type) {
            value_at(tokens, name_at + 2, name_at, constant, None, nodes, check)
        } else if tokens[name_at + 1].token_type == TokenType::Colon {
            match type_clause_at(tokens, name_at + 2) {
                Err((e, at)) => Err((e, skip_statement(tokens, at))),
                Ok((t, q)) => if q >= tokens.len() {
                    Err((parse_error(0, declaration_end_message()), end))
                } else if is_binding(tokens[q].token_type) {
                    value_at(tokens, q + 1, name_at, constant, Some(t), nodes, check)
                } else {
                    Err(
                        (
                            parse_error(
                                tokens[q].line_num,
                                binding_message(
                                    tokens[name_at].lexeme@,
                                    token_name(tokens[q].token_type),
                                ),
                            ),
                            skip_statement(tokens, q),
                        ),
                    )
                },
            }
        } else {
            Err(
                (
                    parse_error(
                        tokens[name_at + 1].line_num,
                        binding_message(
                            tokens[name_at].lexeme@,
                            token_name(tokens[name_at + 1].token_type),
                        ),
                    ),
                    skip_statement(tokens, name_at + 1),
                ),
            )
        }
    }
}

/// Skipping a statement ends behind where it starts, within the tokens.
pub proof fn lemma_skip_statement_bounds(tokens: Seq<Token>, from: int)
    ensures
        skip_statement(tokens, from) <= tokens.len(),
        0 <= from < tokens.len() ==> from < skip_statement(tokens, from),
        from >= tokens.len() ==> skip_statement(tokens, from) == tokens.len(),
    decreases tokens.len() - from,
{
    if 0 <= from < tokens.len() && tokens[from].token_type != TokenType::Semicolon {
        lemma_skip_statement_bounds(tokens, from + 1);
    }
}

/// A value ends at or behind the token it starts with, within the tokens.
pub proof fn lemma_literal_last_bounds(
    tokens: Seq<Token>,
    cursor: int,
    token: Token,
    expected: TypeView,
    infer: bool,
)
    requires
        0 <= cursor < tokens.len(),
    ensures
        cursor <= literal_outcome(tokens, cursor, token, expected, infer).last < tokens.len(),
{
    if cursor + 1 < tokens.len() {
        lemma_run_end_bounds(tokens, cursor + 1);
        if crate::parse::literal::in_run(tokens[cursor + 1]) {
            lemma_run_end_bounds(tokens, cursor + 2);
        }
    }
}

/// The elements of a tuple type are no tuples, and the type ends behind
/// where it starts.
pub proof fn lemma_tuple_from(tokens: Seq<Token>, p: int, acc: Seq<TypeView>)
    requires
        forall|i: int| 0 <= i < acc.len() ==> !(#[trigger] acc[i] is Tuple),
    ensures
        tuple_from(tokens, p, acc) matches Ok((es, next)) ==> p < next <= tokens.len() && (forall|
            i: int,
        | 0 <= i < es.len() ==> !(#[trigger] es[i] is Tuple)),
        tuple_from(tokens, p, acc) matches Err((_, at)) ==> p <= at <= tokens.len() || at
            == tokens.len(),
    decreases tokens.len() - p,
{
    if 0 <= p < tokens.len() && tokens[p].token_type != TokenType::RParen && tokens[p].token_type
        != TokenType::LParen {
        match type_of_name(tokens[p].lexeme@) {
            Some(t) => {
                crate::types::lemma_named_type_is_no_tuple(tokens[p].lexeme@);
                if p + 1 < tokens.len() && tokens[p + 1].token_type == TokenType::Comma {
                    lemma_tuple_from(tokens, p + 2, acc.push(t));
                }
            },
            None => {},
        }
    }
}

/// A declaration that is read, or given up, moves on by at least one token
/// and stays within the tokens; and no tuple type that is read holds a tuple.
pub proof fn lemma_variable_progress(
    tokens: Seq<Token>,
    start: int,
    constant: bool,
    nodes: Seq<AstView>,
    check: bool,
)
    requires
        0 <= start < tokens.len(),
    ensures
        variable_outcome(tokens, start, constant, nodes, check) matches Ok((s, next)) ==> start
            < next <= tokens.len() && s is VariableAssignment && s->var_type.flat()
            && s->VariableAssignment_constant == constant,
        variable_outcome(tokens, start, constant, nodes, check) matches Err((_, next)) ==> start
            < next <= tokens.len(),
{
    let name_at = if is_declaration_keyword(tokens[start].token_type) {
        start + 1
    } else {
        start
    };
    lemma_skip_statement_bounds(tokens, name_at);
    lemma_skip_statement_bounds(tokens, name_at + 1);
    if name_at + 1 < tokens.len() && tokens[name_at].token_type == TokenType::Identifier {
        if is_binding(tokens[name_at + 1].token_type) {
            lemma_value_progress(tokens, name_at + 2, name_at, constant, None, nodes, check);
        } else if tokens[name_at + 1].token_type == TokenType::Colon {
            let p = name_at + 2;
            lemma_tuple_from(tokens, p + 1, Seq::empty());
            if p < tokens.len() {
                crate::types::lemma_named_type_is_no_tuple(tokens[p].lexeme@);
            }
            match type_clause_at(tokens, p) {
                Err((e, at)) => {
                    lemma_skip_statement_bounds(tokens, at);
                },
                Ok((t, q)) => {
                    lemma_skip_statement_bounds(tokens, q);
                    lemma_value_progress(tokens, q + 1, name_at, constant, Some(t), nodes, check);
                },
            }
        }
    }
}

/// The value part of a declaration ends behind where it starts.
pub proof fn lemma_value_progress(
    tokens: Seq<Token>,
    v: int,
    name_at: int,
    constant: bool,
    declared: Option<TypeView>,
    nodes: Seq<AstView>,
    check: bool,
)
    requires
        0 <= v,
    ensures
        value_at(tokens, v, name_at, constant, declared, nodes, check) matches Ok((s, next)) ==> v
            < next <= tokens.len() && s is VariableAssignment && s->VariableAssignment_constant
            == constant && (
        declared matches Some(t) ==> s->var_type == t) && (declared is None ==> !(s->var_type is Tuple)),
        value_at(tokens, v, name_at, constant, declared, nodes, check) matches Err((_, next))
            ==> next <= tokens.len() && (v < next || next == tokens.len()),
{
    if v < tokens.len() {
        let expected = expected_type(declared);
        lemma_literal_last_bounds(tokens, v, tokens[v], expected, declared is None);
        let out = literal_outcome(tokens, v, tokens[v], expected, declared is None);
        lemma_skip_statement_bounds(tokens, out.last + 1);
        if declared is None {
            crate::parse::literal::lemma_inferred_type_is_no_tuple(tokens, v, tokens[v]);
        }
    }
}

/// A `(` where an element of a tuple type should stand is an error: a tuple
/// type holds no tuple type.
pub proof fn lemma_tuple_in_tuple_is_rejected(tokens: Seq<Token>, p: int, acc: Seq<TypeView>)
    requires
        0 <= p < tokens.len(),
        tokens[p].token_type == TokenType::LParen,
    ensures
        tuple_from(tokens, p, acc) == Err::<(Seq<TypeView>, int), (ErrorView, int)>(
            (parse_error(tokens[p].line_num, nested_tuple_message()), p),
        ),
{
}

/// No declaration that is read has a tuple type that holds a tuple.
pub proof fn lemma_declared_type_is_flat(
    tokens: Seq<Token>,
    start: int,
    constant: bool,
    nodes: Seq<AstView>,
    check: bool,
)
    ensures
        variable_outcome(tokens, start, constant, nodes, check) matches Ok((s, _)) ==> s matches StatementView::VariableAssignment {
            var_type,
            ..
        } && var_type.flat(),
{
    if 0 <= start < tokens.len() {
        lemma_variable_progress(tokens, start, constant, nodes, check);
    }
}

/// A declaration that is read at the top level declares a constant, or a
/// variable whose name no earlier node declares.
pub proof fn lemma_declaration_is_new(
    tokens: Seq<Token>,
    start: int,
    constant: bool,
    nodes: Seq<AstView>,
)
    ensures
        variable_outcome(tokens, start, constant, nodes, true) matches Ok((s, _)) ==> (
        declared_name(AstView::Statement(s)) matches Some(name) ==> !declares(nodes, name)),
{
}

/// Declaring a variable again is an error: where a declaration of `name`
/// could be read if no variable had been declared before, and a variable
/// of that name has been declared, the error that says so is recorded in
/// its place, and reading goes on behind the declaration.
pub proof fn lemma_redeclaration_is_rejected(
    tokens: Seq<Token>,
    start: int,
    nodes: Seq<AstView>,
    name: Seq<char>,
    next: int,
)
    requires
        variable_outcome(tokens, start, false, Seq::empty(), true) matches Ok((s, n))
            && declared_name(AstView::Statement(s)) == Some(name) && n == next,
        declares(nodes, name),
    ensures
        variable_outcome(tokens, start, false, nodes, true) matches Err((e, n)) && e.message
            == duplicate_message(name) && n == next,
{
    assert(!declares(Seq::<AstView>::empty(), name));
}

fn end_of_declaration() -> (r: VeloError)
    ensures
        r@ == parse_error(0, declaration_end_message()),
{
    error_at(0, String::from_str("Unexpected end of input in variable declaration"))
}

/// The index behind the first semicolon at or after `from`.
pub fn skip_to_statement_end(tokens: &Vec<Token>, from: usize) -> (r: usize)
    ensures
        r == skip_statement(tokens@, from as int),
        r <= tokens.len(),
{
    let mut i: usize = from;
    while i < tokens.len()
        invariant
            skip_statement(tokens@, from as int) == skip_statement(tokens@, i as int),
        decreases tokens.len() - i,
    {
        if tokens[i].token_type == TokenType::Semicolon {
            return i + 1;
        }
        i += 1;
    }
    tokens.len()
}

/// The error that expecting a token of class `class` at `at` gives, if any.
pub fn expected_at(tokens: &Vec<Token>, at: usize, class: TokenType, message: String) -> (r: Option<
    VeloError,
>)
    ensures
        r is Some <==> expectation(tokens@, at as int, class, message@) is Some,
        r matches Some(e) ==> Some(e@) == expectation(tokens@, at as int, class, message@),
{
    if at < tokens.len() {
        if tokens[at].token_type == class {
            None
        } else {
            Some(error_at(tokens[at].line_num, message))
        }
    } else if tokens.len() > 0 {
        Some(error_at(tokens[tokens.len() - 1].line_num, message))
    } else {
        Some(error_at(0, message))
    }
}

/// Whether `nodes` hold the declaration of a variable, not a constant, named `name`.
pub fn has_declaration(nodes: &Vec<Ast>, name: &String) -> (r: bool)
    ensures
        r == declares(ast_views(nodes@), name@),
{
    let mut i: usize = 0;
    while i < nodes.len()
        invariant
            i <= nodes.len(),
            forall|j: int| 0 <= j < i ==> declared_name(#[trigger] ast_views(nodes@)[j]) != Some(name@),
        decreases nodes.len() - i,
    {
        let found = match &nodes[i] {
            Ast::Statement(Statement::VariableAssignment { name: n, constant, .. }) => !*constant
                && *n == *name,
            _ => false,
        };
        assert(found == (declared_name(ast_views(nodes@)[i as int]) == Some(name@)));
        if found {
            return true;
        }
        i += 1;
    }
    false
}

fn read_tuple(tokens: &Vec<Token>, from: usize) -> (r: Result<(Vec<Type>, usize), (VeloError, usize)>)
    ensures
        match tuple_from(tokens@, from as int, Seq::empty()) {
            Ok((es, next)) => r matches Ok((ts, n)) && crate::types::type_views(ts@) == es && n
                == next,
            Err((e, at)) => r matches Err((err, n)) && err@ == e && n == at,
        },
{
    let n: usize = tokens.len();
    let mut elements: Vec<Type> = Vec::new();
    let mut p: usize = from;
    assert(crate::types::type_views(elements@) =~= Seq::empty());
    loop
        invariant
            n == tokens.len(),
            tuple_from(tokens@, from as int, Seq::empty()) == tuple_from(
                tokens@,
                p as int,
                crate::types::type_views(elements@),
            ),
        decreases n - p,
    {
        if p >= n {
            return Err((end_of_declaration(), n));
        }
        let t = &tokens[p];
        if t.token_type == TokenType::RParen {
            return Ok((elements, p + 1));
        }
        if t.token_type == TokenType::LParen {
            return Err(
                (error_at(t.line_num, String::from_str("Tuple types cannot contain tuple types")), p),
            );
        }
        let element = match Type::from_string(t.lexeme.as_str()) {
            Some(e) => e,
            None => {
                return Err(
                    (error_at(t.line_num, joined3("Unknown type '", t.lexeme.as_str(), "'")), p),
                );
            },
        };
        let ghost before = crate::types::type_views(elements@);
        elements.push(element);
        assert(crate::types::type_views(elements@) =~= before.push(element@));
        if p + 1 >= n {
            return Err((end_of_declaration(), n));
        }
        let after = &tokens[p + 1];
        if after.token_type == TokenType::Comma {
            p = p + 2;
        } else if after.token_type == TokenType::RParen {
            return Ok((elements, p + 2));
        } else {
            return Err(
                (
                    error_at(
                        after.line_num,
                        joined3(
                            "Expected ',' or ')' in tuple type but found '",
                            after.token_type.name(),
                            "'",
                        ),
                    ),
                    p + 1,
                ),
            );
        }
    }
}

fn read_type_clause(tokens: &Vec<Token>, p: usize) -> (r: Result<(Type, usize), (VeloError, usize)>)
    ensures
        match type_clause_at(tokens@, p as int) {
            Ok((t, next)) => r matches Ok((ty, n)) && ty@ == t && n == next,
            Err((e, at)) => r matches Err((err, n)) && err@ == e && n == at,
        },
{
    let n: usize = tokens.len();
    if p >= n {
        return Err((end_of_declaration(), n));
    }
    let t = &tokens[p];
    if t.token_type == TokenType::LParen {
        match read_tuple(tokens, p + 1) {
            Ok((elements, next)) => {
                let ty = Type::Tuple(elements);
                proof {
                    crate::types::lemma_tuple_view(ty);
                }
                Ok((ty, next))
            },
            Err(e) => Err(e),
        }
    } else {
        match Type::from_string(t.lexeme.as_str()) {
            Some(ty) => Ok((ty, p + 1)),
            None => Err((error_at(t.line_num, joined3("Unknown type '", t.lexeme.as_str(), "'")), p)),
        }
    }
}

fn read_value(
    tokens: &Vec<Token>,
    v: usize,
    name_at: usize,
    constant: bool,
    declared: Option<Type>,
    nodes: &Vec<Ast>,
    check: bool,
) -> (r: Result<(Statement, usize), (VeloError, usize)>)
    requires
        name_at < tokens.len(),
    ensures
        match value_at(
            tokens@,
            v as int,
            name_at as int,
            constant,
            declared_view(declared),
            ast_views(nodes@),
            check,
        ) {
            Ok((s, next)) => r matches Ok((st, n)) && st@ == s && n == next,
            Err((e, next)) => r matches Err((err, n)) && err@ == e && n == next,
        },
{
    let n: usize = tokens.len();
    if v >= n {
        return Err((end_of_declaration(), n));
    }
    let name = tokens[name_at].lexeme.clone();
    let infer = declared.is_none();
    let void = Type::Void;
    let parse = match &declared {
        Some(t) => read_literal(tokens, v, tokens[v].clone(), t, infer),
        None => read_literal(tokens, v, tokens[v].clone(), &void, infer),
    };
    proof {
        lemma_literal_last_bounds(
            tokens@,
            v as int,
            tokens@[v as int],
            expected_type(declared_view(declared)),
            infer,
        );
    }
    match parse.error {
        Some(e) => {
            return Err((e, skip_to_statement_end(tokens, parse.last + 1)));
        },
        None => {},
    }
    let message = joined3("Expected semicolon following variable '", name.as_str(), "'");
    match expected_at(tokens, parse.last + 1, TokenType::Semicolon, message) {
        Some(e) => {
            return Err((e, parse.last + 1));
        },
        None => {},
    }
    if check && !constant && has_declaration(nodes, &name) {
        return Err(
            (
                error_at(
                    tokens[name_at].line_num,
                    joined3("Variable with name '", name.as_str(), "' already exists"),
                ),
                parse.last + 2,
            ),
        );
    }
    let var_type = match declared {
        Some(t) => t,
        None => match parse.ty {
            Some(t) => t,
            None => Type::Void,
        },
    };
    Ok((Statement::VariableAssignment { name, constant, var_type, value: parse.expr }, parse.last + 2))
}

/// Reads the declaration that starts at `start`.
pub fn read_variable(
    tokens: &Vec<Token>,
    start: usize,
    constant: bool,
    nodes: &Vec<Ast>,
    check: bool,
) -> (r: Result<(Statement, usize), (VeloError, usize)>)
    ensures
        match variable_outcome(tokens@, start as int, constant, ast_views(nodes@), check) {
            Ok((s, next)) => r matches Ok((st, n)) && st@ == s && n == next,
            Err((e, next)) => r matches Err((err, n)) && err@ == e && n == next,
        },
{
    let n: usize = tokens.len();
    if start >= n {
        return Err((end_of_declaration(), n));
    }
    let first = tokens[start].token_type;
    let name_at = if first == TokenType::Immut || first == TokenType::Let {
        start + 1
    } else {
        start
    };
    if name_at >= n {
        return Err((end_of_declaration(), n));
    }
    let name_token = &tokens[name_at];
    if name_token.token_type != TokenType::Identifier {
        return Err(
            (
                error_at(
                    name_token.line_num,
                    joined3(
                        "Expected a variable name but found '",
                        name_token.token_type.name(),
                        "'",
                    ),
                ),
                skip_to_statement_end(tokens, name_at),
            ),
        );
    }
    if name_at + 1 >= n {
        return Err((end_of_declaration(), n));
    }
    let binding = &tokens[name_at + 1];
    if binding.token_type == TokenType::ColonEq || binding.token_type == TokenType::Eq {
        read_value(tokens, name_at + 2, name_at, constant, None, nodes, check)
    } else if binding.token_type == TokenType::Colon {
        proof {
            lemma_tuple_from(tokens@, name_at + 3, Seq::empty());
        }
        match read_type_clause(tokens, name_at + 2) {
            Err((e, at)) => Err((e, skip_to_statement_end(tokens, at))),
            Ok((t, q)) => {
                if q >= n {
                    return Err((end_of_declaration(), n));
                }
                let after = &tokens[q];
                if after.token_type == TokenType::ColonEq || after.token_type == TokenType::Eq {
                    read_value(tokens, q + 1, name_at, constant, Some(t), nodes, check)
                } else {
                    Err(
                        (
                            error_at(
                                after.line_num,
                                joined5(
                                    "Expected ':=', '=' or ':' after variable '",
                                    name_token.lexeme.as_str(),
                                    "' but found '",
                                    after.token_type.name(),
                                    "'",
                                ),
                            ),
                            skip_to_statement_end(tokens, q),
                        ),
                    )
                }
            },
        }
    } else {
        Err(
            (
                error_at(
                    binding.line_num,
                    joined5(
                        "Expected ':=', '=' or ':' after variable '",
                        name_token.lexeme.as_str(),
                        "' but found '",
                        binding.token_type.name(),
                        "'",
                    ),
                ),
                skip_to_statement_end(tokens, name_at + 1),
            ),
        )
    }
}

impl Parser {
    /// Reads the declaration that starts at `explicit_cursor`, or under the
    /// cursor where none is given. At the top level the declaration becomes
    /// a node and its tokens leave the stream. In a function body it is
    /// returned instead, the tokens stay, and the cursor moves behind the
    /// declaration. A declaration with an error in it is given up: the
    /// error is recorded, no node is made and nothing is returned.
    pub fn variable_assignment(
        &mut self,
        make_constant: bool,
        explicit_cursor: Option<usize>,
        in_function_body: bool,
    ) -> (r: Option<Statement>)
        ensures
            ({
                let start = match explicit_cursor {
                    Some(c) => c,
                    None => old(self).cursor,
                };
                match variable_outcome(
                    old(self).tokens@,
                    start as int,
                    make_constant,
                    ast_views(old(self).nodes@),
                    !in_function_body,
                ) {
                    Ok((s, next)) => {
                        &&& final(self).errors == old(self).errors
                        &&& if in_function_body {
                            &&& r matches Some(st) && st@ == s
                            &&& final(self).nodes == old(self).nodes
                            &&& final(self).tokens == old(self).tokens
                            &&& final(self).cursor == next
                        } else {
                            &&& r is None
                            &&& appended(
                                old(self).nodes@,
                                final(self).nodes@,
                                AstView::Statement(s),
                            )
                            &&& final(self).tokens@ == old(self).tokens@.skip(next)
                            &&& final(self).cursor == 0
                        }
                    },
                    Err((e, next)) => {
                        &&& r is None
                        &&& recorded(old(self).errors@, final(self).errors@, Some(e))
                        &&& final(self).nodes == old(self).nodes
                        &&& if in_function_body {
                            &&& final(self).tokens == old(self).tokens
                            &&& final(self).cursor == next
                        } else {
                            &&& final(self).tokens@ == old(self).tokens@.skip(next)
                            &&& final(self).cursor == 0
                        }
                    },
                }
            }),
    {
        let start = match explicit_cursor {
            Some(c) => c,
            None => self.cursor,
        };
        proof {
            if start < self.tokens.len() {
                lemma_variable_progress(
                    self.tokens@,
                    start as int,
                    make_constant,
                    ast_views(self.nodes@),
                    !in_function_body,
                );
            }
        }
        let (statement, next) = match read_variable(
            &self.tokens,
            start,
            make_constant,
            &self.nodes,
            !in_function_body,
        ) {
            Ok((s, n)) => (Some(s), n),
            Err((e, n)) => {
                self.errors.push(e);
                assert(self.errors@.drop_last() =~= old(self).errors@);
                (None, n)
            },
        };
        if in_function_body {
            self.cursor = next;
            statement
        } else {
            let rest = self.tokens.split_off(next);
            self.tokens = rest;
            assert(self.tokens@ =~= old(self).tokens@.skip(next as int));
            self.cursor = 0;
            match statement {
                Some(s) => {
                    self.nodes.push(Ast::Statement(s));
                    assert(self.nodes@.drop_last() =~= old(self).nodes@);
                },
                None => {},
            }
            None
        }
    }

    /// The name of the variable that the declaration under the cursor
    /// declares: the token under the cursor, or, for a constant, the token
    /// behind the keyword, on which the cursor then stands.
    pub fn parse_var_name(&mut self, is_const: bool, in_fn: bool) -> (r: String)
        requires
            old(self).cursor + (if is_const { 1int } else { 0int }) < old(self).tokens.len(),
        ensures
            final(self).cursor == old(self).cursor + (if is_const { 1int } else { 0int }),
            r@ == old(self).tokens[final(self).cursor as int].lexeme@,
            final(self).tokens == old(self).tokens,
            final(self).nodes == old(self).nodes,
            final(self).errors == old(self).errors,
    {
        if is_const {
            self.cursor = self.cursor + 1;
        }
        self.tokens[self.cursor].lexeme.clone()
    }

    /// Records `error_message` unless a token of class `tok_type` stands at `cursor`.
    pub fn expect(&mut self, tok_type: TokenType, cursor: usize, error_message: String)
        ensures
            recorded(
                old(self).errors@,
                final(self).errors@,
                expectation(old(self).tokens@, cursor as int, tok_type, error_message@),
            ),
            final(self).tokens == old(self).tokens,
            final(self).nodes == old(self).nodes,
            final(self).cursor == old(self).cursor,
    {
        match expected_at(&self.tokens, cursor, tok_type, error_message) {
            Some(e) => {
                self.errors.push(e);
                assert(self.errors@.drop_last() =~= old(self).errors@);
            },
            None => {},
        }
    }

    /// Records a parse error at `line`.
    pub fn throw_error(&mut self, line: usize, message: String)
        ensures
            recorded(old(self).errors@, final(self).errors@, Some(parse_error(line, message@))),
            final(self).tokens == old(self).tokens,
            final(self).nodes == old(self).nodes,
            final(self).cursor == old(self).cursor,
    {
        self.errors.push(error_at(line, message));
        assert(self.errors@.drop_last() =~= old(self).errors@);
    }

    /// Records a parse error that belongs to no line: it is put on line 0,
    /// whatever `_line` holds.
    pub fn throw_error_ref(&mut self, _line: &usize, message: String)
        ensures
            recorded(old(self).errors@, final(self).errors@, Some(parse_error(0, message@))),
            final(self).tokens == old(self).tokens,
            final(self).nodes == old(self).nodes,
            final(self).cursor == old(self).cursor,
    {
        self.errors.push(error_at(0, message));
        assert(self.errors@.drop_last() =~= old(self).errors@);
    }
}

} // verus!
