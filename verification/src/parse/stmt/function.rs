//! Function declarations: `function name ( name : type , ... ) > type { ... }`.

use crate::ast::{
    ast_views, end_marker, lemma_function_view, param_views, Ast, AstView, Expression, Literal,
    Statement, StatementView,
};
use crate::error::{error_at, parse_error, ErrorView, VeloError};
use crate::parse::changes::{appended, recorded};
use crate::parse::messages::{
    body_end_message, body_start_message, function_end_message, function_name_message,
    function_paren_message, parameter_colon_message, parameter_token_message,
    parameter_type_message, parameters_end_message, return_end_message, return_or_body_message,
    return_type_message, unknown_type_message,
};
use crate::parse::Parser;
use crate::text::{joined, joined3, joined5};
use crate::token::{token_name, Token, TokenType};
use crate::types::{type_of_name, Type, TypeView};
use vstd::prelude::*;
use vstd::string::*;

verus! {

/// The parameters read so far and the index behind the closing `)`, or the
/// error that ends the declaration.
pub type ParamsOutcome = Result<(Seq<(Seq<char>, TypeView)>, int), ErrorView>;

/// Reads parameters from `p` on: `)` ends the list; else a name, `:` and a
/// type name follow, and then `,` or `)`.
pub open spec fn params_from(
    tokens: Seq<Token>,
    p: int,
    name: Seq<char>,
    acc: Seq<(Seq<char>, TypeView)>,
) -> ParamsOutcome
    decreases tokens.len() - p,
{
    if p < 0 || p >= tokens.len() {
        Err(parse_error(0, parameters_end_message(name)))
    } else if tokens[p].token_type == TokenType::RParen {
        Ok((acc, p + 1))
    } else if tokens[p].token_type != TokenType::Identifier {
        Err(
            parse_error(
                tokens[p].line_num,
                parameter_token_message(token_name(tokens[p].token_type), name),
            ),
        )
    } else if p + 1 >= tokens.len() {
        Err(parse_error(0, parameters_end_message(name)))
    } else if tokens[p + 1].token_type != TokenType::Colon {
        Err(
            parse_error(
                tokens[p + 1].line_num,
                parameter_colon_message(tokens[p + 1].lexeme@, name),
            ),
        )
    } else if p + 2 >= tokens.len() {
        Err(parse_error(tokens[p + 1].line_num, parameter_type_message()))
    } else {
        match type_of_name(tokens[p + 2].lexeme@) {
            None => Err(
                parse_error(tokens[p + 2].line_num, unknown_type_message(tokens[p + 2].lexeme@)),
            ),
            Some(t) => {
                let more = acc.push((tokens[p].lexeme@, t));
                if p + 3 >= tokens.len() {
                    Err(parse_error(0, parameters_end_message(name)))
                } else if tokens[p + 3].token_type == TokenType::Comma {
                    params_from(tokens, p + 4, name, more)
                } else if tokens[p + 3].token_type == TokenType::RParen {
                    Ok((more, p + 4))
                } else {
                    Err(
                        parse_error(
                            tokens[p + 3].line_num,
                            parameter_token_message(token_name(tokens[p + 3].token_type), name),
                        ),
                    )
                }
            },
        }
    }
}

/// The return type that stands at `p`, and the index where the body starts:
/// `>` and a type name, or nothing, which means `Void`, before a `{`.
pub open spec fn return_type_at(tokens: Seq<Token>, p: int, name: Seq<char>) -> Result<
    (TypeView, int),
    ErrorView,
> {
    if p < 0 || p >= tokens.len() {
        Err(parse_error(0, return_end_message(name)))
    } else if tokens[p].token_type == TokenType::Gt {
        if p + 1 >= tokens.len() {
            Err(parse_error(tokens[p].line_num, return_type_message(name)))
        } else {
            match type_of_name(tokens[p + 1].lexeme@) {
                Some(t) => Ok((t, p + 2)),
                None => Err(
                    parse_error(
                        tokens[p + 1].line_num,
                        unknown_type_message(tokens[p + 1].lexeme@),
                    ),
                ),
            }
        }
    } else if tokens[p].token_type == TokenType::LBrace {
        Ok((TypeView::Void, p))
    } else {
        Err(parse_error(tokens[p].line_num, return_or_body_message(name, tokens[p].lexeme@)))
    }
}

/// The index of the `}` that closes the body, looking from `i` on at
/// nesting depth `depth`; nothing where the braces do not balance.
pub open spec fn body_close(tokens: Seq<Token>, i: int, depth: nat) -> Option<int>
    decreases tokens.len() - i,
{
    if i < 0 || i >= tokens.len() || depth == 0 {
        None
    } else if tokens[i].token_type == TokenType::RBrace {
        if depth == 1 {
            Some(i)
        } else {
            body_close(tokens, i + 1, (depth - 1) as nat)
        }
    } else if tokens[i].token_type == TokenType::LBrace {
        body_close(tokens, i + 1, depth + 1)
    } else {
        body_close(tokens, i + 1, depth)
    }
}

/// `n` placeholder nodes: a function's body is kept as one null literal for
/// each of its tokens.
pub open spec fn placeholders(n: nat) -> Seq<AstView> {
    Seq::new(n, |i: int| end_marker())
}

/// The body that starts at `p`: one placeholder node for each token between
/// the braces, and the index behind the closing brace.
pub open spec fn body_at(tokens: Seq<Token>, p: int) -> Result<(Seq<AstView>, int), ErrorView> {
    if p < 0 || p >= tokens.len() {
        Err(parse_error(0, body_end_message()))
    } else if tokens[p].token_type != TokenType::LBrace {
        Err(parse_error(tokens[p].line_num, body_start_message(token_name(tokens[p].token_type))))
    } else {
        match body_close(tokens, p + 1, 1) {
            Some(close) => Ok((placeholders((close - p - 1) as nat), close + 1)),
            None => Err(parse_error(tokens[p].line_num, body_end_message())),
        }
    }
}

/// The declaration that starts with the `function` keyword at `start`, and
/// the index behind it; or the one error that ends it.
pub open spec fn function_outcome(tokens: Seq<Token>, start: int) -> Result<
    (StatementView, int),
    ErrorView,
> {
    if start < 0 || start >= tokens.len() {
        Err(parse_error(0, function_end_message()))
    } else if start + 1 >= tokens.len() {
        Err(parse_error(tokens[start].line_num, function_end_message()))
    } else if tokens[start + 1].token_type != TokenType::Identifier {
        Err(
            parse_error(
                tokens[start + 1].line_num,
                function_name_message(token_name(tokens[start + 1].token_type)),
            ),
        )
    } else {
        let name = tokens[start + 1].lexeme@;
        if start + 2 >= tokens.len() {
            Err(parse_error(0, parameters_end_message(name)))
        } else if tokens[start + 2].token_type != TokenType::LParen {
            Err(
                parse_error(
                    tokens[start + 2].line_num,
                    function_paren_message(token_name(tokens[start + 2].token_type), name),
                ),
            )
        } else {
            match params_from(tokens, start + 3, name, Seq::empty()) {
                Err(e) => Err(e),
                Ok((params, p)) => match return_type_at(tokens, p, name) {
                    Err(e) => Err(e),
                    Ok((ret_type, b)) => match body_at(tokens, b) {
                        Err(e) => Err(e),
                        Ok((body, next)) => Ok(
                            (StatementView::Function { name, params, ret_type, body }, next),
                        ),
                    },
                },
            }
        }
    }
}

/// A parameter list ends behind where it starts, within the tokens.
pub proof fn lemma_params_bounds(
    tokens: Seq<Token>,
    p: int,
    name: Seq<char>,
    acc: Seq<(Seq<char>, TypeView)>,
)
    ensures
        params_from(tokens, p, name, acc) matches Ok((_, next)) ==> p < next <= tokens.len(),
    decreases tokens.len() - p,
{
    if 0 <= p && p + 3 < tokens.len() {
        match type_of_name(tokens[p + 2].lexeme@) {
            Some(t) => {
                lemma_params_bounds(tokens, p + 4, name, acc.push((tokens[p].lexeme@, t)));
            },
            None => {},
        }
    }
}

/// The closing brace of a body stands at or behind where the search starts.
pub proof fn lemma_body_close_bounds(tokens: Seq<Token>, i: int, depth: nat)
    ensures
        body_close(tokens, i, depth) matches Some(close) ==> i <= close < tokens.len()
            && tokens[close].token_type == TokenType::RBrace,
    decreases tokens.len() - i,
{
    if 0 <= i < tokens.len() && depth > 0 {
        if tokens[i].token_type == TokenType::RBrace {
            if depth > 1 {
                lemma_body_close_bounds(tokens, i + 1, (depth - 1) as nat);
            }
        } else if tokens[i].token_type == TokenType::LBrace {
            lemma_body_close_bounds(tokens, i + 1, depth + 1);
        } else {
            lemma_body_close_bounds(tokens, i + 1, depth);
        }
    }
}

/// A declaration that is read takes at least its first token, and no more
/// tokens than there are; its body has one node for each token between the
/// braces.
pub proof fn lemma_function_progress(tokens: Seq<Token>, start: int)
    ensures
        function_outcome(tokens, start) matches Ok((f, next)) ==> start < next <= tokens.len()
            && f is Function && tokens[next - 1].token_type == TokenType::RBrace,
{
    if function_outcome(tokens, start) is Ok {
        let name = tokens[start + 1].lexeme@;
        lemma_params_bounds(tokens, start + 3, name, Seq::empty());
        let p = params_from(tokens, start + 3, name, Seq::empty())->Ok_0.1;
        let b = return_type_at(tokens, p, name)->Ok_0.1;
        lemma_body_close_bounds(tokens, b + 1, 1);
    }
}

/// The types of the parameters that are read hold no tuple.
pub proof fn lemma_params_hold_no_tuple(
    tokens: Seq<Token>,
    p: int,
    name: Seq<char>,
    acc: Seq<(Seq<char>, TypeView)>,
)
    requires
        forall|i: int| 0 <= i < acc.len() ==> (#[trigger] acc[i]).1.tuple_free(),
    ensures
        params_from(tokens, p, name, acc) matches Ok((ps, _)) ==> forall|i: int|
            0 <= i < ps.len() ==> (#[trigger] ps[i]).1.tuple_free(),
    decreases tokens.len() - p,
{
    if 0 <= p && p + 3 < tokens.len() {
        match type_of_name(tokens[p + 2].lexeme@) {
            Some(t) => {
                crate::types::lemma_named_type_is_no_tuple(tokens[p + 2].lexeme@);
                lemma_params_hold_no_tuple(tokens, p + 4, name, acc.push((tokens[p].lexeme@, t)));
            },
            None => {},
        }
    } else if 0 <= p && p + 2 < tokens.len() {
        crate::types::lemma_named_type_is_no_tuple(tokens[p + 2].lexeme@);
    }
}

/// No type in the head of a function declaration that is read holds a tuple.
pub proof fn lemma_function_holds_no_tuple(tokens: Seq<Token>, start: int)
    ensures
        function_outcome(tokens, start) matches Ok((f, _)) ==> f matches StatementView::Function {
            params,
            ret_type,
            ..
        } && ret_type.tuple_free() && forall|i: int|
            0 <= i < params.len() ==> (#[trigger] params[i]).1.tuple_free(),
{
    if function_outcome(tokens, start) is Ok {
        let name = tokens[start + 1].lexeme@;
        lemma_params_hold_no_tuple(tokens, start + 3, name, Seq::empty());
        let p = params_from(tokens, start + 3, name, Seq::empty())->Ok_0.1;
        if 0 <= p && p + 1 < tokens.len() {
            crate::types::lemma_named_type_is_no_tuple(tokens[p + 1].lexeme@);
        }
    }
}

fn read_params(tokens: &Vec<Token>, from: usize, name: &String) -> (r: Result<
    (Vec<(String, Type)>, usize),
    VeloError,
>)
    ensures
        match params_from(tokens@, from as int, name@, Seq::empty()) {
            Ok((params, next)) => r matches Ok((ps, n)) && param_views(ps@) == params && n == next,
            Err(e) => r matches Err(err) && err@ == e,
        },
{
    let n: usize = tokens.len();
    let mut params: Vec<(String, Type)> = Vec::new();
    let mut p: usize = from;
    assert(param_views(params@) =~= Seq::empty());
    loop
        invariant
            n == tokens.len(),
            params_from(tokens@, from as int, name@, Seq::empty()) == params_from(
                tokens@,
                p as int,
                name@,
                param_views(params@),
            ),
        decreases n - p,
    {
        if p >= n {
            return Err(
                error_at(
                    0,
                    joined3(
                        "Unexpected end of tokens while parsing parameters for function '",
                        name.as_str(),
                        "'",
                    ),
                ),
            );
        }
        let t = &tokens[p];
        if t.token_type == TokenType::RParen {
            return Ok((params, p + 1));
        }
        if t.token_type != TokenType::Identifier {
            return Err(
                error_at(
                    t.line_num,
                    joined5(
                        "Unexpected token '",
                        t.token_type.name(),
                        "' while parsing parameters for function '",
                        name.as_str(),
                        "'",
                    ),
                ),
            );
        }
        if p + 1 >= n {
            return Err(
                error_at(
                    0,
                    joined3(
                        "Unexpected end of tokens while parsing parameters for function '",
                        name.as_str(),
                        "'",
                    ),
                ),
            );
        }
        let colon = &tokens[p + 1];
        if colon.token_type != TokenType::Colon {
            return Err(
                error_at(
                    colon.line_num,
                    joined5(
                        "Expected type to follow parameter, but found '",
                        colon.lexeme.as_str(),
                        "' for function '",
                        name.as_str(),
                        "'",
                    ),
                ),
            );
        }
        if p + 2 >= n {
            return Err(
                error_at(colon.line_num, String::from_str("Expected parameter type after ':'")),
            );
        }
        let type_token = &tokens[p + 2];
        let param_type = match Type::from_string(type_token.lexeme.as_str()) {
            Some(t) => t,
            None => {
                return Err(
                    error_at(
                        type_token.line_num,
                        joined3("Unknown type '", type_token.lexeme.as_str(), "'"),
                    ),
                );
            },
        };
        let ghost before = param_views(params@);
        params.push((t.lexeme.clone(), param_type));
        assert(param_views(params@) =~= before.push((t.lexeme@, param_type@)));
        if p + 3 >= n {
            return Err(
                error_at(
                    0,
                    joined3(
                        "Unexpected end of tokens while parsing parameters for function '",
                        name.as_str(),
                        "'",
                    ),
                ),
            );
        }
        let after = &tokens[p + 3];
        if after.token_type == TokenType::Comma {
            p = p + 4;
        } else if after.token_type == TokenType::RParen {
            return Ok((params, p + 4));
        } else {
            return Err(
                error_at(
                    after.line_num,
                    joined5(
                        "Unexpected token '",
                        after.token_type.name(),
                        "' while parsing parameters for function '",
                        name.as_str(),
                        "'",
                    ),
                ),
            );
        }
    }
}

fn read_return_type(tokens: &Vec<Token>, p: usize, name: &String) -> (r: Result<
    (Type, usize),
    VeloError,
>)
    ensures
        match return_type_at(tokens@, p as int, name@) {
            Ok((ret, next)) => r matches Ok((t, n)) && t@ == ret && n == next,
            Err(e) => r matches Err(err) && err@ == e,
        },
{
    let n: usize = tokens.len();
    if p >= n {
        return Err(
            error_at(
                0,
                joined3(
                    "Unexpected end of tokens while parsing return type for function '",
                    name.as_str(),
                    "'",
                ),
            ),
        );
    }
    let t = &tokens[p];
    if t.token_type == TokenType::Gt {
        if p + 1 >= n {
            return Err(
                error_at(
                    t.line_num,
                    joined3("Expected return type after '>' for function '", name.as_str(), "'"),
                ),
            );
        }
        let type_token = &tokens[p + 1];
        match Type::from_string(type_token.lexeme.as_str()) {
            Some(ret) => Ok((ret, p + 2)),
            None => Err(
                error_at(
                    type_token.line_num,
                    joined3("Unknown type '", type_token.lexeme.as_str(), "'"),
                ),
            ),
        }
    } else if t.token_type == TokenType::LBrace {
        Ok((Type::Void, p))
    } else {
        let head = joined3(
            "Expected either '>' or '{' when parsing function '",
            name.as_str(),
            "', but found ",
        );
        Err(error_at(t.line_num, joined(head.as_str(), t.lexeme.as_str())))
    }
}

fn placeholder() -> (r: Ast)
    ensures
        r@ == end_marker(),
{
    Ast::Expression(Expression::Literal(Literal::Null))
}

fn read_body(tokens: &Vec<Token>, p: usize) -> (r: Result<(Vec<Ast>, usize), VeloError>)
    ensures
        match body_at(tokens@, p as int) {
            Ok((body, next)) => r matches Ok((b, n)) && ast_views(b@) == body && n == next,
            Err(e) => r matches Err(err) && err@ == e,
        },
{
    let n: usize = tokens.len();
    if p >= n {
        return Err(
            error_at(0, String::from_str("Unexpected end of tokens while parsing function body")),
        );
    }
    let open = &tokens[p];
    if open.token_type != TokenType::LBrace {
        return Err(
            error_at(
                open.line_num,
                joined3("Expected '{' to start function body, found '", open.token_type.name(), "'"),
            ),
        );
    }
    let mut body: Vec<Ast> = Vec::new();
    let mut depth: usize = 1;
    let mut i: usize = p + 1;
    assert(ast_views(body@) =~= placeholders(0));
    while i < n
        invariant
            n == tokens.len(),
            p < i <= n,
            1 <= depth <= i - p,
            tokens@[p as int].token_type == TokenType::LBrace,
            body_close(tokens@, p + 1, 1) == body_close(tokens@, i as int, depth as nat),
            ast_views(body@) == placeholders((i - p - 1) as nat),
        decreases n - i,
    {
        let t = &tokens[i];
        if t.token_type == TokenType::RBrace {
            if depth == 1 {
                assert(body_close(tokens@, i as int, 1) == Some(i as int));
                return Ok((body, i + 1));
            }
            depth = depth - 1;
        } else if t.token_type == TokenType::LBrace {
            depth = depth + 1;
        }
        let ghost before = ast_views(body@);
        body.push(placeholder());
        assert(ast_views(body@) =~= before.push(end_marker()));
        assert(ast_views(body@) =~= placeholders((i + 1 - p - 1) as nat));
        i += 1;
    }
    Err(
        error_at(
            open.line_num,
            String::from_str("Unexpected end of tokens while parsing function body"),
        ),
    )
}

/// Reads the function declaration that starts at `start`.
pub fn read_function(tokens: &Vec<Token>, start: usize) -> (r: Result<(Statement, usize), VeloError>)
    ensures
        match function_outcome(tokens@, start as int) {
            Ok((f, next)) => r matches Ok((s, n)) && s@ == f && n == next,
            Err(e) => r matches Err(err) && err@ == e,
        },
{
    let n: usize = tokens.len();
    if start >= n {
        return Err(
            error_at(
                0,
                String::from_str("Unexpected end of input while parsing function declaration"),
            ),
        );
    }
    if start + 1 >= n {
        return Err(
            error_at(
                tokens[start].line_num,
                String::from_str("Unexpected end of input while parsing function declaration"),
            ),
        );
    }
    let name_token = &tokens[start + 1];
    if name_token.token_type != TokenType::Identifier {
        return Err(
            error_at(
                name_token.line_num,
                joined(
                    "Cannot declare function with name of type ",
                    name_token.token_type.name(),
                ),
            ),
        );
    }
    let name = name_token.lexeme.clone();
    if start + 2 >= n {
        return Err(
            error_at(
                0,
                joined3(
                    "Unexpected end of tokens while parsing parameters for function '",
                    name.as_str(),
                    "'",
                ),
            ),
        );
    }
    let paren = &tokens[start + 2];
    if paren.token_type != TokenType::LParen {
        return Err(
            error_at(
                paren.line_num,
                joined5(
                    "Expected '(' after function name, found '",
                    paren.token_type.name(),
                    "' for function '",
                    name.as_str(),
                    "'",
                ),
            ),
        );
    }
    proof {
        lemma_params_bounds(tokens@, start + 3, name@, Seq::empty());
    }
    let (params, p) = match read_params(tokens, start + 3, &name) {
        Ok(v) => v,
        Err(e) => {
            return Err(e);
        },
    };
    let (ret_type, b) = match read_return_type(tokens, p, &name) {
        Ok(v) => v,
        Err(e) => {
            return Err(e);
        },
    };
    let (body, next) = match read_body(tokens, b) {
        Ok(v) => v,
        Err(e) => {
            return Err(e);
        },
    };
    let statement = Statement::Function { name, params, ret_type, body };
    proof {
        lemma_function_view(statement);
    }
    Ok((statement, next))
}

impl Parser {
    /// Reads the function declaration under the cursor:
    /// `function name ( name : type , ... ) > type { ... }`, the return type
    /// being optional. The declaration becomes a node and its tokens leave
    /// the stream; or one error is recorded and all remaining tokens are
    /// dropped.
    pub fn function_declaration(&mut self)
        ensures
            match function_outcome(old(self).tokens@, old(self).cursor as int) {
                Ok((f, next)) => {
                    &&& appended(old(self).nodes@, final(self).nodes@, AstView::Statement(f))
                    &&& final(self).tokens@ == old(self).tokens@.skip(next)
                    &&& final(self).errors == old(self).errors
                },
                Err(e) => {
                    &&& recorded(old(self).errors@, final(self).errors@, Some(e))
                    &&& final(self).tokens@ == Seq::<Token>::empty()
                    &&& final(self).nodes == old(self).nodes
                },
            },
            final(self).cursor == 0,
    {
        proof {
            lemma_function_progress(self.tokens@, self.cursor as int);
        }
        match read_function(&self.tokens, self.cursor) {
            Ok((statement, next)) => {
                let rest = self.tokens.split_off(next);
                self.tokens = rest;
                self.nodes.push(Ast::Statement(statement));
                assert(self.nodes@.drop_last() =~= old(self).nodes@);
                assert(self.tokens@ =~= old(self).tokens@.skip(next as int));
            },
            Err(e) => {
                self.errors.push(e);
                self.tokens.clear();
                assert(self.errors@.drop_last() =~= old(self).errors@);
            },
        }
        self.cursor = 0;
    }
}

} // verus!
