//! Imports: `import "path"`.

use crate::ast::{Ast, AstView, Statement, StatementView};
use crate::error::{error_at, parse_error, ErrorView, VeloError};
use crate::parse::messages::{end_of_input_message, import_path_message};
use crate::parse::changes::appended;
use crate::parse::Parser;
use crate::text::joined3;
use crate::token::{token_name, Token, TokenType};
use vstd::prelude::*;
use vstd::string::*;

verus! {

/// `s` starts with `prefix`.
pub open spec fn has_prefix(s: Seq<char>, prefix: Seq<char>) -> bool {
    prefix.len() <= s.len() && s.take(prefix.len() as int) == prefix
}

/// A path of the standard library: one that starts with `std/io` or with `std`.
pub open spec fn is_library_path(path: Seq<char>) -> bool {
    has_prefix(path, "std/io"@) || has_prefix(path, "std"@)
}

/// The import that starts with the `import` keyword at `start`, and the
/// index behind its path; or the error that stops the parse: a path that is
/// no string, or no path at all.
pub open spec fn import_outcome(tokens: Seq<Token>, start: int) -> Result<
    (StatementView, int),
    ErrorView,
> {
    if start < 0 || start >= tokens.len() {
        Err(parse_error(0, end_of_input_message()))
    } else if start + 1 >= tokens.len() {
        Err(parse_error(tokens[start].line_num, end_of_input_message()))
    } else if tokens[start + 1].token_type != TokenType::String {
        Err(
            parse_error(
                tokens[start + 1].line_num,
                import_path_message(token_name(tokens[start + 1].token_type)),
            ),
        )
    } else {
        Ok(
            (
                StatementView::ImportPath {
                    path: tokens[start + 1].lexeme@,
                    is_library: is_library_path(tokens[start + 1].lexeme@),
                },
                start + 2,
            ),
        )
    }
}

/// Whether `s` starts with `prefix`.
pub fn starts_with(s: &str, prefix: &str) -> (r: bool)
    ensures
        r == has_prefix(s@, prefix@),
{
    let n = prefix.unicode_len();
    if n > s.unicode_len() {
        return false;
    }
    let head = String::from_str(s.substring_char(0, n));
    let wanted = String::from_str(prefix);
    assert(s@.subrange(0, n as int) =~= s@.take(n as int));
    head == wanted
}

/// Reads the import that starts at `start`.
pub fn read_import(tokens: &Vec<Token>, start: usize) -> (r: Result<(Statement, usize), VeloError>)
    ensures
        match import_outcome(tokens@, start as int) {
            Ok((s, next)) => r matches Ok((st, n)) && st@ == s && n == next,
            Err(e) => r matches Err(err) && err@ == e,
        },
{
    let n: usize = tokens.len();
    if start >= n {
        return Err(error_at(0, String::from_str("unexpected EOF")));
    }
    if start + 1 >= n {
        return Err(error_at(tokens[start].line_num, String::from_str("unexpected EOF")));
    }
    let path_token = &tokens[start + 1];
    if path_token.token_type != TokenType::String {
        return Err(
            error_at(
                path_token.line_num,
                joined3(
                    "expected string for import path but found '",
                    path_token.token_type.name(),
                    "'",
                ),
            ),
        );
    }
    let path = path_token.lexeme.clone();
    let is_library = starts_with(path.as_str(), "std/io") || starts_with(path.as_str(), "std");
    Ok((Statement::ImportPath { path, is_library }, start + 2))
}

impl Parser {
    /// Reads the import under the cursor: `import` and a string, the path.
    /// The import becomes a node, and the two tokens, with all before them,
    /// leave the stream. A path that is no string stops the whole parse:
    /// the error comes back and the parser is left as it was.
    pub fn parse_import(&mut self) -> (r: Result<(), VeloError>)
        ensures
            match import_outcome(old(self).tokens@, old(self).cursor as int) {
                Ok((s, next)) => {
                    &&& r is Ok
                    &&& appended(old(self).nodes@, final(self).nodes@, AstView::Statement(s))
                    &&& final(self).tokens@ == old(self).tokens@.skip(next)
                    &&& final(self).errors == old(self).errors
                    &&& final(self).cursor == 0
                },
                Err(e) => r matches Err(err) && err@ == e && *final(self) == *old(self),
            },
    {
        match read_import(&self.tokens, self.cursor) {
            Ok((statement, next)) => {
                let rest = self.tokens.split_off(next);
                self.tokens = rest;
                self.nodes.push(Ast::Statement(statement));
                self.cursor = 0;
                assert(self.nodes@.drop_last() =~= old(self).nodes@);
                assert(self.tokens@ =~= old(self).tokens@.skip(next as int));
                Ok(())
            },
            Err(e) => Err(e),
        }
    }
}

} // verus!
