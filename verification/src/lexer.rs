//! The lexer: from a text to its tokens.

use crate::numeral::{frac_part, is_digit, is_numeral, lemma_numeral_int_run, unsigned_part};
use crate::text::characters;
use crate::token::{keyword_of, token_views, Token, TokenType, TokenView};
use vstd::prelude::*;
use vstd::string::*;

verus! {

/// A blank, a tab or a line end.
pub open spec fn is_space(c: char) -> bool {
    c == ' ' || c == '\t' || c == '\r' || c == '\n'
}

/// A letter of a name: `a` to `z`, `A` to `Z`, or `_`.
pub open spec fn is_letter(c: char) -> bool {
    ('a' <= c && c <= 'z') || ('A' <= c && c <= 'Z') || c == '_'
}

/// The end of the run of letters and digits that goes on at `i`.
pub open spec fn word_end(s: Seq<char>, i: int) -> int
    decreases s.len() - i,
{
    if 0 <= i < s.len() && (is_letter(s[i]) || is_digit(s[i])) {
        word_end(s, i + 1)
    } else {
        i
    }
}

/// The end of the run of `[]` pairs that goes on at `i`: the name of an
/// array type is one word.
pub open spec fn brackets_end(s: Seq<char>, i: int) -> int
    decreases s.len() - i,
{
    if 0 <= i && i + 1 < s.len() && s[i] == '[' && s[i + 1] == ']' {
        brackets_end(s, i + 2)
    } else {
        i
    }
}

/// The end of the run of digits that goes on at `i`.
pub open spec fn digits_end(s: Seq<char>, i: int) -> int
    decreases s.len() - i,
{
    if 0 <= i < s.len() && is_digit(s[i]) {
        digits_end(s, i + 1)
    } else {
        i
    }
}

/// The end of the number that starts at `i`: digits, and a point with
/// digits behind it where a digit follows the point.
pub open spec fn number_end(s: Seq<char>, i: int) -> int {
    let whole = digits_end(s, i);
    if 0 <= whole && whole + 1 < s.len() && s[whole] == '.' && is_digit(s[whole + 1]) {
        digits_end(s, whole + 1)
    } else {
        whole
    }
}

/// The index of the `"` or the line end that ends the string whose text
/// goes on at `i`; the length of the text where it has neither.
pub open spec fn quote_end(s: Seq<char>, i: int) -> int
    decreases s.len() - i,
{
    if 0 <= i < s.len() && s[i] != '"' && s[i] != '\n' {
        quote_end(s, i + 1)
    } else {
        i
    }
}

/// The class of a punctuation mark or an operator of one character.
pub open spec fn mark_class(c: char) -> Option<TokenType> {
    if c == '(' {
        Some(TokenType::LParen)
    } else if c == ')' {
        Some(TokenType::RParen)
    } else if c == '{' {
        Some(TokenType::LBrace)
    } else if c == '}' {
        Some(TokenType::RBrace)
    } else if c == ':' {
        Some(TokenType::Colon)
    } else if c == ',' {
        Some(TokenType::Comma)
    } else if c == ';' {
        Some(TokenType::Semicolon)
    } else if c == '=' {
        Some(TokenType::Eq)
    } else if c == '>' {
        Some(TokenType::Gt)
    } else if c == '.' {
        Some(TokenType::Dot)
    } else if c == '+' {
        Some(TokenType::Add)
    } else if c == '-' {
        Some(TokenType::Sub)
    } else if c == '*' {
        Some(TokenType::Mul)
    } else if c == '/' {
        Some(TokenType::Div)
    } else {
        None
    }
}

/// The token that starts at `i`, where no space stands, and the index
/// behind it. A word is a reserved word or an identifier; a string stands
/// between `"` and `"` and its token holds what is between them; a
/// character that starts nothing else is a token of class `Null`.
pub open spec fn token_at(s: Seq<char>, i: int, line: int) -> (TokenView, int) {
    let c = s[i];
    if is_letter(c) {
        let end = brackets_end(s, word_end(s, i + 1));
        let lexeme = s.subrange(i, end);
        (
            TokenView {
                token_type: match keyword_of(lexeme) {
                    Some(k) => k,
                    None => TokenType::Identifier,
                },
                lexeme,
                line_num: line,
            },
            end,
        )
    } else if is_digit(c) {
        let end = number_end(s, i);
        (
            TokenView {
                token_type: TokenType::NumericLiteral,
                lexeme: s.subrange(i, end),
                line_num: line,
            },
            end,
        )
    } else if c == '"' {
        let end = quote_end(s, i + 1);
        (
            TokenView {
                token_type: TokenType::String,
                lexeme: s.subrange(i + 1, end),
                line_num: line,
            },
            if end < s.len() && s[end] == '"' {
                end + 1
            } else {
                end
            },
        )
    } else if c == ':' && i + 1 < s.len() && s[i + 1] == '=' {
        (
            TokenView {
                token_type: TokenType::ColonEq,
                lexeme: s.subrange(i, i + 2),
                line_num: line,
            },
            i + 2,
        )
    } else {
        (
            TokenView {
                token_type: match mark_class(c) {
                    Some(t) => t,
                    None => TokenType::Null,
                },
                lexeme: s.subrange(i, i + 1),
                line_num: line,
            },
            i + 1,
        )
    }
}

/// The tokens of the text from `i` on, `line` being the line of `i`. The
/// last token is the end of the input.
pub open spec fn lexed_from(s: Seq<char>, i: int, line: int) -> Seq<TokenView>
    decreases s.len() - i,
{
    if i < 0 || i >= s.len() {
        seq![TokenView { token_type: TokenType::EOF, lexeme: Seq::empty(), line_num: line }]
    } else if s[i] == '\n' {
        lexed_from(s, i + 1, line + 1)
    } else if is_space(s[i]) {
        lexed_from(s, i + 1, line)
    } else {
        proof {
            lemma_token_bounds(s, i, line);
        }
        seq![token_at(s, i, line).0] + lexed_from(s, token_at(s, i, line).1, line)
    }
}

/// The tokens of a text. Lines count from 1.
pub open spec fn lexed(s: Seq<char>) -> Seq<TokenView> {
    lexed_from(s, 0, 1)
}

/// A word ends at or behind where the search starts, within the text.
pub proof fn lemma_word_end_bounds(s: Seq<char>, i: int)
    requires
        0 <= i <= s.len(),
    ensures
        i <= word_end(s, i) <= s.len(),
    decreases s.len() - i,
{
    if i < s.len() && (is_letter(s[i]) || is_digit(s[i])) {
        lemma_word_end_bounds(s, i + 1);
    }
}

/// A run of `[]` ends at or behind where the search starts, within the text.
pub proof fn lemma_brackets_end_bounds(s: Seq<char>, i: int)
    requires
        0 <= i <= s.len(),
    ensures
        i <= brackets_end(s, i) <= s.len(),
    decreases s.len() - i,
{
    if i + 1 < s.len() && s[i] == '[' && s[i + 1] == ']' {
        lemma_brackets_end_bounds(s, i + 2);
    }
}

/// A run of digits ends at or behind where the search starts, within the
/// text, and behind a digit. It holds digits only, and no digit follows it.
pub proof fn lemma_digits_end_bounds(s: Seq<char>, i: int)
    requires
        0 <= i <= s.len(),
    ensures
        i <= digits_end(s, i) <= s.len(),
        i < s.len() && is_digit(s[i]) ==> i < digits_end(s, i),
        forall|j: int| i <= j < digits_end(s, i) ==> is_digit(#[trigger] s[j]),
        digits_end(s, i) < s.len() ==> !is_digit(s[digits_end(s, i)]),
    decreases s.len() - i,
{
    if i < s.len() && is_digit(s[i]) {
        lemma_digits_end_bounds(s, i + 1);
    }
}

/// A string ends at or behind where the search starts, within the text.
pub proof fn lemma_quote_end_bounds(s: Seq<char>, i: int)
    requires
        0 <= i <= s.len(),
    ensures
        i <= quote_end(s, i) <= s.len(),
    decreases s.len() - i,
{
    if i < s.len() && s[i] != '"' && s[i] != '\n' {
        lemma_quote_end_bounds(s, i + 1);
    }
}

/// A token ends behind where it starts, within the text.
pub proof fn lemma_token_bounds(s: Seq<char>, i: int, line: int)
    requires
        0 <= i < s.len(),
    ensures
        i < token_at(s, i, line).1 <= s.len(),
{
    lemma_word_end_bounds(s, i + 1);
    lemma_brackets_end_bounds(s, word_end(s, i + 1));
    lemma_digits_end_bounds(s, i);
    let whole = digits_end(s, i);
    if whole + 1 < s.len() {
        lemma_digits_end_bounds(s, whole + 1);
    }
    lemma_quote_end_bounds(s, i + 1);
}

/// What the class of a token says of its text: the text of a number reads
/// as a numeric literal, the text of a reserved word is that word, and
/// the text of an identifier is no reserved word.
pub open spec fn coherent(t: TokenView) -> bool {
    &&& t.token_type == TokenType::NumericLiteral ==> is_numeral(t.lexeme)
    &&& t.token_type.is_keyword() ==> keyword_of(t.lexeme) == Some(t.token_type)
    &&& t.token_type == TokenType::Identifier ==> keyword_of(t.lexeme) is None
}

/// The text of a number token reads as a numeric literal.
pub proof fn lemma_number_token_is_numeral(s: Seq<char>, i: int, line: int)
    requires
        0 <= i < s.len(),
        is_digit(s[i]),
    ensures
        is_numeral(token_at(s, i, line).0.lexeme),
{
    let whole = digits_end(s, i);
    let end = number_end(s, i);
    lemma_digits_end_bounds(s, i);
    if whole + 1 < s.len() {
        lemma_digits_end_bounds(s, whole + 1);
    }
    let text = s.subrange(i, end);
    let k = whole - i;
    assert(text[0] == s[i]);
    assert(unsigned_part(text) == text);
    assert forall|j: int| 0 <= j < k implies is_digit(#[trigger] text[j]) by {
        assert(text[j] == s[i + j]);
    }
    if end == whole {
        lemma_numeral_int_run(text, k);
    } else {
        assert(text[k] == s[whole]);
        lemma_numeral_int_run(text, k);
        let fraction = frac_part(text);
        assert forall|j: int| 0 <= j < fraction.len() implies is_digit(#[trigger] fraction[j]) by {
            assert(fraction[j] == s[whole + 1 + j]);
        }
    }
}

/// The class of every token goes with its text.
pub proof fn lemma_token_coherent(s: Seq<char>, i: int, line: int)
    requires
        0 <= i < s.len(),
    ensures
        coherent(token_at(s, i, line).0),
{
    if is_digit(s[i]) {
        lemma_number_token_is_numeral(s, i, line);
    }
}

/// The class of every token of a text goes with its text.
pub proof fn lemma_lexed_coherent(s: Seq<char>, i: int, line: int)
    ensures
        forall|k: int|
            0 <= k < lexed_from(s, i, line).len() ==> coherent(#[trigger] lexed_from(s, i, line)[k]),
    decreases s.len() - i,
{
    if 0 <= i < s.len() {
        if s[i] == '\n' {
            lemma_lexed_coherent(s, i + 1, line + 1);
            assert(lexed_from(s, i, line) == lexed_from(s, i + 1, line + 1));
        } else if is_space(s[i]) {
            lemma_lexed_coherent(s, i + 1, line);
            assert(lexed_from(s, i, line) == lexed_from(s, i + 1, line));
        } else {
            lemma_token_bounds(s, i, line);
            lemma_token_coherent(s, i, line);
            let (t, next) = token_at(s, i, line);
            lemma_lexed_coherent(s, next, line);
            let rest = lexed_from(s, next, line);
            let all = lexed_from(s, i, line);
            assert(all == seq![t] + rest);
            assert forall|k: int| 0 <= k < all.len() implies coherent(#[trigger] all[k]) by {
                if k > 0 {
                    assert(all[k] == rest[k - 1]);
                } else {
                    assert(all[k] == t);
                }
            }
        }
    } else {
        let all = lexed_from(s, i, line);
        assert(all.len() == 1);
        assert(all[0].token_type == TokenType::EOF);
        assert(coherent(all[0]));
    }
}

/// The tokens of a text end with the end of the input, which stands nowhere else.
pub proof fn lemma_lexed_ends(s: Seq<char>, i: int, line: int)
    ensures
        lexed_from(s, i, line).len() >= 1,
        lexed_from(s, i, line).last().token_type == TokenType::EOF,
        forall|k: int|
            0 <= k < lexed_from(s, i, line).len() - 1 ==> (#[trigger] lexed_from(s, i, line)[k]).token_type
                != TokenType::EOF,
    decreases s.len() - i,
{
    if 0 <= i < s.len() {
        if s[i] == '\n' {
            lemma_lexed_ends(s, i + 1, line + 1);
        } else if is_space(s[i]) {
            lemma_lexed_ends(s, i + 1, line);
        } else {
            lemma_token_bounds(s, i, line);
            let (t, next) = token_at(s, i, line);
            lemma_lexed_ends(s, next, line);
            let rest = lexed_from(s, next, line);
            let all = lexed_from(s, i, line);
            assert(all == seq![t] + rest);
            assert(all.last() == rest.last());
            assert forall|k: int| 0 <= k < all.len() - 1 implies (#[trigger] all[k]).token_type
                != TokenType::EOF by {
                if k > 0 {
                    assert(all[k] == rest[k - 1]);
                }
            }
        }
    }
}

fn letter(c: char) -> (r: bool)
    ensures
        r == is_letter(c),
{
    (c >= 'a' && c <= 'z') || (c >= 'A' && c <= 'Z') || c == '_'
}

fn digit(c: char) -> (r: bool)
    ensures
        r == is_digit(c),
{
    c >= '0' && c <= '9'
}

fn mark(c: char) -> (r: Option<TokenType>)
    ensures
        r == mark_class(c),
{
    if c == '(' {
        Some(TokenType::LParen)
    } else if c == ')' {
        Some(TokenType::RParen)
    } else if c == '{' {
        Some(TokenType::LBrace)
    } else if c == '}' {
        Some(TokenType::RBrace)
    } else if c == ':' {
        Some(TokenType::Colon)
    } else if c == ',' {
        Some(TokenType::Comma)
    } else if c == ';' {
        Some(TokenType::Semicolon)
    } else if c == '=' {
        Some(TokenType::Eq)
    } else if c == '>' {
        Some(TokenType::Gt)
    } else if c == '.' {
        Some(TokenType::Dot)
    } else if c == '+' {
        Some(TokenType::Add)
    } else if c == '-' {
        Some(TokenType::Sub)
    } else if c == '*' {
        Some(TokenType::Mul)
    } else if c == '/' {
        Some(TokenType::Div)
    } else {
        None
    }
}

fn find_word_end(chars: &Vec<char>, from: usize) -> (r: usize)
    requires
        from <= chars.len(),
    ensures
        r == word_end(chars@, from as int),
        from <= r <= chars.len(),
{
    let mut i: usize = from;
    while i < chars.len() && (letter(chars[i]) || digit(chars[i]))
        invariant
            from <= i <= chars.len(),
            word_end(chars@, from as int) == word_end(chars@, i as int),
        decreases chars.len() - i,
    {
        i += 1;
    }
    i
}

fn find_brackets_end(chars: &Vec<char>, from: usize) -> (r: usize)
    requires
        from <= chars.len(),
    ensures
        r == brackets_end(chars@, from as int),
        from <= r <= chars.len(),
{
    let mut i: usize = from;
    while i < chars.len() && i + 1 < chars.len() && chars[i] == '[' && chars[i + 1] == ']'
        invariant
            from <= i <= chars.len(),
            brackets_end(chars@, from as int) == brackets_end(chars@, i as int),
        decreases chars.len() - i,
    {
        i += 2;
    }
    i
}

fn find_digits_end(chars: &Vec<char>, from: usize) -> (r: usize)
    requires
        from <= chars.len(),
    ensures
        r == digits_end(chars@, from as int),
        from <= r <= chars.len(),
{
    let mut i: usize = from;
    while i < chars.len() && digit(chars[i])
        invariant
            from <= i <= chars.len(),
            digits_end(chars@, from as int) == digits_end(chars@, i as int),
        decreases chars.len() - i,
    {
        i += 1;
    }
    i
}

fn find_quote_end(chars: &Vec<char>, from: usize) -> (r: usize)
    requires
        from <= chars.len(),
    ensures
        r == quote_end(chars@, from as int),
        from <= r <= chars.len(),
{
    let mut i: usize = from;
    while i < chars.len() && chars[i] != '"' && chars[i] != '\n'
        invariant
            from <= i <= chars.len(),
            quote_end(chars@, from as int) == quote_end(chars@, i as int),
        decreases chars.len() - i,
    {
        i += 1;
    }
    i
}

/// The token that starts at `i`, and the index behind it.
fn read_token(input: &str, chars: &Vec<char>, i: usize, line: usize) -> (r: (Token, usize))
    requires
        chars@ == input@,
        i < chars.len(),
    ensures
        r.0@ == token_at(input@, i as int, line as int).0,
        r.1 == token_at(input@, i as int, line as int).1,
        i < r.1 <= chars.len(),
{
    proof {
        lemma_token_bounds(input@, i as int, line as int);
    }
    let c = chars[i];
    if letter(c) {
        let end = find_brackets_end(chars, find_word_end(chars, i + 1));
        let lexeme = String::from_str(input.substring_char(i, end));
        let token_type = match TokenType::keyword(&lexeme) {
            Some(k) => k,
            None => TokenType::Identifier,
        };
        (Token { token_type, lexeme, line_num: line }, end)
    } else if digit(c) {
        let whole = find_digits_end(chars, i);
        let end = if whole < chars.len() && whole + 1 < chars.len() && chars[whole] == '.' && digit(
            chars[whole + 1],
        ) {
            find_digits_end(chars, whole + 1)
        } else {
            whole
        };
        let lexeme = String::from_str(input.substring_char(i, end));
        (Token { token_type: TokenType::NumericLiteral, lexeme, line_num: line }, end)
    } else if c == '"' {
        let end = find_quote_end(chars, i + 1);
        let lexeme = String::from_str(input.substring_char(i + 1, end));
        let next = if end < chars.len() && chars[end] == '"' {
            end + 1
        } else {
            end
        };
        (Token { token_type: TokenType::String, lexeme, line_num: line }, next)
    } else if c == ':' && i + 1 < chars.len() && chars[i + 1] == '=' {
        let lexeme = String::from_str(input.substring_char(i, i + 2));
        (Token { token_type: TokenType::ColonEq, lexeme, line_num: line }, i + 2)
    } else {
        let lexeme = String::from_str(input.substring_char(i, i + 1));
        let token_type = match mark(c) {
            Some(t) => t,
            None => TokenType::Null,
        };
        (Token { token_type, lexeme, line_num: line }, i + 1)
    }
}

/// Splits a text into tokens. Blanks, tabs and line ends separate tokens
/// and are dropped; the end of the input is the last token.
pub fn tokenize(input: &str) -> (r: Vec<Token>)
    requires
        input@.len() < usize::MAX,
    ensures
        token_views(r@) == lexed(input@),
        r@.len() >= 1,
        r@.last().token_type == TokenType::EOF,
        forall|k: int| 0 <= k < r@.len() ==> coherent(#[trigger] r@[k]@),
{
    let chars = characters(input);
    let n: usize = chars.len();
    let mut tokens: Vec<Token> = Vec::new();
    let mut i: usize = 0;
    let mut line: usize = 1;
    assert(token_views(tokens@) + lexed_from(input@, 0, 1) =~= lexed(input@));
    while i < n
        invariant
            chars@ == input@,
            n == chars.len(),
            n < usize::MAX,
            i <= n,
            1 <= line <= i + 1,
            token_views(tokens@) + lexed_from(input@, i as int, line as int) == lexed(input@),
        decreases n - i,
    {
        let c = chars[i];
        if c == '\n' {
            line += 1;
            i += 1;
        } else if c == ' ' || c == '\t' || c == '\r' {
            i += 1;
        } else {
            let ghost before = token_views(tokens@);
            let ghost rest = lexed_from(input@, i as int, line as int);
            let (token, next) = read_token(input, &chars, i, line);
            tokens.push(token);
            assert(token_views(tokens@) =~= before.push(token@));
            assert(rest == seq![token@] + lexed_from(input@, next as int, line as int));
            assert(before.push(token@) + lexed_from(input@, next as int, line as int) =~= before
                + rest);
            i = next;
        }
    }
    let ghost before = token_views(tokens@);
    tokens.push(Token { token_type: TokenType::EOF, lexeme: String::new(), line_num: line });
    proof {
        assert(token_views(tokens@) =~= before + lexed_from(input@, i as int, line as int));
        lemma_lexed_ends(input@, 0, 1);
        lemma_lexed_coherent(input@, 0, 1);
        assert(token_views(tokens@).last() == tokens@.last()@);
        assert forall|k: int| 0 <= k < tokens@.len() implies coherent(#[trigger] tokens@[k]@) by {
            assert(token_views(tokens@)[k] == tokens@[k]@);
        }
    }
    tokens
}

} // verus!
