//! Tokens and their classes.

use crate::text::text_is;
use vstd::prelude::*;
use vstd::string::*;

verus! {

/// The classes of tokens that the lexer tells apart.
#[derive(Debug, Clone, Copy, PartialEq, Eq, Structural)]
pub enum TokenType {
    Import,
    Immut,
    Let,
    Function,
    Identifier,
    String,
    NumericLiteral,
    True,
    False,
    LParen,
    RParen,
    LBrace,
    RBrace,
    Colon,
    ColonEq,
    Comma,
    Semicolon,
    Eq,
    Gt,
    Dot,
    Add,
    Sub,
    Mul,
    Div,
    EOF,
    Null,
}

/// One token: its class, its text in the source, and the line it stands on.
#[derive(Debug, PartialEq, Eq)]
pub struct Token {
    pub token_type: TokenType,
    pub lexeme: String,
    pub line_num: usize,
}

/// A token as contracts speak of it.
pub struct TokenView {
    pub token_type: TokenType,
    pub lexeme: Seq<char>,
    pub line_num: int,
}

impl View for Token {
    type V = TokenView;

    open spec fn view(&self) -> TokenView {
        TokenView {
            token_type: self.token_type,
            lexeme: self.lexeme@,
            line_num: self.line_num as int,
        }
    }
}

/// The views of a list of tokens, in order.
pub open spec fn token_views(tokens: Seq<Token>) -> Seq<TokenView> {
    Seq::new(tokens.len(), |i: int| tokens[i]@)
}

impl Clone for Token {
    fn clone(&self) -> (r: Token)
        ensures
            r == *self,
    {
        Token { token_type: self.token_type, lexeme: self.lexeme.clone(), line_num: self.line_num }
    }
}

impl Token {
    /// A token of the given class and text on the given line.
    pub fn new(token_type: TokenType, lexeme: String, line_num: usize) -> (r: Token)
        ensures
            r == (Token { token_type, lexeme, line_num }),
    {
        Token { token_type, lexeme, line_num }
    }
}

/// The name of a token class, as error messages show it.
pub open spec fn token_name(t: TokenType) -> Seq<char> {
    match t {
        TokenType::Import => "import"@,
        TokenType::Immut => "immut"@,
        TokenType::Let => "let"@,
        TokenType::Function => "function"@,
        TokenType::Identifier => "identifier"@,
        TokenType::String => "string"@,
        TokenType::NumericLiteral => "number"@,
        TokenType::True => "true"@,
        TokenType::False => "false"@,
        TokenType::LParen => "("@,
        TokenType::RParen => ")"@,
        TokenType::LBrace => "{"@,
        TokenType::RBrace => "}"@,
        TokenType::Colon => ":"@,
        TokenType::ColonEq => ":="@,
        TokenType::Comma => ","@,
        TokenType::Semicolon => ";"@,
        TokenType::Eq => "="@,
        TokenType::Gt => ">"@,
        TokenType::Dot => "."@,
        TokenType::Add => "+"@,
        TokenType::Sub => "-"@,
        TokenType::Mul => "*"@,
        TokenType::Div => "/"@,
        TokenType::EOF => "end of input"@,
        TokenType::Null => "null"@,
    }
}

/// The token class that a reserved word stands for; `None` for any other text.
pub open spec fn keyword_of(s: Seq<char>) -> Option<TokenType> {
    if s == "import"@ {
        Some(TokenType::Import)
    } else if s == "immut"@ {
        Some(TokenType::Immut)
    } else if s == "let"@ {
        Some(TokenType::Let)
    } else if s == "function"@ {
        Some(TokenType::Function)
    } else if s == "true"@ {
        Some(TokenType::True)
    } else if s == "false"@ {
        Some(TokenType::False)
    } else {
        None
    }
}

impl TokenType {
    /// One of `+ - * /`.
    pub open spec fn is_operator(self) -> bool {
        self == TokenType::Add || self == TokenType::Sub || self == TokenType::Mul || self
            == TokenType::Div
    }

    /// `*` or `/`.
    pub open spec fn is_multiplicative(self) -> bool {
        self == TokenType::Mul || self == TokenType::Div
    }

    /// A numeric literal or an identifier: what an operator works on.
    pub open spec fn is_operand(self) -> bool {
        self == TokenType::NumericLiteral || self == TokenType::Identifier
    }

    /// A reserved word.
    pub open spec fn is_keyword(self) -> bool {
        self == TokenType::Import || self == TokenType::Immut || self == TokenType::Let || self
            == TokenType::Function || self == TokenType::True || self == TokenType::False
    }

    /// Whether the class is that of a reserved word.
    pub fn reserved(self) -> (r: bool)
        ensures
            r == self.is_keyword(),
    {
        self == TokenType::Import || self == TokenType::Immut || self == TokenType::Let || self
            == TokenType::Function || self == TokenType::True || self == TokenType::False
    }

    /// Whether the class is that of an operator.
    pub fn operator(self) -> (r: bool)
        ensures
            r == self.is_operator(),
    {
        self == TokenType::Add || self == TokenType::Sub || self == TokenType::Mul || self
            == TokenType::Div
    }

    /// Whether the class is that of an operand.
    pub fn operand(self) -> (r: bool)
        ensures
            r == self.is_operand(),
    {
        self == TokenType::NumericLiteral || self == TokenType::Identifier
    }

    /// The name of the class, as error messages show it.
    pub fn name(self) -> (r: &'static str)
        ensures
            r@ == token_name(self),
    {
        match self {
            TokenType::Import => "import",
            TokenType::Immut => "immut",
            TokenType::Let => "let",
            TokenType::Function => "function",
            TokenType::Identifier => "identifier",
            TokenType::String => "string",
            TokenType::NumericLiteral => "number",
            TokenType::True => "true",
            TokenType::False => "false",
            TokenType::LParen => "(",
            TokenType::RParen => ")",
            TokenType::LBrace => "{",
            TokenType::RBrace => "}",
            TokenType::Colon => ":",
            TokenType::ColonEq => ":=",
            TokenType::Comma => ",",
            TokenType::Semicolon => ";",
            TokenType::Eq => "=",
            TokenType::Gt => ">",
            TokenType::Dot => ".",
            TokenType::Add => "+",
            TokenType::Sub => "-",
            TokenType::Mul => "*",
            TokenType::Div => "/",
            TokenType::EOF => "end of input",
            TokenType::Null => "null",
        }
    }

    /// The name of the class as an owned text.
    pub fn to_string(self) -> (r: String)
        ensures
            r@ == token_name(self),
    {
        String::from_str(self.name())
    }

    /// Looks a lexeme up among the reserved words.
    pub fn keyword(lexeme: &String) -> (r: Option<TokenType>)
        ensures
            r == keyword_of(lexeme@),
    {
        if text_is(lexeme, "import") {
            Some(TokenType::Import)
        } else if text_is(lexeme, "immut") {
            Some(TokenType::Immut)
        } else if text_is(lexeme, "let") {
            Some(TokenType::Let)
        } else if text_is(lexeme, "function") {
            Some(TokenType::Function)
        } else if text_is(lexeme, "true") {
            Some(TokenType::True)
        } else if text_is(lexeme, "false") {
            Some(TokenType::False)
        } else {
            None
        }
    }
}

} // verus!
