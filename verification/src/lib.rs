//! The front end of the Velo language: it turns a text into tokens and the
//! tokens into a typed syntax tree. Numeric literals get the narrowest type
//! that holds them exactly, arithmetic on them is folded where the result is
//! exact, and errors are collected as structured values.
//!
//! Every function is verified against a contract over the views of its
//! data; the laws that relate several functions are public proof functions.

pub mod ast;
pub mod console;
pub mod decimal;
pub mod error;
pub mod fold;
pub mod lexer;
pub mod literal;
pub mod number;
pub mod numeral;
pub mod parse;
pub mod runtime;
pub mod text;
pub mod token;
pub mod types;
