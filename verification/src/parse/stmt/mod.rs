//! Declarations.

pub mod function;
pub mod variable;
