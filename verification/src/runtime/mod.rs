//! What running a program needs of the front end.

pub mod environment;
pub mod interpreter;
