//! The one-pass compiler: a lexer, and a Pratt parser that emits bytecode
//! as it reads.

pub mod balance;
pub mod error;
pub mod faults;
pub mod lexer;
pub mod grammar;
pub mod locals;
pub mod parser;
pub mod scoping;
