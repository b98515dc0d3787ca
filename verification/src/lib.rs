//! A small dynamically typed scripting language: a one-pass compiler to
//! bytecode and the stack machine that runs it, over a shared object heap.
//!
//! `compiler::parser::Parser::parse_source` compiles a source text into a
//! `bytecode::chunk::CodeChunk` and interns its names and strings on a
//! `bytecode::object::ObjectHeap`. `bytecode::vm::VM` runs the chunk on that
//! heap. What the program prints is collected by the machine; to write it
//! out is the caller's part.
//!
//! Numbers are IEEE-754 binary64 values held by their bit pattern. The
//! library negates and compares them itself; the reading of decimal
//! literals and the arithmetic that rounds are functions that the caller
//! hands in.

pub mod bytecode;
pub mod compiler;
