//! The bytecode model: instructions, constants, values, the object heap and
//! the machine that executes a chunk.

pub mod chunk;
pub mod effect;
pub mod number;
pub mod object;
pub mod opcodes;
pub mod store;
pub mod value;
pub mod vm;
