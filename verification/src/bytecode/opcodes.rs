//! The instruction set. Every opcode is one byte; its operands follow it in
//! the instruction stream.

use vstd::prelude::*;

verus! {

pub const OP_RETURN: u8 = 0;
pub const OP_CONSTANT: u8 = 1;
pub const OP_NEG: u8 = 2;
pub const OP_ADD: u8 = 3;
pub const OP_SUB: u8 = 4;
pub const OP_MUL: u8 = 5;
pub const OP_DIV: u8 = 6;
pub const OP_FALSE: u8 = 7;
pub const OP_TRUE: u8 = 8;
pub const OP_NOT: u8 = 9;
pub const OP_AND: u8 = 10;
pub const OP_OR: u8 = 11;
pub const OP_EQUAL: u8 = 12;
pub const OP_GREATER: u8 = 13;
pub const OP_LESS: u8 = 14;
pub const OP_NIL: u8 = 15;
pub const OP_PRINT: u8 = 16;
pub const OP_POP: u8 = 17;
pub const OP_DEF_GLOBAL: u8 = 18;
pub const OP_GET_GLOBAL: u8 = 19;
pub const OP_SET_GLOBAL: u8 = 20;
pub const OP_GET_LOCAL: u8 = 21;
pub const OP_SET_LOCAL: u8 = 22;
pub const OP_JUMP: u8 = 23;
pub const OP_JUMP_F: u8 = 24;

/// Whether `op` is an instruction of the machine.
pub open spec fn is_opcode(op: u8) -> bool {
    op <= OP_JUMP_F
}

/// The number of operand bytes that follow `op` in the instruction stream.
pub open spec fn operand_width(op: u8) -> int {
    if op == OP_CONSTANT || op == OP_DEF_GLOBAL || op == OP_GET_GLOBAL || op == OP_SET_GLOBAL
        || op == OP_GET_LOCAL || op == OP_SET_LOCAL {
        1
    } else if op == OP_JUMP || op == OP_JUMP_F {
        2
    } else {
        0
    }
}

/// The change in the depth of the value stack when `op` completes.
pub open spec fn stack_effect(op: u8) -> int {
    if op == OP_CONSTANT || op == OP_NIL || op == OP_TRUE || op == OP_FALSE || op == OP_GET_GLOBAL
        || op == OP_GET_LOCAL {
        1
    } else if op == OP_POP || op == OP_PRINT || op == OP_ADD || op == OP_SUB || op == OP_MUL || op
        == OP_DIV || op == OP_AND || op == OP_OR || op == OP_EQUAL || op == OP_LESS || op
        == OP_GREATER || op == OP_DEF_GLOBAL {
        -1
    } else {
        0
    }
}

/// The number of values `op` needs on the stack before it can run.
pub open spec fn stack_demand(op: u8) -> int {
    if op == OP_ADD || op == OP_SUB || op == OP_MUL || op == OP_DIV || op == OP_AND || op == OP_OR
        || op == OP_EQUAL || op == OP_LESS || op == OP_GREATER {
        2
    } else if op == OP_POP || op == OP_PRINT || op == OP_NEG || op == OP_NOT || op == OP_DEF_GLOBAL
        || op == OP_SET_GLOBAL || op == OP_SET_LOCAL || op == OP_JUMP_F {
        1
    } else {
        0
    }
}

} // verus!
