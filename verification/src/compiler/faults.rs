//! Where the errors of the compiler point, proved of the grammar: an error
//! is about the token that the lexer produced last when the statement
//! ended, and so about bytes of the source.

use super::error::Fault;
use super::grammar::{
    block, block_items, block_statement, consume, else_part, expect, expression_bp, if_statement, infix_loop, infix_power, let_statement, prefix_power,
    primary, statement, variable, Emit, Parsed,
};
use super::lexer::Token;
use crate::bytecode::opcodes::{OP_JUMP, OP_JUMP_F, OP_POP};
use vstd::prelude::*;

verus! {

/// Whether the error of `p`, if it has one, is about the token that the
/// lexer of its state produced last.
pub open spec fn points_at_last_token(p: Parsed) -> bool {
    p.fault matches Some(x) ==> x.start == p.state.lexer.start && x.end == p.state.lexer.end
}

/// Whether every one of `faults` is about bytes of a source of `len`
/// bytes.
pub open spec fn faults_within(faults: Seq<Fault>, len: int) -> bool {
    forall|i: int|
        0 <= i < faults.len() ==> 0 <= (#[trigger] faults[i]).start <= faults[i].end <= len
}

/// The error of an expression is about the token produced last.
pub proof fn expression_fault_points(s: Emit, min_bp: u8)
    ensures
        points_at_last_token(expression_bp(s, min_bp)),
    decreases s.left(), 4int,
{
    let first = primary(s, min_bp);
    primary_fault_points(s, min_bp);
    if first.fault is None && first.state.left() <= s.left() {
        infix_loop_fault_points(first.state, min_bp);
    }
}

/// The error of a primary expression is about the token produced last.
proof fn primary_fault_points(s: Emit, min_bp: u8)
    ensures
        points_at_last_token(primary(s, min_bp)),
    decreases s.left(), 3int,
{
    let p = s.peek();
    match p.token() {
        None => {},
        Some(Token::ParenOpen) => {
            let a = p.next();
            if a.left() < s.left() {
                expression_fault_points(a, 0);
            }
        },
        Some(Token::Identifier) => {
            variable_fault_points(p, min_bp);
        },
        Some(Token::Number) => {},
        Some(Token::String) => {},
        Some(Token::False) => {},
        Some(Token::True) => {},
        Some(Token::Nil) => {},
        Some(token) => {
            if prefix_power(token) is Some {
                let a = p.next();
                if a.left() < s.left() {
                    expression_fault_points(a, prefix_power(token)->0);
                }
            }
        },
    }
}

/// The error of the use of a variable is about the token produced last.
proof fn variable_fault_points(p: Emit, min_bp: u8)
    ensures
        points_at_last_token(variable(p, min_bp)),
    decreases p.left(), 2int,
{
    let a = p.next();
    let local = a.locals.find(a.text());
    let named = if local is Some {
        a.mark(a.span()).done()
    } else {
        a.name_constant(a.text(), a.span())
    };
    if named.fault is None {
        let b = named.state.peek();
        if b.token() == Some(Token::Assign) {
            let c = b.next();
            if min_bp == 0 && c.left() < p.left() {
                expression_fault_points(c, 0);
            }
        }
    }
}

/// The error of an infix operator or its operand is about the token
/// produced last.
proof fn infix_loop_fault_points(s: Emit, min_bp: u8)
    ensures
        points_at_last_token(infix_loop(s, min_bp)),
    decreases s.left(), 1int,
{
    let p = s.peek();
    match p.token() {
        None => {},
        Some(Token::Assign) => {},
        Some(op) => {
            match infix_power(op) {
                None => {},
                Some((left, right)) => {
                    if left >= min_bp {
                        let a = p.next();
                        if a.left() < s.left() {
                            expression_fault_points(a, right);
                            let operand = expression_bp(a, right);
                            if operand.fault is None {
                                let e = operand.state.mark(p.span()).infix(op);
                                if e.left() < s.left() {
                                    infix_loop_fault_points(e, min_bp);
                                }
                            }
                        }
                    }
                },
            }
        },
    }
}

/// The error that ends a statement is about the token that the lexer
/// produced last.
pub proof fn statement_fault_points(s: Emit)
    ensures
        points_at_last_token(statement(s)),
    decreases s.left(), 9int,
{
    let p = s.peek();
    match p.token() {
        Some(Token::Print) => {
            if p.next().left() <= s.left() {
                expression_fault_points(p.next(), 0);
            }
        },
        Some(Token::If) => {
            if p.next().left() <= s.left() {
                if_fault_points(p.next());
            }
        },
        Some(Token::Let) => {
            if p.next().left() <= s.left() {
                let_fault_points(p.next());
            }
        },
        Some(Token::BraceOpen) => {
            block_statement_fault_points(p);
        },
        _ => {
            expression_fault_points(p, 0);
        },
    }
}

/// The error of a `let` is about the token produced last.
proof fn let_fault_points(a: Emit)
    ensures
        points_at_last_token(let_statement(a)),
    decreases a.left(), 6int,
{
    let name = expect(a, Token::Identifier);
    if name.fault is None {
        let b = name.state.next();
        let p = b.peek();
        if p.token() == Some(Token::Assign) {
            if p.next().left() <= a.left() {
                expression_fault_points(p.next(), 0);
            }
        }
    }
}

/// The error of an `if` is about the token produced last.
#[verifier::rlimit(80)]
proof fn if_fault_points(a: Emit)
    ensures
        points_at_last_token(if_statement(a)),
    decreases a.left(), 8int,
{
    expression_fault_points(a, 0);
    let condition = expression_bp(a, 0);
    if condition.fault is None {
        let test = condition.state.mark(a.span()).jump(OP_JUMP_F);
        let first = test.emit(OP_POP);
        if test.left() <= a.left() {
            block_statement_fault_points(first);
            let then = block_statement(first);
            if then.fault is None && then.state.left() <= a.left() {
                else_fault_points(then.state, test.code.len() - 2);
            }
        }
    }
}

/// The error of what follows the first block of an `if` is about the token
/// produced last.
proof fn else_fault_points(s: Emit, to_else: int)
    ensures
        points_at_last_token(else_part(s, to_else)),
    decreases s.left(), 0int,
{
    let leave = s.mark(s.span()).jump(OP_JUMP);
    let patched = leave.patch(to_else, leave.code.len() as int);
    if patched.fault is None {
        let p = patched.state.emit(OP_POP).peek();
        if p.token() == Some(Token::Else) {
            if p.next().left() < s.left() {
                block_statement_fault_points(p.next());
            }
        }
    }
}

/// The error of a block statement is about the token produced last.
proof fn block_statement_fault_points(p: Emit)
    ensures
        points_at_last_token(block_statement(p)),
    decreases p.left(), 6int,
{
    if p.locals.depth < u8::MAX {
        block_fault_points(p.with_locals(p.locals.enter()));
    }
}

/// The error of a block is about the token produced last.
proof fn block_fault_points(s: Emit)
    ensures
        points_at_last_token(block(s)),
    decreases s.left(), 5int,
{
    let open = consume(s, Token::BraceOpen);
    if open.fault is None && open.state.left() < s.left() {
        items_fault_points(open.state);
    }
}

/// The error of a statement of a block is about the token produced last.
proof fn items_fault_points(s: Emit)
    ensures
        points_at_last_token(block_items(s)),
    decreases s.left(), 10int,
{
    let p = s.peek();
    if !(p.token() is None || p.token() == Some(Token::BraceClose)) {
        statement_fault_points(p);
        let item = statement(p);
        if item.fault is None && item.state.left() < s.left() {
            items_fault_points(item.state);
        }
    }
}

} // verus!
