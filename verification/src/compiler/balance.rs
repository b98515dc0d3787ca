//! What compiled code does to the stack, proved of the grammar and of the
//! machine. The code of an expression pushes one value more than it pops.
//! The code of a statement leaves on the stack the locals that the
//! statement declares, and nothing else; a block statement leaves nothing.
//! A machine that steps through such code changes the depth of its stack
//! accordingly, and a program that runs to its end leaves the stack as deep
//! as it found it.

use super::error::Fault;
use super::grammar::{
    block, block_items, block_statement, compile, consume, else_part, expect, expression_bp,
    expression_statement, if_statement, infix_code, infix_loop, infix_power, let_statement,
    prefix_power, primary, print_statement, program, resume, statement, variable, Emit, MAX_JUMP,
    PLACEHOLDER,
};
use super::lexer::Token;
use super::scoping::{
    block_statement_gives_back, expression_keeps_locals, statement_declares_in_scope,
};
use crate::bytecode::chunk::ChunkView;
use crate::bytecode::effect::{
    effect_of_parts, effect_of_same_bytes, net_effect, run_comes_by, steps_have_the_effect,
};
use crate::bytecode::number::NumberOp;
use crate::bytecode::opcodes::{
    is_opcode, operand_width, stack_effect, OP_CONSTANT, OP_DEF_GLOBAL, OP_FALSE, OP_GET_GLOBAL,
    OP_GET_LOCAL, OP_JUMP, OP_JUMP_F, OP_NEG, OP_NIL, OP_NOT, OP_POP, OP_PRINT, OP_RETURN,
    OP_SET_GLOBAL, OP_SET_LOCAL, OP_TRUE,
};
use crate::bytecode::vm::{
    is_run, jump_target, links, step_has_stack_effect, MachineView, Outcome, RuntimeError,
    RuntimeStep,
};
use vstd::prelude::*;

verus! {

/// Whether the code `after` is the code `before` with a stretch behind it
/// whose effect on the stack is `effect`.
pub open spec fn adds(before: Seq<u8>, after: Seq<u8>, effect: int) -> bool {
    &&& before.is_prefix_of(after)
    &&& net_effect(after, before.len() as int, after.len() as int) == Some(effect)
}

/// Code that adds a stretch, and then another, adds both.
proof fn adds_more(first: Seq<u8>, second: Seq<u8>, third: Seq<u8>, one: int, other: int)
    requires
        adds(first, second, one),
        adds(second, third, other),
    ensures
        adds(first, third, one + other),
{
    effect_of_same_bytes(second, third, first.len() as int, second.len() as int);
    effect_of_parts(third, first.len() as int, second.len() as int, third.len() as int);
}

/// One instruction without an operand adds its stack effect.
proof fn adds_one(code: Seq<u8>, op: u8)
    requires
        is_opcode(op),
        operand_width(op) == 0,
        op != OP_RETURN,
    ensures
        adds(code, code.push(op), stack_effect(op)),
{
    reveal_with_fuel(net_effect, 2);
}

/// One instruction with an operand of one byte adds its stack effect.
proof fn adds_two(code: Seq<u8>, op: u8, operand: u8)
    requires
        is_opcode(op),
        operand_width(op) == 1,
    ensures
        adds(code, code.push(op).push(operand), stack_effect(op)),
{
    reveal_with_fuel(net_effect, 2);
}

/// The code of an infix operator takes one value more than it gives.
proof fn adds_infix(code: Seq<u8>, op: Token)
    requires
        infix_power(op) is Some,
    ensures
        adds(code, code + infix_code(op), -1),
{
    let ops = infix_code(op);
    if ops.len() == 1 {
        assert(code + ops =~= code.push(ops[0]));
        adds_one(code, ops[0]);
    } else {
        assert(code + ops =~= code.push(ops[0]).push(ops[1]));
        adds_one(code, ops[0]);
        adds_one(code.push(ops[0]), ops[1]);
        adds_more(code, code.push(ops[0]), code.push(ops[0]).push(ops[1]), -1, 0);
    }
}

/// Code adds nothing to itself.
proof fn adds_nothing(code: Seq<u8>)
    ensures
        adds(code, code, 0),
{
}

/// An expression that compiles emits code that pushes one value more than
/// it pops.
pub proof fn expression_pushes_one(s: Emit, min_bp: u8)
    ensures
        expression_bp(s, min_bp).fault is None ==> adds(
            s.code,
            expression_bp(s, min_bp).state.code,
            1,
        ),
    decreases s.left(), 4int,
{
    let first = primary(s, min_bp);
    primary_pushes_one(s, min_bp);
    if first.fault is None && first.state.left() <= s.left() {
        infix_loop_keeps_depth(first.state, min_bp);
        let all = infix_loop(first.state, min_bp);
        if all.fault is None {
            adds_more(s.code, first.state.code, all.state.code, 1, 0);
        }
    }
}

/// A primary expression pushes one value more than it pops.
proof fn primary_pushes_one(s: Emit, min_bp: u8)
    ensures
        primary(s, min_bp).fault is None ==> adds(s.code, primary(s, min_bp).state.code, 1),
    decreases s.left(), 3int,
{
    let p = s.peek();
    match p.token() {
        None => {},
        Some(Token::ParenOpen) => {
            let a = p.next();
            if a.left() < s.left() {
                expression_pushes_one(a, 0);
            }
        },
        Some(Token::Identifier) => {
            variable_pushes_one(p, min_bp);
        },
        Some(Token::Number) => {
            let a = p.next();
            adds_two(a.code, OP_CONSTANT, a.index());
        },
        Some(Token::String) => {
            let a = p.next();
            adds_two(a.code, OP_CONSTANT, a.index());
        },
        Some(Token::False) => {
            adds_one(s.code, OP_FALSE);
        },
        Some(Token::True) => {
            adds_one(s.code, OP_TRUE);
        },
        Some(Token::Nil) => {
            adds_one(s.code, OP_NIL);
        },
        Some(token) => {
            if prefix_power(token) is Some {
                let a = p.next();
                if a.left() < s.left() {
                    expression_pushes_one(a, prefix_power(token)->0);
                    let operand = expression_bp(a, prefix_power(token)->0);
                    if operand.fault is None {
                        let op = if token == Token::Sub {
                            OP_NEG
                        } else {
                            OP_NOT
                        };
                        adds_one(operand.state.code, op);
                        adds_more(s.code, operand.state.code, operand.state.code.push(op), 1, 0);
                    }
                }
            }
        },
    }
}

/// The use of a variable pushes its value, and an assignment leaves the
/// value that it stored.
proof fn variable_pushes_one(p: Emit, min_bp: u8)
    ensures
        variable(p, min_bp).fault is None ==> adds(p.code, variable(p, min_bp).state.code, 1),
    decreases p.left(), 2int,
{
    let a = p.next();
    let local = a.locals.find(a.text());
    let named = if local is Some {
        a.mark(a.span()).done()
    } else {
        a.name_constant(a.text(), a.span())
    };
    if named.fault is None {
        let (set, get, operand) = match local {
            Some(slot) => (OP_SET_LOCAL, OP_GET_LOCAL, slot),
            None => (OP_SET_GLOBAL, OP_GET_GLOBAL, a.index()),
        };
        let b = named.state.peek();
        if b.token() == Some(Token::Assign) {
            let c = b.next();
            if min_bp == 0 && c.left() < p.left() {
                expression_pushes_one(c, 0);
                let value = expression_bp(c, 0);
                if value.fault is None {
                    adds_two(value.state.code, set, operand);
                    adds_more(
                        p.code,
                        value.state.code,
                        value.state.code.push(set).push(operand),
                        1,
                        0,
                    );
                }
            }
        } else {
            adds_two(p.code, get, operand);
        }
    }
}

/// Each infix operator with its right operand pops as much as it pushes.
proof fn infix_loop_keeps_depth(s: Emit, min_bp: u8)
    ensures
        infix_loop(s, min_bp).fault is None ==> adds(s.code, infix_loop(s, min_bp).state.code, 0),
    decreases s.left(), 1int,
{
    adds_nothing(s.code);
    let p = s.peek();
    match p.token() {
        None => {},
        Some(Token::Assign) => {},
        Some(op) => {
            match infix_power(op) {
                None => {},
                Some((left, right)) => {
                    if left >= min_bp {
                        let a = p.next();
                        if a.left() < s.left() {
                            expression_pushes_one(a, right);
                            let operand = expression_bp(a, right);
                            if operand.fault is None {
                                let e = operand.state.mark(p.span()).infix(op);
                                adds_infix(operand.state.code, op);
                                adds_more(s.code, operand.state.code, e.code, 1, -1);
                                if e.left() < s.left() {
                                    infix_loop_keeps_depth(e, min_bp);
                                    let rest = infix_loop(e, min_bp);
                                    if rest.fault is None {
                                        adds_more(s.code, e.code, rest.state.code, 0, 0);
                                    }
                                }
                            }
                        }
                    }
                },
            }
        },
    }
}

/// The number of locals that were declared from `before` to `after`.
pub open spec fn growth(before: Emit, after: Emit) -> int {
    after.locals.entries.len() - before.locals.entries.len()
}

/// One pop for each of `count` values takes `count` values.
proof fn adds_pops(code: Seq<u8>, count: nat)
    ensures
        adds(code, code + Seq::new(count, |i: int| OP_POP), -(count as int)),
    decreases count,
{
    let all = code + Seq::new(count, |i: int| OP_POP);
    if count == 0 {
        assert(all =~= code);
    } else {
        let fewer = code + Seq::new((count - 1) as nat, |i: int| OP_POP);
        adds_pops(code, (count - 1) as nat);
        adds_one(fewer, OP_POP);
        assert(all =~= fewer.push(OP_POP));
        adds_more(code, fewer, all, -(count - 1), -1);
    }
}

/// The code with the distance from behind the operand at `offset` to `to`
/// written into that operand.
pub open spec fn patched(code: Seq<u8>, offset: int, to: int) -> Seq<u8> {
    code.update(offset, ((to - offset - 2) / 256) as u8).update(
        offset + 1,
        ((to - offset - 2) % 256) as u8,
    )
}

/// The two bytes that a distance is written as give the distance back.
proof fn distance_in_two_bytes(distance: int)
    requires
        0 <= distance <= MAX_JUMP,
    ensures
        ((distance / 256) as u8) * 256 + ((distance % 256) as u8) == distance,
{
}

/// The code of an `if` whose blocks leave the stack alone takes the value
/// of the condition: behind the jump at `c` that tests it, the code up to
/// `t` and, behind the jump at `t` over the rest, the code up to `e` each
/// start by popping the value.
proof fn branches_take_the_condition(code: Seq<u8>, c: int, t: int, e: int)
    requires
        0 <= c,
        c + 4 <= t,
        t + 4 <= e <= code.len(),
        code[c] == OP_JUMP_F,
        jump_target(code, c) == t + 3,
        code[c + 3] == OP_POP,
        net_effect(code, c + 4, t) == Some(0int),
        code[t] == OP_JUMP,
        jump_target(code, t) == e,
        code[t + 3] == OP_POP,
        net_effect(code, t + 4, e) == Some(0int),
    ensures
        net_effect(code, c, e) == Some(-1int),
{
    reveal_with_fuel(net_effect, 2);
    assert(net_effect(code, t, e) == Some(0int));
    effect_of_parts(code, c + 4, t, e);
    assert(net_effect(code, c + 3, e) == Some(-1int));
    assert(net_effect(code, t + 3, e) == Some(-1int));
}

/// `print EXPR ;` leaves the stack as it found it.
proof fn print_balances(a: Emit)
    ensures
        print_statement(a).fault is None ==> adds(a.code, print_statement(a).state.code, 0)
            && print_statement(a).state.locals == a.locals,
    decreases a.left(), 6int,
{
    expression_pushes_one(a, 0);
    expression_keeps_locals(a, 0);
    let value = expression_bp(a, 0);
    if value.fault is None {
        adds_one(value.state.code, OP_PRINT);
        adds_more(a.code, value.state.code, value.state.code.push(OP_PRINT), 1, -1);
    }
}

/// `EXPR ;` leaves the stack as it found it.
proof fn expression_statement_balances(p: Emit)
    ensures
        expression_statement(p).fault is None ==> adds(
            p.code,
            expression_statement(p).state.code,
            0,
        ) && expression_statement(p).state.locals == p.locals,
    decreases p.left(), 6int,
{
    expression_pushes_one(p, 0);
    expression_keeps_locals(p, 0);
    let value = expression_bp(p, 0);
    if value.fault is None {
        adds_one(value.state.code, OP_POP);
        adds_more(p.code, value.state.code, value.state.code.push(OP_POP), 1, -1);
    }
}

/// `let` leaves on the stack the local that it declares; in the global
/// scope, where it declares none, it leaves the stack as it found it.
proof fn let_balances(a: Emit)
    requires
        a.locals.wf(),
    ensures
        let_statement(a).fault is None ==> adds(
            a.code,
            let_statement(a).state.code,
            growth(a, let_statement(a).state),
        ),
        let_statement(a).fault is None && a.locals.depth == 0 ==> let_statement(a).state.locals
            == a.locals,
    decreases a.left(), 6int,
{
    let name = expect(a, Token::Identifier);
    if name.fault is None {
        let b = name.state.next();
        let p = b.peek();
        let value = if p.token() == Some(Token::Assign) {
            if p.next().left() > a.left() {
                a.stuck()
            } else {
                expression_bp(p.next(), 0)
            }
        } else {
            p.mark(b.span()).emit(OP_NIL).done()
        };
        if p.token() == Some(Token::Assign) {
            if p.next().left() <= a.left() {
                expression_pushes_one(p.next(), 0);
                expression_keeps_locals(p.next(), 0);
            }
        } else {
            adds_one(a.code, OP_NIL);
        }
        if value.fault is None {
            assert(adds(a.code, value.state.code, 1));
            assert(value.state.locals == a.locals);
            if value.state.locals.depth == 0 {
                let index = value.state.index();
                adds_two(value.state.code, OP_DEF_GLOBAL, index);
                adds_more(
                    a.code,
                    value.state.code,
                    value.state.code.push(OP_DEF_GLOBAL).push(index),
                    1,
                    -1,
                );
            }
        }
    }
}

/// A block statement leaves the stack as it found it.
proof fn block_statement_balances(p: Emit)
    requires
        p.locals.wf(),
    ensures
        block_statement(p).fault is None ==> adds(p.code, block_statement(p).state.code, 0),
        block_statement(p).fault is None ==> block_statement(p).state.locals == p.locals,
    decreases p.left(), 6int,
{
    block_statement_gives_back(p);
    if p.locals.depth < u8::MAX {
        let inner = p.with_locals(p.locals.enter());
        block_balances(inner);
        let body = block(inner);
        if body.fault is None {
            let declared = (body.state.locals.entries.len() - p.locals.entries.len()) as nat;
            adds_pops(body.state.code, declared);
            adds_more(
                p.code,
                body.state.code,
                block_statement(p).state.code,
                declared as int,
                -(declared as int),
            );
        }
    }
}

/// A block leaves on the stack the locals that its statements declare.
proof fn block_balances(s: Emit)
    requires
        s.locals.wf(),
    ensures
        block(s).fault is None ==> adds(
            s.code,
            block(s).state.code,
            growth(s, block(s).state),
        ),
    decreases s.left(), 5int,
{
    let open = consume(s, Token::BraceOpen);
    if open.fault is None && open.state.left() < s.left() {
        items_balance(open.state);
    }
}

/// Statements leave on the stack the locals that they declare.
#[verifier::rlimit(50)]
proof fn items_balance(s: Emit)
    requires
        s.locals.wf(),
    ensures
        block_items(s).fault is None ==> adds(
            s.code,
            block_items(s).state.code,
            growth(s, block_items(s).state),
        ),
    decreases s.left(), 10int,
{
    let p = s.peek();
    if p.token() is None || p.token() == Some(Token::BraceClose) {
        adds_nothing(s.code);
    } else {
        statement_balances(p);
        statement_declares_in_scope(p);
        let item = statement(p);
        if item.fault is None && item.state.left() < s.left() {
            items_balance(item.state);
            let rest = block_items(item.state);
            assert(block_items(s) == rest);
            if rest.fault is None {
                adds_more(
                    s.code,
                    item.state.code,
                    rest.state.code,
                    growth(p, item.state),
                    growth(item.state, rest.state),
                );
            }
        }
    }
}

/// A statement leaves on the stack the locals that it declares, and
/// nothing else. In the global scope it declares none.
pub proof fn statement_balances(s: Emit)
    requires
        s.locals.wf(),
    ensures
        statement(s).fault is None ==> adds(
            s.code,
            statement(s).state.code,
            growth(s, statement(s).state),
        ),
        statement(s).fault is None && s.locals.depth == 0 ==> statement(s).state.locals
            == s.locals,
    decreases s.left(), 9int,
{
    let p = s.peek();
    match p.token() {
        Some(Token::Print) => {
            if p.next().left() <= s.left() {
                print_balances(p.next());
            }
        },
        Some(Token::If) => {
            if p.next().left() <= s.left() {
                if_balances(p.next());
            }
        },
        Some(Token::Let) => {
            if p.next().left() <= s.left() {
                let_balances(p.next());
            }
        },
        Some(Token::BraceOpen) => {
            block_statement_balances(p);
        },
        _ => {
            expression_statement_balances(p);
        },
    }
}

/// An `if` leaves the stack as it found it.
#[verifier::rlimit(100)]
proof fn if_balances(a: Emit)
    requires
        a.locals.wf(),
    ensures
        if_statement(a).fault is None ==> adds(a.code, if_statement(a).state.code, 0)
            && if_statement(a).state.locals == a.locals,
    decreases a.left(), 8int,
{
    expression_pushes_one(a, 0);
    expression_keeps_locals(a, 0);
    let condition = expression_bp(a, 0);
    if condition.fault is None {
        let test = condition.state.mark(a.span()).jump(OP_JUMP_F);
        let first = test.emit(OP_POP);
        if test.left() <= a.left() {
            block_statement_balances(first);
            let then = block_statement(first);
            if then.fault is None && then.state.left() <= a.left() {
                let to_else = test.code.len() - 2;
                let leave = then.state.mark(then.state.span()).jump(OP_JUMP);
                let patched = leave.patch(to_else, leave.code.len() as int);
                if patched.fault is None {
                    let second = patched.state.emit(OP_POP);
                    let p = second.peek();
                    let otherwise = if p.token() == Some(Token::Else) {
                        if p.next().left() >= then.state.left() {
                            then.state.stuck()
                        } else {
                            block_statement(p.next())
                        }
                    } else {
                        p.done()
                    };
                    if p.token() == Some(Token::Else) {
                        if p.next().left() < then.state.left() {
                            block_statement_balances(p.next());
                        }
                    } else {
                        adds_nothing(second.code);
                    }
                    if otherwise.fault is None {
                        let all = otherwise.state.patch(
                            leave.code.len() - 2,
                            otherwise.state.code.len() as int,
                        );
                        assert(else_part(then.state, to_else) == all);
                        assert(if_statement(a) == all);
                        if all.fault is None {
                            assert(then.state.locals == a.locals);
                            assert(otherwise.state.locals == a.locals);
                            assert(adds(first.code, then.state.code, 0));
                            assert(adds(second.code, otherwise.state.code, 0));
                            if_code_balances(
                                a.code,
                                condition.state.code,
                                then.state.code,
                                otherwise.state.code,
                                all.state.code,
                            );
                        }
                    }
                }
            }
        }
    }
}

/// The code of an `if`, put together from the code in front of it, the
/// code `c0` up to the end of its condition, the code `t1` up to the end of
/// its first block and the code `e1` up to the end of its second block, or
/// of the first where there is no second, with both jumps patched in `all`.
#[verifier::rlimit(100)]
proof fn if_code_balances(a0: Seq<u8>, c0: Seq<u8>, t1: Seq<u8>, e1: Seq<u8>, all: Seq<u8>)
    requires
        adds(a0, c0, 1),
        adds(c0.push(OP_JUMP_F).push(PLACEHOLDER).push(PLACEHOLDER).push(OP_POP), t1, 0),
        t1.len() + 3 - (c0.len() + 1) - 2 <= MAX_JUMP,
        adds(
            patched(
                t1.push(OP_JUMP).push(PLACEHOLDER).push(PLACEHOLDER),
                (c0.len() + 1) as int,
                (t1.len() + 3) as int,
            ).push(OP_POP),
            e1,
            0,
        ),
        e1.len() - (t1.len() + 1) - 2 <= MAX_JUMP,
        all == patched(e1, (t1.len() + 1) as int, e1.len() as int),
    ensures
        adds(a0, all, 0),
{
    let c = c0.len() as int;
    let t = t1.len() as int;
    let e = e1.len() as int;
    let t0 = c0.push(OP_JUMP_F).push(PLACEHOLDER).push(PLACEHOLDER).push(OP_POP);
    let leave = t1.push(OP_JUMP).push(PLACEHOLDER).push(PLACEHOLDER);
    let d1 = t + 3 - (c + 1) - 2;
    let d2 = e - (t + 1) - 2;
    let e0 = patched(leave, c + 1, t + 3).push(OP_POP);
    distance_in_two_bytes(d1);
    distance_in_two_bytes(d2);
    assert(forall|i: int| 0 <= i < t0.len() ==> t1[i] == t0[i]);
    assert(forall|i: int| 0 <= i < e0.len() ==> e1[i] == e0[i]);
    assert(all[c] == OP_JUMP_F) by {
        assert(e1[c] == e0[c]);
        assert(t1[c] == t0[c]);
    }
    assert(all[c + 1] == (d1 / 256) as u8 && all[c + 2] == (d1 % 256) as u8) by {
        assert(e1[c + 1] == e0[c + 1]);
        assert(e1[c + 2] == e0[c + 2]);
    }
    assert(all[c + 3] == OP_POP) by {
        assert(e1[c + 3] == e0[c + 3]);
        assert(t1[c + 3] == t0[c + 3]);
    }
    assert(all[t] == OP_JUMP && all[t + 3] == OP_POP) by {
        assert(e1[t] == e0[t]);
        assert(e1[t + 3] == e0[t + 3]);
    }
    assert(jump_target(all, c) == t + 3);
    assert(jump_target(all, t) == e);
    assert forall|i: int| 0 <= i < c implies c0[i] == all[i] by {
        assert(e1[i] == e0[i]);
        assert(t1[i] == t0[i]);
    }
    effect_of_same_bytes(c0, all, a0.len() as int, c);
    assert forall|i: int| c + 4 <= i < t implies t1[i] == all[i] by {
        assert(e1[i] == e0[i]);
    }
    effect_of_same_bytes(t1, all, c + 4, t);
    assert forall|i: int| t + 4 <= i < e implies e1[i] == all[i] by {
    }
    effect_of_same_bytes(e1, all, t + 4, e);
    branches_take_the_condition(all, c, t, e);
    effect_of_parts(all, a0.len() as int, c, e);
    assert forall|i: int| 0 <= i < a0.len() implies a0[i] == all[i] by {
        assert(a0[i] == c0[i]);
    }
}

/// The errors of a program are reported behind those that were found
/// before.
proof fn faults_are_added(s: Emit, faults: Seq<Fault>)
    ensures
        faults.len() <= program(s, faults).1.len(),
    decreases s.left(),
{
    let p = s.peek();
    if p.token() is Some {
        let item = statement(p);
        let (next, found) = match item.fault {
            None => (item.state, faults),
            Some(f) => (resume(s, item.state), faults.push(f)),
        };
        if next.left() < s.left() {
            faults_are_added(next, found);
        }
    }
}

/// A program that compiles without an error leaves the stack as it found
/// it, and declares no local.
pub proof fn program_balances(s: Emit, faults: Seq<Fault>)
    requires
        s.locals.wf(),
        s.locals.depth == 0,
    ensures
        program(s, faults).1 == faults ==> adds(
            s.code,
            program(s, faults).0.code,
            0,
        ) && program(s, faults).0.locals == s.locals,
    decreases s.left(),
{
    let p = s.peek();
    if p.token() is None {
        adds_nothing(s.code);
    } else {
        statement_balances(p);
        let item = statement(p);
        match item.fault {
            None => {
                if item.state.left() < s.left() {
                    program_balances(item.state, faults);
                    if program(item.state, faults).1 == faults {
                        adds_more(
                            s.code,
                            item.state.code,
                            program(item.state, faults).0.code,
                            0,
                            0,
                        );
                    }
                }
            },
            Some(f) => {
                let next = resume(s, item.state);
                if next.left() < s.left() {
                    faults_are_added(next, faults.push(f));
                }
            },
        }
    }
}

/// A machine that steps through the code of a statement ends with as many
/// more values on its stack as the statement declares locals, and so with
/// none more behind a block statement or an `if`. The code of the statement
/// is part of the code `code` of the machine; state `i` of the run is at
/// the start of it and the later state `j` at its end.
pub proof fn running_a_statement_leaves_its_locals<F: Fn(NumberOp, u64, u64) -> u64>(
    s: Emit,
    code: ChunkView,
    arith: &F,
    trace: Seq<MachineView>,
    i: int,
    j: int,
)
    requires
        s.locals.wf(),
        statement(s).fault is None,
        code.wf(),
        statement(s).state.code.len() <= code.code.len(),
        forall|k: int|
            s.code.len() <= k < statement(s).state.code.len() ==> code.code[k] == statement(
                s,
            ).state.code[k],
        forall|k: int| 0 <= k < trace.len() - 1 ==> #[trigger] links(code, arith, trace, k),
        0 <= i <= j < trace.len(),
        trace[i].pc == s.code.len(),
        trace[j].pc == statement(s).state.code.len(),
    ensures
        trace[j].stack.len() == trace[i].stack.len() + growth(s, statement(s).state),
        s.peek().token() == Some(Token::BraceOpen) || s.peek().token() == Some(Token::If)
            ==> trace[j].stack.len() == trace[i].stack.len(),
{
    let compiled = statement(s).state.code;
    statement_balances(s);
    effect_of_same_bytes(compiled, code.code, s.code.len() as int, compiled.len() as int);
    steps_have_the_effect(code, arith, trace, i, j, compiled.len() as int);
    if s.peek().token() == Some(Token::BraceOpen) {
        block_statement_gives_back(s.peek());
    }
    if s.peek().token() == Some(Token::If) && s.peek().next().left() <= s.left() {
        if_balances(s.peek().next());
    }
}

/// A program that compiled without an error and runs up to its halt
/// leaves the stack as deep as it found it: a machine that starts with an
/// empty stack halts with an empty stack.
pub proof fn running_a_program_keeps_the_depth<F: Fn(NumberOp, u64, u64) -> u64>(
    s: Emit,
    code: ChunkView,
    arith: &F,
    trace: Seq<MachineView>,
    before: MachineView,
    out: Outcome,
)
    requires
        s.locals.wf(),
        s.locals.depth == 0,
        compile(s).1.len() == 0,
        code.wf(),
        code.code == compile(s).0.code,
        is_run(code, arith, trace, before, out),
        before.pc == s.code.len(),
        out.result == Ok::<RuntimeStep, RuntimeError>(RuntimeStep::Halt),
    ensures
        out.state.stack.len() == before.stack.len(),
{
    let end = program(s, Seq::empty()).0;
    faults_are_added(s, Seq::empty());
    assert(program(s, Seq::empty()).1 =~= Seq::<Fault>::empty());
    program_balances(s, Seq::empty());
    let all = code.code;
    assert(all == end.code.push(OP_RETURN));
    effect_of_same_bytes(end.code, all, s.code.len() as int, end.code.len() as int);
    step_has_stack_effect(code, arith, trace.last(), out);
    let j = run_comes_by(code, arith, trace, 0, end.code.len() as int);
    steps_have_the_effect(code, arith, trace, 0, j, end.code.len() as int);
    if j < trace.len() - 1 {
        assert(links(code, arith, trace, j));
        step_has_stack_effect(code, arith, trace[j], trace[j + 1].proceeds());
    }
}

/// A machine that steps through the code of an expression ends with one
/// more value on its stack. The code of the expression is part of the code
/// `code` of the machine; state `i` of the run is at the start of it and
/// the later state `j` at its end.
pub proof fn running_an_expression_pushes_one<F: Fn(NumberOp, u64, u64) -> u64>(
    s: Emit,
    min_bp: u8,
    code: ChunkView,
    arith: &F,
    trace: Seq<MachineView>,
    i: int,
    j: int,
)
    requires
        expression_bp(s, min_bp).fault is None,
        code.wf(),
        expression_bp(s, min_bp).state.code.len() <= code.code.len(),
        forall|k: int|
            s.code.len() <= k < expression_bp(s, min_bp).state.code.len() ==> code.code[k]
                == expression_bp(s, min_bp).state.code[k],
        forall|k: int| 0 <= k < trace.len() - 1 ==> #[trigger] links(code, arith, trace, k),
        0 <= i <= j < trace.len(),
        trace[i].pc == s.code.len(),
        trace[j].pc == expression_bp(s, min_bp).state.code.len(),
    ensures
        trace[j].stack.len() == trace[i].stack.len() + 1,
{
    let compiled = expression_bp(s, min_bp).state.code;
    expression_pushes_one(s, min_bp);
    effect_of_same_bytes(compiled, code.code, s.code.len() as int, compiled.len() as int);
    steps_have_the_effect(code, arith, trace, i, j, compiled.len() as int);
}

} // verus!
