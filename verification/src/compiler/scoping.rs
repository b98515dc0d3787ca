//! What the compiler does to the table of locals, proved of the grammar:
//! an expression leaves the table alone, a statement can only declare
//! locals in the scope it stands in, and a block statement, as are the
//! blocks of an `if`, gives back the table as it found it, with one pop for
//! each local that went.

use super::grammar::{
    block, block_items, block_statement, else_part, expression_bp, if_statement, infix_loop,
    infix_power, let_statement, prefix_power, primary, statement, variable, Emit,
};
use super::lexer::Token;
use super::locals::LocalsView;
use crate::bytecode::opcodes::{OP_JUMP_F, OP_POP};
use vstd::prelude::*;

verus! {

/// Whether `after` is `before` with nothing but locals of the current
/// scope declared behind the locals of `before`.
pub open spec fn declared_in_scope(before: LocalsView, after: LocalsView) -> bool {
    &&& after.depth == before.depth
    &&& before.entries.is_prefix_of(after.entries)
    &&& forall|i: int|
        before.entries.len() <= i < after.entries.len() ==> (#[trigger] after.entries[i]).1
            == before.depth
}

/// Declaring in a scope, then declaring more in it, is declaring in it.
proof fn declared_further(a: LocalsView, b: LocalsView, c: LocalsView)
    requires
        declared_in_scope(a, b),
        declared_in_scope(b, c),
    ensures
        declared_in_scope(a, c),
{
    assert forall|i: int| 0 <= i < a.entries.len() implies a.entries[i] == c.entries[i] by {
        assert(a.entries[i] == b.entries[i]);
        assert(b.entries[i] == c.entries[i]);
    }
    assert forall|i: int| a.entries.len() <= i < c.entries.len() implies (#[trigger] c.entries[i]).1
        == a.depth by {
        if i < b.entries.len() {
            assert(b.entries[i] == c.entries[i]);
        }
    }
}

/// A well-formed table stays so when locals are declared in its scope.
proof fn declared_stays_well_formed(before: LocalsView, name: Seq<char>)
    requires
        before.wf(),
    ensures
        before.push(name).wf(),
        declared_in_scope(before, before.push(name)),
{
}

/// An expression leaves the locals alone.
pub proof fn expression_keeps_locals(s: Emit, min_bp: u8)
    ensures
        expression_bp(s, min_bp).state.locals == s.locals,
    decreases s.left(), 4int,
{
    let first = primary(s, min_bp);
    primary_keeps_locals(s, min_bp);
    if first.fault is None && first.state.left() <= s.left() {
        infix_loop_keeps_locals(first.state, min_bp);
    }
}

/// A primary expression leaves the locals alone.
proof fn primary_keeps_locals(s: Emit, min_bp: u8)
    ensures
        primary(s, min_bp).state.locals == s.locals,
    decreases s.left(), 3int,
{
    let p = s.peek();
    match p.token() {
        None => {},
        Some(Token::ParenOpen) => {
            let a = p.next();
            if a.left() < s.left() {
                expression_keeps_locals(a, 0);
            }
        },
        Some(Token::Identifier) => {
            variable_keeps_locals(p, min_bp);
        },
        Some(Token::Number) => {},
        Some(Token::String) => {},
        Some(Token::False) => {},
        Some(Token::True) => {},
        Some(Token::Nil) => {},
        Some(token) => {
            if prefix_power(token) is Some {
                let a = p.next();
                if a.left() < s.left() {
                    expression_keeps_locals(a, prefix_power(token)->0);
                }
            }
        },
    }
}

/// The use of a variable and an assignment to one leave the locals alone.
proof fn variable_keeps_locals(p: Emit, min_bp: u8)
    ensures
        variable(p, min_bp).state.locals == p.locals,
    decreases p.left(), 2int,
{
    let a = p.next();
    let local = a.locals.find(a.text());
    let named = if local is Some {
        a.mark(a.span()).done()
    } else {
        a.name_constant(a.text(), a.span())
    };
    if named.fault is None {
        let b = named.state.peek();
        if b.token() == Some(Token::Assign) {
            let c = b.next();
            if min_bp == 0 && c.left() < p.left() {
                expression_keeps_locals(c, 0);
            }
        }
    }
}

/// Infix operators and their operands leave the locals alone.
proof fn infix_loop_keeps_locals(s: Emit, min_bp: u8)
    ensures
        infix_loop(s, min_bp).state.locals == s.locals,
    decreases s.left(), 1int,
{
    let p = s.peek();
    match p.token() {
        None => {},
        Some(Token::Assign) => {},
        Some(op) => {
            match infix_power(op) {
                None => {},
                Some((left, right)) => {
                    if left >= min_bp {
                        let a = p.next();
                        if a.left() < s.left() {
                            expression_keeps_locals(a, right);
                            let operand = expression_bp(a, right);
                            if operand.fault is None {
                                let e = operand.state.mark(p.span()).infix(op);
                                if e.left() < s.left() {
                                    infix_loop_keeps_locals(e, min_bp);
                                }
                            }
                        }
                    }
                },
            }
        },
    }
}

/// A statement that compiles leaves the table of locals well formed, and
/// all it does to the table is declare locals in the scope it stands in.
pub proof fn statement_declares_in_scope(s: Emit)
    requires
        s.locals.wf(),
    ensures
        statement(s).fault is None ==> statement(s).state.locals.wf() && declared_in_scope(
            s.locals,
            statement(s).state.locals,
        ),
    decreases s.left(), 9int,
{
    let p = s.peek();
    match p.token() {
        Some(Token::Print) => {
            if p.next().left() <= s.left() {
                expression_keeps_locals(p.next(), 0);
            }
        },
        Some(Token::If) => {
            if p.next().left() <= s.left() {
                if_declares_in_scope(p.next());
            }
        },
        Some(Token::Let) => {
            if p.next().left() <= s.left() {
                let_declares_in_scope(p.next());
            }
        },
        Some(Token::BraceOpen) => {
            block_statement_gives_back(p);
        },
        _ => {
            expression_keeps_locals(p, 0);
        },
    }
}

/// `let` declares at most one local, in the scope it stands in.
proof fn let_declares_in_scope(a: Emit)
    requires
        a.locals.wf(),
    ensures
        let_statement(a).fault is None ==> let_statement(a).state.locals.wf() && declared_in_scope(
            a.locals,
            let_statement(a).state.locals,
        ),
    decreases a.left(), 6int,
{
    let name = super::grammar::expect(a, Token::Identifier);
    if name.fault is None {
        let b = name.state.next();
        let p = b.peek();
        if p.token() == Some(Token::Assign) {
            if p.next().left() <= a.left() {
                expression_keeps_locals(p.next(), 0);
            }
        }
        declared_stays_well_formed(a.locals, b.text());
    }
}

/// An `if` leaves the table of locals as it found it: each of its blocks
/// has a scope of its own.
#[verifier::rlimit(80)]
proof fn if_declares_in_scope(a: Emit)
    requires
        a.locals.wf(),
    ensures
        if_statement(a).fault is None ==> if_statement(a).state.locals == a.locals,
        if_statement(a).fault is None ==> if_statement(a).state.locals.wf() && declared_in_scope(
            a.locals,
            if_statement(a).state.locals,
        ),
    decreases a.left(), 8int,
{
    expression_keeps_locals(a, 0);
    let condition = expression_bp(a, 0);
    if condition.fault is None {
        let test = condition.state.mark(a.span()).jump(OP_JUMP_F);
        let first = test.emit(OP_POP);
        assert(first.locals == a.locals);
        if test.left() <= a.left() {
            block_statement_gives_back(first);
            let then = block_statement(first);
            if then.fault is None && then.state.left() <= a.left() {
                let rest = else_part(then.state, test.code.len() - 2);
                else_declares_in_scope(then.state, test.code.len() - 2);
                assert(if_statement(a) == rest);
            }
        }
    }
}

/// What follows the first block of an `if` leaves the table of locals as
/// it found it.
proof fn else_declares_in_scope(s: Emit, to_else: int)
    requires
        s.locals.wf(),
    ensures
        else_part(s, to_else).fault is None ==> else_part(s, to_else).state.locals == s.locals,
    decreases s.left(), 0int,
{
    let leave = s.mark(s.span()).jump(crate::bytecode::opcodes::OP_JUMP);
    let patched = leave.patch(to_else, leave.code.len() as int);
    if patched.fault is None {
        let p = patched.state.emit(OP_POP).peek();
        if p.token() == Some(Token::Else) {
            if p.next().left() < s.left() {
                block_statement_gives_back(p.next());
            }
        }
    }
}

/// The state in which the block of a block statement ends.
pub open spec fn body_of(p: Emit) -> Emit {
    block(p.with_locals(p.locals.enter())).state
}

/// A block statement that compiles gives the table of locals back as it
/// found it: the locals that were declared in the block are gone, and no
/// others. Its code is the code of the block and one pop for each local
/// that was declared in it.
pub proof fn block_statement_gives_back(p: Emit)
    requires
        p.locals.wf(),
    ensures
        block_statement(p).fault is None ==> block_statement(p).state.locals == p.locals,
        block_statement(p).fault is None ==> block_statement(p).state.locals.wf()
            && declared_in_scope(p.locals, block_statement(p).state.locals),
        block_statement(p).fault is None ==> body_of(p).locals.entries.len()
            >= p.locals.entries.len() && block_statement(p).state.code == body_of(p).code
            + Seq::new(
            (body_of(p).locals.entries.len() - p.locals.entries.len()) as nat,
            |i: int| OP_POP,
        ),
    decreases p.left(), 6int,
{
    if p.locals.depth < u8::MAX {
        let inner = p.with_locals(p.locals.enter());
        block_declares_in_scope(inner);
        let body = block(inner);
        if body.fault is None {
            let locals = body.state.locals;
            locals.kept_splits();
            let kept = locals.kept();
            let held = p.locals.entries.len() as int;
            if kept < held {
                assert(locals.entries[kept] == p.locals.entries[kept]);
            } else if kept > held {
                assert(locals.entries[held].1 == inner.locals.depth);
            }
            assert(locals.entries.take(kept) =~= p.locals.entries);
        }
    }
}

/// A block declares locals in the scope it stands in.
proof fn block_declares_in_scope(s: Emit)
    requires
        s.locals.wf(),
    ensures
        block(s).fault is None ==> block(s).state.locals.wf() && declared_in_scope(
            s.locals,
            block(s).state.locals,
        ),
    decreases s.left(), 5int,
{
    let open = super::grammar::consume(s, Token::BraceOpen);
    if open.fault is None && open.state.left() < s.left() {
        items_declare_in_scope(open.state);
    }
}

/// The statements of a block declare locals in the scope of the block.
proof fn items_declare_in_scope(s: Emit)
    requires
        s.locals.wf(),
    ensures
        block_items(s).fault is None ==> block_items(s).state.locals.wf() && declared_in_scope(
            s.locals,
            block_items(s).state.locals,
        ),
    decreases s.left(), 10int,
{
    let p = s.peek();
    if !(p.token() is None || p.token() == Some(Token::BraceClose)) {
        statement_declares_in_scope(p);
        let item = statement(p);
        if item.fault is None && item.state.left() < s.left() {
            items_declare_in_scope(item.state);
            if block_items(item.state).fault is None {
                declared_further(
                    s.locals,
                    item.state.locals,
                    block_items(item.state).state.locals,
                );
            }
        }
    }
}

} // verus!
