//! What the compiler does, stated as functions from the state of a
//! compilation to the next: which tokens are read, which bytes, spans and
//! constants are emitted, and which error ends a statement.
//!
//! A constant is described by the text it was written as. The values that
//! stand for it in the chunk and on the heap are a matter of the compiler.

use super::error::{fault, unexpected, Fault, ParserErrorKind};
use super::lexer::{text_between, LexerView, Token};
use super::locals::{LocalsView, MAX_LOCALS};
use crate::bytecode::chunk::MAX_CONSTANTS;
use crate::bytecode::store::{byte_len, MAX_TEXT, SLOT_LIMIT};
use crate::bytecode::opcodes::{
    OP_ADD, OP_AND, OP_CONSTANT, OP_DEF_GLOBAL, OP_DIV, OP_EQUAL, OP_FALSE, OP_GET_GLOBAL,
    OP_GET_LOCAL, OP_GREATER, OP_JUMP, OP_JUMP_F, OP_LESS, OP_MUL, OP_NEG, OP_NIL, OP_NOT, OP_OR,
    OP_POP, OP_PRINT, OP_RETURN, OP_SET_GLOBAL, OP_SET_LOCAL, OP_SUB, OP_TRUE,
};
use std::ops::Range;
use vstd::prelude::*;

verus! {

/// A constant of a program, by the text it was written as.
pub enum Constant {
    /// A number, by its literal.
    Number(Seq<char>),
    /// An interned string: the text of a string literal, or a name.
    Text(Seq<char>),
}

/// The state of a compilation.
pub struct Emit {
    /// The lexer.
    pub lexer: LexerView,
    /// The instruction stream of the chunk.
    pub code: Seq<u8>,
    /// The span table of the chunk.
    pub spans: Seq<(usize, Range<usize>)>,
    /// The number of constants that the chunk held before the compilation.
    pub pool: int,
    /// The constants that the compilation has added, the oldest first.
    pub constants: Seq<Constant>,
    /// The locals in scope.
    pub locals: LocalsView,
    /// The texts that the heap has interned.
    pub interned: Set<Seq<char>>,
    /// The number of objects on the heap.
    pub objects: nat,
}

/// A state, and the error that ended a statement in it, if one did.
pub struct Parsed {
    pub state: Emit,
    pub fault: Option<Fault>,
}

/// The placeholder for a byte of a jump's operand that is patched later.
pub const PLACEHOLDER: u8 = 0xFF;

/// The largest distance that a jump can cover.
pub const MAX_JUMP: usize = 0xFFFF;

/// The binding powers of an infix operator, left and right; `None` for a
/// token that is no infix operator. A higher power binds tighter, and the
/// right power is the higher one: the operators associate to the left.
pub open spec fn infix_power(token: Token) -> Option<(u8, u8)> {
    match token {
        Token::Or => Some((4u8, 5u8)),
        Token::And => Some((6u8, 7u8)),
        Token::Eq | Token::Neq | Token::Geq | Token::Leq | Token::Le | Token::Gr => Some(
            (10u8, 11u8),
        ),
        Token::Add | Token::Sub => Some((15u8, 16u8)),
        Token::Mul | Token::Div => Some((17u8, 18u8)),
        _ => None,
    }
}

/// The binding power of a prefix operator; `None` for a token that is none.
pub open spec fn prefix_power(token: Token) -> Option<u8> {
    match token {
        Token::Sub | Token::Not => Some(25u8),
        _ => None,
    }
}

/// The code of an infix operator.
pub open spec fn infix_code(op: Token) -> Seq<u8> {
    match op {
        Token::Add => seq![OP_ADD],
        Token::Sub => seq![OP_SUB],
        Token::Mul => seq![OP_MUL],
        Token::Div => seq![OP_DIV],
        Token::Eq => seq![OP_EQUAL],
        Token::Neq => seq![OP_EQUAL, OP_NOT],
        Token::Gr => seq![OP_GREATER],
        Token::Le => seq![OP_LESS],
        Token::Geq => seq![OP_LESS, OP_NOT],
        Token::Leq => seq![OP_GREATER, OP_NOT],
        Token::And => seq![OP_AND],
        Token::Or => seq![OP_OR],
        _ => Seq::empty(),
    }
}

/// The kind of the error for a token that is not the expected one.
pub open spec fn mismatch(expected: Token, found: Option<Token>) -> ParserErrorKind {
    match found {
        Some(token) => unexpected(Some(expected), token),
        None => ParserErrorKind::UnexpectedToken { expected, found: None },
    }
}

/// Whether a statement can start with the token: error recovery stops in
/// front of these.
pub open spec fn starts_statement(token: Token) -> bool {
    token == Token::Class || token == Token::Fn || token == Token::Let || token == Token::For
        || token == Token::If || token == Token::While || token == Token::Print || token
        == Token::Return
}

impl Emit {
    /// The number of bytes of the source that are still to be consumed.
    pub open spec fn left(self) -> nat {
        if 0 <= self.lexer.pos <= self.lexer.bytes.len() {
            (self.lexer.bytes.len() - self.lexer.pos) as nat
        } else {
            0
        }
    }

    /// The token that comes next.
    pub open spec fn token(self) -> Option<Token> {
        self.lexer.upcoming().token
    }

    /// The state after a look at the next token.
    pub open spec fn peek(self) -> Emit {
        Emit { lexer: self.lexer.peeked(), ..self }
    }

    /// The state after the next token was consumed.
    pub open spec fn next(self) -> Emit {
        Emit { lexer: self.lexer.advanced(), ..self }
    }

    /// The span of the token that the lexer produced last.
    pub open spec fn span(self) -> Range<usize> {
        Range { start: self.lexer.start as usize, end: self.lexer.end as usize }
    }

    /// The text of the token that the lexer produced last.
    pub open spec fn text(self) -> Seq<char> {
        self.lexer.text()
    }

    /// The text between the quotes of the string literal that the lexer
    /// produced last.
    pub open spec fn quoted(self) -> Seq<char> {
        text_between(self.lexer.bytes, self.lexer.start + 1, self.lexer.end - 1)
    }

    /// The state, with no error.
    pub open spec fn done(self) -> Parsed {
        Parsed { state: self, fault: None }
    }

    /// The state, with an error of `kind` about the token that the lexer
    /// produced last.
    pub open spec fn fails(self, kind: ParserErrorKind) -> Parsed {
        Parsed { state: self, fault: Some(fault(kind, self.lexer.start, self.lexer.end)) }
    }

    /// The outcome where the lexer made no progress. The functions below
    /// name it so that they are seen to end; no compilation comes by it,
    /// since every token that is consumed has at least one byte.
    pub open spec fn stuck(self) -> Parsed {
        self.fails(ParserErrorKind::EndOfInput)
    }

    /// The state with one more byte of code.
    pub open spec fn emit(self, byte: u8) -> Emit {
        Emit { code: self.code.push(byte), ..self }
    }

    /// The state with `span` in effect for the code that follows.
    pub open spec fn mark(self, span: Range<usize>) -> Emit {
        Emit { spans: self.spans.push((self.code.len() as usize, span)), ..self }
    }

    /// Whether the pool of the chunk is full.
    pub open spec fn full(self) -> bool {
        self.pool + self.constants.len() >= MAX_CONSTANTS
    }

    /// The index that the next constant gets.
    pub open spec fn index(self) -> u8 {
        (self.pool + self.constants.len()) as u8
    }

    /// The state with one more constant.
    pub open spec fn constant(self, constant: Constant) -> Emit {
        Emit { constants: self.constants.push(constant), ..self }
    }

    /// The state with other locals.
    pub open spec fn with_locals(self, locals: LocalsView) -> Emit {
        Emit { locals, ..self }
    }

    /// Whether the heap takes `text`: the text is no longer than a string
    /// may be, and the heap has interned it or has room for one more
    /// object.
    pub open spec fn takes(self, text: Seq<char>) -> bool {
        byte_len(text) <= MAX_TEXT && (self.interned.contains(text) || self.objects
            < SLOT_LIMIT)
    }

    /// The state after `text` was interned: a text that is new to the heap
    /// is one more object on it.
    pub open spec fn interning(self, text: Seq<char>) -> Emit {
        Emit {
            interned: self.interned.insert(text),
            objects: if self.interned.contains(text) {
                self.objects
            } else {
                self.objects + 1
            },
            ..self
        }
    }

    /// Marks `span`, interns `text` and adds its constant: that of a name
    /// or of a string. A full pool is an error, and so is a text that the
    /// heap does not take.
    pub open spec fn name_constant(self, text: Seq<char>, span: Range<usize>) -> Parsed {
        if self.full() {
            self.fails(ParserErrorKind::ConstantPoolOverflow)
        } else if !self.takes(text) {
            self.fails(ParserErrorKind::HeapExhausted)
        } else {
            self.mark(span).constant(Constant::Text(text)).interning(text).done()
        }
    }

    /// Adds the constant of a number and emits the instruction that pushes
    /// it.
    pub open spec fn push_constant(self, constant: Constant) -> Parsed {
        if self.full() {
            self.fails(ParserErrorKind::ConstantPoolOverflow)
        } else {
            self.mark(self.span()).constant(constant).emit(OP_CONSTANT).emit(self.index()).done()
        }
    }

    /// Adds the constant of a name and emits the instruction that defines
    /// the global of that name, under the span of the name.
    pub open spec fn define_global(self, name: Seq<char>, span: Range<usize>) -> Parsed {
        let named = self.name_constant(name, span);
        if named.fault is Some {
            named
        } else {
            named.state.emit(OP_DEF_GLOBAL).emit(self.index()).done()
        }
    }

    /// Emits a jump with a placeholder for its distance. The operand is at
    /// the last two bytes of the code.
    pub open spec fn jump(self, op: u8) -> Emit {
        self.emit(op).emit(PLACEHOLDER).emit(PLACEHOLDER)
    }

    /// Writes into the operand at `offset` the distance from behind the
    /// operand to `to`, the high byte first. A distance that two bytes
    /// cannot hold is an error.
    pub open spec fn patch(self, offset: int, to: int) -> Parsed {
        let distance = to - offset - 2;
        if distance > MAX_JUMP {
            self.fails(ParserErrorKind::JumpTooLong)
        } else {
            Emit {
                code: self.code.update(offset, (distance / 256) as u8).update(
                    offset + 1,
                    (distance % 256) as u8,
                ),
                ..self
            }.done()
        }
    }

    /// Emits the code of an infix operator.
    pub open spec fn infix(self, op: Token) -> Emit {
        Emit { code: self.code + infix_code(op), ..self }
    }

    /// Emits `count` instructions that pop a value.
    pub open spec fn pops(self, count: int) -> Emit {
        Emit { code: self.code + Seq::new(count as nat, |i: int| OP_POP), ..self }
    }
}

/// Consumes the next token, which has to be `token`.
pub open spec fn consume(s: Emit, token: Token) -> Parsed {
    let p = s.peek();
    if p.token() == Some(token) {
        p.next().done()
    } else {
        p.fails(mismatch(token, p.token()))
    }
}

/// Looks at the next token, which has to be `token`.
pub open spec fn expect(s: Emit, token: Token) -> Parsed {
    let p = s.peek();
    if p.token() == Some(token) {
        p.done()
    } else {
        p.fails(mismatch(token, p.token()))
    }
}

/// A number literal, which `p` looks at: its constant is pushed.
pub open spec fn number(p: Emit) -> Parsed {
    let a = p.next();
    a.push_constant(Constant::Number(a.text()))
}

/// A string literal, which `p` looks at: the constant of the text between
/// its quotes is pushed.
pub open spec fn string(p: Emit) -> Parsed {
    let a = p.next();
    let named = a.name_constant(a.quoted(), a.span());
    if named.fault is Some {
        named
    } else {
        named.state.emit(OP_CONSTANT).emit(a.index()).done()
    }
}

/// One of `true`, `false` and `nil`, which `p` looks at.
pub open spec fn literal(p: Emit, op: u8) -> Parsed {
    let a = p.next();
    a.mark(a.span()).emit(op).done()
}

/// An expression whose operators bind at least as tightly as `min_bp`: a
/// primary expression, then the infix operators that follow it.
pub open spec fn expression_bp(s: Emit, min_bp: u8) -> Parsed
    decreases s.left(), 4int,
{
    let first = primary(s, min_bp);
    if first.fault is Some {
        first
    } else if first.state.left() > s.left() {
        s.stuck()
    } else {
        infix_loop(first.state, min_bp)
    }
}

/// A primary expression: an expression in parentheses, a variable or an
/// assignment to one, a literal, or a prefix operator with its operand.
pub open spec fn primary(s: Emit, min_bp: u8) -> Parsed
    decreases s.left(), 3int,
{
    let p = s.peek();
    match p.token() {
        None => p.fails(ParserErrorKind::EndOfInput),
        Some(Token::ParenOpen) => {
            let a = p.next();
            if a.left() >= s.left() {
                s.stuck()
            } else {
                let inner = expression_bp(a, 0);
                if inner.fault is Some {
                    inner
                } else {
                    consume(inner.state, Token::ParenClose)
                }
            }
        },
        Some(Token::Identifier) => variable(p, min_bp),
        Some(Token::Number) => number(p),
        Some(Token::String) => string(p),
        Some(Token::False) => literal(p, OP_FALSE),
        Some(Token::True) => literal(p, OP_TRUE),
        Some(Token::Nil) => literal(p, OP_NIL),
        Some(token) => match prefix_power(token) {
            None => p.fails(unexpected(None, token)),
            Some(power) => {
                let a = p.next();
                if a.left() >= s.left() {
                    s.stuck()
                } else {
                    let operand = expression_bp(a, power);
                    if operand.fault is Some {
                        operand
                    } else {
                        operand.state.mark(p.span()).emit(
                            if token == Token::Sub {
                                OP_NEG
                            } else {
                                OP_NOT
                            },
                        ).done()
                    }
                }
            },
        },
    }
}

/// A name, which `p` looks at. A name that a local is declared under
/// refers to the slot of that local; any other name refers to the global of
/// that name, and its constant is added. If `=` follows, the value of the
/// expression behind it is stored, which only an expression that binds
/// loosest may do; else the value of the variable is pushed. The
/// instruction that reads or stores stands under the span of the name.
pub open spec fn variable(p: Emit, min_bp: u8) -> Parsed
    decreases p.left(), 2int,
{
    let a = p.next();
    let local = a.locals.find(a.text());
    let named = if local is Some {
        a.mark(a.span()).done()
    } else {
        a.name_constant(a.text(), a.span())
    };
    if named.fault is Some {
        named
    } else {
        let (set, get, operand) = match local {
            Some(slot) => (OP_SET_LOCAL, OP_GET_LOCAL, slot),
            None => (OP_SET_GLOBAL, OP_GET_GLOBAL, a.index()),
        };
        let b = named.state.peek();
        if b.token() == Some(Token::Assign) {
            let c = b.next();
            if min_bp > 0 {
                c.fails(ParserErrorKind::WrongAssignment)
            } else if c.left() >= p.left() {
                p.stuck()
            } else {
                let value = expression_bp(c, 0);
                if value.fault is Some {
                    value
                } else {
                    value.state.mark(a.span()).emit(set).emit(operand).done()
                }
            }
        } else {
            b.emit(get).emit(operand).done()
        }
    }
}

/// The infix operators behind an expression, as far as they bind at least
/// as tightly as `min_bp`, each with its right operand. An `=` here has no
/// variable in front of it.
pub open spec fn infix_loop(s: Emit, min_bp: u8) -> Parsed
    decreases s.left(), 1int,
{
    let p = s.peek();
    match p.token() {
        None => p.done(),
        Some(Token::Assign) => p.fails(ParserErrorKind::WrongAssignment),
        Some(op) => match infix_power(op) {
            None => p.done(),
            Some((left, right)) => if left < min_bp {
                p.done()
            } else {
                let a = p.next();
                if a.left() >= s.left() {
                    s.stuck()
                } else {
                    let operand = expression_bp(a, right);
                    if operand.fault is Some {
                        operand
                    } else {
                        let e = operand.state.mark(p.span()).infix(op);
                        if e.left() >= s.left() {
                            s.stuck()
                        } else {
                            infix_loop(e, min_bp)
                        }
                    }
                }
            },
        },
    }
}

/// A statement: `print`, `if`, `let`, a block, or an expression.
pub open spec fn statement(s: Emit) -> Parsed
    decreases s.left(), 9int,
{
    let p = s.peek();
    match p.token() {
        Some(Token::Print) => if p.next().left() > s.left() {
            s.stuck()
        } else {
            print_statement(p.next())
        },
        Some(Token::If) => if p.next().left() > s.left() {
            s.stuck()
        } else {
            if_statement(p.next())
        },
        Some(Token::Let) => if p.next().left() > s.left() {
            s.stuck()
        } else {
            let_statement(p.next())
        },
        Some(Token::BraceOpen) => block_statement(p),
        _ => expression_statement(p),
    }
}

/// `print EXPR ;`, behind the keyword, under whose span the instruction
/// that prints stands.
pub open spec fn print_statement(a: Emit) -> Parsed
    decreases a.left(), 6int,
{
    let value = expression_bp(a, 0);
    if value.fault is Some {
        value
    } else {
        consume(value.state.mark(a.span()).emit(OP_PRINT), Token::Semicolon)
    }
}

/// `EXPR ;`: the value of the expression is dropped, under the span of the
/// token behind the expression.
pub open spec fn expression_statement(p: Emit) -> Parsed
    decreases p.left(), 6int,
{
    let value = expression_bp(p, 0);
    if value.fault is Some {
        value
    } else {
        consume(value.state.mark(value.state.span()).emit(OP_POP), Token::Semicolon)
    }
}

/// `let IDENT (= EXPR)? ;`, behind the keyword. Without an expression the
/// value is nil, pushed under the span of the name. In the global scope the
/// global of that name is defined; in a block the value on the stack
/// becomes a new local, for which the table of locals has to have room and
/// whose name may be no longer than a string may be.
pub open spec fn let_statement(a: Emit) -> Parsed
    decreases a.left(), 6int,
{
    let name = expect(a, Token::Identifier);
    if name.fault is Some {
        name
    } else {
        let b = name.state.next();
        let p = b.peek();
        let value = if p.token() == Some(Token::Assign) {
            if p.next().left() > a.left() {
                a.stuck()
            } else {
                expression_bp(p.next(), 0)
            }
        } else {
            p.mark(b.span()).emit(OP_NIL).done()
        };
        if value.fault is Some {
            value
        } else {
            let declared = if value.state.locals.depth == 0 {
                value.state.define_global(b.text(), b.span())
            } else if value.state.locals.entries.len() >= MAX_LOCALS {
                value.state.fails(ParserErrorKind::LocalsOverflow)
            } else if byte_len(b.text()) > MAX_TEXT {
                value.state.fails(ParserErrorKind::HeapExhausted)
            } else {
                value.state.with_locals(value.state.locals.push(b.text())).done()
            };
            if declared.fault is Some {
                declared
            } else {
                consume(declared.state, Token::Semicolon)
            }
        }
    }
}

/// `if EXPR { ... } (else { ... })?`, behind the keyword, under whose span
/// the jump that tests the condition stands. The condition stays on the
/// stack across that jump, and each branch starts by dropping it. Each
/// block is a block statement, with a scope of its own.
pub open spec fn if_statement(a: Emit) -> Parsed
    decreases a.left(), 8int,
{
    let condition = expression_bp(a, 0);
    if condition.fault is Some {
        condition
    } else {
        let test = condition.state.mark(a.span()).jump(OP_JUMP_F);
        if test.left() > a.left() {
            a.stuck()
        } else {
            let then = block_statement(test.emit(OP_POP));
            if then.fault is Some {
                then
            } else if then.state.left() > a.left() {
                a.stuck()
            } else {
                else_part(then.state, test.code.len() - 2)
            }
        }
    }
}

/// What follows the first block of an `if`: the jump over the second
/// block, under the span of the brace that closed the first; the target of
/// the jump at `to_else`, which is here; and the second block if there is
/// one.
pub open spec fn else_part(s: Emit, to_else: int) -> Parsed
    decreases s.left(), 0int,
{
    let leave = s.mark(s.span()).jump(OP_JUMP);
    let patched = leave.patch(to_else, leave.code.len() as int);
    if patched.fault is Some {
        patched
    } else {
        let p = patched.state.emit(OP_POP).peek();
        let otherwise = if p.token() == Some(Token::Else) {
            if p.next().left() >= s.left() {
                s.stuck()
            } else {
                block_statement(p.next())
            }
        } else {
            p.done()
        };
        if otherwise.fault is Some {
            otherwise
        } else {
            otherwise.state.patch(leave.code.len() - 2, otherwise.state.code.len() as int)
        }
    }
}

/// A block as a statement: a new scope, whose locals are popped behind the
/// block, under the span of the brace that closed it.
pub open spec fn block_statement(p: Emit) -> Parsed
    decreases p.left(), 6int,
{
    if p.locals.depth == u8::MAX {
        p.fails(ParserErrorKind::ScopeOverflow)
    } else {
        let body = block(p.with_locals(p.locals.enter()));
        if body.fault is Some {
            body
        } else {
            let locals = body.state.locals;
            body.state.with_locals(locals.exit()).mark(body.state.span()).pops(
                locals.entries.len() - locals.kept(),
            ).done()
        }
    }
}

/// `{`, statements, `}`.
pub open spec fn block(s: Emit) -> Parsed
    decreases s.left(), 5int,
{
    let open = consume(s, Token::BraceOpen);
    if open.fault is Some {
        open
    } else if open.state.left() >= s.left() {
        s.stuck()
    } else {
        let items = block_items(open.state);
        if items.fault is Some {
            items
        } else {
            consume(items.state, Token::BraceClose)
        }
    }
}

/// Statements up to a `}` or the end of the input.
pub open spec fn block_items(s: Emit) -> Parsed
    decreases s.left(), 10int,
{
    let p = s.peek();
    if p.token() is None || p.token() == Some(Token::BraceClose) {
        p.done()
    } else {
        let item = statement(p);
        if item.fault is Some {
            item
        } else if item.state.left() >= s.left() {
            s.stuck()
        } else {
            block_items(item.state)
        }
    }
}

/// Error recovery: tokens are dropped up to and including a `;`, or up to
/// a token that starts a statement.
pub open spec fn recover(s: Emit) -> Emit
    decreases s.left(),
{
    let p = s.peek();
    match p.token() {
        None => p,
        Some(Token::Semicolon) => p.next(),
        Some(token) => if starts_statement(token) {
            p
        } else if p.next().left() >= s.left() {
            p
        } else {
            recover(p.next())
        },
    }
}

/// The state in which the compiler resumes after an error in the statement
/// that started in `s` and ended in `failed`: the one that recovery gives.
/// Where that would be `s` again, with nothing consumed, the token that
/// could not start a statement is dropped.
pub open spec fn resume(s: Emit, failed: Emit) -> Emit {
    let r = recover(failed);
    if r.left() >= s.left() {
        r.next()
    } else {
        r
    }
}

/// The statements of a program up to the end of the input, with the errors
/// that ended statements added to `faults`.
pub open spec fn program(s: Emit, faults: Seq<Fault>) -> (Emit, Seq<Fault>)
    decreases s.left(),
{
    let p = s.peek();
    if p.token() is None {
        (p, faults)
    } else {
        let item = statement(p);
        let (next, found) = match item.fault {
            None => (item.state, faults),
            Some(f) => (resume(s, item.state), faults.push(f)),
        };
        if next.left() >= s.left() {
            (next, found)
        } else {
            program(next, found)
        }
    }
}

/// A whole compilation from the state `s`: the statements of the program,
/// and, if none of them failed, the instruction that halts the machine.
pub open spec fn compile(s: Emit) -> (Emit, Seq<Fault>) {
    let (end, faults) = program(s, Seq::empty());
    if faults.len() == 0 {
        (end.emit(OP_RETURN), faults)
    } else {
        (end, faults)
    }
}

} // verus!
