//! The compiler: a Pratt parser that reads the tokens of a source text once
//! and emits bytecode as it goes. It interns names and strings on the heap
//! that the program will run on, and keeps track of the locals in scope.

pub use super::error::ParsingError;
pub use super::locals::Locals;

use super::error::{fault, unexpected, Fault, ParserErrorKind};
use super::faults::{faults_within, statement_fault_points};
use super::grammar::{
    block, block_items, block_statement, compile, consume, else_part, expect, expression_bp,
    expression_statement, if_statement, infix_loop, infix_power, let_statement, literal, mismatch,
    number, prefix_power, primary, print_statement, program, recover, statement, string, variable,
    Constant, Emit, Parsed, MAX_JUMP, PLACEHOLDER,
};
use super::lexer::{Lexer, LexerView, Token};
use super::locals::LocalsView;
use crate::bytecode::chunk::{ChunkView, CodeChunk, MAX_CONSTANTS};
use crate::bytecode::object::{HeapView, ObjectHeap};
use crate::bytecode::opcodes::{
    OP_ADD, OP_AND, OP_CONSTANT, OP_DEF_GLOBAL, OP_DIV, OP_EQUAL, OP_FALSE, OP_GET_GLOBAL,
    OP_GET_LOCAL, OP_GREATER, OP_JUMP, OP_JUMP_F, OP_LESS, OP_MUL, OP_NEG, OP_NIL, OP_NOT, OP_OR,
    OP_POP, OP_PRINT, OP_RETURN, OP_SET_GLOBAL, OP_SET_LOCAL, OP_SUB, OP_TRUE,
};
use crate::bytecode::store::{eco_from_str, MAX_TEXT};
use crate::bytecode::value::Value;
use std::ops::Range;
use vstd::prelude::*;
use vstd::string::StringSliceAdditionalSpecFns;

verus! {

/// Whether `numbers` reads every literal.
pub open spec fn reads_all<F: Fn(&str) -> u64>(numbers: &F) -> bool {
    forall|literal: &str| call_requires(numbers, (literal,))
}

/// Whether `value` stands for `constant` on `heap`: a number that `numbers`
/// returns for the literal, or the key that the heap has interned the text
/// under.
pub open spec fn realizes<F: Fn(&str) -> u64>(
    heap: HeapView,
    numbers: &F,
    value: Value,
    constant: Constant,
) -> bool {
    match constant {
        Constant::Number(text) => value is Number && exists|literal: &str|
            literal@ == text && #[trigger] call_ensures(numbers, (literal,), value->Number_0),
        Constant::Text(text) => value is Object && heap.strings.contains_key(text)
            && heap.strings[text] == value->Object_0.id(),
    }
}

/// Whether the last `constants.len()` values of `pool` stand for
/// `constants` on `heap`, one for one.
#[verifier::opaque]
pub open spec fn all_realized<F: Fn(&str) -> u64>(
    heap: HeapView,
    numbers: &F,
    pool: Seq<Value>,
    constants: Seq<Constant>,
) -> bool {
    &&& constants.len() <= pool.len()
    &&& forall|i: int|
        0 <= i < constants.len() ==> realizes(
            heap,
            numbers,
            pool[pool.len() - constants.len() + i],
            #[trigger] constants[i],
        )
}

/// Whether the heap `now` is the heap `origin` after the texts among
/// `constants` were interned: it holds what `origin` held, binds the same
/// globals, has interned no text but those, and has no new object but the
/// strings it interned.
#[verifier::opaque]
pub open spec fn grown_by(origin: HeapView, now: HeapView, constants: Seq<Constant>) -> bool {
    &&& origin.grows_into(now)
    &&& now.globals == origin.globals
    &&& forall|text: Seq<char>| #[trigger]
        now.strings.contains_key(text) ==> origin.strings.contains_key(text) || constants.contains(
            Constant::Text(text),
        )
    &&& forall|text: Seq<char>|
        constants.contains(Constant::Text(text)) ==> #[trigger] now.strings.contains_key(text)
    &&& forall|id: u64| #[trigger]
        now.objects.contains_key(id) ==> origin.objects.contains_key(id) || exists|
            text: Seq<char>,
        |
            now.strings.contains_key(text) && #[trigger] now.strings[text] == id
}

/// What a parse function left behind: the state, and the error if it
/// returned one.
pub open spec fn parsed(state: Emit, r: Result<(), ParsingError>) -> Parsed {
    Parsed {
        state,
        fault: match r {
            Ok(_) => None,
            Err(e) => Some(e@),
        },
    }
}

/// The compiler of one source text.
pub struct Parser<'source> {
    lexer: Lexer<'source>,
    /// The chunk that is compiled into, taken over for the compilation.
    code: CodeChunk,
    /// The heap that is interned on, taken over for the compilation.
    heap: ObjectHeap,
    locals: Locals,
    /// The chunk before the compilation.
    chunk: Ghost<ChunkView>,
    /// The constants added so far.
    constants: Ghost<Seq<Constant>>,
    /// The heap before the compilation.
    origin: Ghost<HeapView>,
}

impl<'source> View for Parser<'source> {
    type V = Emit;

    closed spec fn view(&self) -> Emit {
        Emit {
            lexer: self.lexer@,
            code: self.code@.code,
            spans: self.code@.spans,
            pool: self.chunk@.constants.len() as int,
            constants: self.constants@,
            locals: self.locals@,
            interned: self.heap@.strings.dom(),
            objects: self.heap@.objects.len(),
        }
    }
}

impl<'source> Parser<'source> {
    /// The compiler's invariant. Its parts are well formed. The values that
    /// it added to the pool stand for the constants of the program so far,
    /// and the heap has grown by their texts. The spans that it added lie
    /// within the source.
    spec fn inv<F: Fn(&str) -> u64>(&self, numbers: &F) -> bool {
        &&& self.lexer.wf()
        &&& self.code.wf()
        &&& self.heap.wf()
        &&& self.locals.wf()
        &&& extends(self.chunk@, self.code@)
        &&& self.code@.constants.len() == self.chunk@.constants.len() + self.constants@.len()
        &&& all_realized(self.heap@, numbers, self.code@.constants, self.constants@)
        &&& grown_by(self.origin@, self.heap@, self.constants@)
        &&& self.origin@.wf()
        &&& self.chunk@.spans.len() <= self.code@.spans.len()
        &&& within_from(
            self.code@.spans,
            self.chunk@.spans.len() as int,
            self.lexer@.bytes.len() as int,
        )
        &&& reads_all(numbers)
    }

    /// What stays as it was from `before` to `self`: the source, and the
    /// records of the chunk and the heap before the compilation. Nothing is
    /// unread, and the code has not become shorter.
    spec fn keeps(&self, before: &Self) -> bool {
        &&& self.lexer@.bytes == before.lexer@.bytes
        &&& self.chunk@ == before.chunk@
        &&& self.origin@ == before.origin@
        &&& self@.left() <= before@.left()
        &&& before.code@.code.len() <= self.code@.code.len()
    }

    /// As `keeps`.
    spec fn follows(&self, before: &Self) -> bool {
        self.keeps(before)
    }

    /// The span of the token that the lexer produced last.
    fn here(&self) -> (r: Range<usize>)
        requires
            self.lexer.wf(),
        ensures
            r == self@.span(),
            r.start == self@.lexer.start,
            r.end == self@.lexer.end,
            r.start <= r.end <= self@.lexer.bytes.len(),
    {
        proof {
            self.lexer.offsets_within();
        }
        self.lexer.span()
    }

    fn error_at_current(&self, kind: ParserErrorKind) -> (r: ParsingError)
        ensures
            r@ == fault(kind, self@.lexer.start, self@.lexer.end),
    {
        ParsingError::of(kind.with_span(self.lexer.span()))
    }

    fn push_code<F: Fn(&str) -> u64>(&mut self, byte: u8, numbers: &F)
        requires
            old(self).inv(numbers),
        ensures
            final(self).inv(numbers),
            final(self).follows(old(self)),
            final(self)@ == old(self)@.emit(byte),
    {
        proof {
            reveal(extends);
        }
        self.code.push_code(byte);
    }

    fn push_span<F: Fn(&str) -> u64>(&mut self, span: Range<usize>, numbers: &F)
        requires
            old(self).inv(numbers),
            span.start <= span.end <= old(self)@.lexer.bytes.len(),
        ensures
            final(self).inv(numbers),
            final(self).follows(old(self)),
            final(self)@ == old(self)@.mark(span),
    {
        proof {
            reveal(extends);
            within_with(
                self.code@.spans,
                self.chunk@.spans.len() as int,
                self.lexer@.bytes.len() as int,
                (self.code@.code.len() as usize, span),
            );
        }
        self.code.push_span_info(span);
    }

    fn consume<F: Fn(&str) -> u64>(&mut self, token: Token, numbers: &F) -> (r: Result<
        (),
        ParsingError,
    >)
        requires
            old(self).inv(numbers),
        ensures
            final(self).inv(numbers),
            final(self).follows(old(self)),
            parsed(final(self)@, r) == consume(old(self)@, token),
            final(self)@.locals == old(self)@.locals,
            r is Ok ==> final(self)@.left() < old(self)@.left(),
    {
        let peeked = self.lexer.peek();
        if peeked == Some(token) {
            self.lexer.next();
            Ok(())
        } else {
            Err(self.error_at_current(Self::mismatch(token, peeked)))
        }
    }

    fn expect<F: Fn(&str) -> u64>(&mut self, token: Token, numbers: &F) -> (r: Result<
        (),
        ParsingError,
    >)
        requires
            old(self).inv(numbers),
        ensures
            final(self).inv(numbers),
            final(self).follows(old(self)),
            parsed(final(self)@, r) == expect(old(self)@, token),
            final(self)@.locals == old(self)@.locals,
    {
        let peeked = self.lexer.peek();
        if peeked == Some(token) {
            Ok(())
        } else {
            Err(self.error_at_current(Self::mismatch(token, peeked)))
        }
    }

    fn mismatch(expected: Token, found: Option<Token>) -> (r: ParserErrorKind)
        ensures
            r == mismatch(expected, found),
    {
        match found {
            Some(token) => Self::unexpected(Some(expected), token),
            None => ParserErrorKind::UnexpectedToken { expected, found: None },
        }
    }

    fn unexpected(expected: Option<Token>, found: Token) -> (r: ParserErrorKind)
        ensures
            r == unexpected(expected, found),
    {
        if found == Token::Error {
            ParserErrorKind::LexerError
        } else {
            match expected {
                Some(expected) => ParserErrorKind::UnexpectedToken { expected, found: Some(found) },
                None => ParserErrorKind::UnexpectedNotPrefixOp { found },
            }
        }
    }

    fn infix_bp(token: Token) -> (r: Option<(u8, u8)>)
        ensures
            r == infix_power(token),
    {
        match token {
            Token::Or => Some((4, 5)),
            Token::And => Some((6, 7)),
            Token::Eq | Token::Neq | Token::Geq | Token::Leq | Token::Le | Token::Gr => Some(
                (10, 11),
            ),
            Token::Add | Token::Sub => Some((15, 16)),
            Token::Mul | Token::Div => Some((17, 18)),
            _ => None,
        }
    }

    fn prefix_bp(token: Token) -> (r: Option<u8>)
        ensures
            r == prefix_power(token),
    {
        match token {
            Token::Sub | Token::Not => Some(25),
            _ => None,
        }
    }
    /// Consumes the name that comes next and returns it.
    fn identifier<F: Fn(&str) -> u64>(&mut self, numbers: &F) -> (r: &'source str)
        requires
            old(self).inv(numbers),
            old(self)@.token() is Some,
        ensures
            final(self).inv(numbers),
            final(self).keeps(old(self)),
            final(self)@ == old(self)@.next(),
            final(self)@.left() < old(self)@.left(),
            r@ == final(self)@.text(),
    {
        self.lexer.next();
        self.lexer.slice()
    }

    /// Marks `span`, interns `text` and adds its key to the pool. Returns
    /// the index of the constant.
    fn push_string_constant<F: Fn(&str) -> u64>(
        &mut self,
        text: &str,
        span: Range<usize>,
        numbers: &F,
    ) -> (r: Result<u8, ParsingError>)
        requires
            old(self).inv(numbers),
            span.start <= span.end <= old(self)@.lexer.bytes.len(),
        ensures
            final(self).inv(numbers),
            final(self).keeps(old(self)),
            final(self)@.locals == old(self)@.locals,
            match r {
                Ok(index) => index == old(self)@.index() && final(self)@.done() == old(
                    self,
                )@.name_constant(text@, span),
                Err(e) => parsed(final(self)@, Err(e)) == old(self)@.name_constant(text@, span),
            },
    {
        if self.code.constant_count() >= MAX_CONSTANTS {
            return Err(self.error_at_current(ParserErrorKind::ConstantPoolOverflow));
        }
        if text.len() > MAX_TEXT {
            return Err(self.error_at_current(ParserErrorKind::HeapExhausted));
        }
        let string = eco_from_str(text);
        if !self.heap.can_intern(&string) {
            return Err(self.error_at_current(ParserErrorKind::HeapExhausted));
        }
        self.push_span(span, numbers);
        let ghost before = self.heap@;
        let ghost pool = self.code@.constants;
        let key = self.heap.intern_string(string);
        let index = self.code.push_constant(Value::Object(key));
        proof {
            reveal(extends);
            interning_grows(self.origin@, before, self.heap@, text@, key.id(), self.constants@);
            realized_on_grown(before, self.heap@, numbers, pool, self.constants@);
            realized_with(
                self.heap@,
                numbers,
                pool,
                self.constants@,
                Value::Object(key),
                Constant::Text(text@),
            );
            assert(self.heap@.strings.dom() =~= before.strings.dom().insert(text@));
        }
        self.constants = Ghost(self.constants@.push(Constant::Text(text@)));
        Ok(index)
    }

    /// A number literal, which the lexer looks at.
    fn number<F: Fn(&str) -> u64>(&mut self, numbers: &F) -> (r: Result<(), ParsingError>)
        requires
            old(self).inv(numbers),
            old(self)@.token() is Some,
        ensures
            final(self).inv(numbers),
            final(self).follows(old(self)),
            final(self)@.locals == old(self)@.locals,
            parsed(final(self)@, r) == number(old(self)@),
    {
        self.lexer.next();
        if self.code.constant_count() >= MAX_CONSTANTS {
            return Err(self.error_at_current(ParserErrorKind::ConstantPoolOverflow));
        }
        let slice = self.lexer.slice();
        let bits: u64 = numbers(slice);
        self.push_span(self.lexer.span(), numbers);
        let ghost pool = self.code@.constants;
        let constant = self.code.push_constant(Value::Number(bits));
        proof {
            reveal(extends);
            let described = Constant::Number(slice@);
            let value = Value::Number(bits);
            assert(call_ensures(numbers, (slice,), value->Number_0));
            realized_number(numbers, self.heap@, value, slice);
            realized_with(
                self.heap@,
                numbers,
                pool,
                self.constants@,
                Value::Number(bits),
                described,
            );
            number_grows(self.origin@, self.heap@, self.constants@, slice@);
        }
        self.constants = Ghost(self.constants@.push(Constant::Number(slice@)));
        self.push_code(OP_CONSTANT, numbers);
        self.push_code(constant, numbers);
        Ok(())
    }

    /// A string literal, which the lexer looks at.
    fn string<F: Fn(&str) -> u64>(&mut self, numbers: &F) -> (r: Result<
        (),
        ParsingError,
    >)
        requires
            old(self).inv(numbers),
            old(self)@.token() is Some,
        ensures
            final(self).inv(numbers),
            final(self).follows(old(self)),
            final(self)@.locals == old(self)@.locals,
            parsed(final(self)@, r) == string(old(self)@),
    {
        self.lexer.next();
        let span = self.here();
        let inner = self.lexer.between(span.start + 1, span.end - 1);
        let constant = match self.push_string_constant(inner, span, numbers) {
            Ok(index) => index,
            Err(e) => {
                return Err(e);
            },
        };
        self.push_code(OP_CONSTANT, numbers);
        self.push_code(constant, numbers);
        Ok(())
    }

    /// One of `true`, `false` and `nil`, which the lexer looks at.
    fn literal<F: Fn(&str) -> u64>(&mut self, op: u8, numbers: &F) -> (r: Result<
        (),
        ParsingError,
    >)
        requires
            old(self).inv(numbers),
        ensures
            final(self).inv(numbers),
            final(self).follows(old(self)),
            final(self)@.locals == old(self)@.locals,
            parsed(final(self)@, r) == literal(old(self)@, op),
    {
        self.lexer.next();
        self.push_span(self.lexer.span(), numbers);
        self.push_code(op, numbers);
        Ok(())
    }
    /// Emits the code of an infix operator.
    fn emit_infix<F: Fn(&str) -> u64>(&mut self, op: Token, numbers: &F)
        requires
            old(self).inv(numbers),
        ensures
            final(self).inv(numbers),
            final(self).follows(old(self)),
            final(self)@ == old(self)@.infix(op),
    {
        match op {
            Token::Add => self.push_code(OP_ADD, numbers),
            Token::Sub => self.push_code(OP_SUB, numbers),
            Token::Mul => self.push_code(OP_MUL, numbers),
            Token::Div => self.push_code(OP_DIV, numbers),
            Token::Eq => self.push_code(OP_EQUAL, numbers),
            Token::Neq => {
                self.push_code(OP_EQUAL, numbers);
                self.push_code(OP_NOT, numbers)
            },
            Token::Gr => self.push_code(OP_GREATER, numbers),
            Token::Le => self.push_code(OP_LESS, numbers),
            Token::Geq => {
                self.push_code(OP_LESS, numbers);
                self.push_code(OP_NOT, numbers)
            },
            Token::Leq => {
                self.push_code(OP_GREATER, numbers);
                self.push_code(OP_NOT, numbers)
            },
            Token::And => self.push_code(OP_AND, numbers),
            Token::Or => self.push_code(OP_OR, numbers),
            _ => {},
        }
        assert(self@.code =~= old(self)@.infix(op).code);
    }

    fn expression<F: Fn(&str) -> u64>(&mut self, numbers: &F) -> (r: Result<(), ParsingError>)
        requires
            old(self).inv(numbers),
        ensures
            final(self).inv(numbers),
            final(self).follows(old(self)),
            final(self)@.locals == old(self)@.locals,
            parsed(final(self)@, r) == expression_bp(old(self)@, 0),
        decreases old(self)@.left(), 5int,
    {
        self.expression_bp(0, numbers)
    }

    /// An expression whose operators bind at least as tightly as `min_bp`.
    fn expression_bp<F: Fn(&str) -> u64>(&mut self, min_bp: u8, numbers: &F) -> (r: Result<
        (),
        ParsingError,
    >)
        requires
            old(self).inv(numbers),
        ensures
            final(self).inv(numbers),
            final(self).follows(old(self)),
            final(self)@.locals == old(self)@.locals,
            parsed(final(self)@, r) == expression_bp(old(self)@, min_bp),
        decreases old(self)@.left(), 4int,
    {
        match self.primary(min_bp, numbers) {
            Ok(_) => {},
            Err(e) => {
                return Err(e);
            },
        }
        self.infix_loop(min_bp, numbers)
    }

    /// A primary expression.
    #[verifier::rlimit(50)]
    fn primary<F: Fn(&str) -> u64>(&mut self, min_bp: u8, numbers: &F) -> (r: Result<
        (),
        ParsingError,
    >)
        requires
            old(self).inv(numbers),
        ensures
            final(self).inv(numbers),
            final(self).follows(old(self)),
            final(self)@.locals == old(self)@.locals,
            parsed(final(self)@, r) == primary(old(self)@, min_bp),
        decreases old(self)@.left(), 3int,
    {
        let op = match self.lexer.peek() {
            Some(op) => op,
            None => {
                return Err(self.error_at_current(ParserErrorKind::EndOfInput));
            },
        };
        match op {
            Token::ParenOpen => {
                self.lexer.next();
                match self.expression(numbers) {
                    Ok(_) => {},
                    Err(e) => {
                        return Err(e);
                    },
                }
                self.consume(Token::ParenClose, numbers)
            },
            Token::Identifier => self.variable(min_bp, numbers),
            Token::Number => self.number(numbers),
            Token::String => self.string(numbers),
            Token::False => self.literal(OP_FALSE, numbers),
            Token::True => self.literal(OP_TRUE, numbers),
            Token::Nil => self.literal(OP_NIL, numbers),
            prefix_token => match Self::prefix_bp(prefix_token) {
                Some(r_bp) => {
                    let op_span = self.lexer.span();
                    self.lexer.next();
                    match self.expression_bp(r_bp, numbers) {
                        Ok(_) => {},
                        Err(e) => {
                            return Err(e);
                        },
                    }
                    self.push_span(op_span, numbers);
                    if prefix_token == Token::Sub {
                        self.push_code(OP_NEG, numbers);
                    } else {
                        self.push_code(OP_NOT, numbers);
                    }
                    Ok(())
                },
                None => Err(self.error_at_current(Self::unexpected(None, prefix_token))),
            },
        }
    }

    /// A name, which the lexer looks at: the use of a variable, or an
    /// assignment to it.
    #[verifier::rlimit(50)]
    fn variable<F: Fn(&str) -> u64>(&mut self, min_bp: u8, numbers: &F) -> (r: Result<
        (),
        ParsingError,
    >)
        requires
            old(self).inv(numbers),
            old(self)@.token() is Some,
        ensures
            final(self).inv(numbers),
            final(self).follows(old(self)),
            final(self)@.locals == old(self)@.locals,
            parsed(final(self)@, r) == variable(old(self)@, min_bp),
        decreases old(self)@.left(), 2int,
    {
        let identifier = self.identifier(numbers);
        let name = self.here();
        let maybe_local = self.locals.find_local(identifier);
        let (set, get, arg) = match maybe_local {
            Some(local) => {
                self.push_span(name.start..name.end, numbers);
                (OP_SET_LOCAL, OP_GET_LOCAL, local)
            },
            None => {
                let constant = match self.push_string_constant(
                    identifier,
                    name.start..name.end,
                    numbers,
                ) {
                    Ok(index) => index,
                    Err(e) => {
                        return Err(e);
                    },
                };
                (OP_SET_GLOBAL, OP_GET_GLOBAL, constant)
            },
        };
        if self.lexer.peek() == Some(Token::Assign) {
            self.lexer.next();
            if min_bp > 0 {
                return Err(self.error_at_current(ParserErrorKind::WrongAssignment));
            }
            match self.expression(numbers) {
                Ok(_) => {},
                Err(e) => {
                    return Err(e);
                },
            }
            self.push_span(name, numbers);
            self.push_code(set, numbers);
            self.push_code(arg, numbers);
        } else {
            self.push_code(get, numbers);
            self.push_code(arg, numbers);
        }
        Ok(())
    }

    /// The infix operators behind an expression, each with its right
    /// operand.
    #[verifier::rlimit(50)]
    fn infix_loop<F: Fn(&str) -> u64>(&mut self, min_bp: u8, numbers: &F) -> (r: Result<
        (),
        ParsingError,
    >)
        requires
            old(self).inv(numbers),
        ensures
            final(self).inv(numbers),
            final(self).follows(old(self)),
            final(self)@.locals == old(self)@.locals,
            parsed(final(self)@, r) == infix_loop(old(self)@, min_bp),
        decreases old(self)@.left(), 1int,
    {
        loop
            invariant
                self.inv(numbers),
                self.follows(old(self)),
                self@.locals == old(self)@.locals,
                infix_loop(self@, min_bp) == infix_loop(old(self)@, min_bp),
            decreases self@.left(),
        {
            let ghost start = self@;
            let op = match self.lexer.peek() {
                Some(op) => op,
                None => {
                    return Ok(());
                },
            };
            if op == Token::Assign {
                return Err(self.error_at_current(ParserErrorKind::WrongAssignment));
            }
            match Self::infix_bp(op) {
                Some((l_bp, r_bp)) => {
                    if l_bp < min_bp {
                        return Ok(());
                    }
                    let op_span = self.lexer.span();
                    self.lexer.next();
                    match self.expression_bp(r_bp, numbers) {
                        Ok(_) => {},
                        Err(e) => {
                            return Err(e);
                        },
                    }
                    self.push_span(op_span, numbers);
                    self.emit_infix(op, numbers);
                },
                None => {
                    return Ok(());
                },
            }
        }
    }
    /// Adds the constant of a name and emits the instruction that defines
    /// the global of that name.
    fn emit_global_definition<F: Fn(&str) -> u64>(
        &mut self,
        identifier: &str,
        span: Range<usize>,
        numbers: &F,
    ) -> (r: Result<(), ParsingError>)
        requires
            old(self).inv(numbers),
            span.start <= span.end <= old(self)@.lexer.bytes.len(),
        ensures
            final(self).inv(numbers),
            final(self).keeps(old(self)),
            final(self)@.locals == old(self)@.locals,
            parsed(final(self)@, r) == old(self)@.define_global(identifier@, span),
    {
        let constant = match self.push_string_constant(identifier, span, numbers) {
            Ok(index) => index,
            Err(e) => {
                return Err(e);
            },
        };
        self.push_code(OP_DEF_GLOBAL, numbers);
        self.push_code(constant, numbers);
        Ok(())
    }

    /// Emits a jump with a placeholder for its distance, and returns the
    /// offset of the placeholder.
    fn emit_jump<F: Fn(&str) -> u64>(&mut self, instr: u8, numbers: &F) -> (offset: usize)
        requires
            old(self).inv(numbers),
        ensures
            final(self).inv(numbers),
            final(self).follows(old(self)),
            final(self)@ == old(self)@.jump(instr),
            offset + 2 == final(self)@.code.len(),
    {
        self.push_code(instr, numbers);
        self.push_code(PLACEHOLDER, numbers);
        self.push_code(PLACEHOLDER, numbers);
        self.code.size() - 2
    }

    /// Writes the distance of a jump into its operand.
    fn patch_jump<F: Fn(&str) -> u64>(&mut self, offset: usize, to: usize, numbers: &F) -> (r: Result<
        (),
        ParsingError,
    >)
        requires
            old(self).inv(numbers),
            offset + 2 <= to,
            offset + 2 <= old(self)@.code.len(),
        ensures
            final(self).inv(numbers),
            final(self).follows(old(self)),
            final(self)@.locals == old(self)@.locals,
            final(self)@.left() == old(self)@.left(),
            parsed(final(self)@, r) == old(self)@.patch(offset as int, to as int),
    {
        let distance: usize = to - offset - 2;
        if distance > MAX_JUMP {
            return Err(self.error_at_current(ParserErrorKind::JumpTooLong));
        }
        proof {
            reveal(extends);
        }
        self.code.patch(offset, (distance / 256) as u8);
        self.code.patch(offset + 1, (distance % 256) as u8);
        Ok(())
    }

    /// A statement.
    #[verifier::rlimit(50)]
    fn statement<F: Fn(&str) -> u64>(&mut self, numbers: &F) -> (r: Result<(), ParsingError>)
        requires
            old(self).inv(numbers),
        ensures
            final(self).inv(numbers),
            final(self).follows(old(self)),
            r is Ok ==> final(self)@.locals.depth == old(self)@.locals.depth && final(self)@.left()
                < old(self)@.left(),
            parsed(final(self)@, r) == statement(old(self)@),
        decreases old(self)@.left(), 9int,
    {
        match self.lexer.peek() {
            Some(Token::Print) => {
                self.lexer.next();
                self.print_statement(numbers)
            },
            Some(Token::If) => {
                self.lexer.next();
                self.if_statement(numbers)
            },
            Some(Token::Let) => {
                self.lexer.next();
                self.let_statement(numbers)
            },
            Some(Token::BraceOpen) => self.block_statement(numbers),
            _ => self.expression_statement(numbers),
        }
    }

    /// `print EXPR ;`, behind the keyword.
    fn print_statement<F: Fn(&str) -> u64>(&mut self, numbers: &F) -> (r: Result<(), ParsingError>)
        requires
            old(self).inv(numbers),
        ensures
            final(self).inv(numbers),
            final(self).follows(old(self)),
            final(self)@.locals == old(self)@.locals,
            parsed(final(self)@, r) == print_statement(old(self)@),
        decreases old(self)@.left(), 6int,
    {
        let keyword = self.here();
        match self.expression(numbers) {
            Ok(_) => {},
            Err(e) => {
                return Err(e);
            },
        }
        self.push_span(keyword, numbers);
        self.push_code(OP_PRINT, numbers);
        self.consume(Token::Semicolon, numbers)
    }

    /// `EXPR ;`.
    fn expression_statement<F: Fn(&str) -> u64>(&mut self, numbers: &F) -> (r: Result<
        (),
        ParsingError,
    >)
        requires
            old(self).inv(numbers),
        ensures
            final(self).inv(numbers),
            final(self).follows(old(self)),
            final(self)@.locals == old(self)@.locals,
            r is Ok ==> final(self)@.left() < old(self)@.left(),
            parsed(final(self)@, r) == expression_statement(old(self)@),
        decreases old(self)@.left(), 6int,
    {
        match self.expression(numbers) {
            Ok(_) => {},
            Err(e) => {
                return Err(e);
            },
        }
        let behind = self.here();
        self.push_span(behind, numbers);
        self.push_code(OP_POP, numbers);
        self.consume(Token::Semicolon, numbers)
    }

    /// `let IDENT (= EXPR)? ;`, behind the keyword.
    #[verifier::rlimit(50)]
    fn let_statement<F: Fn(&str) -> u64>(&mut self, numbers: &F) -> (r: Result<(), ParsingError>)
        requires
            old(self).inv(numbers),
        ensures
            final(self).inv(numbers),
            final(self).follows(old(self)),
            final(self)@.locals.depth == old(self)@.locals.depth,
            parsed(final(self)@, r) == let_statement(old(self)@),
        decreases old(self)@.left(), 6int,
    {
        match self.expect(Token::Identifier, numbers) {
            Ok(_) => {},
            Err(e) => {
                return Err(e);
            },
        }
        let identifier = self.identifier(numbers);
        let name = self.here();
        if self.lexer.peek() == Some(Token::Assign) {
            self.lexer.next();
            match self.expression(numbers) {
                Ok(_) => {},
                Err(e) => {
                    return Err(e);
                },
            }
        } else {
            self.push_span(name.start..name.end, numbers);
            self.push_code(OP_NIL, numbers);
        }
        if self.locals.depth() == 0 {
            match self.emit_global_definition(identifier, name, numbers) {
                Ok(_) => {},
                Err(e) => {
                    return Err(e);
                },
            }
        } else {
            if self.locals.is_full() {
                return Err(self.error_at_current(ParserErrorKind::LocalsOverflow));
            }
            if identifier.len() > MAX_TEXT {
                return Err(self.error_at_current(ParserErrorKind::HeapExhausted));
            }
            self.locals.push_local(eco_from_str(identifier));
        }
        self.consume(Token::Semicolon, numbers)
    }

    /// `if EXPR { ... } (else { ... })?`, behind the keyword.
    #[verifier::rlimit(50)]
    fn if_statement<F: Fn(&str) -> u64>(&mut self, numbers: &F) -> (r: Result<(), ParsingError>)
        requires
            old(self).inv(numbers),
        ensures
            final(self).inv(numbers),
            final(self).follows(old(self)),
            r is Ok ==> final(self)@.locals.depth == old(self)@.locals.depth && final(self)@.left()
                < old(self)@.left(),
            parsed(final(self)@, r) == if_statement(old(self)@),
        decreases old(self)@.left(), 8int,
    {
        let keyword = self.here();
        match self.expression(numbers) {
            Ok(_) => {},
            Err(e) => {
                return Err(e);
            },
        }
        self.push_span(keyword, numbers);
        let els_jmp: usize = self.emit_jump(OP_JUMP_F, numbers);
        self.push_code(OP_POP, numbers);
        match self.block_statement(numbers) {
            Ok(_) => {},
            Err(e) => {
                return Err(e);
            },
        }
        self.else_part(els_jmp, numbers)
    }

    /// What follows the first block of an `if`.
    #[verifier::rlimit(50)]
    fn else_part<F: Fn(&str) -> u64>(&mut self, els_jmp: usize, numbers: &F) -> (r: Result<
        (),
        ParsingError,
    >)
        requires
            old(self).inv(numbers),
            els_jmp + 2 <= old(self)@.code.len(),
        ensures
            final(self).inv(numbers),
            final(self).follows(old(self)),
            r is Ok ==> final(self)@.locals.depth == old(self)@.locals.depth,
            parsed(final(self)@, r) == else_part(old(self)@, els_jmp as int),
        decreases old(self)@.left(), 0int,
    {
        let closed = self.here();
        self.push_span(closed, numbers);
        let then_end_jmp: usize = self.emit_jump(OP_JUMP, numbers);
        let here: usize = self.code.size();
        match self.patch_jump(els_jmp, here, numbers) {
            Ok(_) => {},
            Err(e) => {
                return Err(e);
            },
        }
        self.push_code(OP_POP, numbers);
        if self.lexer.peek() == Some(Token::Else) {
            self.lexer.next();
            match self.block_statement(numbers) {
                Ok(_) => {},
                Err(e) => {
                    return Err(e);
                },
            }
        }
        let end: usize = self.code.size();
        self.patch_jump(then_end_jmp, end, numbers)
    }

    /// A block as a statement, with a scope of its own.
    #[verifier::rlimit(50)]
    fn block_statement<F: Fn(&str) -> u64>(&mut self, numbers: &F) -> (r: Result<(), ParsingError>)
        requires
            old(self).inv(numbers),
        ensures
            final(self).inv(numbers),
            final(self).follows(old(self)),
            r is Ok ==> final(self)@.locals.depth == old(self)@.locals.depth && final(self)@.left()
                < old(self)@.left(),
            parsed(final(self)@, r) == block_statement(old(self)@),
        decreases old(self)@.left(), 6int,
    {
        if self.locals.depth() == u8::MAX {
            return Err(self.error_at_current(ParserErrorKind::ScopeOverflow));
        }
        self.enter_scope(numbers);
        match self.block(numbers) {
            Ok(_) => {},
            Err(e) => {
                return Err(e);
            },
        }
        self.leave_scope(numbers);
        Ok(())
    }

    /// Opens a scope.
    fn enter_scope<F: Fn(&str) -> u64>(&mut self, numbers: &F)
        requires
            old(self).inv(numbers),
            old(self)@.locals.depth < u8::MAX,
        ensures
            final(self).inv(numbers),
            final(self).follows(old(self)),
            final(self)@ == old(self)@.with_locals(old(self)@.locals.enter()),
    {
        self.locals.enter_scope();
    }

    /// Leaves the current scope and pops its locals, under the span of the
    /// token that the lexer produced last.
    fn leave_scope<F: Fn(&str) -> u64>(&mut self, numbers: &F)
        requires
            old(self).inv(numbers),
            old(self)@.locals.depth > 0,
        ensures
            final(self).inv(numbers),
            final(self).follows(old(self)),
            final(self)@ == old(self)@.with_locals(old(self)@.locals.exit()).mark(
                old(self)@.span(),
            ).pops(old(self)@.locals.entries.len() - old(self)@.locals.kept()),
    {
        let dropped_locals: usize = self.locals.exit_scope();
        let closed = self.here();
        self.push_span(closed, numbers);
        let ghost body = self@;
        let mut popped: usize = 0;
        assert(self@.code =~= body.code + Seq::new(0, |i: int| OP_POP));
        while popped < dropped_locals
            invariant
                self.inv(numbers),
                self.follows(old(self)),
                self@.lexer == body.lexer,
                self@.locals == body.locals,
                self@.spans == body.spans,
                self@.constants == body.constants,
                self@.interned == body.interned,
                self@.objects == body.objects,
                self@.pool == body.pool,
                0 <= popped <= dropped_locals,
                self@.code == body.code + Seq::new(popped as nat, |i: int| OP_POP),
            decreases dropped_locals - popped,
        {
            self.push_code(OP_POP, numbers);
            popped += 1;
            assert(self@.code =~= body.code + Seq::new(popped as nat, |i: int| OP_POP));
        }
    }

    /// `{`, statements, `}`.
    fn block<F: Fn(&str) -> u64>(&mut self, numbers: &F) -> (r: Result<(), ParsingError>)
        requires
            old(self).inv(numbers),
        ensures
            final(self).inv(numbers),
            final(self).follows(old(self)),
            r is Ok ==> final(self)@.locals.depth == old(self)@.locals.depth && final(self)@.left()
                < old(self)@.left(),
            parsed(final(self)@, r) == block(old(self)@),
        decreases old(self)@.left(), 5int,
    {
        match self.consume(Token::BraceOpen, numbers) {
            Ok(_) => {},
            Err(e) => {
                return Err(e);
            },
        }
        match self.block_items(numbers) {
            Ok(_) => {},
            Err(e) => {
                return Err(e);
            },
        }
        self.consume(Token::BraceClose, numbers)
    }

    /// Statements up to a `}` or the end of the input.
    fn block_items<F: Fn(&str) -> u64>(&mut self, numbers: &F) -> (r: Result<(), ParsingError>)
        requires
            old(self).inv(numbers),
        ensures
            final(self).inv(numbers),
            final(self).follows(old(self)),
            r is Ok ==> final(self)@.locals.depth == old(self)@.locals.depth,
            parsed(final(self)@, r) == block_items(old(self)@),
        decreases old(self)@.left(), 10int,
    {
        loop
            invariant
                self.inv(numbers),
                self.follows(old(self)),
                self@.locals.depth == old(self)@.locals.depth,
                block_items(self@) == block_items(old(self)@),
            decreases self@.left(),
        {
            match self.lexer.peek() {
                None => {
                    return Ok(());
                },
                Some(Token::BraceClose) => {
                    return Ok(());
                },
                _ => {},
            }
            match self.statement(numbers) {
                Ok(_) => {},
                Err(e) => {
                    return Err(e);
                },
            }
        }
    }

    /// Error recovery: drops tokens up to and including a `;`, or up to a
    /// token that starts a statement.
    fn recover<F: Fn(&str) -> u64>(&mut self, numbers: &F)
        requires
            old(self).inv(numbers),
        ensures
            final(self).inv(numbers),
            final(self).follows(old(self)),
            final(self)@ == recover(old(self)@),
    {
        loop
            invariant
                self.inv(numbers),
                self.follows(old(self)),
                recover(self@) == recover(old(self)@),
            decreases self@.left(),
        {
            let peeked = match self.lexer.peek() {
                Some(token) => token,
                None => {
                    return ;
                },
            };
            match peeked {
                Token::Semicolon => {
                    self.lexer.next();
                    return ;
                },
                Token::Class
                | Token::Fn
                | Token::Let
                | Token::For
                | Token::If
                | Token::While
                | Token::Print
                | Token::Return => {
                    return ;
                },
                _ => {
                    self.lexer.next();
                },
            }
        }
    }

    /// Compiles `source` into `code`, which gets the instructions of the
    /// program behind those it holds, and interns the names and strings of
    /// the program on `heap`. `numbers` gives the number that a number
    /// literal stands for.
    ///
    /// A statement that cannot be parsed is reported, and the compiler
    /// goes on behind it; the code of a source with errors is not meant to
    /// run. Every error is about bytes of the source.
    pub fn parse_source<F: Fn(&str) -> u64>(
        source: &'source str,
        code: &mut CodeChunk,
        heap: &mut ObjectHeap,
        numbers: &F,
    ) -> (r: Result<(), Vec<ParsingError>>)
        requires
            old(code).wf(),
            old(heap).wf(),
            reads_all(numbers),
        ensures
            final(code).wf(),
            final(heap).wf(),
            compiled(
                numbers,
                compile(start(source.spec_bytes(), old(code)@, old(heap)@)),
                old(code)@,
                final(code)@,
                old(heap)@,
                final(heap)@,
                failures(r),
            ),
            r is Ok <==> compile(start(source.spec_bytes(), old(code)@, old(heap)@)).1.len() == 0,
            r matches Err(errors) ==> errors.len() > 0,
            faults_within(failures(r), source.spec_bytes().len() as int),
            spans_added_within(old(code)@, final(code)@, source.spec_bytes().len() as int),
            old(code)@.spans_within(source.spec_bytes().len() as int)
                ==> final(code)@.spans_within(source.spec_bytes().len() as int),
    {
        let mut chunk = CodeChunk::new();
        core::mem::swap(code, &mut chunk);
        let mut store = ObjectHeap::new();
        core::mem::swap(heap, &mut store);
        let mut parser = Self::begin(source, chunk, store, numbers);
        let r = parser.compile(numbers);
        parser.end(code, heap);
        r
    }

    /// A whole compilation: the statements of the program, and, if none of
    /// them failed, the instruction that halts the machine.
    #[verifier::rlimit(50)]
    fn compile<F: Fn(&str) -> u64>(&mut self, numbers: &F) -> (r: Result<(), Vec<ParsingError>>)
        requires
            old(self).inv(numbers),
            old(self).chunk@ == old(self).code@,
            old(self).origin@ == old(self).heap@,
            old(self).constants@ == Seq::<Constant>::empty(),
        ensures
            final(self).code.wf(),
            final(self).heap.wf(),
            compiled(
                numbers,
                compile(old(self)@),
                old(self).code@,
                final(self).code@,
                old(self).heap@,
                final(self).heap@,
                failures(r),
            ),
            r matches Err(errors) ==> errors.len() > 0,
            faults_within(failures(r), old(self)@.lexer.bytes.len() as int),
            spans_added_within(
                old(self).code@,
                final(self).code@,
                old(self)@.lexer.bytes.len() as int,
            ),
            old(self).code@.spans_within(old(self)@.lexer.bytes.len() as int)
                ==> final(self).code@.spans_within(old(self)@.lexer.bytes.len() as int),
    {
        let errors = self.program(numbers);
        proof {
            reveal(extends);
        }
        if errors.len() == 0 {
            self.push_code(OP_RETURN, numbers);
            assert(errors.deep_view() =~= Seq::<Fault>::empty());
            assert(faults_within(Seq::<Fault>::empty(), old(self)@.lexer.bytes.len() as int));
            proof {
                let len = old(self)@.lexer.bytes.len() as int;
                if old(self).code@.spans_within(len) {
                    within_all(old(self).code@, self.code@, len);
                }
            }
            Ok(())
        } else {
            proof {
                let len = old(self)@.lexer.bytes.len() as int;
                if old(self).code@.spans_within(len) {
                    within_all(old(self).code@, self.code@, len);
                }
            }
            Err(errors)
        }
    }

    /// A compiler at the start of `source`.
    fn begin<F: Fn(&str) -> u64>(
        source: &'source str,
        code: CodeChunk,
        heap: ObjectHeap,
        numbers: &F,
    ) -> (parser: Self)
        requires
            code.wf(),
            heap.wf(),
            reads_all(numbers),
        ensures
            parser.inv(numbers),
            parser@ == start(source.spec_bytes(), code@, heap@),
            parser.code@ == code@,
            parser.heap@ == heap@,
            parser.origin@ == heap@,
            parser.chunk@ == code@,
            parser.constants@ == Seq::<Constant>::empty(),
    {
        let ghost origin = heap@;
        let ghost chunk = code@;
        proof {
            reveal(all_realized);
            reveal(grown_by);
            reveal(within_from);
            reveal(extends);
        }
        Self {
            lexer: Lexer::lex(source),
            code,
            heap,
            locals: Locals::new(),
            chunk: Ghost(chunk),
            constants: Ghost(Seq::empty()),
            origin: Ghost(origin),
        }
    }

    /// Hands the chunk and the heap back.
    fn end(self, code: &mut CodeChunk, heap: &mut ObjectHeap)
        ensures
            *final(code) == self.code,
            *final(heap) == self.heap,
    {
        *code = self.code;
        *heap = self.heap;
    }

    /// The statements of a program up to the end of the input. Returns the
    /// errors that ended statements.
    #[verifier::rlimit(50)]
    fn program<F: Fn(&str) -> u64>(&mut self, numbers: &F) -> (errors: Vec<ParsingError>)
        requires
            old(self).inv(numbers),
        ensures
            final(self).inv(numbers),
            final(self).follows(old(self)),
            (final(self)@, errors.deep_view()) == program(old(self)@, Seq::empty()),
            faults_within(errors.deep_view(), old(self)@.lexer.bytes.len() as int),
    {
        let mut errors: Vec<ParsingError> = Vec::new();
        assert(errors.deep_view() =~= Seq::<Fault>::empty());
        loop
            invariant
                self.inv(numbers),
                self.follows(old(self)),
                program(self@, errors.deep_view()) == program(old(self)@, Seq::empty()),
                faults_within(errors.deep_view(), old(self)@.lexer.bytes.len() as int),
            decreases self@.left(),
        {
            let before: usize = self.lexer.position();
            if self.lexer.peek().is_none() {
                return errors;
            }
            let ghost looked = self@;
            match self.statement(numbers) {
                Ok(_) => {},
                Err(err) => {
                    let ghost found = errors.deep_view();
                    proof {
                        statement_fault_points(looked);
                        self.lexer.offsets_within();
                        assert(err@ == statement(looked).fault->0);
                    }
                    errors.push(err);
                    assert(errors.deep_view() =~= found.push(err@));
                    self.recover(numbers);
                    if self.lexer.position() <= before {
                        self.lexer.next();
                    }
                },
            }
        }
    }
}

/// The state in which the compilation of a source starts: the lexer at the
/// start of the source, the chunk and the heap as they are, no local in
/// scope.
pub open spec fn start(bytes: Seq<u8>, code: ChunkView, heap: HeapView) -> Emit {
    Emit {
        lexer: LexerView { bytes, pos: 0, start: 0, end: 0 },
        code: code.code,
        spans: code.spans,
        pool: code.constants.len() as int,
        constants: Seq::empty(),
        locals: LocalsView { entries: Seq::empty(), depth: 0 },
        interned: heap.strings.dom(),
        objects: heap.objects.len(),
    }
}

/// The errors that a compilation returned.
pub open spec fn failures(r: Result<(), Vec<ParsingError>>) -> Seq<Fault> {
    match r {
        Ok(_) => Seq::empty(),
        Err(errors) => errors.deep_view(),
    }
}

/// Whether the chunk `code` and the heap `heap` are what the compilation
/// `outcome` makes of the chunk `before` and the heap `origin`, and
/// `faults` the errors it reports. The code and the spans are those of the
/// outcome, the spans behind those that the chunk held. The pool holds what
/// it held, and behind that the values that stand for the constants of the
/// outcome on the heap. The heap has grown by the texts among those
/// constants.
pub open spec fn compiled<F: Fn(&str) -> u64>(
    numbers: &F,
    outcome: (Emit, Seq<Fault>),
    before: ChunkView,
    code: ChunkView,
    origin: HeapView,
    heap: HeapView,
    faults: Seq<Fault>,
) -> bool {
    &&& code.code == outcome.0.code
    &&& code.spans == outcome.0.spans
    &&& before.spans.is_prefix_of(code.spans)
    &&& code.constants.len() == before.constants.len() + outcome.0.constants.len()
    &&& before.constants.is_prefix_of(code.constants)
    &&& all_realized(heap, numbers, code.constants, outcome.0.constants)
    &&& grown_by(origin, heap, outcome.0.constants)
    &&& faults == outcome.1
}

/// Whether every span that `code` holds behind those of `before` lies
/// within a source of `len` bytes.
pub open spec fn spans_added_within(before: ChunkView, code: ChunkView, len: int) -> bool {
    within_from(code.spans, before.spans.len() as int, len)
}

/// Whether the chunk `code` holds the constants and the spans of `before`,
/// and behind them what was added.
#[verifier::opaque]
pub open spec fn extends(before: ChunkView, code: ChunkView) -> bool {
    before.constants.is_prefix_of(code.constants) && before.spans.is_prefix_of(code.spans)
}

/// Whether every span of the table from entry `first` on lies within a
/// source of `len` bytes.
#[verifier::opaque]
pub open spec fn within_from(spans: Seq<(usize, Range<usize>)>, first: int, len: int) -> bool {
    forall|i: int|
        first <= i < spans.len() ==> (#[trigger] spans[i]).1.start <= spans[i].1.end <= len
}

/// A table with spans within the source still has them there with one
/// more such span.
proof fn within_with(spans: Seq<(usize, Range<usize>)>, first: int, len: int, mark: (
    usize,
    Range<usize>,
))
    requires
        0 <= first,
        within_from(spans, first, len),
        mark.1.start <= mark.1.end <= len,
    ensures
        within_from(spans.push(mark), first, len),
{
    reveal(within_from);
    let longer = spans.push(mark);
    assert forall|i: int| first <= i < longer.len() implies (#[trigger] longer[i]).1.start
        <= longer[i].1.end <= len by {
        if i < spans.len() {
            assert(longer[i] == spans[i]);
        }
    }
}

/// Whether `x` is among `s` with `a` behind it: it is among `s`, or it is
/// `a`.
proof fn contains_after_push(s: Seq<Constant>, a: Constant, x: Constant)
    ensures
        s.push(a).contains(x) == (s.contains(x) || a == x),
{
    if s.contains(x) {
        let i = choose|i: int| 0 <= i < s.len() && s[i] == x;
        assert(s.push(a)[i] == x);
    }
    if a == x {
        assert(s.push(a)[s.len() as int] == x);
    }
    if s.push(a).contains(x) {
        let i = choose|i: int| 0 <= i < s.push(a).len() && s.push(a)[i] == x;
        if i < s.len() {
            assert(s[i] == x);
        }
    }
}

/// Interning the text of a new constant keeps the heap grown by the
/// constants, and adds at most one object.
proof fn interning_grows(
    origin: HeapView,
    before: HeapView,
    after: HeapView,
    text: Seq<char>,
    id: u64,
    constants: Seq<Constant>,
)
    requires
        grown_by(origin, before, constants),
        before.wf(),
        after.wf(),
        before.interns(text, after, id),
    ensures
        grown_by(origin, after, constants.push(Constant::Text(text))),
        before.grows_into(after),
        after.strings.contains_key(text),
        after.strings[text] == id,
        after.objects.len() == (if before.strings.contains_key(text) {
            before.objects.len()
        } else {
            before.objects.len() + 1
        }),
{
    reveal(grown_by);
    let longer = constants.push(Constant::Text(text));
    assert forall|t: Seq<char>| #[trigger] after.strings.contains_key(t) implies origin.strings.contains_key(
        t,
    ) || longer.contains(Constant::Text(t)) by {
        contains_after_push(constants, Constant::Text(text), Constant::Text(t));
        if t != text {
            assert(before.strings.contains_key(t));
        }
    }
    assert forall|t: Seq<char>| longer.contains(Constant::Text(t)) implies #[trigger] after.strings.contains_key(
        t,
    ) by {
        contains_after_push(constants, Constant::Text(text), Constant::Text(t));
        if t != text {
            assert(before.strings.contains_key(t));
        }
    }
    assert forall|k: u64| #[trigger] after.objects.contains_key(k) implies origin.objects.contains_key(
        k,
    ) || exists|t: Seq<char>| after.strings.contains_key(t) && #[trigger] after.strings[t] == k by {
        if before.objects.contains_key(k) {
            if !origin.objects.contains_key(k) {
                let t = choose|t: Seq<char>|
                    before.strings.contains_key(t) && #[trigger] before.strings[t] == k;
                assert(after.strings.contains_key(t) && after.strings[t] == k);
            }
        } else {
            assert(after.strings.contains_key(text) && after.strings[text] == k);
        }
    }
    assert(before.objects.submap_of(after.objects));
    assert(before.strings.submap_of(after.strings));
    assert(origin.objects.submap_of(after.objects));
    assert(origin.strings.submap_of(after.strings));
}

/// A number constant leaves the heap grown by the constants.
proof fn number_grows(origin: HeapView, now: HeapView, constants: Seq<Constant>, literal: Seq<char>)
    requires
        grown_by(origin, now, constants),
    ensures
        grown_by(origin, now, constants.push(Constant::Number(literal))),
{
    reveal(grown_by);
    let longer = constants.push(Constant::Number(literal));
    assert forall|t: Seq<char>| #[trigger] now.strings.contains_key(t) implies origin.strings.contains_key(
        t,
    ) || longer.contains(Constant::Text(t)) by {
        contains_after_push(constants, Constant::Number(literal), Constant::Text(t));
    }
    assert forall|t: Seq<char>| longer.contains(Constant::Text(t)) implies #[trigger] now.strings.contains_key(
        t,
    ) by {
        contains_after_push(constants, Constant::Number(literal), Constant::Text(t));
    }
}

/// The number that `numbers` returned for a literal stands for the
/// literal.
proof fn realized_number<F: Fn(&str) -> u64>(
    numbers: &F,
    heap: HeapView,
    value: Value,
    literal: &str,
)
    requires
        value is Number,
        call_ensures(numbers, (literal,), value->Number_0),
    ensures
        realizes(heap, numbers, value, Constant::Number(literal@)),
{
}

/// A chunk whose spans lay within the source before the compilation has
/// them there behind it too.
proof fn within_all(before: ChunkView, code: ChunkView, len: int)
    requires
        before.spans.is_prefix_of(code.spans),
        before.spans_within(len),
        within_from(code.spans, before.spans.len() as int, len),
    ensures
        code.spans_within(len),
{
    reveal(within_from);
    assert forall|i: int| 0 <= i < code.spans.len() implies (#[trigger] code.spans[i]).1.start
        <= code.spans[i].1.end <= len by {
        if i < before.spans.len() {
            assert(code.spans[i] == before.spans[i]);
        }
    }
}

/// Values that stand for constants on a heap still do on a heap that has
/// grown from it.
proof fn realized_on_grown<F: Fn(&str) -> u64>(
    before: HeapView,
    after: HeapView,
    numbers: &F,
    pool: Seq<Value>,
    constants: Seq<Constant>,
)
    requires
        all_realized(before, numbers, pool, constants),
        before.grows_into(after),
    ensures
        all_realized(after, numbers, pool, constants),
{
    reveal(all_realized);
    assert forall|i: int| 0 <= i < constants.len() implies realizes(
        after,
        numbers,
        pool[pool.len() - constants.len() + i],
        #[trigger] constants[i],
    ) by {
        let value = pool[pool.len() - constants.len() + i];
        assert(realizes(before, numbers, value, constants[i]));
        match constants[i] {
            Constant::Text(text) => {
                assert(before.strings.contains_key(text));
                assert(after.strings.contains_key(text));
            },
            Constant::Number(_) => {},
        }
    }
}

/// One more value that stands for one more constant.
proof fn realized_with<F: Fn(&str) -> u64>(
    heap: HeapView,
    numbers: &F,
    pool: Seq<Value>,
    constants: Seq<Constant>,
    value: Value,
    constant: Constant,
)
    requires
        all_realized(heap, numbers, pool, constants),
        realizes(heap, numbers, value, constant),
    ensures
        all_realized(heap, numbers, pool.push(value), constants.push(constant)),
{
    reveal(all_realized);
    let longer = constants.push(constant);
    let more = pool.push(value);
    assert forall|i: int| 0 <= i < longer.len() implies realizes(
        heap,
        numbers,
        more[more.len() - longer.len() + i],
        #[trigger] longer[i],
    ) by {
        if i < constants.len() {
            assert(more[more.len() - longer.len() + i] == pool[pool.len() - constants.len() + i]);
            assert(realizes(
                heap,
                numbers,
                pool[pool.len() - constants.len() + i],
                constants[i],
            ));
        }
    }
}

} // verus!
