//! Parse errors: what went wrong, where in the source, and the message
//! that is reported for it.

use super::lexer::Token;
use std::ops::Range;
use vstd::prelude::*;
use vstd::string::*;

verus! {

/// The name of a token, as it appears in messages.
pub open spec fn token_name(token: Token) -> Seq<char> {
    match token {
        Token::ParenOpen => "ParenOpen"@,
        Token::ParenClose => "ParenClose"@,
        Token::BraceOpen => "BraceOpen"@,
        Token::BraceClose => "BraceClose"@,
        Token::Let => "Let"@,
        Token::If => "If"@,
        Token::Else => "Else"@,
        Token::For => "For"@,
        Token::While => "While"@,
        Token::Return => "Return"@,
        Token::Fn => "Fn"@,
        Token::Class => "Class"@,
        Token::Super => "Super"@,
        Token::This => "This"@,
        Token::Print => "Print"@,
        Token::Assign => "Assign"@,
        Token::Add => "Add"@,
        Token::Sub => "Sub"@,
        Token::Mul => "Mul"@,
        Token::Div => "Div"@,
        Token::Rem => "Rem"@,
        Token::Eq => "Eq"@,
        Token::Neq => "Neq"@,
        Token::Gr => "Gr"@,
        Token::Le => "Le"@,
        Token::Geq => "Geq"@,
        Token::Leq => "Leq"@,
        Token::And => "And"@,
        Token::Or => "Or"@,
        Token::Not => "Not"@,
        Token::Semicolon => "Semicolon"@,
        Token::Dot => "Dot"@,
        Token::Comma => "Comma"@,
        Token::Number => "Number"@,
        Token::Identifier => "Identifier"@,
        Token::String => "String"@,
        Token::True => "True"@,
        Token::False => "False"@,
        Token::Nil => "Nil"@,
        Token::Error => "Error"@,
        Token::EOI => "EOI"@,
    }
}

/// How a token that may be missing appears in messages.
pub open spec fn shown(token: Option<Token>) -> Seq<char> {
    match token {
        Some(t) => "Some("@ + token_name(t) + ")"@,
        None => "None"@,
    }
}

impl Token {
    /// The name of the token, as it appears in messages.
    pub fn name(self) -> (r: &'static str)
        ensures
            r@ == token_name(self),
    {
        match self {
            Token::ParenOpen => "ParenOpen",
            Token::ParenClose => "ParenClose",
            Token::BraceOpen => "BraceOpen",
            Token::BraceClose => "BraceClose",
            Token::Let => "Let",
            Token::If => "If",
            Token::Else => "Else",
            Token::For => "For",
            Token::While => "While",
            Token::Return => "Return",
            Token::Fn => "Fn",
            Token::Class => "Class",
            Token::Super => "Super",
            Token::This => "This",
            Token::Print => "Print",
            Token::Assign => "Assign",
            Token::Add => "Add",
            Token::Sub => "Sub",
            Token::Mul => "Mul",
            Token::Div => "Div",
            Token::Rem => "Rem",
            Token::Eq => "Eq",
            Token::Neq => "Neq",
            Token::Gr => "Gr",
            Token::Le => "Le",
            Token::Geq => "Geq",
            Token::Leq => "Leq",
            Token::And => "And",
            Token::Or => "Or",
            Token::Not => "Not",
            Token::Semicolon => "Semicolon",
            Token::Dot => "Dot",
            Token::Comma => "Comma",
            Token::Number => "Number",
            Token::Identifier => "Identifier",
            Token::String => "String",
            Token::True => "True",
            Token::False => "False",
            Token::Nil => "Nil",
            Token::Error => "Error",
            Token::EOI => "EOI",
        }
    }
}

fn show(token: Option<Token>) -> (r: String)
    ensures
        r@ == shown(token),
{
    match token {
        Some(t) => {
            let mut text = String::from_str("Some(");
            text.append(t.name());
            text.append(")");
            text
        },
        None => String::from_str("None"),
    }
}

/// What went wrong in a parse.
#[derive(Debug, Clone, Copy, PartialEq, Eq, Structural)]
pub enum ParserErrorKind {
    /// The input ended where an expression had to start.
    EndOfInput,
    /// Another token than the expected one was found.
    UnexpectedToken { expected: Token, found: Option<Token> },
    /// A token was found that starts no expression.
    UnexpectedNotPrefixOp { found: Token },
    /// An assignment to something that is not a variable.
    WrongAssignment,
    /// The lexer met a character that starts no token.
    LexerError,
    /// A jump over more code than its operand can count.
    JumpTooLong,
    /// More constants than a chunk can hold.
    ConstantPoolOverflow,
    /// Blocks nested more deeply than the compiler can count.
    ScopeOverflow,
    /// More locals in scope than an instruction can name.
    LocalsOverflow,
    /// A name or a string that the heap has no room for, or that is
    /// longer than a string may be.
    HeapExhausted,
}

/// A parse error by its kind, with the span of the source it is about.
#[derive(Debug, PartialEq, Eq)]
pub struct ParserError {
    pub kind: ParserErrorKind,
    pub span: Range<usize>,
}

impl Clone for ParserError {
    fn clone(&self) -> (r: Self)
        ensures
            r == *self,
    {
        Self { kind: self.kind, span: self.span.start..self.span.end }
    }
}

impl ParserErrorKind {
    /// An error of this kind about `span`.
    pub fn with_span(self, span: Range<usize>) -> (r: ParserError)
        ensures
            r.kind == self,
            r.span == span,
    {
        ParserError { kind: self, span }
    }

    /// The message that is reported for an error of this kind.
    pub open spec fn text(self) -> Seq<char> {
        match self {
            ParserErrorKind::EndOfInput => "Expected expression"@,
            ParserErrorKind::UnexpectedToken { expected, found } => "Expected "@ + shown(
                Some(expected),
            ) + ", got "@ + shown(found),
            ParserErrorKind::UnexpectedNotPrefixOp { found } => "Unexpected token: "@ + shown(
                Some(found),
            ),
            ParserErrorKind::WrongAssignment => "invalid assignment target"@,
            ParserErrorKind::LexerError => "lex error"@,
            ParserErrorKind::JumpTooLong => "jump too long"@,
            ParserErrorKind::ConstantPoolOverflow => "constant-pool overflow"@,
            ParserErrorKind::ScopeOverflow => "too many nested scopes"@,
            ParserErrorKind::LocalsOverflow => "too many locals"@,
            ParserErrorKind::HeapExhausted => "no room on the heap"@,
        }
    }

    /// The message that is reported for an error of this kind.
    pub fn message(self) -> (r: String)
        ensures
            r@ == self.text(),
    {
        match self {
            ParserErrorKind::EndOfInput => String::from_str("Expected expression"),
            ParserErrorKind::UnexpectedToken { expected, found } => {
                let mut text = String::from_str("Expected ");
                text.append(show(Some(expected)).as_str());
                text.append(", got ");
                text.append(show(found).as_str());
                text
            },
            ParserErrorKind::UnexpectedNotPrefixOp { found } => {
                let mut text = String::from_str("Unexpected token: ");
                text.append(show(Some(found)).as_str());
                text
            },
            ParserErrorKind::WrongAssignment => String::from_str("invalid assignment target"),
            ParserErrorKind::LexerError => String::from_str("lex error"),
            ParserErrorKind::JumpTooLong => String::from_str("jump too long"),
            ParserErrorKind::ConstantPoolOverflow => String::from_str("constant-pool overflow"),
            ParserErrorKind::ScopeOverflow => String::from_str("too many nested scopes"),
            ParserErrorKind::LocalsOverflow => String::from_str("too many locals"),
            ParserErrorKind::HeapExhausted => String::from_str("no room on the heap"),
        }
    }
}

/// The kind of the error for a token that cannot stand where it was found:
/// a lexer error if the token is one; else, by whether one token was
/// expected there.
pub open spec fn unexpected(expected: Option<Token>, found: Token) -> ParserErrorKind {
    if found == Token::Error {
        ParserErrorKind::LexerError
    } else {
        match expected {
            Some(expected) => ParserErrorKind::UnexpectedToken { expected, found: Some(found) },
            None => ParserErrorKind::UnexpectedNotPrefixOp { found },
        }
    }
}

/// A parse error as it is reported: a message, and the span of the source
/// that it is about.
#[derive(Debug, PartialEq, Eq)]
pub struct ParsingError {
    pub msg: String,
    pub span: Range<usize>,
}

impl Clone for ParsingError {
    fn clone(&self) -> (r: Self)
        ensures
            r@ == self@,
    {
        Self { msg: self.msg.clone(), span: self.span.start..self.span.end }
    }
}

/// What a `ParsingError` holds.
pub struct Fault {
    pub message: Seq<char>,
    pub start: int,
    pub end: int,
}

impl View for ParsingError {
    type V = Fault;

    open spec fn view(&self) -> Fault {
        Fault { message: self.msg@, start: self.span.start as int, end: self.span.end as int }
    }
}

impl DeepView for ParsingError {
    type V = Fault;

    open spec fn deep_view(&self) -> Fault {
        self@
    }
}

impl ParsingError {
    pub fn at(span: Range<usize>, msg: String) -> (r: ParsingError)
        ensures
            r.msg == msg,
            r.span == span,
    {
        Self { msg, span }
    }

    /// The error of the given kind about `span`, as it is reported.
    pub fn of(error: ParserError) -> (r: ParsingError)
        ensures
            r@ == fault(error.kind, error.span.start as int, error.span.end as int),
    {
        let msg = error.kind.message();
        Self::at(error.span, msg)
    }
}

/// What is reported for an error of `kind` about the bytes `start..end`.
pub open spec fn fault(kind: ParserErrorKind, start: int, end: int) -> Fault {
    Fault { message: kind.text(), start, end }
}

} // verus!
