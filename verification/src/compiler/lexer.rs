//! The lexer: it cuts the bytes of a source text into tokens, one at a
//! time, with one token of lookahead.

use std::ops::Range;
use vstd::prelude::*;
use vstd::string::StringSliceAdditionalSpecFns;
use vstd::utf8::{
    decode_utf8, encode_utf8, is_char_boundary, length_of_first_scalar, pop_first_scalar, valid_utf8,
};

verus! {

/// The kinds of token. `Error` is for a character that starts no token;
/// `EOI` names the end of the input, which the lexer reports as no token.
#[derive(Debug, Clone, Copy, PartialEq, Eq, Structural)]
pub enum Token {
    ParenOpen,
    ParenClose,
    BraceOpen,
    BraceClose,
    Let,
    If,
    Else,
    For,
    While,
    Return,
    Fn,
    Class,
    Super,
    This,
    Print,
    Assign,
    Add,
    Sub,
    Mul,
    Div,
    Rem,
    Eq,
    Neq,
    Gr,
    Le,
    Geq,
    Leq,
    And,
    Or,
    Not,
    Semicolon,
    Dot,
    Comma,
    Number,
    Identifier,
    String,
    True,
    False,
    Nil,
    Error,
    EOI,
}

// The bytes of the characters that the lexer knows.
pub const TAB: u8 = 9;
pub const NEWLINE: u8 = 10;
pub const FORM_FEED: u8 = 12;
pub const SPACE: u8 = 32;
pub const BANG: u8 = 33;
pub const QUOTE: u8 = 34;
pub const PERCENT: u8 = 37;
pub const AMPERSAND: u8 = 38;
pub const PAREN_OPEN: u8 = 40;
pub const PAREN_CLOSE: u8 = 41;
pub const STAR: u8 = 42;
pub const PLUS: u8 = 43;
pub const COMMA: u8 = 44;
pub const MINUS: u8 = 45;
pub const DOT: u8 = 46;
pub const SLASH: u8 = 47;
pub const DIGIT_0: u8 = 48;
pub const DIGIT_9: u8 = 57;
pub const SEMICOLON: u8 = 59;
pub const LESS: u8 = 60;
pub const EQUALS: u8 = 61;
pub const GREATER: u8 = 62;
pub const UPPER_A: u8 = 65;
pub const UPPER_Z: u8 = 90;
pub const UNDERSCORE: u8 = 95;
pub const LOWER_A: u8 = 97;
pub const LOWER_Z: u8 = 122;
pub const BRACE_OPEN: u8 = 123;
pub const PIPE: u8 = 124;
pub const BRACE_CLOSE: u8 = 125;

/// Whether a Unicode character is alphabetic.
pub uninterp spec fn unicode_alphabetic(c: char) -> bool;

/// `char::is_alphabetic`: whether the character has the Unicode property
/// Alphabetic.
pub assume_specification[ char::is_alphabetic ](c: char) -> (r: bool)
    ensures
        r == unicode_alphabetic(c),
;

/// The character with the scalar value `v`: there is one for every value up
/// to 0x10FFFF that is not a surrogate.
pub open spec fn char_of(v: u32) -> Option<char> {
    if v < 0xD800 || 0xE000 <= v <= 0x10FFFF {
        Some(v as char)
    } else {
        None
    }
}

/// `char::from_u32`: the character with the given scalar value, if the
/// value is one.
pub assume_specification[ char::from_u32 ](i: u32) -> (r: Option<char>)
    ensures
        r == char_of(i),
;

/// A token as the lexer found it: its kind, `None` at the end of the
/// input, and the bytes `start..end` that it covers.
pub struct Lexeme {
    pub token: Option<Token>,
    pub start: int,
    pub end: int,
}

pub open spec fn is_space(b: u8) -> bool {
    b == SPACE || b == TAB || b == NEWLINE || b == FORM_FEED
}

pub open spec fn is_digit(b: u8) -> bool {
    DIGIT_0 <= b <= DIGIT_9
}

pub open spec fn is_ascii_letter(b: u8) -> bool {
    UPPER_A <= b <= UPPER_Z || LOWER_A <= b <= LOWER_Z
}

pub open spec fn is_continuation(b: u8) -> bool {
    0x80 <= b < 0xC0
}

/// The first offset at or after `pos` that holds no whitespace.
pub open spec fn skip_spaces(bytes: Seq<u8>, pos: int) -> int
    decreases bytes.len() - pos,
{
    if 0 <= pos < bytes.len() && is_space(bytes[pos]) {
        skip_spaces(bytes, pos + 1)
    } else {
        pos
    }
}

/// The first offset at or after `pos` that holds no digit.
pub open spec fn digits_end(bytes: Seq<u8>, pos: int) -> int
    decreases bytes.len() - pos,
{
    if 0 <= pos < bytes.len() && is_digit(bytes[pos]) {
        digits_end(bytes, pos + 1)
    } else {
        pos
    }
}

/// The end of the number that starts at `pos`: digits, then, if a dot
/// follows them, the dot and the digits behind it.
pub open spec fn number_end(bytes: Seq<u8>, pos: int) -> int {
    let whole = digits_end(bytes, pos);
    if whole < bytes.len() && bytes[whole] == DOT {
        digits_end(bytes, whole + 1)
    } else {
        whole
    }
}

/// The offset of the first double quote at or after `pos`.
pub open spec fn closing_quote(bytes: Seq<u8>, pos: int) -> Option<int>
    decreases bytes.len() - pos,
{
    if 0 <= pos < bytes.len() {
        if bytes[pos] == QUOTE {
            Some(pos)
        } else {
            closing_quote(bytes, pos + 1)
        }
    } else {
        None
    }
}

/// The scalar value that the multi-byte UTF-8 sequence at `pos` encodes,
/// and the number of its bytes; `None` where no such sequence starts.
pub open spec fn scalar_at(bytes: Seq<u8>, pos: int) -> Option<(u32, int)> {
    let b0 = bytes[pos];
    if 0xC0 <= b0 < 0xE0 {
        if pos + 1 < bytes.len() && is_continuation(bytes[pos + 1]) {
            Some((((b0 - 0xC0) * 0x40 + (bytes[pos + 1] - 0x80)) as u32, 2))
        } else {
            None
        }
    } else if 0xE0 <= b0 < 0xF0 {
        if pos + 2 < bytes.len() && is_continuation(bytes[pos + 1]) && is_continuation(
            bytes[pos + 2],
        ) {
            Some(
                (
                    ((b0 - 0xE0) * 0x1000 + (bytes[pos + 1] - 0x80) * 0x40 + (bytes[pos + 2]
                        - 0x80)) as u32,
                    3,
                ),
            )
        } else {
            None
        }
    } else if 0xF0 <= b0 < 0xF8 {
        if pos + 3 < bytes.len() && is_continuation(bytes[pos + 1]) && is_continuation(
            bytes[pos + 2],
        ) && is_continuation(bytes[pos + 3]) {
            Some(
                (
                    ((b0 - 0xF0) * 0x40000 + (bytes[pos + 1] - 0x80) * 0x1000 + (bytes[pos + 2]
                        - 0x80) * 0x40 + (bytes[pos + 3] - 0x80)) as u32,
                    4,
                ),
            )
        } else {
            None
        }
    } else {
        None
    }
}

/// The number of bytes of the character at `pos` that is not ASCII: those
/// of its UTF-8 sequence, or one byte where there is no sequence.
pub open spec fn wide_width(bytes: Seq<u8>, pos: int) -> int {
    match scalar_at(bytes, pos) {
        Some((_, width)) => width,
        None => 1,
    }
}

/// The number of bytes of the letter at `pos`, or 0 where there is no
/// letter: an ASCII letter, or any other character that Unicode calls
/// alphabetic.
pub open spec fn letter_width(bytes: Seq<u8>, pos: int) -> int {
    if !(0 <= pos < bytes.len()) {
        0
    } else if bytes[pos] < 0x80 {
        if is_ascii_letter(bytes[pos]) {
            1
        } else {
            0
        }
    } else {
        match scalar_at(bytes, pos) {
            Some((value, width)) => match char_of(value) {
                Some(c) => if unicode_alphabetic(c) {
                    width
                } else {
                    0
                },
                None => 0,
            },
            None => 0,
        }
    }
}

/// The number of bytes of the character at `pos` if it can stand inside an
/// identifier, or 0: a letter, a digit or an underscore.
pub open spec fn part_width(bytes: Seq<u8>, pos: int) -> int {
    if 0 <= pos < bytes.len() && (is_digit(bytes[pos]) || bytes[pos] == UNDERSCORE) {
        1
    } else {
        letter_width(bytes, pos)
    }
}

/// The first offset at or after `pos` at which the identifier ends.
pub open spec fn identifier_end(bytes: Seq<u8>, pos: int) -> int
    decreases bytes.len() - pos,
{
    if part_width(bytes, pos) > 0 && pos + part_width(bytes, pos) <= bytes.len() {
        identifier_end(bytes, pos + part_width(bytes, pos))
    } else {
        pos
    }
}

/// The keyword that a word is, if it is one.
pub open spec fn keyword_of(word: Seq<u8>) -> Option<Token> {
    if word == "let".spec_bytes() {
        Some(Token::Let)
    } else if word == "if".spec_bytes() {
        Some(Token::If)
    } else if word == "else".spec_bytes() {
        Some(Token::Else)
    } else if word == "for".spec_bytes() {
        Some(Token::For)
    } else if word == "while".spec_bytes() {
        Some(Token::While)
    } else if word == "return".spec_bytes() {
        Some(Token::Return)
    } else if word == "fn".spec_bytes() {
        Some(Token::Fn)
    } else if word == "class".spec_bytes() {
        Some(Token::Class)
    } else if word == "super".spec_bytes() {
        Some(Token::Super)
    } else if word == "this".spec_bytes() {
        Some(Token::This)
    } else if word == "print".spec_bytes() {
        Some(Token::Print)
    } else if word == "true".spec_bytes() {
        Some(Token::True)
    } else if word == "false".spec_bytes() {
        Some(Token::False)
    } else if word == "nil".spec_bytes() {
        Some(Token::Nil)
    } else if word == "and".spec_bytes() {
        Some(Token::And)
    } else if word == "or".spec_bytes() {
        Some(Token::Or)
    } else if word == "not".spec_bytes() {
        Some(Token::Not)
    } else {
        None
    }
}

/// The token that a word is: its keyword, or an identifier.
pub open spec fn word_token(word: Seq<u8>) -> Token {
    match keyword_of(word) {
        Some(token) => token,
        None => Token::Identifier,
    }
}

/// Whether the byte behind `pos` is `b`.
pub open spec fn followed_by(bytes: Seq<u8>, pos: int, b: u8) -> bool {
    pos + 1 < bytes.len() && bytes[pos + 1] == b
}

/// The punctuation or operator at `pos` and the offset of its end. The
/// longest operator wins. A byte that starts none is an error of one byte.
pub open spec fn symbol_at(bytes: Seq<u8>, pos: int) -> (Token, int) {
    let b = bytes[pos];
    if b == PAREN_OPEN {
        (Token::ParenOpen, pos + 1)
    } else if b == PAREN_CLOSE {
        (Token::ParenClose, pos + 1)
    } else if b == BRACE_OPEN {
        (Token::BraceOpen, pos + 1)
    } else if b == BRACE_CLOSE {
        (Token::BraceClose, pos + 1)
    } else if b == SEMICOLON {
        (Token::Semicolon, pos + 1)
    } else if b == DOT {
        (Token::Dot, pos + 1)
    } else if b == COMMA {
        (Token::Comma, pos + 1)
    } else if b == PLUS {
        (Token::Add, pos + 1)
    } else if b == MINUS {
        (Token::Sub, pos + 1)
    } else if b == STAR {
        (Token::Mul, pos + 1)
    } else if b == SLASH {
        (Token::Div, pos + 1)
    } else if b == PERCENT {
        (Token::Rem, pos + 1)
    } else if b == EQUALS {
        if followed_by(bytes, pos, EQUALS) {
            (Token::Eq, pos + 2)
        } else {
            (Token::Assign, pos + 1)
        }
    } else if b == BANG {
        if followed_by(bytes, pos, EQUALS) {
            (Token::Neq, pos + 2)
        } else {
            (Token::Not, pos + 1)
        }
    } else if b == GREATER {
        if followed_by(bytes, pos, EQUALS) {
            (Token::Geq, pos + 2)
        } else {
            (Token::Gr, pos + 1)
        }
    } else if b == LESS {
        if followed_by(bytes, pos, EQUALS) {
            (Token::Leq, pos + 2)
        } else {
            (Token::Le, pos + 1)
        }
    } else if b == AMPERSAND && followed_by(bytes, pos, AMPERSAND) {
        (Token::And, pos + 2)
    } else if b == PIPE && followed_by(bytes, pos, PIPE) {
        (Token::Or, pos + 2)
    } else {
        (Token::Error, pos + 1)
    }
}

/// The token that starts at `start`, where there is a byte that is no
/// whitespace, and the offset of its end.
///
/// A digit starts a number. A letter starts a word, which is a keyword or
/// an identifier. A double quote starts a string, which runs up to the next
/// double quote; where there is none, the quote alone is an error. Any
/// other character that is not ASCII is an error that covers it. The rest
/// is punctuation and operators.
pub open spec fn token_at(bytes: Seq<u8>, start: int) -> (Token, int) {
    let b = bytes[start];
    if is_digit(b) {
        (Token::Number, number_end(bytes, start))
    } else if letter_width(bytes, start) > 0 && start + letter_width(bytes, start) <= bytes.len() {
        let end = identifier_end(bytes, start + letter_width(bytes, start));
        (word_token(bytes.subrange(start, end)), end)
    } else if b == QUOTE {
        match closing_quote(bytes, start + 1) {
            Some(close) => (Token::String, close + 1),
            None => (Token::Error, start + 1),
        }
    } else if b >= 0x80 {
        (Token::Error, start + wide_width(bytes, start))
    } else {
        symbol_at(bytes, start)
    }
}

/// The next token at or after `pos`: whitespace is skipped, and at the end
/// of the input there is no token.
pub open spec fn scan(bytes: Seq<u8>, pos: int) -> Lexeme {
    let start = skip_spaces(bytes, pos);
    if 0 <= start < bytes.len() {
        let (token, end) = token_at(bytes, start);
        Lexeme { token: Some(token), start, end }
    } else {
        Lexeme { token: None, start: bytes.len() as int, end: bytes.len() as int }
    }
}

/// The characters of the bytes `from..to` of a text, where both offsets
/// lie between two characters of it; of any other range, no characters.
pub open spec fn text_between(bytes: Seq<u8>, from: int, to: int) -> Seq<char> {
    if is_char_boundary(bytes, to) && is_char_boundary(bytes.subrange(0, to), from) {
        decode_utf8(bytes.subrange(from, to))
    } else {
        Seq::empty()
    }
}

/// The state of a lexer.
pub struct LexerView {
    /// The source text.
    pub bytes: Seq<u8>,
    /// The offset behind the last token that was consumed.
    pub pos: int,
    /// The start of the token that was produced last.
    pub start: int,
    /// The end of the token that was produced last.
    pub end: int,
}

impl LexerView {
    /// The token that comes next.
    pub open spec fn upcoming(self) -> Lexeme {
        scan(self.bytes, self.pos)
    }

    /// The state after a look at the next token: that token is the one
    /// produced last, and it is still to be consumed.
    pub open spec fn peeked(self) -> LexerView {
        LexerView { start: self.upcoming().start, end: self.upcoming().end, ..self }
    }

    /// The state after the next token was consumed.
    pub open spec fn advanced(self) -> LexerView {
        LexerView {
            pos: self.upcoming().end,
            start: self.upcoming().start,
            end: self.upcoming().end,
            ..self
        }
    }

    /// The text of the token that was produced last.
    pub open spec fn text(self) -> Seq<char> {
        text_between(self.bytes, self.start, self.end)
    }
}

/// Whitespace is skipped up to a byte that is none, or to the end.
pub proof fn skip_spaces_stops(bytes: Seq<u8>, pos: int)
    requires
        0 <= pos <= bytes.len(),
    ensures
        pos <= skip_spaces(bytes, pos) <= bytes.len(),
        skip_spaces(bytes, pos) < bytes.len() ==> !is_space(bytes[skip_spaces(bytes, pos)]),
        forall|i: int| pos <= i < skip_spaces(bytes, pos) ==> is_space(#[trigger] bytes[i]),
    decreases bytes.len() - pos,
{
    if pos < bytes.len() && is_space(bytes[pos]) {
        skip_spaces_stops(bytes, pos + 1);
    }
}

/// A run of digits ends within the text.
pub proof fn digits_end_within(bytes: Seq<u8>, pos: int)
    requires
        0 <= pos <= bytes.len(),
    ensures
        pos <= digits_end(bytes, pos) <= bytes.len(),
    decreases bytes.len() - pos,
{
    if pos < bytes.len() && is_digit(bytes[pos]) {
        digits_end_within(bytes, pos + 1);
    }
}

/// An identifier ends within the text.
pub proof fn identifier_end_within(bytes: Seq<u8>, pos: int)
    requires
        0 <= pos <= bytes.len(),
    ensures
        pos <= identifier_end(bytes, pos) <= bytes.len(),
    decreases bytes.len() - pos,
{
    if part_width(bytes, pos) > 0 && pos + part_width(bytes, pos) <= bytes.len() {
        identifier_end_within(bytes, pos + part_width(bytes, pos));
    }
}

/// The closing quote of a string is a double quote within the text.
pub proof fn closing_quote_within(bytes: Seq<u8>, pos: int)
    requires
        0 <= pos <= bytes.len(),
    ensures
        closing_quote(bytes, pos) matches Some(close) ==> pos <= close < bytes.len()
            && bytes[close] == QUOTE,
    decreases bytes.len() - pos,
{
    if pos < bytes.len() && bytes[pos] != QUOTE {
        closing_quote_within(bytes, pos + 1);
    }
}

/// A token lies within the text, behind the offset from which it was looked
/// for, and is not empty. At the end of the input there is none.
pub proof fn scan_within(bytes: Seq<u8>, pos: int)
    requires
        0 <= pos <= bytes.len(),
    ensures
        pos <= scan(bytes, pos).start <= scan(bytes, pos).end <= bytes.len(),
        scan(bytes, pos).token is Some ==> scan(bytes, pos).start < scan(bytes, pos).end,
        scan(bytes, pos).token is None ==> scan(bytes, pos).start == bytes.len(),
{
    skip_spaces_stops(bytes, pos);
    let start = skip_spaces(bytes, pos);
    if start < bytes.len() {
        digits_end_within(bytes, start + 1);
        let whole = digits_end(bytes, start);
        if is_digit(bytes[start]) {
            assert(whole == digits_end(bytes, start + 1));
            if whole < bytes.len() {
                digits_end_within(bytes, whole + 1);
            }
        }
        let width = letter_width(bytes, start);
        if width > 0 && start + width <= bytes.len() {
            identifier_end_within(bytes, start + width);
        }
        closing_quote_within(bytes, start + 1);
    }
}

/// The text from `pos` on, put together again from its tokens and the
/// bytes in front of each: what is skipped before a token, the token, and
/// so on up to the end of the input.
pub open spec fn reassembled(bytes: Seq<u8>, pos: int) -> Seq<u8>
    decreases bytes.len() - pos,
{
    let next = scan(bytes, pos);
    if next.token is Some && pos <= next.start < next.end <= bytes.len() {
        bytes.subrange(pos, next.start) + bytes.subrange(next.start, next.end) + reassembled(
            bytes,
            next.end,
        )
    } else {
        bytes.subrange(pos, bytes.len() as int)
    }
}

/// Whether nothing but whitespace is skipped in front of any token from
/// `pos` on, and behind the last one.
pub open spec fn only_spaces_skipped(bytes: Seq<u8>, pos: int) -> bool
    decreases bytes.len() - pos,
{
    let next = scan(bytes, pos);
    &&& forall|i: int| pos <= i < next.start ==> is_space(#[trigger] bytes[i])
    &&& next.token is Some && pos <= next.start < next.end <= bytes.len() ==> only_spaces_skipped(
        bytes,
        next.end,
    )
}

/// The tokens of a text and the whitespace between them make up the text:
/// every byte belongs to a token or is whitespace that is skipped, and the
/// tokens come in the order of the text.
pub proof fn tokens_make_up_the_source(bytes: Seq<u8>, pos: int)
    requires
        0 <= pos <= bytes.len(),
    ensures
        reassembled(bytes, pos) == bytes.subrange(pos, bytes.len() as int),
        only_spaces_skipped(bytes, pos),
    decreases bytes.len() - pos,
{
    scan_within(bytes, pos);
    skip_spaces_stops(bytes, pos);
    let next = scan(bytes, pos);
    if next.token is Some {
        tokens_make_up_the_source(bytes, next.end);
        assert(bytes.subrange(pos, next.start) + bytes.subrange(next.start, next.end)
            + bytes.subrange(next.end, bytes.len() as int) =~= bytes.subrange(
            pos,
            bytes.len() as int,
        ));
    }
}

/// Whether the token that the bytes `start..end` of a text are is made of
/// whole characters: both offsets lie between two characters.
pub open spec fn whole(bytes: Seq<u8>, start: int, end: int) -> bool {
    is_char_boundary(bytes, end) && is_char_boundary(bytes.subrange(0, end), start)
}

/// In a text, the character that starts between two characters ends
/// between two characters, after as many bytes as its first byte says.
proof fn character_ends_on_boundary(bytes: Seq<u8>, i: int)
    requires
        valid_utf8(bytes),
        0 <= i < bytes.len(),
        is_char_boundary(bytes, i),
    ensures
        bytes[i] < 0x80 ==> is_char_boundary(bytes, i + 1),
        bytes[i] >= 0x80 ==> scalar_at(bytes, i) is Some && is_char_boundary(
            bytes,
            i + wide_width(bytes, i),
        ),
        !is_continuation(bytes[i]),
    decreases bytes.len(),
{
    let first = length_of_first_scalar(bytes);
    let rest = pop_first_scalar(bytes);
    reveal_with_fuel(is_char_boundary, 2);
    if i == 0 {
        assert(is_char_boundary(rest, 0));
    } else {
        assert(is_char_boundary(rest, i - first));
        character_ends_on_boundary(rest, i - first);
        assert(rest[i - first] == bytes[i]);
        if bytes[i] >= 0x80 {
            assert(scalar_at(rest, i - first) == scalar_at(bytes, i));
        }
    }
}

/// A part of a text that starts between two characters of it starts
/// between two characters of every longer part, and the other way round.
proof fn boundary_of_a_part(bytes: Seq<u8>, from: int, to: int)
    requires
        valid_utf8(bytes),
        0 <= from <= to <= bytes.len(),
        is_char_boundary(bytes, to),
    ensures
        is_char_boundary(bytes.subrange(0, to), from) == is_char_boundary(bytes, from),
{
    let part = bytes.subrange(0, to);
    vstd::utf8::valid_utf8_split(bytes, to);
    vstd::utf8::is_char_boundary_start_end_of_seq(part);
    if from < to {
        vstd::utf8::is_char_boundary_iff_not_is_continuation_byte(part, from);
        vstd::utf8::is_char_boundary_iff_not_is_continuation_byte(bytes, from);
    }
}

proof fn spaces_end_on_boundary(bytes: Seq<u8>, pos: int)
    requires
        valid_utf8(bytes),
        0 <= pos <= bytes.len(),
        is_char_boundary(bytes, pos),
    ensures
        is_char_boundary(bytes, skip_spaces(bytes, pos)),
    decreases bytes.len() - pos,
{
    if pos < bytes.len() && is_space(bytes[pos]) {
        character_ends_on_boundary(bytes, pos);
        spaces_end_on_boundary(bytes, pos + 1);
    }
}

proof fn digits_end_on_boundary(bytes: Seq<u8>, pos: int)
    requires
        valid_utf8(bytes),
        0 <= pos <= bytes.len(),
        is_char_boundary(bytes, pos),
    ensures
        is_char_boundary(bytes, digits_end(bytes, pos)),
    decreases bytes.len() - pos,
{
    if pos < bytes.len() && is_digit(bytes[pos]) {
        character_ends_on_boundary(bytes, pos);
        digits_end_on_boundary(bytes, pos + 1);
    }
}

proof fn identifier_ends_on_boundary(bytes: Seq<u8>, pos: int)
    requires
        valid_utf8(bytes),
        0 <= pos <= bytes.len(),
        is_char_boundary(bytes, pos),
    ensures
        is_char_boundary(bytes, identifier_end(bytes, pos)),
    decreases bytes.len() - pos,
{
    if part_width(bytes, pos) > 0 && pos + part_width(bytes, pos) <= bytes.len() {
        character_ends_on_boundary(bytes, pos);
        identifier_ends_on_boundary(bytes, pos + part_width(bytes, pos));
    }
}

/// The tokens of a text are made of whole characters: a token that is
/// looked for from between two characters starts and ends between two
/// characters. So does the lexer, which starts at the start of its text,
/// cut no character in two, and the text of a token is what its bytes
/// spell.
pub proof fn tokens_are_whole(text: Seq<char>, pos: int)
    requires
        0 <= pos <= encode_utf8(text).len(),
        is_char_boundary(encode_utf8(text), pos),
    ensures
        is_char_boundary(encode_utf8(text), scan(encode_utf8(text), pos).start),
        is_char_boundary(encode_utf8(text), scan(encode_utf8(text), pos).end),
        whole(
            encode_utf8(text),
            scan(encode_utf8(text), pos).start,
            scan(encode_utf8(text), pos).end,
        ),
{
    let bytes = encode_utf8(text);
    vstd::utf8::encode_utf8_valid_utf8(text);
    vstd::utf8::is_char_boundary_start_end_of_seq(bytes);
    scan_within(bytes, pos);
    skip_spaces_stops(bytes, pos);
    spaces_end_on_boundary(bytes, pos);
    let start = skip_spaces(bytes, pos);
    if start < bytes.len() {
        character_ends_on_boundary(bytes, start);
        let b = bytes[start];
        if is_digit(b) {
            digits_end_on_boundary(bytes, start);
            let whole_part = digits_end(bytes, start);
            digits_end_within(bytes, start);
            if whole_part < bytes.len() && bytes[whole_part] == DOT {
                character_ends_on_boundary(bytes, whole_part);
                digits_end_on_boundary(bytes, whole_part + 1);
            }
        } else if letter_width(bytes, start) > 0 && start + letter_width(bytes, start)
            <= bytes.len() {
            identifier_ends_on_boundary(bytes, start + letter_width(bytes, start));
        } else if b == QUOTE {
            closing_quote_within(bytes, start + 1);
            match closing_quote(bytes, start + 1) {
                Some(close) => {
                    vstd::utf8::is_char_boundary_iff_not_is_continuation_byte(bytes, close);
                    character_ends_on_boundary(bytes, close);
                },
                None => {},
            }
        } else if b >= 0x80 {
        } else {
            if start + 1 < bytes.len() && !is_continuation(bytes[start + 1]) {
                vstd::utf8::is_char_boundary_iff_not_is_continuation_byte(bytes, start + 1);
                character_ends_on_boundary(bytes, start + 1);
            }
        }
    }
    boundary_of_a_part(bytes, scan(bytes, pos).start, scan(bytes, pos).end);
}

/// A lexer over one source text.
#[derive(Debug, Clone)]
pub struct Lexer<'source> {
    source: &'source str,
    bytes: &'source [u8],
    pos: usize,
    start: usize,
    end: usize,
    peeked: Option<Option<Token>>,
}

impl<'source> View for Lexer<'source> {
    type V = LexerView;

    closed spec fn view(&self) -> LexerView {
        LexerView {
            bytes: self.bytes@,
            pos: self.pos as int,
            start: self.start as int,
            end: self.end as int,
        }
    }
}

fn is_space_byte(b: u8) -> (r: bool)
    ensures
        r == is_space(b),
{
    b == SPACE || b == TAB || b == NEWLINE || b == FORM_FEED
}

fn is_digit_byte(b: u8) -> (r: bool)
    ensures
        r == is_digit(b),
{
    DIGIT_0 <= b && b <= DIGIT_9
}

fn is_continuation_byte(b: u8) -> (r: bool)
    ensures
        r == is_continuation(b),
{
    0x80 <= b && b < 0xC0
}

fn decode_scalar(bytes: &[u8], pos: usize) -> (r: Option<(u32, usize)>)
    requires
        pos < bytes@.len(),
    ensures
        match scalar_at(bytes@, pos as int) {
            Some((value, width)) => r == Some((value, width as usize)) && 2 <= width <= 4 && pos
                + width <= bytes@.len(),
            None => r is None,
        },
{
    let len: usize = bytes.len();
    let b0: u8 = bytes[pos];
    if 0xC0 <= b0 && b0 < 0xE0 {
        if len - pos > 1 && is_continuation_byte(bytes[pos + 1]) {
            let b1: u8 = bytes[pos + 1];
            Some((((b0 - 0xC0) as u32) * 0x40 + ((b1 - 0x80) as u32), 2))
        } else {
            None
        }
    } else if 0xE0 <= b0 && b0 < 0xF0 {
        if len - pos > 2 && is_continuation_byte(bytes[pos + 1]) && is_continuation_byte(
            bytes[pos + 2],
        ) {
            let b1: u8 = bytes[pos + 1];
            let b2: u8 = bytes[pos + 2];
            Some(
                (
                    ((b0 - 0xE0) as u32) * 0x1000 + ((b1 - 0x80) as u32) * 0x40 + ((b2
                        - 0x80) as u32),
                    3,
                ),
            )
        } else {
            None
        }
    } else if 0xF0 <= b0 && b0 < 0xF8 {
        if len - pos > 3 && is_continuation_byte(bytes[pos + 1]) && is_continuation_byte(
            bytes[pos + 2],
        ) && is_continuation_byte(bytes[pos + 3]) {
            let b1: u8 = bytes[pos + 1];
            let b2: u8 = bytes[pos + 2];
            let b3: u8 = bytes[pos + 3];
            Some(
                (
                    ((b0 - 0xF0) as u32) * 0x40000 + ((b1 - 0x80) as u32) * 0x1000 + ((b2
                        - 0x80) as u32) * 0x40 + ((b3 - 0x80) as u32),
                    4,
                ),
            )
        } else {
            None
        }
    } else {
        None
    }
}

fn letter_width_at(bytes: &[u8], pos: usize) -> (r: usize)
    requires
        pos < bytes@.len(),
    ensures
        r == letter_width(bytes@, pos as int),
        r <= 4,
        pos + r <= bytes@.len(),
{
    let b: u8 = bytes[pos];
    if b < 0x80 {
        if (UPPER_A <= b && b <= UPPER_Z) || (LOWER_A <= b && b <= LOWER_Z) {
            1
        } else {
            0
        }
    } else {
        match decode_scalar(bytes, pos) {
            Some((value, width)) => match char::from_u32(value) {
                Some(c) => if c.is_alphabetic() {
                    width
                } else {
                    0
                },
                None => 0,
            },
            None => 0,
        }
    }
}

fn part_width_at(bytes: &[u8], pos: usize) -> (r: usize)
    requires
        pos < bytes@.len(),
    ensures
        r == part_width(bytes@, pos as int),
        r <= 4,
        pos + r <= bytes@.len(),
{
    let b: u8 = bytes[pos];
    if is_digit_byte(b) || b == UNDERSCORE {
        1
    } else {
        letter_width_at(bytes, pos)
    }
}

fn skip_spaces_from(bytes: &[u8], pos: usize) -> (r: usize)
    requires
        pos <= bytes@.len(),
    ensures
        r == skip_spaces(bytes@, pos as int),
        pos <= r <= bytes@.len(),
{
    let mut i: usize = pos;
    while i < bytes.len() && is_space_byte(bytes[i])
        invariant
            pos <= i <= bytes@.len(),
            skip_spaces(bytes@, i as int) == skip_spaces(bytes@, pos as int),
        decreases bytes@.len() - i,
    {
        i += 1;
    }
    i
}

fn digits_end_from(bytes: &[u8], pos: usize) -> (r: usize)
    requires
        pos <= bytes@.len(),
    ensures
        r == digits_end(bytes@, pos as int),
        pos <= r <= bytes@.len(),
{
    let mut i: usize = pos;
    while i < bytes.len() && is_digit_byte(bytes[i])
        invariant
            pos <= i <= bytes@.len(),
            digits_end(bytes@, i as int) == digits_end(bytes@, pos as int),
        decreases bytes@.len() - i,
    {
        i += 1;
    }
    i
}

fn identifier_end_from(bytes: &[u8], pos: usize) -> (r: usize)
    requires
        pos <= bytes@.len(),
    ensures
        r == identifier_end(bytes@, pos as int),
        pos <= r <= bytes@.len(),
{
    let mut i: usize = pos;
    while i < bytes.len()
        invariant
            pos <= i <= bytes@.len(),
            identifier_end(bytes@, i as int) == identifier_end(bytes@, pos as int),
        decreases bytes@.len() - i,
    {
        let width: usize = part_width_at(bytes, i);
        if width == 0 {
            return i;
        }
        i += width;
    }
    i
}

fn closing_quote_from(bytes: &[u8], pos: usize) -> (r: Option<usize>)
    requires
        pos <= bytes@.len(),
    ensures
        match closing_quote(bytes@, pos as int) {
            Some(close) => r == Some(close as usize) && pos <= close < bytes@.len(),
            None => r is None,
        },
{
    let mut i: usize = pos;
    while i < bytes.len()
        invariant
            pos <= i <= bytes@.len(),
            closing_quote(bytes@, i as int) == closing_quote(bytes@, pos as int),
        decreases bytes@.len() - i,
    {
        if bytes[i] == QUOTE {
            return Some(i);
        }
        i += 1;
    }
    None
}

fn is_word(bytes: &[u8], start: usize, end: usize, word: &str) -> (r: bool)
    requires
        start <= end <= bytes@.len(),
    ensures
        r == (bytes@.subrange(start as int, end as int) == word.spec_bytes()),
{
    let letters = word.as_bytes();
    if letters.len() != end - start {
        return false;
    }
    let mut i: usize = 0;
    while i < letters.len()
        invariant
            start <= end <= bytes@.len(),
            letters@ == word.spec_bytes(),
            letters@.len() == end - start,
            0 <= i <= letters@.len(),
            forall|j: int| 0 <= j < i ==> bytes@[start + j] == letters@[j],
        decreases letters@.len() - i,
    {
        if bytes[start + i] != letters[i] {
            assert(bytes@.subrange(start as int, end as int)[i as int] != letters@[i as int]);
            return false;
        }
        i += 1;
    }
    assert(bytes@.subrange(start as int, end as int) =~= letters@);
    true
}

fn word_token_of(bytes: &[u8], start: usize, end: usize) -> (r: Token)
    requires
        start <= end <= bytes@.len(),
    ensures
        r == word_token(bytes@.subrange(start as int, end as int)),
{
    if is_word(bytes, start, end, "let") {
        Token::Let
    } else if is_word(bytes, start, end, "if") {
        Token::If
    } else if is_word(bytes, start, end, "else") {
        Token::Else
    } else if is_word(bytes, start, end, "for") {
        Token::For
    } else if is_word(bytes, start, end, "while") {
        Token::While
    } else if is_word(bytes, start, end, "return") {
        Token::Return
    } else if is_word(bytes, start, end, "fn") {
        Token::Fn
    } else if is_word(bytes, start, end, "class") {
        Token::Class
    } else if is_word(bytes, start, end, "super") {
        Token::Super
    } else if is_word(bytes, start, end, "this") {
        Token::This
    } else if is_word(bytes, start, end, "print") {
        Token::Print
    } else if is_word(bytes, start, end, "true") {
        Token::True
    } else if is_word(bytes, start, end, "false") {
        Token::False
    } else if is_word(bytes, start, end, "nil") {
        Token::Nil
    } else if is_word(bytes, start, end, "and") {
        Token::And
    } else if is_word(bytes, start, end, "or") {
        Token::Or
    } else if is_word(bytes, start, end, "not") {
        Token::Not
    } else {
        Token::Identifier
    }
}

fn symbol_from(bytes: &[u8], pos: usize) -> (r: (Token, usize))
    requires
        pos < bytes@.len(),
    ensures
        r.0 == symbol_at(bytes@, pos as int).0,
        r.1 == symbol_at(bytes@, pos as int).1,
        pos < r.1 <= bytes@.len(),
{
    let b: u8 = bytes[pos];
    let next: Option<u8> = if bytes.len() - pos > 1 {
        Some(bytes[pos + 1])
    } else {
        None
    };
    if b == PAREN_OPEN {
        (Token::ParenOpen, pos + 1)
    } else if b == PAREN_CLOSE {
        (Token::ParenClose, pos + 1)
    } else if b == BRACE_OPEN {
        (Token::BraceOpen, pos + 1)
    } else if b == BRACE_CLOSE {
        (Token::BraceClose, pos + 1)
    } else if b == SEMICOLON {
        (Token::Semicolon, pos + 1)
    } else if b == DOT {
        (Token::Dot, pos + 1)
    } else if b == COMMA {
        (Token::Comma, pos + 1)
    } else if b == PLUS {
        (Token::Add, pos + 1)
    } else if b == MINUS {
        (Token::Sub, pos + 1)
    } else if b == STAR {
        (Token::Mul, pos + 1)
    } else if b == SLASH {
        (Token::Div, pos + 1)
    } else if b == PERCENT {
        (Token::Rem, pos + 1)
    } else if b == EQUALS {
        if next == Some(EQUALS) {
            (Token::Eq, pos + 2)
        } else {
            (Token::Assign, pos + 1)
        }
    } else if b == BANG {
        if next == Some(EQUALS) {
            (Token::Neq, pos + 2)
        } else {
            (Token::Not, pos + 1)
        }
    } else if b == GREATER {
        if next == Some(EQUALS) {
            (Token::Geq, pos + 2)
        } else {
            (Token::Gr, pos + 1)
        }
    } else if b == LESS {
        if next == Some(EQUALS) {
            (Token::Leq, pos + 2)
        } else {
            (Token::Le, pos + 1)
        }
    } else if b == AMPERSAND && next == Some(AMPERSAND) {
        (Token::And, pos + 2)
    } else if b == PIPE && next == Some(PIPE) {
        (Token::Or, pos + 2)
    } else {
        (Token::Error, pos + 1)
    }
}

fn token_from(bytes: &[u8], start: usize) -> (r: (Token, usize))
    requires
        start < bytes@.len(),
    ensures
        r.0 == token_at(bytes@, start as int).0,
        r.1 == token_at(bytes@, start as int).1,
        start < r.1 <= bytes@.len(),
{
    let b: u8 = bytes[start];
    if is_digit_byte(b) {
        let whole: usize = digits_end_from(bytes, start);
        proof {
            digits_end_within(bytes@, start + 1);
        }
        if whole < bytes.len() && bytes[whole] == DOT {
            (Token::Number, digits_end_from(bytes, whole + 1))
        } else {
            (Token::Number, whole)
        }
    } else {
        let width: usize = letter_width_at(bytes, start);
        if width > 0 {
            let end: usize = identifier_end_from(bytes, start + width);
            (word_token_of(bytes, start, end), end)
        } else if b == QUOTE {
            match closing_quote_from(bytes, start + 1) {
                Some(close) => (Token::String, close + 1),
                None => (Token::Error, start + 1),
            }
        } else if b >= 0x80 {
            match decode_scalar(bytes, start) {
                Some((_, wide)) => (Token::Error, start + wide),
                None => (Token::Error, start + 1),
            }
        } else {
            symbol_from(bytes, start)
        }
    }
}

impl<'source> Lexer<'source> {
    /// The lexer's invariant: it looks at the bytes of its source, its
    /// offsets lie within them and between two characters, and a token that
    /// it has looked at ahead of time is the one that comes next.
    pub closed spec fn wf(&self) -> bool {
        &&& self.bytes@ == self.source.spec_bytes()
        &&& self.start <= self.end <= self.bytes@.len()
        &&& self.pos <= self.bytes@.len()
        &&& is_char_boundary(self.bytes@, self.pos as int)
        &&& whole(self.bytes@, self.start as int, self.end as int)
        &&& self.peeked matches Some(token) ==> scan(self.bytes@, self.pos as int) == (Lexeme {
            token,
            start: self.start as int,
            end: self.end as int,
        })
    }

    /// A lexer at the start of `source`. No token has been produced yet.
    pub fn lex(source: &'source str) -> (r: Self)
        ensures
            r.wf(),
            r@ == (LexerView { bytes: source.spec_bytes(), pos: 0, start: 0, end: 0 }),
    {
        let bytes = source.as_bytes();
        proof {
            vstd::utf8::encode_utf8_valid_utf8(source@);
            vstd::utf8::is_char_boundary_start_end_of_seq(bytes@);
            boundary_of_a_part(bytes@, 0, 0);
        }
        Self { source, bytes, pos: 0, start: 0, end: 0, peeked: None }
    }

    /// What the invariant says of the offsets of a lexer.
    pub proof fn offsets_within(&self)
        requires
            self.wf(),
        ensures
            0 <= self@.pos <= self@.bytes.len(),
            0 <= self@.start <= self@.end <= self@.bytes.len(),
    {
    }

    fn scan_next(&self) -> (r: (Option<Token>, usize, usize))
        requires
            self.wf(),
        ensures
            scan(self.bytes@, self.pos as int) == (Lexeme {
                token: r.0,
                start: r.1 as int,
                end: r.2 as int,
            }),
            self.pos <= r.1 <= r.2 <= self.bytes@.len(),
            r.0 is Some ==> r.1 < r.2,
    {
        let start: usize = skip_spaces_from(self.bytes, self.pos);
        if start < self.bytes.len() {
            let (token, end) = token_from(self.bytes, start);
            (Some(token), start, end)
        } else {
            (None, start, start)
        }
    }

    /// The text of the token that was produced last.
    pub fn slice(&self) -> (r: &'source str)
        requires
            self.wf(),
        ensures
            r@ == self@.text(),
            r.spec_bytes() == self@.bytes.subrange(self@.start, self@.end),
            r.spec_bytes().len() <= self@.bytes.len(),
    {
        self.between(self.start, self.end)
    }

    /// The text of the bytes `from..to` of the source.
    pub fn between(&self, from: usize, to: usize) -> (r: &'source str)
        requires
            self.wf(),
        ensures
            r@ == text_between(self@.bytes, from as int, to as int),
            whole(self@.bytes, from as int, to as int) ==> r.spec_bytes() == self@.bytes.subrange(
                from as int,
                to as int,
            ),
            r.spec_bytes().len() <= self@.bytes.len(),
    {
        proof {
            vstd::utf8::encode_utf8_valid_utf8(self.source@);
        }
        if !self.source.is_char_boundary(to) {
            return Self::nothing();
        }
        let (head, _) = self.source.split_at(to);
        proof {
            vstd::utf8::encode_utf8_valid_utf8(head@);
        }
        if !head.is_char_boundary(from) {
            return Self::nothing();
        }
        let (_, tail) = head.split_at(from);
        proof {
            assert(to <= self.bytes@.len());
            assert(from <= to);
            assert(tail.spec_bytes() =~= self.bytes@.subrange(from as int, to as int));
            vstd::utf8::encode_utf8_decode_utf8(tail@);
        }
        tail
    }

    fn nothing() -> (r: &'source str)
        ensures
            r@ == Seq::<char>::empty(),
            r.spec_bytes().len() == 0,
    {
        proof {
            reveal_strlit("");
        }
        let r = "";
        assert(r@ =~= Seq::<char>::empty());
        r
    }

    /// The offset behind the last token that was consumed.
    pub fn position(&self) -> (r: usize)
        ensures
            r == self@.pos,
    {
        self.pos
    }

    /// The bytes of the source that the token produced last covers.
    pub fn span(&self) -> (r: Range<usize>)
        ensures
            r.start == self@.start,
            r.end == self@.end,
    {
        self.start..self.end
    }

    /// The token that comes next, or `None` at the end of the input. The
    /// token is not consumed: to look again gives the same.
    pub fn peek(&mut self) -> (r: Option<Token>)
        requires
            old(self).wf(),
        ensures
            final(self).wf(),
            r == old(self)@.upcoming().token,
            final(self)@ == old(self)@.peeked(),
            0 <= final(self)@.start <= final(self)@.end <= final(self)@.bytes.len(),
            0 <= final(self)@.pos <= final(self)@.bytes.len(),
            r is Some ==> final(self)@.pos <= final(self)@.start < final(self)@.end,
    {
        proof {
            scan_within(self.bytes@, self.pos as int);
            tokens_are_whole(self.source@, self.pos as int);
        }
        match self.peeked {
            Some(token) => token,
            None => {
                let (token, start, end) = self.scan_next();
                self.start = start;
                self.end = end;
                self.peeked = Some(token);
                token
            },
        }
    }

    /// Consumes the token that comes next and returns it, or `None` at the
    /// end of the input.
    pub fn next(&mut self) -> (r: Option<Token>)
        requires
            old(self).wf(),
        ensures
            final(self).wf(),
            r == old(self)@.upcoming().token,
            final(self)@ == old(self)@.advanced(),
            0 <= final(self)@.start <= final(self)@.end <= final(self)@.bytes.len(),
            0 <= old(self)@.pos <= final(self)@.pos <= final(self)@.bytes.len(),
            r is Some ==> old(self)@.pos < final(self)@.pos,
            r is Some ==> final(self)@.start < final(self)@.end,
    {
        proof {
            scan_within(self.bytes@, self.pos as int);
            tokens_are_whole(self.source@, self.pos as int);
        }
        let token = match self.peeked {
            Some(token) => token,
            None => {
                let (token, start, end) = self.scan_next();
                self.start = start;
                self.end = end;
                token
            },
        };
        self.peeked = None;
        self.pos = self.end;
        token
    }
}

} // verus!
