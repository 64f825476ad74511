//! Token data definitions: the closed token alphabet, tokens enriched with
//! source positions, and the scan error type, together with their
//! mathematical models.

use vstd::prelude::*;
use crate::lexer::{Position, SpecPos};

verus! {

/// A numeric literal: an integer when the digit run has no radix point and
/// fits in 64 bits, otherwise a floating-point literal kept as its exact
/// source text.
#[derive(Debug, Clone)]
pub enum Number {
    Int(i64),
    Float(String),
}

#[derive(Debug, Clone, Copy, PartialEq, Eq, Structural)]
pub enum Keyword {
    Function,
    If,
    Else,
    End,
    Return,
    Mutable,
    For,
    In,
}

#[derive(Debug, Clone, Copy, PartialEq, Eq, Structural)]
pub enum BuiltinType {
    Int,
    Float,
    Boolean,
    Array,
    String,
}

#[derive(Debug, Clone)]
pub enum Token {
    Ident(String),
    Number(Number),
    String(String),
    Comment(String),
    Whitespace(usize),
    Keyword(Keyword),
    BuiltinType(BuiltinType),
    ReturnType,         // "->"
    Assign,             // ":="
    Eq,                 // "=="
    NotEq,              // "!="
    GreaterThanOrEq,    // ">="
    LessThanOrEq,       // "<="
    RelationalPlus,     // "+="
    RelationalMinus,    // "-="
    RelationalMul,      // "*="
    RelationalDiv,      // "/="
    Bang,               // '!'
    Shabang,            // '#'
    Dollar,             // '$'
    Percent,            // '%'
    Ampersand,          // '&'
    OpenParen,          // '('
    CloseParen,         // ')'
    Asterisk,           // '*'
    Plus,               // '+'
    Minus,              // '-'
    Comma,              // ','
    Period,             // '.'
    Slash,              // '/'
    Colon,              // ':'
    Semicolon,          // ';'
    LessThan,           // '<'
    Equals,             // '='
    GreaterThan,        // '>'
    QuestionMark,       // '?'
    AtSign,             // '@'
    OpenSquareBracket,  // '['
    Backslash,          // '\'
    CloseSquareBracket, // ']'
    Caret,              // '^'
    OpenCurlyBrace,     // '{'
    VerticalBar,        // '|'
    CloseCurlyBrace,    // '}'
}

/// Mathematical model of a token: text is a character sequence, counts are
/// unbounded, and the two numeric shapes are flattened.
pub enum SpecToken {
    Ident(Seq<char>),
    Int(i64),
    Float(Seq<char>),
    StrLit(Seq<char>),
    Comment(Seq<char>),
    Whitespace(int),
    Keyword(Keyword),
    BuiltinType(BuiltinType),
    ReturnType,
    Assign,
    Eq,
    NotEq,
    GreaterThanOrEq,
    LessThanOrEq,
    RelationalPlus,
    RelationalMinus,
    RelationalMul,
    RelationalDiv,
    Bang,
    Shabang,
    Dollar,
    Percent,
    Ampersand,
    OpenParen,
    CloseParen,
    Asterisk,
    Plus,
    Minus,
    Comma,
    Period,
    Slash,
    Colon,
    Semicolon,
    LessThan,
    Equals,
    GreaterThan,
    QuestionMark,
    AtSign,
    OpenSquareBracket,
    Backslash,
    CloseSquareBracket,
    Caret,
    OpenCurlyBrace,
    VerticalBar,
    CloseCurlyBrace,
}

impl View for Token {
    type V = SpecToken;

    open spec fn view(&self) -> SpecToken {
        match self {
            Token::Ident(s) => SpecToken::Ident(s@),
            Token::Number(Number::Int(n)) => SpecToken::Int(*n),
            Token::Number(Number::Float(s)) => SpecToken::Float(s@),
            Token::String(s) => SpecToken::StrLit(s@),
            Token::Comment(s) => SpecToken::Comment(s@),
            Token::Whitespace(n) => SpecToken::Whitespace(*n as int),
            Token::Keyword(k) => SpecToken::Keyword(*k),
            Token::BuiltinType(b) => SpecToken::BuiltinType(*b),
            Token::ReturnType => SpecToken::ReturnType,
            Token::Assign => SpecToken::Assign,
            Token::Eq => SpecToken::Eq,
            Token::NotEq => SpecToken::NotEq,
            Token::GreaterThanOrEq => SpecToken::GreaterThanOrEq,
            Token::LessThanOrEq => SpecToken::LessThanOrEq,
            Token::RelationalPlus => SpecToken::RelationalPlus,
            Token::RelationalMinus => SpecToken::RelationalMinus,
            Token::RelationalMul => SpecToken::RelationalMul,
            Token::RelationalDiv => SpecToken::RelationalDiv,
            Token::Bang => SpecToken::Bang,
            Token::Shabang => SpecToken::Shabang,
            Token::Dollar => SpecToken::Dollar,
            Token::Percent => SpecToken::Percent,
            Token::Ampersand => SpecToken::Ampersand,
            Token::OpenParen => SpecToken::OpenParen,
            Token::CloseParen => SpecToken::CloseParen,
            Token::Asterisk => SpecToken::Asterisk,
            Token::Plus => SpecToken::Plus,
            Token::Minus => SpecToken::Minus,
            Token::Comma => SpecToken::Comma,
            Token::Period => SpecToken::Period,
            Token::Slash => SpecToken::Slash,
            Token::Colon => SpecToken::Colon,
            Token::Semicolon => SpecToken::Semicolon,
            Token::LessThan => SpecToken::LessThan,
            Token::Equals => SpecToken::Equals,
            Token::GreaterThan => SpecToken::GreaterThan,
            Token::QuestionMark => SpecToken::QuestionMark,
            Token::AtSign => SpecToken::AtSign,
            Token::OpenSquareBracket => SpecToken::OpenSquareBracket,
            Token::Backslash => SpecToken::Backslash,
            Token::CloseSquareBracket => SpecToken::CloseSquareBracket,
            Token::Caret => SpecToken::Caret,
            Token::OpenCurlyBrace => SpecToken::OpenCurlyBrace,
            Token::VerticalBar => SpecToken::VerticalBar,
            Token::CloseCurlyBrace => SpecToken::CloseCurlyBrace,
        }
    }
}

impl PartialEq for Token {
    fn eq(&self, other: &Token) -> (r: bool) {
        match (self, other) {
            (Token::Ident(a), Token::Ident(b)) => *a == *b,
            (Token::Number(Number::Int(a)), Token::Number(Number::Int(b))) => *a == *b,
            (Token::Number(Number::Float(a)), Token::Number(Number::Float(b))) => *a == *b,
            (Token::String(a), Token::String(b)) => *a == *b,
            (Token::Comment(a), Token::Comment(b)) => *a == *b,
            (Token::Whitespace(a), Token::Whitespace(b)) => *a == *b,
            (Token::Keyword(a), Token::Keyword(b)) => *a == *b,
            (Token::BuiltinType(a), Token::BuiltinType(b)) => *a == *b,
            (Token::ReturnType, Token::ReturnType) => true,
            (Token::Assign, Token::Assign) => true,
            (Token::Eq, Token::Eq) => true,
            (Token::NotEq, Token::NotEq) => true,
            (Token::GreaterThanOrEq, Token::GreaterThanOrEq) => true,
            (Token::LessThanOrEq, Token::LessThanOrEq) => true,
            (Token::RelationalPlus, Token::RelationalPlus) => true,
            (Token::RelationalMinus, Token::RelationalMinus) => true,
            (Token::RelationalMul, Token::RelationalMul) => true,
            (Token::RelationalDiv, Token::RelationalDiv) => true,
            (Token::Bang, Token::Bang) => true,
            (Token::Shabang, Token::Shabang) => true,
            (Token::Dollar, Token::Dollar) => true,
            (Token::Percent, Token::Percent) => true,
            (Token::Ampersand, Token::Ampersand) => true,
            (Token::OpenParen, Token::OpenParen) => true,
            (Token::CloseParen, Token::CloseParen) => true,
            (Token::Asterisk, Token::Asterisk) => true,
            (Token::Plus, Token::Plus) => true,
            (Token::Minus, Token::Minus) => true,
            (Token::Comma, Token::Comma) => true,
            (Token::Period, Token::Period) => true,
            (Token::Slash, Token::Slash) => true,
            (Token::Colon, Token::Colon) => true,
            (Token::Semicolon, Token::Semicolon) => true,
            (Token::LessThan, Token::LessThan) => true,
            (Token::Equals, Token::Equals) => true,
            (Token::GreaterThan, Token::GreaterThan) => true,
            (Token::QuestionMark, Token::QuestionMark) => true,
            (Token::AtSign, Token::AtSign) => true,
            (Token::OpenSquareBracket, Token::OpenSquareBracket) => true,
            (Token::Backslash, Token::Backslash) => true,
            (Token::CloseSquareBracket, Token::CloseSquareBracket) => true,
            (Token::Caret, Token::Caret) => true,
            (Token::OpenCurlyBrace, Token::OpenCurlyBrace) => true,
            (Token::VerticalBar, Token::VerticalBar) => true,
            (Token::CloseCurlyBrace, Token::CloseCurlyBrace) => true,
            _ => false,
        }
    }
}

impl vstd::std_specs::cmp::PartialEqSpecImpl for Token {
    open spec fn obeys_eq_spec() -> bool {
        true
    }

    open spec fn eq_spec(&self, other: &Token) -> bool {
        self@ == other@
    }
}

impl PartialEq for Number {
    fn eq(&self, other: &Number) -> (r: bool) {
        match (self, other) {
            (Number::Int(a), Number::Int(b)) => *a == *b,
            (Number::Float(a), Number::Float(b)) => *a == *b,
            _ => false,
        }
    }
}

impl vstd::std_specs::cmp::PartialEqSpecImpl for Number {
    open spec fn obeys_eq_spec() -> bool {
        true
    }

    open spec fn eq_spec(&self, other: &Number) -> bool {
        Token::Number(*self)@ == Token::Number(*other)@
    }
}

/// A token annotated with the positions of its first and last character.
#[derive(Debug, Clone)]
pub struct EnrichedToken {
    pub start: Position,
    pub end: Position,
    pub token: Token,
}

/// Mathematical model of an enriched token.
pub struct SpecEnrichedToken {
    pub start: SpecPos,
    pub end: SpecPos,
    pub token: SpecToken,
}

impl View for EnrichedToken {
    type V = SpecEnrichedToken;

    open spec fn view(&self) -> SpecEnrichedToken {
        SpecEnrichedToken { start: self.start@, end: self.end@, token: self.token@ }
    }
}

impl EnrichedToken {
    pub fn new(start: Position, end: Position, token: Token) -> (r: Self)
        ensures
            r.start == start,
            r.end == end,
            r.token == token,
    {
        Self { start, end, token }
    }

    pub fn strip_token(&self) -> (r: &Token)
        ensures
            r == &self.token,
    {
        &self.token
    }

    pub fn get_token(&self) -> (r: &Token)
        ensures
            r == &self.token,
    {
        &self.token
    }

    pub fn get_position(&self) -> (r: (&Position, &Position))
        ensures
            r.0 == &self.start,
            r.1 == &self.end,
    {
        (&self.start, &self.end)
    }
}

/// Why a scan stopped: a character outside the closed token alphabet, or a
/// digit-and-dot run that is neither an integer nor a float (more than one
/// radix point).
#[derive(Debug, Clone)]
pub enum LexErrorKind {
    UnexpectedChar(char),
    MalformedNumber(String),
}

/// A fatal scan failure, carrying the source position at which it occurred.
#[derive(Debug, Clone)]
pub struct LexError {
    pub pos: Position,
    pub kind: LexErrorKind,
}

/// Mathematical model of a scan failure.
pub enum SpecErrKind {
    UnexpectedChar(char),
    MalformedNumber(Seq<char>),
}

pub struct SpecLexError {
    pub pos: SpecPos,
    pub kind: SpecErrKind,
}

impl View for LexErrorKind {
    type V = SpecErrKind;

    open spec fn view(&self) -> SpecErrKind {
        match self {
            LexErrorKind::UnexpectedChar(c) => SpecErrKind::UnexpectedChar(*c),
            LexErrorKind::MalformedNumber(s) => SpecErrKind::MalformedNumber(s@),
        }
    }
}

impl View for LexError {
    type V = SpecLexError;

    open spec fn view(&self) -> SpecLexError {
        SpecLexError { pos: self.pos@, kind: self.kind@ }
    }
}

} // verus!
