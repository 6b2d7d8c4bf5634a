//! Tokens produced by the scanner.
use vstd::prelude::*;

verus! {

/// One lexical token.
#[derive(Debug, Clone, PartialEq)]
pub enum Token {
    Number(i64),
    Plus,
    Minus,
    StringLiteral(String),
    Star,
    Slash,
    LeftParen,
    RightParen,
    LeftBracket,
    RightBracket,
    EOF,
    Identifier(String),
    Equals,
    Semicolon,
    Colon,
    Comma,
    Dot,
    LeftBrace,
    RightBrace,
    Greater,
    GreaterEqual,
    Less,
    LessEqual,
    EqualEqual,
    BangEqual,
    Bang,
    Let,
    Print,
    If,
    Else,
    While,
    True,
    False,
    And,
    Or,
    Fn,
    Return,
    For,
    In,
}

/// A token with the half-open range of character offsets it was read from.
#[derive(Debug)]
pub struct TokenWithSpan {
    pub token: Token,
    pub span: (usize, usize),
}

} // verus!
