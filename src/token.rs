use vstd::prelude::*;

verus! {

/// The kind of one lexical unit.
#[derive(Debug, Clone, Copy, PartialEq, Eq, Structural)]
pub enum TokenKind {
    Fn,
    Let,
    Ret,
    I8,
    I16,
    I32,
    I64,
    Lparen,
    Rparen,
    Lbrace,
    Rbrace,
    Colon,
    Comma,
    Semicolon,
    Minus,
    Plus,
    Eq,
    Arrow,
    Star,
    Dot,
    Ellipsis,
    Identifier,
    Integer,
    Float,
    String,
    EndOfInput,
}

/// One token: its kind and the half-open byte range `[start, end)` of its lexeme.
#[derive(Debug, Clone, Copy, PartialEq, Eq, Structural)]
pub struct Token {
    pub kind: TokenKind,
    pub start: usize,
    pub end: usize,
}

/// A lexical error, with the byte offset at which it was found.
#[derive(Debug, Clone, Copy, PartialEq, Eq, Structural)]
pub enum LexError {
    UnrecognizedCharacter { offset: usize, byte: u8 },
    UnterminatedString { start_offset: usize },
    MalformedNumber { start_offset: usize },
}

} // verus!
