use vstd::prelude::*;

use crate::span::{Pos, Span};

verus! {

/// The class of a token, with its payload for literals and identifiers.
#[derive(Debug, Clone, PartialEq)]
pub enum TokenKind {
    // symbols
    Mult,
    Div,
    Plus,
    Minus,
    Mod,
    Lparen,
    Rparen,
    LBracket,
    RBracket,
    Assign,
    Eq,
    NotEq,
    Less,
    LessEq,
    More,
    MoreEq,
    Comma,
    // keywords
    Import,
    Fn,
    If,
    Elif,
    Else,
    Then,
    While,
    Do,
    Return,
    End,
    And,
    Or,
    Not,
    // literals
    Ident(String),
    String(String),
    Int(i32),
    /// A decimal literal with a fractional part, kept as written (`3.14`).
    Float(String),
    Bool(bool),
    // other
    Eof,
    Separator,
    Unknown,
}

/// The mathematical content of a `TokenKind`: text payloads as character
/// sequences, the integer payload as an `int`, and every other kind as itself.
pub enum Lexeme {
    Plain(TokenKind),
    Ident(Seq<char>),
    Str(Seq<char>),
    Int(int),
    Float(Seq<char>),
}

impl View for TokenKind {
    type V = Lexeme;

    open spec fn view(&self) -> Lexeme {
        match self {
            TokenKind::Ident(t) => Lexeme::Ident(t@),
            TokenKind::String(t) => Lexeme::Str(t@),
            TokenKind::Int(v) => Lexeme::Int(*v as int),
            TokenKind::Float(t) => Lexeme::Float(t@),
            _ => Lexeme::Plain(*self),
        }
    }
}

/// One token: what it is, the characters it covers, and where it was reported.
#[derive(Debug, Clone, PartialEq)]
pub struct Token {
    pub kind: TokenKind,
    pub span: Span,
    /// Line and column at which the token was reported: its first character,
    /// or for a separator made from line breaks, the point just after them.
    pub pos: Pos,
}

impl Token {
    /// An end-of-input token at the very start of the source.
    pub fn empty() -> (r: Token)
        ensures
            r.kind == TokenKind::Eof,
            r.span == (Span { start: 0, end: 0 }),
            r.pos == (Pos { line: 1, col: 1 }),
    {
        Token { kind: TokenKind::Eof, span: Span { start: 0, end: 0 }, pos: Pos { line: 1, col: 1 } }
    }
}

} // verus!
