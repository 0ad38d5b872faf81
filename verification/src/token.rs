//! Tokens produced by the scanner: a kind, the lexeme's bytes, and the
//! source line the lexeme started on.
use vstd::prelude::*;

verus! {

/// The closed set of lexeme kinds the scanner can produce.
///
/// `Error` carries a diagnostic message as its lexeme; `Eof` marks the end
/// of the input and is produced again on every further scan.
#[derive(Copy, Clone, PartialEq, Eq, Structural, Debug)]
pub enum TokenType {
    LeftParen,
    RightParen,
    LeftBrace,
    RightBrace,
    Comma,
    Semicolon,
    Minus,
    Plus,
    Star,
    Slash,
    Bang,
    BangEq,
    Eq,
    EqEq,
    Greater,
    GreaterEq,
    Less,
    LessEq,
    Identifier,
    Str,
    Number,
    Var,
    Class,
    Super,
    This,
    And,
    Or,
    If,
    Else,
    True,
    False,
    For,
    While,
    Func,
    Nil,
    Print,
    Return,
    Error,
    Eof,
}

/// One lexeme: its kind, its bytes, and the line it started on.
///
/// The content is a copy of the source bytes of the lexeme (for `Error`
/// tokens it is the diagnostic message instead), so a token does not borrow
/// from the source buffer.
pub struct Token {
    pub tok_type: TokenType,
    pub content: Vec<u8>,
    pub line: usize,
}

impl Token {
    pub fn new(tok_type: TokenType, content: Vec<u8>, line: usize) -> (t: Token)
        ensures
            t.tok_type == tok_type,
            t.content == content,
            t.line == line,
    {
        Token { tok_type, content, line }
    }
}

} // verus!
