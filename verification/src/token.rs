//! The token model: one classified lexeme of source text, together with its
//! optional literal payload and the 1-based line it starts on.
//!
//! Source text is handled as a byte buffer (ASCII assumed), so a lexeme is an
//! owned slice of bytes copied out of the source, and a number literal keeps
//! the exact digit span it was read from; turning that span into a machine
//! float is left to unverified callers.

use vstd::prelude::*;

verus! {

/// The lexical category of a token.
#[derive(Debug, Clone, Copy, PartialEq, Eq, Structural)]
pub enum TokenType {
    // Single-character tokens.
    LeftParen,
    RightParen,
    LeftBrace,
    RightBrace,
    Comma,
    Dot,
    Minus,
    Plus,
    Semicolon,
    Slash,
    Star,
    // One or two character tokens.
    Bang,
    BangEqual,
    Equal,
    EqualEqual,
    Greater,
    GreaterEqual,
    Less,
    LessEqual,
    // Literals.
    Identifier,
    String,
    Number,
    // Keywords.
    And,
    Class,
    Else,
    False,
    Fun,
    For,
    If,
    Nil,
    Or,
    Print,
    Return,
    Super,
    This,
    True,
    Var,
    While,
    // End of input.
    Eof,
}

/// The literal payload of a string or number token: the text strictly between
/// the quotes, or the digit span of the number.
#[derive(Debug, PartialEq, Eq)]
pub enum Literal {
    String(Vec<u8>),
    Number(Vec<u8>),
}

/// Mathematical model of a [`Literal`]: the same tag over byte sequences.
pub enum SpecLiteral {
    String(Seq<u8>),
    Number(Seq<u8>),
}

impl View for Literal {
    type V = SpecLiteral;

    open spec fn view(&self) -> SpecLiteral {
        match self {
            Literal::String(s) => SpecLiteral::String(s@),
            Literal::Number(d) => SpecLiteral::Number(d@),
        }
    }
}

impl Clone for Literal {
    /// A clone models the same literal.
    fn clone(&self) -> (r: Self)
        ensures
            r@ == self@,
    {
        match self {
            Literal::String(s) => {
                let c = s.clone();
                assert(c@ =~= s@);
                Literal::String(c)
            },
            Literal::Number(d) => {
                let c = d.clone();
                assert(c@ =~= d@);
                Literal::Number(c)
            },
        }
    }
}

/// Mathematical model of a [`Token`].
pub struct SpecToken {
    pub ty: TokenType,
    pub lexeme: Seq<u8>,
    pub literal: Option<SpecLiteral>,
    pub line: nat,
}

/// One classified lexeme: its category, the bytes it was read from, the
/// literal payload if it is a string or number, and its 1-based source line.
#[derive(Debug, PartialEq, Eq)]
pub struct Token {
    pub ty: TokenType,
    pub lexeme: Vec<u8>,
    pub literal: Option<Literal>,
    pub line: usize,
}

pub open spec fn spec_literal_opt(l: Option<Literal>) -> Option<SpecLiteral> {
    match l {
        Some(lit) => Some(lit@),
        None => None,
    }
}

impl View for Token {
    type V = SpecToken;

    open spec fn view(&self) -> SpecToken {
        SpecToken {
            ty: self.ty,
            lexeme: self.lexeme@,
            literal: spec_literal_opt(self.literal),
            line: self.line as nat,
        }
    }
}

impl Token {
    pub fn new(ty: TokenType, lexeme: Vec<u8>, literal: Option<Literal>, line: usize) -> (t: Self)
        ensures
            t@ == (SpecToken {
                ty,
                lexeme: lexeme@,
                literal: spec_literal_opt(literal),
                line: line as nat,
            }),
    {
        Self { ty, lexeme, literal, line }
    }
}

impl Clone for Token {
    /// A clone models the same token.
    fn clone(&self) -> (r: Self)
        ensures
            r@ == self@,
    {
        let lexeme = self.lexeme.clone();
        assert(lexeme@ =~= self.lexeme@);
        let literal = match &self.literal {
            Some(l) => Some(l.clone()),
            None => None,
        };
        Token { ty: self.ty, lexeme, literal, line: self.line }
    }
}

} // verus!
