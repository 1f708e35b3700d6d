use vstd::prelude::*;
use crate::elo_lexer::keyword::Keyword;

verus! {

/// A token of Elo source text.
#[derive(Debug, PartialEq, Eq)]
pub enum Token {
    /// a reserved word
    Keyword(Keyword),
    /// any other word
    Identifier(String),
    /// the digits of an integer literal, without their prefix, and its radix
    Numeric(String, u32),
    /// `\n`
    Newline,
    /// an operator; the second character is that of a two-character operator such as `==`
    Op(char, Option<char>),
    /// ( ) [ ] { } . , ; :
    Delimiter(char),
    /// `"..."`, without its quotes
    StringLiteral(String),
    /// any other character
    Unknown(char),
}

/// The mathematical value of a token.
pub ghost enum TokV {
    Keyword(Keyword),
    Identifier(Seq<char>),
    Numeric(Seq<char>, u32),
    Newline,
    Op(char, Option<char>),
    Delimiter(char),
    StringLiteral(Seq<char>),
    Unknown(char),
}

impl View for Token {
    type V = TokV;

    open spec fn view(&self) -> TokV {
        match self {
            Token::Keyword(k) => TokV::Keyword(*k),
            Token::Identifier(s) => TokV::Identifier(s@),
            Token::Numeric(s, r) => TokV::Numeric(s@, *r),
            Token::Newline => TokV::Newline,
            Token::Op(a, b) => TokV::Op(*a, *b),
            Token::Delimiter(c) => TokV::Delimiter(*c),
            Token::StringLiteral(s) => TokV::StringLiteral(s@),
            Token::Unknown(c) => TokV::Unknown(*c),
        }
    }
}

} // verus!
