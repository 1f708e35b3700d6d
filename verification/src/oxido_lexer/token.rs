use vstd::prelude::*;

verus! {

/// A token of Oxido source text.
#[derive(Debug, PartialEq, Eq)]
pub enum Token {
    /// a reserved word, as written
    Keyword(String),
    /// any identifier
    Identifier(String),
    /// a number literal, as written
    Numeric(String),
    /// `\n`
    Newline,
    /// an operator; the second character is that of a two-character operator such as `==`
    Op(char, Option<char>),
    /// ( ) [ ] { } . , ; :
    Delimiter(char),
    /// `"..."`, without its quotes
    StringLiteral(String),
    /// any other character
    Unknown(char),
}

/// The mathematical value of a token.
pub ghost enum OxTokenV {
    Keyword(Seq<char>),
    Identifier(Seq<char>),
    Numeric(Seq<char>),
    Newline,
    Op(char, Option<char>),
    Delimiter(char),
    StringLiteral(Seq<char>),
    Unknown(char),
}

impl View for Token {
    type V = OxTokenV;

    open spec fn view(&self) -> OxTokenV {
        match self {
            Token::Keyword(s) => OxTokenV::Keyword(s@),
            Token::Identifier(s) => OxTokenV::Identifier(s@),
            Token::Numeric(s) => OxTokenV::Numeric(s@),
            Token::Newline => OxTokenV::Newline,
            Token::Op(a, b) => OxTokenV::Op(*a, *b),
            Token::Delimiter(c) => OxTokenV::Delimiter(*c),
            Token::StringLiteral(s) => OxTokenV::StringLiteral(s@),
            Token::Unknown(c) => OxTokenV::Unknown(*c),
        }
    }
}

} // verus!
