use vstd::prelude::*;
use crate::oxido::word::Word;

verus! {

/// A token of the Oxido lexer.
#[derive(Debug, Clone, PartialEq)]
pub enum Token {
    /// any identifier
    Alphabetic(Word),
    /// any number literal
    Number(Word),
    /// ,
    Comma,
    /// \n
    Newline,
    /// +, -, *, /, ==, etc
    Op(char),
    /// (, ), [, ], {, }, ., etc
    Delimiter(char),
    /// "foo", "bar", "hello"
    StringLiteral(String),
    /// ' ', '\t', '\r', etc
    Whitespace(char),
    Unknown(char),
}

} // verus!
