use vstd::prelude::*;
use crate::text::str_eq;

verus! {

/// A reserved word of Elo.
#[derive(Debug, Copy, Clone, PartialEq, Eq, Structural)]
pub enum Keyword {
    Var,
    Let,
    Const,
    Fn,
    Struct,
    Enum,
    If,
    Else,
    While,
    Return,
    Extern,
}

/// The keyword written as `s`, if it is reserved; `ret` is a second spelling of `return`.
pub open spec fn elo_keyword_of(s: Seq<char>) -> Option<Keyword> {
    if s == "var"@ {
        Some(Keyword::Var)
    } else if s == "let"@ {
        Some(Keyword::Let)
    } else if s == "const"@ {
        Some(Keyword::Const)
    } else if s == "fn"@ {
        Some(Keyword::Fn)
    } else if s == "struct"@ {
        Some(Keyword::Struct)
    } else if s == "enum"@ {
        Some(Keyword::Enum)
    } else if s == "if"@ {
        Some(Keyword::If)
    } else if s == "else"@ {
        Some(Keyword::Else)
    } else if s == "while"@ {
        Some(Keyword::While)
    } else if s == "return"@ || s == "ret"@ {
        Some(Keyword::Return)
    } else if s == "extern"@ {
        Some(Keyword::Extern)
    } else {
        None
    }
}

impl Keyword {
    /// The keyword written as `s`, or `None` when `s` is not reserved.
    pub fn from_str(s: &str) -> (r: Option<Keyword>)
        ensures
            r == elo_keyword_of(s@),
    {
        if str_eq(s, "var") {
            Some(Keyword::Var)
        } else if str_eq(s, "let") {
            Some(Keyword::Let)
        } else if str_eq(s, "const") {
            Some(Keyword::Const)
        } else if str_eq(s, "fn") {
            Some(Keyword::Fn)
        } else if str_eq(s, "struct") {
            Some(Keyword::Struct)
        } else if str_eq(s, "enum") {
            Some(Keyword::Enum)
        } else if str_eq(s, "if") {
            Some(Keyword::If)
        } else if str_eq(s, "else") {
            Some(Keyword::Else)
        } else if str_eq(s, "while") {
            Some(Keyword::While)
        } else if str_eq(s, "return") {
            Some(Keyword::Return)
        } else if str_eq(s, "ret") {
            Some(Keyword::Return)
        } else if str_eq(s, "extern") {
            Some(Keyword::Extern)
        } else {
            None
        }
    }
}

} // verus!
