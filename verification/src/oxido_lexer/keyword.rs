use vstd::prelude::*;
use crate::text::str_eq;

verus! {

/// A reserved word of Oxido.
#[derive(Debug, Copy, Clone, PartialEq, Eq, Structural)]
pub enum Keyword {
    Var,
    Let,
    Const,
    Fn,
    Struct,
    Enum,
}

/// The keyword written as `s`, if it is reserved.
pub open spec fn oxido_keyword_of(s: Seq<char>) -> Option<Keyword> {
    if s == "var"@ {
        Some(Keyword::Var)
    } else if s == "let"@ {
        Some(Keyword::Let)
    } else if s == "const"@ {
        Some(Keyword::Const)
    } else if s == "fn"@ {
        Some(Keyword::Fn)
    } else if s == "struct"@ {
        Some(Keyword::Struct)
    } else if s == "enum"@ {
        Some(Keyword::Enum)
    } else {
        None
    }
}

/// The text with which a keyword is written.
pub open spec fn oxido_keyword_text(k: Keyword) -> Seq<char> {
    match k {
        Keyword::Var => "var"@,
        Keyword::Let => "let"@,
        Keyword::Const => "const"@,
        Keyword::Fn => "fn"@,
        Keyword::Struct => "struct"@,
        Keyword::Enum => "enum"@,
    }
}

impl Keyword {
    /// The keyword written as `s`, or `None` when `s` is not reserved.
    pub fn from_str(s: &str) -> (r: Option<Keyword>)
        ensures
            r == oxido_keyword_of(s@),
    {
        if str_eq(s, "var") {
            Some(Keyword::Var)
        } else if str_eq(s, "let") {
            Some(Keyword::Let)
        } else if str_eq(s, "const") {
            Some(Keyword::Const)
        } else if str_eq(s, "fn") {
            Some(Keyword::Fn)
        } else if str_eq(s, "struct") {
            Some(Keyword::Struct)
        } else if str_eq(s, "enum") {
            Some(Keyword::Enum)
        } else {
            None
        }
    }

    /// The text with which the keyword is written.
    pub fn as_text(&self) -> (r: String)
        ensures
            r@ == oxido_keyword_text(*self),
    {
        match self {
            Keyword::Var => String::from_str("var"),
            Keyword::Let => String::from_str("let"),
            Keyword::Const => String::from_str("const"),
            Keyword::Fn => String::from_str("fn"),
            Keyword::Struct => String::from_str("struct"),
            Keyword::Enum => String::from_str("enum"),
        }
    }
}

/// Reading a keyword's text gives the keyword back.
pub proof fn lemma_oxido_keyword_round_trip(k: Keyword)
    ensures
        oxido_keyword_of(oxido_keyword_text(k)) == Some(k),
{
    reveal_strlit("var");
    assert("var"@ =~= seq!['v', 'a', 'r']);
    reveal_strlit("let");
    assert("let"@ =~= seq!['l', 'e', 't']);
    reveal_strlit("const");
    assert("const"@ =~= seq!['c', 'o', 'n', 's', 't']);
    reveal_strlit("fn");
    assert("fn"@ =~= seq!['f', 'n']);
    reveal_strlit("struct");
    assert("struct"@ =~= seq!['s', 't', 'r', 'u', 'c', 't']);
    reveal_strlit("enum");
    assert("enum"@ =~= seq!['e', 'n', 'u', 'm']);
}

} // verus!
