use vstd::prelude::*;
use crate::text::str_eq;

verus! {

/// The reserved words of Elo.
#[derive(Debug, Copy, Clone, PartialEq, Eq, Structural)]
pub enum Keyword {
    Var,
    Let,
    Const,
    Fn,
    Struct,
    Enum,
    If,
    Else,
    While,
    Return,
    Extern,
    True,
    False,
    Mut,
    As,
}

/// The keyword that a word denotes, if any (`ret` is a second spelling of `return`).
pub open spec fn keyword_of(s: Seq<char>) -> Option<Keyword> {
    if s == "var"@ {
        Some(Keyword::Var)
    } else if s == "let"@ {
        Some(Keyword::Let)
    } else if s == "const"@ {
        Some(Keyword::Const)
    } else if s == "fn"@ {
        Some(Keyword::Fn)
    } else if s == "struct"@ {
        Some(Keyword::Struct)
    } else if s == "enum"@ {
        Some(Keyword::Enum)
    } else if s == "if"@ {
        Some(Keyword::If)
    } else if s == "else"@ {
        Some(Keyword::Else)
    } else if s == "while"@ {
        Some(Keyword::While)
    } else if s == "return"@ {
        Some(Keyword::Return)
    } else if s == "ret"@ {
        Some(Keyword::Return)
    } else if s == "extern"@ {
        Some(Keyword::Extern)
    } else if s == "true"@ {
        Some(Keyword::True)
    } else if s == "false"@ {
        Some(Keyword::False)
    } else if s == "mut"@ {
        Some(Keyword::Mut)
    } else if s == "as"@ {
        Some(Keyword::As)
    } else {
        None
    }
}

/// The text with which a keyword is written.
pub open spec fn keyword_text(k: Keyword) -> Seq<char> {
    match k {
        Keyword::Var => "var"@,
        Keyword::Let => "let"@,
        Keyword::Const => "const"@,
        Keyword::Fn => "fn"@,
        Keyword::Struct => "struct"@,
        Keyword::Enum => "enum"@,
        Keyword::If => "if"@,
        Keyword::Else => "else"@,
        Keyword::While => "while"@,
        Keyword::Return => "return"@,
        Keyword::Extern => "extern"@,
        Keyword::True => "true"@,
        Keyword::False => "false"@,
        Keyword::Mut => "mut"@,
        Keyword::As => "as"@,
    }
}

/// What `{:?}` prints for a keyword: the name of its variant.
pub open spec fn keyword_debug(k: Keyword) -> Seq<char> {
    match k {
        Keyword::Var => "Var"@,
        Keyword::Let => "Let"@,
        Keyword::Const => "Const"@,
        Keyword::Fn => "Fn"@,
        Keyword::Struct => "Struct"@,
        Keyword::Enum => "Enum"@,
        Keyword::If => "If"@,
        Keyword::Else => "Else"@,
        Keyword::While => "While"@,
        Keyword::Return => "Return"@,
        Keyword::Extern => "Extern"@,
        Keyword::True => "True"@,
        Keyword::False => "False"@,
        Keyword::Mut => "Mut"@,
        Keyword::As => "As"@,
    }
}

impl Keyword {
    /// The keyword written as `s`, or `None` when `s` is not reserved.
    pub fn from_str(s: &str) -> (r: Option<Keyword>)
        ensures
            r == keyword_of(s@),
    {
        if str_eq(s, "var") {
            Some(Keyword::Var)
        } else if str_eq(s, "let") {
            Some(Keyword::Let)
        } else if str_eq(s, "const") {
            Some(Keyword::Const)
        } else if str_eq(s, "fn") {
            Some(Keyword::Fn)
        } else if str_eq(s, "struct") {
            Some(Keyword::Struct)
        } else if str_eq(s, "enum") {
            Some(Keyword::Enum)
        } else if str_eq(s, "if") {
            Some(Keyword::If)
        } else if str_eq(s, "else") {
            Some(Keyword::Else)
        } else if str_eq(s, "while") {
            Some(Keyword::While)
        } else if str_eq(s, "return") {
            Some(Keyword::Return)
        } else if str_eq(s, "ret") {
            Some(Keyword::Return)
        } else if str_eq(s, "extern") {
            Some(Keyword::Extern)
        } else if str_eq(s, "true") {
            Some(Keyword::True)
        } else if str_eq(s, "false") {
            Some(Keyword::False)
        } else if str_eq(s, "mut") {
            Some(Keyword::Mut)
        } else if str_eq(s, "as") {
            Some(Keyword::As)
        } else {
            None
        }
    }

    /// The name of the keyword's variant, as `{:?}` prints it.
    pub fn debug_name(&self) -> (r: &'static str)
        ensures
            r@ == keyword_debug(*self),
    {
        match self {
            Keyword::Var => "Var",
            Keyword::Let => "Let",
            Keyword::Const => "Const",
            Keyword::Fn => "Fn",
            Keyword::Struct => "Struct",
            Keyword::Enum => "Enum",
            Keyword::If => "If",
            Keyword::Else => "Else",
            Keyword::While => "While",
            Keyword::Return => "Return",
            Keyword::Extern => "Extern",
            Keyword::True => "True",
            Keyword::False => "False",
            Keyword::Mut => "Mut",
            Keyword::As => "As",
        }
    }

    /// The text of the keyword, as it is displayed.
    pub fn text(&self) -> (r: &'static str)
        ensures
            r@ == keyword_text(*self),
    {
        match self {
            Keyword::Var => "var",
            Keyword::Let => "let",
            Keyword::Const => "const",
            Keyword::Fn => "fn",
            Keyword::Struct => "struct",
            Keyword::Enum => "enum",
            Keyword::If => "if",
            Keyword::Else => "else",
            Keyword::While => "while",
            Keyword::Return => "return",
            Keyword::Extern => "extern",
            Keyword::True => "true",
            Keyword::False => "false",
            Keyword::Mut => "mut",
            Keyword::As => "as",
        }
    }
}

/// Reading back the text of any keyword gives that keyword again.
pub proof fn lemma_keyword_text_round_trip(k: Keyword)
    ensures
        keyword_of(keyword_text(k)) == Some(k),
{
    reveal_strlit("var");
    assert("var"@ =~= seq!['v', 'a', 'r']);
    reveal_strlit("let");
    assert("let"@ =~= seq!['l', 'e', 't']);
    reveal_strlit("const");
    assert("const"@ =~= seq!['c', 'o', 'n', 's', 't']);
    reveal_strlit("fn");
    assert("fn"@ =~= seq!['f', 'n']);
    reveal_strlit("struct");
    assert("struct"@ =~= seq!['s', 't', 'r', 'u', 'c', 't']);
    reveal_strlit("enum");
    assert("enum"@ =~= seq!['e', 'n', 'u', 'm']);
    reveal_strlit("if");
    assert("if"@ =~= seq!['i', 'f']);
    reveal_strlit("else");
    assert("else"@ =~= seq!['e', 'l', 's', 'e']);
    reveal_strlit("while");
    assert("while"@ =~= seq!['w', 'h', 'i', 'l', 'e']);
    reveal_strlit("return");
    assert("return"@ =~= seq!['r', 'e', 't', 'u', 'r', 'n']);
    reveal_strlit("ret");
    assert("ret"@ =~= seq!['r', 'e', 't']);
    reveal_strlit("extern");
    assert("extern"@ =~= seq!['e', 'x', 't', 'e', 'r', 'n']);
    reveal_strlit("true");
    assert("true"@ =~= seq!['t', 'r', 'u', 'e']);
    reveal_strlit("false");
    assert("false"@ =~= seq!['f', 'a', 'l', 's', 'e']);
    reveal_strlit("mut");
    assert("mut"@ =~= seq!['m', 'u', 't']);
    reveal_strlit("as");
    assert("as"@ =~= seq!['a', 's']);
}

} // verus!
