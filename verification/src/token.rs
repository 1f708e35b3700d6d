use vstd::prelude::*;
use crate::keyword::{Keyword, keyword_text};
use crate::span::Span;
use crate::text::push_char;

verus! {

/// The quoting of a string literal: `'static'`, `"dynamic"` or `c'c string'`.
#[derive(Debug, Eq, PartialEq, Clone, Copy, Structural)]
pub enum StringKind {
    Static,
    Dynamic,
    C,
}

/// A token of Elo source text.
#[derive(Debug, Clone, PartialEq, Eq)]
pub enum Token {
    /// if, else, while, ...
    Keyword(Keyword),
    /// any identifier
    Identifier(String),
    /// an integer literal, without its base prefix, and its base (2, 8, 10 or 16)
    Numeric(String, u32),
    /// `\n`
    Newline,
    /// an operator; the second character is that of a two-character operator such as `==`
    Op(char, Option<char>),
    /// ( ) [ ] { } . , ; :
    Delimiter(char),
    /// `'...'`, the escapes kept as written
    StrLiteral(String),
    /// `"..."`, the escapes kept as written
    StringLiteral(String),
    /// `c'...'`, the escapes kept as written
    CStrLiteral(String),
    /// a character literal between backticks, escapes resolved
    CharLiteral(String),
    /// `...`
    Variadic,
    /// any other character
    Unknown(char),
}

/// The mathematical value of a token.
pub ghost enum TokenV {
    Keyword(Keyword),
    Identifier(Seq<char>),
    Numeric(Seq<char>, u32),
    Newline,
    Op(char, Option<char>),
    Delimiter(char),
    StrLiteral(Seq<char>),
    StringLiteral(Seq<char>),
    CStrLiteral(Seq<char>),
    CharLiteral(Seq<char>),
    Variadic,
    Unknown(char),
}

impl View for Token {
    type V = TokenV;

    open spec fn view(&self) -> TokenV {
        match self {
            Token::Keyword(k) => TokenV::Keyword(*k),
            Token::Identifier(s) => TokenV::Identifier(s@),
            Token::Numeric(s, b) => TokenV::Numeric(s@, *b),
            Token::Newline => TokenV::Newline,
            Token::Op(a, b) => TokenV::Op(*a, *b),
            Token::Delimiter(c) => TokenV::Delimiter(*c),
            Token::StrLiteral(s) => TokenV::StrLiteral(s@),
            Token::StringLiteral(s) => TokenV::StringLiteral(s@),
            Token::CStrLiteral(s) => TokenV::CStrLiteral(s@),
            Token::CharLiteral(s) => TokenV::CharLiteral(s@),
            Token::Variadic => TokenV::Variadic,
            Token::Unknown(c) => TokenV::Unknown(*c),
        }
    }
}

/// The text with which a token is displayed.
pub open spec fn token_text(t: TokenV) -> Seq<char> {
    match t {
        TokenV::Keyword(k) => keyword_text(k),
        TokenV::Identifier(s) => s,
        TokenV::Numeric(s, _) => s,
        TokenV::Newline => "newline"@,
        TokenV::Op(a, b) => match b {
            Some(b) => seq![a, b],
            None => seq![a],
        },
        TokenV::Delimiter(d) => seq![d],
        TokenV::StrLiteral(s) => seq!['\''] + s + seq!['\''],
        TokenV::StringLiteral(s) => seq!['"'] + s + seq!['"'],
        TokenV::CStrLiteral(s) => seq!['c', '\''] + s + seq!['\''],
        TokenV::CharLiteral(s) => seq!['`'] + s + seq!['`'],
        TokenV::Variadic => "..."@,
        TokenV::Unknown(c) => seq![c],
    }
}

/// Quotes a text between two given characters, with an optional prefix.
fn quoted(prefix: &str, quote: char, s: &String) -> (r: String)
    ensures
        r@ == prefix@ + seq![quote] + s@ + seq![quote],
{
    let mut r = String::from_str(prefix);
    push_char(&mut r, quote);
    r.append(s.as_str());
    push_char(&mut r, quote);
    r
}

impl Token {
    /// The text with which the token is displayed.
    pub fn text(&self) -> (r: String)
        ensures
            r@ == token_text(self@),
    {
        match self {
            Token::Keyword(k) => String::from_str(k.text()),
            Token::Identifier(s) => s.clone(),
            Token::Numeric(s, _) => s.clone(),
            Token::Newline => String::from_str("newline"),
            Token::Op(a, b) => {
                let mut r = String::new();
                push_char(&mut r, *a);
                if let Some(b) = b {
                    push_char(&mut r, *b);
                }
                proof {
                    if b.is_some() {
                        assert(r@ =~= seq![*a, b.unwrap()]);
                    } else {
                        assert(r@ =~= seq![*a]);
                    }
                }
                r
            },
            Token::Delimiter(d) => {
                let mut r = String::new();
                push_char(&mut r, *d);
                assert(r@ =~= seq![*d]);
                r
            },
            Token::StrLiteral(s) => {
                let r = quoted("", '\'', s);
                proof {
                    reveal_strlit("");
                    assert(r@ =~= seq!['\''] + s@ + seq!['\'']);
                }
                r
            },
            Token::StringLiteral(s) => {
                let r = quoted("", '"', s);
                proof {
                    reveal_strlit("");
                    assert(r@ =~= seq!['"'] + s@ + seq!['"']);
                }
                r
            },
            Token::CStrLiteral(s) => {
                let r = quoted("c", '\'', s);
                proof {
                    reveal_strlit("c");
                    assert(r@ =~= seq!['c', '\''] + s@ + seq!['\'']);
                }
                r
            },
            Token::CharLiteral(s) => {
                let r = quoted("", '`', s);
                proof {
                    reveal_strlit("");
                    assert(r@ =~= seq!['`'] + s@ + seq!['`']);
                }
                r
            },
            Token::Variadic => String::from_str("..."),
            Token::Unknown(c) => {
                let mut r = String::new();
                push_char(&mut r, *c);
                assert(r@ =~= seq![*c]);
                r
            },
        }
    }

    /// An equal token.
    pub fn copy(&self) -> (r: Token)
        ensures
            r@ == self@,
    {
        match self {
            Token::Keyword(k) => Token::Keyword(*k),
            Token::Identifier(s) => Token::Identifier(s.clone()),
            Token::Numeric(s, b) => Token::Numeric(s.clone(), *b),
            Token::Newline => Token::Newline,
            Token::Op(a, b) => Token::Op(*a, *b),
            Token::Delimiter(c) => Token::Delimiter(*c),
            Token::StrLiteral(s) => Token::StrLiteral(s.clone()),
            Token::StringLiteral(s) => Token::StringLiteral(s.clone()),
            Token::CStrLiteral(s) => Token::CStrLiteral(s.clone()),
            Token::CharLiteral(s) => Token::CharLiteral(s.clone()),
            Token::Variadic => Token::Variadic,
            Token::Unknown(c) => Token::Unknown(*c),
        }
    }

    /// Whether two tokens are the same token.
    pub fn same(&self, other: &Token) -> (r: bool)
        ensures
            r == (self@ == other@),
    {
        match (self, other) {
            (Token::Keyword(a), Token::Keyword(b)) => *a == *b,
            (Token::Identifier(a), Token::Identifier(b)) => *a == *b,
            (Token::Numeric(a, x), Token::Numeric(b, y)) => *a == *b && *x == *y,
            (Token::Newline, Token::Newline) => true,
            (Token::Op(a, x), Token::Op(b, y)) => *a == *b && match (x, y) {
                (Some(c), Some(d)) => *c == *d,
                (None, None) => true,
                _ => false,
            },
            (Token::Delimiter(a), Token::Delimiter(b)) => *a == *b,
            (Token::StrLiteral(a), Token::StrLiteral(b)) => *a == *b,
            (Token::StringLiteral(a), Token::StringLiteral(b)) => *a == *b,
            (Token::CStrLiteral(a), Token::CStrLiteral(b)) => *a == *b,
            (Token::CharLiteral(a), Token::CharLiteral(b)) => *a == *b,
            (Token::Variadic, Token::Variadic) => true,
            (Token::Unknown(a), Token::Unknown(b)) => *a == *b,
            _ => false,
        }
    }
}

/// What `{:?}` prints for a string: the string between double quotes, escaped.
pub uninterp spec fn string_debug(s: Seq<char>) -> Seq<char>;

/// What `{:?}` prints for a character: the character between single quotes, escaped.
pub uninterp spec fn char_debug(c: char) -> Seq<char>;

/// The debug text of a string.
///
/// Trusted: formats the string with std's `Debug` for `str`, which quotes it and escapes
/// it; that text depends on the string alone and is named `string_debug`.
#[verifier::external_body]
fn string_debug_text(s: &str) -> (r: String)
    ensures
        r@ == string_debug(s@),
{
    format!("{:?}", s)
}

/// The debug text of a character.
///
/// Trusted: formats the character with std's `Debug` for `char`, which quotes it and
/// escapes it; that text depends on the character alone and is named `char_debug`.
#[verifier::external_body]
fn char_debug_text(c: char) -> (r: String)
    ensures
        r@ == char_debug(c),
{
    format!("{:?}", c)
}

/// The text that `{:?}` prints for a token: the variant's name and, in brackets, its
/// fields as `Debug` prints them.
pub open spec fn token_debug(t: TokenV) -> Seq<char> {
    match t {
        TokenV::Keyword(k) => "Keyword("@ + crate::keyword::keyword_debug(k) + ")"@,
        TokenV::Identifier(s) => "Identifier("@ + string_debug(s) + ")"@,
        TokenV::Numeric(s, b) => "Numeric("@ + string_debug(s) + ", "@ + crate::text::decimal_text(b as nat) + ")"@,
        TokenV::Newline => "Newline"@,
        TokenV::Op(c, None) => "Op("@ + char_debug(c) + ", None)"@,
        TokenV::Op(c, Some(d)) => "Op("@ + char_debug(c) + ", Some("@ + char_debug(d) + "))"@,
        TokenV::Delimiter(c) => "Delimiter("@ + char_debug(c) + ")"@,
        TokenV::StrLiteral(s) => "StrLiteral("@ + string_debug(s) + ")"@,
        TokenV::StringLiteral(s) => "StringLiteral("@ + string_debug(s) + ")"@,
        TokenV::CStrLiteral(s) => "CStrLiteral("@ + string_debug(s) + ")"@,
        TokenV::CharLiteral(s) => "CharLiteral("@ + string_debug(s) + ")"@,
        TokenV::Variadic => "Variadic"@,
        TokenV::Unknown(c) => "Unknown("@ + char_debug(c) + ")"@,
    }
}

/// `head`, the text, then `tail`.
fn wrapped(head: &str, text: String, tail: &str) -> (r: String)
    ensures
        r@ == head@ + text@ + tail@,
{
    let mut r = String::from_str(head);
    r.append(text.as_str());
    r.append(tail);
    r
}

/// The text that `{:?}` prints for a token, as error messages quote it.
pub fn debug_text(t: &Token) -> (r: String)
    ensures
        r@ == token_debug(t@),
{
    match t {
        Token::Keyword(k) => {
            let r = wrapped("Keyword(", String::from_str(k.debug_name()), ")");
            proof {
                reveal_strlit("Keyword(");
                reveal_strlit(")");
            }
            r
        },
        Token::Identifier(s) => {
            let r = wrapped("Identifier(", string_debug_text(s.as_str()), ")");
            proof {
                reveal_strlit("Identifier(");
                reveal_strlit(")");
            }
            r
        },
        Token::Numeric(s, b) => {
            let mut inner = string_debug_text(s.as_str());
            inner.append(", ");
            let digits = crate::text::decimal(*b as usize);
            inner.append(digits.as_str());
            let r = wrapped("Numeric(", inner, ")");
            proof {
                reveal_strlit("Numeric(");
                reveal_strlit(", ");
                reveal_strlit(")");
            }
            r
        },
        Token::Newline => {
            let r = String::from_str("Newline");
            proof {
                reveal_strlit("Newline");
            }
            r
        },
        Token::Op(c, o) => {
            let mut inner = char_debug_text(*c);
            match o {
                Some(d) => {
                    inner.append(", Some(");
                    let dd = char_debug_text(*d);
                    inner.append(dd.as_str());
                    inner.append("))");
                    let mut r = String::from_str("Op(");
                    r.append(inner.as_str());
                    proof {
                        reveal_strlit("Op(");
                        reveal_strlit(", Some(");
                        reveal_strlit("))");
                    }
                    r
                },
                None => {
                    let r = wrapped("Op(", inner, ", None)");
                    proof {
                        reveal_strlit("Op(");
                        reveal_strlit(", None)");
                    }
                    r
                },
            }
        },
        Token::Delimiter(c) => {
            let r = wrapped("Delimiter(", char_debug_text(*c), ")");
            proof {
                reveal_strlit("Delimiter(");
                reveal_strlit(")");
            }
            r
        },
        Token::StrLiteral(s) => {
            let r = wrapped("StrLiteral(", string_debug_text(s.as_str()), ")");
            proof {
                reveal_strlit("StrLiteral(");
                reveal_strlit(")");
            }
            r
        },
        Token::StringLiteral(s) => {
            let r = wrapped("StringLiteral(", string_debug_text(s.as_str()), ")");
            proof {
                reveal_strlit("StringLiteral(");
                reveal_strlit(")");
            }
            r
        },
        Token::CStrLiteral(s) => {
            let r = wrapped("CStrLiteral(", string_debug_text(s.as_str()), ")");
            proof {
                reveal_strlit("CStrLiteral(");
                reveal_strlit(")");
            }
            r
        },
        Token::CharLiteral(s) => {
            let r = wrapped("CharLiteral(", string_debug_text(s.as_str()), ")");
            proof {
                reveal_strlit("CharLiteral(");
                reveal_strlit(")");
            }
            r
        },
        Token::Variadic => {
            let r = String::from_str("Variadic");
            proof {
                reveal_strlit("Variadic");
            }
            r
        },
        Token::Unknown(c) => {
            let r = wrapped("Unknown(", char_debug_text(*c), ")");
            proof {
                reveal_strlit("Unknown(");
                reveal_strlit(")");
            }
            r
        },
    }
}

/// A token and where it stands.
#[derive(Debug, Clone, PartialEq, Eq)]
pub struct Lexem {
    pub span: Span,
    pub token: Token,
}

impl Lexem {
    /// An equal lexem.
    pub fn copy(&self) -> (r: Lexem)
        ensures
            r.span == self.span,
            r.token@ == self.token@,
    {
        Lexem { span: self.span, token: self.token.copy() }
    }

    pub fn new(span: Span, token: Token) -> (r: Lexem)
        ensures
            r.span == span,
            r.token == token,
    {
        Lexem { span, token }
    }
}

} // verus!
