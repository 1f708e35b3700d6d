use vstd::prelude::*;
use crate::keyword::{Keyword, keyword_of};
use crate::span::{FileSpan, InputFile, Span};
use crate::text::{chars_of, push_char, string_of};
use crate::token::{Lexem, StringKind, Token, TokenV};

verus! {

/// A class of characters that the lexer reads in runs.
#[derive(Debug, Copy, Clone, PartialEq, Eq, Structural)]
pub enum CharClass {
    /// letters, digits and `_`
    Identifier,
    /// decimal digits and `_`
    Decimal,
    /// `0`, `1` and `_`
    Binary,
    /// octal digits and `_`
    Octal,
    /// hexadecimal digits (either case) and `_`
    Hex,
    /// anything but a newline
    NotNewline,
}

pub open spec fn is_digit(c: char) -> bool {
    '0' <= c <= '9'
}

pub open spec fn is_letter(c: char) -> bool {
    ('a' <= c <= 'z') || ('A' <= c <= 'Z')
}

pub open spec fn in_class(c: char, k: CharClass) -> bool {
    match k {
        CharClass::Identifier => is_letter(c) || is_digit(c) || c == '_',
        CharClass::Decimal => is_digit(c) || c == '_',
        CharClass::Binary => c == '0' || c == '1' || c == '_',
        CharClass::Octal => ('0' <= c <= '7') || c == '_',
        CharClass::Hex => is_digit(c) || c == '_' || ('a' <= c <= 'f') || ('A' <= c <= 'F'),
        CharClass::NotNewline => c != '\n',
    }
}

fn char_in_class(c: char, k: CharClass) -> (r: bool)
    ensures
        r == in_class(c, k),
{
    match k {
        CharClass::Identifier => ('a' <= c && c <= 'z') || ('A' <= c && c <= 'Z') || ('0' <= c
            && c <= '9') || c == '_',
        CharClass::Decimal => ('0' <= c && c <= '9') || c == '_',
        CharClass::Binary => c == '0' || c == '1' || c == '_',
        CharClass::Octal => ('0' <= c && c <= '7') || c == '_',
        CharClass::Hex => ('0' <= c && c <= '9') || c == '_' || ('a' <= c && c <= 'f') || ('A'
            <= c && c <= 'F'),
        CharClass::NotNewline => c != '\n',
    }
}

pub open spec fn is_whitespace(c: char) -> bool {
    c == ' ' || c == '\r' || c == '\t' || c == '\x0b' || c == '\x0c'
}

pub open spec fn is_delimiter(c: char) -> bool {
    c == '(' || c == ')' || c == '[' || c == ']' || c == '{' || c == '}' || c == '.' || c == ','
        || c == ';' || c == ':'
}

pub open spec fn is_op_char(c: char) -> bool {
    c == '+' || c == '-' || c == '/' || c == '*' || c == '%' || c == '!' || c == '>' || c == '<'
        || c == '&' || c == '|' || c == '^' || c == '~' || c == '='
}

/// The operators written with two characters.
pub open spec fn is_two_char_op(a: char, b: char) -> bool {
    (b == '=' && (a == '+' || a == '-' || a == '/' || a == '*' || a == '%' || a == '&' || a == '|'
        || a == '^' || a == '~' || a == '>' || a == '<' || a == '!' || a == '=')) || (a == '&' && b
        == '&') || (a == '|' && b == '|') || (a == '>' && b == '>') || (a == '<' && b == '<') || (a
        == '=' && b == '>')
}

/// Every binary operator written with two characters is read as one token.
pub proof fn law_two_char_binops_are_one_token(op: crate::ast::BinaryOperation)
    requires
        crate::ast::binop_text(op).len() == 2,
    ensures
        is_two_char_op(crate::ast::binop_text(op)[0], crate::ast::binop_text(op)[1]),
{
}

/// The pairs read as one token are the binary operators of two characters, `=>` and `~=`,
/// and nothing else.
pub proof fn law_two_char_ops_are_operators(a: char, b: char)
    ensures
        is_two_char_op(a, b) <==> (crate::ast::binop_of_pair(a, b) is Some || (a == '=' && b == '>') || (a == '~' && b == '=')),
{
}

/// Every character of a binary operator is an operator character, so that operators are
/// read as operator tokens.
pub proof fn law_binop_chars_are_op_chars(op: crate::ast::BinaryOperation, i: int)
    requires
        0 <= i < crate::ast::binop_text(op).len(),
    ensures
        is_op_char(crate::ast::binop_text(op)[i]),
{
}

/// The character that an escape `\c` stands for.
pub open spec fn unescaped(c: char) -> char {
    if c == 'n' {
        '\n'
    } else if c == 'r' {
        '\r'
    } else if c == 't' {
        '\t'
    } else if c == 'v' {
        '\x0B'
    } else if c == 'f' {
        '\x0C'
    } else {
        c
    }
}

fn unescape(escape_char: char) -> (r: char)
    ensures
        r == unescaped(escape_char),
{
    match escape_char {
        'n' => '\n',
        'r' => '\r',
        't' => '\t',
        'v' => '\x0B',
        'f' => '\x0C',
        other => other,
    }
}

fn is_two_char_operator(a: char, b: char) -> (r: bool)
    ensures
        r == is_two_char_op(a, b),
{
    (b == '=' && (a == '+' || a == '-' || a == '/' || a == '*' || a == '%' || a == '&' || a == '|'
        || a == '^' || a == '~' || a == '>' || a == '<' || a == '!' || a == '=')) || (a == '&' && b
        == '&') || (a == '|' && b == '|') || (a == '>' && b == '>') || (a == '<' && b == '<') || (a
        == '=' && b == '>')
}

fn is_op(c: char) -> (r: bool)
    ensures
        r == is_op_char(c),
{
    c == '+' || c == '-' || c == '/' || c == '*' || c == '%' || c == '!' || c == '>' || c == '<'
        || c == '&' || c == '|' || c == '^' || c == '~' || c == '='
}

fn is_delim(c: char) -> (r: bool)
    ensures
        r == is_delimiter(c),
{
    c == '(' || c == ')' || c == '[' || c == ']' || c == '{' || c == '}' || c == '.' || c == ','
        || c == ';' || c == ':'
}

/// The index after the longest run of characters of class `k` that starts at `i`.
pub open spec fn run_end(s: Seq<char>, i: int, k: CharClass) -> int
    decreases s.len() - i,
{
    if 0 <= i < s.len() && in_class(s[i], k) {
        run_end(s, i + 1, k)
    } else {
        i
    }
}

pub proof fn lemma_run_end_bounds(s: Seq<char>, i: int, k: CharClass)
    requires
        0 <= i,
    ensures
        i <= run_end(s, i, k),
        i <= s.len() ==> run_end(s, i, k) <= s.len(),
        forall|j: int| i <= j < run_end(s, i, k) ==> #[trigger] in_class(s[j], k),
        0 <= run_end(s, i, k) < s.len() ==> !in_class(s[run_end(s, i, k)], k),
    decreases s.len() - i,
{
    if 0 <= i < s.len() && in_class(s[i], k) {
        lemma_run_end_bounds(s, i + 1, k);
    }
}

/// The body of a string literal that starts at `i` (after its opening quote) and is
/// closed by `quote`, with escapes kept as written, and the index after the literal.
pub open spec fn string_scan(s: Seq<char>, i: int, quote: char) -> (Seq<char>, int)
    decreases s.len() - i,
{
    if i < 0 || i >= s.len() {
        (Seq::empty(), i)
    } else if s[i] == quote {
        (Seq::empty(), i + 1)
    } else if s[i] == '\\' && i + 1 < s.len() {
        let (b, e) = string_scan(s, i + 2, quote);
        (seq!['\\', s[i + 1]] + b, e)
    } else {
        let (b, e) = string_scan(s, i + 1, quote);
        (seq![s[i]] + b, e)
    }
}

/// The content of a character literal that starts at `i` (after its opening backtick),
/// escapes resolved, the index after it, and whether a closing backtick was found.
pub open spec fn char_scan(s: Seq<char>, i: int) -> (Seq<char>, int, bool)
    decreases s.len() - i,
{
    if i < 0 || i >= s.len() {
        (Seq::empty(), i, false)
    } else if s[i] == '`' {
        (Seq::empty(), i + 1, true)
    } else if s[i] == '\\' {
        if i + 1 < s.len() {
            let (b, e, c) = char_scan(s, i + 2);
            (seq![unescaped(s[i + 1])] + b, e, c)
        } else {
            let (b, e, c) = char_scan(s, i + 1);
            (seq![unescaped('\\')] + b, e, c)
        }
    } else {
        let (b, e, c) = char_scan(s, i + 1);
        (seq![s[i]] + b, e, c)
    }
}

/// Where the lexer stands: the next character to read and the current span.
pub ghost struct LexState {
    pub pos: int,
    pub line: int,
    pub start: int,
    pub end: int,
}

/// The state after a token that took the characters `[from, to)` of the current line.
pub open spec fn after_token(st: LexState, to: int) -> LexState {
    LexState { pos: to, line: st.line, start: st.end, end: st.end + (to - st.pos) }
}

/// A word: a keyword when it is reserved, otherwise an identifier.
pub open spec fn word_token(w: Seq<char>) -> TokenV {
    match keyword_of(w) {
        Some(k) => TokenV::Keyword(k),
        None => TokenV::Identifier(w),
    }
}

pub open spec fn string_token(kind: StringKind, body: Seq<char>) -> TokenV {
    match kind {
        StringKind::Static => TokenV::StrLiteral(body),
        StringKind::Dynamic => TokenV::StringLiteral(body),
        StringKind::C => TokenV::CStrLiteral(body),
    }
}

pub open spec fn closing_quote(kind: StringKind) -> char {
    match kind {
        StringKind::Dynamic => '"',
        _ => '\'',
    }
}

/// A string literal whose body starts at `i`; `st.pos` is where its first quote or prefix stands.
pub open spec fn lex_string(s: Seq<char>, st: LexState, i: int, kind: StringKind) -> (TokenV, LexState) {
    let (body, e) = string_scan(s, i, closing_quote(kind));
    (string_token(kind, body), after_token(st, e))
}

pub open spec fn lex_numeric(s: Seq<char>, st: LexState) -> (TokenV, LexState) {
    let pos = st.pos;
    let ch = s[pos];
    let peek = if pos + 1 < s.len() { Some(s[pos + 1]) } else { None };
    if ch == '0' && (peek == Some('b') || peek == Some('o') || peek == Some('x')) {
        let (k, base) = if peek == Some('b') {
            (CharClass::Binary, 2u32)
        } else if peek == Some('o') {
            (CharClass::Octal, 8u32)
        } else {
            (CharClass::Hex, 16u32)
        };
        let e = run_end(s, pos + 2, k);
        (TokenV::Numeric(s.subrange(pos + 2, e), base), after_token(st, e))
    } else if ch == '0' {
        (TokenV::Numeric(seq!['0'], 10), after_token(st, pos + 1))
    } else {
        let e = run_end(s, pos + 1, CharClass::Decimal);
        (TokenV::Numeric(s.subrange(pos, e), 10), after_token(st, e))
    }
}

pub open spec fn lex_op(s: Seq<char>, st: LexState) -> (TokenV, LexState) {
    let pos = st.pos;
    let ch = s[pos];
    if pos + 1 < s.len() && is_two_char_op(ch, s[pos + 1]) {
        (TokenV::Op(ch, Some(s[pos + 1])), after_token(st, pos + 2))
    } else {
        (TokenV::Op(ch, None), after_token(st, pos + 1))
    }
}

pub open spec fn lex_delimiter(s: Seq<char>, st: LexState) -> (TokenV, LexState) {
    let pos = st.pos;
    let ch = s[pos];
    if ch == '.' && pos + 1 < s.len() && s[pos + 1] == '.' {
        if pos + 2 < s.len() && s[pos + 2] == '.' {
            (TokenV::Variadic, after_token(st, pos + 3))
        } else {
            (TokenV::Delimiter('.'), after_token(st, pos + 2))
        }
    } else {
        (TokenV::Delimiter(ch), after_token(st, pos + 1))
    }
}

/// The next token of `s` from state `st` and the state after it; `None` at the end of the text.
/// Whitespace is skipped, and so are comments, from `//` to the end of the line, the
/// newline included.
pub open spec fn lex_next(s: Seq<char>, st: LexState) -> Option<(TokenV, LexState)>
    decreases s.len() - st.pos,
{
    if st.pos < 0 || st.pos >= s.len() {
        None
    } else {
        let pos = st.pos;
        let ch = s[pos];
        let peek = if pos + 1 < s.len() { Some(s[pos + 1]) } else { None };
        if ch == 'c' && peek == Some('\'') {
            Some(lex_string(s, st, pos + 2, StringKind::C))
        } else if ch == '\'' {
            Some(lex_string(s, st, pos + 1, StringKind::Static))
        } else if ch == '"' {
            Some(lex_string(s, st, pos + 1, StringKind::Dynamic))
        } else if ch == '`' {
            let (body, e, closed) = char_scan(s, pos + 1);
            let st2 = after_token(st, e);
            Some(
                (
                    TokenV::CharLiteral(body),
                    LexState { end: st2.end + if closed { 0int } else { 1int }, ..st2 },
                ),
            )
        } else if ch == '/' && peek == Some('/') {
            let e = run_end(s, pos + 1, CharClass::NotNewline);
            proof {
                lemma_run_end_bounds(s, pos + 1, CharClass::NotNewline);
            }
            if e < s.len() {
                lex_next(s, LexState { pos: e + 1, line: st.line + 1, start: 1, end: 1 })
            } else {
                lex_next(s, LexState { pos: e, ..st })
            }
        } else if ch == '\n' {
            Some((TokenV::Newline, LexState { pos: pos + 1, line: st.line + 1, start: 1, end: 1 }))
        } else if is_whitespace(ch) {
            lex_next(s, LexState { pos: pos + 1, start: st.end, end: st.end + 1, ..st })
        } else if is_letter(ch) || ch == '_' {
            let e = run_end(s, pos + 1, CharClass::Identifier);
            Some((word_token(s.subrange(pos, e)), after_token(st, e)))
        } else if is_digit(ch) {
            Some(lex_numeric(s, st))
        } else if is_op_char(ch) {
            Some(lex_op(s, st))
        } else if is_delimiter(ch) {
            Some(lex_delimiter(s, st))
        } else {
            Some((TokenV::Unknown(ch), after_token(st, pos + 1)))
        }
    }
}

proof fn lemma_string_scan_bounds(s: Seq<char>, i: int, quote: char)
    requires
        0 <= i <= s.len(),
    ensures
        i <= string_scan(s, i, quote).1 <= s.len(),
        i < s.len() ==> i < string_scan(s, i, quote).1,
    decreases s.len() - i,
{
    if i < s.len() && s[i] != quote {
        if s[i] == '\\' && i + 1 < s.len() {
            lemma_string_scan_bounds(s, i + 2, quote);
        } else {
            lemma_string_scan_bounds(s, i + 1, quote);
        }
    }
}

proof fn lemma_char_scan_bounds(s: Seq<char>, i: int)
    requires
        0 <= i <= s.len(),
    ensures
        i <= char_scan(s, i).1 <= s.len(),
        i < s.len() ==> i < char_scan(s, i).1,
        !char_scan(s, i).2 ==> char_scan(s, i).1 == s.len(),
    decreases s.len() - i,
{
    if i < s.len() && s[i] != '`' {
        if s[i] == '\\' && i + 1 < s.len() {
            lemma_char_scan_bounds(s, i + 2);
        } else {
            lemma_char_scan_bounds(s, i + 1);
        }
    }
}

/// Each lexem is at least one character long, and lexing never passes the end of the text.
pub proof fn lemma_lex_next_progress(s: Seq<char>, st: LexState)
    requires
        0 <= st.pos,
    ensures
        lex_next(s, st) matches Some((_, st2)) ==> st.pos < st2.pos <= s.len(),
    decreases s.len() - st.pos,
{
    if 0 <= st.pos < s.len() {
        let pos = st.pos;
        let ch = s[pos];
        let peek = if pos + 1 < s.len() { Some(s[pos + 1]) } else { None };
        if ch == 'c' && peek == Some('\'') {
            lemma_string_scan_bounds(s, pos + 2, '\'');
        } else if ch == '\'' {
            lemma_string_scan_bounds(s, pos + 1, '\'');
        } else if ch == '"' {
            lemma_string_scan_bounds(s, pos + 1, '"');
        } else if ch == '`' {
            lemma_char_scan_bounds(s, pos + 1);
        } else if ch == '/' && peek == Some('/') {
            lemma_run_end_bounds(s, pos + 1, CharClass::NotNewline);
            let e = run_end(s, pos + 1, CharClass::NotNewline);
            if e < s.len() {
                lemma_lex_next_progress(s, LexState { pos: e + 1, line: st.line + 1, start: 1, end: 1 });
            } else {
                lemma_lex_next_progress(s, LexState { pos: e, ..st });
            }
        } else if ch == '\n' {
        } else if is_whitespace(ch) {
            lemma_lex_next_progress(s, LexState { pos: pos + 1, start: st.end, end: st.end + 1, ..st });
        } else if is_letter(ch) || ch == '_' {
            lemma_run_end_bounds(s, pos + 1, CharClass::Identifier);
        } else if is_digit(ch) {
            lemma_run_end_bounds(s, pos + 1, CharClass::Decimal);
            lemma_run_end_bounds(s, pos + 2, CharClass::Binary);
            lemma_run_end_bounds(s, pos + 2, CharClass::Octal);
            lemma_run_end_bounds(s, pos + 2, CharClass::Hex);
        }
    }
}

/// The value of a lexem: its token's value and its span.
pub open spec fn lexem_view(l: Lexem) -> (TokenV, Span) {
    (l.token@, l.span)
}

/// The span that a lexem produced in state `st` carries.
pub open spec fn state_span(st: LexState) -> Span {
    Span { line: st.line as usize, start: st.start as usize, end: st.end as usize }
}

/// All the lexems of `s` from state `st`, in order.
pub open spec fn lex_all(s: Seq<char>, st: LexState) -> Seq<(TokenV, Span)>
    decreases s.len() - st.pos,
{
    match lex_next(s, st) {
        None => Seq::empty(),
        Some((t, st2)) => if st.pos < st2.pos <= s.len() {
            seq![(t, state_span(st2))] + lex_all(s, st2)
        } else {
            Seq::empty()
        },
    }
}

/// The state in which lexing a file starts.
pub open spec fn initial_state() -> LexState {
    LexState { pos: 0, line: 1, start: 0, end: 0 }
}

/// The lexems of a whole text.
pub open spec fn lexems_of(s: Seq<char>) -> Seq<(TokenV, Span)> {
    lex_all(s, initial_state())
}

/// The class of the digits of a number written in `base`.
pub open spec fn digit_class(base: u32) -> CharClass {
    if base == 2 {
        CharClass::Binary
    } else if base == 8 {
        CharClass::Octal
    } else if base == 16 {
        CharClass::Hex
    } else {
        CharClass::Decimal
    }
}

/// What every token that the lexer produces satisfies: an identifier is a nonempty word of
/// identifier characters that is not a keyword, and a number is written with the digits of
/// its base, which is 2, 8, 10 or 16.
pub open spec fn token_well_formed(t: TokenV) -> bool {
    match t {
        TokenV::Identifier(w) => {
            &&& keyword_of(w) is None
            &&& w.len() > 0
            &&& !is_digit(w[0])
            &&& forall|i: int| 0 <= i < w.len() ==> #[trigger] in_class(w[i], CharClass::Identifier)
        },
        TokenV::Numeric(d, base) => {
            &&& (base == 2 || base == 8 || base == 10 || base == 16)
            &&& forall|i: int| 0 <= i < d.len() ==> #[trigger] in_class(d[i], digit_class(base))
        },
        _ => true,
    }
}

proof fn lemma_lex_next_well_formed(s: Seq<char>, st: LexState)
    requires
        0 <= st.pos,
    ensures
        lex_next(s, st) matches Some((t, _)) ==> token_well_formed(t),
    decreases s.len() - st.pos,
{
    if 0 <= st.pos < s.len() {
        let pos = st.pos;
        let ch = s[pos];
        let peek = if pos + 1 < s.len() { Some(s[pos + 1]) } else { None };
        if ch == 'c' && peek == Some('\'') {
            lemma_string_scan_bounds(s, pos + 2, '\'');
        } else if ch == '\'' {
            lemma_string_scan_bounds(s, pos + 1, '\'');
        } else if ch == '"' {
            lemma_string_scan_bounds(s, pos + 1, '"');
        } else if ch == '`' {
            lemma_char_scan_bounds(s, pos + 1);
        } else if ch == '/' && peek == Some('/') {
            lemma_run_end_bounds(s, pos + 1, CharClass::NotNewline);
            let e = run_end(s, pos + 1, CharClass::NotNewline);
            if e < s.len() {
                lemma_lex_next_well_formed(s, LexState { pos: e + 1, line: st.line + 1, start: 1, end: 1 });
            } else {
                lemma_lex_next_well_formed(s, LexState { pos: e, ..st });
            }
        } else if ch == '\n' {
        } else if is_whitespace(ch) {
            lemma_lex_next_well_formed(s, LexState { pos: pos + 1, start: st.end, end: st.end + 1, ..st });
        } else if is_letter(ch) || ch == '_' {
            lemma_run_end_bounds(s, pos + 1, CharClass::Identifier);
            let e = run_end(s, pos + 1, CharClass::Identifier);
            let w = s.subrange(pos, e);
            assert forall|i: int| 0 <= i < w.len() implies #[trigger] in_class(w[i], CharClass::Identifier) by {
                if i > 0 {
                    assert(w[i] == s[pos + i]);
                }
            }
        } else if is_digit(ch) {
            lemma_run_end_bounds(s, pos + 1, CharClass::Decimal);
            lemma_run_end_bounds(s, pos + 2, CharClass::Binary);
            lemma_run_end_bounds(s, pos + 2, CharClass::Octal);
            lemma_run_end_bounds(s, pos + 2, CharClass::Hex);
            let e = run_end(s, pos + 1, CharClass::Decimal);
            let d = s.subrange(pos, e);
            assert forall|i: int| 0 <= i < d.len() implies #[trigger] in_class(d[i], CharClass::Decimal) by {
                if i > 0 {
                    assert(d[i] == s[pos + i]);
                }
            }
            let (t, _) = lex_numeric(s, st);
            if let TokenV::Numeric(d2, base) = t {
                assert forall|i: int| 0 <= i < d2.len() implies #[trigger] in_class(d2[i], digit_class(base)) by {
                    if ch == '0' && !(peek == Some('b') || peek == Some('o') || peek == Some('x')) {
                        assert(d2 =~= seq!['0']);
                    }
                }
            }
        }
    }
}

/// Every lexem of a text carries a well-formed token.
pub proof fn lemma_lexems_well_formed(s: Seq<char>, st: LexState)
    requires
        0 <= st.pos,
    ensures
        forall|i: int| 0 <= i < lex_all(s, st).len() ==> token_well_formed(#[trigger] lex_all(s, st)[i].0),
    decreases s.len() - st.pos,
{
    lemma_lex_next_well_formed(s, st);
    match lex_next(s, st) {
        None => {},
        Some((t, st2)) => {
            if st.pos < st2.pos <= s.len() {
                lemma_lexems_well_formed(s, st2);
                let rest = lex_all(s, st2);
                assert forall|i: int| 0 <= i < lex_all(s, st).len() implies token_well_formed(#[trigger] lex_all(s, st)[i].0) by {
                    if i > 0 {
                        assert(lex_all(s, st)[i] == rest[i - 1]);
                    }
                }
            }
        },
    }
}

/// Reads Elo source text into lexems.
pub struct Lexer<'a> {
    pub input_file: InputFile<'a>,
    pub chars: Vec<char>,
    pub span: FileSpan<'a>,
    pub pos: usize,
}

impl<'a> Lexer<'a> {
    /// The state of the lexer, as the specification sees it.
    pub open spec fn state(&self) -> LexState {
        LexState {
            pos: self.pos as int,
            line: self.span.line as int,
            start: self.span.start as int,
            end: self.span.end as int,
        }
    }

    /// The lexer is well formed: it reads its file's text and its span stays within what it read.
    pub open spec fn wf(&self) -> bool {
        &&& self.chars@ == self.input_file.content@
        &&& self.chars@.len() < usize::MAX - 1
        &&& self.pos <= self.chars@.len()
        &&& self.span.start <= self.span.end
        &&& (self.span.end <= self.pos || (self.pos == self.chars@.len() && self.span.end
            <= self.pos + 1))
        &&& self.span.line <= self.pos + 1
    }

    pub fn new(input_file: InputFile<'a>) -> (r: Lexer<'a>)
        requires
            input_file.content@.len() < usize::MAX - 1,
        ensures
            r.wf(),
            r.input_file == input_file,
            r.state() == initial_state(),
            r.span.input_file == input_file,
            r.span.line == 1,
            r.span.start == 0,
            r.span.end == 0,
            r.pos == 0,
            r.chars@ == input_file.content@,
    {
        Lexer {
            input_file: input_file,
            chars: chars_of(input_file.content),
            span: FileSpan::empty(input_file),
            pos: 0,
        }
    }

    fn peek_is(&self, c: char) -> (r: bool)
        requires
            self.wf(),
        ensures
            r == (self.pos < self.chars@.len() && self.chars@[self.pos as int] == c),
    {
        self.pos < self.chars.len() && self.chars[self.pos] == c
    }

    fn peek(&self) -> (r: Option<char>)
        requires
            self.wf(),
        ensures
            r == (if self.pos < self.chars@.len() {
                Some(self.chars@[self.pos as int])
            } else {
                None
            }),
    {
        if self.pos < self.chars.len() {
            Some(self.chars[self.pos])
        } else {
            None
        }
    }

    /// Reads the run of characters of class `matches` that follows, after the given start
    /// character. Returns the start character and the run, and the last character of the run.
    pub fn consume_while(&mut self, start: Option<char>, matches: CharClass) -> (r: (String, Option<char>))
        requires
            old(self).wf(),
        ensures
            final(self).wf(),
            final(self).input_file == old(self).input_file,
            final(self).span == old(self).span,
            final(self).chars@ == old(self).chars@,
            final(self).state() == (LexState {
                pos: run_end(old(self).chars@, old(self).state().pos, matches),
                ..old(self).state()
            }),
            r.0@ == (match start {
                Some(c) => seq![c],
                None => Seq::empty(),
            }) + old(self).chars@.subrange(old(self).state().pos, final(self).state().pos),
            r.1 == (if final(self).state().pos > old(self).state().pos {
                Some(old(self).chars@[final(self).state().pos - 1])
            } else {
                None
            }),
    {
        let ghost s = self.chars@;
        let ghost p0 = self.pos as int;
        let mut buffer = String::new();
        if let Some(c) = start {
            push_char(&mut buffer, c);
        }
        let ghost pre = buffer@;
        let mut last_char: Option<char> = None;
        while self.pos < self.chars.len() && char_in_class(self.chars[self.pos], matches)
            invariant
                self.wf(),
                self.chars@ == s,
                self.input_file == old(self).input_file,
                self.span == old(self).span,
                0 <= p0 <= self.pos <= s.len(),
                run_end(s, p0, matches) == run_end(s, self.pos as int, matches),
                buffer@ == pre + s.subrange(p0, self.pos as int),
                last_char == (if self.pos > p0 {
                    Some(s[self.pos - 1])
                } else {
                    None
                }),
                pre == (match start {
                    Some(c) => seq![c],
                    None => Seq::<char>::empty(),
                }),
            decreases s.len() - self.pos,
        {
            let c = self.chars[self.pos];
            let ghost old_buffer = buffer@;
            let ghost j = self.pos as int;
            assert(s.subrange(p0, j + 1) =~= s.subrange(p0, j).push(c));
            last_char = Some(c);
            push_char(&mut buffer, c);
            self.pos = self.pos + 1;
        }
        (buffer, last_char)
    }

    fn advance_span(&mut self, advance_length: usize)
        requires
            old(self).span.end + advance_length <= usize::MAX,
        ensures
            final(self).span.start == old(self).span.end,
            final(self).span.end == old(self).span.end + advance_length,
            final(self).span.line == old(self).span.line,
            final(self).span.input_file == old(self).span.input_file,
            final(self).pos == old(self).pos,
            final(self).chars == old(self).chars,
            final(self).input_file == old(self).input_file,
    {
        self.span.start = self.span.end;
        self.span.end = self.span.end + advance_length;
    }

    fn advance_line(&mut self)
        requires
            old(self).span.line < usize::MAX,
        ensures
            final(self).span.line == old(self).span.line + 1,
            final(self).span.start == 1,
            final(self).span.end == 1,
            final(self).span.input_file == old(self).span.input_file,
            final(self).pos == old(self).pos,
            final(self).chars == old(self).chars,
            final(self).input_file == old(self).input_file,
    {
        self.span.line = self.span.line + 1;
        self.span.start = 1;
        self.span.end = 1;
    }
    /// Reads the body of a string literal whose first character is next, up to and
    /// including its closing quote.
    fn string_tail(&mut self, kind: StringKind, Ghost(st): Ghost<LexState>) -> (t: Token)
        requires
            old(self).wf(),
            st.pos < old(self).state().pos <= old(self).chars@.len(),
            st.end <= st.pos,
            old(self).state().line == st.line,
            old(self).state().start == st.end,
            old(self).state().end == st.end + (old(self).state().pos - st.pos),
        ensures
            final(self).wf(),
            final(self).input_file == old(self).input_file,
            ({
                let (body, e) = string_scan(old(self).chars@, old(self).state().pos, closing_quote(kind));
                t@ == string_token(kind, body) && final(self).state() == after_token(st, e)
            }),
    {
        let ghost s = self.chars@;
        let ghost i0 = self.pos as int;
        let q = if let StringKind::Dynamic = kind { '"' } else { '\'' };
        let mut buffer = String::new();
        let mut closed = false;
        while !closed && self.pos < self.chars.len()
            invariant
                self.wf(),
                self.chars@ == s,
                self.input_file == old(self).input_file,
                q == closing_quote(kind),
                0 <= st.pos < i0 <= self.pos <= s.len(),
                st.end <= st.pos,
                self.state().line == st.line,
                self.state().start == st.end,
                self.state().end == st.end + (self.pos - st.pos),
                !closed ==> string_scan(s, i0, q) == (buffer@ + string_scan(s, self.pos as int, q).0,
                    string_scan(s, self.pos as int, q).1),
                closed ==> string_scan(s, i0, q) == (buffer@, self.pos as int),
            decreases s.len() - self.pos,
        {
            let c = self.chars[self.pos];
            if c == q {
                self.pos = self.pos + 1;
                self.span.end = self.span.end + 1;
                closed = true;
                assert(buffer@ + Seq::<char>::empty() =~= buffer@);
            } else if c == '\\' && self.pos + 1 < self.chars.len() {
                let ghost b0 = buffer@;
                push_char(&mut buffer, c);
                push_char(&mut buffer, self.chars[self.pos + 1]);
                assert(b0 + (seq!['\\', s[self.pos + 1]] + string_scan(s, self.pos + 2, q).0)
                    =~= buffer@ + string_scan(s, self.pos + 2, q).0);
                self.pos = self.pos + 2;
                self.span.end = self.span.end + 2;
            } else {
                let ghost b0 = buffer@;
                push_char(&mut buffer, c);
                assert(b0 + (seq![c] + string_scan(s, self.pos + 1, q).0) =~= buffer@
                    + string_scan(s, self.pos + 1, q).0);
                self.pos = self.pos + 1;
                self.span.end = self.span.end + 1;
            }
        }
        if !closed {
            assert(buffer@ + Seq::<char>::empty() =~= buffer@);
        }
        match kind {
            StringKind::Static => Token::StrLiteral(buffer),
            StringKind::Dynamic => Token::StringLiteral(buffer),
            StringKind::C => Token::CStrLiteral(buffer),
        }
    }

    /// Reads the body of a character literal whose first character is next, up to and
    /// including its closing backtick.
    fn char_tail(&mut self, Ghost(st): Ghost<LexState>) -> (t: Token)
        requires
            old(self).wf(),
            st.pos + 1 == old(self).state().pos <= old(self).chars@.len(),
            st.end <= st.pos,
            old(self).state().line == st.line,
            old(self).state().start == st.end,
            old(self).state().end == st.end + 1,
        ensures
            final(self).wf(),
            final(self).input_file == old(self).input_file,
            ({
                let (body, e, closed) = char_scan(old(self).chars@, st.pos + 1);
                let st2 = after_token(st, e);
                t@ == TokenV::CharLiteral(body) && final(self).state() == LexState {
                    end: st2.end + if closed { 0int } else { 1int },
                    ..st2
                }
            }),
    {
        let ghost s = self.chars@;
        let ghost i0 = self.pos as int;
        let mut buf = String::new();
        let mut closed = false;
        while !closed && self.pos < self.chars.len()
            invariant
                self.wf(),
                self.chars@ == s,
                self.input_file == old(self).input_file,
                0 <= st.pos && st.pos + 1 == i0 <= self.pos <= s.len(),
                st.end <= st.pos,
                self.state().line == st.line,
                self.state().start == st.end,
                !closed ==> self.state().end == st.end + (self.pos - st.pos),
                closed ==> self.state().end + 1 == st.end + (self.pos - st.pos),
                !closed ==> char_scan(s, i0) == (buf@ + char_scan(s, self.pos as int).0,
                    char_scan(s, self.pos as int).1, char_scan(s, self.pos as int).2),
                closed ==> char_scan(s, i0) == (buf@, self.pos as int, true),
            decreases s.len() - self.pos,
        {
            let c = self.chars[self.pos];
            if c == '`' {
                self.pos = self.pos + 1;
                closed = true;
                assert(buf@ + Seq::<char>::empty() =~= buf@);
            } else if c == '\\' {
                self.pos = self.pos + 1;
                self.span.end = self.span.end + 1;
                let ghost b0 = buf@;
                if self.pos < self.chars.len() {
                    let e = self.chars[self.pos];
                    self.pos = self.pos + 1;
                    self.span.end = self.span.end + 1;
                    push_char(&mut buf, unescape(e));
                    assert(b0 + (seq![unescaped(e)] + char_scan(s, self.pos as int).0) =~= buf@
                        + char_scan(s, self.pos as int).0);
                } else {
                    push_char(&mut buf, unescape(c));
                    assert(b0 + (seq![unescaped('\\')] + char_scan(s, self.pos as int).0) =~= buf@
                        + char_scan(s, self.pos as int).0);
                }
            } else {
                let ghost b0 = buf@;
                push_char(&mut buf, c);
                assert(b0 + (seq![c] + char_scan(s, self.pos + 1).0) =~= buf@ + char_scan(
                    s,
                    self.pos + 1,
                ).0);
                self.pos = self.pos + 1;
                self.span.end = self.span.end + 1;
            }
        }
        if !closed {
            assert(buf@ + Seq::<char>::empty() =~= buf@);
        }
        self.span.end = self.span.end + 1;
        Token::CharLiteral(buf)
    }

    /// Reads a number literal whose first digit `ch` has just been read.
    fn token_numeric(&mut self, ch: char, Ghost(st): Ghost<LexState>) -> (t: Token)
        requires
            old(self).wf(),
            0 <= st.pos && st.pos + 1 == old(self).state().pos <= old(self).chars@.len(),
            old(self).chars@[st.pos] == ch,
            is_digit(ch),
            st.end <= st.pos,
            old(self).state().line == st.line,
            old(self).state().start == st.start,
            old(self).state().end == st.end,
        ensures
            final(self).wf(),
            final(self).input_file == old(self).input_file,
            (t@, final(self).state()) == lex_numeric(old(self).chars@, st),
    {
        let ghost s = self.chars@;
        if ch == '0' {
            if self.peek_is('b') || self.peek_is('o') || self.peek_is('x') {
                let (k, base) = if self.peek_is('b') {
                    (CharClass::Binary, 2u32)
                } else if self.peek_is('o') {
                    (CharClass::Octal, 8u32)
                } else {
                    (CharClass::Hex, 16u32)
                };
                self.pos = self.pos + 1;
                self.advance_span(2);
                let (number, _) = self.consume_while(None, k);
                proof {
                    lemma_run_end_bounds(s, st.pos + 2, k);
                    assert(Seq::<char>::empty() + s.subrange(st.pos + 2, self.pos as int) =~= s.subrange(st.pos + 2, self.pos as int));
                }
                let n = number.unicode_len();
                self.span.end = self.span.end + n;
                return Token::Numeric(number, base);
            }
            self.advance_span(1);
            let zero = String::from_str("0");
            proof {
                reveal_strlit("0");
                assert("0"@ =~= seq!['0']);
            }
            return Token::Numeric(zero, 10);
        }
        let (number, _) = self.consume_while(Some(ch), CharClass::Decimal);
        proof {
            lemma_run_end_bounds(s, st.pos + 1, CharClass::Decimal);
            assert(seq![ch] + s.subrange(st.pos + 1, self.pos as int) =~= s.subrange(st.pos, self.pos as int));
        }
        let n = number.unicode_len();
        self.span.start = self.span.end;
        self.span.end = self.span.end + n;
        Token::Numeric(number, 10)
    }

    /// Reads an identifier or keyword whose first character `ch` has just been read.
    fn token_word(&mut self, ch: char, Ghost(st): Ghost<LexState>) -> (t: Token)
        requires
            old(self).wf(),
            0 <= st.pos && st.pos + 1 == old(self).state().pos <= old(self).chars@.len(),
            old(self).chars@[st.pos] == ch,
            st.end <= st.pos,
            old(self).state().line == st.line,
            old(self).state().start == st.start,
            old(self).state().end == st.end,
        ensures
            final(self).wf(),
            final(self).input_file == old(self).input_file,
            ({
                let e = run_end(old(self).chars@, st.pos + 1, CharClass::Identifier);
                t@ == word_token(old(self).chars@.subrange(st.pos, e)) && final(self).state()
                    == after_token(st, e)
            }),
    {
        let ghost s = self.chars@;
        let (word, _) = self.consume_while(Some(ch), CharClass::Identifier);
        proof {
            lemma_run_end_bounds(s, st.pos + 1, CharClass::Identifier);
            assert(seq![ch] + s.subrange(st.pos + 1, self.pos as int) =~= s.subrange(st.pos, self.pos as int));
        }
        let n = word.unicode_len();
        self.span.start = self.span.end;
        self.span.end = self.span.end + n;
        match Keyword::from_str(word.as_str()) {
            Some(kw) => Token::Keyword(kw),
            None => Token::Identifier(word),
        }
    }

    /// Reads an operator whose first character `ch` has just been read.
    fn token_op(&mut self, ch: char, Ghost(st): Ghost<LexState>) -> (t: Token)
        requires
            old(self).wf(),
            0 <= st.pos && st.pos + 1 == old(self).state().pos <= old(self).chars@.len(),
            old(self).chars@[st.pos] == ch,
            st.end <= st.pos,
            old(self).state().line == st.line,
            old(self).state().start == st.start,
            old(self).state().end == st.end,
        ensures
            final(self).wf(),
            final(self).input_file == old(self).input_file,
            (t@, final(self).state()) == lex_op(old(self).chars@, st),
    {
        self.advance_span(1);
        match self.peek() {
            Some(b) => {
                if is_two_char_operator(ch, b) {
                    self.pos = self.pos + 1;
                    self.span.end = self.span.end + 1;
                    return Token::Op(ch, Some(b));
                }
                Token::Op(ch, None)
            },
            None => Token::Op(ch, None),
        }
    }

    /// The next lexem, or `None` at the end of the text.
    pub fn next(&mut self) -> (r: Option<Lexem>)
        requires
            old(self).wf(),
        ensures
            final(self).wf(),
            final(self).input_file == old(self).input_file,
            match lex_next(old(self).chars@, old(self).state()) {
                None => r is None && final(self).state().pos == old(self).chars@.len(),
                Some((t, st2)) => r is Some && r.unwrap().token@ == t && r.unwrap().span
                    == state_span(st2) && final(self).state() == st2,
            },
    {
        let ghost s = self.chars@;
        let ghost st0 = self.state();
        loop
            invariant
                self.wf(),
                self.chars@ == s,
                self.input_file == old(self).input_file,
                lex_next(s, self.state()) == lex_next(s, st0),
                s == old(self).chars@,
                st0 == old(self).state(),
            decreases s.len() - self.pos,
        {
            let ghost st = self.state();
            if self.pos >= self.chars.len() {
                return None;
            }
            let ch = self.chars[self.pos];
            self.pos = self.pos + 1;
            if ch == 'c' && self.peek_is('\'') {
                self.pos = self.pos + 1;
                self.advance_span(2);
                let token = self.string_tail(StringKind::C, Ghost(st));
                return Some(Lexem::new(self.span.into_span(), token));
            } else if ch == '\'' {
                self.advance_span(1);
                let token = self.string_tail(StringKind::Static, Ghost(st));
                return Some(Lexem::new(self.span.into_span(), token));
            } else if ch == '"' {
                self.advance_span(1);
                let token = self.string_tail(StringKind::Dynamic, Ghost(st));
                return Some(Lexem::new(self.span.into_span(), token));
            } else if ch == '`' {
                self.advance_span(1);
                let token = self.char_tail(Ghost(st));
                return Some(Lexem::new(self.span.into_span(), token));
            } else if ch == '/' && self.peek_is('/') {
                let _ = self.consume_while(Some(ch), CharClass::NotNewline);
                proof {
                    lemma_run_end_bounds(s, st.pos + 1, CharClass::NotNewline);
                }
                if self.pos < self.chars.len() {
                    self.pos = self.pos + 1;
                    self.advance_line();
                }
            } else if ch == '\n' {
                self.advance_line();
                return Some(Lexem::new(self.span.into_span(), Token::Newline));
            } else if ch == ' ' || ch == '\r' || ch == '\t' || ch == '\x0b' || ch == '\x0c' {
                self.advance_span(1);
            } else if ('a' <= ch && ch <= 'z') || ('A' <= ch && ch <= 'Z') || ch == '_' {
                let token = self.token_word(ch, Ghost(st));
                return Some(Lexem::new(self.span.into_span(), token));
            } else if '0' <= ch && ch <= '9' {
                let token = self.token_numeric(ch, Ghost(st));
                return Some(Lexem::new(self.span.into_span(), token));
            } else if is_op(ch) {
                let token = self.token_op(ch, Ghost(st));
                return Some(Lexem::new(self.span.into_span(), token));
            } else if is_delim(ch) {
                if ch == '.' && self.peek_is('.') {
                    self.pos = self.pos + 1;
                    if self.peek_is('.') {
                        self.pos = self.pos + 1;
                        self.advance_span(3);
                        return Some(Lexem::new(self.span.into_span(), Token::Variadic));
                    }
                    self.advance_span(2);
                    return Some(Lexem::new(self.span.into_span(), Token::Delimiter(ch)));
                }
                self.advance_span(1);
                return Some(Lexem::new(self.span.into_span(), Token::Delimiter(ch)));
            } else {
                self.advance_span(1);
                return Some(Lexem::new(self.span.into_span(), Token::Unknown(ch)));
            }
        }
    }


    /// All the lexems that remain, in order.
    pub fn lexems(&mut self) -> (r: Vec<Lexem>)
        requires
            old(self).wf(),
        ensures
            final(self).wf(),
            final(self).input_file == old(self).input_file,
            r@.map_values(|l: Lexem| lexem_view(l)) == lex_all(old(self).chars@, old(self).state()),
    {
        let ghost s = self.chars@;
        let ghost st0 = self.state();
        let mut out: Vec<Lexem> = Vec::new();
        loop
            invariant
                self.wf(),
                self.chars@ == s,
                self.input_file == old(self).input_file,
                s == old(self).chars@,
                st0 == old(self).state(),
                lex_all(s, st0) == out@.map_values(|l: Lexem| lexem_view(l)) + lex_all(s, self.state()),
            decreases s.len() - self.pos,
        {
            let ghost st = self.state();
            proof {
                lemma_lex_next_progress(s, st);
            }
            match self.next() {
                Some(l) => {
                    let ghost v = lexem_view(l);
                    let ghost m0 = out@.map_values(|l: Lexem| lexem_view(l));
                    let ghost st2 = self.state();
                    assert(lex_all(s, st) == seq![v] + lex_all(s, st2));
                    out.push(l);
                    assert(out@.map_values(|l: Lexem| lexem_view(l)) =~= m0.push(v));
                    assert(m0 + (seq![v] + lex_all(s, st2)) =~= m0.push(v) + lex_all(s, st2));
                },
                None => {
                    assert(lex_all(s, st) =~= Seq::empty());
                    assert(out@.map_values(|l: Lexem| lexem_view(l)) + Seq::empty() =~= out@.map_values(|l: Lexem| lexem_view(l)));
                    return out;
                },
            }
        }
    }

}

} // verus!
