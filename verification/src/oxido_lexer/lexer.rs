use vstd::prelude::*;
use crate::lexer::LexState;
use crate::oxido_lexer::keyword::oxido_keyword_of;
use crate::oxido_lexer::span::{FileSpan, InputFile, Lexem, Span};
use crate::oxido_lexer::token::{OxTokenV, Token};
use crate::text::push_char;

verus! {

/// A class of characters that the lexer reads in runs.
#[derive(Debug, Copy, Clone, PartialEq, Eq, Structural)]
pub enum RunClass {
    /// letters, digits and `_`
    Identifier,
    /// decimal digits
    Digit,
    /// anything but a newline
    NotNewline,
    /// anything but a double quote
    NotQuote,
}

pub open spec fn ox_digit(c: char) -> bool {
    '0' <= c <= '9'
}

pub open spec fn ox_letter(c: char) -> bool {
    ('a' <= c <= 'z') || ('A' <= c <= 'Z')
}

pub open spec fn in_run(c: char, k: RunClass) -> bool {
    match k {
        RunClass::Identifier => ox_letter(c) || ox_digit(c) || c == '_',
        RunClass::Digit => ox_digit(c),
        RunClass::NotNewline => c != '\n',
        RunClass::NotQuote => c != '"',
    }
}

fn char_in_run(c: char, k: RunClass) -> (r: bool)
    ensures
        r == in_run(c, k),
{
    match k {
        RunClass::Identifier => ('a' <= c && c <= 'z') || ('A' <= c && c <= 'Z') || ('0' <= c && c <= '9') || c == '_',
        RunClass::Digit => '0' <= c && c <= '9',
        RunClass::NotNewline => c != '\n',
        RunClass::NotQuote => c != '"',
    }
}

pub open spec fn ox_whitespace(c: char) -> bool {
    c == ' ' || c == '\r' || c == '\t' || c == '\x0b' || c == '\x0c'
}

pub open spec fn ox_delimiter(c: char) -> bool {
    c == '(' || c == ')' || c == '[' || c == ']' || c == '{' || c == '}' || c == '.' || c == ','
        || c == ';' || c == ':'
}

pub open spec fn ox_op(c: char) -> bool {
    c == '+' || c == '-' || c == '/' || c == '*' || c == '%' || c == '!' || c == '>' || c == '<'
        || c == '&' || c == '|' || c == '^' || c == '~' || c == '='
}

/// The characters that may follow an operator to make a two-character operator.
pub open spec fn ox_op_next(c: char) -> bool {
    c == '=' || c == '+' || c == '-' || c == '&' || c == '|'
}

/// The index after the longest run of characters of class `k` that starts at `i`.
pub open spec fn ox_run_end(s: Seq<char>, i: int, k: RunClass) -> int
    decreases s.len() - i,
{
    if 0 <= i < s.len() && in_run(s[i], k) {
        ox_run_end(s, i + 1, k)
    } else {
        i
    }
}

pub proof fn lemma_ox_run_end_bounds(s: Seq<char>, i: int, k: RunClass)
    requires
        0 <= i,
    ensures
        i <= ox_run_end(s, i, k),
        i <= s.len() ==> ox_run_end(s, i, k) <= s.len(),
        forall|j: int| i <= j < ox_run_end(s, i, k) ==> #[trigger] in_run(s[j], k),
        0 <= ox_run_end(s, i, k) < s.len() ==> !in_run(s[ox_run_end(s, i, k)], k),
    decreases s.len() - i,
{
    if 0 <= i < s.len() && in_run(s[i], k) {
        lemma_ox_run_end_bounds(s, i + 1, k);
    }
}

/// The number of bytes of the UTF-8 encoding of a text.
pub open spec fn utf8_len(s: Seq<char>) -> nat {
    vstd::utf8::encode_utf8(s).len()
}

pub(crate) proof fn lemma_utf8_len_bound(s: Seq<char>)
    ensures
        utf8_len(s) <= 4 * s.len(),
    decreases s.len(),
{
    if s.len() > 0 {
        lemma_utf8_len_bound(s.drop_first());
    }
}

/// The state after a lexem that ends at `to` and is `width` columns wide.
pub open spec fn ox_after(st: LexState, to: int, width: int) -> LexState {
    LexState { pos: to, line: st.line, start: st.end, end: st.end + width }
}

/// A word: a keyword when it is reserved, otherwise an identifier.
pub open spec fn ox_word(w: Seq<char>) -> OxTokenV {
    if oxido_keyword_of(w) is Some {
        OxTokenV::Keyword(w)
    } else {
        OxTokenV::Identifier(w)
    }
}

/// The next token of `s` from state `st` and the state after it; `None` at the end of the
/// text. Whitespace is skipped, and so are comments, from `#` to the end of the line, the
/// newline included. A number with a point keeps the point, with or without digits after it.
pub open spec fn ox_next(s: Seq<char>, st: LexState) -> Option<(OxTokenV, LexState)>
    decreases s.len() - st.pos,
{
    if st.pos < 0 || st.pos >= s.len() {
        None
    } else {
        let pos = st.pos;
        let ch = s[pos];
        if ch == '#' {
            let e = ox_run_end(s, pos + 1, RunClass::NotNewline);
            proof {
                lemma_ox_run_end_bounds(s, pos + 1, RunClass::NotNewline);
            }
            let to = if e < s.len() { e + 1 } else { e };
            ox_next(s, LexState { pos: to, line: st.line + 1, start: 0, end: 0 })
        } else if ch == '\n' {
            Some((OxTokenV::Newline, LexState { pos: pos + 1, line: st.line + 1, start: 0, end: 0 }))
        } else if ox_whitespace(ch) {
            ox_next(s, LexState { pos: pos + 1, start: st.end, end: st.end + 1, ..st })
        } else if ox_letter(ch) || ch == '_' {
            let e = ox_run_end(s, pos + 1, RunClass::Identifier);
            Some((ox_word(s.subrange(pos, e)), ox_after(st, e, e - pos)))
        } else if ox_digit(ch) {
            let e = ox_run_end(s, pos + 1, RunClass::Digit);
            if e < s.len() && s[e] == '.' {
                let e2 = ox_run_end(s, e + 1, RunClass::Digit);
                Some((OxTokenV::Numeric(s.subrange(pos, e2)), ox_after(st, e2, e2 - pos)))
            } else {
                Some((OxTokenV::Numeric(s.subrange(pos, e)), ox_after(st, e, e - pos)))
            }
        } else if ox_op(ch) {
            if pos + 1 < s.len() && ox_op_next(s[pos + 1]) {
                Some((OxTokenV::Op(ch, Some(s[pos + 1])), LexState { pos: pos + 2, line: st.line, start: st.end + 1, end: st.end + 2 }))
            } else {
                Some((OxTokenV::Op(ch, None), ox_after(st, pos + 1, 1)))
            }
        } else if ox_delimiter(ch) {
            if ch == '.' && pos + 1 < s.len() && ox_digit(s[pos + 1]) {
                let e = ox_run_end(s, pos + 1, RunClass::Digit);
                Some((OxTokenV::Numeric(s.subrange(pos, e)), ox_after(st, e, e - pos)))
            } else {
                Some((OxTokenV::Delimiter(ch), ox_after(st, pos + 1, 1)))
            }
        } else if ch == '"' {
            let e = ox_run_end(s, pos + 1, RunClass::NotQuote);
            let body = s.subrange(pos + 1, e);
            Some((OxTokenV::StringLiteral(body), LexState { pos: e + 1, line: st.line, start: st.end, end: st.end + utf8_len(body) + 2 }))
        } else {
            Some((OxTokenV::Unknown(ch), ox_after(st, pos + 1, 1)))
        }
    }
}

/// Whether the next token of `s` from state `st` can be read: a string is closed.
pub open spec fn ox_ok(s: Seq<char>, st: LexState) -> bool
    decreases s.len() - st.pos,
{
    if st.pos < 0 || st.pos >= s.len() {
        true
    } else {
        let pos = st.pos;
        let ch = s[pos];
        if ch == '#' {
            let e = ox_run_end(s, pos + 1, RunClass::NotNewline);
            proof {
                lemma_ox_run_end_bounds(s, pos + 1, RunClass::NotNewline);
            }
            let to = if e < s.len() { e + 1 } else { e };
            ox_ok(s, LexState { pos: to, line: st.line + 1, start: 0, end: 0 })
        } else if ch == '\n' {
            true
        } else if ox_whitespace(ch) {
            ox_ok(s, LexState { pos: pos + 1, start: st.end, end: st.end + 1, ..st })
        } else if ox_letter(ch) || ch == '_' {
            true
        } else if ox_digit(ch) || ox_op(ch) || ox_delimiter(ch) {
            true
        } else if ch == '"' {
            ox_run_end(s, pos + 1, RunClass::NotQuote) < s.len()
        } else {
            true
        }
    }
}

/// Each lexem is at least one character long, and lexing never passes the end of the text.
pub proof fn lemma_ox_next_progress(s: Seq<char>, st: LexState)
    requires
        0 <= st.pos,
        ox_ok(s, st),
    ensures
        ox_next(s, st) matches Some((_, st2)) ==> st.pos < st2.pos <= s.len(),
    decreases s.len() - st.pos,
{
    if 0 <= st.pos < s.len() {
        let pos = st.pos;
        let ch = s[pos];
        if ch == '#' {
            lemma_ox_run_end_bounds(s, pos + 1, RunClass::NotNewline);
            let e = ox_run_end(s, pos + 1, RunClass::NotNewline);
            let to = if e < s.len() { e + 1 } else { e };
            lemma_ox_next_progress(s, LexState { pos: to, line: st.line + 1, start: 0, end: 0 });
        } else if ch == '\n' {
        } else if ox_whitespace(ch) {
            lemma_ox_next_progress(s, LexState { pos: pos + 1, start: st.end, end: st.end + 1, ..st });
        } else if ox_letter(ch) || ch == '_' {
            lemma_ox_run_end_bounds(s, pos + 1, RunClass::Identifier);
        } else if ox_digit(ch) {
            lemma_ox_run_end_bounds(s, pos + 1, RunClass::Digit);
            let e = ox_run_end(s, pos + 1, RunClass::Digit);
            lemma_ox_run_end_bounds(s, e + 1, RunClass::Digit);
        } else if ox_op(ch) {
        } else if ox_delimiter(ch) {
            lemma_ox_run_end_bounds(s, pos + 1, RunClass::Digit);
        } else if ch == '"' {
            lemma_ox_run_end_bounds(s, pos + 1, RunClass::NotQuote);
        }
    }
}

/// Whether every token of `s` from state `st` can be read.
pub open spec fn ox_lexable(s: Seq<char>, st: LexState) -> bool
    decreases s.len() - st.pos,
{
    ox_ok(s, st) && match ox_next(s, st) {
        None => true,
        Some((_, st2)) => if st.pos < st2.pos <= s.len() {
            ox_lexable(s, st2)
        } else {
            true
        },
    }
}

/// The span that a lexem produced in state `st` carries.
pub open spec fn ox_span(st: LexState) -> Span {
    Span { line: st.line as usize, start: st.start as usize, end: st.end as usize }
}

/// All the lexems of `s` from state `st`, in order.
pub open spec fn ox_all(s: Seq<char>, st: LexState) -> Seq<(OxTokenV, Span)>
    decreases s.len() - st.pos,
{
    match ox_next(s, st) {
        None => Seq::empty(),
        Some((t, st2)) => if st.pos < st2.pos <= s.len() {
            seq![(t, ox_span(st2))] + ox_all(s, st2)
        } else {
            Seq::empty()
        },
    }
}

/// The value of a lexem: its token's value and its span.
pub open spec fn ox_lexem_view(l: Lexem) -> (OxTokenV, Span) {
    (l.token@, l.span)
}

/// What stops the lexer.
#[derive(Debug, Copy, Clone, PartialEq, Eq, Structural)]
pub enum LexError {
    /// A string is not closed.
    UnterminatedStringLiteral,
}

/// When every token from `st` can be read, so can every token from the state after the next.
pub proof fn lemma_ox_lexable_step(s: Seq<char>, st: LexState)
    requires
        0 <= st.pos,
        ox_ok(s, st),
        ox_next(s, st) is Some,
    ensures
        ox_lexable(s, st) == ox_lexable(s, ox_next(s, st).unwrap().1),
{
    lemma_ox_next_progress(s, st);
}

fn copy_chars(v: &Vec<char>) -> (r: Vec<char>)
    ensures
        r@ == v@,
{
    let mut r: Vec<char> = Vec::new();
    let mut i: usize = 0;
    while i < v.len()
        invariant
            i <= v@.len(),
            r@ == v@.subrange(0, i as int),
        decreases v@.len() - i,
    {
        r.push(v[i]);
        assert(r@ =~= v@.subrange(0, i + 1));
        i = i + 1;
    }
    assert(r@ =~= v@);
    r
}

/// The lexer of Oxido source text.
pub struct Lexer {
    pub input_file: InputFile,
    pub span: FileSpan,
    pub pos: usize,
}

impl Lexer {
    /// The state of the lexer, as the specification sees it.
    pub closed spec fn state(&self) -> LexState {
        LexState { pos: self.pos as int, line: self.span.line as int, start: self.span.start as int, end: self.span.end as int }
    }

    /// The characters the lexer reads.
    pub open spec fn text(&self) -> Seq<char> {
        self.input_file.content@
    }

    /// The lexer is well formed: it stands within its text, and its span grows no faster
    /// than four columns for each character read.
    pub closed spec fn wf(&self) -> bool {
        &&& self.input_file.content@.len() < usize::MAX / 8
        &&& self.pos <= self.input_file.content@.len()
        &&& self.span.start <= self.span.end <= 4 * self.pos
        &&& self.span.line <= self.pos + 1
    }

    /// A lexer at the start of a file.
    pub fn new(input_file: InputFile) -> (r: Lexer)
        requires
            input_file.content@.len() < usize::MAX / 8,
        ensures
            r.wf(),
            r.text() == input_file.content@,
            r.state() == (LexState { pos: 0, line: 1, start: 0, end: 0 }),
    {
        let span = FileSpan::empty(&input_file);
        Lexer { input_file, span, pos: 0 }
    }

    fn advance_span(&mut self, advance_length: usize)
        requires
            old(self).span.end + advance_length <= usize::MAX,
        ensures
            final(self).span.start == old(self).span.end,
            final(self).span.end == old(self).span.end + advance_length,
            final(self).span.line == old(self).span.line,
            final(self).pos == old(self).pos,
            final(self).input_file == old(self).input_file,
    {
        self.span.start = self.span.end;
        self.span.end = self.span.end + advance_length;
    }

    fn advance_line(&mut self)
        requires
            old(self).span.line < usize::MAX,
        ensures
            final(self).span.line == old(self).span.line + 1,
            final(self).span.start == 0,
            final(self).span.end == 0,
            final(self).pos == old(self).pos,
            final(self).input_file == old(self).input_file,
    {
        self.span.line = self.span.line + 1;
        self.span.start = 0;
        self.span.end = 0;
    }

    fn peek_is(&self, c: char) -> (r: bool)
        requires
            self.wf(),
        ensures
            r == (self.pos < self.text().len() && self.text()[self.pos as int] == c),
    {
        self.pos < self.input_file.content.len() && self.input_file.content[self.pos] == c
    }

    /// Reads the run of characters of class `matches` that follows, after the given start
    /// character; gives the start character and the run.
    pub fn consume_while(&mut self, start: Option<char>, matches: RunClass) -> (r: String)
        requires
            old(self).wf(),
        ensures
            final(self).wf(),
            final(self).input_file == old(self).input_file,
            final(self).span == old(self).span,
            final(self).state().pos == ox_run_end(old(self).text(), old(self).state().pos, matches),
            r@ == (match start {
                Some(c) => seq![c],
                None => Seq::empty(),
            }) + old(self).text().subrange(old(self).state().pos, final(self).state().pos),
    {
        let ghost s = self.text();
        let ghost p0 = self.pos as int;
        let mut buffer = String::new();
        if let Some(c) = start {
            push_char(&mut buffer, c);
        }
        let ghost pre = buffer@;
        while self.pos < self.input_file.content.len() && char_in_run(self.input_file.content[self.pos], matches)
            invariant
                self.wf(),
                self.text() == s,
                self.input_file == old(self).input_file,
                self.span == old(self).span,
                0 <= p0 <= self.pos <= s.len(),
                ox_run_end(s, p0, matches) == ox_run_end(s, self.pos as int, matches),
                buffer@ == pre + s.subrange(p0, self.pos as int),
                pre == (match start {
                    Some(c) => seq![c],
                    None => Seq::<char>::empty(),
                }),
            decreases s.len() - self.pos,
        {
            let c = self.input_file.content[self.pos];
            assert(s.subrange(p0, self.pos + 1) =~= s.subrange(p0, self.pos as int).push(c));
            push_char(&mut buffer, c);
            self.pos = self.pos + 1;
        }
        buffer
    }

    fn token_numeric(&mut self, ch: char, Ghost(st): Ghost<LexState>) -> (t: Token)
        requires
            old(self).wf(),
            0 <= st.pos && st.pos + 1 == old(self).state().pos <= old(self).text().len(),
            old(self).text()[st.pos] == ch,
            ox_digit(ch),
            st.end <= 4 * st.pos,
            old(self).state().line == st.line,
            old(self).state().start == st.start,
            old(self).state().end == st.end,
        ensures
            final(self).wf(),
            final(self).input_file == old(self).input_file,
            ox_next(old(self).text(), st) == Some((t@, final(self).state())),
    {
        let ghost s = self.text();
        let digits = self.consume_while(Some(ch), RunClass::Digit);
        proof {
            lemma_ox_run_end_bounds(s, st.pos + 1, RunClass::Digit);
            assert(seq![ch] + s.subrange(st.pos + 1, self.pos as int) =~= s.subrange(st.pos, self.pos as int));
        }
        if self.peek_is('.') {
            let ghost e = self.pos as int;
            self.pos = self.pos + 1;
            let fraction = self.consume_while(None, RunClass::Digit);
            proof {
                lemma_ox_run_end_bounds(s, e + 1, RunClass::Digit);
                assert(Seq::<char>::empty() + s.subrange(e + 1, self.pos as int) =~= s.subrange(e + 1, self.pos as int));
            }
            let n = digits.unicode_len() + fraction.unicode_len() + 1;
            self.advance_span(n);
            let mut text = digits;
            push_char(&mut text, '.');
            text.append(fraction.as_str());
            proof {
                assert(text@ =~= s.subrange(st.pos, self.pos as int));
            }
            return Token::Numeric(text);
        }
        let n = digits.unicode_len();
        self.advance_span(n);
        Token::Numeric(digits)
    }

    fn consume_numeric(&mut self, ch: char, Ghost(st): Ghost<LexState>) -> (t: Token)
        requires
            old(self).wf(),
            0 <= st.pos && st.pos + 1 == old(self).state().pos < old(self).text().len(),
            old(self).text()[st.pos] == ch,
            ch == '.',
            ox_digit(old(self).text()[st.pos + 1]),
            st.end <= 4 * st.pos,
            old(self).state().line == st.line,
            old(self).state().start == st.start,
            old(self).state().end == st.end,
        ensures
            final(self).wf(),
            final(self).input_file == old(self).input_file,
            ox_next(old(self).text(), st) == Some((t@, final(self).state())),
    {
        let ghost s = self.text();
        let text = self.consume_while(Some(ch), RunClass::Digit);
        proof {
            lemma_ox_run_end_bounds(s, st.pos + 1, RunClass::Digit);
            assert(seq![ch] + s.subrange(st.pos + 1, self.pos as int) =~= s.subrange(st.pos, self.pos as int));
        }
        let n = text.unicode_len();
        self.advance_span(n);
        Token::Numeric(text)
    }

    fn token_word(&mut self, ch: char, Ghost(st): Ghost<LexState>) -> (t: Token)
        requires
            old(self).wf(),
            0 <= st.pos && st.pos + 1 == old(self).state().pos <= old(self).text().len(),
            old(self).text()[st.pos] == ch,
            ox_letter(ch) || ch == '_',
            st.end <= 4 * st.pos,
            old(self).state().line == st.line,
            old(self).state().start == st.start,
            old(self).state().end == st.end,
        ensures
            final(self).wf(),
            final(self).input_file == old(self).input_file,
            ox_next(old(self).text(), st) == Some((t@, final(self).state())),
    {
        let ghost s = self.text();
        let word = self.consume_while(Some(ch), RunClass::Identifier);
        proof {
            lemma_ox_run_end_bounds(s, st.pos + 1, RunClass::Identifier);
            assert(seq![ch] + s.subrange(st.pos + 1, self.pos as int) =~= s.subrange(st.pos, self.pos as int));
        }
        let n = word.unicode_len();
        self.advance_span(n);
        if crate::oxido_lexer::keyword::Keyword::from_str(word.as_str()).is_some() {
            Token::Keyword(word)
        } else {
            Token::Identifier(word)
        }
    }

    fn token_op(&mut self, ch: char, Ghost(st): Ghost<LexState>) -> (t: Token)
        requires
            old(self).wf(),
            0 <= st.pos && st.pos + 1 == old(self).state().pos <= old(self).text().len(),
            old(self).text()[st.pos] == ch,
            ox_op(ch),
            st.end <= 4 * st.pos,
            old(self).state().line == st.line,
            old(self).state().start == st.start,
            old(self).state().end == st.end,
        ensures
            final(self).wf(),
            final(self).input_file == old(self).input_file,
            ox_next(old(self).text(), st) == Some((t@, final(self).state())),
    {
        if self.pos < self.input_file.content.len() {
            let b = self.input_file.content[self.pos];
            if b == '=' || b == '+' || b == '-' || b == '&' || b == '|' {
                self.advance_span(1);
                self.pos = self.pos + 1;
                self.advance_span(1);
                return Token::Op(ch, Some(b));
            }
        }
        self.advance_span(1);
        Token::Op(ch, None)
    }

    fn token_string(&mut self, Ghost(st): Ghost<LexState>) -> (t: Result<Token, LexError>)
        requires
            old(self).wf(),
            0 <= st.pos && st.pos + 1 == old(self).state().pos <= old(self).text().len(),
            old(self).text()[st.pos] == '"',
            st.end <= 4 * st.pos,
            old(self).state().line == st.line,
            old(self).state().start == st.start,
            old(self).state().end == st.end,
        ensures
            final(self).wf(),
            final(self).input_file == old(self).input_file,
            t is Ok <==> ox_ok(old(self).text(), st),
            t matches Ok(t) ==> ox_next(old(self).text(), st) == Some((t@, final(self).state())),
            t matches Err(e) ==> e == LexError::UnterminatedStringLiteral,
    {
        let ghost s = self.text();
        let body = self.consume_while(None, RunClass::NotQuote);
        proof {
            lemma_ox_run_end_bounds(s, st.pos + 1, RunClass::NotQuote);
            assert(Seq::<char>::empty() + s.subrange(st.pos + 1, self.pos as int) =~= s.subrange(st.pos + 1, self.pos as int));
            lemma_utf8_len_bound(body@);
        }
        if self.pos >= self.input_file.content.len() {
            return Err(LexError::UnterminatedStringLiteral);
        }
        self.pos = self.pos + 1;
        let n = body.as_str().len();
        self.advance_span(n);
        self.span.end = self.span.end + 2;
        Ok(Token::StringLiteral(body))
    }

    /// The next lexem, `None` at the end of the text, or what stops the lexer.
    pub fn try_next(&mut self) -> (r: Result<Option<Lexem>, LexError>)
        requires
            old(self).wf(),
        ensures
            final(self).wf(),
            final(self).input_file == old(self).input_file,
            r is Ok <==> ox_ok(old(self).text(), old(self).state()),
            r matches Ok(x) ==> match ox_next(old(self).text(), old(self).state()) {
                None => x is None && final(self).state().pos == old(self).text().len(),
                Some((t, st2)) => x is Some && x.unwrap().token@ == t && x.unwrap().span == ox_span(st2)
                    && final(self).state() == st2,
            },
    {
        let ghost s = self.text();
        let ghost st0 = self.state();
        loop
            invariant
                self.wf(),
                self.text() == s,
                self.input_file == old(self).input_file,
                ox_next(s, self.state()) == ox_next(s, st0),
                ox_ok(s, self.state()) == ox_ok(s, st0),
                s == old(self).text(),
                st0 == old(self).state(),
            decreases s.len() - self.pos,
        {
            let ghost st = self.state();
            if self.pos >= self.input_file.content.len() {
                return Ok(None);
            }
            let ch = self.input_file.content[self.pos];
            self.pos = self.pos + 1;
            if ch == '#' {
                let _ = self.consume_while(Some(ch), RunClass::NotNewline);
                proof {
                    lemma_ox_run_end_bounds(s, st.pos + 1, RunClass::NotNewline);
                }
                if self.pos < self.input_file.content.len() {
                    self.pos = self.pos + 1;
                }
                self.advance_line();
            } else if ch == '\n' {
                self.advance_line();
                return Ok(Some(Lexem::new(self.span.into_span(), Token::Newline)));
            } else if ch == ' ' || ch == '\r' || ch == '\t' || ch == '\x0b' || ch == '\x0c' {
                self.advance_span(1);
            } else if ('a' <= ch && ch <= 'z') || ('A' <= ch && ch <= 'Z') || ch == '_' {
                let token = self.token_word(ch, Ghost(st));
                return Ok(Some(Lexem::new(self.span.into_span(), token)));
            } else if '0' <= ch && ch <= '9' {
                let token = self.token_numeric(ch, Ghost(st));
                return Ok(Some(Lexem::new(self.span.into_span(), token)));
            } else if ch == '+' || ch == '-' || ch == '/' || ch == '*' || ch == '%' || ch == '!' || ch == '>' || ch == '<'
                || ch == '&' || ch == '|' || ch == '^' || ch == '~' || ch == '=' {
                let token = self.token_op(ch, Ghost(st));
                return Ok(Some(Lexem::new(self.span.into_span(), token)));
            } else if ch == '(' || ch == ')' || ch == '[' || ch == ']' || ch == '{' || ch == '}' || ch == '.' || ch == ','
                || ch == ';' || ch == ':' {
                if ch == '.' && self.pos < self.input_file.content.len() {
                    let c = self.input_file.content[self.pos];
                    if '0' <= c && c <= '9' {
                        let token = self.consume_numeric(ch, Ghost(st));
                        return Ok(Some(Lexem::new(self.span.into_span(), token)));
                    }
                }
                self.advance_span(1);
                return Ok(Some(Lexem::new(self.span.into_span(), Token::Delimiter(ch))));
            } else if ch == '"' {
                let token = self.token_string(Ghost(st))?;
                return Ok(Some(Lexem::new(self.span.into_span(), token)));
            } else {
                self.advance_span(1);
                return Ok(Some(Lexem::new(self.span.into_span(), Token::Unknown(ch))));
            }
        }
    }

    /// The next lexem, or `None` at the end of the text.
    pub fn next(&mut self) -> (r: Option<Lexem>)
        requires
            old(self).wf(),
            ox_ok(old(self).text(), old(self).state()),
        ensures
            final(self).wf(),
            final(self).input_file == old(self).input_file,
            match ox_next(old(self).text(), old(self).state()) {
                None => r is None && final(self).state().pos == old(self).text().len(),
                Some((t, st2)) => r is Some && r.unwrap().token@ == t && r.unwrap().span == ox_span(st2)
                    && final(self).state() == st2,
            },
    {
        match self.try_next() {
            Ok(x) => x,
            Err(_) => None,
        }
    }

    /// Whether every lexem that remains can be read.
    pub fn check(&self) -> (r: bool)
        requires
            self.wf(),
        ensures
            r == ox_lexable(self.text(), self.state()),
    {
        let ghost s = self.text();
        let ghost st0 = self.state();
        let mut copy = Lexer {
            input_file: InputFile { filename: self.input_file.filename, content: copy_chars(&self.input_file.content) },
            span: FileSpan { filename: self.span.filename, line: self.span.line, start: self.span.start, end: self.span.end },
            pos: self.pos,
        };
        loop
            invariant
                copy.wf(),
                copy.text() == s,
                s == self.text(),
                st0 == self.state(),
                0 <= copy.state().pos,
                ox_lexable(s, copy.state()) == ox_lexable(s, st0),
            decreases s.len() - copy.pos,
        {
            let ghost st = copy.state();
            proof {
                if ox_ok(s, st) {
                    lemma_ox_next_progress(s, st);
                }
            }
            match copy.try_next() {
                Err(_) => {
                    return false;
                },
                Ok(None) => {
                    return true;
                },
                Ok(Some(_)) => {
                    proof {
                        lemma_ox_lexable_step(s, st);
                    }
                },
            }
        }
    }

    /// All the lexems that remain, in order.
    pub fn lexems(&mut self) -> (r: Vec<Lexem>)
        requires
            old(self).wf(),
            ox_lexable(old(self).text(), old(self).state()),
        ensures
            final(self).wf(),
            final(self).input_file == old(self).input_file,
            r@.map_values(|l: Lexem| ox_lexem_view(l)) == ox_all(old(self).text(), old(self).state()),
    {
        let ghost s = self.text();
        let ghost st0 = self.state();
        let mut out: Vec<Lexem> = Vec::new();
        loop
            invariant
                self.wf(),
                self.text() == s,
                self.input_file == old(self).input_file,
                s == old(self).text(),
                st0 == old(self).state(),
                ox_lexable(s, self.state()),
                ox_all(s, st0) == out@.map_values(|l: Lexem| ox_lexem_view(l)) + ox_all(s, self.state()),
            decreases s.len() - self.pos,
        {
            let ghost st = self.state();
            proof {
                lemma_ox_next_progress(s, st);
            }
            match self.next() {
                Some(l) => {
                    let ghost v = ox_lexem_view(l);
                    let ghost m0 = out@.map_values(|l: Lexem| ox_lexem_view(l));
                    let ghost st2 = self.state();
                    assert(ox_all(s, st) == seq![v] + ox_all(s, st2));
                    out.push(l);
                    assert(out@.map_values(|l: Lexem| ox_lexem_view(l)) =~= m0.push(v));
                    assert(m0 + (seq![v] + ox_all(s, st2)) =~= m0.push(v) + ox_all(s, st2));
                },
                None => {
                    assert(ox_all(s, st) =~= Seq::empty());
                    assert(out@.map_values(|l: Lexem| ox_lexem_view(l)) + Seq::empty() =~= out@.map_values(|l: Lexem| ox_lexem_view(l)));
                    return out;
                },
            }
        }
    }
}

} // verus!
