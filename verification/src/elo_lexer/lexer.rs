use vstd::prelude::*;
use crate::elo_lexer::keyword::{elo_keyword_of, Keyword};
use crate::elo_lexer::span::{FileSpan, InputFile, Lexem, Span};
use crate::elo_lexer::token::{Token, TokV};
use crate::lexer::LexState;
use crate::oxido_lexer::lexer::{lemma_utf8_len_bound, utf8_len};
use crate::text::push_char;

verus! {

/// A class of characters that the lexer reads in runs.
#[derive(Debug, Copy, Clone, PartialEq, Eq, Structural)]
pub enum Run {
    /// letters, digits and `_`
    Identifier,
    /// decimal digits and `_`
    Decimal,
    /// `0`, `1` and `_`
    Binary,
    /// octal digits and `_`
    Octal,
    /// hexadecimal digits, in either case, and `_`
    Hex,
    /// anything but a newline
    NotNewline,
    /// anything but a double quote
    NotQuote,
}

pub open spec fn is_digit(c: char) -> bool {
    '0' <= c <= '9'
}

pub open spec fn is_letter(c: char) -> bool {
    ('a' <= c <= 'z') || ('A' <= c <= 'Z')
}

pub open spec fn in_run(c: char, k: Run) -> bool {
    match k {
        Run::Identifier => is_letter(c) || is_digit(c) || c == '_',
        Run::Decimal => is_digit(c) || c == '_',
        Run::Binary => c == '0' || c == '1' || c == '_',
        Run::Octal => ('0' <= c <= '7') || c == '_',
        Run::Hex => is_digit(c) || c == '_' || ('a' <= c <= 'f') || ('A' <= c <= 'F'),
        Run::NotNewline => c != '\n',
        Run::NotQuote => c != '"',
    }
}

fn char_in_run(c: char, k: Run) -> (r: bool)
    ensures
        r == in_run(c, k),
{
    match k {
        Run::Identifier => ('a' <= c && c <= 'z') || ('A' <= c && c <= 'Z') || ('0' <= c && c <= '9') || c == '_',
        Run::Decimal => ('0' <= c && c <= '9') || c == '_',
        Run::Binary => c == '0' || c == '1' || c == '_',
        Run::Octal => ('0' <= c && c <= '7') || c == '_',
        Run::Hex => ('0' <= c && c <= '9') || c == '_' || ('a' <= c && c <= 'f') || ('A' <= c && c <= 'F'),
        Run::NotNewline => c != '\n',
        Run::NotQuote => c != '"',
    }
}

pub open spec fn is_whitespace(c: char) -> bool {
    c == ' ' || c == '\r' || c == '\t' || c == '\x0b' || c == '\x0c'
}

pub open spec fn is_delimiter(c: char) -> bool {
    c == '(' || c == ')' || c == '[' || c == ']' || c == '{' || c == '}' || c == '.' || c == ','
        || c == ';' || c == ':'
}

pub open spec fn is_op(c: char) -> bool {
    c == '+' || c == '-' || c == '/' || c == '*' || c == '%' || c == '!' || c == '>' || c == '<'
        || c == '&' || c == '|' || c == '^' || c == '~' || c == '='
}

/// The characters that may follow an operator to make a two-character operator.
pub open spec fn is_op_next(c: char) -> bool {
    c == '=' || c == '+' || c == '-' || c == '&' || c == '|'
}

/// The index after the longest run of characters of class `k` that starts at `i`.
pub open spec fn run_end(s: Seq<char>, i: int, k: Run) -> int
    decreases s.len() - i,
{
    if 0 <= i < s.len() && in_run(s[i], k) {
        run_end(s, i + 1, k)
    } else {
        i
    }
}

pub proof fn lemma_run_end_bounds(s: Seq<char>, i: int, k: Run)
    requires
        0 <= i,
    ensures
        i <= run_end(s, i, k),
        i <= s.len() ==> run_end(s, i, k) <= s.len(),
        forall|j: int| i <= j < run_end(s, i, k) ==> #[trigger] in_run(s[j], k),
        0 <= run_end(s, i, k) < s.len() ==> !in_run(s[run_end(s, i, k)], k),
    decreases s.len() - i,
{
    if 0 <= i < s.len() && in_run(s[i], k) {
        lemma_run_end_bounds(s, i + 1, k);
    }
}

/// The state after a lexem that ends at `to` and is `width` columns wide.
pub open spec fn after(st: LexState, to: int, width: int) -> LexState {
    LexState { pos: to, line: st.line, start: st.end, end: st.end + width }
}

/// A word: a keyword when it is reserved, otherwise an identifier.
pub open spec fn word(w: Seq<char>) -> TokV {
    match elo_keyword_of(w) {
        Some(k) => TokV::Keyword(k),
        None => TokV::Identifier(w),
    }
}

/// An integer literal that starts at `st.pos` with the digit `s[st.pos]`: `0b`, `0o` and
/// `0x` introduce the digits of a binary, octal and hexadecimal number; any other `0` is
/// a number by itself; other numbers are decimal. Digits may be separated by `_`.
pub open spec fn numeric(s: Seq<char>, st: LexState) -> (TokV, LexState) {
    let pos = st.pos;
    if s[pos] == '0' {
        if pos + 1 < s.len() && (s[pos + 1] == 'b' || s[pos + 1] == 'o' || s[pos + 1] == 'x') {
            let (k, radix) = if s[pos + 1] == 'b' {
                (Run::Binary, 2u32)
            } else if s[pos + 1] == 'o' {
                (Run::Octal, 8u32)
            } else {
                (Run::Hex, 16u32)
            };
            let e = run_end(s, pos + 2, k);
            (TokV::Numeric(s.subrange(pos + 2, e), radix), after(st, e, e - pos))
        } else {
            (TokV::Numeric(seq!['0'], 10), after(st, pos + 1, 1))
        }
    } else {
        let e = run_end(s, pos + 1, Run::Decimal);
        (TokV::Numeric(s.subrange(pos, e), 10), after(st, e, e - pos))
    }
}

/// The next token of `s` from state `st` and the state after it; `None` at the end of the
/// text. Whitespace is skipped, and so are comments, from `#` to the end of the line, the
/// newline included.
pub open spec fn next_token(s: Seq<char>, st: LexState) -> Option<(TokV, LexState)>
    decreases s.len() - st.pos,
{
    if st.pos < 0 || st.pos >= s.len() {
        None
    } else {
        let pos = st.pos;
        let ch = s[pos];
        if ch == '#' {
            let e = run_end(s, pos + 1, Run::NotNewline);
            proof {
                lemma_run_end_bounds(s, pos + 1, Run::NotNewline);
            }
            let to = if e < s.len() { e + 1 } else { e };
            next_token(s, LexState { pos: to, line: st.line + 1, start: 0, end: 0 })
        } else if ch == '\n' {
            Some((TokV::Newline, LexState { pos: pos + 1, line: st.line + 1, start: 0, end: 0 }))
        } else if is_whitespace(ch) {
            next_token(s, LexState { pos: pos + 1, start: st.end, end: st.end + 1, ..st })
        } else if is_letter(ch) || ch == '_' {
            let e = run_end(s, pos + 1, Run::Identifier);
            Some((word(s.subrange(pos, e)), after(st, e, e - pos)))
        } else if is_digit(ch) {
            Some(numeric(s, st))
        } else if is_op(ch) {
            if pos + 1 < s.len() && is_op_next(s[pos + 1]) {
                Some((TokV::Op(ch, Some(s[pos + 1])), LexState { pos: pos + 2, line: st.line, start: st.end + 1, end: st.end + 2 }))
            } else {
                Some((TokV::Op(ch, None), after(st, pos + 1, 1)))
            }
        } else if is_delimiter(ch) {
            Some((TokV::Delimiter(ch), after(st, pos + 1, 1)))
        } else if ch == '"' {
            let e = run_end(s, pos + 1, Run::NotQuote);
            let body = s.subrange(pos + 1, e);
            Some((TokV::StringLiteral(body), LexState { pos: e + 1, line: st.line, start: st.end, end: st.end + utf8_len(body) + 2 }))
        } else {
            Some((TokV::Unknown(ch), after(st, pos + 1, 1)))
        }
    }
}

/// Whether the next token of `s` from state `st` can be read: a string that starts there
/// is closed.
pub open spec fn next_ok(s: Seq<char>, st: LexState) -> bool
    decreases s.len() - st.pos,
{
    if st.pos < 0 || st.pos >= s.len() {
        true
    } else {
        let pos = st.pos;
        let ch = s[pos];
        if ch == '#' {
            let e = run_end(s, pos + 1, Run::NotNewline);
            proof {
                lemma_run_end_bounds(s, pos + 1, Run::NotNewline);
            }
            let to = if e < s.len() { e + 1 } else { e };
            next_ok(s, LexState { pos: to, line: st.line + 1, start: 0, end: 0 })
        } else if is_whitespace(ch) {
            next_ok(s, LexState { pos: pos + 1, start: st.end, end: st.end + 1, ..st })
        } else if ch == '"' {
            run_end(s, pos + 1, Run::NotQuote) < s.len()
        } else {
            true
        }
    }
}

/// Each lexem is at least one character long, and lexing never passes the end of the text.
pub proof fn lemma_next_token_progress(s: Seq<char>, st: LexState)
    requires
        0 <= st.pos,
        next_ok(s, st),
    ensures
        next_token(s, st) matches Some((_, st2)) ==> st.pos < st2.pos <= s.len(),
    decreases s.len() - st.pos,
{
    if 0 <= st.pos < s.len() {
        let pos = st.pos;
        let ch = s[pos];
        if ch == '#' {
            lemma_run_end_bounds(s, pos + 1, Run::NotNewline);
            let e = run_end(s, pos + 1, Run::NotNewline);
            let to = if e < s.len() { e + 1 } else { e };
            lemma_next_token_progress(s, LexState { pos: to, line: st.line + 1, start: 0, end: 0 });
        } else if ch == '\n' {
        } else if is_whitespace(ch) {
            lemma_next_token_progress(s, LexState { pos: pos + 1, start: st.end, end: st.end + 1, ..st });
        } else if is_letter(ch) || ch == '_' {
            lemma_run_end_bounds(s, pos + 1, Run::Identifier);
        } else if is_digit(ch) {
            lemma_run_end_bounds(s, pos + 1, Run::Decimal);
            lemma_run_end_bounds(s, pos + 2, Run::Binary);
            lemma_run_end_bounds(s, pos + 2, Run::Octal);
            lemma_run_end_bounds(s, pos + 2, Run::Hex);
        } else if ch == '"' {
            lemma_run_end_bounds(s, pos + 1, Run::NotQuote);
        }
    }
}

/// Whether every token of `s` from state `st` can be read.
pub open spec fn lexable(s: Seq<char>, st: LexState) -> bool
    decreases s.len() - st.pos,
{
    next_ok(s, st) && match next_token(s, st) {
        None => true,
        Some((_, st2)) => if st.pos < st2.pos <= s.len() {
            lexable(s, st2)
        } else {
            true
        },
    }
}

/// When every token from `st` can be read, so can every token from the state after the next.
pub proof fn lemma_lexable_step(s: Seq<char>, st: LexState)
    requires
        0 <= st.pos,
        next_ok(s, st),
        next_token(s, st) is Some,
    ensures
        lexable(s, st) == lexable(s, next_token(s, st).unwrap().1),
{
    lemma_next_token_progress(s, st);
}

/// The span that a lexem produced in state `st` carries.
pub open spec fn span_of(st: LexState) -> Span {
    Span { line: st.line as usize, start: st.start as usize, end: st.end as usize }
}

/// All the lexems of `s` from state `st`, in order.
pub open spec fn all_lexems(s: Seq<char>, st: LexState) -> Seq<(TokV, Span)>
    decreases s.len() - st.pos,
{
    match next_token(s, st) {
        None => Seq::empty(),
        Some((t, st2)) => if st.pos < st2.pos <= s.len() {
            seq![(t, span_of(st2))] + all_lexems(s, st2)
        } else {
            Seq::empty()
        },
    }
}

/// The value of a lexem: its token's value and its span.
pub open spec fn lexem_view(l: Lexem) -> (TokV, Span) {
    (l.token@, l.span)
}

/// What stops the lexer.
#[derive(Debug, Copy, Clone, PartialEq, Eq, Structural)]
pub enum LexError {
    /// A string is not closed.
    UnterminatedStringLiteral,
}

fn copy_chars(v: &Vec<char>) -> (r: Vec<char>)
    ensures
        r@ == v@,
{
    let mut r: Vec<char> = Vec::new();
    let mut i: usize = 0;
    while i < v.len()
        invariant
            i <= v@.len(),
            r@ == v@.subrange(0, i as int),
        decreases v@.len() - i,
    {
        r.push(v[i]);
        assert(r@ =~= v@.subrange(0, i + 1));
        i = i + 1;
    }
    assert(r@ =~= v@);
    r
}

/// The lexer of Elo source text.
pub struct Lexer {
    pub input_file: InputFile,
    pub span: FileSpan,
    pub pos: usize,
}

impl Lexer {
    /// The state of the lexer, as the specification sees it.
    pub closed spec fn state(&self) -> LexState {
        LexState { pos: self.pos as int, line: self.span.line as int, start: self.span.start as int, end: self.span.end as int }
    }

    /// The characters the lexer reads.
    pub open spec fn text(&self) -> Seq<char> {
        self.input_file.content@
    }

    /// The lexer is well formed: it stands within its text, and its span grows no faster
    /// than four columns for each character read.
    pub closed spec fn wf(&self) -> bool {
        &&& self.input_file.content@.len() < usize::MAX / 8
        &&& self.pos <= self.input_file.content@.len()
        &&& self.span.start <= self.span.end <= 4 * self.pos
        &&& self.span.line <= self.pos + 1
    }

    /// A lexer at the start of a file.
    pub fn new(input_file: InputFile) -> (r: Lexer)
        requires
            input_file.content@.len() < usize::MAX / 8,
        ensures
            r.wf(),
            r.text() == input_file.content@,
            r.state() == (LexState { pos: 0, line: 1, start: 0, end: 0 }),
    {
        let span = FileSpan::empty(&input_file);
        Lexer { input_file, span, pos: 0 }
    }

    fn advance_span(&mut self, advance_length: usize)
        requires
            old(self).span.end + advance_length <= usize::MAX,
        ensures
            final(self).span.start == old(self).span.end,
            final(self).span.end == old(self).span.end + advance_length,
            final(self).span.line == old(self).span.line,
            final(self).pos == old(self).pos,
            final(self).input_file == old(self).input_file,
    {
        self.span.start = self.span.end;
        self.span.end = self.span.end + advance_length;
    }

    fn advance_line(&mut self)
        requires
            old(self).span.line < usize::MAX,
        ensures
            final(self).span.line == old(self).span.line + 1,
            final(self).span.start == 0,
            final(self).span.end == 0,
            final(self).pos == old(self).pos,
            final(self).input_file == old(self).input_file,
    {
        self.span.line = self.span.line + 1;
        self.span.start = 0;
        self.span.end = 0;
    }

    /// Reads the run of characters of class `matches` that follows, after the given start
    /// character; gives the start character and the run.
    pub fn consume_while(&mut self, start: Option<char>, matches: Run) -> (r: String)
        requires
            old(self).wf(),
        ensures
            final(self).wf(),
            final(self).input_file == old(self).input_file,
            final(self).span == old(self).span,
            final(self).state().pos == run_end(old(self).text(), old(self).state().pos, matches),
            r@ == (match start {
                Some(c) => seq![c],
                None => Seq::empty(),
            }) + old(self).text().subrange(old(self).state().pos, final(self).state().pos),
    {
        let ghost s = self.text();
        let ghost p0 = self.pos as int;
        let mut buffer = String::new();
        if let Some(c) = start {
            push_char(&mut buffer, c);
        }
        let ghost pre = buffer@;
        while self.pos < self.input_file.content.len() && char_in_run(self.input_file.content[self.pos], matches)
            invariant
                self.wf(),
                self.text() == s,
                self.input_file == old(self).input_file,
                self.span == old(self).span,
                0 <= p0 <= self.pos <= s.len(),
                run_end(s, p0, matches) == run_end(s, self.pos as int, matches),
                buffer@ == pre + s.subrange(p0, self.pos as int),
                pre == (match start {
                    Some(c) => seq![c],
                    None => Seq::<char>::empty(),
                }),
            decreases s.len() - self.pos,
        {
            let c = self.input_file.content[self.pos];
            assert(s.subrange(p0, self.pos + 1) =~= s.subrange(p0, self.pos as int).push(c));
            push_char(&mut buffer, c);
            self.pos = self.pos + 1;
        }
        buffer
    }

    fn token_numeric(&mut self, ch: char, Ghost(st): Ghost<LexState>) -> (t: Token)
        requires
            old(self).wf(),
            0 <= st.pos && st.pos + 1 == old(self).state().pos <= old(self).text().len(),
            old(self).text()[st.pos] == ch,
            is_digit(ch),
            st.end <= 4 * st.pos,
            old(self).state().line == st.line,
            old(self).state().start == st.start,
            old(self).state().end == st.end,
        ensures
            final(self).wf(),
            final(self).input_file == old(self).input_file,
            next_token(old(self).text(), st) == Some((t@, final(self).state())),
    {
        let ghost s = self.text();
        if ch == '0' {
            if self.pos < self.input_file.content.len() {
                let c = self.input_file.content[self.pos];
                if c == 'b' || c == 'o' || c == 'x' {
                    let (k, radix) = if c == 'b' {
                        (Run::Binary, 2u32)
                    } else if c == 'o' {
                        (Run::Octal, 8u32)
                    } else {
                        (Run::Hex, 16u32)
                    };
                    self.pos = self.pos + 1;
                    self.advance_span(2);
                    let number = self.consume_while(None, k);
                    proof {
                        lemma_run_end_bounds(s, st.pos + 2, k);
                        assert(Seq::<char>::empty() + s.subrange(st.pos + 2, self.pos as int) =~= s.subrange(st.pos + 2, self.pos as int));
                    }
                    let n = number.unicode_len();
                    self.span.end = self.span.end + n;
                    return Token::Numeric(number, radix);
                }
            }
            self.advance_span(1);
            let zero = String::from_str("0");
            proof {
                reveal_strlit("0");
                assert(zero@ =~= seq!['0']);
            }
            return Token::Numeric(zero, 10);
        }
        let number = self.consume_while(Some(ch), Run::Decimal);
        proof {
            lemma_run_end_bounds(s, st.pos + 1, Run::Decimal);
            assert(seq![ch] + s.subrange(st.pos + 1, self.pos as int) =~= s.subrange(st.pos, self.pos as int));
        }
        let n = number.unicode_len();
        self.advance_span(n);
        Token::Numeric(number, 10)
    }

    fn token_word(&mut self, ch: char, Ghost(st): Ghost<LexState>) -> (t: Token)
        requires
            old(self).wf(),
            0 <= st.pos && st.pos + 1 == old(self).state().pos <= old(self).text().len(),
            old(self).text()[st.pos] == ch,
            is_letter(ch) || ch == '_',
            st.end <= 4 * st.pos,
            old(self).state().line == st.line,
            old(self).state().start == st.start,
            old(self).state().end == st.end,
        ensures
            final(self).wf(),
            final(self).input_file == old(self).input_file,
            next_token(old(self).text(), st) == Some((t@, final(self).state())),
    {
        let ghost s = self.text();
        let w = self.consume_while(Some(ch), Run::Identifier);
        proof {
            lemma_run_end_bounds(s, st.pos + 1, Run::Identifier);
            assert(seq![ch] + s.subrange(st.pos + 1, self.pos as int) =~= s.subrange(st.pos, self.pos as int));
        }
        let n = w.unicode_len();
        self.advance_span(n);
        match Keyword::from_str(w.as_str()) {
            Some(kw) => Token::Keyword(kw),
            None => Token::Identifier(w),
        }
    }

    fn token_op(&mut self, ch: char, Ghost(st): Ghost<LexState>) -> (t: Token)
        requires
            old(self).wf(),
            0 <= st.pos && st.pos + 1 == old(self).state().pos <= old(self).text().len(),
            old(self).text()[st.pos] == ch,
            is_op(ch),
            st.end <= 4 * st.pos,
            old(self).state().line == st.line,
            old(self).state().start == st.start,
            old(self).state().end == st.end,
        ensures
            final(self).wf(),
            final(self).input_file == old(self).input_file,
            next_token(old(self).text(), st) == Some((t@, final(self).state())),
    {
        if self.pos < self.input_file.content.len() {
            let b = self.input_file.content[self.pos];
            if b == '=' || b == '+' || b == '-' || b == '&' || b == '|' {
                self.advance_span(1);
                self.pos = self.pos + 1;
                self.advance_span(1);
                return Token::Op(ch, Some(b));
            }
        }
        self.advance_span(1);
        Token::Op(ch, None)
    }

    fn token_string(&mut self, Ghost(st): Ghost<LexState>) -> (t: Result<Token, LexError>)
        requires
            old(self).wf(),
            0 <= st.pos && st.pos + 1 == old(self).state().pos <= old(self).text().len(),
            old(self).text()[st.pos] == '"',
            st.end <= 4 * st.pos,
            old(self).state().line == st.line,
            old(self).state().start == st.start,
            old(self).state().end == st.end,
        ensures
            final(self).wf(),
            final(self).input_file == old(self).input_file,
            t is Ok <==> next_ok(old(self).text(), st),
            t matches Ok(t) ==> next_token(old(self).text(), st) == Some((t@, final(self).state())),
            t matches Err(e) ==> e == LexError::UnterminatedStringLiteral,
    {
        let ghost s = self.text();
        let body = self.consume_while(None, Run::NotQuote);
        proof {
            lemma_run_end_bounds(s, st.pos + 1, Run::NotQuote);
            assert(Seq::<char>::empty() + s.subrange(st.pos + 1, self.pos as int) =~= s.subrange(st.pos + 1, self.pos as int));
            lemma_utf8_len_bound(body@);
        }
        if self.pos >= self.input_file.content.len() {
            return Err(LexError::UnterminatedStringLiteral);
        }
        self.pos = self.pos + 1;
        let n = body.as_str().len();
        self.advance_span(n);
        self.span.end = self.span.end + 2;
        Ok(Token::StringLiteral(body))
    }

    /// The next lexem, `None` at the end of the text, or what stops the lexer.
    pub fn try_next(&mut self) -> (r: Result<Option<Lexem>, LexError>)
        requires
            old(self).wf(),
        ensures
            final(self).wf(),
            final(self).input_file == old(self).input_file,
            r is Ok <==> next_ok(old(self).text(), old(self).state()),
            r matches Ok(x) ==> match next_token(old(self).text(), old(self).state()) {
                None => x is None && final(self).state().pos == old(self).text().len(),
                Some((t, st2)) => x is Some && x.unwrap().token@ == t && x.unwrap().span == span_of(st2)
                    && final(self).state() == st2,
            },
    {
        let ghost s = self.text();
        let ghost st0 = self.state();
        loop
            invariant
                self.wf(),
                self.text() == s,
                self.input_file == old(self).input_file,
                next_token(s, self.state()) == next_token(s, st0),
                next_ok(s, self.state()) == next_ok(s, st0),
                s == old(self).text(),
                st0 == old(self).state(),
            decreases s.len() - self.pos,
        {
            let ghost st = self.state();
            if self.pos >= self.input_file.content.len() {
                return Ok(None);
            }
            let ch = self.input_file.content[self.pos];
            self.pos = self.pos + 1;
            if ch == '#' {
                let _ = self.consume_while(Some(ch), Run::NotNewline);
                proof {
                    lemma_run_end_bounds(s, st.pos + 1, Run::NotNewline);
                }
                if self.pos < self.input_file.content.len() {
                    self.pos = self.pos + 1;
                }
                self.advance_line();
            } else if ch == '\n' {
                self.advance_line();
                return Ok(Some(Lexem::new(self.span.into_span(), Token::Newline)));
            } else if ch == ' ' || ch == '\r' || ch == '\t' || ch == '\x0b' || ch == '\x0c' {
                self.advance_span(1);
            } else if ('a' <= ch && ch <= 'z') || ('A' <= ch && ch <= 'Z') || ch == '_' {
                let token = self.token_word(ch, Ghost(st));
                return Ok(Some(Lexem::new(self.span.into_span(), token)));
            } else if '0' <= ch && ch <= '9' {
                let token = self.token_numeric(ch, Ghost(st));
                return Ok(Some(Lexem::new(self.span.into_span(), token)));
            } else if ch == '+' || ch == '-' || ch == '/' || ch == '*' || ch == '%' || ch == '!' || ch == '>' || ch == '<'
                || ch == '&' || ch == '|' || ch == '^' || ch == '~' || ch == '=' {
                let token = self.token_op(ch, Ghost(st));
                return Ok(Some(Lexem::new(self.span.into_span(), token)));
            } else if ch == '(' || ch == ')' || ch == '[' || ch == ']' || ch == '{' || ch == '}' || ch == '.' || ch == ','
                || ch == ';' || ch == ':' {
                self.advance_span(1);
                return Ok(Some(Lexem::new(self.span.into_span(), Token::Delimiter(ch))));
            } else if ch == '"' {
                let token = self.token_string(Ghost(st))?;
                return Ok(Some(Lexem::new(self.span.into_span(), token)));
            } else {
                self.advance_span(1);
                return Ok(Some(Lexem::new(self.span.into_span(), Token::Unknown(ch))));
            }
        }
    }

    /// The next lexem, or `None` at the end of the text.
    pub fn next(&mut self) -> (r: Option<Lexem>)
        requires
            old(self).wf(),
            next_ok(old(self).text(), old(self).state()),
        ensures
            final(self).wf(),
            final(self).input_file == old(self).input_file,
            match next_token(old(self).text(), old(self).state()) {
                None => r is None && final(self).state().pos == old(self).text().len(),
                Some((t, st2)) => r is Some && r.unwrap().token@ == t && r.unwrap().span == span_of(st2)
                    && final(self).state() == st2,
            },
    {
        match self.try_next() {
            Ok(x) => x,
            Err(_) => None,
        }
    }

    /// Whether every lexem that remains can be read.
    pub fn check(&self) -> (r: bool)
        requires
            self.wf(),
        ensures
            r == lexable(self.text(), self.state()),
    {
        let ghost s = self.text();
        let ghost st0 = self.state();
        let mut copy = Lexer {
            input_file: InputFile { filename: self.input_file.filename, content: copy_chars(&self.input_file.content) },
            span: FileSpan { filename: self.span.filename, line: self.span.line, start: self.span.start, end: self.span.end },
            pos: self.pos,
        };
        loop
            invariant
                copy.wf(),
                copy.text() == s,
                s == self.text(),
                st0 == self.state(),
                0 <= copy.state().pos,
                lexable(s, copy.state()) == lexable(s, st0),
            decreases s.len() - copy.pos,
        {
            let ghost st = copy.state();
            proof {
                if next_ok(s, st) {
                    lemma_next_token_progress(s, st);
                }
            }
            match copy.try_next() {
                Err(_) => {
                    return false;
                },
                Ok(None) => {
                    return true;
                },
                Ok(Some(_)) => {
                    proof {
                        lemma_lexable_step(s, st);
                    }
                },
            }
        }
    }

    /// All the lexems that remain, in order.
    pub fn lexems(&mut self) -> (r: Vec<Lexem>)
        requires
            old(self).wf(),
            lexable(old(self).text(), old(self).state()),
        ensures
            final(self).wf(),
            final(self).input_file == old(self).input_file,
            r@.map_values(|l: Lexem| lexem_view(l)) == all_lexems(old(self).text(), old(self).state()),
    {
        let ghost s = self.text();
        let ghost st0 = self.state();
        let mut out: Vec<Lexem> = Vec::new();
        loop
            invariant
                self.wf(),
                self.text() == s,
                self.input_file == old(self).input_file,
                s == old(self).text(),
                st0 == old(self).state(),
                lexable(s, self.state()),
                all_lexems(s, st0) == out@.map_values(|l: Lexem| lexem_view(l)) + all_lexems(s, self.state()),
            decreases s.len() - self.pos,
        {
            let ghost st = self.state();
            proof {
                lemma_next_token_progress(s, st);
            }
            match self.next() {
                Some(l) => {
                    let ghost v = lexem_view(l);
                    let ghost m0 = out@.map_values(|l: Lexem| lexem_view(l));
                    let ghost st2 = self.state();
                    assert(all_lexems(s, st) == seq![v] + all_lexems(s, st2));
                    out.push(l);
                    assert(out@.map_values(|l: Lexem| lexem_view(l)) =~= m0.push(v));
                    assert(m0 + (seq![v] + all_lexems(s, st2)) =~= m0.push(v) + all_lexems(s, st2));
                },
                None => {
                    assert(all_lexems(s, st) =~= Seq::empty());
                    assert(out@.map_values(|l: Lexem| lexem_view(l)) + Seq::empty() =~= out@.map_values(|l: Lexem| lexem_view(l)));
                    return out;
                },
            }
        }
    }
}

} // verus!
