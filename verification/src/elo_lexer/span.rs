use vstd::prelude::*;
use crate::elo_lexer::token::Token;
use crate::text::chars_of;

verus! {

/// A named source text, as the characters it holds.
#[derive(Debug)]
pub struct InputFile {
    pub filename: &'static str,
    pub content: Vec<char>,
}

impl InputFile {
    pub fn new(filename: &'static str, text: &str) -> (r: InputFile)
        ensures
            r.filename == filename,
            r.content@ == text@,
    {
        InputFile { filename, content: chars_of(text) }
    }
}

/// Where the lexer stands in a file: the line (from 1) and the columns `[start, end)`
/// of the last lexem read.
#[derive(Debug)]
pub struct FileSpan {
    pub filename: &'static str,
    pub line: usize,
    pub start: usize,
    pub end: usize,
}

impl FileSpan {
    /// The span before any character of the file: line 1, columns `[0, 0)`.
    pub fn empty(input_file: &InputFile) -> (r: FileSpan)
        ensures
            r.filename == input_file.filename,
            r.line == 1,
            r.start == 0,
            r.end == 0,
    {
        FileSpan { filename: input_file.filename, line: 1, start: 0, end: 0 }
    }

    /// The same position, without the file.
    pub fn into_span(&self) -> (r: Span)
        ensures
            r == (Span { line: self.line, start: self.start, end: self.end }),
    {
        Span { line: self.line, start: self.start, end: self.end }
    }
}

/// A position in a file: the line and the columns `[start, end)`.
#[derive(Debug, Copy, Clone, PartialEq, Eq, Structural)]
pub struct Span {
    pub line: usize,
    pub start: usize,
    pub end: usize,
}

/// A token and where it stands.
#[derive(Debug)]
pub struct Lexem {
    pub span: Span,
    pub token: Token,
}

impl Lexem {
    pub fn new(span: Span, token: Token) -> (r: Lexem)
        ensures
            r.span == span,
            r.token == token,
    {
        Lexem { span, token }
    }
}

} // verus!
