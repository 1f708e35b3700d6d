use vstd::prelude::*;

verus! {

/// A named source text.
#[derive(Debug, Clone, Copy)]
pub struct InputFile<'a> {
    pub filename: &'a str,
    pub content: &'a str,
}

impl<'a> InputFile<'a> {
    pub fn new(filename: &'a str, content: &'a str) -> (r: InputFile<'a>)
        ensures
            r.filename == filename,
            r.content == content,
    {
        InputFile { filename, content }
    }
}

/// A span together with the file it lies in.
#[derive(Debug)]
pub struct FileSpan<'a> {
    pub input_file: InputFile<'a>,
    pub line: usize,
    pub start: usize,
    pub end: usize,
}

impl<'a> FileSpan<'a> {
    /// The span before any character of the file: line 1, columns `[0, 0)`.
    pub fn empty(input_file: InputFile<'a>) -> (r: FileSpan<'a>)
        ensures
            r.input_file == input_file,
            r.line == 1,
            r.start == 0,
            r.end == 0,
    {
        FileSpan { input_file, line: 1, start: 0, end: 0 }
    }

    /// The same position, without the file.
    pub fn into_span(&self) -> (r: Span)
        ensures
            r == (Span { line: self.line, start: self.start, end: self.end }),
    {
        Span { line: self.line, start: self.start, end: self.end }
    }
}

/// A position inside a source file: the line and the column range `[start, end)`.
#[derive(Debug, Copy, Clone, PartialEq, Eq, Structural)]
pub struct Span {
    pub line: usize,
    pub start: usize,
    pub end: usize,
}

/// The number of lines of a text: every line ends at a newline or at the end
/// of the text, and an empty last line after a final newline is not a line.
pub open spec fn line_count(s: Seq<char>) -> nat {
    if s.len() == 0 {
        0
    } else if s.last() == '\n' {
        newline_count(s)
    } else {
        newline_count(s) + 1
    }
}

/// The number of newline characters in a text.
pub open spec fn newline_count(s: Seq<char>) -> nat
    decreases s.len(),
{
    if s.len() == 0 {
        0
    } else {
        newline_count(s.drop_last()) + if s.last() == '\n' { 1nat } else { 0nat }
    }
}

proof fn lemma_newline_count_bound(s: Seq<char>)
    ensures
        newline_count(s) <= s.len(),
    decreases s.len(),
{
    if s.len() > 0 {
        lemma_newline_count_bound(s.drop_last());
    }
}

impl Span {
    /// The span that stands for the end of a file: the last line, columns `[0, 1)`.
    pub fn default(input_file: InputFile<'_>) -> (r: Span)
        ensures
            r.line == line_count(input_file.content@),
            r.start == 0,
            r.end == 1,
    {
        let text = crate::text::chars_of(input_file.content);
        let mut newlines: usize = 0;
        let mut i: usize = 0;
        while i < text.len()
            invariant
                i <= text@.len(),
                text@ == input_file.content@,
                newlines == newline_count(text@.subrange(0, i as int)),
                newlines <= i,
            decreases text@.len() - i,
        {
            let ghost prefix = text@.subrange(0, i as int);
            assert(text@.subrange(0, (i + 1) as int).drop_last() =~= prefix);
            if text[i] == '\n' {
                newlines = newlines + 1;
            }
            i = i + 1;
        }
        proof {
            assert(text@.subrange(0, i as int) =~= text@);
        }
        let line = if text.len() == 0 {
            0
        } else if text[text.len() - 1] == '\n' {
            newlines
        } else {
            proof {
                lemma_newline_count_bound(text@.drop_last());
                assert(text@.drop_last() =~= text@.subrange(0, text@.len() - 1));
            }
            newlines + 1
        };
        Span { line, start: 0, end: 1 }
    }

    /// Merges this span with `other`: keeps the line and start of `self`, takes the end of `other`.
    pub fn merge(&self, other: Span) -> (r: Span)
        ensures
            r == merged(*self, other),
    {
        Span { line: self.line, start: self.start, end: other.end }
    }

    /// This span placed in a file.
    pub fn into_filespan<'a>(&self, input_file: InputFile<'a>) -> (r: FileSpan<'a>)
        ensures
            r.input_file == input_file,
            r.line == self.line,
            r.start == self.start,
            r.end == self.end,
    {
        FileSpan { input_file, line: self.line, start: self.start, end: self.end }
    }
}

/// The span from the start of `a` to the end of `b`, on the line of `a`.
pub open spec fn merged(a: Span, b: Span) -> Span {
    Span { line: a.line, start: a.start, end: b.end }
}

/// Merging is associative, and merging a span with itself leaves it unchanged.
pub proof fn lemma_merge_laws(a: Span, b: Span, c: Span)
    ensures
        merged(merged(a, b), c) == merged(a, merged(b, c)),
        merged(a, a) == a,
{
}

} // verus!
