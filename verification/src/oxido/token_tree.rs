use vstd::prelude::*;
use crate::oxido::input_file::InputFile;
use crate::oxido::span::Span;
use crate::oxido::token::Token;

verus! {

/// The tokens of an expression embedded in a format string.
#[derive(Debug)]
pub struct TokenTree {
    pub input_file: InputFile,
    pub span: Span,
    pub tokens: Vec<Token>,
}

impl TokenTree {
    /// The number of bytes that the tree spans.
    pub fn len(self) -> (r: u32)
        requires
            self.span.start.0 <= self.span.end.0,
        ensures
            r == self.span.end.0 - self.span.start.0,
    {
        self.span.len()
    }
}

} // verus!
