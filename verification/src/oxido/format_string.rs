use vstd::prelude::*;
use crate::oxido::token_tree::TokenTree;
use crate::oxido::word::Word;

verus! {

/// A string literal made of sections: a literal like `"foo{bar}baz"` has three.
#[derive(Debug)]
pub struct FormatString {
    pub len: u32,
    pub sections: Vec<FormatStringSection>,
}

impl FormatString {
    /// True if the format string is empty.
    pub fn is_empty(self) -> (r: bool)
        ensures
            r == (self.len == 0),
    {
        self.len == 0
    }
}

#[derive(Debug)]
pub struct FormatStringSection {
    pub data: FormatStringSectionData,
}

#[derive(Debug)]
pub enum FormatStringSectionData {
    /// Plain text to be emitted directly.
    Text(Word),
    /// A token tree for an expression.
    TokenTree(TokenTree),
}

/// Whether a section's length can be taken: the span of a token tree must not run backwards.
pub open spec fn section_well_formed(s: FormatStringSection) -> bool {
    match s.data {
        FormatStringSectionData::Text(_) => true,
        FormatStringSectionData::TokenTree(t) => t.span.start.0 <= t.span.end.0,
    }
}

/// The length of a section: UTF-8 bytes of text, or the bytes that a token tree spans.
pub open spec fn section_len(s: FormatStringSection) -> u32 {
    match s.data {
        FormatStringSectionData::Text(w) => (vstd::utf8::encode_utf8(w.string@).len() as usize) as u32,
        FormatStringSectionData::TokenTree(t) => (t.span.end.0 - t.span.start.0) as u32,
    }
}

impl FormatStringSection {
    pub fn len(self) -> (r: u32)
        requires
            section_well_formed(self),
        ensures
            r == section_len(self),
    {
        match self.data {
            FormatStringSectionData::Text(w) => w.len(),
            FormatStringSectionData::TokenTree(tree) => tree.len(),
        }
    }
}

} // verus!
