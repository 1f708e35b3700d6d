use vstd::prelude::*;

verus! {

/// A piece of text, such as a file name or an identifier.
#[derive(Debug, Clone, PartialEq)]
pub struct Word {
    pub string: String,
}

impl View for Word {
    type V = Seq<char>;

    open spec fn view(&self) -> Seq<char> {
        self.string@
    }
}

impl Word {
    /// The text of the word.
    pub fn as_str(&self) -> (r: &str)
        ensures
            r@ == self@,
    {
        self.string.as_str()
    }

    /// The text of the word, as an owned string.
    pub fn to_string(self) -> (r: String)
        ensures
            r@ == self@,
    {
        self.string.clone()
    }

    /// The length of the word in UTF-8 bytes, truncated to 32 bits.
    pub fn len(self) -> (r: u32)
        ensures
            r == (vstd::utf8::encode_utf8(self.string@).len() as usize) as u32,
    {
        #[verifier::truncate] (self.as_str().len() as u32)
    }
}

} // verus!
