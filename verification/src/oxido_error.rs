use vstd::prelude::*;

verus! {

/// What stops the reading of Oxido source text: a token other than the one expected.
#[derive(Debug)]
pub enum ParseError {
    UnexpectedToken { got: String, expected: String },
}

} // verus!
