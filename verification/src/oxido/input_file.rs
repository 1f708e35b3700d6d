use vstd::prelude::*;
use crate::oxido::span::LineColumn;
use crate::oxido::word::Word;

verus! {

/// A source file: its name, its text and the breakpoints set in it.
#[derive(Debug, Clone, PartialEq)]
pub struct InputFile {
    pub name: Word,
    /// The raw contents of this input file, as a string.
    pub source_text: String,
    /// The locations of any breakpoints set in this file.
    pub breakpoint_locations: Vec<LineColumn>,
}

/// The mathematical value of an input file.
pub ghost struct InputFileV {
    pub name: Seq<char>,
    pub source_text: Seq<char>,
    pub breakpoint_locations: Seq<LineColumn>,
}

impl View for InputFile {
    type V = InputFileV;

    open spec fn view(&self) -> InputFileV {
        InputFileV {
            name: self.name@,
            source_text: self.source_text@,
            breakpoint_locations: self.breakpoint_locations@,
        }
    }
}

impl InputFile {
    /// The name of the file.
    pub fn name_str(&self) -> (r: &str)
        ensures
            r@ == self.name@,
    {
        self.name.as_str()
    }

    /// An equal, separately owned file.
    pub fn copy(&self) -> (r: InputFile)
        ensures
            r@ == self@,
    {
        let mut breakpoints: Vec<LineColumn> = Vec::new();
        let mut i: usize = 0;
        while i < self.breakpoint_locations.len()
            invariant
                i <= self.breakpoint_locations@.len(),
                breakpoints@ == self.breakpoint_locations@.subrange(0, i as int),
            decreases self.breakpoint_locations@.len() - i,
        {
            breakpoints.push(self.breakpoint_locations[i]);
            i = i + 1;
            assert(breakpoints@ =~= self.breakpoint_locations@.subrange(0, i as int));
        }
        assert(breakpoints@ =~= self.breakpoint_locations@);
        InputFile {
            name: Word { string: self.name.string.clone() },
            source_text: self.source_text.clone(),
            breakpoint_locations: breakpoints,
        }
    }
}

} // verus!
