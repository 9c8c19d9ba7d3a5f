//! The text a program was read from, kept for diagnostics.

use vstd::prelude::*;
use vstd::string::*;

verus! {

/// A named source text, split into lines.
#[derive(Debug)]
pub struct Source {
    pub file: String,
    pub lines: Vec<String>,
}

impl Source {
    /// A source with the given name and lines.
    pub fn from(file: &str, lines: Vec<String>) -> (source: Source)
        ensures
            source.file@ == file@,
            source.lines == lines,
    {
        Source { file: String::from_str(file), lines }
    }
}

} // verus!
