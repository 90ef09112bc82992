//! Source text, as the scanner receives it.

use vstd::prelude::*;
use vstd::string::StringExecFns;

verus! {

/// The text of one program or of one line typed at a prompt.
pub struct Source {
    pub contents: String,
}

impl View for Source {
    type V = Seq<char>;

    open spec fn view(&self) -> Seq<char> {
        self.contents@
    }
}

/// The error of reading a source: the message of the failure.
#[derive(Debug)]
pub struct Error {
    pub msg: String,
}

impl Source {
    /// A source that holds the text `s`.
    pub fn from(s: &str) -> (source: Source)
        ensures
            source@ == s@,
    {
        Source { contents: String::from_str(s) }
    }
}

} // verus!
