use vstd::prelude::*;

verus! {

/// What can go wrong while parsing or running a program.
#[derive(Debug, PartialEq, Eq, Structural, Clone, Copy)]
pub enum Error {
    /// The tape pointer would have moved left of cell 0.
    PtrBelowZero,
    /// The tape pointer would have moved to the end of the tape or past it.
    PtrAboveLimit,
    /// A `]` without an open `[`, or a `[` that is never closed.
    UnbalancedBrackets,
    /// A `[` directly followed by a `]`.
    InfiniteLoop,
}

impl Error {
    /// The text that describes this error.
    pub open spec fn text(self) -> Seq<char> {
        match self {
            Error::PtrBelowZero => "error: mem pointer went below zero"@,
            Error::PtrAboveLimit => "error: mem pointer went above limit 30000"@,
            Error::UnbalancedBrackets => "error: unbalanced brackets in bf source"@,
            Error::InfiniteLoop => "error: potential infinite loop in bf source"@,
        }
    }

    /// A description of this error for the user.
    pub fn message(&self) -> (msg: String)
        ensures
            msg@ == self.text(),
    {
        match self {
            Error::PtrBelowZero => "error: mem pointer went below zero".to_string(),
            Error::PtrAboveLimit => "error: mem pointer went above limit 30000".to_string(),
            Error::UnbalancedBrackets => "error: unbalanced brackets in bf source".to_string(),
            Error::InfiniteLoop => "error: potential infinite loop in bf source".to_string(),
        }
    }
}

} // verus!
