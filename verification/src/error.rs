//! The ways in which an operation on the line can fail.

use vstd::prelude::*;

verus! {

/// Why an operation was refused. A refused operation leaves the line as it was.
#[derive(Clone, Copy, Debug, PartialEq, Eq, Structural)]
pub enum SimError {
    /// The front of an empty queue was asked for or removed.
    EmptyQueue,
    /// A command line is none of `p <origin> <destination>`, `m m` and `m f`.
    MalformedCommand,
    /// A station index lies outside the line.
    UnknownStation,
}

impl SimError {
    /// The diagnostic that goes with this error.
    pub open spec fn message_text(self) -> Seq<char> {
        match self {
            SimError::EmptyQueue => "Took from front, when queue was empty"@,
            SimError::MalformedCommand => "Malformed Command"@,
            SimError::UnknownStation => "Station doesn't exist?"@,
        }
    }

    /// The diagnostic that goes with this error.
    pub fn message(&self) -> (s: &'static str)
        ensures
            s@ == self.message_text(),
    {
        match self {
            SimError::EmptyQueue => "Took from front, when queue was empty",
            SimError::MalformedCommand => "Malformed Command",
            SimError::UnknownStation => "Station doesn't exist?",
        }
    }
}

} // verus!
