//! The ways in which reading or merging subtitles fails.

use vstd::prelude::*;

verus! {

/// Why an input was rejected. The first fault met decides.
#[derive(Clone, Copy, Debug, PartialEq, Eq, Structural)]
pub enum Error {
    /// The file extension names no known subtitle format, or there is none.
    UnrecognizedExtension,
    /// A line that the format asks for is missing or out of place.
    MalformedStructure,
    /// A timestamp does not follow the pattern of its format.
    MalformedTime,
    /// A sequence identifier is not an unsigned integer.
    MalformedInteger,
    /// A shifted time would fall outside the day.
    TimeOutOfRange,
}

impl Error {
    /// A short description, as a message for the user.
    pub fn message(&self) -> (text: &'static str)
        ensures
            text@ == match *self {
                Error::UnrecognizedExtension => "unrecognized file extension"@,
                Error::MalformedStructure => "malformed structure"@,
                Error::MalformedTime => "malformed time"@,
                Error::MalformedInteger => "malformed integer"@,
                Error::TimeOutOfRange => "time out of range"@,
            },
    {
        match self {
            Error::UnrecognizedExtension => "unrecognized file extension",
            Error::MalformedStructure => "malformed structure",
            Error::MalformedTime => "malformed time",
            Error::MalformedInteger => "malformed integer",
            Error::TimeOutOfRange => "time out of range",
        }
    }
}

} // verus!
