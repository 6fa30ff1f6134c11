//! What can keep a schedule from being made.

use crate::timestamp::SignedDuration;
use vstd::prelude::*;

verus! {

/// Why no schedule was made.
#[derive(Debug, PartialEq, Eq)]
pub enum Error {
    /// The text is no cron expression. Holds the text.
    Parse(String),
    /// The expression has this many fields; it takes five or six.
    FieldCount(usize),
    /// The length of time is negative. Holds the length.
    DurationConversion(SignedDuration),
}

/// [`Error`] as contracts see it: the text of a [`Error::Parse`] by its
/// characters.
pub enum Failure {
    Parse(Seq<char>),
    FieldCount(usize),
    DurationConversion(SignedDuration),
}

impl View for Error {
    type V = Failure;

    open spec fn view(&self) -> Failure {
        match self {
            Error::Parse(text) => Failure::Parse(text@),
            Error::FieldCount(count) => Failure::FieldCount(*count),
            Error::DurationConversion(length) => Failure::DurationConversion(*length),
        }
    }
}

} // verus!
