//! The error type.

use vstd::prelude::*;

verus! {

/// Why a run stopped: a message for the person who started it.
///
/// Every failure of the library is reported this way, whether it began as a
/// malformed input value or as a missing column or argument.
#[derive(Debug, PartialEq, Eq)]
pub struct RunError {
    message: String,
}

impl View for RunError {
    type V = Seq<char>;

    closed spec fn view(&self) -> Seq<char> {
        self.message@
    }
}

impl RunError {
    /// An error that carries `message`.
    pub fn new(message: String) -> (error: RunError)
        ensures
            error@ == message@,
    {
        RunError { message }
    }

    /// An error that carries a copy of `message`.
    pub fn from_text(message: &str) -> (error: RunError)
        ensures
            error@ == message@,
    {
        RunError { message: String::from_str(message) }
    }

    /// The message.
    pub fn message(&self) -> (message: &str)
        ensures
            message@ == self@,
    {
        self.message.as_str()
    }
}

impl Clone for RunError {
    fn clone(&self) -> (error: RunError)
        ensures
            error@ == self@,
    {
        RunError { message: self.message.clone() }
    }
}

} // verus!
