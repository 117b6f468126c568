//! The error that every fallible operation of the library reports.

use vstd::prelude::*;

verus! {

/// An error, as the message that is shown for it.
#[derive(Debug, PartialEq, Eq)]
pub struct CliError {
    pub message: String,
}

impl View for CliError {
    type V = Seq<char>;

    open spec fn view(&self) -> Seq<char> {
        self.message@
    }
}

impl CliError {
    /// An error with the given message.
    pub fn new(message: &str) -> (r: CliError)
        ensures
            r@ == message@,
    {
        CliError { message: message.to_string() }
    }

    /// An error with the given message, which is taken over.
    pub fn of(message: String) -> (r: CliError)
        ensures
            r@ == message@,
    {
        CliError { message }
    }
}

} // verus!
