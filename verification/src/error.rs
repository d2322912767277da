//! The error taxonomy of the replay engine. Transport failures belong
//! to the caller that performs the fetches; the engine itself can only
//! find a log it does not understand or an empty stream.

use vstd::prelude::*;

verus! {

#[derive(Clone, Copy, PartialEq, Eq, Structural, Debug)]
pub enum Error {
    /// A log record matched no known decoder: the stream speaks a
    /// protocol schema this engine does not understand. Fatal.
    UnexpectedLogParams,
    /// No registered event at all matched over the requested range,
    /// which signals a misconfiguration. Fatal.
    NoEventsFound,
}

impl Error {
    /// A human-readable description of the error.
    pub fn message(&self) -> (r: &'static str)
        ensures
            *self is UnexpectedLogParams ==> r@ == "Unexpected parameter types in log"@,
            *self is NoEventsFound ==> r@
                == "No events found. Make sure your node is running in 'full' mode, not 'light'."@,
    {
        match self {
            Error::UnexpectedLogParams => "Unexpected parameter types in log",
            Error::NoEventsFound => "No events found. Make sure your node is running in 'full' mode, not 'light'.",
        }
    }
}

} // verus!
