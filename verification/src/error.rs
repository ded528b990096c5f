//! The error every operation reports: what went wrong, and whether a later
//! attempt might not meet it.

use vstd::prelude::*;

verus! {

/// An error as its text and its verdict.
pub struct Fault {
    pub message: Seq<char>,
    pub retryable: bool,
}

/// Why an operation failed.
#[derive(Clone, Debug, PartialEq, Eq)]
pub struct TransportError {
    pub message: String,
    /// True where trying again may succeed.
    pub retryable: bool,
}

impl View for TransportError {
    type V = Fault;

    open spec fn view(&self) -> Fault {
        Fault { message: self.message@, retryable: self.retryable }
    }
}

/// The fault that trying again would meet again.
pub open spec fn lasting(message: Seq<char>) -> Fault {
    Fault { message, retryable: false }
}

/// The fault that a later attempt may not meet.
pub open spec fn passing(message: Seq<char>) -> Fault {
    Fault { message, retryable: true }
}

/// What an operation returned and what it was to return: the same value, or
/// the same fault.
pub open spec fn agrees<T: View>(
    result: Result<T, TransportError>,
    model: Result<T::V, Fault>,
) -> bool {
    match (result, model) {
        (Ok(value), Ok(expected)) => value@ == expected,
        (Err(error), Err(fault)) => error@ == fault,
        _ => false,
    }
}

impl TransportError {
    /// An error that trying again would meet again.
    #[must_use]
    pub fn permanent(message: String) -> (error: Self)
        ensures
            error@ == lasting(message@),
    {
        TransportError { message, retryable: false }
    }

    /// An error that a later attempt may not meet.
    #[must_use]
    pub fn retryable(message: String) -> (error: Self)
        ensures
            error@ == passing(message@),
    {
        TransportError { message, retryable: true }
    }
}

/// The error of a peer that does not keep to the protocol.
#[must_use]
pub fn protocol_error(message: &str) -> (error: TransportError)
    ensures
        error@ == lasting(message@),
{
    TransportError::permanent(message.to_owned())
}

} // verus!
