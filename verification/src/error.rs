//! The ways in which a scan fails as a whole.

use vstd::prelude::*;

verus! {

/// A fatal error of a scan. A scan that fails gives no result at all.
#[derive(Clone, Copy, Debug, PartialEq, Eq, Structural)]
pub enum ScanError {
    /// No usable interface is bound to the configured local address.
    InterfaceNotFound,
    /// A frame could not be written to the link, or not in full.
    Send,
    /// The link could not be read.
    Receive,
}

impl ScanError {
    /// A line of text that names the error.
    pub fn message(&self) -> (text: &'static str)
        ensures
            text@ == match *self {
                ScanError::InterfaceNotFound => "no interface is bound to the local address"@,
                ScanError::Send => "a frame could not be sent"@,
                ScanError::Receive => "the link could not be read"@,
            },
    {
        match self {
            ScanError::InterfaceNotFound => "no interface is bound to the local address",
            ScanError::Send => "a frame could not be sent",
            ScanError::Receive => "the link could not be read",
        }
    }
}

/// The outcome of a scan from the outcomes of its two sides: what the
/// receiving side found where both sides came to their end, and else the
/// error, that of the sending side where both failed. A result of one side
/// does not outlive a failure of the other.
pub fn conclude<T>(sent: Result<(), ScanError>, found: Result<T, ScanError>) -> (outcome: Result<
    T,
    ScanError,
>)
    ensures
        outcome == match sent {
            Err(error) => Err::<T, ScanError>(error),
            Ok(_) => found,
        },
{
    match sent {
        Err(error) => Err(error),
        Ok(_) => found,
    }
}

} // verus!
