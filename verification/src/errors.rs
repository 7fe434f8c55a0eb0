//! Error taxonomy of the controller core.

use vstd::prelude::*;

verus! {

/// Failures the core can report to its caller.
///
/// `IOError` marks a script file that could not be read.
/// `TransportError` marks a serial endpoint that could not be opened
/// or written.  `EnumerationError` marks a failed host query for
/// endpoints; it is recovered — the caller still gets a valid, empty
/// listing — and carried beside it only as a diagnostic notice.  The
/// first and last are raised by the unverified shell around this
/// library, which owns file access and the host query.
pub enum CoreError {
    IOError { message: String },
    TransportError { message: String },
    EnumerationError { message: String },
}

impl CoreError {
    /// Human-readable description of the failure.
    pub fn message(&self) -> (r: &String)
        ensures
            r == (match self {
                CoreError::IOError { message } => message,
                CoreError::TransportError { message } => message,
                CoreError::EnumerationError { message } => message,
            }),
    {
        match self {
            CoreError::IOError { message } => message,
            CoreError::TransportError { message } => message,
            CoreError::EnumerationError { message } => message,
        }
    }

    /// True exactly on the transport kind of failure.
    pub fn is_transport(&self) -> (r: bool)
        ensures
            r == (self is TransportError),
    {
        match self {
            CoreError::TransportError { .. } => true,
            _ => false,
        }
    }
}

} // verus!
