//! Protocol errors.

use vstd::prelude::*;

verus! {

/// The class of a protocol error.
#[derive(Copy, Clone, PartialEq, Eq, Debug, Structural)]
pub enum ErrorKind {
    /// The bytes do not form the field that was asked for.
    InvalidData,
    /// The bytes form a packet that the protocol does not allow.
    Other,
}

/// A packet could not be read: the class of the fault and what it is.
#[derive(Copy, Clone, PartialEq, Eq, Debug)]
pub struct Error {
    pub kind: ErrorKind,
    pub message: &'static str,
}

impl Error {
    pub fn new(kind: ErrorKind, message: &'static str) -> (e: Error)
        ensures
            e == (Error { kind, message }),
    {
        Error { kind, message }
    }

    pub fn kind(&self) -> (k: ErrorKind)
        ensures
            k == self.kind,
    {
        self.kind
    }

    pub fn message(&self) -> (m: &'static str)
        ensures
            m == self.message,
    {
        self.message
    }
}

/// An error of the class `InvalidData`.
pub open spec fn invalid_data(message: &'static str) -> Error {
    Error { kind: ErrorKind::InvalidData, message }
}

/// An error of the class `Other`.
pub open spec fn other(message: &'static str) -> Error {
    Error { kind: ErrorKind::Other, message }
}

} // verus!
