//! The ways in which a request can fail.

use vstd::prelude::*;

verus! {

/// Why a request was not served.
#[derive(Clone, Copy, Debug, PartialEq, Eq, Structural)]
pub enum Failure {
    /// A parameter could not be read: a date that is not written as
    /// `YYYY-MM-DD`.
    Malformed,
    /// No note has the identifier that the request names.
    NotFound,
    /// The request names a guest that does not exist.
    Constraint,
    /// The store could not carry out the operation.
    Unavailable,
}

impl Failure {
    /// Whether the request itself is at fault, and not the store.
    pub open spec fn is_client_fault(self) -> bool {
        self != Failure::Unavailable
    }

    /// The HTTP status that reports this failure: 400 for a parameter
    /// that cannot be read, 404 for a note that does not exist, 409 for a
    /// guest that does not exist and 500 where the store is at fault.
    pub open spec fn code(self) -> int {
        match self {
            Failure::Malformed => 400,
            Failure::NotFound => 404,
            Failure::Constraint => 409,
            Failure::Unavailable => 500,
        }
    }

    /// The HTTP status that reports this failure. A fault of the request
    /// gets a status from 400 to 499, a fault of the store one from 500 to
    /// 599.
    pub fn status(&self) -> (status: u16)
        ensures
            status == self.code(),
            self.is_client_fault() <==> 400 <= status <= 499,
            !self.is_client_fault() <==> 500 <= status <= 599,
    {
        match self {
            Failure::Malformed => 400,
            Failure::NotFound => 404,
            Failure::Constraint => 409,
            Failure::Unavailable => 500,
        }
    }
}

} // verus!
