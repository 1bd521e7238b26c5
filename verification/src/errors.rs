//! The typed errors of the analytics core. The transport layer alone
//! translates them into status codes and sanitized messages.

use vstd::prelude::*;

verus! {

/// Which query field an invalid date was supplied for.
#[derive(Clone, Copy, PartialEq, Eq, Structural, Debug)]
pub enum DateField {
    StartDate,
    EndDate,
}

/// An error surfaced by the core.
#[derive(Debug)]
pub enum VendingError {
    /// A supplied date string parses neither as a timestamp nor as a bare
    /// calendar date: a client error, never retried.
    InvalidDateFormat { field: DateField, value: String },
    /// The storage layer failed: an infrastructure error; the cause is
    /// for the server log, not the response body.
    StorageFailure { cause: String },
    /// Some stored documents could not be decoded. Soft: tolerated and
    /// counted, unless nothing decoded at all.
    PartialDecodeFailure { count: usize },
}

} // verus!
