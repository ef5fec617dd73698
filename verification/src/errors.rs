//! Structured errors for the configuration path of the allocator.

use vstd::prelude::*;

verus! {

/// Condition that caused an operation to fail.
#[derive(Copy, Clone, Debug, PartialEq, Eq, Structural)]
pub enum ErrorCode {
    /// The target resource is already in use (e.g. the heap handle is
    /// already initialized).
    ResourceBusy,
    /// An argument violates the operation's documented preconditions.
    InvalidArgument,
    /// The pool that should serve the request has no free block left.
    OutOfMemory,
}

/// An error: a machine-readable code plus a human-readable reason.
#[derive(Copy, Clone, Debug)]
pub struct Error {
    pub code: ErrorCode,
    pub reason: &'static str,
}

impl Error {
    /// Builds an error from its code and reason.
    pub fn new(code: ErrorCode, reason: &'static str) -> (r: Error)
        ensures
            r.code == code,
            r.reason == reason,
    {
        Error { code, reason }
    }
}

} // verus!
