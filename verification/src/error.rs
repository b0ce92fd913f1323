//! Error codes returned to user space.
use vstd::prelude::*;

verus! {

#[derive(Debug, Clone, Copy, PartialEq, Eq, Structural)]
pub enum ErrorCode {
    InvalidArg,
    OutOfBounds,
    NotAllowed,
    AlreadyMapped,
    OutOfMemory,
    TooManyHandles,
    HandleNotFound,
    Empty,
    InvalidState,
    AlreadyExists,
    InvalidHandle,
    InvalidPageAttrs,
    Unsupported,
}

} // verus!
