//! Errors surfaced to callers.

use vstd::prelude::*;

verus! {

/// The failures the library reports. Encryption and decryption themselves
/// are infallible once their inputs validate.
#[derive(Debug, Clone, Copy, PartialEq, Eq, Structural)]
pub enum RlweError {
    /// A message entry was not a bit, or the message is too long.
    InvalidMessage,
    /// A serialized payload held the wrong number of coefficients.
    DeserializationLengthMismatch { expected: usize, actual: usize },
}

} // verus!
