//! The serialization traits that a type implements to be encoded and decoded.
use vstd::prelude::*;

use crate::error::DecodeError;

verus! {

/// Serialize a value into a compact binary representation: its data region
/// followed by its bit-packed region.
pub trait Encode {
    /// Encode this value into a `Vec<u8>`.
    fn encode(&self) -> Vec<u8>;
}

/// Deserialize a value from its binary representation.
///
/// The input must have been produced by the corresponding [`Encode`]
/// implementation; malformed input gives a [`DecodeError`].
pub trait Decode: Sized {
    /// Decode a value from a byte slice.
    fn decode(data: &[u8]) -> Result<Self, DecodeError>;
}

} // verus!
