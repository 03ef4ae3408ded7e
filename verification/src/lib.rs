//! Compact binary serialization with bit-packing support.
//!
//! An encoded message has two regions: a data region of whole bytes at the
//! front, read front to back, and a bit-packed region at the back, read from
//! the end of the buffer towards the front.
pub mod bits;
pub mod codec;
pub mod definition;
pub mod decode_helper;
pub mod encode_helper;
pub mod error;
pub mod laws;
pub mod layout_laws;
pub mod message;
pub mod schema;
pub mod traits;

pub use crate::decode_helper::DecodeHelper;
pub use crate::encode_helper::EncodeHelper;
pub use crate::error::DecodeError;
pub use crate::traits::{Decode, Encode};
