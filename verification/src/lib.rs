//! A codec for the ElectricUI binary message protocol: packet layout and
//! validation, delimiter framing, and a byte-at-a-time frame decoder.

pub use crate::error::Error;

pub mod decoder;
pub mod error;
pub mod message;
pub mod prelude;
pub mod sealed;
pub mod wire;
