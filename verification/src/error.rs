//! The errors of the three parts of the codec, in one type.

use vstd::prelude::*;

verus! {

/// An error of the packet, of the framing or of the decoder.
#[derive(Copy, Clone, Debug)]
pub enum Error {
    /// A packet error.
    Packet(crate::wire::packet::Error),
    /// A framing error.
    Framing(crate::wire::framing::Error),
    /// A decoder error.
    Decoder(crate::decoder::Error),
}

} // verus!
