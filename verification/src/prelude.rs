pub use crate::decoder::Decoder;
pub use crate::error::Error;
pub use crate::message::{MessageId, MessageType};
pub use crate::wire::{Framing, Packet};
