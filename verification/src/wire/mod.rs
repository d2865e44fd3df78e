pub use framing::Framing;
pub use packet::Packet;

pub mod checksum;
pub mod framing;
pub mod packet;
pub mod types;
