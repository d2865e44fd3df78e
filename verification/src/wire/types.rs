//! Wire codes and payload sizes of the message types.

use crate::message::MessageType;
use vstd::prelude::*;

verus! {

impl MessageType {
    /// Returns the number of payload bytes of a message of this type with
    /// `num_elements` elements; a count of 0 stands for a single element.
    pub fn data_wire_size(self, num_elements: usize) -> (size: usize)
        requires
            num_elements * self.element_size() <= usize::MAX,
        ensures
            size == (if num_elements == 0 { 1 } else { num_elements as int }) * self.element_size(),
    {
        let cnt: usize = if num_elements < 1 { 1 } else { num_elements };
        match self {
            MessageType::Callback => 0,
            MessageType::Custom => 0,
            MessageType::OffsetMetadata => 0,
            MessageType::Unknown(_) => 0,
            MessageType::Byte | MessageType::Char | MessageType::I8 | MessageType::U8 => cnt * 1,
            MessageType::I16 | MessageType::U16 => cnt * 2,
            MessageType::I32 | MessageType::U32 => cnt * 4,
            MessageType::F32 => cnt * 4,
            MessageType::F64 => cnt * 8,
        }
    }

    /// Returns the wire code of this type.
    pub fn wire_type(self) -> (code: u8)
        ensures
            code == self.code(),
    {
        match self {
            MessageType::Callback => 0,
            MessageType::Custom => 1,
            MessageType::OffsetMetadata => 2,
            MessageType::Byte => 3,
            MessageType::Char => 4,
            MessageType::I8 => 5,
            MessageType::U8 => 6,
            MessageType::I16 => 7,
            MessageType::U16 => 8,
            MessageType::I32 => 9,
            MessageType::U32 => 10,
            MessageType::F32 => 11,
            MessageType::F64 => 12,
            MessageType::Unknown(code) => code,
        }
    }

    /// Returns the defined type that a wire code names, or `None` for a code
    /// that names none.
    pub fn from_wire(wire: u8) -> (typ: Option<Self>)
        ensures
            wire <= 12 ==> typ == Some(MessageType::of_code(wire)),
            wire > 12 ==> typ is None,
    {
        Some(
            match wire {
                0 => MessageType::Callback,
                1 => MessageType::Custom,
                2 => MessageType::OffsetMetadata,
                3 => MessageType::Byte,
                4 => MessageType::Char,
                5 => MessageType::I8,
                6 => MessageType::U8,
                7 => MessageType::I16,
                8 => MessageType::U16,
                9 => MessageType::I32,
                10 => MessageType::U32,
                11 => MessageType::F32,
                12 => MessageType::F64,
                _ => return None,
            },
        )
    }
}

} // verus!
