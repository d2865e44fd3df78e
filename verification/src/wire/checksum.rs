//! The packet checksum: CRC-16/CCITT-FALSE.
//!
//! The checksum is the final state of a 16-bit shift register that starts
//! at `0xFFFF` and reads the message bit by bit, the most significant bit of
//! each byte first, with the generator polynomial `0x1021`. Neither the
//! input nor the output is reflected, and nothing is added at the end.

use vstd::prelude::*;

verus! {

/// The generator polynomial, without its highest term.
pub const CRC16_POLY: u16 = 0x1021;

/// The state of the register before the first message bit.
pub const CRC16_INIT: u16 = 0xFFFF;

/// The register after it has read one message bit: it moves up by one place,
/// and the polynomial is added when the bit that leaves it differs from the
/// message bit.
pub open spec fn crc16_bit(reg: u16, bit: bool) -> u16 {
    if (reg & 0x8000 != 0) != bit {
        (reg << 1) ^ CRC16_POLY
    } else {
        reg << 1
    }
}

/// Bit `index` of `byte`, where bit 0 is the least significant.
pub open spec fn bit_of(byte: u8, index: u8) -> bool {
    (byte >> index) & 1 == 1
}

/// `byte` with bit `index` turned over.
pub open spec fn flip_bit(byte: u8, index: u8) -> u8 {
    byte ^ (1u8 << index)
}

/// The register after it has read the `count` most significant bits of
/// `byte`.
pub open spec fn crc16_bits(reg: u16, byte: u8, count: nat) -> u16
    decreases count,
{
    if count == 0 || count > 8 {
        reg
    } else {
        crc16_bit(crc16_bits(reg, byte, (count - 1) as nat), bit_of(byte, (8 - count) as u8))
    }
}

/// The register after it has read all of `byte`.
pub open spec fn crc16_byte(reg: u16, byte: u8) -> u16 {
    crc16_bits(reg, byte, 8)
}

/// The CRC-16/CCITT-FALSE checksum of `data`.
pub open spec fn crc16(data: Seq<u8>) -> u16
    decreases data.len(),
{
    if data.len() == 0 {
        CRC16_INIT
    } else {
        crc16_byte(crc16(data.drop_last()), data.last())
    }
}

/// `Crc::<u16>::checksum` of the `crc` crate, on a `Crc` made from the
/// catalogue entry `CRC_16_IBM_3740` (polynomial `0x1021`, initial value
/// `0xFFFF`, no reflection, no final xor; also known as CCITT-FALSE).
/// Trusted: the crate's table-driven result is the checksum that [`crc16`]
/// defines bit by bit.
#[verifier::external_body]
pub(crate) fn crc16_checksum(data: &[u8]) -> (sum: u16)
    ensures
        sum == crc16(data@),
{
    ::crc::Crc::<u16>::new(&::crc::CRC_16_IBM_3740).checksum(data)
}

/// Two registers that differ still differ after they have read the same
/// bit, and one register that reads a bit differs by what the bit is.
proof fn lemma_crc16_bit_distinct(reg: u16, other: u16)
    ensures
        reg != other ==> crc16_bit(reg, true) != crc16_bit(other, true),
        reg != other ==> crc16_bit(reg, false) != crc16_bit(other, false),
        crc16_bit(reg, true) != crc16_bit(reg, false),
{
    assert(reg != other ==> ((if reg & 0x8000 != 0 {
        reg << 1
    } else {
        (reg << 1) ^ 0x1021
    }) != (if other & 0x8000 != 0 {
        other << 1
    } else {
        (other << 1) ^ 0x1021
    }))) by (bit_vector);
    assert(reg != other ==> ((if reg & 0x8000 != 0 {
        (reg << 1) ^ 0x1021
    } else {
        reg << 1
    }) != (if other & 0x8000 != 0 {
        (other << 1) ^ 0x1021
    } else {
        other << 1
    }))) by (bit_vector);
    assert((reg << 1) ^ 0x1021 != reg << 1) by (bit_vector);
}

/// Two registers that differ still differ after they have read the same
/// bits.
proof fn lemma_crc16_bits_distinct(reg: u16, other: u16, byte: u8, count: nat)
    requires
        reg != other,
    ensures
        crc16_bits(reg, byte, count) != crc16_bits(other, byte, count),
    decreases count,
{
    if 0 < count <= 8 {
        lemma_crc16_bits_distinct(reg, other, byte, (count - 1) as nat);
        lemma_crc16_bit_distinct(
            crc16_bits(reg, byte, (count - 1) as nat),
            crc16_bits(other, byte, (count - 1) as nat),
        );
    }
}

/// A register that reads a byte differs, from the turned bit on, by whether
/// one bit of the byte was turned over.
proof fn lemma_crc16_bits_flip(reg: u16, byte: u8, index: u8, count: nat)
    requires
        index < 8,
        count <= 8,
    ensures
        count < 8 - index ==> crc16_bits(reg, flip_bit(byte, index), count) == crc16_bits(
            reg,
            byte,
            count,
        ),
        count >= 8 - index ==> crc16_bits(reg, flip_bit(byte, index), count) != crc16_bits(
            reg,
            byte,
            count,
        ),
    decreases count,
{
    if count > 0 {
        let at = (8 - count) as u8;
        let before = crc16_bits(reg, byte, (count - 1) as nat);
        let flipped = crc16_bits(reg, flip_bit(byte, index), (count - 1) as nat);
        lemma_crc16_bits_flip(reg, byte, index, (count - 1) as nat);
        lemma_crc16_bit_distinct(before, flipped);
        assert((((byte ^ (1u8 << index)) >> at) & 1 == 1) == ((byte >> at) & 1 == 1) <==> at
            != index) by (bit_vector)
            requires
                index < 8,
                at < 8,
        ;
    }
}

/// The checksum tells a message from the same message with one bit turned
/// over.
pub proof fn lemma_crc16_sensitive(data: Seq<u8>, at: int, index: u8)
    requires
        0 <= at < data.len(),
        index < 8,
    ensures
        crc16(data.update(at, flip_bit(data[at], index))) != crc16(data),
    decreases data.len(),
{
    let other = data.update(at, flip_bit(data[at], index));
    if at == data.len() - 1 {
        assert(other.drop_last() =~= data.drop_last());
        lemma_crc16_bits_flip(crc16(data.drop_last()), data.last(), index, 8);
    } else {
        assert(other.drop_last() =~= data.drop_last().update(at, flip_bit(data[at], index)));
        lemma_crc16_sensitive(data.drop_last(), at, index);
        lemma_crc16_bits_distinct(
            crc16(other.drop_last()),
            crc16(data.drop_last()),
            data.last(),
            8,
        );
    }
}

} // verus!
