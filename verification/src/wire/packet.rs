//! The packet: a view of a byte buffer as header, message id, payload and
//! checksum.
//!
//! | Bytes | Bits | Field |
//! |---|---|---|
//! | 0, 1 | 0 to 9 | data length |
//! | 1 | 2 to 5 | message type |
//! | 1 | 6 | internal flag |
//! | 1 | 7 | offset flag |
//! | 2 | 0 to 3 | id length |
//! | 2 | 4 | response flag |
//! | 2 | 5 to 7 | acknowledge number |
//!
//! The message id follows the header, the payload follows the id, and the
//! checksum of all that, low byte first, follows the payload.

use crate::message::{is_valid_id, MessageId, MessageType};
use crate::wire::checksum::{crc16, crc16_checksum, flip_bit, lemma_crc16_sensitive};
use crate::wire::framing::{cobs_decoded, cobs_encoded, cobs_well_formed, lemma_decode_encoded};
use byteorder::{ByteOrder, LittleEndian};
use vstd::prelude::*;
use vstd::slice::slice_subrange;

verus! {

/// What can be wrong with a packet, or with a value given for one of its
/// fields.
#[derive(Debug, Copy, Clone, Eq, PartialEq, Structural)]
pub enum Error {
    /// Not enough bytes for a header.
    MissingHeader,
    /// Not enough bytes for a header and a checksum.
    MissingChecksum,
    /// Not enough bytes for the id and the payload that the header announces.
    IncompletePayload,
    /// The checksum stored in the packet is not the checksum of its bytes.
    InvalidChecksum,
    /// The length of a message id must be 1 to 15.
    InvalidMessageIdLength,
    /// The bytes of the message id name no message.
    InvalidMessageId,
    /// The length of a payload must be at most 1024.
    InvalidDataLength,
    /// The code of the message type names no defined type.
    UnknownMessageType(u8),
}

/// Storage that a packet can be read from.
pub trait Buffer {
    /// The bytes in the storage.
    spec fn bytes(&self) -> Seq<u8>;

    fn as_slice(&self) -> (slice: &[u8])
        ensures
            slice@ == self.bytes(),
    ;
}

/// Storage that a packet can be written to.
pub trait BufferMut: Buffer {
    fn as_mut_slice(&mut self) -> (slice: &mut [u8])
        ensures
            slice@ == old(self).bytes(),
            final(self).bytes() == final(slice)@,
    ;
}

impl<'a> Buffer for &'a [u8] {
    open spec fn bytes(&self) -> Seq<u8> {
        (*self)@
    }

    fn as_slice(&self) -> (slice: &[u8]) {
        *self
    }
}

impl<'a> Buffer for &'a mut [u8] {
    open spec fn bytes(&self) -> Seq<u8> {
        (*self)@
    }

    fn as_slice(&self) -> (slice: &[u8]) {
        &**self
    }
}

impl<'a> BufferMut for &'a mut [u8] {
    fn as_mut_slice(&mut self) -> (slice: &mut [u8]) {
        &mut **self
    }
}

impl<const N: usize> Buffer for [u8; N] {
    open spec fn bytes(&self) -> Seq<u8> {
        self@
    }

    fn as_slice(&self) -> (slice: &[u8]) {
        self.as_slice()
    }
}

impl<const N: usize> BufferMut for [u8; N] {
    fn as_mut_slice(&mut self) -> (slice: &mut [u8]) {
        let slice: &mut [u8] = self;
        slice
    }
}

impl Buffer for Vec<u8> {
    open spec fn bytes(&self) -> Seq<u8> {
        self@
    }

    fn as_slice(&self) -> (slice: &[u8]) {
        self.as_slice()
    }
}

impl BufferMut for Vec<u8> {
    fn as_mut_slice(&mut self) -> (slice: &mut [u8]) {
        self.as_mut_slice()
    }
}

/// The 16-bit number whose low byte is `lo` and whose high byte is `hi`.
pub open spec fn u16_le(lo: u8, hi: u8) -> u16 {
    (lo as int + 256 * (hi as int)) as u16
}

/// `LittleEndian::read_u16` of the `byteorder` crate: the number made of the
/// first two bytes of `buf`, low byte first.
#[verifier::external_body]
fn read_u16_le(buf: &[u8]) -> (value: u16)
    requires
        buf@.len() >= 2,
    ensures
        value == u16_le(buf@[0], buf@[1]),
{
    LittleEndian::read_u16(buf)
}

/// `LittleEndian::write_u16` of the `byteorder` crate: the first two bytes
/// of `buf` become the low and the high byte of `value`; the rest stays.
#[verifier::external_body]
fn write_u16_le(buf: &mut [u8], value: u16)
    requires
        old(buf)@.len() >= 2,
    ensures
        final(buf)@ == old(buf)@.update(0, (value % 256) as u8).update(1, (value / 256) as u8),
{
    LittleEndian::write_u16(buf, value)
}

/// The length of the payload that the header of `b` announces.
pub open spec fn data_length_of(b: Seq<u8>) -> nat {
    b[0] as nat + 256 * (b[1] as nat % 4)
}

/// The code of the message type in the header of `b`.
pub open spec fn typ_of(b: Seq<u8>) -> nat {
    (b[1] as nat / 4) % 16
}

/// The internal flag in the header of `b`.
pub open spec fn internal_of(b: Seq<u8>) -> bool {
    (b[1] as nat / 64) % 2 == 1
}

/// The offset flag in the header of `b`.
pub open spec fn offset_of(b: Seq<u8>) -> bool {
    b[1] as nat / 128 == 1
}

/// The length of the message id that the header of `b` announces.
pub open spec fn id_length_of(b: Seq<u8>) -> nat {
    b[2] as nat % 16
}

/// The response flag in the header of `b`.
pub open spec fn response_of(b: Seq<u8>) -> bool {
    (b[2] as nat / 16) % 2 == 1
}

/// The acknowledge number in the header of `b`.
pub open spec fn acknum_of(b: Seq<u8>) -> nat {
    b[2] as nat / 32
}

/// The number of bytes of the packet that the header of `b` announces:
/// header, id, payload and checksum.
pub open spec fn wire_size_of(b: Seq<u8>) -> nat {
    5 + id_length_of(b) + data_length_of(b)
}

/// The bytes of `b` that the checksum covers: header, id and payload.
pub open spec fn covered_of(b: Seq<u8>) -> Seq<u8> {
    b.subrange(0, wire_size_of(b) - 2)
}

/// The bytes of the message id in `b`.
pub open spec fn msg_id_of(b: Seq<u8>) -> Seq<u8> {
    b.subrange(3, 3 + id_length_of(b) as int)
}

/// The bytes of the payload in `b`.
pub open spec fn payload_of(b: Seq<u8>) -> Seq<u8> {
    b.subrange(3 + id_length_of(b) as int, wire_size_of(b) - 2)
}

/// The checksum stored in `b`, behind the payload.
pub open spec fn checksum_of(b: Seq<u8>) -> u16 {
    u16_le(b[wire_size_of(b) - 2], b[wire_size_of(b) - 1])
}

/// Whether `b` is long enough for a header and a checksum.
pub open spec fn len_check(b: Seq<u8>) -> Result<(), Error> {
    if b.len() < 3 {
        Err(Error::MissingHeader)
    } else if b.len() < 5 {
        Err(Error::MissingChecksum)
    } else {
        Ok(())
    }
}

/// Whether `b`, which has a header, announces an id and is long enough for
/// what it announces.
pub open spec fn payload_length_check(b: Seq<u8>) -> Result<(), Error> {
    if id_length_of(b) == 0 {
        Err(Error::InvalidMessageIdLength)
    } else if b.len() < wire_size_of(b) {
        Err(Error::IncompletePayload)
    } else {
        Ok(())
    }
}

/// Whether the checksum stored in `b` is the checksum of the bytes it covers.
pub open spec fn checksum_check(b: Seq<u8>) -> Result<(), Error> {
    if id_length_of(b) == 0 {
        Err(Error::InvalidMessageIdLength)
    } else if checksum_of(b) != crc16(covered_of(b)) {
        Err(Error::InvalidChecksum)
    } else {
        Ok(())
    }
}

/// The verdict on `b` as a packet: the first of the three checks that fails,
/// in the order length, announced lengths, checksum.
pub open spec fn validate(b: Seq<u8>) -> Result<(), Error> {
    if len_check(b) is Err {
        len_check(b)
    } else if payload_length_check(b) is Err {
        payload_length_check(b)
    } else {
        checksum_check(b)
    }
}

/// A view of a buffer as a packet. The packet does not own a copy of the
/// buffer: it reads and writes the fields in place.
#[derive(Debug, Clone)]
pub struct Packet<T: Buffer> {
    buffer: T,
}

impl<T: Buffer> View for Packet<T> {
    type V = Seq<u8>;

    closed spec fn view(&self) -> Seq<u8> {
        self.buffer.bytes()
    }
}

impl<T: Buffer> Packet<T> {
    pub const HEADER_SIZE: usize = 3;

    pub const CHECKSUM_SIZE: usize = 2;

    pub const OFFSET_SIZE: usize = 2;

    pub const MAX_PAYLOAD_SIZE: usize = 1024;

    pub const MAX_MSG_ID_SIZE: usize = 15;

    pub const BASE_PACKET_SIZE: usize = 5;

    pub const MAX_PACKET_SIZE: usize = 1044;

    /// Whether the packet passes all checks.
    pub open spec fn is_valid(&self) -> bool {
        validate(self@) is Ok
    }

    /// Views `buffer` as a packet without looking at it. This is for a
    /// buffer whose fields are still to be filled in.
    pub fn new_unchecked(buffer: T) -> (p: Packet<T>)
        ensures
            p@ == buffer.bytes(),
    {
        Packet { buffer }
    }

    /// Views `buffer` as a packet if it holds a valid one, and says what is
    /// wrong with it if it does not.
    pub fn new(buffer: T) -> (r: Result<Packet<T>, Error>)
        ensures
            match r {
                Ok(p) => validate(buffer.bytes()) is Ok && p@ == buffer.bytes(),
                Err(e) => validate(buffer.bytes()) == Err::<(), Error>(e),
            },
    {
        let p = Self::new_unchecked(buffer);
        if let Err(e) = p.check_len() {
            return Err(e);
        }
        if let Err(e) = p.check_payload_length() {
            return Err(e);
        }
        if let Err(e) = p.check_checksum() {
            return Err(e);
        }
        Ok(p)
    }

    /// Checks that the buffer can hold a header and a checksum.
    pub fn check_len(&self) -> (r: Result<(), Error>)
        ensures
            r == len_check(self@),
    {
        let len = self.buffer.as_slice().len();
        if len < 3 {
            Err(Error::MissingHeader)
        } else if len < 3 + 2 {
            Err(Error::MissingChecksum)
        } else {
            Ok(())
        }
    }

    /// Checks that the buffer can hold the message id and the payload that
    /// the header announces.
    pub fn check_payload_length(&self) -> (r: Result<(), Error>)
        requires
            self@.len() >= 3,
        ensures
            r == payload_length_check(self@),
    {
        let id_len = match self.id_length() {
            Ok(n) => n,
            Err(e) => { return Err(e); },
        };
        let data_len = self.data_length() as usize;
        let len = self.buffer.as_slice().len();
        if len < Self::buffer_len(id_len, data_len) {
            Err(Error::IncompletePayload)
        } else {
            Ok(())
        }
    }

    /// Checks the stored checksum against the bytes it covers.
    pub fn check_checksum(&self) -> (r: Result<(), Error>)
        requires
            self@.len() >= 3,
            id_length_of(self@) > 0 ==> self@.len() >= wire_size_of(self@),
        ensures
            r == checksum_check(self@),
    {
        let provided = match self.checksum() {
            Ok(sum) => sum,
            Err(e) => { return Err(e); },
        };
        let computed = match self.compute_checksum() {
            Ok(sum) => sum,
            Err(e) => { return Err(e); },
        };
        if computed != provided {
            Err(Error::InvalidChecksum)
        } else {
            Ok(())
        }
    }

    /// Returns the number of bytes of the packet that the header announces.
    pub fn wire_size(&self) -> (r: Result<usize, Error>)
        requires
            self@.len() >= 3,
        ensures
            id_length_of(self@) == 0 ==> r == Err::<usize, Error>(Error::InvalidMessageIdLength),
            id_length_of(self@) > 0 ==> r is Ok && r.unwrap() == wire_size_of(self@),
    {
        let id_len = match self.id_length() {
            Ok(n) => n,
            Err(e) => { return Err(e); },
        };
        let data_len = self.data_length() as usize;
        Ok(Self::buffer_len(id_len, data_len))
    }

    /// Gives the buffer back.
    pub fn into_inner(self) -> (buffer: T)
        ensures
            buffer.bytes() == self@,
    {
        self.buffer
    }

    /// Returns the length of the buffer that a packet with an id of
    /// `n_msg_id_bytes` bytes and a payload of `n_payload_bytes` bytes takes.
    pub fn buffer_len(n_msg_id_bytes: usize, n_payload_bytes: usize) -> (len: usize)
        requires
            5 + n_msg_id_bytes + n_payload_bytes <= usize::MAX,
        ensures
            len == 5 + n_msg_id_bytes + n_payload_bytes,
    {
        3 + 2 + n_msg_id_bytes + n_payload_bytes
    }

    /// Returns the length of the payload.
    pub fn data_length(&self) -> (len: u16)
        requires
            self@.len() >= 2,
        ensures
            len == data_length_of(self@),
    {
        let data = self.buffer.as_slice();
        let raw = read_u16_le(data);
        let len = raw & 0x3FF;
        proof {
            let lo = data@[0];
            let hi = data@[1];
            assert(len == lo as u16 + 256 * (hi as u16 % 4)) by (bit_vector)
                requires
                    len == raw & 0x3FF,
                    raw == lo as u16 + 256 * (hi as u16),
            ;
        }
        len
    }

    /// Returns the code of the message type.
    pub fn typ_raw(&self) -> (code: u8)
        requires
            self@.len() >= 2,
        ensures
            code == typ_of(self@),
    {
        let data = self.buffer.as_slice();
        let byte = data[1];
        assert((byte >> 2) & 0x0F == (byte / 4) % 16) by (bit_vector);
        (byte >> 2) & 0x0F
    }

    /// Returns the message type, if its code names a defined type.
    pub fn typ(&self) -> (r: Result<MessageType, Error>)
        requires
            self@.len() >= 2,
        ensures
            typ_of(self@) <= 12 ==> r == Ok::<MessageType, Error>(
                MessageType::of_code(typ_of(self@) as u8),
            ),
            typ_of(self@) > 12 ==> r == Err::<MessageType, Error>(
                Error::UnknownMessageType(typ_of(self@) as u8),
            ),
    {
        let typ = self.typ_raw();
        match MessageType::from_wire(typ) {
            Some(t) => Ok(t),
            None => Err(Error::UnknownMessageType(typ)),
        }
    }

    /// Returns the internal flag.
    pub fn internal(&self) -> (flag: bool)
        requires
            self@.len() >= 2,
        ensures
            flag == internal_of(self@),
    {
        let data = self.buffer.as_slice();
        let byte = data[1];
        assert(((byte >> 6) & 0x01 != 0) == ((byte / 64) % 2 == 1)) by (bit_vector);
        ((byte >> 6) & 0x01) != 0
    }

    /// Returns the offset flag.
    pub fn offset(&self) -> (flag: bool)
        requires
            self@.len() >= 2,
        ensures
            flag == offset_of(self@),
    {
        let data = self.buffer.as_slice();
        let byte = data[1];
        assert(((byte >> 7) & 0x01 != 0) == (byte / 128 == 1)) by (bit_vector);
        ((byte >> 7) & 0x01) != 0
    }

    /// Returns the length of the message id as the header has it.
    pub fn id_length_raw(&self) -> (len: u8)
        requires
            self@.len() >= 3,
        ensures
            len == id_length_of(self@),
    {
        let data = self.buffer.as_slice();
        let byte = data[2];
        assert(byte & 0x0F == byte % 16) by (bit_vector);
        byte & 0x0F
    }

    /// Returns the length of the message id, which must not be 0.
    pub fn id_length(&self) -> (r: Result<usize, Error>)
        requires
            self@.len() >= 3,
        ensures
            id_length_of(self@) == 0 ==> r == Err::<usize, Error>(Error::InvalidMessageIdLength),
            id_length_of(self@) > 0 ==> r is Ok && r.unwrap() == id_length_of(self@),
    {
        let id = self.id_length_raw();
        if id == 0 {
            Err(Error::InvalidMessageIdLength)
        } else {
            Ok(id as usize)
        }
    }

    /// Returns the response flag.
    pub fn response(&self) -> (flag: bool)
        requires
            self@.len() >= 3,
        ensures
            flag == response_of(self@),
    {
        let data = self.buffer.as_slice();
        let byte = data[2];
        assert(((byte >> 4) & 0x01 != 0) == ((byte / 16) % 2 == 1)) by (bit_vector);
        ((byte >> 4) & 0x01) != 0
    }

    /// Returns the acknowledge number.
    pub fn acknum(&self) -> (num: u8)
        requires
            self@.len() >= 3,
        ensures
            num == acknum_of(self@),
    {
        let data = self.buffer.as_slice();
        let byte = data[2];
        assert((byte >> 5) & 0x07 == byte / 32) by (bit_vector);
        (byte >> 5) & 0x07
    }

    /// Returns the checksum stored behind the payload.
    pub fn checksum(&self) -> (r: Result<u16, Error>)
        requires
            self@.len() >= 3,
            id_length_of(self@) > 0 ==> self@.len() >= wire_size_of(self@),
        ensures
            id_length_of(self@) == 0 ==> r == Err::<u16, Error>(Error::InvalidMessageIdLength),
            id_length_of(self@) > 0 ==> r == Ok::<u16, Error>(checksum_of(self@)),
    {
        let id_len = match self.id_length() {
            Ok(n) => n,
            Err(e) => { return Err(e); },
        };
        let data_len = self.data_length() as usize;
        let start = 3 + id_len + data_len;
        let end = start + 2;
        let data = self.buffer.as_slice();
        Ok(read_u16_le(slice_subrange(data, start, end)))
    }

    /// Computes the checksum of the header, the id and the payload.
    pub fn compute_checksum(&self) -> (r: Result<u16, Error>)
        requires
            self@.len() >= 3,
            id_length_of(self@) > 0 ==> self@.len() >= wire_size_of(self@) - 2,
        ensures
            id_length_of(self@) == 0 ==> r == Err::<u16, Error>(Error::InvalidMessageIdLength),
            id_length_of(self@) > 0 ==> r == Ok::<u16, Error>(crc16(covered_of(self@))),
    {
        let id_len = match self.id_length() {
            Ok(n) => n,
            Err(e) => { return Err(e); },
        };
        let data_len = self.data_length() as usize;
        let end = 3 + id_len + data_len;
        let data = self.buffer.as_slice();
        Ok(crc16_checksum(slice_subrange(data, 0, end)))
    }
}

impl<'a> Packet<&'a [u8]> {
    /// Returns the bytes of the message id.
    pub fn msg_id_raw(&self) -> (r: Result<&'a [u8], Error>)
        requires
            self@.len() >= 3,
            self@.len() >= 3 + id_length_of(self@),
        ensures
            id_length_of(self@) == 0 ==> r == Err::<&[u8], Error>(Error::InvalidMessageIdLength),
            id_length_of(self@) > 0 ==> r is Ok && r.unwrap()@ == msg_id_of(self@),
    {
        let id_len = match self.id_length() {
            Ok(n) => n,
            Err(e) => { return Err(e); },
        };
        let end = 3 + id_len;
        let data: &'a [u8] = self.buffer;
        Ok(slice_subrange(data, 3, end))
    }

    /// Returns the message id, if its bytes name a message.
    pub fn msg_id(&self) -> (r: Result<MessageId<'a>, Error>)
        requires
            self@.len() >= 3,
            self@.len() >= 3 + id_length_of(self@),
        ensures
            id_length_of(self@) == 0 ==> r == Err::<MessageId, Error>(
                Error::InvalidMessageIdLength,
            ),
            id_length_of(self@) > 0 && !is_valid_id(msg_id_of(self@)) ==> r == Err::<
                MessageId,
                Error,
            >(Error::InvalidMessageId),
            id_length_of(self@) > 0 && is_valid_id(msg_id_of(self@)) ==> r is Ok && r.unwrap()@
                == msg_id_of(self@),
    {
        let msg_id = match self.msg_id_raw() {
            Ok(bytes) => bytes,
            Err(e) => { return Err(e); },
        };
        match MessageId::new(msg_id) {
            Some(id) => Ok(id),
            None => Err(Error::InvalidMessageId),
        }
    }

    /// Returns the bytes of the payload.
    pub fn payload(&self) -> (r: Result<&'a [u8], Error>)
        requires
            self@.len() >= 3,
            id_length_of(self@) > 0 ==> self@.len() >= wire_size_of(self@) - 2,
        ensures
            id_length_of(self@) == 0 ==> r == Err::<&[u8], Error>(Error::InvalidMessageIdLength),
            id_length_of(self@) > 0 ==> r is Ok && r.unwrap()@ == payload_of(self@),
    {
        let id_len = match self.id_length() {
            Ok(n) => n,
            Err(e) => { return Err(e); },
        };
        let data_len = self.data_length() as usize;
        let start = 3 + id_len;
        let end = start + data_len;
        let data: &'a [u8] = self.buffer;
        Ok(slice_subrange(data, start, end))
    }
}

impl<T: BufferMut> Packet<T> {
    /// Sets the length of the payload. The header keeps the low ten bits of
    /// `value`, so 1024 is stored as 0. The other fields stay as they are.
    pub fn set_data_length(&mut self, value: u16) -> (r: Result<(), Error>)
        requires
            value <= 1024 ==> old(self)@.len() >= 2,
        ensures
            value > 1024 ==> r == Err::<(), Error>(Error::InvalidDataLength) && final(self)@ == old(self)@,
            value <= 1024 ==> {
                &&& r is Ok
                &&& final(self)@.len() == old(self)@.len()
                &&& data_length_of(final(self)@) == value % 1024
                &&& typ_of(final(self)@) == typ_of(old(self)@)
                &&& internal_of(final(self)@) == internal_of(old(self)@)
                &&& offset_of(final(self)@) == offset_of(old(self)@)
                &&& final(self)@.skip(2) == old(self)@.skip(2)
            },
    {
        if value > 1024 {
            Err(Error::InvalidDataLength)
        } else {
            let data = self.buffer.as_mut_slice();
            let ghost before = data@;
            let cur = read_u16_le(data);
            let new = (cur & 0xFC00) | (value & 0x03FF);
            write_u16_le(data, new);
            proof {
                let lo = before[0];
                let hi = before[1];
                let nlo = (new % 256) as u8;
                let nhi = (new / 256) as u8;
                assert(nlo as u16 + 256 * (nhi as u16 % 4) == value % 1024 && (nhi / 4) % 16 == (hi
                    / 4) % 16 && (nhi / 64) % 2 == (hi / 64) % 2 && nhi / 128 == hi / 128)
                    by (bit_vector)
                    requires
                        cur == lo as u16 + 256 * (hi as u16),
                        new == (cur & 0xFC00) | (value & 0x03FF),
                        nlo == (new % 256) as u8,
                        nhi == (new / 256) as u8,
                ;
                assert(data@.skip(2) =~= before.skip(2));
            }
            Ok(())
        }
    }

    /// Sets the message type to the low four bits of the code of `value`.
    /// The other fields stay as they are.
    pub fn set_typ(&mut self, value: MessageType)
        requires
            old(self)@.len() >= 2,
        ensures
            final(self)@ == old(self)@.update(1, final(self)@[1]),
            typ_of(final(self)@) == value.code() % 16,
            data_length_of(final(self)@) == data_length_of(old(self)@),
            internal_of(final(self)@) == internal_of(old(self)@),
            offset_of(final(self)@) == offset_of(old(self)@),
    {
        let code = value.wire_type();
        let data = self.buffer.as_mut_slice();
        let byte = data[1];
        let new = (byte & 0xC3) | ((code & 0x0F) << 2);
        assert((new / 4) % 16 == code % 16 && new % 4 == byte % 4 && (new / 64) % 2 == (byte / 64)
            % 2 && new / 128 == byte / 128) by (bit_vector)
            requires
                new == (byte & 0xC3) | ((code & 0x0F) << 2),
        ;
        data[1] = new;
    }

    /// Sets the internal flag. The other fields stay as they are.
    pub fn set_internal(&mut self, value: bool)
        requires
            old(self)@.len() >= 2,
        ensures
            final(self)@ == old(self)@.update(1, final(self)@[1]),
            internal_of(final(self)@) == value,
            data_length_of(final(self)@) == data_length_of(old(self)@),
            typ_of(final(self)@) == typ_of(old(self)@),
            offset_of(final(self)@) == offset_of(old(self)@),
    {
        let data = self.buffer.as_mut_slice();
        let byte = data[1];
        let new = if value {
            byte | 0x40
        } else {
            byte & 0xBF
        };
        assert(((new / 64) % 2 == 1) == value && new % 4 == byte % 4 && (new / 4) % 16 == (byte / 4)
            % 16 && new / 128 == byte / 128) by (bit_vector)
            requires
                new == (if value {
                    byte | 0x40
                } else {
                    byte & 0xBF
                }),
        ;
        data[1] = new;
    }

    /// Sets the offset flag. The other fields stay as they are.
    pub fn set_offset(&mut self, value: bool)
        requires
            old(self)@.len() >= 2,
        ensures
            final(self)@ == old(self)@.update(1, final(self)@[1]),
            offset_of(final(self)@) == value,
            data_length_of(final(self)@) == data_length_of(old(self)@),
            typ_of(final(self)@) == typ_of(old(self)@),
            internal_of(final(self)@) == internal_of(old(self)@),
    {
        let data = self.buffer.as_mut_slice();
        let byte = data[1];
        let new = if value {
            byte | 0x80
        } else {
            byte & 0x7F
        };
        assert((new / 128 == 1) == value && new % 4 == byte % 4 && (new / 4) % 16 == (byte / 4) % 16
            && (new / 64) % 2 == (byte / 64) % 2) by (bit_vector)
            requires
                new == (if value {
                    byte | 0x80
                } else {
                    byte & 0x7F
                }),
        ;
        data[1] = new;
    }

    /// Sets the length of the message id, which must be 1 to 15. The other
    /// fields stay as they are.
    pub fn set_id_length(&mut self, value: u8) -> (r: Result<(), Error>)
        requires
            1 <= value <= 15 ==> old(self)@.len() >= 3,
        ensures
            !(1 <= value <= 15) ==> r == Err::<(), Error>(Error::InvalidMessageIdLength) && final(self)@ == old(self)@,
            1 <= value <= 15 ==> {
                &&& r is Ok
                &&& final(self)@ == old(self)@.update(2, final(self)@[2])
                &&& id_length_of(final(self)@) == value
                &&& response_of(final(self)@) == response_of(old(self)@)
                &&& acknum_of(final(self)@) == acknum_of(old(self)@)
            },
    {
        if value == 0 || value > 15 {
            Err(Error::InvalidMessageIdLength)
        } else {
            let data = self.buffer.as_mut_slice();
            let byte = data[2];
            let new = (byte & 0xF0) | (value & 0x0F);
            assert(new % 16 == value && (new / 16) % 2 == (byte / 16) % 2 && new / 32 == byte / 32)
                by (bit_vector)
                requires
                    new == (byte & 0xF0) | (value & 0x0F),
                    value <= 15,
            ;
            data[2] = new;
            Ok(())
        }
    }

    /// Sets the response flag. The other fields stay as they are.
    pub fn set_response(&mut self, value: bool)
        requires
            old(self)@.len() >= 3,
        ensures
            final(self)@ == old(self)@.update(2, final(self)@[2]),
            response_of(final(self)@) == value,
            id_length_of(final(self)@) == id_length_of(old(self)@),
            acknum_of(final(self)@) == acknum_of(old(self)@),
    {
        let data = self.buffer.as_mut_slice();
        let byte = data[2];
        let new = if value {
            byte | 0x10
        } else {
            byte & 0xEF
        };
        assert(((new / 16) % 2 == 1) == value && new % 16 == byte % 16 && new / 32 == byte / 32)
            by (bit_vector)
            requires
                new == (if value {
                    byte | 0x10
                } else {
                    byte & 0xEF
                }),
        ;
        data[2] = new;
    }

    /// Sets the acknowledge number to the low three bits of `value`. The
    /// other fields stay as they are.
    pub fn set_acknum(&mut self, value: u8)
        requires
            old(self)@.len() >= 3,
        ensures
            final(self)@ == old(self)@.update(2, final(self)@[2]),
            acknum_of(final(self)@) == value % 8,
            id_length_of(final(self)@) == id_length_of(old(self)@),
            response_of(final(self)@) == response_of(old(self)@),
    {
        let data = self.buffer.as_mut_slice();
        let byte = data[2];
        let new = (byte & 0x1F) | ((value & 0x07) << 5);
        assert(new / 32 == value % 8 && new % 16 == byte % 16 && (new / 16) % 2 == (byte / 16) % 2)
            by (bit_vector)
            requires
                new == (byte & 0x1F) | ((value & 0x07) << 5),
        ;
        data[2] = new;
    }

    /// Lends the bytes of the message id for writing.
    pub fn msg_id_mut(&mut self) -> (r: Result<&mut [u8], Error>)
        requires
            old(self)@.len() >= 3,
            old(self)@.len() >= 3 + id_length_of(old(self)@),
        ensures
            id_length_of(old(self)@) == 0 ==> r is Err && r->Err_0 == Error::InvalidMessageIdLength
                && final(self)@ == old(self)@,
            id_length_of(old(self)@) > 0 ==> {
                &&& r is Ok
                &&& r.unwrap()@ == msg_id_of(old(self)@)
                &&& final(self)@ == old(self)@.subrange(0, 3) + final(r.unwrap())@ + old(self)@.skip(3 + id_length_of(old(self)@) as int)
            },
    {
        let id_len = match self.id_length() {
            Ok(n) => n,
            Err(e) => { return Err(e); },
        };
        let end = 3 + id_len;
        let data = self.buffer.as_mut_slice();
        let (head, _) = data.split_at_mut(end);
        let (_, id) = head.split_at_mut(3);
        Ok(id)
    }

    /// Lends the bytes of the payload for writing.
    pub fn payload_mut(&mut self) -> (r: Result<&mut [u8], Error>)
        requires
            old(self)@.len() >= 3,
            id_length_of(old(self)@) > 0 ==> old(self)@.len() >= wire_size_of(old(self)@) - 2,
        ensures
            id_length_of(old(self)@) == 0 ==> r is Err && r->Err_0 == Error::InvalidMessageIdLength
                && final(self)@ == old(self)@,
            id_length_of(old(self)@) > 0 ==> {
                &&& r is Ok
                &&& r.unwrap()@ == payload_of(old(self)@)
                &&& final(self)@ == old(self)@.subrange(0, 3 + id_length_of(old(self)@) as int)
                    + final(r.unwrap())@ + old(self)@.skip(wire_size_of(old(self)@) - 2)
            },
    {
        let id_len = match self.id_length() {
            Ok(n) => n,
            Err(e) => { return Err(e); },
        };
        let data_len = self.data_length() as usize;
        let start = 3 + id_len;
        let end = start + data_len;
        let data = self.buffer.as_mut_slice();
        let (head, _) = data.split_at_mut(end);
        let (_, payload) = head.split_at_mut(start);
        Ok(payload)
    }

    /// Stores `value` as the checksum, behind the payload.
    pub fn set_checksum(&mut self, value: u16) -> (r: Result<(), Error>)
        requires
            old(self)@.len() >= 3,
            id_length_of(old(self)@) > 0 ==> old(self)@.len() >= wire_size_of(old(self)@),
        ensures
            id_length_of(old(self)@) == 0 ==> r == Err::<(), Error>(Error::InvalidMessageIdLength)
                && final(self)@ == old(self)@,
            id_length_of(old(self)@) > 0 ==> {
                &&& r is Ok
                &&& final(self)@ == old(self)@.update(
                    wire_size_of(old(self)@) - 2,
                    (value % 256) as u8,
                ).update(wire_size_of(old(self)@) - 1, (value / 256) as u8)
                &&& checksum_of(final(self)@) == value
                &&& covered_of(final(self)@) == covered_of(old(self)@)
            },
    {
        let id_len = match self.id_length() {
            Ok(n) => n,
            Err(e) => { return Err(e); },
        };
        let data_len = self.data_length() as usize;
        let start = 3 + id_len + data_len;
        let data = self.buffer.as_mut_slice();
        let ghost before = data@;
        let (_, tail) = data.split_at_mut(start);
        write_u16_le(tail, value);
        proof {
            assert(data@ =~= before.update(start as int, (value % 256) as u8).update(
                start + 1,
                (value / 256) as u8,
            ));
            assert(covered_of(data@) =~= covered_of(before));
        }
        Ok(())
    }
}

impl<T: Buffer> Buffer for Packet<T> {
    open spec fn bytes(&self) -> Seq<u8> {
        self@
    }

    fn as_slice(&self) -> (slice: &[u8]) {
        self.buffer.as_slice()
    }
}

/// A buffer whose header announces an id, and which is long enough for what
/// the header announces, holds a valid packet once the checksum of the
/// bytes that it covers is stored behind the payload.
pub proof fn lemma_checksum_seals(b: Seq<u8>)
    requires
        b.len() >= 3,
        id_length_of(b) > 0,
        b.len() >= wire_size_of(b),
    ensures
        validate(
            b.update(wire_size_of(b) - 2, (crc16(covered_of(b)) % 256) as u8).update(
                wire_size_of(b) - 1,
                (crc16(covered_of(b)) / 256) as u8,
            ),
        ) is Ok,
{
    let sum = crc16(covered_of(b));
    let sealed = b.update(wire_size_of(b) - 2, (sum % 256) as u8).update(
        wire_size_of(b) - 1,
        (sum / 256) as u8,
    );
    assert(covered_of(sealed) =~= covered_of(b));
}

/// A valid packet in which one bit is turned over fails the checksum check,
/// where the bit belongs to the message type, the flags, the acknowledge
/// number, the id or the payload. (A bit of the two lengths moves the place
/// where the checksum is looked for.)
pub proof fn lemma_bit_flip_fails_checksum(b: Seq<u8>, at: int, index: u8)
    requires
        validate(b) is Ok,
        0 < at < wire_size_of(b) - 2,
        index < 8,
        at == 1 ==> index >= 2,
        at == 2 ==> index >= 4,
    ensures
        validate(b.update(at, flip_bit(b[at], index))) == Err::<(), Error>(Error::InvalidChecksum),
{
    let byte = b[at];
    let flipped = flip_bit(byte, index);
    let c = b.update(at, flipped);
    assert(index >= 2 ==> flipped % 4 == byte % 4) by (bit_vector)
        requires
            flipped == byte ^ (1u8 << index),
            index < 8,
    ;
    assert(index >= 4 ==> flipped % 16 == byte % 16) by (bit_vector)
        requires
            flipped == byte ^ (1u8 << index),
            index < 8,
    ;
    assert(data_length_of(c) == data_length_of(b));
    assert(id_length_of(c) == id_length_of(b));
    assert(covered_of(c) =~= covered_of(b).update(at, flip_bit(covered_of(b)[at], index)));
    lemma_crc16_sensitive(covered_of(b), at, index);
}

/// A valid packet that is framed and decoded again is the same packet,
/// byte for byte, and so is valid again, with the same fields.
pub proof fn lemma_frame_round_trip(b: Seq<u8>)
    requires
        validate(b) is Ok,
    ensures
        cobs_well_formed(cobs_encoded(b), false),
        cobs_decoded(cobs_encoded(b), false) == b,
        validate(cobs_decoded(cobs_encoded(b), false)) is Ok,
{
    lemma_decode_encoded(b, false, false);
    assert(Seq::<u8>::empty() + b =~= b);
}

} // verus!
