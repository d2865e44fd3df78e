//! The frame decoder: it takes the bytes of a stream one at a time, undoes
//! the framing as they come, and hands out each packet when its last byte
//! has arrived.
//!
//! On the wire a frame is a packet without its zero bytes, followed by a
//! zero byte, the delimiter. The first byte of a frame, and then every byte
//! that stands where a zero was taken out, holds the distance to the next
//! such byte. The decoder keeps this distance as a countdown and puts the
//! zeros back.

use crate::sealed;
use crate::wire::framing::{cobs_blocks, cobs_encoded, lemma_zero_free_len, zero_free_len};
use crate::wire::packet;
use crate::wire::packet::{data_length_of, id_length_of, offset_of, validate};
use crate::wire::Packet;
use vstd::prelude::*;
use vstd::slice::slice_subrange;
use vstd::std_specs::convert::FromSpecImpl;

verus! {

/// Why the decoder could not hand out a packet.
#[derive(Debug, Copy, Clone, Eq, PartialEq, Structural)]
pub enum Error {
    /// The frame does not fit into the decoder's buffer.
    InsufficientBufferSize,
    /// The frame is complete, but what it holds is no valid packet.
    PacketError(packet::Error),
}

impl From<packet::Error> for Error {
    fn from(e: packet::Error) -> (error: Self) {
        Error::PacketError(e)
    }
}

impl FromSpecImpl<packet::Error> for Error {
    open spec fn obeys_from_spec() -> bool {
        true
    }

    open spec fn from_spec(e: packet::Error) -> Self {
        Error::PacketError(e)
    }
}

#[derive(Copy, Clone, Eq, PartialEq, Ord, PartialOrd, Hash, Debug, Structural)]
enum State {
    FrameOffset,
    HeaderB0,
    HeaderB1,
    HeaderB2,
    MsgId,
    OffsetB0,
    OffsetB1,
    Payload,
    CrcB0,
    CrcB1,
}

/// What a decoder is, seen from outside.
pub struct DecoderView {
    /// Whether the first byte of a frame has arrived since the last
    /// delimiter.
    pub in_frame: bool,
    /// The countdown to the next byte that stands for a zero.
    pub frame_offset: nat,
    /// The bytes of the packet that have been put back together so far.
    pub received: Seq<u8>,
    /// How many valid packets the decoder has handed out.
    pub valid: nat,
    /// How many complete frames held no valid packet.
    pub invalid: nat,
}

/// What one call of `decode` gives: nothing yet, the bytes of a valid
/// packet, or an error.
pub type Outcome = Result<Option<Seq<u8>>, Error>;

/// The number of bytes of the frame that starts with the header in `b`:
/// header, message id (one byte where the header says none), the two offset
/// bytes when the offset flag is set, payload, and checksum.
pub open spec fn frame_len_of(b: Seq<u8>) -> nat {
    3 + (if id_length_of(b) == 0 {
        1
    } else {
        id_length_of(b)
    }) + (if offset_of(b) {
        2nat
    } else {
        0nat
    }) + data_length_of(b) + 2
}

/// Whether `b` is a whole frame: it has a header, and the length that the
/// header gives.
pub open spec fn is_complete(b: Seq<u8>) -> bool {
    b.len() >= 3 && b.len() == frame_len_of(b)
}

/// The countdown after `byte`, which is not the delimiter, has arrived.
pub open spec fn next_offset(frame_offset: nat, byte: u8) -> nat {
    if frame_offset > 1 {
        (frame_offset - 1) as nat
    } else {
        byte as nat
    }
}

/// The byte of the packet that `byte`, which is not the delimiter, stands
/// for: itself, or a zero where the countdown has run out.
pub open spec fn restored(frame_offset: nat, byte: u8) -> u8 {
    if frame_offset > 1 {
        byte
    } else {
        0
    }
}

/// A counter after one more event. It stops at the largest value.
pub open spec fn bump(count: nat) -> nat {
    if count < usize::MAX {
        count + 1
    } else {
        count
    }
}

/// The decoder between two frames: what `reset` and the delimiter leave.
pub open spec fn idle(s: DecoderView) -> DecoderView {
    DecoderView { in_frame: false, frame_offset: 0, received: Seq::empty(), ..s }
}

/// The decoder with room for `capacity` bytes after it has taken `byte`.
pub open spec fn step(s: DecoderView, byte: u8, capacity: nat) -> DecoderView {
    let received = s.received.push(restored(s.frame_offset, byte));
    if byte == 0 {
        idle(s)
    } else if !s.in_frame {
        DecoderView { in_frame: true, frame_offset: next_offset(s.frame_offset, byte), ..s }
    } else if s.received.len() >= capacity {
        DecoderView { frame_offset: next_offset(s.frame_offset, byte), ..s }
    } else if !is_complete(received) {
        DecoderView { frame_offset: next_offset(s.frame_offset, byte), received, ..s }
    } else if validate(received) is Ok {
        DecoderView { valid: bump(s.valid), ..idle(s) }
    } else {
        DecoderView { invalid: bump(s.invalid), ..idle(s) }
    }
}

/// What the decoder with room for `capacity` bytes gives when it takes
/// `byte`.
pub open spec fn outcome(s: DecoderView, byte: u8, capacity: nat) -> Outcome {
    let received = s.received.push(restored(s.frame_offset, byte));
    if byte == 0 || !s.in_frame {
        Ok(None)
    } else if s.received.len() >= capacity {
        Err(Error::InsufficientBufferSize)
    } else if !is_complete(received) {
        Ok(None)
    } else {
        match validate(received) {
            Ok(_) => Ok(Some(received)),
            Err(e) => Err(Error::PacketError(e)),
        }
    }
}

/// A decoder over a buffer of `N` bytes that the caller lends it.
#[derive(Debug)]
pub struct Decoder<'buf, const N: usize> {
    state: State,
    frame_offset: u8,
    id_bytes_read: u8,
    data_bytes_read: u16,
    bytes_read: usize,
    valid_pkt_count: usize,
    invalid_pkt_count: usize,
    data_len: u16,
    offset: bool,
    id_len: u8,
    packet_storage: &'buf mut [u8; N],
}

impl<'buf, const N: usize> View for Decoder<'buf, N> {
    type V = DecoderView;

    closed spec fn view(&self) -> DecoderView {
        DecoderView {
            in_frame: self.state != State::FrameOffset,
            frame_offset: self.frame_offset as nat,
            received: self.packet_storage@.subrange(0, self.bytes_read as int),
            valid: self.valid_pkt_count as nat,
            invalid: self.invalid_pkt_count as nat,
        }
    }
}

impl<'buf, const N: usize> Decoder<'buf, N> {
    /// The place in the frame that the decoder has reached, as the bytes
    /// received so far give it.
    spec fn state_at(b: Seq<u8>) -> State {
        let n = b.len();
        let id_end = 3 + (if id_length_of(b) == 0 {
            1
        } else {
            id_length_of(b)
        });
        let offset_end = id_end + (if offset_of(b) {
            2nat
        } else {
            0nat
        });
        let data_end = offset_end + data_length_of(b);
        if n == 0 {
            State::HeaderB0
        } else if n == 1 {
            State::HeaderB1
        } else if n == 2 {
            State::HeaderB2
        } else if n < id_end {
            State::MsgId
        } else if n < offset_end {
            if n == id_end {
                State::OffsetB0
            } else {
                State::OffsetB1
            }
        } else if n < data_end {
            State::Payload
        } else if n == data_end {
            State::CrcB0
        } else {
            State::CrcB1
        }
    }

    /// All the bytes of the buffer, those of earlier frames too.
    pub closed spec fn storage(&self) -> Seq<u8> {
        self.packet_storage@
    }

    /// The decoder's fields agree with each other and with the bytes
    /// received so far.
    pub closed spec fn wf(&self) -> bool {
        let b = self@.received;
        let n = b.len();
        &&& self.bytes_read <= N
        &&& self.state == State::FrameOffset ==> self.frame_offset == 0 && self.bytes_read == 0
        &&& self.state != State::FrameOffset ==> {
            &&& self.state == Self::state_at(b)
            &&& n == 1 ==> self.data_len == b[0]
            &&& n >= 2 ==> self.data_len == data_length_of(b) && self.offset == offset_of(b)
            &&& n >= 3 ==> self.id_len == id_length_of(b) && n < frame_len_of(b)
            &&& self.state == State::MsgId ==> self.id_bytes_read == n - 3
            &&& self.state == State::Payload ==> self.data_bytes_read == n - (frame_len_of(b) - 2
                - data_length_of(b))
        }
    }

    /// Makes a decoder that stores its frames in `packet_storage`, which
    /// must have room for the smallest packet.
    pub fn new(packet_storage: &'buf mut [u8; N]) -> (decoder: Self)
        requires
            N >= 5,
        ensures
            decoder.wf(),
            decoder@ == (DecoderView {
                in_frame: false,
                frame_offset: 0,
                received: Seq::empty(),
                valid: 0,
                invalid: 0,
            }),
    {
        sealed::greater_than_eq::<N, 5>();
        let decoder = Self {
            state: State::FrameOffset,
            frame_offset: 0,
            id_bytes_read: 0,
            data_bytes_read: 0,
            bytes_read: 0,
            valid_pkt_count: 0,
            invalid_pkt_count: 0,
            data_len: 0,
            offset: false,
            id_len: 0,
            packet_storage,
        };
        assert(decoder@.received =~= Seq::empty());
        decoder
    }

    /// Drops what has arrived of the current frame, and waits for the next.
    /// The two counters stay.
    pub fn reset(&mut self)
        ensures
            final(self).wf(),
            final(self)@ == idle(old(self)@),
            final(self).storage() == old(self).storage(),
    {
        self.state = State::FrameOffset;
        self.frame_offset = 0;
        self.bytes_read = 0;
        assert(self@.received =~= Seq::empty());
    }

    /// Returns the number of valid packets handed out so far.
    pub fn count(&self) -> (count: usize)
        ensures
            count == self@.valid,
    {
        self.valid_pkt_count
    }

    /// Returns the number of complete frames that held no valid packet.
    pub fn invalid_count(&self) -> (count: usize)
        ensures
            count == self@.invalid,
    {
        self.invalid_pkt_count
    }

    /// Takes the next byte of the stream. Returns the packet that this byte
    /// completes, if it completes one.
    #[verifier::rlimit(60)]
    pub fn decode(&mut self, byte: u8) -> (r: Result<Option<Packet<&[u8]>>, Error>)
        requires
            old(self).wf(),
        ensures
            final(self).wf(),
            final(self)@ == step(old(self)@, byte, N as nat),
            match r {
                Ok(Some(p)) => outcome(old(self)@, byte, N as nat) == Ok::<Option<Seq<u8>>, Error>(
                    Some(p@),
                ),
                Ok(None) => outcome(old(self)@, byte, N as nat) == Ok::<Option<Seq<u8>>, Error>(
                    None,
                ),
                Err(e) => outcome(old(self)@, byte, N as nat) == Err::<Option<Seq<u8>>, Error>(e),
            },
    {
        let ghost before = self@;
        let mut data = byte;
        if byte == 0x00 {
            self.reset();
            return Ok(None);
        } else if self.frame_offset > 1 {
            self.frame_offset = self.frame_offset - 1;
        } else {
            self.frame_offset = byte;
            data = 0x00;
        }
        let ghost received = before.received.push(data);

        match self.state {
            State::FrameOffset => {
                self.state = State::HeaderB0;
            },
            State::HeaderB0 => {
                if let Err(e) = self.feed(data) {
                    return Err(e);
                }
                self.data_len = data as u16;
                self.state = State::HeaderB1;
            },
            State::HeaderB1 => {
                if let Err(e) = self.feed(data) {
                    return Err(e);
                }
                let high = ((data as u16) << 8) & 0x0300;
                let low = self.data_len;
                assert(low | high == low + 256 * (data as u16 % 4)) by (bit_vector)
                    requires
                        high == ((data as u16) << 8) & 0x0300,
                        low < 256,
                ;
                assert(((data >> 7) & 0x01 != 0) == (data / 128 == 1)) by (bit_vector);
                self.data_len = low | high;
                self.offset = ((data >> 7) & 0x01) != 0;
                self.state = State::HeaderB2;
            },
            State::HeaderB2 => {
                if let Err(e) = self.feed(data) {
                    return Err(e);
                }
                assert(data & 0x0F == data % 16) by (bit_vector);
                self.id_len = data & 0x0F;
                self.id_bytes_read = 0;
                self.state = State::MsgId;
            },
            State::MsgId => {
                if let Err(e) = self.feed(data) {
                    return Err(e);
                }
                self.id_bytes_read = self.id_bytes_read.saturating_add(1);
                if self.id_bytes_read >= self.id_len {
                    if self.offset {
                        self.state = State::OffsetB0
                    } else if self.data_len > 0 {
                        self.data_bytes_read = 0;
                        self.state = State::Payload;
                    } else {
                        self.state = State::CrcB0;
                    }
                }
            },
            State::OffsetB0 => {
                if let Err(e) = self.feed(data) {
                    return Err(e);
                }
                self.state = State::OffsetB1;
            },
            State::OffsetB1 => {
                if let Err(e) = self.feed(data) {
                    return Err(e);
                }
                if self.data_len > 0 {
                    self.data_bytes_read = 0;
                    self.state = State::Payload;
                } else {
                    self.state = State::CrcB0;
                }
            },
            State::Payload => {
                if let Err(e) = self.feed(data) {
                    return Err(e);
                }
                self.data_bytes_read = self.data_bytes_read.saturating_add(1);
                if self.data_bytes_read >= self.data_len {
                    self.state = State::CrcB0;
                }
            },
            State::CrcB0 => {
                if let Err(e) = self.feed(data) {
                    return Err(e);
                }
                self.state = State::CrcB1;
            },
            State::CrcB1 => {
                if let Err(e) = self.feed(data) {
                    return Err(e);
                }
                let bytes_read = self.bytes_read;
                assert(self.packet_storage@.subrange(0, bytes_read as int) =~= received);
                self.reset();
                match Packet::new(slice_subrange(self.packet_storage.as_slice(), 0, bytes_read)) {
                    Ok(p) => {
                        self.valid_pkt_count = self.valid_pkt_count.saturating_add(1);
                        return Ok(Some(p));
                    },
                    Err(e) => {
                        self.invalid_pkt_count = self.invalid_pkt_count.saturating_add(1);
                        return Err(Error::PacketError(e));
                    },
                }
            },
        }
        assert(self@.received =~= received || self@.received =~= before.received);
        Ok(None)
    }

    /// Appends `byte` to the bytes received, if there is room.
    fn feed(&mut self, byte: u8) -> (r: Result<(), Error>)
        requires
            old(self).bytes_read <= N,
        ensures
            old(self).bytes_read >= N ==> r == Err::<(), Error>(Error::InsufficientBufferSize)
                && *final(self) == *old(self),
            old(self).bytes_read < N ==> {
                &&& r is Ok
                &&& final(self).bytes_read == old(self).bytes_read + 1
                &&& final(self).packet_storage@ == old(self).packet_storage@.update(
                    old(self).bytes_read as int,
                    byte,
                )
                &&& final(self).state == old(self).state
                &&& final(self).frame_offset == old(self).frame_offset
                &&& final(self).id_bytes_read == old(self).id_bytes_read
                &&& final(self).data_bytes_read == old(self).data_bytes_read
                &&& final(self).valid_pkt_count == old(self).valid_pkt_count
                &&& final(self).invalid_pkt_count == old(self).invalid_pkt_count
                &&& final(self).data_len == old(self).data_len
                &&& final(self).offset == old(self).offset
                &&& final(self).id_len == old(self).id_len
            },
    {
        if self.bytes_read >= N {
            Err(Error::InsufficientBufferSize)
        } else {
            self.packet_storage[self.bytes_read] = byte;
            self.bytes_read = self.bytes_read.saturating_add(1);
            Ok(())
        }
    }
}

/// The decoder after it has taken `bytes`, one after the other.
pub open spec fn run(s: DecoderView, bytes: Seq<u8>, capacity: nat) -> DecoderView
    decreases bytes.len(),
{
    if bytes.len() == 0 {
        s
    } else {
        step(run(s, bytes.drop_last(), capacity), bytes.last(), capacity)
    }
}

/// What the decoder gives for the last of `bytes`.
pub open spec fn last_outcome(s: DecoderView, bytes: Seq<u8>, capacity: nat) -> Outcome {
    outcome(run(s, bytes.drop_last(), capacity), bytes.last(), capacity)
}

/// How many packets the decoder hands out while it takes `bytes`.
pub open spec fn packets(s: DecoderView, bytes: Seq<u8>, capacity: nat) -> nat
    decreases bytes.len(),
{
    if bytes.len() == 0 {
        0
    } else {
        packets(s, bytes.drop_last(), capacity) + (if last_outcome(s, bytes, capacity) matches Ok(
            Some(_),
        ) {
            1nat
        } else {
            0nat
        })
    }
}

/// How many errors the decoder gives while it takes `bytes`.
pub open spec fn errors(s: DecoderView, bytes: Seq<u8>, capacity: nat) -> nat
    decreases bytes.len(),
{
    if bytes.len() == 0 {
        0
    } else {
        errors(s, bytes.drop_last(), capacity) + (if last_outcome(s, bytes, capacity) is Err {
            1nat
        } else {
            0nat
        })
    }
}

/// Whether the decoder can put `data` back together from its frame: none of
/// its blocks but the last has 254 bytes. (The decoder takes the code of
/// every block but the first for a zero, and a block of 254 bytes stands
/// for none.)
pub open spec fn is_streamable(data: Seq<u8>) -> bool
    decreases data.len(),
{
    let n = zero_free_len(data);
    if n >= data.len() {
        n <= 254
    } else {
        n < 254 && is_streamable(data.skip(n as int + 1))
    }
}

/// The byte in the frame of `data` that stands for `data[at]`: the byte
/// itself, or for a zero the distance to the next zero.
pub open spec fn wire_byte(data: Seq<u8>, at: int) -> int {
    if data[at] != 0 {
        data[at] as int
    } else {
        zero_free_len(data.skip(at + 1)) as int + 1
    }
}

/// `frame` repeated `count` times.
pub open spec fn repeated(frame: Seq<u8>, count: nat) -> Seq<u8>
    decreases count,
{
    if count == 0 {
        Seq::empty()
    } else {
        repeated(frame, (count - 1) as nat) + frame
    }
}

/// `count` events more on a counter that stops at the largest value.
pub open spec fn bumped(start: nat, count: nat) -> nat {
    if start + count <= usize::MAX {
        start + count
    } else {
        usize::MAX as nat
    }
}

/// Taking bytes one run after the other is taking them all.
pub proof fn lemma_run_concat(s: DecoderView, first: Seq<u8>, second: Seq<u8>, capacity: nat)
    ensures
        run(s, first + second, capacity) == run(run(s, first, capacity), second, capacity),
        packets(s, first + second, capacity) == packets(s, first, capacity) + packets(
            run(s, first, capacity),
            second,
            capacity,
        ),
        errors(s, first + second, capacity) == errors(s, first, capacity) + errors(
            run(s, first, capacity),
            second,
            capacity,
        ),
    decreases second.len(),
{
    if second.len() == 0 {
        assert(first + second =~= first);
    } else {
        lemma_run_concat(s, first, second.drop_last(), capacity);
        assert((first + second).drop_last() =~= first + second.drop_last());
    }
}

/// In the frame of streamable data every byte of the data has one byte
/// behind the first code, and no distance is more than 254.
pub proof fn lemma_streamable_blocks(data: Seq<u8>)
    requires
        is_streamable(data),
    ensures
        cobs_blocks(data).len() == data.len() + 1,
        cobs_blocks(data)[0] == zero_free_len(data) + 1,
        forall|j: int|
            1 <= j <= data.len() ==> #[trigger] cobs_blocks(data)[j] == wire_byte(data, j - 1),
        forall|i: int| 0 <= i <= data.len() ==> #[trigger] zero_free_len(data.skip(i)) <= 254,
    decreases data.len(),
{
    lemma_zero_free_len(data);
    let n = zero_free_len(data);
    let block = seq![(n + 1) as u8] + data.subrange(0, n as int);
    let blocks = cobs_blocks(data);
    assert(data.skip(0) =~= data);
    lemma_zero_free_suffix(data, n as int);
    if n >= data.len() {
        assert(blocks == block);
        assert forall|j: int| 1 <= j <= data.len() implies #[trigger] blocks[j] == wire_byte(
            data,
            j - 1,
        ) by {
            assert(blocks[j] == data[j - 1]);
        }
    } else {
        let rest = data.skip(n as int + 1);
        lemma_streamable_blocks(rest);
        let tail = cobs_blocks(rest);
        assert(blocks == block + tail);
        assert forall|j: int| 1 <= j <= data.len() implies #[trigger] blocks[j] == wire_byte(
            data,
            j - 1,
        ) by {
            if j <= n {
                assert(blocks[j] == data[j - 1]);
            } else if j == n + 1 {
                assert(blocks[j] == tail[0]);
            } else {
                assert(blocks[j] == tail[j - n - 1]);
                assert(rest[j - n - 2] == data[j - 1]);
                assert(rest.skip(j - n - 1) =~= data.skip(j));
            }
        }
        assert forall|i: int| 0 <= i <= data.len() implies #[trigger] zero_free_len(data.skip(i))
            <= 254 by {
            if i > n {
                assert(rest.skip(i - n - 1) =~= data.skip(i));
            }
        }
    }
}

/// Inside a run of bytes that are not zero, the run that is left gets
/// shorter byte by byte.
proof fn lemma_zero_free_suffix(data: Seq<u8>, upto: int)
    requires
        0 <= upto <= zero_free_len(data),
    ensures
        forall|i: int|
            0 <= i <= upto ==> #[trigger] zero_free_len(data.skip(i)) == zero_free_len(data) - i,
    decreases data.len(),
{
    lemma_zero_free_len(data);
    assert(data.skip(0) =~= data);
    if upto > 0 {
        let rest = data.skip(1);
        lemma_zero_free_suffix(rest, upto - 1);
        assert forall|i: int| 0 <= i <= upto implies #[trigger] zero_free_len(data.skip(i))
            == zero_free_len(data) - i by {
            if i > 0 {
                assert(rest.skip(i - 1) =~= data.skip(i));
            }
        }
    }
}

/// The decoder that takes the frame of streamable data which is a whole
/// frame and fits its buffer has, before the last byte, put back together
/// all the bytes but the last, and has given nothing yet.
proof fn lemma_frame_prefix(s: DecoderView, data: Seq<u8>, capacity: nat, taken: int)
    requires
        s == idle(s),
        is_streamable(data),
        is_complete(data),
        data.len() <= capacity,
        1 <= taken <= data.len(),
    ensures
        run(s, cobs_blocks(data).subrange(0, taken), capacity) == (DecoderView {
            in_frame: true,
            frame_offset: zero_free_len(data.skip(taken - 1)) + 1,
            received: data.subrange(0, taken - 1),
            ..s
        }),
        packets(s, cobs_blocks(data).subrange(0, taken), capacity) == 0,
        errors(s, cobs_blocks(data).subrange(0, taken), capacity) == 0,
    decreases taken,
{
    lemma_streamable_blocks(data);
    let wire = cobs_blocks(data);
    let prefix = wire.subrange(0, taken);
    let earlier = prefix.drop_last();
    let byte = prefix.last();
    let before = run(s, earlier, capacity);
    assert(earlier =~= wire.subrange(0, taken - 1));
    assert(byte == wire[taken - 1]);
    if taken == 1 {
        assert(data.skip(0) =~= data);
        assert(data.subrange(0, 0) =~= Seq::<u8>::empty());
        assert(earlier.len() == 0);
        assert(before == s);
        assert(byte != 0);
        assert(packets(s, earlier, capacity) == 0);
        assert(errors(s, earlier, capacity) == 0);
    } else {
        lemma_frame_prefix(s, data, capacity, taken - 1);
        let at = taken - 2;
        assert(byte == wire_byte(data, at));
        lemma_zero_free_len(data.skip(at));
        assert(data.skip(at)[0] == data[at]);
        assert(data.skip(at).skip(1) =~= data.skip(at + 1));
        assert(zero_free_len(data.skip(at + 1)) <= 254);
        assert(byte != 0);
        let received = before.received.push(restored(before.frame_offset, byte));
        assert(received =~= data.subrange(0, taken - 1));
        if received.len() >= 3 {
            assert(frame_len_of(received) == frame_len_of(data));
        }
        assert(!is_complete(received));
        assert(before.in_frame);
        assert(before.received.len() < capacity);
    }
    assert(outcome(before, byte, capacity) == Ok::<Option<Seq<u8>>, Error>(None));
    assert(last_outcome(s, prefix, capacity) == outcome(before, byte, capacity));
    assert(run(s, prefix, capacity) == step(before, byte, capacity));
    assert(packets(s, prefix, capacity) == packets(s, earlier, capacity));
    assert(errors(s, prefix, capacity) == errors(s, earlier, capacity));
}

/// The decoder that takes the frame of streamable data which is a whole
/// frame and fits its buffer gives, with the last byte before the
/// delimiter, what the checks say of the data: the packet, or the error of
/// the first check that fails. It counts the frame as valid or invalid, and
/// then waits for the next. Until the last byte, and for the delimiter, it
/// gives nothing.
pub proof fn lemma_decodes_frame(s: DecoderView, data: Seq<u8>, capacity: nat)
    requires
        s == idle(s),
        is_streamable(data),
        is_complete(data),
        data.len() <= capacity,
    ensures
        validate(data) is Ok ==> {
            &&& last_outcome(s, cobs_blocks(data), capacity) == Ok::<Option<Seq<u8>>, Error>(
                Some(data),
            )
            &&& run(s, cobs_encoded(data), capacity) == (DecoderView {
                valid: bump(s.valid),
                ..s
            })
            &&& packets(s, cobs_encoded(data), capacity) == 1
            &&& errors(s, cobs_encoded(data), capacity) == 0
        },
        validate(data) is Err ==> {
            &&& last_outcome(s, cobs_blocks(data), capacity) == Err::<Option<Seq<u8>>, Error>(
                Error::PacketError(validate(data)->Err_0),
            )
            &&& run(s, cobs_encoded(data), capacity) == (DecoderView {
                invalid: bump(s.invalid),
                ..s
            })
            &&& packets(s, cobs_encoded(data), capacity) == 0
            &&& errors(s, cobs_encoded(data), capacity) == 1
        },
{
    lemma_streamable_blocks(data);
    let wire = cobs_blocks(data);
    let len = data.len() as int;
    lemma_frame_prefix(s, data, capacity, len);
    assert(wire.drop_last() =~= wire.subrange(0, len));
    let before = run(s, wire.drop_last(), capacity);
    let at = len - 1;
    let byte = wire.last();
    assert(byte == wire_byte(data, at));
    lemma_zero_free_len(data.skip(at));
    assert(data.skip(at)[0] == data[at]);
    assert(data.skip(at).skip(1) =~= data.skip(at + 1));
    assert(zero_free_len(data.skip(at + 1)) <= 254);
    let received = before.received.push(restored(before.frame_offset, byte));
    assert(received =~= data);
    assert(byte != 0);
    let after = step(before, byte, capacity);
    assert(run(s, wire, capacity) == after);
    assert(after.received =~= s.received);
    assert(last_outcome(s, wire, capacity) == outcome(before, byte, capacity));
    let frame = cobs_encoded(data);
    assert(frame.drop_last() =~= wire);
    assert(frame.last() == 0);
    assert(run(s, frame, capacity) == step(after, 0, capacity));
    assert(last_outcome(s, frame, capacity) == outcome(after, 0, capacity));
    assert(packets(s, frame, capacity) == packets(s, wire, capacity));
    assert(errors(s, frame, capacity) == errors(s, wire, capacity));
}

/// The decoder that takes the frame of one valid packet again and again
/// hands out the packet each time, gives no error, and counts each frame as
/// valid and none as invalid.
pub proof fn lemma_decodes_repeated_frame(
    s: DecoderView,
    packet: Seq<u8>,
    capacity: nat,
    count: nat,
)
    requires
        s == idle(s),
        s.valid <= usize::MAX,
        validate(packet) is Ok,
        is_streamable(packet),
        is_complete(packet),
        packet.len() <= capacity,
    ensures
        run(s, repeated(cobs_encoded(packet), count), capacity) == (DecoderView {
            valid: bumped(s.valid, count),
            ..s
        }),
        packets(s, repeated(cobs_encoded(packet), count), capacity) == count,
        errors(s, repeated(cobs_encoded(packet), count), capacity) == 0,
    decreases count,
{
    if count > 0 {
        let frame = cobs_encoded(packet);
        let earlier = repeated(frame, (count - 1) as nat);
        lemma_decodes_repeated_frame(s, packet, capacity, (count - 1) as nat);
        lemma_run_concat(s, earlier, frame, capacity);
        lemma_decodes_frame(run(s, earlier, capacity), packet, capacity);
    }
}

/// A frame whose packet fails a check, between the frames of two valid
/// packets, is counted as invalid once, and the decoder hands out the
/// packet of the frame that follows it.
pub proof fn lemma_survives_invalid_frame(
    s: DecoderView,
    first: Seq<u8>,
    broken: Seq<u8>,
    second: Seq<u8>,
    capacity: nat,
)
    requires
        s == idle(s),
        validate(first) is Ok,
        validate(broken) is Err,
        validate(second) is Ok,
        is_streamable(first) && is_complete(first) && first.len() <= capacity,
        is_streamable(broken) && is_complete(broken) && broken.len() <= capacity,
        is_streamable(second) && is_complete(second) && second.len() <= capacity,
    ensures
        run(s, cobs_encoded(first) + cobs_encoded(broken) + cobs_encoded(second), capacity) == (
        DecoderView { valid: bump(bump(s.valid)), invalid: bump(s.invalid), ..s }),
        packets(s, cobs_encoded(first) + cobs_encoded(broken) + cobs_encoded(second), capacity)
            == 2,
        errors(s, cobs_encoded(first) + cobs_encoded(broken) + cobs_encoded(second), capacity)
            == 1,
        last_outcome(
            run(s, cobs_encoded(first) + cobs_encoded(broken), capacity),
            cobs_blocks(second),
            capacity,
        ) == Ok::<Option<Seq<u8>>, Error>(Some(second)),
{
    let a = cobs_encoded(first);
    let b = cobs_encoded(broken);
    let c = cobs_encoded(second);
    lemma_decodes_frame(s, first, capacity);
    let s1 = run(s, a, capacity);
    lemma_decodes_frame(s1, broken, capacity);
    lemma_run_concat(s, a, b, capacity);
    let s2 = run(s, a + b, capacity);
    lemma_decodes_frame(s2, second, capacity);
    lemma_run_concat(s, a + b, c, capacity);
}

/// Whatever the decoder has taken, a delimiter makes it wait for the next
/// frame, and leaves the two counters as they are.
pub proof fn lemma_delimiter_resynchronizes(s: DecoderView, capacity: nat)
    ensures
        step(s, 0, capacity) == idle(s),
        outcome(s, 0, capacity) == Ok::<Option<Seq<u8>>, Error>(None),
        idle(idle(s)) == idle(s),
{
}

} // verus!
