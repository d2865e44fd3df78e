//! Framing: consistent overhead byte stuffing, as the `corncobs` crate does
//! it.
//!
//! A message is cut into blocks. A block is a code byte followed by up to
//! 254 bytes that are not zero. The code is the number of those bytes plus
//! one. After a block of fewer than 254 bytes the message has a zero, unless
//! the block is the last. So no block holds a zero, and a zero after the
//! last block ends the frame.

use vstd::prelude::*;

verus! {

/// `corncobs::CobsError`, of which nothing is read here: it is handed on
/// as it comes.
#[verifier::external_type_specification]
#[verifier::external_body]
pub struct ExCobsError(corncobs::CobsError);

/// Why a frame could not be decoded.
#[derive(Debug, Copy, Clone)]
pub enum Error {
    /// What `corncobs` found wrong with the frame.
    Cobs(corncobs::CobsError),
}

/// The number of bytes at the start of `data` that are not zero.
pub open spec fn zero_free_len(data: Seq<u8>) -> nat
    decreases data.len(),
{
    if data.len() == 0 || data[0] == 0 {
        0
    } else {
        1 + zero_free_len(data.skip(1))
    }
}

/// The number of bytes of `data` that go into its first block.
pub open spec fn run_len(data: Seq<u8>) -> nat {
    if zero_free_len(data) < 254 {
        zero_free_len(data)
    } else {
        254
    }
}

/// The blocks of `data`, one after the other.
pub open spec fn cobs_blocks(data: Seq<u8>) -> Seq<u8>
    decreases data.len(),
{
    let n = run_len(data);
    let block = seq![(n + 1) as u8] + data.subrange(0, n as int);
    if n >= data.len() {
        block
    } else if n == 254 {
        block + cobs_blocks(data.skip(254))
    } else {
        block + cobs_blocks(data.skip(n as int + 1))
    }
}

/// The frame of `data`: its blocks and the delimiter.
pub open spec fn cobs_encoded(data: Seq<u8>) -> Seq<u8> {
    cobs_blocks(data).push(0)
}

/// The most bytes that the frame of a message of `raw_len` bytes can take.
pub open spec fn max_encoded_len_of(raw_len: nat) -> nat {
    raw_len + (if raw_len == 0 {
        1
    } else {
        (raw_len + 253) / 254
    }) + 1
}

/// Whether the blocks of `bytes` lead up to a delimiter, none of them
/// claiming more bytes than are left. With `open_end`, the end of `bytes`
/// will do for a delimiter.
pub open spec fn cobs_well_formed(bytes: Seq<u8>, open_end: bool) -> bool
    decreases bytes.len(),
{
    if bytes.len() == 0 {
        open_end
    } else if bytes[0] == 0 {
        true
    } else {
        let n = bytes[0] - 1;
        bytes.len() - 1 >= n && cobs_well_formed(bytes.skip(n + 1), open_end)
    }
}

/// The bytes that the blocks of `bytes` stand for, up to the delimiter, the
/// end of `bytes`, or the first block that claims more bytes than are left.
/// With `zero_due`, the block before the first was short of 254 bytes, so
/// that a zero comes before the bytes of the first.
pub open spec fn cobs_decoded(bytes: Seq<u8>, zero_due: bool) -> Seq<u8>
    decreases bytes.len(),
{
    if bytes.len() == 0 || bytes[0] == 0 {
        Seq::empty()
    } else {
        let n = bytes[0] - 1;
        let zero = if zero_due {
            seq![0u8]
        } else {
            Seq::empty()
        };
        if bytes.len() - 1 < n {
            zero
        } else {
            zero + bytes.subrange(1, n + 1) + cobs_decoded(bytes.skip(n + 1), n != 254)
        }
    }
}

/// `corncobs::max_encoded_len`: the message's length, one byte for each 254
/// bytes of it or part thereof (one for an empty message), and one for the
/// delimiter. Its additions must not overflow.
pub assume_specification[ corncobs::max_encoded_len ](raw_len: usize) -> (len: usize)
    requires
        max_encoded_len_of(raw_len as nat) <= usize::MAX,
    ensures
        len == max_encoded_len_of(raw_len as nat),
;

/// `corncobs::encode_buf`: writes the frame of `bytes` to the start of
/// `output`, leaves the rest of `output` as it is, and returns the length
/// of the frame. It panics where `output` is shorter than the longest
/// frame that a message of this length can have.
pub assume_specification[ corncobs::encode_buf ](bytes: &[u8], output: &mut [u8]) -> (len: usize)
    requires
        old(output)@.len() >= max_encoded_len_of(bytes@.len()),
    ensures
        len == cobs_encoded(bytes@).len(),
        final(output)@ == cobs_encoded(bytes@) + old(output)@.skip(len as int),
;

/// `corncobs::decode_buf`: writes what the blocks of `bytes` stand for to
/// the start of `output`, and leaves the rest of `output` as it is. It
/// returns the number of bytes written if it came to a delimiter, and an
/// error if `bytes` ended before one. It panics where `output` is too short
/// for what it writes.
pub assume_specification[ corncobs::decode_buf ](bytes: &[u8], output: &mut [u8]) -> (r: Result<
    usize,
    corncobs::CobsError,
>)
    requires
        old(output)@.len() >= cobs_decoded(bytes@, false).len(),
    ensures
        r is Ok <==> cobs_well_formed(bytes@, false),
        r is Ok ==> r.unwrap() == cobs_decoded(bytes@, false).len(),
        final(output)@ == cobs_decoded(bytes@, false) + old(output)@.skip(
            cobs_decoded(bytes@, false).len() as int,
        ),
;

/// `corncobs::decode_in_place`: decodes the frame at the start of `bytes`
/// over itself. The end of `bytes` will do for a delimiter. On success the
/// message stands at the start of `bytes`, the byte behind it may have been
/// overwritten, and the bytes after that are as they were.
pub assume_specification[ corncobs::decode_in_place ](bytes: &mut [u8]) -> (r: Result<
    usize,
    corncobs::CobsError,
>)
    ensures
        final(bytes)@.len() == old(bytes)@.len(),
        r is Ok <==> cobs_well_formed(old(bytes)@, true),
        r is Ok ==> {
            &&& r.unwrap() == cobs_decoded(old(bytes)@, false).len()
            &&& r.unwrap() <= old(bytes)@.len()
            &&& final(bytes)@.subrange(0, r.unwrap() as int) == cobs_decoded(old(bytes)@, false)
            &&& forall|i: int|
                r.unwrap() < i < old(bytes)@.len() ==> final(bytes)@[i] == old(bytes)@[i]
        },
;

/// `corncobs::encode_iter`, with the bytes that the iterator yields
/// gathered in a vector: they are the frame of `bytes`.
#[verifier::external_body]
fn collect_encode_iter(bytes: &[u8]) -> (frame: Vec<u8>)
    ensures
        frame@ == cobs_encoded(bytes@),
{
    corncobs::encode_iter(bytes).collect()
}

/// The framing of packets on the wire.
pub struct Framing {}

impl Framing {
    /// The delimiter.
    pub const ZERO: u8 = 0;

    /// Returns the most bytes that the frame of a message of `raw_len`
    /// bytes can take.
    pub fn max_encoded_len(raw_len: usize) -> (len: usize)
        requires
            max_encoded_len_of(raw_len as nat) <= usize::MAX,
        ensures
            len == max_encoded_len_of(raw_len as nat),
    {
        corncobs::max_encoded_len(raw_len)
    }

    /// Decodes the frame at the start of `bytes` into `output`, and returns
    /// the length of the message.
    pub fn decode_buf(bytes: &[u8], output: &mut [u8]) -> (r: Result<usize, Error>)
        requires
            old(output)@.len() >= cobs_decoded(bytes@, false).len(),
        ensures
            r is Ok <==> cobs_well_formed(bytes@, false),
            r is Ok ==> r.unwrap() == cobs_decoded(bytes@, false).len(),
            final(output)@ == cobs_decoded(bytes@, false) + old(output)@.skip(
                cobs_decoded(bytes@, false).len() as int,
            ),
    {
        match corncobs::decode_buf(bytes, output) {
            Ok(len) => Ok(len),
            Err(e) => Err(Error::Cobs(e)),
        }
    }

    /// Decodes the frame at the start of `bytes` over itself, and returns
    /// the length of the message, which then stands at the start of `bytes`.
    pub fn decode_in_place(bytes: &mut [u8]) -> (r: Result<usize, Error>)
        ensures
            final(bytes)@.len() == old(bytes)@.len(),
            r is Ok <==> cobs_well_formed(old(bytes)@, true),
            r is Ok ==> {
                &&& r.unwrap() == cobs_decoded(old(bytes)@, false).len()
                &&& r.unwrap() <= old(bytes)@.len()
                &&& final(bytes)@.subrange(0, r.unwrap() as int) == cobs_decoded(
                    old(bytes)@,
                    false,
                )
                &&& forall|i: int|
                    r.unwrap() < i < old(bytes)@.len() ==> final(bytes)@[i] == old(bytes)@[i]
            },
    {
        match corncobs::decode_in_place(bytes) {
            Ok(len) => Ok(len),
            Err(e) => Err(Error::Cobs(e)),
        }
    }

    /// Writes the frame of `bytes` to the start of `output`, and returns
    /// its length.
    pub fn encode_buf(bytes: &[u8], output: &mut [u8]) -> (len: usize)
        requires
            old(output)@.len() >= max_encoded_len_of(bytes@.len()),
        ensures
            len == cobs_encoded(bytes@).len(),
            final(output)@ == cobs_encoded(bytes@) + old(output)@.skip(len as int),
    {
        corncobs::encode_buf(bytes, output)
    }

    /// Returns the frame of `bytes`, byte by byte.
    pub fn encode_iter(bytes: &[u8]) -> (frame: Vec<u8>)
        ensures
            frame@ == cobs_encoded(bytes@),
    {
        collect_encode_iter(bytes)
    }
}

/// The bytes counted by `zero_free_len` are not zero, and the byte behind
/// them, if there is one, is zero.
pub proof fn lemma_zero_free_len(data: Seq<u8>)
    ensures
        zero_free_len(data) <= data.len(),
        forall|i: int| 0 <= i < zero_free_len(data) ==> data[i] != 0,
        zero_free_len(data) < data.len() ==> data[zero_free_len(data) as int] == 0,
    decreases data.len(),
{
    if data.len() > 0 && data[0] != 0 {
        let rest = data.skip(1);
        lemma_zero_free_len(rest);
        assert forall|i: int| 0 <= i < zero_free_len(data) implies data[i] != 0 by {
            if i > 0 {
                assert(data[i] == rest[i - 1]);
            }
        }
        if zero_free_len(data) < data.len() {
            assert(data[zero_free_len(data) as int] == rest[zero_free_len(rest) as int]);
        }
    }
}

/// What the blocks of `bytes` stand for is no longer than `bytes`, so a
/// buffer as long as the frame is long enough to decode into.
pub proof fn lemma_decoded_len(bytes: Seq<u8>, zero_due: bool)
    ensures
        cobs_decoded(bytes, zero_due).len() <= bytes.len(),
    decreases bytes.len(),
{
    if bytes.len() > 0 && bytes[0] != 0 {
        let n = bytes[0] - 1;
        if bytes.len() - 1 >= n {
            lemma_decoded_len(bytes.skip(n + 1), n != 254);
        }
    }
}

/// A frame is longer than its message by at least two bytes, and never
/// longer than `max_encoded_len_of` allows.
pub proof fn lemma_encoded_len(data: Seq<u8>)
    ensures
        data.len() + 2 <= cobs_encoded(data).len() <= max_encoded_len_of(data.len()),
    decreases data.len(),
{
    lemma_zero_free_len(data);
    let n = run_len(data);
    if n >= data.len() {
    } else if n == 254 {
        lemma_encoded_len(data.skip(254));
    } else {
        lemma_encoded_len(data.skip(n as int + 1));
    }
}

/// The only zero in a frame is the delimiter at its end.
pub proof fn lemma_encoded_zero_free(data: Seq<u8>)
    ensures
        forall|i: int| 0 <= i < cobs_blocks(data).len() ==> cobs_blocks(data)[i] != 0,
    decreases data.len(),
{
    lemma_zero_free_len(data);
    let n = run_len(data);
    let block = seq![(n + 1) as u8] + data.subrange(0, n as int);
    let blocks = cobs_blocks(data);
    assert forall|i: int| 0 <= i < block.len() implies block[i] != 0 by {
        if i > 0 {
            assert(block[i] == data[i - 1]);
        }
    }
    if n >= data.len() {
        assert(blocks == block);
    } else {
        let rest = if n == 254 {
            data.skip(254)
        } else {
            data.skip(n as int + 1)
        };
        lemma_encoded_zero_free(rest);
        assert(blocks == block + cobs_blocks(rest));
        assert forall|i: int| 0 <= i < blocks.len() implies blocks[i] != 0 by {
            if i >= block.len() {
                assert(blocks[i] == cobs_blocks(rest)[i - block.len()]);
            } else {
                assert(blocks[i] == block[i]);
            }
        }
    }
}

/// Decoding undoes encoding: the frame of a message is well formed, and its
/// blocks stand for the message, behind the zero that is due, if one is.
pub proof fn lemma_decode_encoded(data: Seq<u8>, zero_due: bool, open_end: bool)
    ensures
        cobs_well_formed(cobs_encoded(data), open_end),
        cobs_decoded(cobs_encoded(data), zero_due) == (if zero_due {
            seq![0u8]
        } else {
            Seq::empty()
        }) + data,
    decreases data.len(),
{
    lemma_zero_free_len(data);
    let n = run_len(data);
    let frame = cobs_encoded(data);
    let block = seq![(n + 1) as u8] + data.subrange(0, n as int);
    let zero = if zero_due {
        seq![0u8]
    } else {
        Seq::<u8>::empty()
    };
    let tail = frame.skip(n as int + 1);
    if n >= data.len() {
        assert(cobs_blocks(data) == block);
        assert(tail =~= seq![0u8]);
        assert(data.subrange(0, n as int) =~= data);
    } else {
        let rest = if n == 254 {
            data.skip(254)
        } else {
            data.skip(n as int + 1)
        };
        lemma_decode_encoded(rest, n != 254, open_end);
        assert(cobs_blocks(data) == block + cobs_blocks(rest));
        assert(tail =~= cobs_encoded(rest));
        if n == 254 {
            assert(data.subrange(0, n as int) + (Seq::<u8>::empty() + rest) =~= data);
        } else {
            assert(data.subrange(0, n as int) + (seq![0u8] + rest) =~= data);
        }
    }
    assert(frame.len() >= n + 2);
    assert(frame[0] == block[0]);
    assert(frame[0] == n + 1);
    assert(frame.subrange(1, n as int + 1) =~= data.subrange(0, n as int));
    assert(cobs_well_formed(tail, open_end));
    assert(cobs_decoded(frame, zero_due) == zero + data.subrange(0, n as int) + cobs_decoded(
        tail,
        n != 254,
    ));
    assert(cobs_decoded(frame, zero_due) =~= zero + data);
}

} // verus!
