//! The message framing codec: one message is serialized as a fixed
//! continuation marker, a signed 32-bit little-endian length prefix, the
//! metadata block padded to 8-byte alignment, and the (already aligned) body.
//!
//! The writer here is a byte sink; a transport hands the accumulated bytes to
//! its stream, so synchronous and cooperative-asynchronous transports frame
//! byte-identically.

use vstd::prelude::*;

use crate::error::Error;

verus! {

/// One encoded message before framing: the metadata block and the body bytes.
pub struct EncodedData {
    pub ipc_message: Vec<u8>,
    pub arrow_data: Vec<u8>,
}

/// The fixed four bytes that precede every length prefix.
pub open spec fn continuation_marker_seq() -> Seq<u8> {
    seq![0xffu8, 0xffu8, 0xffu8, 0xffu8]
}

/// The little-endian encoding of a 32-bit value.
pub open spec fn le32_bytes(v: u32) -> Seq<u8> {
    seq![
        (v & 0xff) as u8,
        ((v >> 8) & 0xff) as u8,
        ((v >> 16) & 0xff) as u8,
        ((v >> 24) & 0xff) as u8,
    ]
}

/// What four little-endian bytes denote.
pub open spec fn le32_decode(s: Seq<u8>) -> int {
    s[0] + 256 * (s[1] + 256 * (s[2] + 256 * s[3]))
}

pub open spec fn zeros_seq(n: nat) -> Seq<u8> {
    Seq::new(n, |i: int| 0u8)
}

/// The metadata block size rounded up so that prefix plus metadata plus
/// padding reach the next 8-byte boundary.
pub open spec fn spec_aligned_size(metadata_len: int) -> int {
    let total = metadata_len + 8;
    if total % 8 == 0 {
        total
    } else {
        total + (8 - total % 8)
    }
}

/// The exact bytes that framing a message emits.
pub open spec fn frame_of(metadata: Seq<u8>, body: Seq<u8>) -> Seq<u8> {
    let aligned = spec_aligned_size(metadata.len() as int);
    continuation_marker_seq() + le32_bytes((aligned - 8) as u32) + metadata + zeros_seq(
        (aligned - 8 - metadata.len()) as nat,
    ) + body
}

/// How many zero bytes take `len` to the next 8-byte boundary.
pub fn pad_to_8(len: usize) -> (r: usize)
    ensures
        r < 8,
        (len + r) % 8 == 0,
        r == (if len % 8 == 0 {
            0int
        } else {
            8 - len % 8
        }),
{
    let rem = len % 8;
    if rem == 0 {
        0
    } else {
        8 - rem
    }
}

/// Appends every byte of `src` to `dst`.
fn push_bytes(dst: &mut Vec<u8>, src: &Vec<u8>)
    ensures
        final(dst)@ == old(dst)@ + src@,
{
    let mut i: usize = 0;
    while i < src.len()
        invariant
            i <= src@.len(),
            dst@ == old(dst)@ + src@.subrange(0, i as int),
        decreases src@.len() - i,
    {
        let b = src[i];
        dst.push(b);
        proof {
            assert(dst@ =~= old(dst)@ + src@.subrange(0, i + 1));
        }
        i = i + 1;
    }
    proof {
        assert(old(dst)@ + src@.subrange(0, i as int) =~= old(dst)@ + src@);
    }
}

/// Appends `n` zero bytes to `dst`.
fn push_zeros(dst: &mut Vec<u8>, n: usize)
    ensures
        final(dst)@ == old(dst)@ + zeros_seq(n as nat),
{
    let mut i: usize = 0;
    while i < n
        invariant
            i <= n,
            dst@ == old(dst)@ + zeros_seq(i as nat),
        decreases n - i,
    {
        dst.push(0);
        proof {
            assert(dst@ =~= old(dst)@ + zeros_seq((i + 1) as nat));
        }
        i = i + 1;
    }
}

/// Writes the fixed continuation marker followed by the little-endian 4-byte
/// length, and reports the 8 bytes written.
pub fn write_continuation(writer: &mut Vec<u8>, total_len: i32) -> (r: usize)
    requires
        total_len >= 0,
    ensures
        r == 8,
        final(writer)@ == old(writer)@ + continuation_marker_seq() + le32_bytes(total_len as u32),
    {
    writer.push(0xff);
    writer.push(0xff);
    writer.push(0xff);
    writer.push(0xff);
    let v = total_len as u32;
    writer.push((v & 0xff) as u8);
    writer.push(((v >> 8) & 0xff) as u8);
    writer.push(((v >> 16) & 0xff) as u8);
    writer.push(((v >> 24) & 0xff) as u8);
    proof {
        assert(final(writer)@ =~= old(writer)@ + continuation_marker_seq() + le32_bytes(
            total_len as u32,
        ));
    }
    8
}

/// Frames one message: continuation and length for the padded metadata block,
/// the metadata, zero padding to the 8-byte boundary, then the body.
///
/// The body must already be a multiple of 8 bytes long; a misaligned body is
/// a producer bug, rejected as [`Error::MisalignedBody`] with nothing written.
/// Returns the padded metadata-block size (prefix included) and the body
/// bytes written. A metadata-only message (empty body) is legal.
pub fn write_message(writer: &mut Vec<u8>, encoded: &EncodedData) -> (r: Result<
    (usize, usize),
    Error,
>)
    requires
        encoded.arrow_data@.len() % 8 == 0 ==> encoded.ipc_message@.len() + 8 <= i32::MAX,
    ensures
        r is Err <==> encoded.arrow_data@.len() % 8 != 0,
        r is Err ==> final(writer)@ == old(writer)@ && r == Err::<(usize, usize), Error>(
            Error::MisalignedBody,
        ),
        r is Ok ==> final(writer)@ == old(writer)@ + frame_of(
            encoded.ipc_message@,
            encoded.arrow_data@,
        ) && r == Ok::<(usize, usize), Error>(
            (
                spec_aligned_size(encoded.ipc_message@.len() as int) as usize,
                encoded.arrow_data@.len() as usize,
            ),
        ),
{
    let arrow_data_len = encoded.arrow_data.len();
    if arrow_data_len % 8 != 0 {
        return Err(Error::MisalignedBody);
    }
    let flatbuf_size = encoded.ipc_message.len();
    let prefix_size: usize = 8;
    let padding_bytes = pad_to_8(flatbuf_size + prefix_size);
    let aligned_size = flatbuf_size + prefix_size + padding_bytes;

    write_continuation(writer, (aligned_size - prefix_size) as i32);

    // the metadata block, padded to the boundary
    push_bytes(writer, &encoded.ipc_message);
    push_zeros(writer, padding_bytes);

    // the body is already aligned, so it needs no padding of its own
    let body_len = if arrow_data_len > 0 {
        push_bytes(writer, &encoded.arrow_data);
        arrow_data_len
    } else {
        0
    };

    proof {
        assert(final(writer)@ =~= old(writer)@ + frame_of(
            encoded.ipc_message@,
            encoded.arrow_data@,
        ));
    }
    Ok((aligned_size, body_len))
}

/// Little-endian encoding round-trips: decoding the four bytes of `v` gives
/// back `v`.
pub proof fn lemma_le32_round_trip(v: u32)
    ensures
        le32_decode(le32_bytes(v)) == v,
{
    assert((v & 0xff) + 256 * ((v >> 8) & 0xff) + 65536 * ((v >> 16) & 0xff) + 16777216 * ((v
        >> 24) & 0xff) == v) by (bit_vector);
    assert(v & 0xff < 256 && (v >> 8) & 0xff < 256 && (v >> 16) & 0xff < 256 && (v >> 24) & 0xff
        < 256) by (bit_vector);
}

/// Framing round-trip: reading the frame back — marker, length prefix,
/// metadata, body — reproduces the original metadata and body exactly, and
/// the total framed length is 8-byte aligned.
pub proof fn lemma_framing_round_trip(metadata: Seq<u8>, body: Seq<u8>)
    requires
        body.len() % 8 == 0,
        metadata.len() + 8 <= i32::MAX,
    ensures
        ({
            let frame = frame_of(metadata, body);
            let aligned = spec_aligned_size(metadata.len() as int);
            &&& frame.len() == aligned + body.len()
            &&& frame.len() % 8 == 0
            &&& frame.subrange(0, 4) == continuation_marker_seq()
            &&& le32_decode(frame.subrange(4, 8)) == aligned - 8
            &&& frame.subrange(8, 8 + metadata.len() as int) == metadata
            &&& frame.subrange(aligned, aligned + body.len() as int) == body
        }),
{
    let frame = frame_of(metadata, body);
    let aligned = spec_aligned_size(metadata.len() as int);
    lemma_le32_round_trip((aligned - 8) as u32);
    assert(frame.subrange(0, 4) =~= continuation_marker_seq());
    assert(frame.subrange(4, 8) =~= le32_bytes((aligned - 8) as u32));
    assert(frame.subrange(8, 8 + metadata.len() as int) =~= metadata);
    assert(frame.subrange(aligned, aligned + body.len() as int) =~= body);
}

} // verus!
