//! Body compression: the two interchangeable algorithms a message may select.
//! ZSTD uses the fixed level 17, chosen once for bulk columnar bodies and not
//! configurable per call.
//!
//! What a compressor emits has no short description, but it is a function of
//! the input bytes alone, so each algorithm's frame is given a name; the
//! decompressors' contracts state the round-trip over those names.

use vstd::prelude::*;

use crate::error::{CompressionKind, Error};

verus! {

/// The LZ4 frame that compressing `data` emits.
pub uninterp spec fn lz4_frame_of(data: Seq<u8>) -> Seq<u8>;

/// The ZSTD (level 17) frame that compressing `data` emits.
pub uninterp spec fn zstd_frame_of(data: Seq<u8>) -> Seq<u8>;

/// Relies on lz4::EncoderBuilder and lz4::Encoder with default settings: the
/// frame written is a function of the input bytes alone, appended to the
/// writer. The writer is a byte vector, which cannot fail, and the encoder
/// sizes its scratch buffer with the library's own bound, so the call
/// succeeds; the error arms below are defensive only.
#[verifier::external_body]
fn lz4_compress_raw(input: &[u8], output: &mut Vec<u8>) -> (r: Result<(), Error>)
    ensures
        r is Ok,
        final(output)@ == old(output)@ + lz4_frame_of(input@),
{
    let mut encoder = match lz4::EncoderBuilder::new().build(output) {
        Ok(encoder) => encoder,
        Err(_) => return Err(Error::CompressionFailed(CompressionKind::Lz4)),
    };
    if std::io::Write::write_all(&mut encoder, input).is_err() {
        return Err(Error::CompressionFailed(CompressionKind::Lz4));
    }
    match encoder.finish().1 {
        Ok(()) => Ok(()),
        Err(_) => Err(Error::CompressionFailed(CompressionKind::Lz4)),
    }
}

/// Relies on lz4::Decoder and std::io::Read::read_exact: decoding the frame
/// of `x` into a buffer of exactly `x`'s length restores `x`; `read_exact`
/// never changes the buffer's length.
#[verifier::external_body]
fn lz4_decompress_raw(input: &[u8], output: &mut Vec<u8>) -> (r: Result<(), Error>)
    ensures
        final(output)@.len() == old(output)@.len(),
        forall|x: Seq<u8>|
            #![trigger lz4_frame_of(x)]
            input@ == lz4_frame_of(x) && old(output)@.len() == x.len() ==> r is Ok
                && final(output)@ == x,
{
    let mut decoder = match lz4::Decoder::new(input) {
        Ok(decoder) => decoder,
        Err(_) => return Err(Error::CompressionFailed(CompressionKind::Lz4)),
    };
    match std::io::Read::read_exact(&mut decoder, output.as_mut_slice()) {
        Ok(()) => Ok(()),
        Err(_) => Err(Error::CompressionFailed(CompressionKind::Lz4)),
    }
}

/// Relies on zstd::Encoder at level 17: the frame written is a function of
/// the input bytes alone, appended to the writer. The writer is a byte
/// vector, which cannot fail, and the encoder manages its own buffers, so the
/// call succeeds; the error arms below are defensive only.
#[verifier::external_body]
fn zstd_compress_raw(input: &[u8], output: &mut Vec<u8>) -> (r: Result<(), Error>)
    ensures
        r is Ok,
        final(output)@ == old(output)@ + zstd_frame_of(input@),
{
    let mut encoder = match zstd::Encoder::new(output, 17) {
        Ok(encoder) => encoder,
        Err(_) => return Err(Error::CompressionFailed(CompressionKind::Zstd)),
    };
    if std::io::Write::write_all(&mut encoder, input).is_err() {
        return Err(Error::CompressionFailed(CompressionKind::Zstd));
    }
    match encoder.finish() {
        Ok(_) => Ok(()),
        Err(_) => Err(Error::CompressionFailed(CompressionKind::Zstd)),
    }
}

/// Relies on zstd::Decoder and std::io::Read::read_exact: decoding the frame
/// of `x` into a buffer of exactly `x`'s length restores `x`; `read_exact`
/// never changes the buffer's length.
#[verifier::external_body]
fn zstd_decompress_raw(input: &[u8], output: &mut Vec<u8>) -> (r: Result<(), Error>)
    ensures
        final(output)@.len() == old(output)@.len(),
        forall|x: Seq<u8>|
            #![trigger zstd_frame_of(x)]
            input@ == zstd_frame_of(x) && old(output)@.len() == x.len() ==> r is Ok
                && final(output)@ == x,
{
    let mut decoder = match zstd::Decoder::new(input) {
        Ok(decoder) => decoder,
        Err(_) => return Err(Error::CompressionFailed(CompressionKind::Zstd)),
    };
    match std::io::Read::read_exact(&mut decoder, output.as_mut_slice()) {
        Ok(()) => Ok(()),
        Err(_) => Err(Error::CompressionFailed(CompressionKind::Zstd)),
    }
}

/// Compresses `input` as one LZ4 frame, appended to `output`; always
/// succeeds, since the output is an in-memory vector.
pub fn compress_lz4(input: &[u8], output: &mut Vec<u8>) -> (r: Result<(), Error>)
    ensures
        r is Ok,
        final(output)@ == old(output)@ + lz4_frame_of(input@),
{
    lz4_compress_raw(input, output)
}

/// Compresses `input` as one ZSTD frame (level 17), appended to `output`;
/// always succeeds, since the output is an in-memory vector.
pub fn compress_zstd(input: &[u8], output: &mut Vec<u8>) -> (r: Result<(), Error>)
    ensures
        r is Ok,
        final(output)@ == old(output)@ + zstd_frame_of(input@),
{
    zstd_compress_raw(input, output)
}

/// Decompresses one LZ4 frame into `output`, which the caller pre-sizes to
/// the exact expected decompressed length; failing to fill it exactly is a
/// decode error, never a partial success.
///
/// Round-trip: when `input` is the frame `compress_lz4` emits for `x` and
/// `output` has `x`'s length, the call succeeds and `output` becomes `x`.
pub fn decompress_lz4(input: &[u8], output: &mut Vec<u8>) -> (r: Result<(), Error>)
    ensures
        final(output)@.len() == old(output)@.len(),
        forall|x: Seq<u8>|
            #![trigger lz4_frame_of(x)]
            input@ == lz4_frame_of(x) && old(output)@.len() == x.len() ==> r is Ok
                && final(output)@ == x,
{
    lz4_decompress_raw(input, output)
}

/// Decompresses one ZSTD frame into `output`, which the caller pre-sizes to
/// the exact expected decompressed length; failing to fill it exactly is a
/// decode error, never a partial success.
///
/// Round-trip: when `input` is the frame `compress_zstd` emits for `x` and
/// `output` has `x`'s length, the call succeeds and `output` becomes `x`.
pub fn decompress_zstd(input: &[u8], output: &mut Vec<u8>) -> (r: Result<(), Error>)
    ensures
        final(output)@.len() == old(output)@.len(),
        forall|x: Seq<u8>|
            #![trigger zstd_frame_of(x)]
            input@ == zstd_frame_of(x) && old(output)@.len() == x.len() ==> r is Ok
                && final(output)@ == x,
{
    zstd_decompress_raw(input, output)
}

} // verus!
