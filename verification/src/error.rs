//! The failure taxonomy shared by builders, the framing codec, the body
//! compression codec, and array reconstruction.

use vstd::prelude::*;

verus! {

/// A body-compression algorithm that a message can select.
#[derive(Clone, Copy, Debug, PartialEq, Eq, Structural)]
pub enum CompressionKind {
    Lz4,
    Zstd,
}

/// A structural failure while building, framing, or decoding a columnar value.
///
/// Every variant aborts the current column or message; none is silently
/// replaced by a default value.
#[derive(Clone, Debug, PartialEq, Eq)]
pub enum Error {
    /// An offset or key exceeds the representable range of its integer width.
    IndexOverflow,
    /// A message body whose length is not a multiple of 8 was handed to the
    /// framing codec.
    MisalignedBody,
    /// The named algorithm is not available to this build; configurations
    /// without a codec degrade to this error rather than passing bytes
    /// through.
    CompressionUnavailable(CompressionKind),
    /// The named algorithm was invoked but failed at run time, for example on
    /// a corrupt compressed body.
    CompressionFailed(CompressionKind),
    /// Decoding referenced a dictionary id that was never registered; carries
    /// the offending id and the ids that are known, for diagnostics.
    UnknownDictionaryId { id: u64, known: Vec<u64> },
    /// Fewer bytes are available than a buffer descriptor claims.
    TruncatedInput,
    /// Arguments of mismatched shape, such as arrays of different lengths or
    /// decimal parameters that disagree.
    InvalidArgument,
}

} // verus!
