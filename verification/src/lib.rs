//! A columnar, typed, nullable in-memory data model, together with the framed
//! binary protocol that moves such values across process boundaries.
//!
//! The crate is organised around two tasks: incrementally building nested and
//! dictionary-encoded columnar values while keeping the null-bitmap and offset
//! invariants intact, and framing, optionally compressing, and decoding those
//! values under an 8-byte-alignment discipline.

pub mod array;
pub mod bitmap;
pub mod builders;
pub mod compression;
pub mod datatypes;
pub mod decimal;
pub mod dictionaries;
pub mod error;
pub mod framing;
pub mod reconstruct;
