//! Failure taxonomy for memory reading and object decoding.

use vstd::prelude::*;

verus! {

/// Why a read or decode step failed.
///
/// Failures on the root of an extraction propagate to the caller; failures on
/// a descendant, a single dictionary entry, or a single specialized decode are
/// contained locally and the offending entry is omitted.
#[derive(Clone, Copy, Debug, PartialEq, Eq, Structural)]
pub enum ExtractError {
    /// A memory read could not deliver the requested bytes in full.
    ReadFailure,
    /// Bytes were read but did not decode as the expected object layout
    /// (wrong size, missing null terminator, non-ASCII name, no handler).
    DecodeFailure,
    /// A size field exceeded a sanity bound, so the data is treated as
    /// corrupt rather than partially decoded.
    CorruptionGuard,
    /// A node's `_display` property decoded to boolean `false`.
    NotVisible,
    /// A required key or candidate object was absent.
    NotFound,
}

} // verus!
