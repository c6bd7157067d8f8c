//! The 256-bit identifiers the store is keyed by.

use vstd::prelude::*;

verus! {

/// A 256-bit identifier, held as four 64-bit words.
///
/// It stands both for the hash of a blob-carrying transaction (the key under
/// which its sidecar is stored) and for the versioned hash of a single blob
/// (the key under which consensus-layer queries look blobs up).
#[derive(Clone, Copy, Debug, PartialEq, Eq, Structural)]
pub struct B256 {
    /// Most significant word.
    pub w0: u64,
    /// Second word.
    pub w1: u64,
    /// Third word.
    pub w2: u64,
    /// Least significant word.
    pub w3: u64,
}

impl B256 {
    /// The identifier whose three high words are zero and whose low word is `v`.
    pub open spec fn spec_from_u64(v: u64) -> B256 {
        B256 { w0: 0, w1: 0, w2: 0, w3: v }
    }

    /// Builds the identifier with low word `v`; convenient for callers that
    /// key small test universes.
    pub fn from_u64(v: u64) -> (r: B256)
        ensures
            r == B256::spec_from_u64(v),
    {
        B256 { w0: 0, w1: 0, w2: 0, w3: v }
    }
}

} // verus!
