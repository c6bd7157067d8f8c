//! The error taxonomy of the blob store.

use vstd::prelude::*;
use crate::hash::B256;

verus! {

/// Error variants that can occur when interacting with a blob store.
#[derive(Clone, Debug, PartialEq, Eq)]
pub enum BlobStoreError {
    /// A strict lookup required the sidecar of the given transaction hash,
    /// and no entry was found for it.
    MissingSidecar(B256),
    /// The stored bytes for an entry could not be decoded back into a
    /// sidecar; the entry should be treated as lost.
    DecodeError,
    /// Any implementation-specific failure, carried as a display string for
    /// diagnostics; no structured recovery is offered beyond "the operation
    /// did not complete as requested".
    Other(String),
}

impl BlobStoreError {
    /// True for the strict-lookup failure.
    pub open spec fn spec_is_missing(&self) -> bool {
        self is MissingSidecar
    }

    /// A short description of the variant, for logs.
    pub fn describe(&self) -> String {
        match self {
            BlobStoreError::MissingSidecar(_) => "blob sidecar not found for transaction".to_string(),
            BlobStoreError::DecodeError => "failed to decode blob data".to_string(),
            BlobStoreError::Other(msg) => msg.clone(),
        }
    }
}

} // verus!
