//! The no-op blob store, used when blob retention is administratively
//! disabled: every mutator does nothing and every reader finds nothing,
//! so callers need no conditional logic.

use vstd::prelude::*;
use std::sync::Arc;
use crate::error::BlobStoreError;
use crate::hash::B256;
use crate::sidecar::{BlobAndProofV1, BlobAndProofV2, BlobSidecar};
use crate::stat::BlobStoreCleanupStat;
use crate::store::{spec_removed_count, spec_removed_size, BlobStore, StoreView};

verus! {

/// A blob store that retains nothing; it has no state.
pub struct NoopBlobStore {
}

/// With nothing ever present, a batch deletion removes nothing.
proof fn lemma_removed_nothing(pre: StoreView, batch: Seq<B256>, i: int)
    requires
        forall|t: B256| !(#[trigger] (pre.present)(t)),
    ensures
        spec_removed_count(pre, batch, i) == 0,
        spec_removed_size(pre, batch, i) == 0,
    decreases i,
{
    if i > 0 {
        lemma_removed_nothing(pre, batch, i - 1);
    }
}

impl NoopBlobStore {
    /// The store that retains nothing.
    pub fn new() -> (r: Self)
        ensures
            r.spec_wf(),
    {
        NoopBlobStore {  }
    }

    /// No deferred state exists, so one cleanup pass does nothing.
    pub fn cleanup(&self) -> (r: BlobStoreCleanupStat)
        ensures
            r == BlobStoreCleanupStat::spec_zero(),
    {
        BlobStoreCleanupStat::zero()
    }

    /// Nothing is retained, so nothing is found.
    pub fn get(&self, tx: B256) -> (r: Result<Option<Arc<BlobSidecar>>, BlobStoreError>)
        ensures
            r == Ok::<Option<Arc<BlobSidecar>>, BlobStoreError>(None),
    {
        Ok(None)
    }

    /// The lenient batch lookup finds nothing.
    pub fn get_all(&self, txs: Vec<B256>) -> (r: Result<
        Vec<(B256, Arc<BlobSidecar>)>,
        BlobStoreError,
    >)
        ensures
            r matches Ok(list) && list@.len() == 0,
    {
        Ok(Vec::new())
    }

    /// The strict batch lookup fails on the first requested hash, since
    /// every hash is absent; an empty request trivially succeeds.
    pub fn get_exact(&self, txs: Vec<B256>) -> (r: Result<Vec<Arc<BlobSidecar>>, BlobStoreError>)
        ensures
            txs@.len() == 0 ==> (r matches Ok(list) && list@.len() == 0),
            txs@.len() > 0 ==> r == Err::<Vec<Arc<BlobSidecar>>, BlobStoreError>(
                BlobStoreError::MissingSidecar(txs@[0]),
            ),
    {
        if txs.len() == 0 {
            Ok(Vec::new())
        } else {
            Err(BlobStoreError::MissingSidecar(txs[0]))
        }
    }

    /// Every answer slot of the per-blob-proof query is empty.
    pub fn get_by_versioned_hashes_v1(&self, versioned_hashes: &Vec<B256>) -> (r: Result<
        Vec<Option<BlobAndProofV1>>,
        BlobStoreError,
    >)
        ensures
            r matches Ok(list) && list@.len() == versioned_hashes@.len() && forall|k: int|
                0 <= k < list@.len() ==> (#[trigger] list@[k]) is None,
    {
        let mut out: Vec<Option<BlobAndProofV1>> = Vec::new();
        let mut i: usize = 0;
        while i < versioned_hashes.len()
            invariant
                i <= versioned_hashes@.len(),
                out@.len() == i,
                forall|k: int| 0 <= k < i ==> (#[trigger] out@[k]) is None,
            decreases versioned_hashes@.len() - i,
        {
            out.push(None);
            i = i + 1;
        }
        Ok(out)
    }

    /// The all-or-nothing query returns nothing unless nothing was asked.
    pub fn get_by_versioned_hashes_v2(&self, versioned_hashes: &Vec<B256>) -> (r: Result<
        Option<Vec<BlobAndProofV2>>,
        BlobStoreError,
    >)
        ensures
            versioned_hashes@.len() == 0 ==> (r matches Ok(o) && o matches Some(list)
                && list@.len() == 0),
            versioned_hashes@.len() > 0 ==> r == Ok::<
                Option<Vec<BlobAndProofV2>>,
                BlobStoreError,
            >(None),
    {
        if versioned_hashes.len() == 0 {
            Ok(Some(Vec::new()))
        } else {
            Ok(None)
        }
    }
}

impl BlobStore for NoopBlobStore {
    closed spec fn spec_wf(&self) -> bool {
        true
    }

    closed spec fn spec_view(&self) -> StoreView {
        StoreView {
            present: |t: B256| false,
            size_of: |t: B256| 0nat,
            known: |t: B256| None::<BlobSidecar>,
            pending: |t: B256| false,
            data_size: 0,
            blob_count: 0,
            retains: false,
            fully_resident: true,
            defers_delete: false,
            tracks_data_size: true,
        }
    }

    proof fn wf_facts(&self, tx: B256) {
    }

    fn insert(&mut self, tx: B256, data: BlobSidecar) -> (r: Result<(), BlobStoreError>) {
        Ok(())
    }

    fn insert_all(&mut self, txs: Vec<(B256, BlobSidecar)>) -> (r: Result<(), BlobStoreError>) {
        Ok(())
    }

    fn delete(&mut self, tx: B256) -> (r: Result<(), BlobStoreError>) {
        Ok(())
    }

    fn delete_all(&mut self, txs: Vec<B256>) -> (r: Result<(), BlobStoreError>) {
        proof {
            lemma_removed_nothing(self.spec_view(), txs@, txs@.len() as int);
        }
        Ok(())
    }

    fn contains(&self, tx: B256) -> (r: Result<bool, BlobStoreError>) {
        Ok(false)
    }

    fn data_size_hint(&self) -> (r: Option<usize>) {
        Some(0)
    }

    fn blobs_len(&self) -> (r: usize) {
        0
    }
}

} // verus!
