use blobstore::error::BlobStoreError;
use blobstore::hash::B256;
use blobstore::noop::NoopBlobStore;
use blobstore::sidecar::{BlobItemV1, BlobSidecar};
use blobstore::size::BlobStoreSize;
use blobstore::stat::{cleanup_stat_of, BlobStoreCleanupStat};
use blobstore::store::BlobStore;
use blobstore::tracker::BlobStoreCanonTracker;

fn h(n: u64) -> B256 {
    B256::from_u64(n)
}

#[test]
fn finalization_evicts_once_and_never_again() {
    let mut tracker = BlobStoreCanonTracker::new(2);
    let up1 = tracker.on_chain_extension(1, vec![h(11)]);
    assert!(up1.to_delete.is_empty() && up1.to_reinsert.is_empty());
    let up2 = tracker.on_chain_extension(2, vec![h(22)]);
    assert!(up2.to_delete.is_empty());
    // Head 3 puts block 1 two blocks behind: its hash is finalized.
    let up3 = tracker.on_chain_extension(3, vec![]);
    assert_eq!(up3.to_delete, vec![h(11)]);
    assert!(up3.to_reinsert.is_empty());
    // The hash left the history: later batches never name it again.
    let up4 = tracker.on_chain_extension(4, vec![]);
    assert_eq!(up4.to_delete, vec![h(22)]);
    let up5 = tracker.on_chain_extension(5, vec![]);
    assert!(up5.to_delete.is_empty());
}

#[test]
fn reorg_flags_for_reinsertion_and_forgets() {
    let mut tracker = BlobStoreCanonTracker::new(10);
    tracker.on_chain_extension(5, vec![h(55)]);
    tracker.on_chain_extension(6, vec![h(66), h(67)]);
    let up = tracker.on_chain_revert(5);
    assert!(up.to_delete.is_empty());
    assert_eq!(up.to_reinsert, vec![h(66), h(67)]);
    // Block 6 is gone from the history: reverting again flags nothing.
    let again = tracker.on_chain_revert(4);
    assert_eq!(again.to_reinsert, vec![h(55)]);
    let empty = tracker.on_chain_revert(0);
    assert!(empty.to_reinsert.is_empty());
}

#[test]
fn depth_zero_finalizes_the_new_block_itself() {
    let mut tracker = BlobStoreCanonTracker::new(0);
    let up = tracker.on_chain_extension(7, vec![h(77)]);
    assert_eq!(up.to_delete, vec![h(77)]);
}

#[test]
fn noop_store_retains_nothing() {
    let mut store = NoopBlobStore::new();
    store
        .insert(h(1), BlobSidecar::V1(vec![BlobItemV1 {
            versioned_hash: h(10),
            blob: vec![1],
            proof: vec![],
        }]))
        .unwrap();
    assert!(!store.contains(h(1)).unwrap());
    assert!(store.get(h(1)).unwrap().is_none());
    assert_eq!(store.blobs_len(), 0);
    assert_eq!(store.data_size_hint(), Some(0));
    assert!(store.get_all(vec![h(1)]).unwrap().is_empty());
    match store.get_exact(vec![h(1), h(2)]) {
        Err(BlobStoreError::MissingSidecar(missing)) => assert_eq!(missing, h(1)),
        _ => panic!("the no-op store holds nothing"),
    }
    let v1 = store.get_by_versioned_hashes_v1(&vec![h(5)]).unwrap();
    assert_eq!(v1, vec![None]);
    assert!(store.get_by_versioned_hashes_v2(&vec![h(5)]).unwrap().is_none());
    assert!(store
        .get_by_versioned_hashes_v2(&Vec::new())
        .unwrap()
        .unwrap()
        .is_empty());
    assert_eq!(store.cleanup(), BlobStoreCleanupStat::default());
}

#[test]
fn size_tracker_saturates_below_zero() {
    let mut size = BlobStoreSize::new();
    size.add_size(10);
    size.sub_size(25);
    assert_eq!(size.data_size(), 0);
    size.inc_len(2);
    size.sub_len(5);
    assert_eq!(size.blobs_len(), 0);
    size.update_len(7);
    assert_eq!(size.blobs_len(), 7);
}

#[test]
fn size_trackers_compare_by_counter_values() {
    let mut a = BlobStoreSize::new();
    let mut b = BlobStoreSize::default();
    assert!(a == b);
    a.add_size(3);
    assert!(a != b);
    b.add_size(3);
    assert!(a == b);
}

#[test]
fn cleanup_stat_of_counts_each_outcome() {
    let stat = cleanup_stat_of(&vec![true, false, true, true, false]);
    assert_eq!(stat.delete_succeed, 3);
    assert_eq!(stat.delete_failed, 2);
    let none = cleanup_stat_of(&Vec::new());
    assert_eq!(none, BlobStoreCleanupStat::default());
}

#[test]
fn error_describe_names_the_failure() {
    assert_eq!(
        BlobStoreError::MissingSidecar(h(1)).describe(),
        "blob sidecar not found for transaction"
    );
    assert_eq!(BlobStoreError::DecodeError.describe(), "failed to decode blob data");
    assert_eq!(BlobStoreError::Other("disk full".to_string()).describe(), "disk full");
}
