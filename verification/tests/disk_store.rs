use blobstore::disk::{DiskFileBlobStore, DiskFileBlobStoreConfig, DiskGet, FileReadOutcome};
use blobstore::error::BlobStoreError;
use blobstore::hash::B256;
use blobstore::sidecar::{BlobItemV1, BlobSidecar};
use blobstore::stat::cleanup_stat_of;
use blobstore::store::{collect_exact, BlobStore};
use std::sync::Arc;

fn h(n: u64) -> B256 {
    B256::from_u64(n)
}

fn sidecar(blob: Vec<u8>) -> BlobSidecar {
    BlobSidecar::V1(vec![BlobItemV1 { versioned_hash: h(0), blob, proof: vec![] }])
}

fn new_store(cache: usize) -> DiskFileBlobStore {
    DiskFileBlobStore::new(DiskFileBlobStoreConfig {
        max_cached_entries: cache,
        max_concurrent_writes: 4,
    })
}

#[test]
fn deferred_delete_is_immediately_invisible() {
    let mut store = new_store(8);
    store.insert(h(1), sidecar(vec![1, 2, 3])).unwrap();
    assert_eq!(store.blobs_len(), 1);
    assert_eq!(store.data_size_hint().unwrap(), 3);

    store.delete(h(1)).unwrap();
    // Logically gone at once, even though no file was removed yet.
    assert!(matches!(store.get(h(1)), DiskGet::Absent));
    assert!(!store.contains(h(1)).unwrap());
    assert_eq!(store.blobs_len(), 0);
    assert_eq!(store.data_size_hint().unwrap(), 0);

    // The cleanup pass names the file to remove; one successful removal
    // counts as one succeeded deletion.
    let to_remove = store.cleanup_begin();
    assert_eq!(to_remove, vec![h(1)]);
    let stat = cleanup_stat_of(&vec![true]);
    assert_eq!(stat.delete_succeed, 1);
    assert_eq!(stat.delete_failed, 0);
    // The queue is drained: a second pass has nothing to do.
    assert_eq!(store.cleanup_begin().len(), 0);
}

#[test]
fn cleanup_stat_counts_failures_without_requeueing() {
    let mut store = new_store(8);
    store.insert(h(1), sidecar(vec![1])).unwrap();
    store.insert(h(2), sidecar(vec![2])).unwrap();
    store.delete(h(1)).unwrap();
    store.delete(h(2)).unwrap();
    let to_remove = store.cleanup_begin();
    assert_eq!(to_remove.len(), 2);
    let stat = cleanup_stat_of(&vec![true, false]);
    assert_eq!(stat.delete_succeed, 1);
    assert_eq!(stat.delete_failed, 1);
    assert_eq!(store.cleanup_begin().len(), 0);
}

#[test]
fn delete_absent_on_disk_store_is_idempotent() {
    let mut store = new_store(8);
    store.insert(h(1), sidecar(vec![1, 2])).unwrap();
    store.delete(h(9)).unwrap();
    assert_eq!(store.blobs_len(), 1);
    assert_eq!(store.data_size_hint().unwrap(), 2);
    assert_eq!(store.cleanup_begin().len(), 0);
}

#[test]
fn overwrite_counts_only_second_payload() {
    let mut store = new_store(8);
    store.insert(h(1), sidecar(vec![1, 2, 3, 4])).unwrap();
    store.insert(h(1), sidecar(vec![5])).unwrap();
    assert_eq!(store.blobs_len(), 1);
    assert_eq!(store.data_size_hint().unwrap(), 1);
}

#[test]
fn reinsert_cancels_pending_deletion() {
    let mut store = new_store(8);
    store.insert(h(1), sidecar(vec![1])).unwrap();
    store.delete(h(1)).unwrap();
    store.insert(h(1), sidecar(vec![2])).unwrap();
    // The hash came back, so no stale file removal may be scheduled.
    assert_eq!(store.cleanup_begin().len(), 0);
    assert!(store.contains(h(1)).unwrap());
}

#[test]
fn cache_hit_serves_without_file_read() {
    let mut store = new_store(8);
    store.insert(h(1), sidecar(vec![7, 7])).unwrap();
    match store.get(h(1)) {
        DiskGet::Cached(a) => match &*a {
            BlobSidecar::V1(items) => assert_eq!(items[0].blob, vec![7, 7]),
            _ => panic!("stored a v1 sidecar"),
        },
        _ => panic!("a just-inserted entry is cached"),
    }
}

#[test]
fn eviction_falls_back_to_file_read() {
    let mut store = new_store(1);
    store.insert(h(1), sidecar(vec![1])).unwrap();
    store.insert(h(2), sidecar(vec![2])).unwrap();
    // The one-slot cache now holds hash 2; hash 1 needs its file.
    assert!(matches!(store.get(h(1)), DiskGet::ReadFile));
    assert!(matches!(store.get(h(2)), DiskGet::Cached(_)));

    // The file's contents come back, are handed out and cached again.
    let got = store.on_file_read(h(1), FileReadOutcome::Data(sidecar(vec![1]))).unwrap();
    assert!(got.is_some());
    assert!(matches!(store.get(h(1)), DiskGet::Cached(_)));
}

#[test]
fn missing_file_reads_as_not_found_and_corrupt_as_decode_error() {
    let mut store = new_store(1);
    store.insert(h(1), sidecar(vec![1])).unwrap();
    store.insert(h(2), sidecar(vec![2])).unwrap();
    assert!(matches!(store.get(h(1)), DiskGet::ReadFile));

    let got = store.on_file_read(h(1), FileReadOutcome::Missing).unwrap();
    assert!(got.is_none());

    match store.on_file_read(h(1), FileReadOutcome::Corrupt) {
        Err(BlobStoreError::DecodeError) => {}
        _ => panic!("undecodable bytes surface as the decode error"),
    }
}

#[test]
fn disk_batch_inserts_and_deletes() {
    let mut store = new_store(4);
    store
        .insert_all(vec![(h(1), sidecar(vec![1])), (h(2), sidecar(vec![2, 2]))])
        .unwrap();
    assert_eq!(store.blobs_len(), 2);
    assert_eq!(store.data_size_hint().unwrap(), 3);
    store.delete_all(vec![h(1), h(2)]).unwrap();
    assert_eq!(store.blobs_len(), 0);
    let mut queued = store.cleanup_begin();
    queued.sort_by_key(|b| b.w3);
    assert_eq!(queued, vec![h(1), h(2)]);
}

#[test]
fn disk_versioned_queries_serve_from_cache() {
    let mut store = new_store(4);
    let sc = BlobSidecar::V1(vec![BlobItemV1 {
        versioned_hash: h(100),
        blob: vec![1, 1],
        proof: vec![7],
    }]);
    store.insert(h(1), sc).unwrap();
    let v1 = store.get_by_versioned_hashes_v1(&vec![h(100), h(300)]).unwrap();
    assert_eq!(v1.len(), 2);
    assert_eq!(v1[0].as_ref().unwrap().blob, vec![1, 1]);
    assert!(v1[1].is_none());
    assert!(store.get_by_versioned_hashes_v2(&vec![h(100)]).unwrap().is_none());
}

#[test]
fn collect_exact_decides_on_resolved_lookups() {
    let a = Arc::new(sidecar(vec![1]));
    let b = Arc::new(sidecar(vec![2]));
    let txs = vec![h(1), h(2)];
    let ok = collect_exact(&txs, vec![Some(a.clone()), Some(b.clone())]).unwrap();
    assert_eq!(ok.len(), 2);
    match collect_exact(&txs, vec![Some(a), None]) {
        Err(BlobStoreError::MissingSidecar(missing)) => assert_eq!(missing, h(2)),
        _ => panic!("the second lookup found nothing"),
    }
}
