use blobstore::error::BlobStoreError;
use blobstore::hash::B256;
use blobstore::mem::InMemoryBlobStore;
use blobstore::sidecar::{BlobItemV1, BlobItemV2, BlobSidecar};
use blobstore::store::BlobStore;

fn h(n: u64) -> B256 {
    B256::from_u64(n)
}

fn sidecar_v1(vh: u64, blob: Vec<u8>, proof: Vec<u8>) -> BlobSidecar {
    BlobSidecar::V1(vec![BlobItemV1 { versioned_hash: h(vh), blob, proof }])
}

fn sidecar_v2(vh: u64, blob: Vec<u8>, cell_proofs: Vec<Vec<u8>>) -> BlobSidecar {
    BlobSidecar::V2(vec![BlobItemV2 { versioned_hash: h(vh), blob, cell_proofs }])
}

#[test]
fn insert_then_get_returns_it() {
    let mut store = InMemoryBlobStore::new();
    store.insert(h(1), sidecar_v1(10, vec![1, 2, 3], vec![9])).unwrap();
    let got = store.get(h(1)).unwrap();
    assert!(got.is_some());
    match &*got.unwrap() {
        BlobSidecar::V1(items) => {
            assert_eq!(items.len(), 1);
            assert_eq!(items[0].blob, vec![1, 2, 3]);
        }
        BlobSidecar::V2(_) => panic!("stored a v1 sidecar"),
    }
    assert!(store.contains(h(1)).unwrap());
    assert_eq!(store.blobs_len(), 1);
}

#[test]
fn sidecar_size_counts_blob_and_proof_bytes() {
    let sc = sidecar_v1(10, vec![1, 2, 3], vec![9, 9]);
    assert_eq!(sc.size(), 5);
    let sc2 = sidecar_v2(11, vec![1, 2, 3, 4], vec![vec![7], vec![8, 8]]);
    assert_eq!(sc2.size(), 7);
}

#[test]
fn delete_absent_hash_changes_nothing() {
    let mut store = InMemoryBlobStore::new();
    store.insert(h(1), sidecar_v1(10, vec![1, 2, 3], vec![9])).unwrap();
    let size_before = store.data_size_hint().unwrap();
    let count_before = store.blobs_len();
    store.delete(h(99)).unwrap();
    assert_eq!(store.data_size_hint().unwrap(), size_before);
    assert_eq!(store.blobs_len(), count_before);
    assert!(store.contains(h(1)).unwrap());
}

#[test]
fn insert_overwrite_keeps_one_entry_and_second_size() {
    let mut store = InMemoryBlobStore::new();
    store.insert(h(1), sidecar_v1(10, vec![1, 2, 3], vec![9])).unwrap();
    assert_eq!(store.data_size_hint().unwrap(), 4);
    store.insert(h(1), sidecar_v1(10, vec![5, 6], vec![])).unwrap();
    assert_eq!(store.blobs_len(), 1);
    // Only the second payload's two bytes are counted, not 4 + 2.
    assert_eq!(store.data_size_hint().unwrap(), 2);
}

#[test]
fn get_all_lenient_get_exact_strict() {
    let mut store = InMemoryBlobStore::new();
    store.insert(h(1), sidecar_v1(10, vec![1], vec![])).unwrap();
    store.insert(h(3), sidecar_v1(30, vec![3], vec![])).unwrap();
    let req = vec![h(1), h(2), h(3)];

    let found = store.get_all(req.clone()).unwrap();
    let keys: Vec<B256> = found.iter().map(|p| p.0).collect();
    assert_eq!(keys, vec![h(1), h(3)]);

    match store.get_exact(req) {
        Err(BlobStoreError::MissingSidecar(missing)) => assert_eq!(missing, h(2)),
        other => panic!("expected a missing-sidecar error, got {:?}", other.is_ok()),
    }
}

#[test]
fn get_exact_in_request_order() {
    let mut store = InMemoryBlobStore::new();
    store.insert(h(1), sidecar_v1(10, vec![1], vec![])).unwrap();
    store.insert(h(2), sidecar_v1(20, vec![2], vec![])).unwrap();
    let got = store.get_exact(vec![h(2), h(1)]).unwrap();
    assert_eq!(got.len(), 2);
    match &*got[0] {
        BlobSidecar::V1(items) => assert_eq!(items[0].blob, vec![2]),
        _ => panic!("expected the sidecar of the first requested hash"),
    }
}

#[test]
fn versioned_v1_positional_v2_all_or_nothing() {
    let mut store = InMemoryBlobStore::new();
    store.insert(h(1), sidecar_v1(100, vec![1, 1], vec![7])).unwrap();
    store.insert(h(2), sidecar_v2(200, vec![2, 2], vec![vec![8]])).unwrap();

    // v1: hash 100 found with its proof, unknown hash 300 yields an empty slot.
    let v1 = store.get_by_versioned_hashes_v1(&vec![h(100), h(300)]).unwrap();
    assert_eq!(v1.len(), 2);
    let first = v1[0].as_ref().expect("hash 100 is stored in a v1 sidecar");
    assert_eq!(first.blob, vec![1, 1]);
    assert_eq!(first.proof, vec![7]);
    assert!(v1[1].is_none());

    // v2: one absent hash empties the whole answer.
    let v2 = store.get_by_versioned_hashes_v2(&vec![h(200), h(300)]).unwrap();
    assert!(v2.is_none());
    // ... while a fully present request is answered positionally.
    let v2_ok = store.get_by_versioned_hashes_v2(&vec![h(200)]).unwrap().unwrap();
    assert_eq!(v2_ok.len(), 1);
    assert_eq!(v2_ok[0].blob, vec![2, 2]);
    assert_eq!(v2_ok[0].cell_proofs, vec![vec![8]]);
}

#[test]
fn v1_sidecar_serves_no_v2_query() {
    let mut store = InMemoryBlobStore::new();
    store.insert(h(1), sidecar_v1(100, vec![1], vec![7])).unwrap();
    assert!(store.get_by_versioned_hashes_v2(&vec![h(100)]).unwrap().is_none());
}

#[test]
fn insert_all_and_delete_all() {
    let mut store = InMemoryBlobStore::new();
    store
        .insert_all(vec![
            (h(1), sidecar_v1(10, vec![1], vec![])),
            (h(2), sidecar_v1(20, vec![2, 2], vec![])),
        ])
        .unwrap();
    assert_eq!(store.blobs_len(), 2);
    assert_eq!(store.data_size_hint().unwrap(), 3);
    store.delete_all(vec![h(1), h(2), h(9)]).unwrap();
    assert_eq!(store.blobs_len(), 0);
    assert_eq!(store.data_size_hint().unwrap(), 0);
}

#[test]
fn insert_all_last_payload_wins() {
    let mut store = InMemoryBlobStore::new();
    store
        .insert_all(vec![
            (h(1), sidecar_v1(10, vec![1], vec![])),
            (h(1), sidecar_v1(10, vec![2, 2, 2], vec![])),
        ])
        .unwrap();
    assert_eq!(store.blobs_len(), 1);
    match &*store.get(h(1)).unwrap().unwrap() {
        BlobSidecar::V1(items) => assert_eq!(items[0].blob, vec![2, 2, 2]),
        _ => panic!("expected the second payload"),
    }
}

#[test]
fn cleanup_of_memory_store_is_a_noop() {
    let mut store = InMemoryBlobStore::new();
    store.insert(h(1), sidecar_v1(10, vec![1], vec![])).unwrap();
    let stat = store.cleanup();
    assert_eq!(stat.delete_succeed, 0);
    assert_eq!(stat.delete_failed, 0);
    assert!(store.contains(h(1)).unwrap());
}
