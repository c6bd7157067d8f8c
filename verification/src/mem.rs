//! The in-memory blob store: a plain mapping from transaction hash to
//! sidecar, with a size tracker.

use vstd::prelude::*;
use std::sync::Arc;
use crate::error::BlobStoreError;
use crate::hash::B256;
use crate::sidecar::{
    spec_matches_v1, spec_matches_v2, BlobAndProofV1, BlobAndProofV2, BlobItemV1, BlobItemV2,
    BlobSidecar,
};
use crate::size::BlobStoreSize;
use crate::stat::BlobStoreCleanupStat;
use crate::store::{
    lemma_batch_size_mono, lemma_delete_all_step, lemma_insert_all_step, spec_batch_size,
    spec_first_missing, spec_get_all, BlobStore, StoreView,
};

verus! {

/// The sidecar stored under `tx` in the association list `s`: the first
/// entry with that key, scanning from the front.
pub open spec fn spec_lookup(s: Seq<(B256, Arc<BlobSidecar>)>, tx: B256) -> Option<BlobSidecar>
    decreases s.len(),
{
    if s.len() == 0 {
        None
    } else if s[0].0 == tx {
        Some(*s[0].1)
    } else {
        spec_lookup(s.skip(1), tx)
    }
}

/// No two entries of `s` share a key.
pub open spec fn spec_distinct_keys(s: Seq<(B256, Arc<BlobSidecar>)>) -> bool {
    forall|i: int, j: int| 0 <= i < j < s.len() ==> s[i].0 != s[j].0
}

/// When no entry before position `i` has key `tx`, the lookup may as well
/// start at `i`.
pub proof fn lemma_lookup_skip(s: Seq<(B256, Arc<BlobSidecar>)>, tx: B256, i: int)
    requires
        0 <= i <= s.len(),
        forall|j: int| 0 <= j < i ==> s[j].0 != tx,
    ensures
        spec_lookup(s, tx) == spec_lookup(s.skip(i), tx),
    decreases i,
{
    if i > 0 {
        assert(s[0].0 != tx);
        assert(forall|j: int| 0 <= j < i - 1 ==> s.skip(1)[j] == s[j + 1]);
        lemma_lookup_skip(s.skip(1), tx, i - 1);
        assert(s.skip(1).skip(i - 1) =~= s.skip(i));
    } else {
        assert(s.skip(0) =~= s);
    }
}

/// A key carried by no entry of `s` looks up to nothing.
pub proof fn lemma_lookup_absent(s: Seq<(B256, Arc<BlobSidecar>)>, tx: B256)
    requires
        forall|j: int| 0 <= j < s.len() ==> s[j].0 != tx,
    ensures
        spec_lookup(s, tx) is None,
{
    lemma_lookup_skip(s, tx, s.len() as int);
}

/// With distinct keys, the entry at position `i` is what its key looks up
/// to.
pub proof fn lemma_lookup_at(s: Seq<(B256, Arc<BlobSidecar>)>, i: int)
    requires
        spec_distinct_keys(s),
        0 <= i < s.len(),
    ensures
        spec_lookup(s, s[i].0) == Some(*s[i].1),
{
    lemma_lookup_skip(s, s[i].0, i);
    assert(s.skip(i)[0] == s[i]);
}

/// Appending an entry leaves other keys' lookups alone, and makes its own
/// key look up to it when the key was free.
pub proof fn lemma_lookup_push(s: Seq<(B256, Arc<BlobSidecar>)>, e: (B256, Arc<BlobSidecar>), tx: B256)
    ensures
        tx != e.0 ==> spec_lookup(s.push(e), tx) == spec_lookup(s, tx),
        tx == e.0 && spec_lookup(s, tx) is None ==> spec_lookup(s.push(e), tx) == Some(*e.1),
    decreases s.len(),
{
    if s.len() == 0 {
        assert(s.push(e)[0] == e);
        assert(s.push(e).skip(1) =~= Seq::<(B256, Arc<BlobSidecar>)>::empty());
        assert(spec_lookup(Seq::<(B256, Arc<BlobSidecar>)>::empty(), tx) is None);
    } else {
        assert(s.push(e)[0] == s[0]);
        lemma_lookup_push(s.skip(1), e, tx);
        assert(s.push(e).skip(1) =~= s.skip(1).push(e));
    }
}

/// Removing the entry at position `i` frees exactly its key and leaves
/// other keys' lookups alone.
pub proof fn lemma_lookup_remove(s: Seq<(B256, Arc<BlobSidecar>)>, i: int, tx: B256)
    requires
        spec_distinct_keys(s),
        0 <= i < s.len(),
    ensures
        spec_distinct_keys(s.remove(i)),
        tx == s[i].0 ==> spec_lookup(s.remove(i), tx) is None,
        tx != s[i].0 ==> spec_lookup(s.remove(i), tx) == spec_lookup(s, tx),
{
    let r = s.remove(i);
    assert(forall|j: int| 0 <= j < i ==> r[j] == s[j]);
    assert(forall|j: int| i <= j < r.len() ==> r[j] == s[j + 1]);
    if tx == s[i].0 {
        assert(forall|j: int| 0 <= j < r.len() ==> r[j].0 != tx);
        lemma_lookup_absent(r, tx);
    } else {
        if exists|j: int| 0 <= j < s.len() && s[j].0 == tx {
            let j = choose|j: int| 0 <= j < s.len() && s[j].0 == tx;
            lemma_lookup_at(s, j);
            if j < i {
                lemma_lookup_at(r, j);
            } else {
                assert(j != i);
                assert(r[j - 1] == s[j]);
                lemma_lookup_at(r, j - 1);
            }
        } else {
            assert(forall|j: int| 0 <= j < s.len() ==> s[j].0 != tx);
            assert(forall|j: int| 0 <= j < r.len() ==> r[j].0 != tx);
            lemma_lookup_absent(s, tx);
            lemma_lookup_absent(r, tx);
        }
    }
}

/// Finds the position of the entry keyed by `tx`, if any.
pub(crate) fn find_index(entries: &Vec<(B256, Arc<BlobSidecar>)>, tx: B256) -> (r: Option<usize>)
    ensures
        match r {
            Some(i) => i < entries@.len() && entries@[i as int].0 == tx && spec_lookup(
                entries@,
                tx,
            ) == Some(*entries@[i as int].1),
            None => spec_lookup(entries@, tx) is None,
        },
{
    let mut i: usize = 0;
    while i < entries.len()
        invariant
            i <= entries@.len(),
            forall|j: int| 0 <= j < i ==> entries@[j].0 != tx,
        decreases entries@.len() - i,
    {
        if entries[i].0 == tx {
            proof {
                lemma_lookup_skip(entries@, tx, i as int);
                assert(entries@.skip(i as int)[0] == entries@[i as int]);
            }
            return Some(i);
        }
        i = i + 1;
    }
    proof {
        lemma_lookup_absent(entries@, tx);
    }
    None
}


/// The first blob of the older shape carrying `vh` across the entries of
/// `s`, scanning entries from the front.
pub open spec fn spec_store_find_v1(s: Seq<(B256, Arc<BlobSidecar>)>, vh: B256) -> Option<
    BlobItemV1,
>
    decreases s.len(),
{
    if s.len() == 0 {
        None
    } else {
        match (*s[0].1).spec_find_v1(vh) {
            Some(item) => Some(item),
            None => spec_store_find_v1(s.skip(1), vh),
        }
    }
}

/// The first blob of the newer shape carrying `vh` across the entries of
/// `s`, scanning entries from the front.
pub open spec fn spec_store_find_v2(s: Seq<(B256, Arc<BlobSidecar>)>, vh: B256) -> Option<
    BlobItemV2,
>
    decreases s.len(),
{
    if s.len() == 0 {
        None
    } else {
        match (*s[0].1).spec_find_v2(vh) {
            Some(item) => Some(item),
            None => spec_store_find_v2(s.skip(1), vh),
        }
    }
}

/// When no entry before position `i` serves `vh`, the search may as well
/// start at `i`.
proof fn lemma_store_find_v1_skip(s: Seq<(B256, Arc<BlobSidecar>)>, vh: B256, i: int)
    requires
        0 <= i <= s.len(),
        forall|j: int| 0 <= j < i ==> (*#[trigger] s[j].1).spec_find_v1(vh) is None,
    ensures
        spec_store_find_v1(s, vh) == spec_store_find_v1(s.skip(i), vh),
    decreases i,
{
    if i > 0 {
        assert((*s[0].1).spec_find_v1(vh) is None);
        assert(forall|j: int| 0 <= j < i - 1 ==> s.skip(1)[j] == s[j + 1]);
        lemma_store_find_v1_skip(s.skip(1), vh, i - 1);
        assert(s.skip(1).skip(i - 1) =~= s.skip(i));
    } else {
        assert(s.skip(0) =~= s);
    }
}

/// When no entry before position `i` serves `vh`, the search may as well
/// start at `i`.
proof fn lemma_store_find_v2_skip(s: Seq<(B256, Arc<BlobSidecar>)>, vh: B256, i: int)
    requires
        0 <= i <= s.len(),
        forall|j: int| 0 <= j < i ==> (*#[trigger] s[j].1).spec_find_v2(vh) is None,
    ensures
        spec_store_find_v2(s, vh) == spec_store_find_v2(s.skip(i), vh),
    decreases i,
{
    if i > 0 {
        assert((*s[0].1).spec_find_v2(vh) is None);
        assert(forall|j: int| 0 <= j < i - 1 ==> s.skip(1)[j] == s[j + 1]);
        lemma_store_find_v2_skip(s.skip(1), vh, i - 1);
        assert(s.skip(1).skip(i - 1) =~= s.skip(i));
    } else {
        assert(s.skip(0) =~= s);
    }
}

/// Searches the entries for a blob of the older shape carrying `vh`.
pub(crate) fn store_find_v1(entries: &Vec<(B256, Arc<BlobSidecar>)>, vh: B256) -> (r: Option<BlobAndProofV1>)
    ensures
        match spec_store_find_v1(entries@, vh) {
            Some(item) => r matches Some(b) && spec_matches_v1(b, item),
            None => r is None,
        },
{
    let mut j: usize = 0;
    while j < entries.len()
        invariant
            j <= entries@.len(),
            forall|jj: int| 0 <= jj < j ==> (*#[trigger] entries@[jj].1).spec_find_v1(vh) is None,
        decreases entries@.len() - j,
    {
        let found = (&*entries[j].1).find_blob_v1(vh);
        match found {
            Some(b) => {
                proof {
                    lemma_store_find_v1_skip(entries@, vh, j as int);
                    assert(entries@.skip(j as int)[0] == entries@[j as int]);
                }
                return Some(b);
            },
            None => {},
        }
        j = j + 1;
    }
    proof {
        lemma_store_find_v1_skip(entries@, vh, entries@.len() as int);
    }
    None
}

/// Searches the entries for a blob of the newer shape carrying `vh`.
pub(crate) fn store_find_v2(entries: &Vec<(B256, Arc<BlobSidecar>)>, vh: B256) -> (r: Option<BlobAndProofV2>)
    ensures
        match spec_store_find_v2(entries@, vh) {
            Some(item) => r matches Some(b) && spec_matches_v2(b, item),
            None => r is None,
        },
{
    let mut j: usize = 0;
    while j < entries.len()
        invariant
            j <= entries@.len(),
            forall|jj: int| 0 <= jj < j ==> (*#[trigger] entries@[jj].1).spec_find_v2(vh) is None,
        decreases entries@.len() - j,
    {
        let found = (&*entries[j].1).find_blob_v2(vh);
        match found {
            Some(b) => {
                proof {
                    lemma_store_find_v2_skip(entries@, vh, j as int);
                    assert(entries@.skip(j as int)[0] == entries@[j as int]);
                }
                return Some(b);
            },
            None => {},
        }
        j = j + 1;
    }
    proof {
        lemma_store_find_v2_skip(entries@, vh, entries@.len() as int);
    }
    None
}

/// A strict lookup that has already failed on the first `i` hashes stays
/// failed however far it reads on.
proof fn lemma_first_missing_persists(v: StoreView, txs: Seq<B256>, i: int, j: int)
    requires
        0 <= i <= j,
        spec_first_missing(v, txs, i) is Some,
    ensures
        spec_first_missing(v, txs, j) == spec_first_missing(v, txs, i),
    decreases j,
{
    if i < j {
        lemma_first_missing_persists(v, txs, i, j - 1);
    }
}

/// An in-memory blob store: every entry's contents are resident, nothing is
/// deferred. All operations answer immediately from the mapping.
pub struct InMemoryBlobStore {
    entries: Vec<(B256, Arc<BlobSidecar>)>,
    size: BlobStoreSize,
}

impl InMemoryBlobStore {
    /// An empty store.
    pub fn new() -> (r: Self)
        ensures
            r.spec_wf(),
            r.spec_view().blob_count == 0,
            r.spec_view().data_size == 0,
            forall|t: B256| !(#[trigger] (r.spec_view().present)(t)),
    {
        let r = InMemoryBlobStore { entries: Vec::new(), size: BlobStoreSize::new() };
        proof {
            assert(r.entries@.len() == 0);
        }
        r
    }

    /// No deferred state exists, so one cleanup pass does nothing.
    pub fn cleanup(&self) -> (r: BlobStoreCleanupStat)
        ensures
            r == BlobStoreCleanupStat::spec_zero(),
    {
        BlobStoreCleanupStat::zero()
    }

    /// The sidecar stored for `tx`, as a shared read-only handle, or `None`.
    pub fn get(&self, tx: B256) -> (r: Result<Option<Arc<BlobSidecar>>, BlobStoreError>)
        requires
            self.spec_wf(),
        ensures
            r matches Ok(o) && (match (self.spec_view().known)(tx) {
                Some(d) => o matches Some(a) && *a == d,
                None => o is None,
            }),
    {
        match find_index(&self.entries, tx) {
            Some(i) => Ok(Some(self.entries[i].1.clone())),
            None => Ok(None),
        }
    }

    /// The entries, in storage order; versioned-hash lookups scan them from
    /// the front.
    pub closed spec fn spec_entries(&self) -> Seq<(B256, Arc<BlobSidecar>)> {
        self.entries@
    }

    /// The sidecars stored for the hashes of `txs` that are found, paired
    /// with their hashes, in request order; misses are silently omitted.
    pub fn get_all(&self, txs: Vec<B256>) -> (r: Result<
        Vec<(B256, Arc<BlobSidecar>)>,
        BlobStoreError,
    >)
        requires
            self.spec_wf(),
        ensures
            r matches Ok(list) && {
                let want = spec_get_all(self.spec_view(), txs@, txs@.len() as int);
                &&& list@.len() == want.len()
                &&& forall|k: int|
                    0 <= k < list@.len() ==> (#[trigger] list@[k]).0 == want[k].0 && *list@[k].1
                        == want[k].1
            },
    {
        let ghost v = self.spec_view();
        let mut out: Vec<(B256, Arc<BlobSidecar>)> = Vec::new();
        let mut i: usize = 0;
        while i < txs.len()
            invariant
                self.spec_wf(),
                v == self.spec_view(),
                i <= txs@.len(),
                out@.len() == spec_get_all(v, txs@, i as int).len(),
                forall|k: int|
                    0 <= k < out@.len() ==> (#[trigger] out@[k]).0 == spec_get_all(
                        v,
                        txs@,
                        i as int,
                    )[k].0 && *out@[k].1 == spec_get_all(v, txs@, i as int)[k].1,
            decreases txs@.len() - i,
        {
            match find_index(&self.entries, txs[i]) {
                Some(j) => {
                    out.push((txs[i], self.entries[j].1.clone()));
                },
                None => {},
            }
            i = i + 1;
        }
        Ok(out)
    }

    /// The sidecars stored for the hashes of `txs`, in exactly the request
    /// order; fails on the first hash with no entry.
    pub fn get_exact(&self, txs: Vec<B256>) -> (r: Result<Vec<Arc<BlobSidecar>>, BlobStoreError>)
        requires
            self.spec_wf(),
        ensures
            match spec_first_missing(self.spec_view(), txs@, txs@.len() as int) {
                None => r matches Ok(list) && list@.len() == txs@.len() && forall|k: int|
                    0 <= k < txs@.len() ==> (self.spec_view().known)(txs@[k]) == Some(
                        *#[trigger] list@[k],
                    ),
                Some(h) => r == Err::<Vec<Arc<BlobSidecar>>, BlobStoreError>(
                    BlobStoreError::MissingSidecar(h),
                ),
            },
    {
        let ghost v = self.spec_view();
        let mut out: Vec<Arc<BlobSidecar>> = Vec::new();
        let mut i: usize = 0;
        while i < txs.len()
            invariant
                self.spec_wf(),
                v == self.spec_view(),
                i <= txs@.len(),
                spec_first_missing(v, txs@, i as int) is None,
                out@.len() == i,
                forall|k: int|
                    0 <= k < i ==> (v.known)(txs@[k]) == Some(*#[trigger] out@[k]),
            decreases txs@.len() - i,
        {
            match find_index(&self.entries, txs[i]) {
                Some(j) => {
                    out.push(self.entries[j].1.clone());
                },
                None => {
                    proof {
                        assert(spec_first_missing(v, txs@, i as int + 1) == Some(txs@[i as int]));
                        lemma_first_missing_persists(v, txs@, i as int + 1, txs@.len() as int);
                    }
                    return Err(BlobStoreError::MissingSidecar(txs[i]));
                },
            }
            i = i + 1;
        }
        Ok(out)
    }

    /// One answer slot per requested versioned hash, each independently
    /// filled or empty: the per-blob-proof consensus query.
    pub fn get_by_versioned_hashes_v1(&self, versioned_hashes: &Vec<B256>) -> (r: Result<
        Vec<Option<BlobAndProofV1>>,
        BlobStoreError,
    >)
        requires
            self.spec_wf(),
        ensures
            r matches Ok(list) && list@.len() == versioned_hashes@.len() && forall|k: int|
                0 <= k < list@.len() ==> match spec_store_find_v1(
                    self.spec_entries(),
                    #[trigger] versioned_hashes@[k],
                ) {
                    Some(item) => list@[k] matches Some(b) && spec_matches_v1(b, item),
                    None => list@[k] is None,
                },
    {
        let mut out: Vec<Option<BlobAndProofV1>> = Vec::new();
        let mut i: usize = 0;
        while i < versioned_hashes.len()
            invariant
                self.spec_wf(),
                i <= versioned_hashes@.len(),
                out@.len() == i,
                forall|k: int|
                    0 <= k < i ==> match spec_store_find_v1(
                        self.spec_entries(),
                        #[trigger] versioned_hashes@[k],
                    ) {
                        Some(item) => out@[k] matches Some(b) && spec_matches_v1(b, item),
                        None => out@[k] is None,
                    },
            decreases versioned_hashes@.len() - i,
        {
            out.push(store_find_v1(&self.entries, versioned_hashes[i]));
            i = i + 1;
        }
        Ok(out)
    }

    /// All requested blobs with their cell proofs, or nothing at all: the
    /// all-or-nothing consensus query returns an empty answer as soon as any
    /// one requested versioned hash has no stored blob of the newer shape.
    pub fn get_by_versioned_hashes_v2(&self, versioned_hashes: &Vec<B256>) -> (r: Result<
        Option<Vec<BlobAndProofV2>>,
        BlobStoreError,
    >)
        requires
            self.spec_wf(),
        ensures
            r matches Ok(o) && match o {
                Some(list) => list@.len() == versioned_hashes@.len() && forall|k: int|
                    0 <= k < list@.len() ==> match spec_store_find_v2(
                        self.spec_entries(),
                        #[trigger] versioned_hashes@[k],
                    ) {
                        Some(item) => spec_matches_v2(list@[k], item),
                        None => false,
                    },
                None => exists|k: int|
                    0 <= k < versioned_hashes@.len() && spec_store_find_v2(
                        self.spec_entries(),
                        #[trigger] versioned_hashes@[k],
                    ) is None,
            },
    {
        let mut out: Vec<BlobAndProofV2> = Vec::new();
        let mut i: usize = 0;
        while i < versioned_hashes.len()
            invariant
                self.spec_wf(),
                i <= versioned_hashes@.len(),
                out@.len() == i,
                forall|k: int|
                    0 <= k < i ==> match spec_store_find_v2(
                        self.spec_entries(),
                        #[trigger] versioned_hashes@[k],
                    ) {
                        Some(item) => spec_matches_v2(out@[k], item),
                        None => false,
                    },
            decreases versioned_hashes@.len() - i,
        {
            let vh = versioned_hashes[i];
            match store_find_v2(&self.entries, vh) {
                Some(b) => {
                    let ghost prev = out@;
                    out.push(b);
                    proof {
                        assert(self.spec_entries() == self.entries@);
                        assert forall|k: int|
                            0 <= k < i + 1 implies match spec_store_find_v2(
                            self.spec_entries(),
                            #[trigger] versioned_hashes@[k],
                        ) {
                            Some(item) => spec_matches_v2(out@[k], item),
                            None => false,
                        } by {
                            if k < i {
                                assert(out@[k] == prev[k]);
                            } else {
                                assert(out@[k] == b);
                                assert(versioned_hashes@[k] == vh);
                            }
                        }
                    }
                },
                None => {
                    return Ok(None);
                },
            }
            i = i + 1;
        }
        Ok(Some(out))
    }
}

impl BlobStore for InMemoryBlobStore {
    closed spec fn spec_wf(&self) -> bool {
        &&& spec_distinct_keys(self.entries@)
        &&& self.size.spec_blobs_len() == self.entries@.len()
        &&& forall|i: int|
            0 <= i < self.entries@.len() ==> (*#[trigger] self.entries@[i].1).spec_size()
                <= usize::MAX
    }

    closed spec fn spec_view(&self) -> StoreView {
        StoreView {
            present: |t: B256| spec_lookup(self.entries@, t) is Some,
            size_of: |t: B256|
                match spec_lookup(self.entries@, t) {
                    Some(d) => d.spec_size(),
                    None => 0,
                },
            known: |t: B256| spec_lookup(self.entries@, t),
            pending: |t: B256| false,
            data_size: self.size.spec_data_size() as nat,
            blob_count: self.size.spec_blobs_len() as nat,
            retains: true,
            fully_resident: true,
            defers_delete: false,
            tracks_data_size: true,
        }
    }

    proof fn wf_facts(&self, tx: B256) {
        if self.entries@.len() == 0 {
            assert(spec_lookup(self.entries@, tx) is None);
        }
    }

    fn insert(&mut self, tx: B256, data: BlobSidecar) -> (r: Result<(), BlobStoreError>) {
        let ghost s0 = self.entries@;
        let sz = data.size();
        match find_index(&self.entries, tx) {
            Some(i) => {
                let (_, old_arc) = self.entries.remove(i);
                let old_sz = (&*old_arc).size();
                proof {
                    lemma_lookup_at(s0, i as int);
                }
                self.size.sub_size(old_sz);
                self.size.sub_len(1);
                let ghost s1 = self.entries@;
                self.entries.push((tx, Arc::new(data)));
                let _entry_count = self.entries.len();
                self.size.add_size(sz);
                self.size.inc_len(1);
                proof {
                    assert forall|t: B256| true implies {
                        &&& (t == s0[i as int].0 ==> spec_lookup(s1, t) is None)
                        &&& (t != s0[i as int].0 ==> spec_lookup(s1, t) == spec_lookup(s0, t))
                    } by {
                        lemma_lookup_remove(s0, i as int, t);
                    }
                    assert(spec_distinct_keys(s1)) by {
                        lemma_lookup_remove(s0, i as int, tx);
                    }
                    assert forall|t: B256| true implies {
                        &&& (t != tx ==> spec_lookup(self.entries@, t) == spec_lookup(s1, t))
                        &&& (t == tx ==> spec_lookup(self.entries@, t) == Some(data))
                    } by {
                        lemma_lookup_push(s1, (tx, Arc::new(data)), t);
                        assert(self.entries@ == s1.push((tx, Arc::new(data))));
                    }
                }
                Ok(())
            },
            None => {
                let ghost s1 = self.entries@;
                self.entries.push((tx, Arc::new(data)));
                let _entry_count = self.entries.len();
                self.size.add_size(sz);
                self.size.inc_len(1);
                proof {
                    assert forall|t: B256| true implies {
                        &&& (t != tx ==> spec_lookup(self.entries@, t) == spec_lookup(s1, t))
                        &&& (t == tx ==> spec_lookup(self.entries@, t) == Some(data))
                    } by {
                        lemma_lookup_push(s1, (tx, Arc::new(data)), t);
                        assert(self.entries@ == s1.push((tx, Arc::new(data))));
                    }
                    assert(spec_distinct_keys(self.entries@)) by {
                        assert forall|a: int, b: int|
                            0 <= a < b < self.entries@.len() implies self.entries@[a].0
                            != self.entries@[b].0 by {
                            if b == self.entries@.len() - 1 {
                                if self.entries@[a].0 == tx {
                                    lemma_lookup_at(s1, a);
                                }
                            }
                        }
                    }
                }
                Ok(())
            },
        }
    }

    fn insert_all(&mut self, txs: Vec<(B256, BlobSidecar)>) -> (r: Result<(), BlobStoreError>) {
        let ghost pre = old(self).spec_view();
        let ghost batch = txs@;
        let mut rest = txs;
        let mut k: usize = 0;
        let n = rest.len();
        proof {
            lemma_batch_size_mono(batch, 0, batch.len() as int);
        }
        while rest.len() > 0
            invariant
                self.spec_wf(),
                n == batch.len(),
                k + rest@.len() == batch.len(),
                rest@ =~= batch.skip(k as int),
                crate::store::insert_all_transition(pre, self.spec_view(), batch, k as int),
                pre.data_size + spec_batch_size(batch, batch.len() as int) <= usize::MAX,
            decreases rest@.len(),
        {
            let ghost mid = self.spec_view();
            let (tx, data) = rest.remove(0);
            assert(tx == batch[k as int].0 && data == batch[k as int].1);
            proof {
                lemma_batch_size_mono(batch, k as int + 1, batch.len() as int);
                assert(spec_batch_size(batch, k as int + 1) == spec_batch_size(batch, k as int)
                    + data.spec_size());
            }
            let _ = self.insert(tx, data);
            proof {
                lemma_insert_all_step(pre, mid, self.spec_view(), batch, k as int);
                assert(rest@ =~= batch.skip(k as int + 1));
            }
            k = k + 1;
        }
        assert(k as int == batch.len());
        Ok(())
    }

    fn delete(&mut self, tx: B256) -> (r: Result<(), BlobStoreError>) {
        let ghost s0 = self.entries@;
        match find_index(&self.entries, tx) {
            Some(i) => {
                let (_, old_arc) = self.entries.remove(i);
                let old_sz = (&*old_arc).size();
                self.size.sub_size(old_sz);
                self.size.sub_len(1);
                proof {
                    assert forall|t: B256| true implies {
                        &&& (t == tx ==> spec_lookup(self.entries@, t) is None)
                        &&& (t != tx ==> spec_lookup(self.entries@, t) == spec_lookup(s0, t))
                    } by {
                        lemma_lookup_remove(s0, i as int, t);
                    }
                    assert(spec_distinct_keys(self.entries@)) by {
                        lemma_lookup_remove(s0, i as int, tx);
                    }
                }
                Ok(())
            },
            None => Ok(()),
        }
    }

    fn delete_all(&mut self, txs: Vec<B256>) -> (r: Result<(), BlobStoreError>) {
        let ghost pre = old(self).spec_view();
        let ghost batch = txs@;
        let mut rest = txs;
        let mut k: usize = 0;
        let n = rest.len();
        while rest.len() > 0
            invariant
                self.spec_wf(),
                n == batch.len(),
                k + rest@.len() == batch.len(),
                rest@ =~= batch.skip(k as int),
                crate::store::delete_all_transition(pre, self.spec_view(), batch, k as int),
            decreases rest@.len(),
        {
            let ghost mid = self.spec_view();
            let tx = rest.remove(0);
            assert(tx == batch[k as int]);
            let _ = self.delete(tx);
            proof {
                lemma_delete_all_step(pre, mid, self.spec_view(), batch, k as int);
                assert(rest@ =~= batch.skip(k as int + 1));
            }
            k = k + 1;
        }
        assert(k as int == batch.len());
        Ok(())
    }

    fn contains(&self, tx: B256) -> (r: Result<bool, BlobStoreError>) {
        match find_index(&self.entries, tx) {
            Some(_) => Ok(true),
            None => Ok(false),
        }
    }

    fn data_size_hint(&self) -> (r: Option<usize>) {
        Some(self.size.data_size())
    }

    fn blobs_len(&self) -> (r: usize) {
        self.size.blobs_len()
    }
}

} // verus!
