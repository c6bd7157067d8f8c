//! The bookkeeping core of the disk-backed blob store.
//!
//! Each sidecar lives in exactly one file named after its transaction hash,
//! inside a directory owned by the embedding application. This type owns
//! everything that can be decided without touching the file system: the
//! index of logically present entries and their sizes, a bounded hot cache
//! of decoded sidecars (oldest-inserted entry evicted first), the
//! deferred-delete queue, and the size counters. The application performs
//! the actual file writes, reads and removals, and reports read outcomes
//! back through [`DiskFileBlobStore::on_file_read`] and removal outcomes
//! through [`crate::stat::cleanup_stat_of`].
//!
//! Deletion is two-phase so that the hot path never pays file-system
//! latency: `delete` drops the entry from the index, the cache and the
//! counters at once and only queues the hash; `cleanup_begin` drains the
//! queue, and the application removes the files in a batch.

use vstd::prelude::*;
use std::sync::Arc;
use crate::error::BlobStoreError;
use crate::hash::B256;
use crate::mem::{
    find_index, lemma_lookup_absent, lemma_lookup_at, lemma_lookup_push, lemma_lookup_remove,
    spec_distinct_keys, spec_lookup, spec_store_find_v1, spec_store_find_v2, store_find_v1,
    store_find_v2,
};
use crate::sidecar::{
    spec_matches_v1, spec_matches_v2, BlobAndProofV1, BlobAndProofV2, BlobSidecar,
};
use crate::size::BlobStoreSize;
use crate::store::{
    lemma_batch_size_mono, lemma_delete_all_step, lemma_insert_all_step, spec_batch_size,
    BlobStore, StoreView,
};

verus! {

/// Configuration of the disk-backed store.
pub struct DiskFileBlobStoreConfig {
    /// How many decoded sidecars the hot cache holds; at least one, so that
    /// a just-written sidecar is always served back without a file read.
    pub max_cached_entries: usize,
    /// How many file writes the application lets run at once; a
    /// backpressure bound for the I/O layer, not used by the bookkeeping.
    pub max_concurrent_writes: usize,
}

/// What a point lookup on the disk-backed store can answer immediately.
pub enum DiskGet {
    /// The entry is present and its decoded sidecar is in the hot cache.
    Cached(Arc<BlobSidecar>),
    /// The entry is not in the store.
    Absent,
    /// The entry is present but not cached: the caller must read and decode
    /// its file and report the outcome to `on_file_read`.
    ReadFile,
}

/// What reading and decoding an entry's file produced.
pub enum FileReadOutcome {
    /// The file was read and decoded.
    Data(BlobSidecar),
    /// The file does not exist; treated as "not found", covering the case
    /// where a cleanup pass already removed it.
    Missing,
    /// The file exists but its bytes do not decode back into a sidecar.
    Corrupt,
}

/// The sidecar byte size recorded under `tx` in the index `s`.
pub open spec fn spec_idx_lookup(s: Seq<(B256, usize)>, tx: B256) -> Option<usize>
    decreases s.len(),
{
    if s.len() == 0 {
        None
    } else if s[0].0 == tx {
        Some(s[0].1)
    } else {
        spec_idx_lookup(s.skip(1), tx)
    }
}

/// No two index entries share a key.
pub open spec fn spec_idx_distinct(s: Seq<(B256, usize)>) -> bool {
    forall|i: int, j: int| 0 <= i < j < s.len() ==> s[i].0 != s[j].0
}

/// When no index entry before position `i` has key `tx`, the lookup may as
/// well start at `i`.
proof fn lemma_idx_skip(s: Seq<(B256, usize)>, tx: B256, i: int)
    requires
        0 <= i <= s.len(),
        forall|j: int| 0 <= j < i ==> s[j].0 != tx,
    ensures
        spec_idx_lookup(s, tx) == spec_idx_lookup(s.skip(i), tx),
    decreases i,
{
    if i > 0 {
        assert(s[0].0 != tx);
        assert(forall|j: int| 0 <= j < i - 1 ==> s.skip(1)[j] == s[j + 1]);
        lemma_idx_skip(s.skip(1), tx, i - 1);
        assert(s.skip(1).skip(i - 1) =~= s.skip(i));
    } else {
        assert(s.skip(0) =~= s);
    }
}

/// A key carried by no index entry looks up to nothing.
proof fn lemma_idx_absent(s: Seq<(B256, usize)>, tx: B256)
    requires
        forall|j: int| 0 <= j < s.len() ==> s[j].0 != tx,
    ensures
        spec_idx_lookup(s, tx) is None,
{
    lemma_idx_skip(s, tx, s.len() as int);
}

/// With distinct keys, the index entry at position `i` is what its key
/// looks up to.
proof fn lemma_idx_at(s: Seq<(B256, usize)>, i: int)
    requires
        spec_idx_distinct(s),
        0 <= i < s.len(),
    ensures
        spec_idx_lookup(s, s[i].0) == Some(s[i].1),
{
    lemma_idx_skip(s, s[i].0, i);
    assert(s.skip(i)[0] == s[i]);
}

/// Appending an index entry leaves other keys alone and binds its own key
/// when that key was free.
proof fn lemma_idx_push(s: Seq<(B256, usize)>, e: (B256, usize), tx: B256)
    ensures
        tx != e.0 ==> spec_idx_lookup(s.push(e), tx) == spec_idx_lookup(s, tx),
        tx == e.0 && spec_idx_lookup(s, tx) is None ==> spec_idx_lookup(s.push(e), tx) == Some(
            e.1,
        ),
    decreases s.len(),
{
    if s.len() == 0 {
        assert(s.push(e)[0] == e);
        assert(s.push(e).skip(1) =~= Seq::<(B256, usize)>::empty());
        assert(spec_idx_lookup(Seq::<(B256, usize)>::empty(), tx) is None);
    } else {
        assert(s.push(e)[0] == s[0]);
        lemma_idx_push(s.skip(1), e, tx);
        assert(s.push(e).skip(1) =~= s.skip(1).push(e));
    }
}

/// Removing the index entry at position `i` frees exactly its key.
proof fn lemma_idx_remove(s: Seq<(B256, usize)>, i: int, tx: B256)
    requires
        spec_idx_distinct(s),
        0 <= i < s.len(),
    ensures
        spec_idx_distinct(s.remove(i)),
        tx == s[i].0 ==> spec_idx_lookup(s.remove(i), tx) is None,
        tx != s[i].0 ==> spec_idx_lookup(s.remove(i), tx) == spec_idx_lookup(s, tx),
{
    let r = s.remove(i);
    assert(forall|j: int| 0 <= j < i ==> r[j] == s[j]);
    assert(forall|j: int| i <= j < r.len() ==> r[j] == s[j + 1]);
    if tx == s[i].0 {
        assert(forall|j: int| 0 <= j < r.len() ==> r[j].0 != tx);
        lemma_idx_absent(r, tx);
    } else {
        if exists|j: int| 0 <= j < s.len() && s[j].0 == tx {
            let j = choose|j: int| 0 <= j < s.len() && s[j].0 == tx;
            lemma_idx_at(s, j);
            if j < i {
                lemma_idx_at(r, j);
            } else {
                assert(r[j - 1] == s[j]);
                lemma_idx_at(r, j - 1);
            }
        } else {
            assert(forall|j: int| 0 <= j < s.len() ==> s[j].0 != tx);
            assert(forall|j: int| 0 <= j < r.len() ==> r[j].0 != tx);
            lemma_idx_absent(s, tx);
            lemma_idx_absent(r, tx);
        }
    }
}

/// Finds the position of the index entry keyed by `tx`, if any.
fn idx_find(s: &Vec<(B256, usize)>, tx: B256) -> (r: Option<usize>)
    ensures
        match r {
            Some(i) => i < s@.len() && s@[i as int].0 == tx && spec_idx_lookup(s@, tx) == Some(
                s@[i as int].1,
            ),
            None => spec_idx_lookup(s@, tx) is None,
        },
{
    let mut i: usize = 0;
    while i < s.len()
        invariant
            i <= s@.len(),
            forall|j: int| 0 <= j < i ==> s@[j].0 != tx,
        decreases s@.len() - i,
    {
        if s[i].0 == tx {
            proof {
                lemma_idx_skip(s@, tx, i as int);
                assert(s@.skip(i as int)[0] == s@[i as int]);
            }
            return Some(i);
        }
        i = i + 1;
    }
    proof {
        lemma_idx_absent(s@, tx);
    }
    None
}

/// Whether some hash of `q` is `t`.
pub open spec fn spec_queue_has(q: Seq<B256>, t: B256) -> bool {
    exists|j: int| 0 <= j < q.len() && q[j] == t
}

/// No hash repeats in `q`.
pub open spec fn spec_queue_distinct(q: Seq<B256>) -> bool {
    forall|i: int, j: int| 0 <= i < j < q.len() ==> q[i] != q[j]
}

/// Appending a hash to the queue adds exactly that hash.
proof fn lemma_queue_push(q: Seq<B256>, x: B256)
    ensures
        forall|t: B256| #[trigger] spec_queue_has(q.push(x), t) == (spec_queue_has(q, t) || t
            == x),
{
    assert forall|t: B256| #[trigger] spec_queue_has(q.push(x), t) == (spec_queue_has(q, t) || t
        == x) by {
        if spec_queue_has(q, t) {
            let j = choose|j: int| 0 <= j < q.len() && q[j] == t;
            assert(q.push(x)[j] == t);
        }
        if t == x {
            assert(q.push(x)[q.len() as int] == x);
        }
        if spec_queue_has(q.push(x), t) {
            let j = choose|j: int| 0 <= j < q.push(x).len() && q.push(x)[j] == t;
            if j < q.len() {
                assert(q[j] == t);
            }
        }
    }
}

/// Removing the queue entry at position `i` removes exactly that hash.
proof fn lemma_queue_remove(q: Seq<B256>, i: int)
    requires
        spec_queue_distinct(q),
        0 <= i < q.len(),
    ensures
        spec_queue_distinct(q.remove(i)),
        !spec_queue_has(q.remove(i), q[i]),
        forall|t: B256|
            t != q[i] ==> #[trigger] spec_queue_has(q.remove(i), t) == spec_queue_has(q, t),
{
    let r = q.remove(i);
    assert(forall|j: int| 0 <= j < i ==> r[j] == q[j]);
    assert(forall|j: int| i <= j < r.len() ==> r[j] == q[j + 1]);
    assert(forall|j: int| 0 <= j < r.len() ==> r[j] != q[i]);
    assert forall|t: B256|
        t != q[i] implies #[trigger] spec_queue_has(r, t) == spec_queue_has(q, t) by {
        if spec_queue_has(q, t) {
            let j = choose|j: int| 0 <= j < q.len() && q[j] == t;
            if j < i {
                assert(r[j] == t);
            } else {
                assert(r[j - 1] == t);
            }
        }
        if spec_queue_has(r, t) {
            let j = choose|j: int| 0 <= j < r.len() && r[j] == t;
            if j < i {
                assert(q[j] == t);
            } else {
                assert(q[j + 1] == t);
            }
        }
    }
}

/// Finds the position of `tx` in the queue, if any.
fn queue_find(q: &Vec<B256>, tx: B256) -> (r: Option<usize>)
    ensures
        match r {
            Some(i) => i < q@.len() && q@[i as int] == tx,
            None => !spec_queue_has(q@, tx),
        },
{
    let mut i: usize = 0;
    while i < q.len()
        invariant
            i <= q@.len(),
            forall|j: int| 0 <= j < i ==> q@[j] != tx,
        decreases q@.len() - i,
    {
        if q[i] == tx {
            return Some(i);
        }
        i = i + 1;
    }
    None
}

/// The bookkeeping core of the disk-backed blob store.
pub struct DiskFileBlobStore {
    config: DiskFileBlobStoreConfig,
    index: Vec<(B256, usize)>,
    cache: Vec<(B256, Arc<BlobSidecar>)>,
    queue: Vec<B256>,
    size: BlobStoreSize,
}

impl DiskFileBlobStore {
    /// An empty store with the given configuration.
    pub fn new(config: DiskFileBlobStoreConfig) -> (r: Self)
        requires
            config.max_cached_entries >= 1,
        ensures
            r.spec_wf(),
            r.spec_view().blob_count == 0,
            r.spec_view().data_size == 0,
            forall|t: B256| !(#[trigger] (r.spec_view().present)(t)),
            forall|t: B256| !(#[trigger] (r.spec_view().pending)(t)),
    {
        let r = DiskFileBlobStore {
            config,
            index: Vec::new(),
            cache: Vec::new(),
            queue: Vec::new(),
            size: BlobStoreSize::new(),
        };
        proof {
            assert(r.index@.len() == 0);
        }
        r
    }

    /// The hot-cache entries, in insertion order; versioned-hash queries
    /// scan them from the front.
    pub closed spec fn spec_cache(&self) -> Seq<(B256, Arc<BlobSidecar>)> {
        self.cache@
    }

    /// The hashes awaiting physical file removal, in deletion order.
    pub closed spec fn spec_queue(&self) -> Seq<B256> {
        self.queue@
    }

    /// Answers a point lookup from the bookkeeping alone: the cached
    /// sidecar, a definitive miss, or an instruction to read the entry's
    /// file.
    pub fn get(&self, tx: B256) -> (r: DiskGet)
        requires
            self.spec_wf(),
        ensures
            match r {
                DiskGet::Cached(a) => (self.spec_view().known)(tx) == Some(*a) && (
                self.spec_view().present)(tx),
                DiskGet::Absent => !(self.spec_view().present)(tx),
                DiskGet::ReadFile => (self.spec_view().present)(tx) && (self.spec_view().known)(
                    tx,
                ) is None,
            },
    {
        match find_index(&self.cache, tx) {
            Some(i) => {
                proof {
                    let ci = i as int;
                    assert(spec_idx_lookup(self.index@, self.cache@[ci].0) is Some);
                }
                DiskGet::Cached(self.cache[i].1.clone())
            },
            None => {
                match idx_find(&self.index, tx) {
                    Some(_) => DiskGet::ReadFile,
                    None => DiskGet::Absent,
                }
            },
        }
    }

    /// Takes the outcome of reading and decoding the file of a present,
    /// uncached entry. Decoded contents are handed back and cached; a
    /// missing file answers "not found"; undecodable bytes surface as the
    /// decode error. The logical state never changes.
    pub fn on_file_read(&mut self, tx: B256, outcome: FileReadOutcome) -> (r: Result<
        Option<Arc<BlobSidecar>>,
        BlobStoreError,
    >)
        requires
            old(self).spec_wf(),
            (old(self).spec_view().present)(tx),
            (old(self).spec_view().known)(tx) is None,
        ensures
            final(self).spec_wf(),
            crate::store::flags_preserved(old(self).spec_view(), final(self).spec_view()),
            forall|t: B256|
                #[trigger] (final(self).spec_view().present)(t) == (old(
                    self,
                ).spec_view().present)(t),
            forall|t: B256|
                #[trigger] (final(self).spec_view().size_of)(t) == (old(
                    self,
                ).spec_view().size_of)(t),
            forall|t: B256|
                #[trigger] (final(self).spec_view().pending)(t) == (old(
                    self,
                ).spec_view().pending)(t),
            final(self).spec_view().data_size == old(self).spec_view().data_size,
            final(self).spec_view().blob_count == old(self).spec_view().blob_count,
            match outcome {
                FileReadOutcome::Data(d) => {
                    &&& r matches Ok(o) && o matches Some(a) && *a == d
                    &&& (final(self).spec_view().known)(tx) == Some(d)
                    &&& forall|t: B256|
                        t != tx && #[trigger] (final(self).spec_view().known)(t) is Some ==> (
                        final(self).spec_view().known)(t) == (old(self).spec_view().known)(t)
                },
                FileReadOutcome::Missing => r == Ok::<Option<Arc<BlobSidecar>>, BlobStoreError>(
                    None,
                ) && final(self).spec_view() == old(self).spec_view(),
                FileReadOutcome::Corrupt => r == Err::<Option<Arc<BlobSidecar>>, BlobStoreError>(
                    BlobStoreError::DecodeError,
                ) && final(self).spec_view() == old(self).spec_view(),
            },
    {
        match outcome {
            FileReadOutcome::Data(d) => {
                let arc = Arc::new(d);
                let shared = arc.clone();
                self.cache_put(tx, arc);
                Ok(Some(shared))
            },
            FileReadOutcome::Missing => Ok(None),
            FileReadOutcome::Corrupt => Err(BlobStoreError::DecodeError),
        }
    }

    /// Puts `arc` into the hot cache under `tx`, evicting first the prior
    /// entry for `tx` and then, at capacity, the oldest entry.
    fn cache_put(&mut self, tx: B256, arc: Arc<BlobSidecar>)
        requires
            old(self).spec_wf(),
            (old(self).spec_view().present)(tx),
        ensures
            final(self).spec_wf(),
            final(self).index == old(self).index,
            final(self).queue == old(self).queue,
            final(self).size == old(self).size,
            final(self).config == old(self).config,
            spec_lookup(final(self).cache@, tx) == Some(*arc),
            forall|t: B256|
                t != tx && #[trigger] spec_lookup(final(self).cache@, t) is Some ==> spec_lookup(
                    final(self).cache@,
                    t,
                ) == spec_lookup(old(self).cache@, t),
    {
        let ghost c0 = self.cache@;
        match find_index(&self.cache, tx) {
            Some(i) => {
                self.cache.remove(i);
                proof {
                    assert forall|t: B256| true implies {
                        &&& (t == tx ==> spec_lookup(self.cache@, t) is None)
                        &&& (t != tx ==> spec_lookup(self.cache@, t) == spec_lookup(c0, t))
                    } by {
                        lemma_lookup_remove(c0, i as int, t);
                    }
                    assert(spec_distinct_keys(self.cache@)) by {
                        lemma_lookup_remove(c0, i as int, tx);
                    }
                }
            },
            None => {},
        }
        let ghost c1 = self.cache@;
        assert(spec_lookup(c1, tx) is None);
        if self.cache.len() >= self.config.max_cached_entries {
            let ghost cb = self.cache@;
            self.cache.remove(0);
            proof {
                assert forall|t: B256| true implies {
                    &&& (t == cb[0].0 ==> spec_lookup(self.cache@, t) is None)
                    &&& (t != cb[0].0 ==> spec_lookup(self.cache@, t) == spec_lookup(cb, t))
                } by {
                    lemma_lookup_remove(cb, 0, t);
                }
                assert(spec_distinct_keys(self.cache@)) by {
                    lemma_lookup_remove(cb, 0, tx);
                }
            }
        }
        let ghost c2 = self.cache@;
        self.cache.push((tx, arc));
        proof {
            assert forall|t: B256| true implies {
                &&& (t != tx ==> spec_lookup(self.cache@, t) == spec_lookup(c2, t))
                &&& (t == tx ==> spec_lookup(self.cache@, t) == Some(*arc))
            } by {
                lemma_lookup_push(c2, (tx, arc), t);
                assert(self.cache@ == c2.push((tx, arc)));
            }
            assert(spec_distinct_keys(self.cache@)) by {
                assert forall|a: int, b: int|
                    0 <= a < b < self.cache@.len() implies self.cache@[a].0 != self.cache@[b].0 by {
                    if b == self.cache@.len() - 1 {
                        if self.cache@[a].0 == tx {
                            lemma_lookup_at(c2, a);
                        }
                    }
                }
            }
            assert forall|i: int|
                0 <= i < self.cache@.len() implies spec_idx_lookup(
                self.index@,
                #[trigger] self.cache@[i].0,
            ) is Some by {
                if i < self.cache@.len() - 1 {
                }
            }
        }
    }

    /// One answer slot per requested versioned hash, served from the hot
    /// cache alone: the consensus queries are latency-sensitive and never
    /// wait on file reads, so a present but uncached blob counts as absent
    /// here.
    pub fn get_by_versioned_hashes_v1(&self, versioned_hashes: &Vec<B256>) -> (r: Result<
        Vec<Option<BlobAndProofV1>>,
        BlobStoreError,
    >)
        requires
            self.spec_wf(),
        ensures
            r matches Ok(list) && list@.len() == versioned_hashes@.len() && forall|k: int|
                0 <= k < list@.len() ==> match spec_store_find_v1(
                    self.spec_cache(),
                    #[trigger] versioned_hashes@[k],
                ) {
                    Some(item) => list@[k] matches Some(b) && spec_matches_v1(b, item),
                    None => list@[k] is None,
                },
    {
        let mut out: Vec<Option<BlobAndProofV1>> = Vec::new();
        let mut i: usize = 0;
        while i < versioned_hashes.len()
            invariant
                self.spec_wf(),
                i <= versioned_hashes@.len(),
                out@.len() == i,
                forall|k: int|
                    0 <= k < i ==> match spec_store_find_v1(
                        self.spec_cache(),
                        #[trigger] versioned_hashes@[k],
                    ) {
                        Some(item) => out@[k] matches Some(b) && spec_matches_v1(b, item),
                        None => out@[k] is None,
                    },
            decreases versioned_hashes@.len() - i,
        {
            out.push(store_find_v1(&self.cache, versioned_hashes[i]));
            i = i + 1;
        }
        Ok(out)
    }

    /// All requested blobs with their cell proofs or nothing at all, served
    /// from the hot cache alone, with the same all-or-nothing shape as the
    /// fully resident store.
    pub fn get_by_versioned_hashes_v2(&self, versioned_hashes: &Vec<B256>) -> (r: Result<
        Option<Vec<BlobAndProofV2>>,
        BlobStoreError,
    >)
        requires
            self.spec_wf(),
        ensures
            r matches Ok(o) && match o {
                Some(list) => list@.len() == versioned_hashes@.len() && forall|k: int|
                    0 <= k < list@.len() ==> match spec_store_find_v2(
                        self.spec_cache(),
                        #[trigger] versioned_hashes@[k],
                    ) {
                        Some(item) => spec_matches_v2(list@[k], item),
                        None => false,
                    },
                None => exists|k: int|
                    0 <= k < versioned_hashes@.len() && spec_store_find_v2(
                        self.spec_cache(),
                        #[trigger] versioned_hashes@[k],
                    ) is None,
            },
    {
        let mut out: Vec<BlobAndProofV2> = Vec::new();
        let mut i: usize = 0;
        while i < versioned_hashes.len()
            invariant
                self.spec_wf(),
                i <= versioned_hashes@.len(),
                out@.len() == i,
                forall|k: int|
                    0 <= k < i ==> match spec_store_find_v2(
                        self.spec_cache(),
                        #[trigger] versioned_hashes@[k],
                    ) {
                        Some(item) => spec_matches_v2(out@[k], item),
                        None => false,
                    },
            decreases versioned_hashes@.len() - i,
        {
            let vh = versioned_hashes[i];
            match store_find_v2(&self.cache, vh) {
                Some(b) => {
                    let ghost prev = out@;
                    out.push(b);
                    proof {
                        assert forall|k: int|
                            0 <= k < i + 1 implies match spec_store_find_v2(
                            self.spec_cache(),
                            #[trigger] versioned_hashes@[k],
                        ) {
                            Some(item) => spec_matches_v2(out@[k], item),
                            None => false,
                        } by {
                            if k < i {
                                assert(out@[k] == prev[k]);
                            } else {
                                assert(out@[k] == b);
                                assert(versioned_hashes@[k] == vh);
                            }
                        }
                    }
                },
                None => {
                    return Ok(None);
                },
            }
            i = i + 1;
        }
        Ok(Some(out))
    }

    /// Drains the deferred-delete queue: the returned hashes name the files
    /// the caller must now remove. Feeding the removal outcomes to
    /// [`crate::stat::cleanup_stat_of`] yields the pass's statistic.
    pub fn cleanup_begin(&mut self) -> (r: Vec<B256>)
        requires
            old(self).spec_wf(),
        ensures
            final(self).spec_wf(),
            r@ == old(self).spec_queue(),
            final(self).spec_queue().len() == 0,
            crate::store::flags_preserved(old(self).spec_view(), final(self).spec_view()),
            forall|t: B256| !(#[trigger] (final(self).spec_view().pending)(t)),
            forall|t: B256|
                #[trigger] (final(self).spec_view().present)(t) == (old(
                    self,
                ).spec_view().present)(t),
            forall|t: B256|
                #[trigger] (final(self).spec_view().size_of)(t) == (old(
                    self,
                ).spec_view().size_of)(t),
            forall|t: B256|
                #[trigger] (final(self).spec_view().known)(t) == (old(self).spec_view().known)(t),
            final(self).spec_view().data_size == old(self).spec_view().data_size,
            final(self).spec_view().blob_count == old(self).spec_view().blob_count,
    {
        let mut out: Vec<B256> = Vec::new();
        let mut i: usize = 0;
        while i < self.queue.len()
            invariant
                i <= self.queue@.len(),
                out@ =~= self.queue@.take(i as int),
            decreases self.queue@.len() - i,
        {
            out.push(self.queue[i]);
            proof {
                assert(out@ =~= self.queue@.take(i as int + 1));
            }
            i = i + 1;
        }
        assert(out@ =~= self.queue@);
        self.queue = Vec::new();
        out
    }
}

impl BlobStore for DiskFileBlobStore {
    closed spec fn spec_wf(&self) -> bool {
        &&& self.config.max_cached_entries >= 1
        &&& spec_idx_distinct(self.index@)
        &&& spec_distinct_keys(self.cache@)
        &&& self.cache@.len() <= self.config.max_cached_entries
        &&& forall|i: int|
            0 <= i < self.cache@.len() ==> spec_idx_lookup(
                self.index@,
                #[trigger] self.cache@[i].0,
            ) is Some
        &&& spec_queue_distinct(self.queue@)
        &&& forall|i: int|
            0 <= i < self.queue@.len() ==> spec_idx_lookup(
                self.index@,
                #[trigger] self.queue@[i],
            ) is None
        &&& self.size.spec_blobs_len() == self.index@.len()
    }

    closed spec fn spec_view(&self) -> StoreView {
        StoreView {
            present: |t: B256| spec_idx_lookup(self.index@, t) is Some,
            size_of: |t: B256|
                match spec_idx_lookup(self.index@, t) {
                    Some(sz) => sz as nat,
                    None => 0,
                },
            known: |t: B256| spec_lookup(self.cache@, t),
            pending: |t: B256| spec_queue_has(self.queue@, t),
            data_size: self.size.spec_data_size() as nat,
            blob_count: self.size.spec_blobs_len() as nat,
            retains: true,
            fully_resident: false,
            defers_delete: true,
            tracks_data_size: true,
        }
    }

    proof fn wf_facts(&self, tx: B256) {
        if (self.spec_view().known)(tx) is Some {
            if forall|j: int| 0 <= j < self.cache@.len() ==> self.cache@[j].0 != tx {
                lemma_lookup_absent(self.cache@, tx);
            }
            let j = choose|j: int| 0 <= j < self.cache@.len() && self.cache@[j].0 == tx;
            assert(spec_idx_lookup(self.index@, self.cache@[j].0) is Some);
        }
        if (self.spec_view().pending)(tx) {
            let j = choose|j: int| 0 <= j < self.queue@.len() && self.queue@[j] == tx;
            assert(spec_idx_lookup(self.index@, self.queue@[j]) is None);
        }
        if (self.spec_view().present)(tx) {
            if self.index@.len() == 0 {
                assert(spec_idx_lookup(self.index@, tx) is None);
            }
        }
    }

    fn insert(&mut self, tx: B256, data: BlobSidecar) -> (r: Result<(), BlobStoreError>) {
        let sz = data.size();
        let ghost q0 = self.queue@;
        match queue_find(&self.queue, tx) {
            Some(qi) => {
                self.queue.remove(qi);
                proof {
                    lemma_queue_remove(q0, qi as int);
                }
            },
            None => {},
        }
        proof {
            assert(!spec_queue_has(self.queue@, tx));
            assert forall|t: B256|
                #[trigger] spec_queue_has(self.queue@, t) == (spec_queue_has(q0, t) && t
                    != tx) by {
                if t != tx && !(q0 =~= self.queue@) {
                    let qi = choose|qi: int| 0 <= qi < q0.len() && q0[qi] == tx;
                    lemma_queue_remove(q0, qi);
                }
            }
        }
        let ghost i0 = self.index@;
        let mut was_present: bool = false;
        match idx_find(&self.index, tx) {
            Some(i) => {
                was_present = true;
                let old_sz = self.index[i].1;
                self.index.remove(i);
                self.size.sub_size(old_sz);
                self.size.sub_len(1);
                proof {
                    assert forall|t: B256| true implies {
                        &&& (t == tx ==> spec_idx_lookup(self.index@, t) is None)
                        &&& (t != tx ==> spec_idx_lookup(self.index@, t) == spec_idx_lookup(
                            i0,
                            t,
                        ))
                    } by {
                        lemma_idx_remove(i0, i as int, t);
                    }
                    assert(spec_idx_distinct(self.index@)) by {
                        lemma_idx_remove(i0, i as int, tx);
                    }
                }
            },
            None => {},
        }
        let ghost i1 = self.index@;
        self.index.push((tx, sz));
        let _entry_count = self.index.len();
        self.size.add_size(sz);
        self.size.inc_len(1);
        proof {
            assert forall|t: B256| true implies {
                &&& (t != tx ==> spec_idx_lookup(self.index@, t) == spec_idx_lookup(i1, t))
                &&& (t == tx ==> spec_idx_lookup(self.index@, t) == Some(sz))
            } by {
                lemma_idx_push(i1, (tx, sz), t);
                assert(self.index@ == i1.push((tx, sz)));
            }
            assert(spec_idx_distinct(self.index@)) by {
                assert forall|a: int, b: int|
                    0 <= a < b < self.index@.len() implies self.index@[a].0 != self.index@[b].0 by {
                    if b == self.index@.len() - 1 {
                        if self.index@[a].0 == tx {
                            lemma_idx_at(i1, a);
                        }
                    }
                }
            }
        }
        self.cache_put(tx, Arc::new(data));
        proof {
            assert forall|i: int|
                0 <= i < self.queue@.len() implies spec_idx_lookup(
                self.index@,
                #[trigger] self.queue@[i],
            ) is None by {
                assert(spec_queue_has(self.queue@, self.queue@[i]));
                assert(self.queue@[i] != tx);
            }
        }
        Ok(())
    }

    fn insert_all(&mut self, txs: Vec<(B256, BlobSidecar)>) -> (r: Result<(), BlobStoreError>) {
        let ghost pre = old(self).spec_view();
        let ghost batch = txs@;
        let mut rest = txs;
        let mut k: usize = 0;
        let n = rest.len();
        proof {
            lemma_batch_size_mono(batch, 0, batch.len() as int);
        }
        while rest.len() > 0
            invariant
                self.spec_wf(),
                n == batch.len(),
                k + rest@.len() == batch.len(),
                rest@ =~= batch.skip(k as int),
                crate::store::insert_all_transition(pre, self.spec_view(), batch, k as int),
                pre.data_size + spec_batch_size(batch, batch.len() as int) <= usize::MAX,
            decreases rest@.len(),
        {
            let ghost mid = self.spec_view();
            let (tx, data) = rest.remove(0);
            assert(tx == batch[k as int].0 && data == batch[k as int].1);
            proof {
                lemma_batch_size_mono(batch, k as int + 1, batch.len() as int);
                assert(spec_batch_size(batch, k as int + 1) == spec_batch_size(batch, k as int)
                    + data.spec_size());
            }
            let _ = self.insert(tx, data);
            proof {
                lemma_insert_all_step(pre, mid, self.spec_view(), batch, k as int);
                assert(rest@ =~= batch.skip(k as int + 1));
            }
            k = k + 1;
        }
        assert(k as int == batch.len());
        Ok(())
    }

    fn delete(&mut self, tx: B256) -> (r: Result<(), BlobStoreError>) {
        let ghost i0 = self.index@;
        let ghost c0 = self.cache@;
        let ghost q0 = self.queue@;
        match idx_find(&self.index, tx) {
            Some(i) => {
                let old_sz = self.index[i].1;
                self.index.remove(i);
                self.size.sub_size(old_sz);
                self.size.sub_len(1);
                proof {
                    assert forall|t: B256| true implies {
                        &&& (t == tx ==> spec_idx_lookup(self.index@, t) is None)
                        &&& (t != tx ==> spec_idx_lookup(self.index@, t) == spec_idx_lookup(
                            i0,
                            t,
                        ))
                    } by {
                        lemma_idx_remove(i0, i as int, t);
                    }
                    assert(spec_idx_distinct(self.index@)) by {
                        lemma_idx_remove(i0, i as int, tx);
                    }
                }
                match find_index(&self.cache, tx) {
                    Some(ci) => {
                        self.cache.remove(ci);
                        proof {
                            assert forall|t: B256| true implies {
                                &&& (t == tx ==> spec_lookup(self.cache@, t) is None)
                                &&& (t != tx ==> spec_lookup(self.cache@, t) == spec_lookup(
                                    c0,
                                    t,
                                ))
                            } by {
                                lemma_lookup_remove(c0, ci as int, t);
                            }
                            assert(spec_distinct_keys(self.cache@)) by {
                                lemma_lookup_remove(c0, ci as int, tx);
                            }
                        }
                    },
                    None => {},
                }
                self.queue.push(tx);
                proof {
                    lemma_queue_push(q0, tx);
                    assert(spec_queue_distinct(self.queue@)) by {
                        assert forall|a: int, b: int|
                            0 <= a < b < self.queue@.len() implies self.queue@[a]
                            != self.queue@[b] by {
                            if b == self.queue@.len() - 1 {
                                if self.queue@[a] == tx {
                                    assert(spec_queue_has(q0, tx));
                                    assert(spec_idx_lookup(i0, q0[a]) is None);
                                    lemma_idx_at(i0, i as int);
                                }
                            }
                        }
                    }
                    assert forall|j: int|
                        0 <= j < self.queue@.len() implies spec_idx_lookup(
                        self.index@,
                        #[trigger] self.queue@[j],
                    ) is None by {
                        if j < self.queue@.len() - 1 {
                            assert(self.queue@[j] == q0[j]);
                            assert(spec_idx_lookup(i0, q0[j]) is None);
                            if q0[j] != tx {
                            }
                        }
                    }
                    assert forall|i2: int|
                        0 <= i2 < self.cache@.len() implies spec_idx_lookup(
                        self.index@,
                        #[trigger] self.cache@[i2].0,
                    ) is Some by {
                        let t = self.cache@[i2].0;
                        assert(spec_lookup(self.cache@, t) is Some) by {
                            lemma_lookup_at(self.cache@, i2);
                        }
                        assert(t != tx);
                        assert(spec_lookup(c0, t) is Some);
                        if forall|j: int| 0 <= j < c0.len() ==> c0[j].0 != t {
                            lemma_lookup_absent(c0, t);
                        }
                        let j = choose|j: int| 0 <= j < c0.len() && c0[j].0 == t;
                        assert(spec_idx_lookup(i0, c0[j].0) is Some);
                    }
                    lemma_idx_at(i0, i as int);
                }
                Ok(())
            },
            None => {
                proof {
                    if spec_lookup(self.cache@, tx) is Some {
                        if forall|j: int| 0 <= j < self.cache@.len() ==> self.cache@[j].0 != tx {
                            lemma_lookup_absent(self.cache@, tx);
                        }
                        let j = choose|j: int|
                            0 <= j < self.cache@.len() && self.cache@[j].0 == tx;
                        assert(spec_idx_lookup(self.index@, self.cache@[j].0) is Some);
                    }
                }
                Ok(())
            },
        }
    }

    fn delete_all(&mut self, txs: Vec<B256>) -> (r: Result<(), BlobStoreError>) {
        let ghost pre = old(self).spec_view();
        let ghost batch = txs@;
        let mut rest = txs;
        let mut k: usize = 0;
        let n = rest.len();
        while rest.len() > 0
            invariant
                self.spec_wf(),
                n == batch.len(),
                k + rest@.len() == batch.len(),
                rest@ =~= batch.skip(k as int),
                crate::store::delete_all_transition(pre, self.spec_view(), batch, k as int),
            decreases rest@.len(),
        {
            let ghost mid = self.spec_view();
            let tx = rest.remove(0);
            assert(tx == batch[k as int]);
            let _ = self.delete(tx);
            proof {
                lemma_delete_all_step(pre, mid, self.spec_view(), batch, k as int);
                assert(rest@ =~= batch.skip(k as int + 1));
            }
            k = k + 1;
        }
        assert(k as int == batch.len());
        Ok(())
    }

    fn contains(&self, tx: B256) -> (r: Result<bool, BlobStoreError>) {
        match idx_find(&self.index, tx) {
            Some(_) => Ok(true),
            None => Ok(false),
        }
    }

    fn data_size_hint(&self) -> (r: Option<usize>) {
        Some(self.size.data_size())
    }

    fn blobs_len(&self) -> (r: usize) {
        self.size.blobs_len()
    }
}

} // verus!
