//! The polymorphic blob-store interface, the transition relations its
//! operations satisfy, and the laws that follow from them.
//!
//! Every backend exposes the same write and bookkeeping capability set; the
//! read side (which may involve staged file fetches on a disk-backed store)
//! is provided on each backend, where its contract can be exact.
//!
//! A backend is observed through a [`StoreView`]: which transaction hashes
//! are logically present, the payload size recorded for each, which sidecar
//! contents are held in memory, which hashes await physical deletion, the
//! two aggregate counters, and the backend's fixed capabilities. The
//! mutating operations are specified as transition relations over that
//! view, shared by all backends.

use vstd::prelude::*;
use crate::error::BlobStoreError;
use crate::hash::B256;
use crate::sidecar::BlobSidecar;
use crate::size::sat_sub;

verus! {

/// Everything observable about a blob store's logical state.
#[verifier::ext_equal]
pub struct StoreView {
    /// Whether the sidecar of a hash is logically present.
    pub present: spec_fn(B256) -> bool,
    /// The payload size recorded for a hash; zero when absent.
    pub size_of: spec_fn(B256) -> nat,
    /// The sidecar contents held in memory for a hash, if any. A disk-backed
    /// store may hold an entry whose contents live only in its files; for
    /// such an entry this is `None` while the entry is still present.
    pub known: spec_fn(B256) -> Option<BlobSidecar>,
    /// Whether a hash is queued for deferred physical deletion.
    pub pending: spec_fn(B256) -> bool,
    /// The byte-size counter.
    pub data_size: nat,
    /// The blob-count counter.
    pub blob_count: nat,
    /// Whether this backend retains inserted entries at all. False only for
    /// the no-op backend used when blob retention is disabled.
    pub retains: bool,
    /// Whether the contents of every present entry are held in memory.
    pub fully_resident: bool,
    /// Whether deletion is deferred into a queue drained by a cleanup pass.
    pub defers_delete: bool,
    /// Whether the backend tracks the byte size of its payloads.
    pub tracks_data_size: bool,
}

/// A blob store that keeps the sidecars of blob-carrying transactions until
/// they are no longer needed.
///
/// Mutators take `&mut self`; callers that share one store across threads
/// wrap it in a reference-counted lock, which is outside this crate's scope.
pub trait BlobStore: Sized {
    /// The backend's internal invariant.
    spec fn spec_wf(&self) -> bool;

    /// The backend's observable logical state.
    spec fn spec_view(&self) -> StoreView;

    /// The relations between the observations that `spec_wf` guarantees.
    proof fn wf_facts(&self, tx: B256)
        requires
            self.spec_wf(),
        ensures
            (self.spec_view().known)(tx) is Some ==> (self.spec_view().present)(tx),
            self.spec_view().fully_resident ==> ((self.spec_view().known)(tx) is Some <==> (
            self.spec_view().present)(tx)),
            !self.spec_view().retains ==> !(self.spec_view().present)(tx),
            !self.spec_view().defers_delete ==> !(self.spec_view().pending)(tx),
            !(self.spec_view().present)(tx) ==> (self.spec_view().size_of)(tx) == 0,
            (self.spec_view().present)(tx) ==> self.spec_view().blob_count >= 1,
            self.spec_view().data_size <= usize::MAX,
            self.spec_view().blob_count <= usize::MAX,
    ;

    /// Stores `data` as the sidecar of `tx`, overwriting any prior entry.
    fn insert(&mut self, tx: B256, data: BlobSidecar) -> (r: Result<(), BlobStoreError>)
        requires
            old(self).spec_wf(),
            old(self).spec_view().data_size + data.spec_size() <= usize::MAX,
        ensures
            final(self).spec_wf(),
            r is Ok,
            insert_transition(old(self).spec_view(), final(self).spec_view(), tx, data),
    ;

    /// Stores every pair of `txs` in order; a later pair for the same hash
    /// overwrites an earlier one. Applied entry by entry, never atomically
    /// over the batch; each entry's effect is complete once taken.
    fn insert_all(&mut self, txs: Vec<(B256, BlobSidecar)>) -> (r: Result<(), BlobStoreError>)
        requires
            old(self).spec_wf(),
            old(self).spec_view().data_size + spec_batch_size(txs@, txs@.len() as int)
                <= usize::MAX,
        ensures
            final(self).spec_wf(),
            r is Ok,
            insert_all_transition(
                old(self).spec_view(),
                final(self).spec_view(),
                txs@,
                txs@.len() as int,
            ),
    ;

    /// Logically removes the sidecar of `tx`. Removing an absent hash
    /// succeeds and changes nothing. A deferring backend queues the physical
    /// removal instead of performing it.
    fn delete(&mut self, tx: B256) -> (r: Result<(), BlobStoreError>)
        requires
            old(self).spec_wf(),
        ensures
            final(self).spec_wf(),
            r is Ok,
            delete_transition(old(self).spec_view(), final(self).spec_view(), tx),
    ;

    /// Logically removes every hash of `txs`, entry by entry.
    fn delete_all(&mut self, txs: Vec<B256>) -> (r: Result<(), BlobStoreError>)
        requires
            old(self).spec_wf(),
        ensures
            final(self).spec_wf(),
            r is Ok,
            delete_all_transition(
                old(self).spec_view(),
                final(self).spec_view(),
                txs@,
                txs@.len() as int,
            ),
    ;

    /// Whether the sidecar of `tx` is in the store.
    fn contains(&self, tx: B256) -> (r: Result<bool, BlobStoreError>)
        requires
            self.spec_wf(),
        ensures
            r matches Ok(b) && b == (self.spec_view().present)(tx),
    ;

    /// The total payload size of the store's entries, when the backend
    /// tracks it.
    fn data_size_hint(&self) -> (r: Option<usize>)
        requires
            self.spec_wf(),
        ensures
            match r {
                Some(n) => self.spec_view().tracks_data_size && n == self.spec_view().data_size,
                None => !self.spec_view().tracks_data_size,
            },
    ;

    /// How many blobs are in the store.
    fn blobs_len(&self) -> (r: usize)
        requires
            self.spec_wf(),
        ensures
            r == self.spec_view().blob_count,
    ;
}

/// The backend's fixed capabilities never change.
pub open spec fn flags_preserved(pre: StoreView, post: StoreView) -> bool {
    &&& post.retains == pre.retains
    &&& post.fully_resident == pre.fully_resident
    &&& post.defers_delete == pre.defers_delete
    &&& post.tracks_data_size == pre.tracks_data_size
}

/// No observation changes.
pub open spec fn unchanged_view(pre: StoreView, post: StoreView) -> bool {
    &&& forall|t: B256| #[trigger] (post.present)(t) == (pre.present)(t)
    &&& forall|t: B256| #[trigger] (post.size_of)(t) == (pre.size_of)(t)
    &&& forall|t: B256| #[trigger] (post.known)(t) == (pre.known)(t)
    &&& forall|t: B256| #[trigger] (post.pending)(t) == (pre.pending)(t)
    &&& post.data_size == pre.data_size
    &&& post.blob_count == pre.blob_count
}

/// How one insert changes the observations.
///
/// A retaining backend makes `tx` present with exactly `data` as its
/// contents and size, leaves every other entry's presence and size alone,
/// never invents contents for other entries (though a bounded cache may
/// evict some), unqueues `tx` from deferred deletion, counts the new payload
/// net of any prior entry for the same hash, and counts one more blob unless
/// the hash was already present. A non-retaining backend changes nothing.
pub open spec fn insert_transition(
    pre: StoreView,
    post: StoreView,
    tx: B256,
    data: BlobSidecar,
) -> bool {
    &&& flags_preserved(pre, post)
    &&& if pre.retains {
        &&& forall|t: B256| #[trigger] (post.present)(t) == (t == tx || (pre.present)(t))
        &&& (post.size_of)(tx) == data.spec_size()
        &&& forall|t: B256| t != tx ==> #[trigger] (post.size_of)(t) == (pre.size_of)(t)
        &&& (post.known)(tx) == Some(data)
        &&& forall|t: B256|
            t != tx && #[trigger] (post.known)(t) is Some ==> (post.known)(t) == (pre.known)(t)
        &&& (pre.fully_resident ==> forall|t: B256|
            t != tx ==> #[trigger] (post.known)(t) == (pre.known)(t))
        &&& forall|t: B256| #[trigger] (post.pending)(t) == ((pre.pending)(t) && t != tx)
        &&& post.data_size == sat_sub(
            pre.data_size as int,
            if (pre.present)(tx) {
                (pre.size_of)(tx) as int
            } else {
                0
            },
        ) + data.spec_size()
        &&& post.blob_count == pre.blob_count + (if (pre.present)(tx) {
            0int
        } else {
            1int
        })
    } else {
        unchanged_view(pre, post)
    }
}

/// How one delete changes the observations.
///
/// The hash becomes absent, with no recorded size and no in-memory contents;
/// every other entry is untouched. A deferring backend queues the physical
/// removal when there was an entry to remove. The counters drop by exactly
/// the removed entry's size and by one blob; deleting an absent hash leaves
/// them unchanged.
pub open spec fn delete_transition(pre: StoreView, post: StoreView, tx: B256) -> bool {
    &&& flags_preserved(pre, post)
    &&& forall|t: B256| #[trigger] (post.present)(t) == ((pre.present)(t) && t != tx)
    &&& (post.size_of)(tx) == 0
    &&& forall|t: B256| t != tx ==> #[trigger] (post.size_of)(t) == (pre.size_of)(t)
    &&& (post.known)(tx) is None
    &&& forall|t: B256| t != tx ==> #[trigger] (post.known)(t) == (pre.known)(t)
    &&& forall|t: B256|
        #[trigger] (post.pending)(t) == ((pre.pending)(t) || (t == tx && (pre.present)(tx)
            && pre.defers_delete))
    &&& post.data_size == sat_sub(
        pre.data_size as int,
        if (pre.present)(tx) {
            (pre.size_of)(tx) as int
        } else {
            0
        },
    )
    &&& post.blob_count == pre.blob_count - (if (pre.present)(tx) {
        1int
    } else {
        0int
    })
}

/// The payload of the last pair among the first `i` of `batch` that carries
/// the hash `t`, if any.
pub open spec fn spec_batch_last(batch: Seq<(B256, BlobSidecar)>, i: int, t: B256) -> Option<
    BlobSidecar,
>
    decreases i,
{
    if i <= 0 {
        None
    } else if batch[i - 1].0 == t {
        Some(batch[i - 1].1)
    } else {
        spec_batch_last(batch, i - 1, t)
    }
}

/// Total payload size of the first `i` pairs of `batch`.
pub open spec fn spec_batch_size(batch: Seq<(B256, BlobSidecar)>, i: int) -> nat
    decreases i,
{
    if i <= 0 {
        0
    } else {
        spec_batch_size(batch, i - 1) + batch[i - 1].1.spec_size()
    }
}

/// Whether the first `i` pairs of `batch` carry pairwise distinct hashes,
/// none of them present in `pre`.
pub open spec fn spec_batch_fresh(pre: StoreView, batch: Seq<(B256, BlobSidecar)>, i: int) -> bool {
    &&& forall|j: int, k: int| 0 <= j < k < i ==> batch[j].0 != batch[k].0
    &&& forall|j: int| 0 <= j < i ==> !(pre.present)(#[trigger] batch[j].0)
}

/// How inserting the first `i` pairs of a batch, in order, changes the
/// observations. Where the batch repeats a hash, the last payload wins.
pub open spec fn insert_all_transition(
    pre: StoreView,
    post: StoreView,
    batch: Seq<(B256, BlobSidecar)>,
    i: int,
) -> bool {
    &&& flags_preserved(pre, post)
    &&& if pre.retains {
        &&& forall|t: B256|
            #[trigger] (post.present)(t) == ((pre.present)(t) || spec_batch_last(batch, i, t) is Some)
        &&& forall|t: B256|
            match #[trigger] spec_batch_last(batch, i, t) {
                Some(d) => {
                    &&& (post.size_of)(t) == d.spec_size()
                    &&& ((post.known)(t) is Some ==> (post.known)(t) == Some(d))
                    &&& (pre.fully_resident ==> (post.known)(t) == Some(d))
                },
                None => {
                    &&& (post.size_of)(t) == (pre.size_of)(t)
                    &&& ((post.known)(t) is Some ==> (post.known)(t) == (pre.known)(t))
                    &&& (pre.fully_resident ==> (post.known)(t) == (pre.known)(t))
                },
            }
        &&& forall|t: B256|
            #[trigger] (post.pending)(t) == ((pre.pending)(t) && spec_batch_last(batch, i, t) is None)
        &&& post.data_size <= pre.data_size + spec_batch_size(batch, i)
        &&& (spec_batch_fresh(pre, batch, i) ==> post.blob_count == pre.blob_count + i
            && post.data_size == pre.data_size + spec_batch_size(batch, i))
    } else {
        unchanged_view(pre, post)
    }
}

/// Whether some hash among the first `i` of `batch` is `t`.
pub open spec fn spec_batch_has(batch: Seq<B256>, i: int, t: B256) -> bool {
    exists|j: int| 0 <= j < i && batch[j] == t
}

/// Total recorded size in `pre` of the hashes among the first `i` of
/// `batch` that are present in `pre`.
pub open spec fn spec_removed_size(pre: StoreView, batch: Seq<B256>, i: int) -> nat
    decreases i,
{
    if i <= 0 {
        0
    } else {
        spec_removed_size(pre, batch, i - 1) + if (pre.present)(batch[i - 1]) {
            (pre.size_of)(batch[i - 1])
        } else {
            0
        }
    }
}

/// How many of the first `i` hashes of `batch` are present in `pre`.
pub open spec fn spec_removed_count(pre: StoreView, batch: Seq<B256>, i: int) -> nat
    decreases i,
{
    if i <= 0 {
        0
    } else {
        spec_removed_count(pre, batch, i - 1) + if (pre.present)(batch[i - 1]) {
            1nat
        } else {
            0
        }
    }
}

/// How deleting the first `i` hashes of a batch, in order, changes the
/// observations.
pub open spec fn delete_all_transition(
    pre: StoreView,
    post: StoreView,
    batch: Seq<B256>,
    i: int,
) -> bool {
    &&& flags_preserved(pre, post)
    &&& forall|t: B256|
        #[trigger] (post.present)(t) == ((pre.present)(t) && !spec_batch_has(batch, i, t))
    &&& forall|t: B256|
        #[trigger] spec_batch_has(batch, i, t) ==> (post.known)(t) is None && (post.size_of)(t) == 0
    &&& forall|t: B256|
        !#[trigger] spec_batch_has(batch, i, t) ==> (post.known)(t) == (pre.known)(t) && (post.size_of)(t)
            == (pre.size_of)(t)
    &&& forall|t: B256|
        #[trigger] (post.pending)(t) == ((pre.pending)(t) || (spec_batch_has(batch, i, t) && (pre.present)(t)
            && pre.defers_delete))
    &&& ((forall|j: int, k: int| 0 <= j < k < i ==> batch[j] != batch[k]) ==> post.data_size
        == sat_sub(pre.data_size as int, spec_removed_size(pre, batch, i) as int)
        && post.blob_count == pre.blob_count - spec_removed_count(pre, batch, i))
}

/// The pairs a lenient batch lookup over the first `i` hashes returns: one
/// pair per requested hash whose contents are held, in request order,
/// misses silently omitted.
pub open spec fn spec_get_all(v: StoreView, txs: Seq<B256>, i: int) -> Seq<(B256, BlobSidecar)>
    decreases i,
{
    if i <= 0 {
        Seq::empty()
    } else {
        let rest = spec_get_all(v, txs, i - 1);
        match (v.known)(txs[i - 1]) {
            Some(d) => rest.push((txs[i - 1], d)),
            None => rest,
        }
    }
}

/// The first hash among the first `i` of `txs` whose contents are not held,
/// if any: the hash a strict batch lookup fails on.
pub open spec fn spec_first_missing(v: StoreView, txs: Seq<B256>, i: int) -> Option<B256>
    decreases i,
{
    if i <= 0 {
        None
    } else {
        match spec_first_missing(v, txs, i - 1) {
            Some(h) => Some(h),
            None => if (v.known)(txs[i - 1]) is Some {
                None
            } else {
                Some(txs[i - 1])
            },
        }
    }
}

/// One more insert extends a batch insertion by one pair.
pub proof fn lemma_insert_all_step(
    pre: StoreView,
    mid: StoreView,
    post: StoreView,
    batch: Seq<(B256, BlobSidecar)>,
    k: int,
)
    requires
        0 <= k < batch.len(),
        insert_all_transition(pre, mid, batch, k),
        insert_transition(mid, post, batch[k].0, batch[k].1),
    ensures
        insert_all_transition(pre, post, batch, k + 1),
{
    let tx = batch[k].0;
    let data = batch[k].1;
    assert(forall|t: B256|
        spec_batch_last(batch, k + 1, t) == (if tx == t {
            Some(data)
        } else {
            spec_batch_last(batch, k, t)
        }));
    assert(spec_batch_size(batch, k + 1) == spec_batch_size(batch, k) + data.spec_size());
    if pre.retains {
        assert forall|t: B256|
            #[trigger] (post.present)(t) == ((pre.present)(t) || spec_batch_last(
                batch,
                k + 1,
                t,
            ) is Some) by {
            assert((mid.present)(t) == ((pre.present)(t) || spec_batch_last(batch, k, t) is Some));
        }
        assert forall|t: B256| #[trigger] (post.pending)(t) == ((pre.pending)(t)
            && spec_batch_last(batch, k + 1, t) is None) by {
            assert((mid.pending)(t) == ((pre.pending)(t) && spec_batch_last(batch, k, t) is None));
        }
        assert forall|t: B256|
            match #[trigger] spec_batch_last(batch, k + 1, t) {
                Some(d) => {
                    &&& (post.size_of)(t) == d.spec_size()
                    &&& ((post.known)(t) is Some ==> (post.known)(t) == Some(d))
                    &&& (pre.fully_resident ==> (post.known)(t) == Some(d))
                },
                None => {
                    &&& (post.size_of)(t) == (pre.size_of)(t)
                    &&& ((post.known)(t) is Some ==> (post.known)(t) == (pre.known)(t))
                    &&& (pre.fully_resident ==> (post.known)(t) == (pre.known)(t))
                },
            } by {
            if t == tx {
                assert(spec_batch_last(batch, k + 1, t) == Some(data));
                assert((post.size_of)(t) == data.spec_size());
                assert((post.known)(t) == Some(data));
            } else {
                assert(spec_batch_last(batch, k + 1, t) == spec_batch_last(batch, k, t));
                assert((post.size_of)(t) == (mid.size_of)(t));
                assert((post.known)(t) is Some ==> (post.known)(t) == (mid.known)(t));
                match spec_batch_last(batch, k, t) {
                    Some(d) => {
                        assert((mid.size_of)(t) == d.spec_size());
                        assert((mid.known)(t) is Some ==> (mid.known)(t) == Some(d));
                        if pre.fully_resident {
                            assert((mid.known)(t) == Some(d));
                            assert((post.known)(t) == (mid.known)(t));
                        }
                    },
                    None => {
                        assert((mid.size_of)(t) == (pre.size_of)(t));
                        assert((mid.known)(t) is Some ==> (mid.known)(t) == (pre.known)(t));
                        if pre.fully_resident {
                            assert((mid.known)(t) == (pre.known)(t));
                            assert((post.known)(t) == (mid.known)(t));
                        }
                    },
                }
            }
        }
        if spec_batch_fresh(pre, batch, k + 1) {
            assert(spec_batch_fresh(pre, batch, k));
            assert(spec_batch_last(batch, k, tx) is None) by {
                lemma_batch_last_of_unseen(batch, k, tx);
            }
            assert(!(mid.present)(tx));
        }
    } else {
        assert(!mid.retains);
    }
}

/// A hash that none of the first `i` pairs carries has no last payload
/// among them.
proof fn lemma_batch_last_of_unseen(batch: Seq<(B256, BlobSidecar)>, i: int, t: B256)
    requires
        forall|j: int| 0 <= j < i ==> batch[j].0 != t,
    ensures
        spec_batch_last(batch, i, t) is None,
    decreases i,
{
    if i > 0 {
        lemma_batch_last_of_unseen(batch, i - 1, t);
    }
}

/// One more delete extends a batch deletion by one hash.
pub proof fn lemma_delete_all_step(
    pre: StoreView,
    mid: StoreView,
    post: StoreView,
    batch: Seq<B256>,
    k: int,
)
    requires
        0 <= k < batch.len(),
        delete_all_transition(pre, mid, batch, k),
        delete_transition(mid, post, batch[k]),
    ensures
        delete_all_transition(pre, post, batch, k + 1),
{
    let tx = batch[k];
    assert(forall|t: B256|
        spec_batch_has(batch, k + 1, t) == (t == tx || spec_batch_has(batch, k, t)));
    assert forall|t: B256|
        #[trigger] (post.present)(t) == ((pre.present)(t) && !spec_batch_has(batch, k + 1, t)) by {
        assert((mid.present)(t) == ((pre.present)(t) && !spec_batch_has(batch, k, t)));
    }
    assert forall|t: B256| #[trigger] spec_batch_has(batch, k + 1, t) implies (post.known)(t) is None
        && (post.size_of)(t) == 0 by {
        if t != tx {
            assert(spec_batch_has(batch, k, t));
            assert((post.known)(t) == (mid.known)(t));
            assert((post.size_of)(t) == (mid.size_of)(t));
        }
    }
    assert forall|t: B256| !#[trigger] spec_batch_has(batch, k + 1, t) implies (post.known)(t)
        == (pre.known)(t) && (post.size_of)(t) == (pre.size_of)(t) by {
        assert(!spec_batch_has(batch, k, t));
        assert(t != tx);
    }
    assert forall|t: B256|
        #[trigger] (post.pending)(t) == ((pre.pending)(t) || (spec_batch_has(batch, k + 1, t) && (
        pre.present)(t) && pre.defers_delete)) by {
        assert((mid.pending)(t) == ((pre.pending)(t) || (spec_batch_has(batch, k, t) && (
        pre.present)(t) && pre.defers_delete)));
        if t == tx {
            assert((mid.present)(t) == ((pre.present)(t) && !spec_batch_has(batch, k, t)));
        }
    }
    if forall|j: int, l: int| 0 <= j < l < k + 1 ==> batch[j] != batch[l] {
        assert(forall|j: int, l: int| 0 <= j < l < k ==> batch[j] != batch[l]);
        assert(forall|j: int| 0 <= j < k ==> batch[j] != tx);
        assert(!spec_batch_has(batch, k, tx));
        assert((mid.present)(tx) == (pre.present)(tx));
        assert((mid.size_of)(tx) == (pre.size_of)(tx));
        assert(spec_removed_size(pre, batch, k + 1) == spec_removed_size(pre, batch, k) + if (
        pre.present)(tx) {
            (pre.size_of)(tx)
        } else {
            0
        });
        assert(post.data_size == sat_sub(
            sat_sub(pre.data_size as int, spec_removed_size(pre, batch, k) as int),
            if (pre.present)(tx) {
                (pre.size_of)(tx) as int
            } else {
                0
            },
        ));
    }
}

/// A batch's first pairs never weigh more than the whole batch.
pub proof fn lemma_batch_size_mono(batch: Seq<(B256, BlobSidecar)>, i: int, j: int)
    requires
        0 <= i <= j,
    ensures
        spec_batch_size(batch, i) <= spec_batch_size(batch, j),
    decreases j,
{
    if i < j {
        lemma_batch_size_mono(batch, i, j - 1);
    }
}

/// Deleting a hash that is not in the store succeeds and leaves the entry
/// set and both counters unchanged, on every backend.
pub proof fn lemma_delete_absent_is_noop(pre: StoreView, post: StoreView, tx: B256)
    requires
        delete_transition(pre, post, tx),
        !(pre.present)(tx),
        (pre.size_of)(tx) == 0,  // every well-formed backend records no size for an absent hash
    ensures
        post.data_size == pre.data_size,
        post.blob_count == pre.blob_count,
        forall|t: B256| #[trigger] (post.present)(t) == (pre.present)(t),
        forall|t: B256| #[trigger] (post.size_of)(t) == (pre.size_of)(t),
{
    assert forall|t: B256| #[trigger] (post.size_of)(t) == (pre.size_of)(t) by {
        if t == tx {
            assert((post.size_of)(tx) == 0);
        }
    }
}

/// Inserting the same hash twice keeps exactly one logical entry, whose
/// recorded size is the second payload's; the byte counter reflects only the
/// latter payload, never the sum of the two.
pub proof fn lemma_insert_overwrite(
    s0: StoreView,
    s1: StoreView,
    s2: StoreView,
    tx: B256,
    d1: BlobSidecar,
    d2: BlobSidecar,
)
    requires
        s0.retains,
        insert_transition(s0, s1, tx, d1),
        insert_transition(s1, s2, tx, d2),
    ensures
        forall|t: B256| #[trigger] (s2.present)(t) == (t == tx || (s0.present)(t)),
        (s2.size_of)(tx) == d2.spec_size(),
        (s2.known)(tx) == Some(d2),
        s2.data_size + d1.spec_size() == s1.data_size + d2.spec_size(),
        !(s0.present)(tx) ==> s2.data_size == s0.data_size + d2.spec_size() && s2.blob_count
            == s0.blob_count + 1,
{
    assert((s1.present)(tx));
    assert((s1.size_of)(tx) == d1.spec_size());
    assert(s1.data_size >= d1.spec_size());
}

/// Once an insert has completed, the inserted hash is present with exactly
/// the inserted contents: a lookup that starts after the insert finished can
/// never miss it. This is the sequential core of per-key linearizability;
/// cross-thread sharing adds locking around the store, outside this crate.
pub proof fn lemma_insert_then_visible(
    pre: StoreView,
    post: StoreView,
    tx: B256,
    data: BlobSidecar,
)
    requires
        pre.retains,
        insert_transition(pre, post, tx, data),
    ensures
        (post.present)(tx),
        (post.known)(tx) == Some(data),
        (post.size_of)(tx) == data.spec_size(),
{
}


/// The first position whose resolved lookup is empty, if any.
pub open spec fn spec_first_unresolved(resolved: Seq<Option<BlobSidecar>>, i: int) -> Option<int>
    decreases i,
{
    if i <= 0 {
        None
    } else {
        match spec_first_unresolved(resolved, i - 1) {
            Some(j) => Some(j),
            None => if resolved[i - 1] is Some {
                None
            } else {
                Some(i - 1)
            },
        }
    }
}

/// One resolved lookup per requested hash, with the sharing handles
/// stripped to the sidecar values they point to.
pub open spec fn spec_flatten(resolved: Seq<Option<std::sync::Arc<BlobSidecar>>>) -> Seq<
    Option<BlobSidecar>,
> {
    resolved.map_values(
        |o: Option<std::sync::Arc<BlobSidecar>>|
            match o {
                Some(a) => Some(*a),
                None => None,
            },
    )
}

/// Turns one resolved lookup per requested hash into the strict batch
/// answer: all sidecars in request order, or the error naming the first
/// hash whose lookup found nothing. Backends whose lookups go through
/// staged file reads resolve first and decide here.
pub fn collect_exact(txs: &Vec<B256>, resolved: Vec<Option<std::sync::Arc<BlobSidecar>>>) -> (r:
    Result<Vec<std::sync::Arc<BlobSidecar>>, BlobStoreError>)
    requires
        txs@.len() == resolved@.len(),
    ensures
        match spec_first_unresolved(spec_flatten(resolved@), resolved@.len() as int) {
            None => r matches Ok(list) && list@.len() == txs@.len() && forall|k: int|
                0 <= k < txs@.len() ==> (resolved@[k] matches Some(a) && *(#[trigger] list@[k])
                    == *a),
            Some(j) => r == Err::<Vec<std::sync::Arc<BlobSidecar>>, BlobStoreError>(
                BlobStoreError::MissingSidecar(txs@[j]),
            ),
        },
{
    let ghost flat = spec_flatten(resolved@);
    let mut i: usize = 0;
    while i < resolved.len()
        invariant
            flat == spec_flatten(resolved@),
            txs@.len() == resolved@.len(),
            i <= resolved@.len(),
            spec_first_unresolved(flat, i as int) is None,
            forall|j: int| 0 <= j < i ==> (#[trigger] resolved@[j]) is Some,
        decreases resolved@.len() - i,
    {
        if resolved[i].is_none() {
            proof {
                assert(flat[i as int] is None);
                assert(spec_first_unresolved(flat, i as int + 1) == Some(i as int));
                lemma_first_unresolved_persists(flat, i as int + 1, flat.len() as int);
            }
            return Err(BlobStoreError::MissingSidecar(txs[i]));
        }
        proof {
            assert(flat[i as int] is Some);
        }
        i = i + 1;
    }
    let mut out: Vec<std::sync::Arc<BlobSidecar>> = Vec::new();
    let mut j: usize = 0;
    while j < resolved.len()
        invariant
            flat == spec_flatten(resolved@),
            txs@.len() == resolved@.len(),
            j <= resolved@.len(),
            out@.len() == j,
            forall|m: int| 0 <= m < resolved@.len() ==> (#[trigger] resolved@[m]) is Some,
            forall|m: int|
                0 <= m < j ==> (resolved@[m] matches Some(a) && *(#[trigger] out@[m]) == *a),
        decreases resolved@.len() - j,
    {
        if let Some(a) = &resolved[j] {
            out.push(a.clone());
        } else {
            proof {
                assert(false);
            }
        }
        j = j + 1;
    }
    Ok(out)
}

/// A strict batch answer that has already failed stays failed however far
/// it reads on.
proof fn lemma_first_unresolved_persists(resolved: Seq<Option<BlobSidecar>>, i: int, j: int)
    requires
        0 <= i <= j,
        spec_first_unresolved(resolved, i) is Some,
    ensures
        spec_first_unresolved(resolved, j) == spec_first_unresolved(resolved, i),
    decreases j,
{
    if i < j {
        lemma_first_unresolved_persists(resolved, i, j - 1);
    }
}

} // verus!
