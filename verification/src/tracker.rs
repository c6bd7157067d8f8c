//! The canonical-chain tracker: turns chain extension and reorg
//! notifications into batches of blob-store updates.
//!
//! The tracker records, per canonical block, which blob transactions it
//! included, back to a configurable finalization depth. When an extension
//! pushes a recorded block at least that depth behind the new head, the
//! block's hashes are scheduled for deletion — no reorg can resurrect a
//! need for them — and dropped from the history. When the chain reverts to
//! an earlier block, the hashes recorded above it are flagged for possible
//! reinsertion (the decision belongs to the pool; the tracker holds only
//! hashes) and likewise dropped.

use vstd::prelude::*;
use crate::hash::B256;

verus! {

/// One batch of store updates, emitted per notification: hashes whose
/// sidecars must be deleted, and hashes flagged for possible reinsertion.
/// The two lists are never both non-empty.
pub struct BlobStoreUpdates {
    /// Hashes finalized past the retention depth: apply as deletions.
    pub to_delete: Vec<B256>,
    /// Hashes un-included by a reorg: advisory reinsertion candidates.
    pub to_reinsert: Vec<B256>,
}

/// How many leading entries of `s` have a block number at most `cutoff`.
pub open spec fn spec_cut(s: Seq<(u64, Vec<B256>)>, cutoff: int) -> int
    decreases s.len(),
{
    if s.len() == 0 {
        0
    } else if s[0].0 <= cutoff {
        1 + spec_cut(s.skip(1), cutoff)
    } else {
        0
    }
}

/// The hashes recorded by the entries of `s` at positions `a` to `b`, in
/// history order.
pub open spec fn spec_txs_from(s: Seq<(u64, Vec<B256>)>, a: int, b: int) -> Seq<B256>
    decreases b - a,
{
    if b <= a {
        Seq::empty()
    } else {
        spec_txs_from(s, a, b - 1) + s[b - 1].1@
    }
}

/// When the first `m` entries are at most `cutoff` and the next one, if
/// any, is above it, `m` is the cut.
proof fn lemma_cut_value(s: Seq<(u64, Vec<B256>)>, cutoff: int, m: int)
    requires
        0 <= m <= s.len(),
        forall|j: int| 0 <= j < m ==> s[j].0 <= cutoff,
        m < s.len() ==> s[m].0 > cutoff,
    ensures
        spec_cut(s, cutoff) == m,
    decreases m,
{
    if m == 0 {
        if s.len() > 0 {
            assert(s[0].0 > cutoff);
        }
    } else {
        assert(s[0].0 <= cutoff);
        assert(forall|j: int| 0 <= j < m - 1 ==> s.skip(1)[j] == s[j + 1]);
        lemma_cut_value(s.skip(1), cutoff, m - 1);
    }
}

/// The recorded hashes of a range split at any midpoint.
proof fn lemma_txs_from_split(s: Seq<(u64, Vec<B256>)>, a: int, b: int, c: int)
    requires
        a <= b <= c,
    ensures
        spec_txs_from(s, a, c) == spec_txs_from(s, a, b) + spec_txs_from(s, b, c),
    decreases c - a,
{
    if c <= b {
        assert(spec_txs_from(s, b, c) =~= Seq::<B256>::empty());
        assert(spec_txs_from(s, a, c) =~= spec_txs_from(s, a, b) + spec_txs_from(s, b, c));
    } else {
        lemma_txs_from_split(s, a, b, c - 1);
        assert(spec_txs_from(s, a, c) =~= spec_txs_from(s, a, b) + spec_txs_from(s, b, c));
    }
}

/// A hash recorded by some entry of the range is among the range's hashes.
proof fn lemma_txs_from_entry(s: Seq<(u64, Vec<B256>)>, a: int, e: int, b: int, h: B256)
    requires
        a <= e < b,
        s[e].1@.contains(h),
    ensures
        spec_txs_from(s, a, b).contains(h),
{
    lemma_txs_from_split(s, a, e, b);
    lemma_txs_from_split(s, e, e + 1, b);
    assert(spec_txs_from(s, e, e) =~= Seq::<B256>::empty());
    assert(spec_txs_from(s, e, e + 1) =~= s[e].1@);
    let j = choose|j: int| 0 <= j < s[e].1@.len() && s[e].1@[j] == h;
    assert(spec_txs_from(s, a, b)[spec_txs_from(s, a, e).len() + j] == h);
}

/// Every hash of a range's record comes from some entry of the range.
proof fn lemma_txs_from_source(s: Seq<(u64, Vec<B256>)>, a: int, b: int, h: B256)
    requires
        spec_txs_from(s, a, b).contains(h),
    ensures
        exists|e: int| a <= e < b && (#[trigger] s[e].1)@.contains(h),
    decreases b - a,
{
    if b > a {
        if s[b - 1].1@.contains(h) {
            assert(a <= b - 1 < b && s[b - 1].1@.contains(h));
        } else {
            let i = choose|i: int|
                0 <= i < spec_txs_from(s, a, b).len() && spec_txs_from(s, a, b)[i] == h;
            assert(i < spec_txs_from(s, a, b - 1).len());
            assert(spec_txs_from(s, a, b - 1)[i] == h);
            lemma_txs_from_source(s, a, b - 1, h);
        }
    }
}

/// Once a hash is scheduled for deletion by finalization, it is scheduled
/// exactly once and drops out of the tracker's history: with every recorded
/// hash recorded once, the emitted delete list repeats nothing, and none of
/// its hashes remains among the retained entries, so no later batch can
/// name them again.
///
/// Here `s` is the history just after recording the new block, and `k` the
/// number of leading entries the extension finalized: the delete list is
/// `spec_txs_from(s, 0, k)` and the retained history records
/// `spec_txs_from(s, k, s.len())`.
pub proof fn lemma_finalization_evicts_once(s: Seq<(u64, Vec<B256>)>, k: int, h: B256)
    requires
        0 <= k <= s.len(),
        spec_txs_from(s, 0, s.len() as int).no_duplicates(),
        spec_txs_from(s, 0, k).contains(h),
    ensures
        spec_txs_from(s, 0, k).no_duplicates(),
        !spec_txs_from(s, k, s.len() as int).contains(h),
{
    lemma_txs_from_split(s, 0, k, s.len() as int);
    let pre = spec_txs_from(s, 0, k);
    let post = spec_txs_from(s, k, s.len() as int);
    let whole = spec_txs_from(s, 0, s.len() as int);
    assert(forall|i: int| 0 <= i < pre.len() ==> whole[i] == pre[i]);
    assert(forall|i: int| 0 <= i < post.len() ==> whole[pre.len() + i] == post[i]);
    assert(pre.no_duplicates()) by {
        assert forall|i: int, j: int| 0 <= i < j < pre.len() implies pre[i] != pre[j] by {
            assert(whole[i] == pre[i] && whole[j] == pre[j]);
        }
    }
    if post.contains(h) {
        let i = choose|i: int| 0 <= i < pre.len() && pre[i] == h;
        let j = choose|j: int| 0 <= j < post.len() && post[j] == h;
        assert(whole[i] == whole[pre.len() + j]);
    }
}

/// A hash included only above the revert point is flagged for reinsertion
/// and no longer recorded afterwards: with the revert keeping the first `k`
/// entries, the reinsertion list is `spec_txs_from(s, k, s.len())` and the
/// retained history records `spec_txs_from(s, 0, k)`.
pub proof fn lemma_reorg_flags_and_forgets(s: Seq<(u64, Vec<B256>)>, k: int, e: int, h: B256)
    requires
        0 <= k <= e < s.len(),
        s[e].1@.contains(h),
        forall|j: int| 0 <= j < k ==> !(#[trigger] s[j].1)@.contains(h),
    ensures
        spec_txs_from(s, k, s.len() as int).contains(h),
        !spec_txs_from(s, 0, k).contains(h),
{
    lemma_txs_from_entry(s, k, e, s.len() as int, h);
    if spec_txs_from(s, 0, k).contains(h) {
        lemma_txs_from_source(s, 0, k, h);
    }
}

/// Tracks which canonical block included which blob transactions, back to
/// the finalization depth.
pub struct BlobStoreCanonTracker {
    finalization_depth: u64,
    history: Vec<(u64, Vec<B256>)>,
}

impl BlobStoreCanonTracker {
    /// The recorded history: one entry per retained canonical block, in
    /// ascending block order, each with the hashes it included.
    pub closed spec fn spec_history(&self) -> Seq<(u64, Vec<B256>)> {
        self.history@
    }

    /// The configured finalization depth.
    pub closed spec fn spec_depth(&self) -> u64 {
        self.finalization_depth
    }

    /// Block numbers strictly increase along the history.
    pub open spec fn spec_wf(&self) -> bool {
        forall|i: int, j: int|
            0 <= i < j < self.spec_history().len() ==> self.spec_history()[i].0
                < self.spec_history()[j].0
    }

    /// An empty tracker. A block is finalized once the head is at least
    /// `finalization_depth` past it.
    pub fn new(finalization_depth: u64) -> (r: Self)
        ensures
            r.spec_wf(),
            r.spec_history().len() == 0,
            r.spec_depth() == finalization_depth,
    {
        BlobStoreCanonTracker { finalization_depth, history: Vec::new() }
    }

    /// Records that `block_number` became canonical carrying `txs`, and
    /// schedules for deletion the hashes of every recorded block the
    /// extension pushed past the finalization depth.
    pub fn on_chain_extension(&mut self, block_number: u64, txs: Vec<B256>) -> (r:
        BlobStoreUpdates)
        requires
            old(self).spec_wf(),
            old(self).spec_history().len() == 0 || old(self).spec_history().last().0
                < block_number,
        ensures
            final(self).spec_wf(),
            final(self).spec_depth() == old(self).spec_depth(),
            ({
                let s1 = old(self).spec_history().push((block_number, txs));
                let k = spec_cut(s1, block_number - old(self).spec_depth());
                &&& r.to_delete@ == spec_txs_from(s1, 0, k)
                &&& r.to_reinsert@.len() == 0
                &&& final(self).spec_history() == s1.skip(k)
            }),
    {
        let ghost depth = self.finalization_depth;
        self.history.push((block_number, txs));
        let ghost s1 = self.history@;
        proof {
            assert(forall|i: int|
                0 <= i < s1.len() - 1 ==> s1[i] == old(self).spec_history()[i]);
        }
        let mut k: usize = 0;
        if block_number >= self.finalization_depth {
            let cutoff = block_number - self.finalization_depth;
            while k < self.history.len() && self.history[k].0 <= cutoff
                invariant
                    self.history@ == s1,
                    k <= s1.len(),
                    forall|j: int| 0 <= j < k ==> s1[j].0 <= cutoff,
                decreases s1.len() - k,
            {
                k = k + 1;
            }
            proof {
                lemma_cut_value(s1, cutoff as int, k as int);
            }
        } else {
            proof {
                assert(s1[0].0 > block_number - depth);
                lemma_cut_value(s1, block_number - depth, 0);
            }
        }
        let mut to_delete: Vec<B256> = Vec::new();
        let mut i: usize = 0;
        while i < k
            invariant
                self.history@ == s1,
                i <= k <= s1.len(),
                to_delete@ == spec_txs_from(s1, 0, i as int),
            decreases k - i,
        {
            let mut jj: usize = 0;
            while jj < self.history[i].1.len()
                invariant
                    self.history@ == s1,
                    i < s1.len(),
                    jj <= s1[i as int].1@.len(),
                    to_delete@ == spec_txs_from(s1, 0, i as int) + s1[i as int].1@.take(
                        jj as int,
                    ),
                decreases s1[i as int].1@.len() - jj,
            {
                to_delete.push(self.history[i].1[jj]);
                proof {
                    assert(s1[i as int].1@.take(jj as int + 1) =~= s1[i as int].1@.take(
                        jj as int,
                    ).push(s1[i as int].1@[jj as int]));
                }
                jj = jj + 1;
            }
            proof {
                assert(s1[i as int].1@.take(s1[i as int].1@.len() as int) =~= s1[i as int].1@);
                assert(to_delete@ == spec_txs_from(s1, 0, i as int + 1));
            }
            i = i + 1;
        }
        let mut m: usize = 0;
        while m < k
            invariant
                self.finalization_depth == depth,
                m <= k <= s1.len(),
                self.history@ =~= s1.skip(m as int),
            decreases k - m,
        {
            self.history.remove(0);
            proof {
                assert(s1.skip(m as int).remove(0) =~= s1.skip(m as int + 1));
            }
            m = m + 1;
        }
        proof {
            assert(self.history@ =~= s1.skip(k as int));
            assert(forall|a: int, b: int|
                0 <= a < b < self.history@.len() ==> self.history@[a].0 < self.history@[b].0);
        }
        BlobStoreUpdates { to_delete, to_reinsert: Vec::new() }
    }

    /// Records that the chain reverted to `revert_to`: the hashes of every
    /// block above it are flagged for possible reinsertion and dropped from
    /// the history.
    pub fn on_chain_revert(&mut self, revert_to: u64) -> (r: BlobStoreUpdates)
        requires
            old(self).spec_wf(),
        ensures
            final(self).spec_wf(),
            final(self).spec_depth() == old(self).spec_depth(),
            ({
                let s = old(self).spec_history();
                let k = spec_cut(s, revert_to as int);
                &&& r.to_reinsert@ == spec_txs_from(s, k, s.len() as int)
                &&& r.to_delete@.len() == 0
                &&& final(self).spec_history() == s.take(k)
            }),
    {
        let ghost s = self.history@;
        let mut k: usize = 0;
        while k < self.history.len() && self.history[k].0 <= revert_to
            invariant
                self.history@ == s,
                k <= s.len(),
                forall|j: int| 0 <= j < k ==> s[j].0 <= revert_to,
            decreases s.len() - k,
        {
            k = k + 1;
        }
        proof {
            lemma_cut_value(s, revert_to as int, k as int);
        }
        let mut to_reinsert: Vec<B256> = Vec::new();
        let mut i: usize = k;
        while i < self.history.len()
            invariant
                self.history@ == s,
                k <= i <= s.len(),
                to_reinsert@ == spec_txs_from(s, k as int, i as int),
            decreases s.len() - i,
        {
            let mut jj: usize = 0;
            while jj < self.history[i].1.len()
                invariant
                    self.history@ == s,
                    k <= i < s.len(),
                    jj <= s[i as int].1@.len(),
                    to_reinsert@ == spec_txs_from(s, k as int, i as int) + s[i as int].1@.take(
                        jj as int,
                    ),
                decreases s[i as int].1@.len() - jj,
            {
                to_reinsert.push(self.history[i].1[jj]);
                proof {
                    assert(s[i as int].1@.take(jj as int + 1) =~= s[i as int].1@.take(
                        jj as int,
                    ).push(s[i as int].1@[jj as int]));
                }
                jj = jj + 1;
            }
            proof {
                assert(s[i as int].1@.take(s[i as int].1@.len() as int) =~= s[i as int].1@);
                assert(to_reinsert@ == spec_txs_from(s, k as int, i as int + 1));
            }
            i = i + 1;
        }
        let ghost depth = self.finalization_depth;
        while self.history.len() > k
            invariant
                self.finalization_depth == depth,
                k <= s.len(),
                self.history@.len() <= s.len(),
                self.history@ =~= s.take(self.history@.len() as int),
                self.history@.len() >= k,
            decreases self.history@.len(),
        {
            let ghost hprev = self.history@;
            self.history.pop();
            proof {
                assert(self.history@ =~= hprev.drop_last());
                assert(hprev.drop_last() =~= s.take(hprev.len() - 1));
            }
        }
        proof {
            assert(self.history@ =~= s.take(k as int));
            assert forall|a: int, b: int|
                0 <= a < b < self.history@.len() implies self.history@[a].0
                < self.history@[b].0 by {
                assert(self.history@[a] == s[a]);
                assert(self.history@[b] == s[b]);
                assert(old(self).spec_history()[a].0 < old(self).spec_history()[b].0);
            }
        }
        BlobStoreUpdates { to_delete: Vec::new(), to_reinsert }
    }
}

} // verus!
