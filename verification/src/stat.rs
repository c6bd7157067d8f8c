//! The result type of one cleanup pass.

use vstd::prelude::*;

verus! {

/// Statistics for one cleanup pass over a store's deferred deletions.
#[derive(Clone, Copy, Debug, PartialEq, Eq, Structural)]
pub struct BlobStoreCleanupStat {
    /// The number of successfully deleted blob files.
    pub delete_succeed: usize,
    /// The number of failed deletions.
    pub delete_failed: usize,
}

impl BlobStoreCleanupStat {
    /// The all-zero statistic, reported by stores with no deferred state.
    pub open spec fn spec_zero() -> BlobStoreCleanupStat {
        BlobStoreCleanupStat { delete_succeed: 0, delete_failed: 0 }
    }

    /// Builds the all-zero statistic.
    pub fn zero() -> (r: BlobStoreCleanupStat)
        ensures
            r == BlobStoreCleanupStat::spec_zero(),
    {
        BlobStoreCleanupStat { delete_succeed: 0, delete_failed: 0 }
    }
}

impl Default for BlobStoreCleanupStat {
    /// The default statistic is all-zero.
    fn default() -> (r: Self)
        ensures
            r == BlobStoreCleanupStat::spec_zero(),
    {
        BlobStoreCleanupStat { delete_succeed: 0, delete_failed: 0 }
    }
}

/// How many of the first `i` outcomes in `results` are successes.
pub open spec fn spec_count_true(results: Seq<bool>, i: int) -> int
    decreases i,
{
    if i <= 0 {
        0
    } else {
        spec_count_true(results, i - 1) + if results[i - 1] { 1int } else { 0int }
    }
}

/// Folds the physical outcomes of one cleanup pass into its statistic: one
/// success per `true`, one failure per `false`.
pub fn cleanup_stat_of(results: &Vec<bool>) -> (r: BlobStoreCleanupStat)
    ensures
        r.delete_succeed == spec_count_true(results@, results@.len() as int),
        r.delete_succeed + r.delete_failed == results@.len(),
{
    let mut succeed: usize = 0;
    let mut failed: usize = 0;
    let mut i: usize = 0;
    while i < results.len()
        invariant
            i <= results@.len(),
            succeed == spec_count_true(results@, i as int),
            succeed + failed == i,
        decreases results@.len() - i,
    {
        if results[i] {
            succeed = succeed + 1;
        } else {
            failed = failed + 1;
        }
        i = i + 1;
    }
    BlobStoreCleanupStat { delete_succeed: succeed, delete_failed: failed }
}

} // verus!
