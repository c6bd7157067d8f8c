//! Aggregate size accounting shared by the store implementations.

use vstd::prelude::*;

verus! {

/// `a - b`, floored at zero.
pub open spec fn sat_sub(a: int, b: int) -> int {
    if a >= b {
        a - b
    } else {
        0
    }
}

/// Keeps track of the size of the blob store: the total byte size of the
/// payloads logically present and their count.
///
/// Decreases saturate at zero and never underflow; the count can also be set
/// directly on a bulk resynchronization. Two trackers compare equal when
/// their current counter values agree, regardless of identity.
#[derive(Debug)]
pub struct BlobStoreSize {
    data_size: usize,
    num_blobs: usize,
}

impl BlobStoreSize {
    /// The current byte-size counter.
    pub closed spec fn spec_data_size(&self) -> usize {
        self.data_size
    }

    /// The current blob-count counter.
    pub closed spec fn spec_blobs_len(&self) -> usize {
        self.num_blobs
    }

    /// A fresh tracker with both counters at zero.
    pub fn new() -> (r: Self)
        ensures
            r.spec_data_size() == 0,
            r.spec_blobs_len() == 0,
    {
        BlobStoreSize { data_size: 0, num_blobs: 0 }
    }

    /// Increases the byte-size counter by `add`.
    pub fn add_size(&mut self, add: usize)
        requires
            old(self).spec_data_size() + add <= usize::MAX,
        ensures
            final(self).spec_data_size() == old(self).spec_data_size() + add,
            final(self).spec_blobs_len() == old(self).spec_blobs_len(),
    {
        self.data_size = self.data_size + add;
    }

    /// Decreases the byte-size counter by `sub`, saturating at zero.
    pub fn sub_size(&mut self, sub: usize)
        ensures
            final(self).spec_data_size() == sat_sub(old(self).spec_data_size() as int, sub as int),
            final(self).spec_blobs_len() == old(self).spec_blobs_len(),
    {
        if self.data_size >= sub {
            self.data_size = self.data_size - sub;
        } else {
            self.data_size = 0;
        }
    }

    /// Sets the blob-count counter to `len` outright.
    pub fn update_len(&mut self, len: usize)
        ensures
            final(self).spec_data_size() == old(self).spec_data_size(),
            final(self).spec_blobs_len() == len,
    {
        self.num_blobs = len;
    }

    /// Increases the blob-count counter by `add`.
    pub fn inc_len(&mut self, add: usize)
        requires
            old(self).spec_blobs_len() + add <= usize::MAX,
        ensures
            final(self).spec_data_size() == old(self).spec_data_size(),
            final(self).spec_blobs_len() == old(self).spec_blobs_len() + add,
    {
        self.num_blobs = self.num_blobs + add;
    }

    /// Decreases the blob-count counter by `sub`, saturating at zero.
    pub fn sub_len(&mut self, sub: usize)
        ensures
            final(self).spec_data_size() == old(self).spec_data_size(),
            final(self).spec_blobs_len() == sat_sub(old(self).spec_blobs_len() as int, sub as int),
    {
        if self.num_blobs >= sub {
            self.num_blobs = self.num_blobs - sub;
        } else {
            self.num_blobs = 0;
        }
    }

    /// Reads the byte-size counter.
    pub fn data_size(&self) -> (r: usize)
        ensures
            r == self.spec_data_size(),
    {
        self.data_size
    }

    /// Reads the blob-count counter.
    pub fn blobs_len(&self) -> (r: usize)
        ensures
            r == self.spec_blobs_len(),
    {
        self.num_blobs
    }
}

impl Default for BlobStoreSize {
    /// The default tracker has both counters at zero.
    fn default() -> (r: Self)
        ensures
            r.spec_data_size() == 0,
            r.spec_blobs_len() == 0,
    {
        BlobStoreSize { data_size: 0, num_blobs: 0 }
    }
}

impl PartialEq for BlobStoreSize {
    /// Two trackers are equal when their counter values are, not when they
    /// are the same tracker.
    fn eq(&self, other: &Self) -> (r: bool) {
        self.data_size == other.data_size && self.num_blobs == other.num_blobs
    }
}

impl vstd::std_specs::cmp::PartialEqSpecImpl for BlobStoreSize {
    open spec fn obeys_eq_spec() -> bool {
        true
    }

    open spec fn eq_spec(&self, other: &Self) -> bool {
        self.spec_data_size() == other.spec_data_size()
            && self.spec_blobs_len() == other.spec_blobs_len()
    }
}

} // verus!
