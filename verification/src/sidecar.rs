//! The blob payloads the store keeps, and the shapes in which consensus-layer
//! queries receive them.
//!
//! A sidecar exists in two versioned shapes: the older one carries one proof
//! per blob, the newer one carries a list of cell proofs per blob. Each blob
//! inside a sidecar is tagged with its versioned hash, the content-derived
//! identifier under which consensus-layer queries look it up. Producing that
//! identifier from the blob's commitment, and the wire encoding of the
//! payloads, belong to the layers around this crate; here they are data.

use vstd::prelude::*;
use crate::hash::B256;

verus! {

/// One blob of the older sidecar shape: the blob bytes and its single proof,
/// tagged with the blob's versioned hash.
#[derive(Clone, Debug, PartialEq, Eq)]
pub struct BlobItemV1 {
    /// The content-derived identifier of this blob.
    pub versioned_hash: B256,
    /// The blob bytes.
    pub blob: Vec<u8>,
    /// The proof for the whole blob.
    pub proof: Vec<u8>,
}

/// One blob of the newer sidecar shape: the blob bytes and its cell proofs,
/// tagged with the blob's versioned hash.
#[derive(Clone, Debug, PartialEq, Eq)]
pub struct BlobItemV2 {
    /// The content-derived identifier of this blob.
    pub versioned_hash: B256,
    /// The blob bytes.
    pub blob: Vec<u8>,
    /// One proof per cell of the blob.
    pub cell_proofs: Vec<Vec<u8>>,
}

/// The answer shape of the per-blob query: a blob and its single proof.
#[derive(Clone, Debug, PartialEq, Eq)]
pub struct BlobAndProofV1 {
    /// The blob bytes.
    pub blob: Vec<u8>,
    /// The proof for the whole blob.
    pub proof: Vec<u8>,
}

/// The answer shape of the all-or-nothing query: a blob and its cell proofs.
#[derive(Clone, Debug, PartialEq, Eq)]
pub struct BlobAndProofV2 {
    /// The blob bytes.
    pub blob: Vec<u8>,
    /// One proof per cell of the blob.
    pub cell_proofs: Vec<Vec<u8>>,
}

/// The blob payload attached to one transaction, in one of its two versioned
/// shapes.
#[derive(Clone, Debug, PartialEq, Eq)]
pub enum BlobSidecar {
    /// The older shape: blobs with one proof each.
    V1(Vec<BlobItemV1>),
    /// The newer shape: blobs with cell proofs.
    V2(Vec<BlobItemV2>),
}

/// Total byte length of the first `i` byte strings in `s`.
pub open spec fn spec_nested_len(s: Seq<Vec<u8>>, i: int) -> nat
    decreases i,
{
    if i <= 0 {
        0
    } else {
        spec_nested_len(s, i - 1) + s[i - 1]@.len()
    }
}

/// The byte strings counted so far never exceed the whole count.
proof fn lemma_nested_len_mono(s: Seq<Vec<u8>>, i: int, j: int)
    requires
        0 <= i <= j,
    ensures
        spec_nested_len(s, i) <= spec_nested_len(s, j),
    decreases j,
{
    if i < j {
        lemma_nested_len_mono(s, i, j - 1);
    }
}

impl BlobItemV1 {
    /// The payload size of this blob: its bytes plus its proof bytes.
    pub open spec fn spec_size(&self) -> nat {
        self.blob@.len() + self.proof@.len()
    }

    /// Computes the payload size.
    pub fn size(&self) -> (r: usize)
        requires
            self.spec_size() <= usize::MAX,
        ensures
            r == self.spec_size(),
    {
        self.blob.len() + self.proof.len()
    }
}

impl BlobItemV2 {
    /// The payload size of this blob: its bytes plus all its cell proofs.
    pub open spec fn spec_size(&self) -> nat {
        self.blob@.len() + spec_nested_len(self.cell_proofs@, self.cell_proofs@.len() as int)
    }

    /// Computes the payload size.
    pub fn size(&self) -> (r: usize)
        requires
            self.spec_size() <= usize::MAX,
        ensures
            r == self.spec_size(),
    {
        let mut acc: usize = self.blob.len();
        let mut i: usize = 0;
        while i < self.cell_proofs.len()
            invariant
                i <= self.cell_proofs@.len(),
                acc == self.blob@.len() + spec_nested_len(self.cell_proofs@, i as int),
                self.spec_size() <= usize::MAX,
            decreases self.cell_proofs@.len() - i,
        {
            proof {
                lemma_nested_len_mono(
                    self.cell_proofs@,
                    i as int + 1,
                    self.cell_proofs@.len() as int,
                );
            }
            acc = acc + self.cell_proofs[i].len();
            i = i + 1;
        }
        acc
    }
}

/// Total payload size of the first `i` blobs of an older-shape sidecar.
pub open spec fn spec_items_v1_size(s: Seq<BlobItemV1>, i: int) -> nat
    decreases i,
{
    if i <= 0 {
        0
    } else {
        spec_items_v1_size(s, i - 1) + s[i - 1].spec_size()
    }
}

/// Total payload size of the first `i` blobs of a newer-shape sidecar.
pub open spec fn spec_items_v2_size(s: Seq<BlobItemV2>, i: int) -> nat
    decreases i,
{
    if i <= 0 {
        0
    } else {
        spec_items_v2_size(s, i - 1) + s[i - 1].spec_size()
    }
}

/// The blobs counted so far never exceed the whole count.
proof fn lemma_items_v1_size_mono(s: Seq<BlobItemV1>, i: int, j: int)
    requires
        0 <= i <= j,
    ensures
        spec_items_v1_size(s, i) <= spec_items_v1_size(s, j),
    decreases j,
{
    if i < j {
        lemma_items_v1_size_mono(s, i, j - 1);
    }
}

/// The blobs counted so far never exceed the whole count.
proof fn lemma_items_v2_size_mono(s: Seq<BlobItemV2>, i: int, j: int)
    requires
        0 <= i <= j,
    ensures
        spec_items_v2_size(s, i) <= spec_items_v2_size(s, j),
    decreases j,
{
    if i < j {
        lemma_items_v2_size_mono(s, i, j - 1);
    }
}

/// The first blob of `items` whose versioned hash is `vh`, if any.
pub open spec fn spec_find_item_v1(items: Seq<BlobItemV1>, vh: B256) -> Option<BlobItemV1>
    decreases items.len(),
{
    if items.len() == 0 {
        None
    } else if items[0].versioned_hash == vh {
        Some(items[0])
    } else {
        spec_find_item_v1(items.skip(1), vh)
    }
}

/// The first blob of `items` whose versioned hash is `vh`, if any.
pub open spec fn spec_find_item_v2(items: Seq<BlobItemV2>, vh: B256) -> Option<BlobItemV2>
    decreases items.len(),
{
    if items.len() == 0 {
        None
    } else if items[0].versioned_hash == vh {
        Some(items[0])
    } else {
        spec_find_item_v2(items.skip(1), vh)
    }
}

/// When no blob before position `i` carries `vh`, the search may as well
/// start at `i`.
proof fn lemma_find_item_v1_skip(items: Seq<BlobItemV1>, vh: B256, i: int)
    requires
        0 <= i <= items.len(),
        forall|j: int| 0 <= j < i ==> items[j].versioned_hash != vh,
    ensures
        spec_find_item_v1(items, vh) == spec_find_item_v1(items.skip(i), vh),
    decreases i,
{
    if i > 0 {
        assert(items[0].versioned_hash != vh);
        assert(forall|j: int|
            0 <= j < i - 1 ==> items.skip(1)[j] == items[j + 1]);
        lemma_find_item_v1_skip(items.skip(1), vh, i - 1);
        assert(items.skip(1).skip(i - 1) =~= items.skip(i));
    } else {
        assert(items.skip(0) =~= items);
    }
}

/// When no blob before position `i` carries `vh`, the search may as well
/// start at `i`.
proof fn lemma_find_item_v2_skip(items: Seq<BlobItemV2>, vh: B256, i: int)
    requires
        0 <= i <= items.len(),
        forall|j: int| 0 <= j < i ==> items[j].versioned_hash != vh,
    ensures
        spec_find_item_v2(items, vh) == spec_find_item_v2(items.skip(i), vh),
    decreases i,
{
    if i > 0 {
        assert(items[0].versioned_hash != vh);
        assert(forall|j: int|
            0 <= j < i - 1 ==> items.skip(1)[j] == items[j + 1]);
        lemma_find_item_v2_skip(items.skip(1), vh, i - 1);
        assert(items.skip(1).skip(i - 1) =~= items.skip(i));
    } else {
        assert(items.skip(0) =~= items);
    }
}

/// Copies a byte string.
fn clone_bytes(v: &Vec<u8>) -> (r: Vec<u8>)
    ensures
        r@ == v@,
{
    let r = v.clone();
    proof {
        assert(r@ =~= v@);
    }
    r
}

/// Copies a list of byte strings, keeping each one's contents.
fn clone_nested_bytes(v: &Vec<Vec<u8>>) -> (r: Vec<Vec<u8>>)
    ensures
        r@.len() == v@.len(),
        forall|i: int| 0 <= i < v@.len() ==> r@[i]@ == v@[i]@,
{
    let mut r: Vec<Vec<u8>> = Vec::new();
    let mut i: usize = 0;
    while i < v.len()
        invariant
            i <= v@.len(),
            r@.len() == i,
            forall|j: int| 0 <= j < i ==> r@[j]@ == v@[j]@,
        decreases v@.len() - i,
    {
        r.push(clone_bytes(&v[i]));
        i = i + 1;
    }
    r
}

/// Finds the position of the first blob in `items` carrying `vh`.
fn find_index_v1(items: &Vec<BlobItemV1>, vh: B256) -> (r: Option<usize>)
    ensures
        match r {
            Some(i) => i < items@.len() && spec_find_item_v1(items@, vh) == Some(items@[i as int]),
            None => spec_find_item_v1(items@, vh) is None,
        },
{
    let mut i: usize = 0;
    while i < items.len()
        invariant
            i <= items@.len(),
            forall|j: int| 0 <= j < i ==> items@[j].versioned_hash != vh,
        decreases items@.len() - i,
    {
        if items[i].versioned_hash == vh {
            proof {
                lemma_find_item_v1_skip(items@, vh, i as int);
                assert(items@.skip(i as int)[0] == items@[i as int]);
            }
            return Some(i);
        }
        i = i + 1;
    }
    proof {
        lemma_find_item_v1_skip(items@, vh, items@.len() as int);
    }
    None
}

/// Finds the position of the first blob in `items` carrying `vh`.
fn find_index_v2(items: &Vec<BlobItemV2>, vh: B256) -> (r: Option<usize>)
    ensures
        match r {
            Some(i) => i < items@.len() && spec_find_item_v2(items@, vh) == Some(items@[i as int]),
            None => spec_find_item_v2(items@, vh) is None,
        },
{
    let mut i: usize = 0;
    while i < items.len()
        invariant
            i <= items@.len(),
            forall|j: int| 0 <= j < i ==> items@[j].versioned_hash != vh,
        decreases items@.len() - i,
    {
        if items[i].versioned_hash == vh {
            proof {
                lemma_find_item_v2_skip(items@, vh, i as int);
                assert(items@.skip(i as int)[0] == items@[i as int]);
            }
            return Some(i);
        }
        i = i + 1;
    }
    proof {
        lemma_find_item_v2_skip(items@, vh, items@.len() as int);
    }
    None
}

/// Whether the per-blob-proof answer `b` copies the blob `item`.
pub open spec fn spec_matches_v1(b: BlobAndProofV1, item: BlobItemV1) -> bool {
    b.blob@ == item.blob@ && b.proof@ == item.proof@
}

/// Whether the cell-proof answer `b` copies the blob `item`.
pub open spec fn spec_matches_v2(b: BlobAndProofV2, item: BlobItemV2) -> bool {
    &&& b.blob@ == item.blob@
    &&& b.cell_proofs@.len() == item.cell_proofs@.len()
    &&& forall|i: int|
        0 <= i < item.cell_proofs@.len() ==> #[trigger] b.cell_proofs@[i]@
            == item.cell_proofs@[i]@
}

impl BlobSidecar {
    /// The payload size of the sidecar in bytes: all blobs with their proofs.
    pub open spec fn spec_size(&self) -> nat {
        match self {
            BlobSidecar::V1(items) => spec_items_v1_size(items@, items@.len() as int),
            BlobSidecar::V2(items) => spec_items_v2_size(items@, items@.len() as int),
        }
    }

    /// The first blob of this sidecar carrying `vh`, when the sidecar has the
    /// older shape; a newer-shape sidecar serves no per-blob-proof query.
    pub open spec fn spec_find_v1(&self, vh: B256) -> Option<BlobItemV1> {
        match self {
            BlobSidecar::V1(items) => spec_find_item_v1(items@, vh),
            BlobSidecar::V2(_) => None,
        }
    }

    /// The first blob of this sidecar carrying `vh`, when the sidecar has the
    /// newer shape; an older-shape sidecar has no cell proofs to serve.
    pub open spec fn spec_find_v2(&self, vh: B256) -> Option<BlobItemV2> {
        match self {
            BlobSidecar::V1(_) => None,
            BlobSidecar::V2(items) => spec_find_item_v2(items@, vh),
        }
    }

    /// Computes the payload size.
    pub fn size(&self) -> (r: usize)
        requires
            self.spec_size() <= usize::MAX,
        ensures
            r == self.spec_size(),
    {
        match self {
            BlobSidecar::V1(items) => {
                let mut acc: usize = 0;
                let mut i: usize = 0;
                while i < items.len()
                    invariant
                        i <= items@.len(),
                        acc == spec_items_v1_size(items@, i as int),
                        spec_items_v1_size(items@, items@.len() as int) <= usize::MAX,
                    decreases items@.len() - i,
                {
                    proof {
                        lemma_items_v1_size_mono(items@, i as int + 1, items@.len() as int);
                    }
                    acc = acc + items[i].size();
                    i = i + 1;
                }
                acc
            },
            BlobSidecar::V2(items) => {
                let mut acc: usize = 0;
                let mut i: usize = 0;
                while i < items.len()
                    invariant
                        i <= items@.len(),
                        acc == spec_items_v2_size(items@, i as int),
                        spec_items_v2_size(items@, items@.len() as int) <= usize::MAX,
                    decreases items@.len() - i,
                {
                    proof {
                        lemma_items_v2_size_mono(items@, i as int + 1, items@.len() as int);
                    }
                    acc = acc + items[i].size();
                    i = i + 1;
                }
                acc
            },
        }
    }

    /// Looks the blob carrying `vh` up in this sidecar and hands back a copy
    /// in the per-blob-proof answer shape.
    pub fn find_blob_v1(&self, vh: B256) -> (r: Option<BlobAndProofV1>)
        ensures
            match self.spec_find_v1(vh) {
                Some(item) => r matches Some(b) && spec_matches_v1(b, item),
                None => r is None,
            },
    {
        match self {
            BlobSidecar::V1(items) => {
                match find_index_v1(items, vh) {
                    Some(i) => Some(
                        BlobAndProofV1 {
                            blob: clone_bytes(&items[i].blob),
                            proof: clone_bytes(&items[i].proof),
                        },
                    ),
                    None => None,
                }
            },
            BlobSidecar::V2(_) => None,
        }
    }

    /// Looks the blob carrying `vh` up in this sidecar and hands back a copy
    /// in the cell-proof answer shape.
    pub fn find_blob_v2(&self, vh: B256) -> (r: Option<BlobAndProofV2>)
        ensures
            match self.spec_find_v2(vh) {
                Some(item) => r matches Some(b) && spec_matches_v2(b, item),
                None => r is None,
            },
    {
        match self {
            BlobSidecar::V1(_) => None,
            BlobSidecar::V2(items) => {
                match find_index_v2(items, vh) {
                    Some(i) => Some(
                        BlobAndProofV2 {
                            blob: clone_bytes(&items[i].blob),
                            cell_proofs: clone_nested_bytes(&items[i].cell_proofs),
                        },
                    ),
                    None => None,
                }
            },
        }
    }
}

} // verus!
