//! A Merkle tree over an append-only list, and the proofs it hands to
//! light clients.
//!
//! The tree is the complete binary tree over the values' hashes: a leaf
//! hashes the value's bytes, an inner node with both children hashes
//! their concatenated hashes, and an inner node whose right child is
//! absent hashes the left child's hash alone. A `ListProof` replays one
//! path of that tree; validating it recomputes the root and recovers
//! the proven entries together with their indices.

use vstd::arithmetic::power2::{
    lemma_pow2_adds, lemma_pow2_pos, lemma_pow2_strictly_increases, lemma_pow2_unfold, pow2,
};
use vstd::prelude::*;

use crate::crypto::{digest_of, hash, pair_hash};

verus! {

/// A value that the storage layer can hold: it has canonical bytes,
/// and its hash is the digest of those bytes.
pub trait StorageValue: Sized {
    /// The canonical bytes of the value.
    spec fn value_model(&self) -> Seq<u8>;

    /// Serialises the value.
    fn serialize(self) -> (r: Vec<u8>)
        ensures
            r@ == self.value_model(),
    ;

    /// Reads a value back from its canonical bytes.
    fn deserialize(bytes: Vec<u8>) -> (r: Self)
        ensures
            r.value_model() == bytes@,
    ;

    /// A value with the same canonical bytes.
    fn clone_value(&self) -> (r: Self)
        ensures
            r.value_model() == self.value_model(),
    ;

    /// The content hash of the value.
    fn hash(&self) -> (r: crate::crypto::Hash)
        ensures
            r@ == digest_of(self.value_model()),
            r.wf(),
    ;
}

impl StorageValue for Vec<u8> {
    open spec fn value_model(&self) -> Seq<u8> {
        self@
    }

    fn serialize(self) -> (r: Vec<u8>) {
        self
    }

    fn deserialize(bytes: Vec<u8>) -> (r: Vec<u8>) {
        bytes
    }

    fn clone_value(&self) -> (r: Vec<u8>) {
        crate::storage::db::copy_bytes(self)
    }

    fn hash(&self) -> (r: crate::crypto::Hash) {
        hash(self.as_slice())
    }
}

/// The canonical bytes of each value of a list.
pub open spec fn values_model<V: StorageValue>(s: Seq<V>) -> Seq<Seq<u8>> {
    s.map_values(|v: V| v.value_model())
}

/// The hash of the tree node of the given height over the given
/// leaves. A node of height 1 is a leaf; a higher node splits its
/// leaves at half its capacity, and hashes its left child's hash alone
/// when no leaf falls to the right.
pub open spec fn node_hash(leaves: Seq<Seq<u8>>, height: nat) -> Seq<u8>
    decreases height,
{
    if height <= 1 {
        digest_of(
            if leaves.len() > 0 {
                leaves[0]
            } else {
                Seq::empty()
            },
        )
    } else {
        let half = pow2((height - 2) as nat) as int;
        if leaves.len() <= half {
            digest_of(node_hash(leaves, (height - 1) as nat))
        } else {
            digest_of(
                node_hash(leaves.take(half), (height - 1) as nat) + node_hash(
                    leaves.skip(half),
                    (height - 1) as nat,
                ),
            )
        }
    }
}

/// The height of the tree over `len` leaves: 1 for at most one leaf,
/// and one more than the height over the leaves' upper half otherwise.
pub open spec fn list_height(len: nat) -> nat
    decreases len,
{
    if len <= 1 {
        1
    } else {
        1 + list_height(((len + 1) / 2) as nat)
    }
}

/// The root hash of a list: the digest of the empty string for an
/// empty list, the top node's hash otherwise.
pub open spec fn list_root(leaves: Seq<Seq<u8>>) -> Seq<u8> {
    if leaves.len() == 0 {
        digest_of(Seq::empty())
    } else {
        node_hash(leaves, list_height(leaves.len()))
    }
}

/// A tree has at least the leaf level.
pub proof fn lemma_list_height_pos(len: nat)
    ensures
        list_height(len) >= 1,
    decreases len,
{
    if len > 1 {
        lemma_list_height_pos(((len + 1) / 2) as nat);
    }
}

/// The tree of height `list_height(len)` has room for all `len`
/// leaves, and for `len` of at least 2 the next smaller tree does not.
pub proof fn lemma_list_height(len: nat)
    ensures
        list_height(len) >= 1,
        pow2((list_height(len) - 1) as nat) >= len,
        len >= 2 ==> pow2((list_height(len) - 2) as nat) < len,
    decreases len,
{
    if len <= 1 {
        assert(pow2(0) == 1) by {
            lemma_pow2_pos(0);
            vstd::arithmetic::power2::lemma2_to64();
        }
    } else {
        let m = ((len + 1) / 2) as nat;
        lemma_list_height(m);
        let h = list_height(len);
        let hm = list_height(m);
        lemma_pow2_unfold((h - 1) as nat);
        assert(pow2((h - 1) as nat) == 2 * pow2((hm - 1) as nat));
        assert(2 * pow2((hm - 1) as nat) >= 2 * m);
        assert(2 * m >= len);
        if len >= 2 {
            if m >= 2 {
                lemma_list_height_pos(((m + 1) / 2) as nat);
                assert(hm >= 2);
                lemma_pow2_unfold((hm - 1) as nat);
                assert(pow2((hm - 1) as nat) == 2 * pow2((hm - 2) as nat));
                assert(pow2((hm - 2) as nat) < m);
                assert(pow2((hm - 1) as nat) <= 2 * (m - 1));
                assert(2 * (m - 1) < len);
            } else {
                assert(m == 1);
                assert(hm == 1);
                assert(pow2(0) == 1) by {
                    vstd::arithmetic::power2::lemma2_to64();
                }
            }
        }
    }
}

/// A height whose tree has room for the leaves, and minimally so, is
/// the list height.
pub proof fn lemma_height_unique(len: nat, h: nat)
    requires
        h >= 1,
        pow2((h - 1) as nat) >= len,
        h >= 2 ==> pow2((h - 2) as nat) < len,
    ensures
        h == list_height(len),
{
    let hh = list_height(len);
    lemma_list_height(len);
    if h < hh {
        // then h - 1 <= hh - 2, so the tree of height h is too small
        assert(len >= 2) by {
            if len <= 1 {
                assert(hh == 1);
            }
        }
        if ((h - 1) as nat) < ((hh - 2) as nat) {
            lemma_pow2_strictly_increases((h - 1) as nat, (hh - 2) as nat);
        }
        assert(pow2((h - 1) as nat) <= pow2((hh - 2) as nat));
        assert(false);
    } else if h > hh {
        assert(h >= 2);
        if ((hh - 1) as nat) < ((h - 2) as nat) {
            lemma_pow2_strictly_increases((hh - 1) as nat, (h - 2) as nat);
        }
        assert(pow2((h - 2) as nat) >= pow2((hh - 1) as nat));
        assert(false);
    }
}

/// The tree height over a list of bounded length, computed by doubling
/// a capacity until it covers the length.
pub fn tree_height(len: u64) -> (h: u8)
    requires
        len <= 0x4000_0000,
    ensures
        h as nat == list_height(len as nat),
        1 <= h <= 31,
{
    let mut h: u8 = 1;
    let mut cap: u64 = 1;
    proof {
        vstd::arithmetic::power2::lemma2_to64();
    }
    while cap < len
        invariant
            len <= 0x4000_0000,
            1 <= h <= 31,
            cap == pow2((h - 1) as nat),
            h >= 2 ==> pow2((h - 2) as nat) < len,
            cap <= 0x4000_0000,
        decreases 0x4000_0000 - cap,
    {
        proof {
            vstd::arithmetic::power2::lemma2_to64();
            lemma_pow2_pos((h - 1) as nat);
            if (h - 1) as nat >= 30 {
                if ((h - 1) as nat) > 30 {
                    lemma_pow2_strictly_increases(30, (h - 1) as nat);
                }
                assert(cap >= 0x4000_0000);
                assert(false);
            }
            if ((h - 1) as nat) < 29 {
                lemma_pow2_strictly_increases((h - 1) as nat, 29);
            }
            assert(cap <= 0x2000_0000);
            lemma_pow2_unfold(h as nat);
        }
        cap = cap * 2;
        h = h + 1;
    }
    proof {
        lemma_height_unique(len as nat, h as nat);
    }
    h
}

/// One path through the Merkle tree: a full branch carries both
/// subtrees, `Left`/`Right` carry one subtree and at most one sibling
/// hash, and a leaf carries a proven value.
pub enum ListProof<V> {
    Full(Box<ListProof<V>>, Box<ListProof<V>>),
    Left(Box<ListProof<V>>, Option<crate::crypto::Hash>),
    Right(crate::crypto::Hash, Box<ListProof<V>>),
    Leaf(V),
}

/// Why a proof was rejected: a leaf above the leaf level, a branch at
/// or below it, or a recomputed root that differs from the trusted
/// one.
#[derive(Clone, Copy, Debug, PartialEq, Eq, Structural)]
pub enum ListProofError {
    UnexpectedLeaf,
    UnexpectedBranch,
    UnmatchedRootHash,
}

/// What folding a proof yields: the recomputed node hash and the
/// proven entries with their implied indices, or the first structural
/// fault. Descending into a left child doubles the implied index; a
/// right child adds one.
pub open spec fn collect_spec<V: StorageValue>(
    p: ListProof<V>,
    height: nat,
    index: int,
) -> Result<(Seq<u8>, Seq<(int, Seq<u8>)>), ListProofError>
    decreases height,
{
    if height == 0 {
        Err(ListProofError::UnexpectedBranch)
    } else {
        match p {
            ListProof::Full(l, r) => match collect_spec(*l, (height - 1) as nat, 2 * index) {
                Err(e) => Err(e),
                Ok((lh, le)) => match collect_spec(*r, (height - 1) as nat, 2 * index + 1) {
                    Err(e) => Err(e),
                    Ok((rh, re)) => Ok((digest_of(lh + rh), le + re)),
                },
            },
            ListProof::Left(l, or) => match collect_spec(*l, (height - 1) as nat, 2 * index) {
                Err(e) => Err(e),
                Ok((lh, le)) => match or {
                    Some(rh) => Ok((digest_of(lh + rh@), le)),
                    None => Ok((digest_of(lh), le)),
                },
            },
            ListProof::Right(lh, r) => match collect_spec(*r, (height - 1) as nat, 2 * index + 1) {
                Err(e) => Err(e),
                Ok((rh, re)) => Ok((digest_of(lh@ + rh), re)),
            },
            ListProof::Leaf(v) => {
                if height > 1 {
                    Err(ListProofError::UnexpectedLeaf)
                } else {
                    Ok((digest_of(v.value_model()), seq![(index, v.value_model())]))
                }
            },
        }
    }
}

/// The indices and canonical bytes of collected entries.
pub open spec fn entry_models<V: StorageValue>(s: Seq<(u64, V)>) -> Seq<(int, Seq<u8>)> {
    s.map_values(|e: (u64, V)| (e.0 as int, e.1.value_model()))
}

impl<V: StorageValue> ListProof<V> {
    /// Folds the proof: recomputes this node's hash, appending the
    /// proven entries to `vec` with the indices their position in the
    /// tree implies.
    fn collect(self, height: u8, index: u64, vec: &mut Vec<(u64, V)>) -> (r: Result<
        crate::crypto::Hash,
        ListProofError,
    >)
        requires
            height <= 63,
            index < pow2((63 - height) as nat),
        ensures
            match collect_spec(self, height as nat, index as int) {
                Ok((h, es)) => r matches Ok(rh) && rh@ == h && rh.wf() && entry_models(
                    final(vec)@,
                ) == entry_models(old(vec)@) + es,
                Err(e) => r == Err::<crate::crypto::Hash, ListProofError>(e),
            },
        decreases height,
    {
        if height == 0 {
            return Err(ListProofError::UnexpectedBranch);
        }
        proof {
            lemma_pow2_unfold((64 - height) as nat);
            assert(pow2((63 - (height - 1)) as nat) == 2 * pow2((63 - height) as nat));
            if ((63 - height) as nat) < 63 {
                lemma_pow2_strictly_increases((63 - height) as nat, 63);
            }
            assert(pow2(63) == 0x8000_0000_0000_0000) by {
                vstd::arithmetic::power2::lemma2_to64_rest();
            }
        }
        match self {
            ListProof::Full(l, r) => {
                let lh = match l.collect(height - 1, index * 2, vec) {
                    Err(e) => {
                        return Err(e);
                    },
                    Ok(lh) => lh,
                };
                let ghost mid = vec@;
                let rh = match r.collect(height - 1, index * 2 + 1, vec) {
                    Err(e) => {
                        return Err(e);
                    },
                    Ok(rh) => rh,
                };
                proof {
                    assert(entry_models(vec@) =~= entry_models(old(vec)@) + (collect_spec(
                        *l,
                        (height - 1) as nat,
                        2 * index,
                    )->Ok_0.1 + collect_spec(*r, (height - 1) as nat, 2 * index + 1)->Ok_0.1));
                }
                Ok(pair_hash(&lh, &rh))
            },
            ListProof::Left(l, or) => {
                let lh = match l.collect(height - 1, index * 2, vec) {
                    Err(e) => {
                        return Err(e);
                    },
                    Ok(lh) => lh,
                };
                match or {
                    Some(rh) => Ok(pair_hash(&lh, &rh)),
                    None => Ok(hash(lh.as_bytes().as_slice())),
                }
            },
            ListProof::Right(lh, r) => {
                let rh = match r.collect(height - 1, index * 2 + 1, vec) {
                    Err(e) => {
                        return Err(e);
                    },
                    Ok(rh) => rh,
                };
                Ok(pair_hash(&lh, &rh))
            },
            ListProof::Leaf(v) => {
                if height > 1 {
                    return Err(ListProofError::UnexpectedLeaf);
                }
                let h = v.hash();
                let ghost v0 = vec@;
                vec.push((index, v));
                proof {
                    assert(entry_models(v0).len() == v0.len());
                    assert(entry_models(vec@) =~= entry_models(v0) + seq![
                        (index as int, vec@.last().1.value_model()),
                    ]);
                }
                Ok(h)
            },
        }
    }

    /// Checks the proof against a trusted root hash and list length:
    /// on success, the proven entries with their indices; otherwise
    /// the structural fault, or `UnmatchedRootHash` when the
    /// recomputed root differs.
    pub fn validate(self, root_hash: &crate::crypto::Hash, len: u64) -> (r: Result<
        Vec<(u64, V)>,
        ListProofError,
    >)
        requires
            len <= 0x4000_0000,
        ensures
            match collect_spec(self, list_height(len as nat), 0) {
                Err(e) => r == Err::<Vec<(u64, V)>, ListProofError>(e),
                Ok((h, es)) => if h == root_hash@ {
                    r matches Ok(v) && entry_models(v@) == es
                } else {
                    r == Err::<Vec<(u64, V)>, ListProofError>(ListProofError::UnmatchedRootHash)
                },
            },
    {
        let height = tree_height(len);
        let mut vec: Vec<(u64, V)> = Vec::new();
        proof {
            lemma_pow2_pos((63 - height) as nat);
        }
        match self.collect(height, 0, &mut vec) {
            Err(e) => Err(e),
            Ok(h) => {
                if h.equals(root_hash) {
                    proof {
                        assert(entry_models(Seq::<(u64, V)>::empty()) =~= Seq::<(
                            int,
                            Seq<u8>,
                        )>::empty());
                        assert(entry_models(vec@) =~= collect_spec(
                            self,
                            list_height(len as nat),
                            0,
                        )->Ok_0.1);
                    }
                    Ok(vec)
                } else {
                    Err(ListProofError::UnmatchedRootHash)
                }
            },
        }
    }
}


/// A power of two, computed by doubling.
fn pow2_exec(e: u8) -> (r: usize)
    requires
        e <= 30,
    ensures
        r == pow2(e as nat),
        r >= 1,
{
    let mut r: usize = 1;
    let mut i: u8 = 0;
    proof {
        vstd::arithmetic::power2::lemma2_to64();
    }
    while i < e
        invariant
            i <= e <= 30,
            r == pow2(i as nat),
            r <= 0x4000_0000,
        decreases e - i,
    {
        proof {
            vstd::arithmetic::power2::lemma2_to64();
            if (i as nat) < 29 {
                lemma_pow2_strictly_increases(i as nat, 29);
            }
            lemma_pow2_unfold(i as nat + 1);
        }
        r = r * 2;
        i = i + 1;
    }
    proof {
        lemma_pow2_pos(e as nat);
    }
    r
}

/// The leaves a node of the given height rooted at `start` covers.
pub open spec fn node_leaves(leaves: Seq<Seq<u8>>, start: int, height: nat) -> Seq<Seq<u8>> {
    if start + pow2((height - 1) as nat) <= leaves.len() {
        leaves.subrange(start, start + pow2((height - 1) as nat))
    } else {
        leaves.subrange(start, leaves.len() as int)
    }
}

/// An authenticated append-only list: a complete binary Merkle tree
/// over its values, able to prove any entry against its root hash.
pub struct ProofListIndex<V> {
    items: Vec<V>,
}

impl<V: StorageValue> ProofListIndex<V> {
    /// The canonical bytes of the stored values, in order.
    pub closed spec fn view(&self) -> Seq<Seq<u8>> {
        values_model(self.items@)
    }

    /// An empty list.
    pub fn new() -> (r: ProofListIndex<V>)
        ensures
            r@.len() == 0,
    {
        ProofListIndex { items: Vec::new() }
    }

    /// The number of stored values.
    pub fn len(&self) -> (r: usize)
        ensures
            r == self@.len(),
    {
        self.items.len()
    }

    /// Whether the list holds nothing.
    pub fn is_empty(&self) -> (r: bool)
        ensures
            r == (self@.len() == 0),
    {
        self.items.len() == 0
    }

    /// Appends a value.
    pub fn append(&mut self, value: V)
        requires
            old(self)@.len() < 0x4000_0000,
        ensures
            final(self)@ == old(self)@.push(value.value_model()),
    {
        self.items.push(value);
        proof {
            assert(final(self)@ =~= old(self)@.push(value.value_model()));
        }
    }

    /// The value at an index.
    pub fn get(&self, index: usize) -> (r: &V)
        requires
            index < self@.len(),
        ensures
            r.value_model() == self@[index as int],
    {
        &self.items[index]
    }

    /// The Merkle root over the stored values: the digest of the empty
    /// string when the list is empty.
    pub fn root_hash(&self) -> (r: crate::crypto::Hash)
        requires
            self@.len() <= 0x4000_0000,
        ensures
            r@ == list_root(self@),
            r.wf(),
    {
        if self.items.len() == 0 {
            let empty: Vec<u8> = Vec::new();
            let h = hash(empty.as_slice());
            proof {
                assert(empty@ =~= Seq::<u8>::empty());
            }
            h
        } else {
            let height = tree_height(self.items.len() as u64);
            proof {
                lemma_list_height(self@.len() as nat);
                lemma_pow2_pos((height - 1) as nat);
                assert(node_leaves(self@, 0, height as nat) =~= self@);
            }
            subtree_hash(&self.items, 0, height)
        }
    }

    /// A proof for the single entry at `index`, ready to be checked
    /// against the list's root hash and length.
    pub fn construct_proof(&self, index: usize) -> (r: ListProof<V>)
        requires
            index < self@.len(),
            self@.len() <= 0x4000_0000,
        ensures
            collect_spec(r, list_height(self@.len() as nat), 0) == Ok::<_, ListProofError>(
                (list_root(self@), seq![(index as int, self@[index as int])]),
            ),
    {
        let height = tree_height(self.items.len() as u64);
        proof {
            lemma_list_height(self@.len() as nat);
            assert(node_leaves(self@, 0, height as nat) =~= self@);
        }
        build_proof(&self.items, 0, height, index, Ghost(0))
    }
}

/// The hash of the subtree of the given height rooted at leaf `start`.
fn subtree_hash<V: StorageValue>(items: &Vec<V>, start: usize, height: u8) -> (r:
    crate::crypto::Hash)
    requires
        1 <= height <= 31,
        start < items@.len(),
        items@.len() <= 0x4000_0000,
    ensures
        r@ == node_hash(node_leaves(values_model(items@), start as int, height as nat),
            height as nat),
        r.wf(),
    decreases height,
{
    let ghost leaves = values_model(items@);
    let ghost seg = node_leaves(leaves, start as int, height as nat);
    if height == 1 {
        proof {
            vstd::arithmetic::power2::lemma2_to64();
            assert(seg[0] == leaves[start as int]);
        }
        items[start].hash()
    } else {
        let half = pow2_exec(height - 2);
        proof {
            vstd::arithmetic::power2::lemma2_to64();
            if ((height - 2) as nat) < 29 {
                lemma_pow2_strictly_increases((height - 2) as nat, 29);
            }
            assert(half <= 0x2000_0000);
        }
        let mid = start + half;
        proof {
            lemma_pow2_unfold((height - 1) as nat);
            assert(seg.len() > 0);
        }
        if items.len() <= mid {
            let lh = subtree_hash(items, start, height - 1);
            proof {
                assert(node_leaves(leaves, start as int, (height - 1) as nat) =~= seg);
                assert(seg.len() <= half);
            }
            hash(lh.as_bytes().as_slice())
        } else {
            let lh = subtree_hash(items, start, height - 1);
            let rh = subtree_hash(items, mid, height - 1);
            proof {
                assert(node_leaves(leaves, start as int, (height - 1) as nat) =~= seg.take(
                    half as int,
                ));
                assert(node_leaves(leaves, mid as int, (height - 1) as nat) =~= seg.skip(
                    half as int,
                ));
                assert(seg.len() > half);
            }
            pair_hash(&lh, &rh)
        }
    }
}

/// The proof path from the subtree of the given height rooted at leaf
/// `start` down to the entry at `i`; `idx` is the subtree's index in
/// its level of the tree.
fn build_proof<V: StorageValue>(
    items: &Vec<V>,
    start: usize,
    height: u8,
    i: usize,
    Ghost(idx): Ghost<int>,
) -> (r: ListProof<V>)
    requires
        1 <= height <= 31,
        items@.len() <= 0x4000_0000,
        start <= i < items@.len(),
        i < start + pow2((height - 1) as nat),
        idx >= 0,
        idx * pow2((height - 1) as nat) == start,
    ensures
        collect_spec(r, height as nat, idx) == Ok::<_, ListProofError>(
            (
                node_hash(node_leaves(values_model(items@), start as int, height as nat),
                    height as nat),
                seq![(i as int, values_model(items@)[i as int])],
            ),
        ),
    decreases height,
{
    let ghost leaves = values_model(items@);
    let ghost seg = node_leaves(leaves, start as int, height as nat);
    if height == 1 {
        proof {
            vstd::arithmetic::power2::lemma2_to64();
            assert(i == start);
            assert(idx * 1 == start);
            assert(idx == i as int);
            assert(seg[0] == leaves[start as int]);
        }
        ListProof::Leaf(items[i].clone_value())
    } else {
        let half = pow2_exec(height - 2);
        proof {
            vstd::arithmetic::power2::lemma2_to64();
            if ((height - 2) as nat) < 29 {
                lemma_pow2_strictly_increases((height - 2) as nat, 29);
            }
            assert(half <= 0x2000_0000);
        }
        let mid = start + half;
        proof {
            lemma_pow2_unfold((height - 1) as nat);
            assert(pow2((height - 1) as nat) == 2 * half);
            assert((2 * idx) * pow2((height - 2) as nat) == start) by (nonlinear_arith)
                requires
                    idx * pow2((height - 1) as nat) == start,
                    pow2((height - 1) as nat) == 2 * pow2((height - 2) as nat),
            ;
            assert((2 * idx + 1) * pow2((height - 2) as nat) == start + pow2(
                (height - 2) as nat,
            )) by (nonlinear_arith)
                requires
                    (2 * idx) * pow2((height - 2) as nat) == start,
            ;
        }
        if i < mid {
            let left = build_proof(items, start, height - 1, i, Ghost(2 * idx));
            proof {
                assert(node_leaves(leaves, start as int, (height - 1) as nat) =~= if seg.len()
                    <= half {
                    seg
                } else {
                    seg.take(half as int)
                });
            }
            if items.len() <= mid {
                let r = ListProof::Left(Box::new(left), None);
                proof {
                    assert(seg.len() <= half);
                }
                r
            } else {
                let rh = subtree_hash(items, mid, height - 1);
                let r = ListProof::Left(Box::new(left), Some(rh));
                proof {
                    assert(seg.len() > half);
                    assert(node_leaves(leaves, mid as int, (height - 1) as nat) =~= seg.skip(
                        half as int,
                    ));
                }
                r
            }
        } else {
            let lh = subtree_hash(items, start, height - 1);
            let right = build_proof(items, mid, height - 1, i, Ghost(2 * idx + 1));
            proof {
                assert(seg.len() > half);
                assert(node_leaves(leaves, start as int, (height - 1) as nat) =~= seg.take(
                    half as int,
                ));
                assert(node_leaves(leaves, mid as int, (height - 1) as nat) =~= seg.skip(
                    half as int,
                ));
            }
            ListProof::Right(lh, Box::new(right))
        }
    }
}


/// Against an empty list every branch proof is rejected outright: the
/// tree has only the leaf level, so any branch reaches below it. A
/// leaf proof is left to the root comparison, which rejects it unless
/// its value's digest collides with the empty list's root.
pub proof fn lemma_empty_list_rejects_branches<V: StorageValue>(p: ListProof<V>)
    requires
        !(p is Leaf),
    ensures
        collect_spec(p, list_height(0), 0) is Err,
{
    assert(list_height(0) == 1);
    match p {
        ListProof::Full(l, r) => {
            assert(collect_spec(*l, 0, 0) == Err::<(Seq<u8>, Seq<(int, Seq<u8>)>), ListProofError>(
                ListProofError::UnexpectedBranch,
            ));
        },
        ListProof::Left(l, or) => {
            assert(collect_spec(*l, 0, 0) == Err::<(Seq<u8>, Seq<(int, Seq<u8>)>), ListProofError>(
                ListProofError::UnexpectedBranch,
            ));
        },
        ListProof::Right(lh, r) => {
            assert(collect_spec(*r, 0, 1) == Err::<(Seq<u8>, Seq<(int, Seq<u8>)>), ListProofError>(
                ListProofError::UnexpectedBranch,
            ));
        },
        ListProof::Leaf(v) => {},
    }
}

} // verus!
