//! Merkle roots over transaction ids, with detection of the duplicated
//! subtrees that let two different transaction lists share a root.
use vstd::prelude::*;
use crate::packets::encode::put_slice;
use crate::util::crypto::{spec_sha256d, sha256d};

verus! {

broadcast use vstd::seq_lib::group_seq_properties;

/// The parent of two nodes: the double SHA-256 of their concatenation.
pub open spec fn spec_merkle_parent(a: Seq<u8>, b: Seq<u8>) -> Seq<u8> {
    spec_sha256d(a + b)
}

/// The level above `hs`: each pair hashed together, the last node paired
/// with itself when the level has an odd length.
pub open spec fn spec_merkle_level(hs: Seq<Seq<u8>>) -> Seq<Seq<u8>> {
    Seq::new(
        ((hs.len() + 1) / 2) as nat,
        |i: int| spec_merkle_parent(hs[2 * i], if 2 * i + 1 < hs.len() { hs[2 * i + 1] } else { hs[2 * i] }),
    )
}

/// A level is mutated when one of its pairs holds the same node twice.
pub open spec fn spec_level_mutated(hs: Seq<Seq<u8>>) -> bool {
    exists|i: int| 0 <= i && 2 * i + 1 < hs.len() && #[trigger] hs[2 * i] == hs[2 * i + 1]
}

/// The all-zero hash.
pub open spec fn spec_zero_hash() -> Seq<u8> {
    Seq::new(32, |i: int| 0u8)
}

/// The merkle root of `hs` and whether any level on the way was mutated;
/// the root of no nodes is the zero hash.
pub open spec fn spec_merkle_root(hs: Seq<Seq<u8>>) -> (Seq<u8>, bool)
    decreases hs.len(),
{
    if hs.len() == 0 {
        (spec_zero_hash(), false)
    } else if hs.len() == 1 {
        (hs[0], false)
    } else {
        let (r, m) = spec_merkle_root(spec_merkle_level(hs));
        (r, m || spec_level_mutated(hs))
    }
}

/// The models of a list of hashes.
pub open spec fn spec_hashes_view(v: Seq<[u8; 32]>) -> Seq<Seq<u8>> {
    v.map_values(|h: [u8; 32]| h@)
}

/// Whether two hashes are equal.
pub fn hash_eq(a: &[u8; 32], b: &[u8; 32]) -> (r: bool)
    ensures
        r == (a@ == b@),
{
    let mut i: usize = 0;
    while i < 32
        invariant
            i <= 32,
            forall|j: int| 0 <= j < i ==> a@[j] == b@[j],
        decreases 32 - i,
    {
        if a[i] != b[i] {
            return false;
        }
        i = i + 1;
    }
    assert(a@ =~= b@);
    true
}

fn level_mutated(level: &Vec<[u8; 32]>) -> (r: bool)
    ensures
        r == spec_level_mutated(spec_hashes_view(level@)),
{
    let ghost hs = spec_hashes_view(level@);
    let mut pos: usize = 0;
    while pos + 1 < level.len()
        invariant
            hs == spec_hashes_view(level@),
            pos % 2 == 0,
            pos <= level@.len() + 1,
            forall|i: int| 0 <= i && 2 * i < pos && 2 * i + 1 < hs.len() ==> #[trigger] hs[2 * i] != hs[2 * i + 1],
        decreases level@.len() + 2 - pos,
    {
        if hash_eq(&level[pos], &level[pos + 1]) {
            assert(hs[2 * (pos / 2) as int] == hs[2 * (pos / 2) as int + 1]);
            return true;
        }
        pos = pos + 2;
    }
    assert forall|i: int| 0 <= i && 2 * i + 1 < hs.len() implies #[trigger] hs[2 * i] != hs[2 * i + 1] by {
        assert(2 * i < pos);
    }
    false
}

fn next_level(level: &Vec<[u8; 32]>) -> (r: Vec<[u8; 32]>)
    ensures
        spec_hashes_view(r@) == spec_merkle_level(spec_hashes_view(level@)),
{
    let ghost hs = spec_hashes_view(level@);
    let mut next: Vec<[u8; 32]> = Vec::new();
    let n = level.len();
    let pairs = n / 2 + n % 2;
    let mut j: usize = 0;
    while j < pairs
        invariant
            hs == spec_hashes_view(level@),
            n == level@.len(),
            pairs == n / 2 + n % 2,
            pairs == (hs.len() + 1) / 2,
            j <= pairs,
            next@.len() == j,
            forall|k: int| 0 <= k < next@.len() ==> (#[trigger] next@[k])@ == spec_merkle_level(hs)[k],
        decreases pairs - j,
    {
        let i = 2 * j;
        let a = level[i];
        let b = if i + 1 < level.len() { level[i + 1] } else { level[i] };
        let mut pair: Vec<u8> = Vec::new();
        put_slice(&mut pair, a.as_slice());
        put_slice(&mut pair, b.as_slice());
        let h = sha256d(pair.as_slice());
        proof {
            let k = (i / 2) as int;
            assert(2 * k == i);
            assert(pair@ == hs[2 * k] + (if 2 * k + 1 < hs.len() { hs[2 * k + 1] } else { hs[2 * k] }));
        }
        next.push(h);
        j = j + 1;
    }
    assert(spec_hashes_view(next@) =~= spec_merkle_level(hs));
    next
}

/// Collects hashes and computes their merkle root.
pub struct MerkleTree {
    hashes: Vec<[u8; 32]>,
}

impl View for MerkleTree {
    type V = Seq<Seq<u8>>;

    closed spec fn view(&self) -> Seq<Seq<u8>> {
        spec_hashes_view(self.hashes@)
    }
}

impl MerkleTree {
    /// An empty tree with room for `capacity` hashes.
    pub fn with_capacity(capacity: usize) -> (r: MerkleTree)
        ensures
            r@ == Seq::<Seq<u8>>::empty(),
    {
        let t = MerkleTree { hashes: Vec::with_capacity(capacity) };
        assert(t@ =~= Seq::<Seq<u8>>::empty());
        t
    }

    /// Adds a leaf.
    pub fn append_hash(&mut self, hash: &[u8; 32])
        ensures
            final(self)@ == old(self)@.push(hash@),
    {
        self.hashes.push(*hash);
        assert(self@ =~= old(self)@.push(hash@));
    }

    /// The root of the leaves, and whether a level on the way held a pair of equal nodes.
    pub fn into_root(self) -> (r: ([u8; 32], bool))
        ensures
            (r.0@, r.1) == spec_merkle_root(self@),
    {
        let ghost whole = self@;
        let mut level = self.hashes;
        let mut mutated = false;
        while level.len() > 1
            invariant
                spec_merkle_root(whole) == ({
                    let (r, m) = spec_merkle_root(spec_hashes_view(level@));
                    (r, m || mutated)
                }),
            decreases level@.len(),
        {
            let m = level_mutated(&level);
            let next = next_level(&level);
            assert(spec_hashes_view(next@).len() == next@.len());
            assert(spec_hashes_view(level@).len() == level@.len());
            mutated = mutated || m;
            level = next;
        }
        if level.len() == 0 {
            let zero = [0u8; 32];
            proof {
                vstd::array::axiom_spec_array_fill_for_copy_type::<u8, 32>(0u8);
                assert(zero@ =~= spec_zero_hash());
            }
            (zero, mutated)
        } else {
            (level[0], mutated)
        }
    }
}

} // verus!
