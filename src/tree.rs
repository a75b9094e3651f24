use vstd::arithmetic::power2::{lemma2_to64_rest, lemma_pow2_strictly_increases, lemma_pow2_unfold, pow2};
use vstd::prelude::*;

use crate::node::{combine, combine_spec, HashNode};

verus! {

/// `n` shifted right by `k` bits: the index, at `level == k`, of the node above position `n`.
pub open spec fn shr(n: nat, k: nat) -> nat
    decreases k,
{
    if k == 0 {
        n
    } else {
        shr(n, (k - 1) as nat) / 2
    }
}

/// The canonical value of a subtree of height `level` that holds no leaf.
pub open spec fn empty_root(pz: Seq<u8>, e0: Seq<u8>, level: nat) -> Seq<u8>
    decreases level,
{
    if level == 0 {
        e0
    } else {
        let below = empty_root(pz, e0, (level - 1) as nat);
        combine_spec(pz, (level - 1) as nat, below, below)
    }
}

/// The node at `level` and `index` of the tree whose leaves are `leaves` followed by
/// empty leaves `e0`.
pub open spec fn node_at(pz: Seq<u8>, e0: Seq<u8>, leaves: Seq<Seq<u8>>, level: nat, index: nat) -> Seq<u8>
    decreases level,
{
    if level == 0 {
        if index < leaves.len() {
            leaves[index as int]
        } else {
            e0
        }
    } else {
        combine_spec(pz, 
            (level - 1) as nat,
            node_at(pz, e0, leaves, (level - 1) as nat, 2 * index),
            node_at(pz, e0, leaves, (level - 1) as nat, 2 * index + 1),
        )
    }
}

/// The root of the tree of height `depth` whose first leaves are `leaves`.
pub open spec fn tree_root(pz: Seq<u8>, e0: Seq<u8>, depth: nat, leaves: Seq<Seq<u8>>) -> Seq<u8> {
    node_at(pz, e0, leaves, depth, 0)
}

pub proof fn lemma_shr_halve(n: nat, k: nat)
    ensures
        shr(n, k + 1) == shr(n / 2, k),
    decreases k,
{
    assert(shr(n, k + 1) == shr(n, k) / 2);
    if k > 0 {
        lemma_shr_halve(n, (k - 1) as nat);
        assert(shr(n / 2, k) == shr(n / 2, (k - 1) as nat) / 2);
    }
}

/// Below the capacity of a tree, every position lies under the root.
pub proof fn lemma_shr_below_capacity(n: nat, k: nat)
    ensures
        n < pow2(k) ==> shr(n, k) == 0,
        n == pow2(k) ==> shr(n, k) == 1,
    decreases k,
{
    if k > 0 {
        lemma_pow2_unfold(k);
        lemma_shr_halve(n, (k - 1) as nat);
        lemma_shr_below_capacity(n / 2, (k - 1) as nat);
    } else {
        vstd::arithmetic::power2::lemma2_to64();
    }
}

/// Positions that share a node at one level share every node above it.
pub proof fn lemma_shr_agree(a: nat, b: nat, k: nat, j: nat)
    requires
        shr(a, k) == shr(b, k),
        k <= j,
    ensures
        shr(a, j) == shr(b, j),
    decreases j,
{
    if j > k {
        lemma_shr_agree(a, b, k, (j - 1) as nat);
    }
}

/// A node all of whose leaf positions lie past the last filled one is empty.
pub proof fn lemma_empty_beyond(pz: Seq<u8>, e0: Seq<u8>, leaves: Seq<Seq<u8>>, m: nat, level: nat, index: nat)
    requires
        leaves.len() <= m + 1,
        index > shr(m, level),
    ensures
        node_at(pz, e0, leaves, level, index) == empty_root(pz, e0, level),
    decreases level,
{
    if level > 0 {
        lemma_empty_beyond(pz, e0, leaves, m, (level - 1) as nat, 2 * index);
        lemma_empty_beyond(pz, e0, leaves, m, (level - 1) as nat, 2 * index + 1);
    }
}

/// Appending a leaf changes only the nodes above the new position.
pub proof fn lemma_push_unchanged(pz: Seq<u8>, e0: Seq<u8>, leaves: Seq<Seq<u8>>, x: Seq<u8>, level: nat, index: nat)
    requires
        index != shr(leaves.len(), level),
    ensures
        node_at(pz, e0, leaves.push(x), level, index) == node_at(pz, e0, leaves, level, index),
    decreases level,
{
    if level > 0 {
        lemma_push_unchanged(pz, e0, leaves, x, (level - 1) as nat, 2 * index);
        lemma_push_unchanged(pz, e0, leaves, x, (level - 1) as nat, 2 * index + 1);
    }
}

} // verus!

verus! {

/// The number of leaves that a tree of `depth` levels holds: 2 to the `depth`.
pub fn capacity_of(depth: u8) -> (r: u64)
    requires
        depth <= 63,
    ensures
        r as nat == pow2(depth as nat),
{
    let mut capacity: u64 = 1;
    let mut k: u8 = 0;
    proof {
        vstd::arithmetic::power2::lemma2_to64();
    }
    while k < depth
        invariant
            depth <= 63,
            k <= depth,
            capacity as nat == pow2(k as nat),
        decreases depth - k,
    {
        proof {
            lemma_pow2_unfold((k + 1) as nat);
            lemma2_to64_rest();
            if k + 1 < 63 {
                lemma_pow2_strictly_increases((k + 1) as nat, 63);
            }
        }
        capacity = capacity * 2;
        k = k + 1;
    }
    capacity
}

/// The shape of one commitment tree: its depth and the canonical empty-subtree value of
/// every level, from the empty leaf (level 0) up to the root of an empty tree.
#[derive(Clone)]
pub struct TreeConfig {
    pub depth: u8,
    /// Bytes that every parent hash of this tree begins with, so that the trees of
    /// different pools combine their nodes differently.
    pub personalization: Vec<u8>,
    pub capacity: u64,
    pub empty_roots: Vec<HashNode>,
}

impl TreeConfig {
    /// The personalization of the combine function.
    pub open spec fn pz(&self) -> Seq<u8> {
        self.personalization@
    }

    /// The value of an unfilled leaf.
    pub open spec fn empty_leaf(&self) -> Seq<u8> {
        self.empty_roots@[0]@
    }

    pub open spec fn wf(&self) -> bool {
        &&& 1 <= self.depth <= 63
        &&& self.capacity as nat == pow2(self.depth as nat)
        &&& self.empty_roots@.len() == self.depth + 1
        &&& forall|k: int|
            0 <= k <= self.depth ==> #[trigger] self.empty_roots@[k]@ == empty_root(
                self.pz(),
                self.empty_leaf(),
                k as nat,
            )
    }

    /// The configuration of a tree of `depth` levels whose unfilled leaves hold
    /// `empty_leaf` and whose parent hashes are personalized by `personalization`.
    pub fn new(depth: u8, empty_leaf: HashNode, personalization: Vec<u8>) -> (r: Self)
        requires
            1 <= depth <= 63,
        ensures
            r.wf(),
            r.depth == depth,
            r.empty_leaf() == empty_leaf@,
            r.pz() == personalization@,
    {
        let mut capacity: u64 = 1;
        let mut roots: Vec<HashNode> = Vec::new();
        roots.push(empty_leaf);
        let mut k: u8 = 0;
        proof {
            vstd::arithmetic::power2::lemma2_to64();
        }
        while k < depth
            invariant
                1 <= depth <= 63,
                k <= depth,
                capacity as nat == pow2(k as nat),
                roots@.len() == k + 1,
                roots@[0]@ == empty_leaf@,
                forall|j: int| 0 <= j <= k ==> #[trigger] roots@[j]@ == empty_root(personalization@, empty_leaf@, j as nat),
            decreases depth - k,
        {
            proof {
                lemma_pow2_unfold((k + 1) as nat);
                lemma2_to64_rest();
                if k + 1 < 63 {
                    lemma_pow2_strictly_increases((k + 1) as nat, 63);
                }
            }
            capacity = capacity * 2;
            let below = roots[k as usize];
            let up = combine(&personalization, k, &below, &below);
            roots.push(up);
            k = k + 1;
        }
        TreeConfig { depth, personalization, capacity, empty_roots: roots }
    }
}

} // verus!
