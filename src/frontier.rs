use vstd::arithmetic::power2::lemma_pow2_pos;
use vstd::prelude::*;

use crate::error::WitnessError;
use crate::node::{combine, combine_spec, HashNode};
use crate::tree::{
    empty_root, lemma_empty_beyond, lemma_push_unchanged, lemma_shr_agree,
    lemma_shr_below_capacity, node_at, shr, tree_root, TreeConfig,
};

verus! {

/// The pending subtrees among `levels`, from the lowest level up.
pub open spec fn pending(levels: Seq<Option<HashNode>>) -> Seq<HashNode>
    decreases levels.len(),
{
    if levels.len() == 0 {
        Seq::empty()
    } else {
        let rest = pending(levels.drop_last());
        match levels.last() {
            Some(h) => rest.push(h),
            None => rest,
        }
    }
}

/// The rightmost skeleton of an append-only tree: for each level, the completed left
/// subtree that is still waiting for its right sibling, if there is one.
#[derive(Clone)]
pub struct Frontier {
    pub config: TreeConfig,
    pub leaf_count: u64,
    /// `levels[k]` is the pending subtree of height `k`.
    pub levels: Vec<Option<HashNode>>,
    /// The leaves appended so far, in order.
    pub leaves: Ghost<Seq<Seq<u8>>>,
}

impl Frontier {
    pub open spec fn depth(&self) -> nat {
        self.config.depth as nat
    }

    pub open spec fn pz(&self) -> Seq<u8> {
        self.config.pz()
    }

    pub open spec fn e0(&self) -> Seq<u8> {
        self.config.empty_leaf()
    }

    pub open spec fn level_ok(&self, k: int) -> bool {
        let n = self.leaf_count as nat;
        &&& self.levels@[k].is_some() <==> shr(n, k as nat) % 2 == 1
        &&& self.levels@[k] matches Some(h) ==> h@ == node_at(
            self.pz(),
            self.e0(),
            self.leaves@,
            k as nat,
            (shr(n, k as nat) - 1) as nat,
        )
    }

    pub open spec fn wf(&self) -> bool {
        &&& self.config.wf()
        &&& self.levels@.len() == self.depth() + 1
        &&& self.leaf_count as nat == self.leaves@.len()
        &&& self.leaf_count <= self.config.capacity
        &&& forall|k: int| 0 <= k <= self.depth() ==> #[trigger] self.level_ok(k)
    }

    /// The root of the tree that this frontier stands for.
    pub open spec fn root_spec(&self) -> Seq<u8> {
        tree_root(self.pz(),self.e0(), self.depth(), self.leaves@)
    }

    /// The frontier of an empty tree.
    pub fn new(config: TreeConfig) -> (r: Self)
        requires
            config.wf(),
        ensures
            r.wf(),
            r.config == config,
            r.leaves@ == Seq::<Seq<u8>>::empty(),
    {
        let mut levels: Vec<Option<HashNode>> = Vec::new();
        let mut k: u8 = 0;
        while k <= config.depth
            invariant
                config.wf(),
                k <= config.depth + 1,
                levels@.len() == k,
                forall|j: int| 0 <= j < k ==> #[trigger] levels@[j].is_none(),
            decreases config.depth + 1 - k,
        {
            levels.push(None);
            k = k + 1;
        }
        let r = Frontier { config, leaf_count: 0, levels, leaves: Ghost(Seq::empty()) };
        assert forall|k: int| 0 <= k <= r.depth() implies #[trigger] r.level_ok(k) by {
            lemma_pow2_pos(k as nat);
            lemma_shr_below_capacity(0, k as nat);
            assert(r.levels@[k].is_none());
        }
        r
    }

    /// Number of leaves appended so far.
    pub fn leaf_count(&self) -> (r: u64)
        ensures
            r == self.leaf_count,
    {
        self.leaf_count
    }

    /// The pending subtrees, from the lowest level up: the frontier as it is persisted.
    pub fn snapshot(&self) -> (r: Vec<HashNode>)
        ensures
            r@ == pending(self.levels@),
    {
        let mut r: Vec<HashNode> = Vec::new();
        let mut k: usize = 0;
        while k < self.levels.len()
            invariant
                k <= self.levels@.len(),
                r@ == pending(self.levels@.take(k as int)),
            decreases self.levels@.len() - k,
        {
            assert(self.levels@.take(k + 1).drop_last() == self.levels@.take(k as int));
            match self.levels[k] {
                Some(h) => r.push(h),
                None => {},
            }
            k = k + 1;
        }
        assert(self.levels@.take(k as int) == self.levels@);
        r
    }

    /// Appends `leaf` at the next free position, merging completed subtrees upward.
    pub fn append(&mut self, leaf: &HashNode) -> (r: Result<(), WitnessError>)
        requires
            old(self).wf(),
        ensures
            final(self).wf(),
            final(self).config == old(self).config,
            old(self).leaf_count == old(self).config.capacity ==> r == Err::<(), WitnessError>(
                WitnessError::TreeFull,
            ) && *final(self) == *old(self),
            old(self).leaf_count < old(self).config.capacity ==> r is Ok && final(self).leaves@
                == old(self).leaves@.push(leaf@) && final(self).leaf_count == old(self).leaf_count + 1,
    {
        if self.leaf_count == self.config.capacity {
            return Err(WitnessError::TreeFull);
        }
        let ghost n = self.leaf_count as nat;
        let ghost old_leaves = self.leaves@;
        let ghost new_leaves = old_leaves.push(leaf@);
        let ghost pz = self.pz();
        let ghost e0 = self.e0();
        let ghost old_levels = self.levels@;
        let depth = self.config.depth as usize;
        proof {
            lemma_shr_below_capacity(n, depth as nat);
            assert(self.level_ok(depth as int));
        }
        let mut carry: HashNode = *leaf;
        let mut k: usize = 0;
        let mut idx: u64 = self.leaf_count;
        while self.levels[k].is_some()
            invariant
                self.config == old(self).config,
                self.config.wf(),
                self.leaf_count == old(self).leaf_count,
                self.leaves@ == old_leaves,
                depth == self.config.depth,
                n == self.leaf_count,
                n < self.config.capacity,
                e0 == self.e0(),
                pz == self.pz(),
                new_leaves == old_leaves.push(leaf@),
                old_leaves.len() == n,
                shr(n, depth as nat) == 0,
                k <= depth,
                self.levels@.len() == depth + 1,
                idx as nat == shr(n, k as nat),
                shr(n + 1, k as nat) == shr(n, k as nat) + 1,
                carry@ == node_at(pz, e0, new_leaves, k as nat, idx as nat),
                forall|j: int| 0 <= j < k ==> (#[trigger] self.levels@[j]).is_none() && shr(n + 1, j as nat) % 2 == 0,
                forall|j: int| k <= j <= depth ==> #[trigger] self.levels@[j] == old_levels[j],
                forall|j: int| 0 <= j <= depth ==> #[trigger] old(self).level_ok(j),
                old_levels == old(self).levels@,
                old_leaves == old(self).leaves@,
                e0 == old(self).e0(),
                pz == old(self).pz(),
            decreases depth - k,
        {
            assert(old(self).level_ok(k as int));
            assert(k < depth);
            let o = self.levels[k].unwrap();
            proof {
                lemma_push_unchanged(pz, e0, old_leaves, leaf@, k as nat, (idx - 1) as nat);
                assert(node_at(pz, e0, new_leaves, (k + 1) as nat, (idx / 2) as nat) == combine_spec(pz, 
                    k as nat,
                    node_at(pz, e0, new_leaves, k as nat, (2 * (idx / 2)) as nat),
                    node_at(pz, e0, new_leaves, k as nat, (2 * (idx / 2) + 1) as nat),
                ));
            }
            carry = combine(&self.config.personalization, k as u8, &o, &carry);
            self.levels.set(k, None);
            idx = idx / 2;
            k = k + 1;
        }
        proof {
            assert(old(self).level_ok(k as int));
        }
        self.levels.set(k, Some(carry));
        self.leaf_count = self.leaf_count + 1;
        self.leaves = Ghost(new_leaves);
        proof {
            assert(shr(n + 1, (k + 1) as nat) == shr(n, (k + 1) as nat));
            assert forall|j: int| 0 <= j <= self.depth() implies #[trigger] self.level_ok(j) by {
                if j > k {
                    lemma_shr_agree(n + 1, n, (k + 1) as nat, j as nat);
                    assert(old(self).level_ok(j));
                    if shr(n, j as nat) % 2 == 1 {
                        lemma_push_unchanged(pz, e0, old_leaves, leaf@, j as nat, (shr(n, j as nat) - 1) as nat);
                    }
                }
            }
        }
        Ok(())
    }

    /// The current root: the pending subtrees combined with empty placeholders.
    pub fn root(&self) -> (r: HashNode)
        requires
            self.wf(),
        ensures
            r@ == self.root_spec(),
    {
        let depth = self.config.depth as usize;
        let ghost n = self.leaf_count as nat;
        let ghost pz = self.pz();
        let ghost e0 = self.e0();
        if self.leaf_count == self.config.capacity {
            proof {
                lemma_shr_below_capacity(n, depth as nat);
                assert(self.level_ok(depth as int));
            }
            return self.levels[depth].unwrap();
        }
        proof {
            lemma_shr_below_capacity(n, depth as nat);
            assert(self.config.empty_roots@[0]@ == empty_root(pz, e0, 0));
        }
        let mut cur: HashNode = self.config.empty_roots[0];
        let mut k: usize = 0;
        let mut idx: u64 = self.leaf_count;
        while k < depth
            invariant
                self.wf(),
                depth == self.config.depth,
                n == self.leaf_count,
                n < self.config.capacity,
                e0 == self.e0(),
                pz == self.pz(),
                shr(n, depth as nat) == 0,
                k <= depth,
                idx as nat == shr(n, k as nat),
                cur@ == node_at(pz, e0, self.leaves@, k as nat, idx as nat),
            decreases depth - k,
        {
            assert(self.level_ok(k as int));
            assert(node_at(pz, e0, self.leaves@, (k + 1) as nat, (idx / 2) as nat) == combine_spec(pz, 
                k as nat,
                node_at(pz, e0, self.leaves@, k as nat, (2 * (idx / 2)) as nat),
                node_at(pz, e0, self.leaves@, k as nat, (2 * (idx / 2) + 1) as nat),
            ));
            if idx % 2 == 1 {
                let o = self.levels[k].unwrap();
                cur = combine(&self.config.personalization, k as u8, &o, &cur);
            } else {
                proof {
                    lemma_empty_beyond(pz, e0, self.leaves@, n, k as nat, (idx + 1) as nat);
                    assert(self.config.empty_roots@[k as int]@ == empty_root(pz, e0, k as nat));
                }
                let e = self.config.empty_roots[k];
                cur = combine(&self.config.personalization, k as u8, &cur, &e);
            }
            idx = idx / 2;
            k = k + 1;
        }
        cur
    }
}

} // verus!
