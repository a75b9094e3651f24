use vstd::prelude::*;

use crate::error::WitnessError;
use crate::frontier::{pending, Frontier};
use crate::node::{combine, combine_spec, HashNode};
use crate::tree::{
    lemma_empty_beyond, lemma_push_unchanged, lemma_shr_agree, lemma_shr_below_capacity, node_at,
    shr, tree_root, TreeConfig,
};

verus! {

/// The index of the other child under the same parent.
pub open spec fn sibling(i: nat) -> nat {
    if i % 2 == 0 {
        i + 1
    } else {
        (i - 1) as nat
    }
}

/// The root reached from `leaf` at position `pos` by combining it, level by level, with the
/// entries of `path`: on the left where the position's bit at that level is 0, else on the right.
pub open spec fn auth_root(pz: Seq<u8>, leaf: Seq<u8>, pos: nat, path: Seq<HashNode>) -> Seq<u8>
    decreases path.len(),
{
    if path.len() == 0 {
        leaf
    } else {
        let k = (path.len() - 1) as nat;
        let below = auth_root(pz, leaf, pos, path.drop_last());
        if shr(pos, k) % 2 == 0 {
            combine_spec(pz, k, below, path[k as int]@)
        } else {
            combine_spec(pz, k, path[k as int]@, below)
        }
    }
}

/// A note's proof of inclusion: its commitment, its position, the sibling of each node on
/// its way to the root, and the last captured anchor with the tree size and frontier it
/// was captured from.
#[derive(Clone, Debug)]
pub struct Witness {
    /// The note commitment: the leaf that this witness proves.
    pub commitment: HashNode,
    /// The leaf's position in the tree.
    pub position: u64,
    /// The sibling of each node from the leaf (level 0) up to just below the root.
    pub path: Vec<HashNode>,
    /// Number of leaves of the tree that the path currently reflects.
    pub tree_size: u64,
    /// The last captured root; the commitment itself until the first capture.
    pub anchor: HashNode,
    /// The tree size at the last capture; 0 before any.
    pub anchor_tree_size: u64,
    /// The pending subtrees of the tree at the last capture, lowest level first.
    pub anchor_frontier: Vec<HashNode>,
}

impl Witness {
    /// The witness reflects the tree of `config` whose leaves are `leaves`: every path entry
    /// is the current value of the sibling subtree at its level.
    pub open spec fn tracks(&self, config: TreeConfig, leaves: Seq<Seq<u8>>) -> bool {
        &&& config.wf()
        &&& self.path@.len() == config.depth
        &&& self.tree_size as nat == leaves.len()
        &&& leaves.len() <= config.capacity
        &&& self.position < self.tree_size
        &&& leaves[self.position as int] == self.commitment@
        &&& forall|k: int|
            0 <= k < config.depth ==> #[trigger] self.path@[k]@ == node_at(
                config.pz(),
                config.empty_leaf(),
                leaves,
                k as nat,
                sibling(shr(self.position as nat, k as nat)),
            )
    }

    /// The anchor triple was taken from `frontier`: its root, its size and its pending
    /// subtrees.
    pub open spec fn captured_from(&self, frontier: Frontier) -> bool {
        &&& self.anchor@ == frontier.root_spec()
        &&& self.anchor_tree_size == frontier.leaf_count
        &&& self.anchor_frontier@ == pending(frontier.levels@)
    }

    /// The root that the commitment and the path lead to.
    pub open spec fn anchor_spec(&self, pz: Seq<u8>) -> Seq<u8> {
        auth_root(pz, self.commitment@, self.position as nat, self.path@)
    }

    /// The witness of `commitment`, about to be appended to the tree whose frontier is
    /// `frontier`: each path entry is the pending subtree on the left, or an empty one.
    pub fn new(frontier: &Frontier, commitment: &HashNode) -> (r: Result<Witness, WitnessError>)
        requires
            frontier.wf(),
        ensures
            frontier.leaf_count == frontier.config.capacity ==> r == Err::<Witness, WitnessError>(
                WitnessError::TreeFull,
            ),
            frontier.leaf_count < frontier.config.capacity ==> (r matches Ok(w) && w.tracks(
                frontier.config,
                frontier.leaves@.push(commitment@),
            ) && w.commitment == *commitment && w.position == frontier.leaf_count
                && w.anchor_tree_size == 0 && w.anchor_frontier@.len() == 0),
    {
        if frontier.leaf_count == frontier.config.capacity {
            return Err(WitnessError::TreeFull);
        }
        let depth = frontier.config.depth as usize;
        let ghost n = frontier.leaf_count as nat;
        let ghost pz = frontier.pz();
        let ghost e0 = frontier.e0();
        let ghost leaves = frontier.leaves@;
        let ghost new_leaves = leaves.push(commitment@);
        let mut path: Vec<HashNode> = Vec::new();
        let mut k: usize = 0;
        let mut idx: u64 = frontier.leaf_count;
        while k < depth
            invariant
                frontier.wf(),
                depth == frontier.config.depth,
                n == frontier.leaf_count,
                e0 == frontier.e0(),
                pz == frontier.pz(),
                leaves == frontier.leaves@,
                new_leaves == leaves.push(commitment@),
                k <= depth,
                idx as nat == shr(n, k as nat),
                path@.len() == k,
                forall|j: int| 0 <= j < k ==> #[trigger] path@[j]@ == node_at(
                    pz, e0,
                    new_leaves,
                    j as nat,
                    sibling(shr(n, j as nat)),
                ),
            decreases depth - k,
        {
            assert(frontier.level_ok(k as int));
            if idx % 2 == 1 {
                proof {
                    lemma_push_unchanged(pz, e0, leaves, commitment@, k as nat, (idx - 1) as nat);
                }
                path.push(frontier.levels[k].unwrap());
            } else {
                proof {
                    lemma_empty_beyond(pz, e0, new_leaves, n, k as nat, (idx + 1) as nat);
                    assert(frontier.config.empty_roots@[k as int]@ == crate::tree::empty_root(pz, e0, k as nat));
                }
                path.push(frontier.config.empty_roots[k]);
            }
            idx = idx / 2;
            k = k + 1;
        }
        Ok(Witness {
            commitment: *commitment,
            position: frontier.leaf_count,
            path,
            tree_size: frontier.leaf_count + 1,
            anchor: *commitment,
            anchor_tree_size: 0,
            anchor_frontier: Vec::new(),
        })
    }

    /// Takes in the leaf appended next to the tree of `frontier` (its state before that
    /// append): records it in the one path entry whose subtree it enters.
    pub fn extend(&mut self, frontier: &Frontier, leaf: &HashNode) -> (r: Result<(), WitnessError>)
        requires
            frontier.wf(),
        ensures
            old(self).path@.len() != frontier.depth() ==> r == Err::<(), WitnessError>(
                WitnessError::LengthMismatch,
            ),
            old(self).path@.len() == frontier.depth() && (old(self).tree_size
                != frontier.leaf_count || old(self).position >= old(self).tree_size) ==> r == Err::<
                (),
                WitnessError,
            >(WitnessError::InconsistentAppendOrder),
            old(self).path@.len() == frontier.depth() && old(self).tree_size == frontier.leaf_count
                && old(self).position < old(self).tree_size && frontier.leaf_count
                == frontier.config.capacity ==> r == Err::<(), WitnessError>(
                WitnessError::TreeFull,
            ),
            old(self).path@.len() == frontier.depth() && old(self).tree_size == frontier.leaf_count
                && old(self).position < old(self).tree_size && frontier.leaf_count
                < frontier.config.capacity ==> r is Ok,
            r is Err ==> *final(self) == *old(self),
            r is Ok ==> final(self).tree_size == old(self).tree_size + 1,
            old(self).tracks(frontier.config, frontier.leaves@) && frontier.leaf_count
                < frontier.config.capacity ==> r is Ok && final(self).tracks(
                frontier.config,
                frontier.leaves@.push(leaf@),
            ),
            final(self).commitment == old(self).commitment,
            final(self).position == old(self).position,
            final(self).anchor == old(self).anchor,
            final(self).anchor_tree_size == old(self).anchor_tree_size,
            final(self).anchor_frontier == old(self).anchor_frontier,
    {
        let depth = frontier.config.depth as usize;
        if self.path.len() != depth {
            return Err(WitnessError::LengthMismatch);
        }
        if self.tree_size != frontier.leaf_count || self.position >= self.tree_size {
            return Err(WitnessError::InconsistentAppendOrder);
        }
        if frontier.leaf_count == frontier.config.capacity {
            return Err(WitnessError::TreeFull);
        }
        let ghost n = frontier.leaf_count as nat;
        let ghost p = self.position as nat;
        let ghost pz = frontier.pz();
        let ghost e0 = frontier.e0();
        let ghost leaves = frontier.leaves@;
        let ghost new_leaves = leaves.push(leaf@);
        proof {
            lemma_shr_below_capacity(n, depth as nat);
            lemma_shr_below_capacity(p, depth as nat);
        }
        let mut carry: HashNode = *leaf;
        let mut k: usize = 0;
        let mut pi: u64 = self.position;
        let mut ni: u64 = frontier.leaf_count;
        while pi / 2 != ni / 2
            invariant
                frontier.wf(),
                depth == frontier.config.depth,
                n == frontier.leaf_count,
                p < n,
                e0 == frontier.e0(),
                pz == frontier.pz(),
                leaves == frontier.leaves@,
                new_leaves == leaves.push(leaf@),
                shr(n, depth as nat) == 0,
                shr(p, depth as nat) == 0,
                k <= depth,
                pi as nat == shr(p, k as nat),
                ni as nat == shr(n, k as nat),
                pi != ni,
                carry@ == node_at(pz, e0, new_leaves, k as nat, ni as nat),
                forall|j: int| 0 <= j < k ==> shr(p, j as nat) / 2 != #[trigger] shr(n, j as nat) / 2,
            decreases depth - k,
        {
            assert(k < depth) by {
                if k == depth {
                    assert(false);
                }
            }
            assert(frontier.level_ok(k as int));
            assert(shr(p, (k + 1) as nat) == shr(p, k as nat) / 2);
            assert(shr(n, (k + 1) as nat) == shr(n, k as nat) / 2);
            assert(node_at(pz, e0, new_leaves, (k + 1) as nat, (ni / 2) as nat) == combine_spec(pz, 
                k as nat,
                node_at(pz, e0, new_leaves, k as nat, (2 * (ni / 2)) as nat),
                node_at(pz, e0, new_leaves, k as nat, (2 * (ni / 2) + 1) as nat),
            ));
            if ni % 2 == 1 {
                proof {
                    lemma_push_unchanged(pz, e0, leaves, leaf@, k as nat, (ni - 1) as nat);
                }
                let o = frontier.levels[k].unwrap();
                carry = combine(&frontier.config.personalization, k as u8, &o, &carry);
            } else {
                proof {
                    lemma_empty_beyond(pz, e0, new_leaves, n, k as nat, (ni + 1) as nat);
                    assert(frontier.config.empty_roots@[k as int]@ == crate::tree::empty_root(pz, e0, k as nat));
                }
                let e = frontier.config.empty_roots[k];
                carry = combine(&frontier.config.personalization, k as u8, &carry, &e);
            }
            pi = pi / 2;
            ni = ni / 2;
            k = k + 1;
        }
        assert(k < depth) by {
            if k == depth {
                assert(false);
            }
        }
        let ghost old_path = self.path@;
        self.path.set(k, carry);
        self.tree_size = self.tree_size + 1;
        proof {
            assert(shr(p, (k + 1) as nat) == shr(n, (k + 1) as nat));
            if old(self).tracks(frontier.config, leaves) {
                assert forall|j: int| 0 <= j < depth implies #[trigger] self.path@[j]@ == node_at(
                    pz, e0,
                    new_leaves,
                    j as nat,
                    sibling(shr(p, j as nat)),
                ) by {
                    if j < k {
                        assert(shr(p, j as nat) / 2 != shr(n, j as nat) / 2);
                        lemma_push_unchanged(pz, e0, leaves, leaf@, j as nat, sibling(shr(p, j as nat)));
                    } else if j > k {
                        lemma_shr_agree(p, n, (k + 1) as nat, j as nat);
                        lemma_push_unchanged(pz, e0, leaves, leaf@, j as nat, sibling(shr(p, j as nat)));
                    }
                }
            }
        }
        Ok(())
    }

    /// Freezes the anchor: stores the root that the path leads to, with the size and the
    /// pending subtrees of the tree that `frontier` stands for.
    pub fn capture_anchor(&mut self, frontier: &Frontier) -> (r: Result<(), WitnessError>)
        requires
            frontier.wf(),
        ensures
            old(self).path@.len() != frontier.depth() ==> r == Err::<(), WitnessError>(
                WitnessError::LengthMismatch,
            ),
            old(self).path@.len() == frontier.depth() && old(self).tree_size
                != frontier.leaf_count ==> r == Err::<(), WitnessError>(
                WitnessError::InconsistentAppendOrder,
            ),
            r is Err ==> *final(self) == *old(self),
            r is Ok ==> final(self).anchor@ == old(self).anchor_spec(frontier.pz())
                && final(self).anchor_tree_size == frontier.leaf_count
                && final(self).anchor_frontier@ == pending(frontier.levels@),
            r is Ok && old(self).tracks(frontier.config, frontier.leaves@) ==> final(self).captured_from(
                *frontier,
            ),
            old(self).path@.len() == frontier.depth() && old(self).tree_size == frontier.leaf_count
                ==> r is Ok,
            final(self).commitment == old(self).commitment,
            final(self).position == old(self).position,
            final(self).path == old(self).path,
            final(self).tree_size == old(self).tree_size,
    {
        if self.path.len() != frontier.config.depth as usize {
            return Err(WitnessError::LengthMismatch);
        }
        if self.tree_size != frontier.leaf_count {
            return Err(WitnessError::InconsistentAppendOrder);
        }
        self.anchor = self.anchor(&frontier.config);
        self.anchor_tree_size = frontier.leaf_count;
        self.anchor_frontier = frontier.snapshot();
        proof {
            if old(self).tracks(frontier.config, frontier.leaves@) {
                lemma_witness_anchor_is_root(*old(self), frontier.config, frontier.leaves@);
            }
        }
        Ok(())
    }

    /// Recomputes the root from the commitment and the path, combining with the hash of
    /// `config`.
    pub fn anchor(&self, config: &TreeConfig) -> (r: HashNode)
        requires
            self.path@.len() <= 64,
        ensures
            r@ == self.anchor_spec(config.pz()),
    {
        let mut cur: HashNode = self.commitment;
        let mut k: usize = 0;
        let mut idx: u64 = self.position;
        while k < self.path.len()
            invariant
                self.path@.len() <= 64,
                k <= self.path@.len(),
                idx as nat == shr(self.position as nat, k as nat),
                cur@ == auth_root(config.pz(), self.commitment@, self.position as nat, self.path@.take(k as int)),
            decreases self.path@.len() - k,
        {
            assert(self.path@.take(k + 1).drop_last() == self.path@.take(k as int));
            if idx % 2 == 0 {
                cur = combine(&config.personalization, k as u8, &cur, &self.path[k]);
            } else {
                cur = combine(&config.personalization, k as u8, &self.path[k], &cur);
            }
            idx = idx / 2;
            k = k + 1;
        }
        assert(self.path@.take(k as int) == self.path@);
        cur
    }
}

/// A witness that reflects a tree leads, from its commitment through its path, to the
/// root of that tree.
pub proof fn lemma_witness_anchor_is_root(w: Witness, config: TreeConfig, leaves: Seq<Seq<u8>>)
    requires
        w.tracks(config, leaves),
    ensures
        w.anchor_spec(config.pz()) == tree_root(config.pz(),config.empty_leaf(), config.depth as nat, leaves),
{
    let p = w.position as nat;
    let pz = config.pz();
    let e0 = config.empty_leaf();
    let d = config.depth as nat;
    assert forall|k: nat| k <= d implies auth_root(pz, w.commitment@, p, #[trigger] w.path@.take(k as int))
        == node_at(pz, e0, leaves, k, shr(p, k)) by {
        lemma_auth_prefix(w, config, leaves, k);
    }
    assert(w.path@.take(d as int) == w.path@);
    lemma_shr_below_capacity(p, d);
}

/// A captured anchor stays the root of the first `anchor_tree_size` leaves however many
/// leaves are appended afterwards: replaying that prefix of the history gives it again.
pub proof fn lemma_anchor_stable(
    before: Witness,
    after: Witness,
    frontier: Frontier,
    later: Seq<Seq<u8>>,
)
    requires
        frontier.wf(),
        before.tracks(frontier.config, frontier.leaves@),
        after.anchor@ == before.anchor_spec(frontier.pz()),
        after.anchor_tree_size == frontier.leaf_count,
    ensures
        after.anchor@ == tree_root(
            frontier.config.pz(),
            frontier.config.empty_leaf(),
            frontier.config.depth as nat,
            (frontier.leaves@ + later).take(after.anchor_tree_size as int),
        ),
{
    lemma_witness_anchor_is_root(before, frontier.config, frontier.leaves@);
    assert((frontier.leaves@ + later).take(after.anchor_tree_size as int) =~= frontier.leaves@);
}

/// Replaying the leaf history up to the captured tree size gives back the captured
/// triple: a frontier of that size, whose root is the anchor and whose pending subtrees
/// are the captured ones.
pub proof fn lemma_anchor_replay(w: Witness, captured: Frontier, history: Seq<Seq<u8>>, replayed: Frontier)
    requires
        captured.wf(),
        w.captured_from(captured),
        captured.leaves@ == history.take(w.anchor_tree_size as int),
        replayed.wf(),
        replayed.config == captured.config,
        replayed.leaves@ == history.take(w.anchor_tree_size as int),
    ensures
        replayed.root_spec() == w.anchor@,
        replayed.leaf_count == w.anchor_tree_size,
        pending(replayed.levels@).len() == w.anchor_frontier@.len(),
        forall|i: int|
            0 <= i < w.anchor_frontier@.len() ==> (#[trigger] pending(replayed.levels@)[i])@
                == w.anchor_frontier@[i]@,
{
    assert forall|k: int| 0 <= k < replayed.levels@.len() implies (#[trigger] replayed.levels@[k]
        is Some <==> captured.levels@[k] is Some) && (replayed.levels@[k] is Some
        ==> replayed.levels@[k]->0@ == captured.levels@[k]->0@) by {
        assert(replayed.level_ok(k));
        assert(captured.level_ok(k));
    }
    lemma_pending_views(replayed.levels@, captured.levels@);
}

/// Two level arrays that hold the same node values have the same pending subtrees.
proof fn lemma_pending_views(a: Seq<Option<HashNode>>, b: Seq<Option<HashNode>>)
    requires
        a.len() == b.len(),
        forall|k: int|
            0 <= k < a.len() ==> (#[trigger] a[k] is Some <==> b[k] is Some) && (a[k] is Some
                ==> a[k]->0@ == b[k]->0@),
    ensures
        pending(a).len() == pending(b).len(),
        forall|i: int| 0 <= i < pending(a).len() ==> (#[trigger] pending(a)[i])@ == pending(b)[i]@,
    decreases a.len(),
{
    if a.len() > 0 {
        let n = a.len() - 1;
        assert forall|k: int| 0 <= k < a.drop_last().len() implies (#[trigger] a.drop_last()[k] is Some
            <==> b.drop_last()[k] is Some) && (a.drop_last()[k] is Some ==> a.drop_last()[k]->0@
            == b.drop_last()[k]->0@) by {
            assert(a.drop_last()[k] == a[k]);
            assert(b.drop_last()[k] == b[k]);
        }
        lemma_pending_views(a.drop_last(), b.drop_last());
        assert(a[n] is Some <==> b[n] is Some);
    }
}

proof fn lemma_auth_prefix(w: Witness, config: TreeConfig, leaves: Seq<Seq<u8>>, k: nat)
    requires
        w.tracks(config, leaves),
        k <= config.depth,
    ensures
        auth_root(config.pz(), w.commitment@, w.position as nat, w.path@.take(k as int)) == node_at(
            config.pz(),
            config.empty_leaf(),
            leaves,
            k,
            shr(w.position as nat, k),
        ),
    decreases k,
{
    if k > 0 {
        let j = (k - 1) as nat;
        lemma_auth_prefix(w, config, leaves, j);
        assert(w.path@.take(k as int).drop_last() == w.path@.take(j as int));
        let i = shr(w.position as nat, j);
        assert(shr(w.position as nat, k) == i / 2);
        assert(w.path@[j as int]@ == node_at(config.pz(),config.empty_leaf(), leaves, j, sibling(i)));
    }
}

} // verus!
