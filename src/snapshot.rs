use vstd::prelude::*;

use crate::error::WitnessError;
use crate::frontier::{pending, Frontier};
use crate::node::{combine, combine_spec, HashNode};
use crate::witness::Witness;
use crate::tree::{empty_root, lemma_empty_beyond, lemma_shr_below_capacity, node_at, shr, TreeConfig};

verus! {

/// The number of levels below `k` at which a tree of `n` leaves has a pending subtree.
pub open spec fn pending_count(n: nat, k: nat) -> nat
    decreases k,
{
    if k == 0 {
        0
    } else {
        pending_count(n, (k - 1) as nat) + if shr(n, (k - 1) as nat) % 2 == 1 {
            1nat
        } else {
            0nat
        }
    }
}

/// The levels `0..count` of a tree of `n` leaves whose pending subtrees, lowest first,
/// are `ommers`.
pub open spec fn unpacked(n: nat, ommers: Seq<HashNode>, count: nat) -> Seq<Option<HashNode>> {
    Seq::new(
        count,
        |k: int|
            if shr(n, k as nat) % 2 == 1 {
                Some(ommers[pending_count(n, k as nat) as int])
            } else {
                None
            },
    )
}

/// The node at `level` above the next free position of a tree of `n` leaves, from its
/// pending subtrees `levels` and empty placeholders.
pub open spec fn climb(pz: Seq<u8>, e0: Seq<u8>, n: nat, levels: Seq<Option<HashNode>>, level: nat) -> Seq<u8>
    decreases level,
{
    if level == 0 {
        e0
    } else {
        let k = (level - 1) as nat;
        let below = climb(pz, e0, n, levels, k);
        if shr(n, k) % 2 == 1 {
            combine_spec(pz, k, levels[k as int]->0@, below)
        } else {
            combine_spec(pz, k, below, empty_root(pz, e0, k))
        }
    }
}

/// The root of a tree of `config` with `n` leaves whose pending subtrees are `levels`.
pub open spec fn levels_root(config: TreeConfig, n: nat, levels: Seq<Option<HashNode>>) -> Seq<u8> {
    if n == config.capacity {
        levels[config.depth as int]->0@
    } else {
        climb(config.pz(),config.empty_leaf(), n, levels, config.depth as nat)
    }
}

proof fn lemma_pending_count_mono(n: nat, k: nat, j: nat)
    requires
        k <= j,
    ensures
        pending_count(n, k) <= pending_count(n, j),
    decreases j,
{
    if j > k {
        lemma_pending_count_mono(n, k, (j - 1) as nat);
    }
}

proof fn lemma_climb(f: Frontier, k: nat)
    requires
        f.wf(),
        f.leaf_count < f.config.capacity,
        k <= f.depth(),
    ensures
        climb(f.pz(),f.e0(), f.leaf_count as nat, f.levels@, k) == node_at(
            f.pz(),
            f.e0(),
            f.leaves@,
            k,
            shr(f.leaf_count as nat, k),
        ),
    decreases k,
{
    let n = f.leaf_count as nat;
    if k > 0 {
        let j = (k - 1) as nat;
        lemma_climb(f, j);
        assert(f.level_ok(j as int));
        let i = shr(n, j);
        assert(shr(n, k) == i / 2);
        if i % 2 == 0 {
            lemma_empty_beyond(f.pz(), f.e0(), f.leaves@, n, j, i + 1);
        }
    }
}

/// The pending subtrees below `k` come first among all of them.
proof fn lemma_pending_index(levels: Seq<Option<HashNode>>, k: int)
    requires
        0 <= k < levels.len(),
        levels[k] is Some,
    ensures
        pending(levels.take(k)).len() < pending(levels).len(),
        pending(levels)[pending(levels.take(k)).len() as int] == levels[k]->0,
    decreases levels.len(),
{
    let init = levels.drop_last();
    if k == levels.len() - 1 {
        assert(levels.take(k) == init);
    } else {
        assert(init.take(k) == levels.take(k));
        lemma_pending_index(init, k);
    }
}

proof fn lemma_pending_prefix_len(f: Frontier, k: nat)
    requires
        f.wf(),
        k <= f.depth() + 1,
    ensures
        pending(f.levels@.take(k as int)).len() == pending_count(f.leaf_count as nat, k),
    decreases k,
{
    if k > 0 {
        let j = (k - 1) as nat;
        lemma_pending_prefix_len(f, j);
        assert(f.levels@.take(k as int).drop_last() == f.levels@.take(j as int));
        assert(f.level_ok(j as int));
    }
}

/// The pending subtrees of a frontier, unpacked by the bits of its leaf count, give its
/// levels back; so the root recomputed from a snapshot is the frontier's root.
pub proof fn lemma_snapshot_root(f: Frontier)
    requires
        f.wf(),
    ensures
        pending(f.levels@).len() == pending_count(f.leaf_count as nat, f.depth() + 1),
        unpacked(f.leaf_count as nat, pending(f.levels@), f.depth() + 1) == f.levels@,
        levels_root(f.config, f.leaf_count as nat, f.levels@) == f.root_spec(),
{
    let n = f.leaf_count as nat;
    let d = f.depth();
    lemma_pending_prefix_len(f, d + 1);
    assert(f.levels@.take((d + 1) as int) == f.levels@);
    let u = unpacked(n, pending(f.levels@), d + 1);
    assert forall|k: int| 0 <= k < d + 1 implies #[trigger] u[k] == f.levels@[k] by {
        assert(f.level_ok(k));
        if f.levels@[k] is Some {
            lemma_pending_index(f.levels@, k);
            lemma_pending_prefix_len(f, k as nat);
        }
    }
    assert(u =~= f.levels@);
    lemma_shr_below_capacity(n, d);
    if n == f.config.capacity {
        assert(f.level_ok(d as int));
    } else {
        lemma_climb(f, d);
    }
}

/// The captured tree size and frontier of a witness are enough to recompute its anchor:
/// `snapshot_root` on them succeeds and returns it.
pub proof fn lemma_captured_snapshot(w: Witness, f: Frontier)
    requires
        f.wf(),
        w.captured_from(f),
    ensures
        w.anchor_tree_size <= f.config.capacity,
        w.anchor_frontier@.len() == pending_count(w.anchor_tree_size as nat, f.depth() + 1),
        levels_root(
            f.config,
            w.anchor_tree_size as nat,
            unpacked(w.anchor_tree_size as nat, w.anchor_frontier@, f.depth() + 1),
        ) == w.anchor@,
{
    lemma_snapshot_root(f);
}

/// Recomputes a root from a persisted frontier: a tree size and its pending subtrees,
/// lowest level first.
pub fn snapshot_root(config: &TreeConfig, tree_size: u64, ommers: &Vec<HashNode>) -> (r: Result<HashNode, WitnessError>)
    requires
        config.wf(),
    ensures
        tree_size > config.capacity || ommers@.len() != pending_count(tree_size as nat, (config.depth + 1) as nat)
            ==> r == Err::<HashNode, WitnessError>(WitnessError::LengthMismatch),
        tree_size <= config.capacity && ommers@.len() == pending_count(tree_size as nat, (config.depth + 1) as nat)
            ==> (r matches Ok(h) && h@ == levels_root(
            *config,
            tree_size as nat,
            unpacked(tree_size as nat, ommers@, (config.depth + 1) as nat),
        )),
{
    if tree_size > config.capacity {
        return Err(WitnessError::LengthMismatch);
    }
    let depth = config.depth as usize;
    let ghost n = tree_size as nat;
    let ghost u = unpacked(n, ommers@, (depth + 1) as nat);
    let mut levels: Vec<Option<HashNode>> = Vec::new();
    let mut used: usize = 0;
    let mut k: usize = 0;
    let mut idx: u64 = tree_size;
    while k <= depth
        invariant
            config.wf(),
            depth == config.depth,
            k <= depth + 1,
            idx as nat == shr(n, k as nat),
            used as nat == pending_count(n, k as nat),
            used <= ommers@.len(),
            levels@.len() == k,
            u == unpacked(n, ommers@, (depth + 1) as nat),
            u.len() == depth + 1,
            n == tree_size,
            forall|j: int| 0 <= j < k ==> #[trigger] levels@[j] == u[j],
        decreases depth + 1 - k,
    {
        assert(pending_count(n, (k + 1) as nat) == pending_count(n, k as nat) + if shr(n, k as nat) % 2
            == 1 {
            1nat
        } else {
            0nat
        });
        if idx % 2 == 1 {
            if used >= ommers.len() {
                proof {
                    lemma_pending_count_mono(n, (k + 1) as nat, (depth + 1) as nat);
                    assert(pending_count(n, (k + 1) as nat) == used + 1);
                    assert(ommers@.len() != pending_count(tree_size as nat, (config.depth + 1) as nat));
                }
                return Err(WitnessError::LengthMismatch);
            }
            levels.push(Some(ommers[used]));
            used = used + 1;
        } else {
            levels.push(None);
        }
        idx = idx / 2;
        k = k + 1;
    }
    if used != ommers.len() {
        return Err(WitnessError::LengthMismatch);
    }
    assert(levels@ =~= u);
    proof {
        lemma_shr_below_capacity(n, depth as nat);
    }
    if tree_size == config.capacity {
        return Ok(levels[depth].unwrap());
    }
    let ghost pz = config.pz();
    let ghost e0 = config.empty_leaf();
    let mut cur: HashNode = config.empty_roots[0];
    let mut k: usize = 0;
    let mut idx: u64 = tree_size;
    while k < depth
        invariant
            config.wf(),
            depth == config.depth,
            e0 == config.empty_leaf(),
            pz == config.pz(),
            levels@ == u,
            levels@.len() == depth + 1,
            k <= depth,
            idx as nat == shr(n, k as nat),
            cur@ == climb(pz, e0, n, u, k as nat),
            u == unpacked(n, ommers@, (depth + 1) as nat),
        decreases depth - k,
    {
        if idx % 2 == 1 {
            assert(u[k as int] is Some);
            let o = levels[k].unwrap();
            cur = combine(&config.personalization, k as u8, &o, &cur);
        } else {
            assert(config.empty_roots@[k as int]@ == empty_root(pz, e0, k as nat));
            let e = config.empty_roots[k];
            cur = combine(&config.personalization, k as u8, &cur, &e);
        }
        idx = idx / 2;
        k = k + 1;
    }
    Ok(cur)
}

} // verus!
