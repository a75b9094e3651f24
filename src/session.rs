use vstd::prelude::*;

use crate::error::WitnessError;
use crate::frontier::Frontier;
use crate::node::HashNode;
use crate::witness::{lemma_witness_anchor_is_root, Witness};

verus! {

/// Every witness of `ws` reflects the tree whose frontier is `frontier`.
pub open spec fn all_track(ws: Seq<Witness>, frontier: Frontier) -> bool {
    forall|i: int| 0 <= i < ws.len() ==> #[trigger] ws[i].tracks(frontier.config, frontier.leaves@)
}

/// However many leaves a tree has taken, within its capacity, the witness of each of them
/// that has taken in every later leaf leads to the root computed from the whole leaf list.
pub proof fn lemma_all_anchors_are_root(ws: Seq<Witness>, frontier: Frontier)
    requires
        frontier.wf(),
        all_track(ws, frontier),
    ensures
        forall|i: int| 0 <= i < ws.len() ==> (#[trigger] ws[i]).anchor_spec(frontier.pz()) == frontier.root_spec(),
{
    assert forall|i: int| 0 <= i < ws.len() implies (#[trigger] ws[i]).anchor_spec(frontier.pz()) == frontier.root_spec() by {
        lemma_witness_anchor_is_root(ws[i], frontier.config, frontier.leaves@);
    }
}

/// Every witness of `ws` is ready for the next leaf of `frontier`'s tree.
pub open spec fn all_in_step(ws: Seq<Witness>, frontier: Frontier) -> bool {
    forall|i: int|
        0 <= i < ws.len() ==> (#[trigger] ws[i]).path@.len() == frontier.depth() && ws[i].tree_size
            == frontier.leaf_count && ws[i].position < ws[i].tree_size
}

/// Whether every witness is ready for the next leaf of `frontier`'s tree.
fn check_in_step(frontier: &Frontier, witnesses: &Vec<Witness>) -> (r: bool)
    ensures
        r == all_in_step(witnesses@, *frontier),
{
    let depth = frontier.config.depth as usize;
    let mut i: usize = 0;
    while i < witnesses.len()
        invariant
            depth == frontier.depth(),
            i <= witnesses@.len(),
            forall|j: int|
                0 <= j < i ==> (#[trigger] witnesses@[j]).path@.len() == frontier.depth()
                    && witnesses@[j].tree_size == frontier.leaf_count && witnesses@[j].position
                    < witnesses@[j].tree_size,
        decreases witnesses@.len() - i,
    {
        let w = &witnesses[i];
        if w.path.len() != depth || w.tree_size != frontier.leaf_count || w.position >= w.tree_size {
            return false;
        }
        i = i + 1;
    }
    true
}

/// Appends `leaf` to the tree and brings every witness of `witnesses` up to date with it.
/// Nothing changes where the tree is full or a witness is not at the tree's current size.
pub fn append_leaf(frontier: &mut Frontier, witnesses: &mut Vec<Witness>, leaf: &HashNode) -> (r: Result<(), WitnessError>)
    requires
        old(frontier).wf(),
    ensures
        final(frontier).wf(),
        final(frontier).config == old(frontier).config,
        !all_in_step(old(witnesses)@, *old(frontier)) ==> r == Err::<(), WitnessError>(
            WitnessError::InconsistentAppendOrder,
        ),
        all_in_step(old(witnesses)@, *old(frontier)) && old(frontier).leaf_count
            == old(frontier).config.capacity ==> r == Err::<(), WitnessError>(WitnessError::TreeFull),
        r is Err ==> *final(frontier) == *old(frontier) && final(witnesses)@ == old(witnesses)@,
        all_in_step(old(witnesses)@, *old(frontier)) && old(frontier).leaf_count
            < old(frontier).config.capacity ==> r is Ok,
        r is Ok ==> final(frontier).leaves@ == old(frontier).leaves@.push(leaf@),
        final(witnesses)@.len() == old(witnesses)@.len(),
        forall|i: int|
            0 <= i < old(witnesses)@.len() ==> (#[trigger] final(witnesses)@[i]).commitment
                == old(witnesses)@[i].commitment && final(witnesses)@[i].position == old(
                witnesses,
            )@[i].position,
        r is Ok && all_track(old(witnesses)@, *old(frontier)) ==> all_track(
            final(witnesses)@,
            *final(frontier),
        ),
{
    if !check_in_step(frontier, witnesses) {
        return Err(WitnessError::InconsistentAppendOrder);
    }
    if frontier.leaf_count == frontier.config.capacity {
        return Err(WitnessError::TreeFull);
    }
    let ghost old_ws = witnesses@;
    let ghost leaves = frontier.leaves@;
    let mut i: usize = 0;
    while i < witnesses.len()
        invariant
            frontier.wf(),
            frontier == old(frontier),
            frontier.leaf_count < frontier.config.capacity,
            leaves == frontier.leaves@,
            witnesses@.len() == old_ws.len(),
            old_ws == old(witnesses)@,
            all_in_step(old_ws, *frontier),
            i <= witnesses@.len(),
            forall|j: int|
                i <= j < witnesses@.len() ==> #[trigger] witnesses@[j] == old_ws[j],
            forall|j: int|
                0 <= j < i ==> (#[trigger] witnesses@[j]).commitment == old_ws[j].commitment
                    && witnesses@[j].position == old_ws[j].position && (old_ws[j].tracks(
                    frontier.config,
                    leaves,
                ) ==> witnesses@[j].tracks(frontier.config, leaves.push(leaf@))),
        decreases witnesses@.len() - i,
    {
        assert(old_ws[i as int].path@.len() == frontier.depth());
        let mut w = witnesses.remove(i);
        let res = w.extend(frontier, leaf);
        assert(res is Ok);
        witnesses.insert(i, w);
        proof {
            assert forall|j: int| i < j < witnesses@.len() implies #[trigger] witnesses@[j] == old_ws[j] by {}
        }
        i = i + 1;
    }
    let appended = frontier.append(leaf);
    assert(appended is Ok);
    Ok(())
}

/// Appends the commitment of a note of the wallet: every witness of `witnesses` takes it
/// in, and a new witness for it joins them at the end.
pub fn append_note(frontier: &mut Frontier, witnesses: &mut Vec<Witness>, commitment: &HashNode) -> (r: Result<(), WitnessError>)
    requires
        old(frontier).wf(),
    ensures
        final(frontier).wf(),
        final(frontier).config == old(frontier).config,
        !all_in_step(old(witnesses)@, *old(frontier)) ==> r == Err::<(), WitnessError>(
            WitnessError::InconsistentAppendOrder,
        ),
        all_in_step(old(witnesses)@, *old(frontier)) && old(frontier).leaf_count
            == old(frontier).config.capacity ==> r == Err::<(), WitnessError>(WitnessError::TreeFull),
        r is Err ==> *final(frontier) == *old(frontier) && final(witnesses)@ == old(witnesses)@,
        all_in_step(old(witnesses)@, *old(frontier)) && old(frontier).leaf_count
            < old(frontier).config.capacity ==> r is Ok,
        r is Ok ==> final(frontier).leaves@ == old(frontier).leaves@.push(commitment@)
            && final(witnesses)@.len() == old(witnesses)@.len() + 1
            && final(witnesses)@.last().commitment == *commitment
            && final(witnesses)@.last().position == old(frontier).leaf_count,
        r is Ok && all_track(old(witnesses)@, *old(frontier)) ==> all_track(
            final(witnesses)@,
            *final(frontier),
        ),
{
    if !check_in_step(frontier, witnesses) {
        return Err(WitnessError::InconsistentAppendOrder);
    }
    let w = match Witness::new(frontier, commitment) {
        Ok(w) => w,
        Err(e) => return Err(e),
    };
    let ghost before = witnesses@;
    let res = append_leaf(frontier, witnesses, commitment);
    assert(res is Ok);
    witnesses.push(w);
    proof {
        if all_track(before, *old(frontier)) {
            assert forall|i: int| 0 <= i < witnesses@.len() implies #[trigger] witnesses@[i].tracks(
                frontier.config,
                frontier.leaves@,
            ) by {
                if i < before.len() {
                    assert(witnesses@[i] == witnesses@.drop_last()[i]);
                }
            }
        }
    }
    Ok(())
}

} // verus!
