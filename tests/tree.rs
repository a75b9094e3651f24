use zewif::node::{combine, hash_node_from_bytes};
use zewif::record::{decode_witness, encode_witness};
use zewif::session::{append_leaf, append_note};
use zewif::snapshot::snapshot_root;
use zewif::{
    Assertion, Frontier, HashNode, RecordValue, SaplingWitness, TreeConfig, Witness, WitnessError,
};

fn leaf(i: u8) -> HashNode {
    let mut h = [0u8; 32];
    h[0] = i;
    h[31] = 0xee;
    h
}

fn pz() -> Vec<u8> {
    b"test pool".to_vec()
}

fn h(level: u8, left: &HashNode, right: &HashNode) -> HashNode {
    combine(&pz(), level, left, right)
}

fn cfg(depth: u8) -> TreeConfig {
    TreeConfig::new(depth, empty_leaf(), pz())
}

fn empty_leaf() -> HashNode {
    [0u8; 32]
}

/// The root of the tree of `depth` levels over `leaves`, computed level by level.
fn direct_root(depth: u8, leaves: &[HashNode]) -> HashNode {
    let width = 1usize << depth;
    let mut level: Vec<HashNode> = (0..width)
        .map(|i| if i < leaves.len() { leaves[i] } else { empty_leaf() })
        .collect();
    for k in 0..depth {
        level = level.chunks(2).map(|p| h(k, &p[0], &p[1])).collect();
    }
    level[0]
}

/// Appends `leaves` in order, keeping a witness for every one of them.
fn grow(depth: u8, leaves: &[HashNode]) -> (Frontier, Vec<Witness>) {
    let mut frontier = Frontier::new(cfg(depth));
    let mut witnesses: Vec<Witness> = Vec::new();
    for l in leaves {
        for w in witnesses.iter_mut() {
            w.extend(&frontier, l).unwrap();
        }
        witnesses.push(Witness::new(&frontier, l).unwrap());
        frontier.append(l).unwrap();
    }
    (frontier, witnesses)
}

#[test]
fn combine_is_domain_separated_sha256() {
    assert_eq!(
        hex::encode(combine(&Vec::new(), 0, &[0u8; 32], &[0u8; 32])),
        "98ce42deef51d40269d542f5314bef2c7468d401ad5d85168bfab4c0108f75f7"
    );
    assert_eq!(
        hex::encode(combine(&Vec::new(), 0, &[1u8; 32], &[2u8; 32])),
        "32fb2d4416067c5bff06423e18714ad3884365d7b816d34a77b33527d8438624"
    );
    assert_eq!(
        hex::encode(combine(&Vec::new(), 5, &[1u8; 32], &[2u8; 32])),
        "72babeb8b79672baeef20928df7cbc3d85bdfc29f60d61663cc66ca3c8de7c63"
    );
    assert_eq!(
        hex::encode(combine(&b"pool-a".to_vec(), 0, &[1u8; 32], &[2u8; 32])),
        "7664e9eb6016ebcb623b9b8967ce06706264374e577722dc8ab88f98447a09b0"
    );
}

#[test]
fn config_empty_roots_chain() {
    let c = cfg(3);
    assert_eq!(c.capacity, 8);
    assert_eq!(c.empty_roots.len(), 4);
    assert_eq!(c.empty_roots[0], empty_leaf());
    for k in 0..3u8 {
        let e = c.empty_roots[k as usize];
        assert_eq!(c.empty_roots[k as usize + 1], h(k, &e, &e));
    }
    let empty = Frontier::new(c);
    assert_eq!(empty.root(), direct_root(3, &[]));
}

#[test]
fn every_witness_anchor_equals_direct_root() {
    for depth in 1..=4u8 {
        let n = 1usize << depth;
        for count in 1..=n {
            let leaves: Vec<HashNode> = (0..count as u8).map(leaf).collect();
            let (frontier, witnesses) = grow(depth, &leaves);
            let root = direct_root(depth, &leaves);
            assert_eq!(frontier.root(), root);
            assert_eq!(frontier.leaf_count(), count as u64);
            for (i, w) in witnesses.iter().enumerate() {
                assert_eq!(w.position, i as u64);
                assert_eq!(w.path.len(), depth as usize);
                assert_eq!(w.anchor(&cfg(depth)), root, "depth {} count {} leaf {}", depth, count, i);
            }
        }
    }
}

#[test]
fn boundary_last_append_succeeds_then_tree_full() {
    let leaves: Vec<HashNode> = (0..4u8).map(leaf).collect();
    let (mut frontier, mut witnesses) = grow(2, &leaves[..3]);
    assert_eq!(frontier.append(&leaves[3]), Ok(()));
    assert_eq!(frontier.leaf_count(), 4);
    let before = frontier.root();
    assert_eq!(frontier.append(&leaf(9)), Err(WitnessError::TreeFull));
    assert_eq!(frontier.root(), before);
    assert_eq!(frontier.leaf_count(), 4);
    assert_eq!(Witness::new(&frontier, &leaf(9)).unwrap_err(), WitnessError::TreeFull);
    let w = &mut witnesses[0];
    let mut f3 = grow(2, &leaves[..3]).0;
    w.extend(&f3, &leaves[3]).unwrap();
    f3.append(&leaves[3]).unwrap();
    assert_eq!(w.extend(&f3, &leaf(9)), Err(WitnessError::TreeFull));
}

#[test]
fn depth_two_full_tree_scenario() {
    let (a, b, c, d) = (leaf(1), leaf(2), leaf(3), leaf(4));
    let (frontier, witnesses) = grow(2, &[a, b, c, d]);
    let wa = &witnesses[0];
    assert_eq!(wa.path.len(), 2);
    let ab = h(0, &a, &b);
    let cd = h(0, &c, &d);
    let expected = h(1, &ab, &cd);
    assert_eq!(wa.path[0], b);
    assert_eq!(wa.path[1], cd);
    assert_eq!(wa.anchor(&cfg(2)), expected);
    assert_eq!(frontier.root(), expected);
}

#[test]
fn depth_two_half_tree_uses_empty_placeholder() {
    let (a, b) = (leaf(1), leaf(2));
    let (frontier, witnesses) = grow(2, &[a, b]);
    let e = empty_leaf();
    let empty_pair = h(0, &e, &e);
    let expected = h(1, &h(0, &a, &b), &empty_pair);
    let wa = &witnesses[0];
    assert_eq!(wa.path[1], empty_pair);
    assert_eq!(wa.anchor(&cfg(2)), expected);
    assert_eq!(frontier.root(), expected);
}

#[test]
fn captured_anchor_is_stable_under_later_appends() {
    let leaves: Vec<HashNode> = (0..7u8).map(leaf).collect();
    let (mut frontier, mut witnesses) = grow(3, &leaves[..3]);
    let mut w = witnesses.remove(1);
    w.capture_anchor(&frontier).unwrap();
    assert_eq!(w.anchor_tree_size, 3);
    assert_eq!(w.anchor, direct_root(3, &leaves[..3]));
    assert_eq!(w.anchor_frontier, frontier.snapshot());
    assert_eq!(w.anchor_frontier.len(), 2);
    for l in &leaves[3..] {
        w.extend(&frontier, l).unwrap();
        frontier.append(l).unwrap();
    }
    assert_eq!(w.anchor, direct_root(3, &leaves[..w.anchor_tree_size as usize]));
    assert_eq!(w.anchor(&cfg(3)), direct_root(3, &leaves));
    assert_ne!(w.anchor, w.anchor(&cfg(3)));
}

#[test]
fn out_of_order_leaf_is_refused() {
    let leaves: Vec<HashNode> = (0..3u8).map(leaf).collect();
    let (frontier, mut witnesses) = grow(3, &leaves);
    let mut w = witnesses.remove(0);
    let stale = grow(3, &leaves[..2]).0;
    let before = w.clone();
    assert_eq!(w.extend(&stale, &leaf(7)), Err(WitnessError::InconsistentAppendOrder));
    assert_eq!(w.path, before.path);
    assert_eq!(w.capture_anchor(&stale), Err(WitnessError::InconsistentAppendOrder));
    let other_depth = Frontier::new(cfg(4));
    assert_eq!(w.extend(&other_depth, &leaf(7)), Err(WitnessError::LengthMismatch));
    assert_eq!(w.extend(&frontier, &leaf(7)), Ok(()));
    assert_eq!(w.tree_size, 4);
}

#[test]
fn hash_length_is_checked() {
    assert_eq!(hash_node_from_bytes(&[1u8; 31]), Err(WitnessError::HashLengthMismatch));
    assert_eq!(hash_node_from_bytes(&[1u8; 33]), Err(WitnessError::HashLengthMismatch));
    assert_eq!(hash_node_from_bytes(&[7u8; 32]), Ok([7u8; 32]));
}

fn captured(depth: u8, count: u8, pos: usize) -> Witness {
    let leaves: Vec<HashNode> = (0..count).map(leaf).collect();
    let (frontier, witnesses) = grow(depth, &leaves);
    let mut w = witnesses[pos].clone();
    w.capture_anchor(&frontier).unwrap();
    w
}

fn same(a: &Witness, b: &Witness) -> bool {
    a.commitment == b.commitment
        && a.position == b.position
        && a.path == b.path
        && a.tree_size == b.tree_size
        && a.anchor == b.anchor
        && a.anchor_tree_size == b.anchor_tree_size
        && a.anchor_frontier == b.anchor_frontier
}

#[test]
fn record_round_trip_across_depths_and_positions() {
    for (depth, count, pos) in [(1u8, 2u8, 1usize), (3, 5, 0), (3, 8, 6), (4, 11, 10), (5, 3, 2)] {
        let w = captured(depth, count, pos);
        let rec = encode_witness(&w, "OrchardWitness").unwrap();
        assert_eq!(rec.type_tag, "OrchardWitness");
        assert_eq!(rec.subject, w.commitment);
        assert_eq!(rec.assertions.len(), 5);
        let back = decode_witness(&rec, "OrchardWitness", depth).unwrap();
        assert!(same(&back, &w));
    }
}

#[test]
fn sapling_witness_record_round_trip() {
    let leaves: Vec<HashNode> = (0..3u8).map(leaf).collect();
    let (frontier, witnesses) = grow(32, &leaves);
    let mut w = witnesses[1].clone();
    w.capture_anchor(&frontier).unwrap();
    assert_eq!(w.anchor, frontier.root());
    let sw = SaplingWitness(w.clone());
    let rec = sw.to_record().unwrap();
    assert_eq!(rec.type_tag, "SaplingWitness");
    let back = SaplingWitness::from_record(&rec).unwrap();
    assert!(same(&back.0, &w));
}

#[test]
fn record_decode_errors() {
    let w = captured(3, 4, 2);
    let rec = encode_witness(&w, "SaplingWitness").unwrap();
    assert_eq!(
        decode_witness(&rec, "OrchardWitness", 3).unwrap_err(),
        WitnessError::TypeMismatch
    );
    assert_eq!(
        decode_witness(&rec, "SaplingWitness", 4).unwrap_err(),
        WitnessError::LengthMismatch
    );
    let mut missing = rec.clone();
    missing.assertions.remove(2);
    assert_eq!(
        decode_witness(&missing, "SaplingWitness", 3).unwrap_err(),
        WitnessError::FieldMissing
    );
    let mut wrong_kind = rec.clone();
    wrong_kind.assertions[0] = Assertion {
        predicate: "note_position".to_string(),
        object: RecordValue::Hash([0u8; 32]),
    };
    assert_eq!(
        decode_witness(&wrong_kind, "SaplingWitness", 3).unwrap_err(),
        WitnessError::FieldMissing
    );
    let mut reordered = rec.clone();
    reordered.assertions.reverse();
    assert!(same(&decode_witness(&reordered, "SaplingWitness", 3).unwrap(), &w));
}

#[test]
fn session_keeps_every_note_witness_current() {
    let mut frontier = Frontier::new(cfg(3));
    let mut witnesses: Vec<Witness> = Vec::new();
    let mut leaves: Vec<HashNode> = Vec::new();
    for i in 0..8u8 {
        let l = leaf(i);
        leaves.push(l);
        if i % 3 == 0 {
            append_note(&mut frontier, &mut witnesses, &l).unwrap();
        } else {
            append_leaf(&mut frontier, &mut witnesses, &l).unwrap();
        }
        let root = direct_root(3, &leaves);
        assert_eq!(frontier.root(), root);
        for w in &witnesses {
            assert_eq!(w.anchor(&cfg(3)), root);
        }
    }
    assert_eq!(witnesses.len(), 3);
    assert_eq!(witnesses[2].position, 6);
    assert_eq!(
        append_leaf(&mut frontier, &mut witnesses, &leaf(9)),
        Err(WitnessError::TreeFull)
    );
    assert_eq!(
        append_note(&mut frontier, &mut witnesses, &leaf(9)),
        Err(WitnessError::TreeFull)
    );
}

#[test]
fn session_refuses_a_stale_witness_and_changes_nothing() {
    let (mut frontier, mut witnesses) = grow(3, &[leaf(1), leaf(2)]);
    let stale = Witness::new(&grow(3, &[]).0, &leaf(1)).unwrap();
    witnesses.push(stale);
    let root = frontier.root();
    assert_eq!(
        append_leaf(&mut frontier, &mut witnesses, &leaf(3)),
        Err(WitnessError::InconsistentAppendOrder)
    );
    assert_eq!(frontier.root(), root);
    assert_eq!(frontier.leaf_count(), 2);
    assert_eq!(witnesses[0].tree_size, 2);
}

#[test]
fn captured_frontier_recomputes_the_anchor() {
    for depth in 1..=4u8 {
        let cap = 1u8 << depth;
        for count in 1..=cap {
            let leaves: Vec<HashNode> = (0..count).map(leaf).collect();
            let (frontier, mut witnesses) = grow(depth, &leaves);
            let w = &mut witnesses[(count - 1) as usize];
            w.capture_anchor(&frontier).unwrap();
            let config = cfg(depth);
            assert_eq!(snapshot_root(&config, w.anchor_tree_size, &w.anchor_frontier), Ok(w.anchor));
            assert_eq!(w.anchor, direct_root(depth, &leaves));
        }
    }
}

#[test]
fn snapshot_with_wrong_shape_is_refused() {
    let config = cfg(3);
    let (frontier, _) = grow(3, &[leaf(1), leaf(2), leaf(3)]);
    let snap = frontier.snapshot();
    assert_eq!(snap.len(), 2);
    assert_eq!(snapshot_root(&config, 3, &snap), Ok(frontier.root()));
    assert_eq!(snapshot_root(&config, 4, &snap), Err(WitnessError::LengthMismatch));
    assert_eq!(snapshot_root(&config, 3, &snap[..1].to_vec()), Err(WitnessError::LengthMismatch));
    assert_eq!(snapshot_root(&config, 9, &vec![leaf(0)]), Err(WitnessError::LengthMismatch));
    assert_eq!(snapshot_root(&config, 0, &vec![]), Ok(direct_root(3, &[])));
}

#[test]
fn only_a_witness_at_its_anchor_is_persisted() {
    let leaves: Vec<HashNode> = (0..6u8).map(leaf).collect();
    let (mut frontier, mut witnesses) = grow(3, &leaves[..2]);
    let mut w = witnesses.remove(0);
    assert_eq!(encode_witness(&w, "SaplingWitness").unwrap_err(), WitnessError::StaleAnchor);
    w.capture_anchor(&frontier).unwrap();
    for l in &leaves[2..] {
        w.extend(&frontier, l).unwrap();
        frontier.append(l).unwrap();
    }
    assert_eq!(encode_witness(&w, "SaplingWitness").unwrap_err(), WitnessError::StaleAnchor);
    w.capture_anchor(&frontier).unwrap();
    let rec = encode_witness(&w, "SaplingWitness").unwrap();
    let back = decode_witness(&rec, "SaplingWitness", 3).unwrap();
    assert!(same(&back, &w));
    assert_eq!(back.tree_size, 6);
    assert_eq!(back.anchor(&cfg(3)), frontier.root());
}

#[test]
fn full_tree_last_leaf_round_trips() {
    let leaves: Vec<HashNode> = (0..8u8).map(leaf).collect();
    let w = captured(3, 8, 7);
    assert_eq!(w.anchor_tree_size, 8);
    assert_eq!(w.anchor, direct_root(3, &leaves));
    let rec = encode_witness(&w, "SaplingWitness").unwrap();
    assert!(same(&decode_witness(&rec, "SaplingWitness", 3).unwrap(), &w));
}

#[test]
fn record_sizes_are_checked() {
    let w = captured(3, 4, 2);
    let rec = encode_witness(&w, "SaplingWitness").unwrap();
    let set = |name: &str, v: u64| {
        let mut r = rec.clone();
        for a in r.assertions.iter_mut() {
            if a.predicate == name {
                a.object = RecordValue::Unsigned(v);
            }
        }
        r
    };
    assert_eq!(
        decode_witness(&set("anchor_tree_size", 9), "SaplingWitness", 3).unwrap_err(),
        WitnessError::TreeSizeOutOfRange
    );
    assert_eq!(
        decode_witness(&set("anchor_tree_size", 8), "SaplingWitness", 3).map(|d| d.anchor_tree_size),
        Ok(8)
    );
    assert_eq!(
        decode_witness(&set("anchor_tree_size", 2), "SaplingWitness", 3).unwrap_err(),
        WitnessError::PositionOutOfRange
    );
    assert_eq!(
        decode_witness(&set("anchor_tree_size", 0), "SaplingWitness", 3).unwrap_err(),
        WitnessError::PositionOutOfRange
    );
    assert_eq!(
        decode_witness(&set("note_position", 8), "SaplingWitness", 3).unwrap_err(),
        WitnessError::PositionOutOfRange
    );
    let mut bad = w.clone();
    bad.position = 4;
    bad.tree_size = 4;
    assert_eq!(encode_witness(&bad, "SaplingWitness").unwrap_err(), WitnessError::PositionOutOfRange);
    let mut big = w.clone();
    big.anchor_tree_size = 9;
    big.tree_size = 9;
    assert_eq!(encode_witness(&big, "SaplingWitness").unwrap_err(), WitnessError::TreeSizeOutOfRange);
}

#[test]
fn personalization_separates_pools() {
    let leaves: Vec<HashNode> = (0..3u8).map(leaf).collect();
    let mut a = Frontier::new(TreeConfig::new(3, empty_leaf(), b"pool-a".to_vec()));
    let mut b = Frontier::new(TreeConfig::new(3, empty_leaf(), b"pool-b".to_vec()));
    for l in &leaves {
        a.append(l).unwrap();
        b.append(l).unwrap();
    }
    assert_ne!(a.root(), b.root());
    assert_eq!(a.config.empty_roots[1], combine(&b"pool-a".to_vec(), 0, &empty_leaf(), &empty_leaf()));
}
