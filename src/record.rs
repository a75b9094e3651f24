use vstd::prelude::*;

use vstd::arithmetic::power2::pow2;

use crate::error::WitnessError;
use crate::node::HashNode;
use crate::tree::capacity_of;
use crate::witness::Witness;

verus! {

/// The object of one assertion of a record.
#[derive(Clone, Debug)]
pub enum RecordValue {
    Unsigned(u64),
    Hash(HashNode),
    Hashes(Vec<HashNode>),
}

/// One predicate/object pair of a record.
#[derive(Clone, Debug)]
pub struct Assertion {
    pub predicate: String,
    pub object: RecordValue,
}

/// A persisted witness: a typed subject (the note commitment) with ordered assertions.
#[derive(Clone, Debug)]
pub struct WitnessRecord {
    pub type_tag: String,
    pub subject: HashNode,
    pub assertions: Vec<Assertion>,
}

pub open spec fn note_position_key() -> Seq<char> {
    "note_position"@
}

pub open spec fn merkle_path_key() -> Seq<char> {
    "merkle_path"@
}

pub open spec fn anchor_key() -> Seq<char> {
    "anchor"@
}

pub open spec fn anchor_tree_size_key() -> Seq<char> {
    "anchor_tree_size"@
}

pub open spec fn anchor_frontier_key() -> Seq<char> {
    "anchor_frontier"@
}

/// The object of the first assertion at or after `i` whose predicate is `name`.
pub open spec fn lookup(assertions: Seq<Assertion>, name: Seq<char>, i: nat) -> Option<RecordValue>
    decreases assertions.len() - i,
{
    if i >= assertions.len() {
        None
    } else if assertions[i as int].predicate@ == name {
        Some(assertions[i as int].object)
    } else {
        lookup(assertions, name, i + 1)
    }
}

pub open spec fn unsigned_field(rec: WitnessRecord, name: Seq<char>) -> Option<u64> {
    match lookup(rec.assertions@, name, 0) {
        Some(RecordValue::Unsigned(v)) => Some(v),
        _ => None,
    }
}

pub open spec fn hash_field(rec: WitnessRecord, name: Seq<char>) -> Option<HashNode> {
    match lookup(rec.assertions@, name, 0) {
        Some(RecordValue::Hash(h)) => Some(h),
        _ => None,
    }
}

pub open spec fn hashes_field(rec: WitnessRecord, name: Seq<char>) -> Option<Seq<HashNode>> {
    match lookup(rec.assertions@, name, 0) {
        Some(RecordValue::Hashes(v)) => Some(v@),
        _ => None,
    }
}

/// Every field of the witness schema is present with a value of its kind.
pub open spec fn fields_present(rec: WitnessRecord) -> bool {
    &&& unsigned_field(rec, note_position_key()) is Some
    &&& hashes_field(rec, merkle_path_key()) is Some
    &&& hash_field(rec, anchor_key()) is Some
    &&& unsigned_field(rec, anchor_tree_size_key()) is Some
    &&& hashes_field(rec, anchor_frontier_key()) is Some
}

/// The path has one entry per level and the frontier at most one per level.
pub open spec fn lengths_fit(rec: WitnessRecord, depth: nat) -> bool {
    &&& hashes_field(rec, merkle_path_key())->0.len() == depth
    &&& hashes_field(rec, anchor_frontier_key())->0.len() <= depth
}

/// The anchor tree size fits the capacity of `depth` levels, and the note lies within it.
pub open spec fn sizes_fit(rec: WitnessRecord, depth: nat) -> bool {
    &&& unsigned_field(rec, anchor_tree_size_key())->0 <= pow2(depth)
    &&& unsigned_field(rec, note_position_key())->0 < unsigned_field(rec, anchor_tree_size_key())->0
}

/// A witness that can be persisted: its path is at its captured anchor, the note lies
/// within the anchored tree, and sizes and lengths fit the depth that the path gives.
pub open spec fn persistable(w: Witness) -> bool {
    &&& w.tree_size == w.anchor_tree_size
    &&& w.position < w.anchor_tree_size
    &&& w.path@.len() <= 63
    &&& w.anchor_frontier@.len() <= w.path@.len()
    &&& w.anchor_tree_size <= pow2(w.path@.len())
}

/// The error that encoding `w` meets first, if any.
pub open spec fn encode_witness_error(w: Witness) -> Option<WitnessError> {
    if w.tree_size != w.anchor_tree_size {
        Some(WitnessError::StaleAnchor)
    } else if w.position >= w.anchor_tree_size {
        Some(WitnessError::PositionOutOfRange)
    } else if w.path@.len() > 63 || w.anchor_frontier@.len() > w.path@.len() {
        Some(WitnessError::LengthMismatch)
    } else if w.anchor_tree_size > pow2(w.path@.len()) {
        Some(WitnessError::TreeSizeOutOfRange)
    } else {
        None
    }
}

/// The error that decoding `rec` as a witness typed `tag` of `depth` levels meets first,
/// if any.
pub open spec fn decode_error(rec: WitnessRecord, tag: Seq<char>, depth: nat) -> Option<WitnessError> {
    if rec.type_tag@ != tag {
        Some(WitnessError::TypeMismatch)
    } else if !fields_present(rec) {
        Some(WitnessError::FieldMissing)
    } else if !lengths_fit(rec, depth) {
        Some(WitnessError::LengthMismatch)
    } else if unsigned_field(rec, anchor_tree_size_key())->0 > pow2(depth) {
        Some(WitnessError::TreeSizeOutOfRange)
    } else if !sizes_fit(rec, depth) {
        Some(WitnessError::PositionOutOfRange)
    } else {
        None
    }
}

/// `w` holds what `rec` records. A record is written only for a witness at its anchor,
/// so the tree size that the path reflects is the anchor tree size.
pub open spec fn decoded_from(rec: WitnessRecord, w: Witness) -> bool {
    &&& w.commitment == rec.subject
    &&& unsigned_field(rec, note_position_key()) == Some(w.position)
    &&& hashes_field(rec, merkle_path_key()) == Some(w.path@)
    &&& hash_field(rec, anchor_key()) == Some(w.anchor)
    &&& unsigned_field(rec, anchor_tree_size_key()) == Some(w.anchor_tree_size)
    &&& hashes_field(rec, anchor_frontier_key()) == Some(w.anchor_frontier@)
    &&& w.tree_size == w.anchor_tree_size
}

/// `rec` is the record written for `w` under `tag`.
pub open spec fn encodes(rec: WitnessRecord, w: Witness, tag: Seq<char>) -> bool {
    &&& rec.type_tag@ == tag
    &&& rec.subject == w.commitment
    &&& rec.assertions@.len() == 5
    &&& rec.assertions@[0].predicate@ == note_position_key()
    &&& rec.assertions@[0].object == RecordValue::Unsigned(w.position)
    &&& rec.assertions@[1].predicate@ == merkle_path_key()
    &&& rec.assertions@[1].object matches RecordValue::Hashes(v) && v@ == w.path@
    &&& rec.assertions@[2].predicate@ == anchor_key()
    &&& rec.assertions@[2].object == RecordValue::Hash(w.anchor)
    &&& rec.assertions@[3].predicate@ == anchor_tree_size_key()
    &&& rec.assertions@[3].object == RecordValue::Unsigned(w.anchor_tree_size)
    &&& rec.assertions@[4].predicate@ == anchor_frontier_key()
    &&& rec.assertions@[4].object matches RecordValue::Hashes(v) && v@ == w.anchor_frontier@
}

fn copy_nodes(v: &Vec<HashNode>) -> (r: Vec<HashNode>)
    ensures
        r@ == v@,
{
    let mut r: Vec<HashNode> = Vec::new();
    let mut i: usize = 0;
    while i < v.len()
        invariant
            i <= v@.len(),
            r@ == v@.take(i as int),
        decreases v@.len() - i,
    {
        r.push(v[i]);
        assert(v@.take(i + 1) == v@.take(i as int).push(v@[i as int]));
        i = i + 1;
    }
    assert(v@.take(i as int) == v@);
    r
}

/// Writes the persisted fields of `w` into a record typed `tag`. Only a witness at its
/// captured anchor is written: the record holds no other tree size.
pub fn encode_witness(w: &Witness, tag: &str) -> (r: Result<WitnessRecord, WitnessError>)
    ensures
        r is Ok <==> persistable(*w),
        r matches Ok(rec) ==> encodes(rec, *w, tag@),
        w.tree_size != w.anchor_tree_size ==> r == Err::<WitnessRecord, WitnessError>(
            WitnessError::StaleAnchor,
        ),
        w.tree_size == w.anchor_tree_size && w.position >= w.anchor_tree_size ==> r == Err::<
            WitnessRecord,
            WitnessError,
        >(WitnessError::PositionOutOfRange),
        w.tree_size == w.anchor_tree_size && w.position < w.anchor_tree_size && (w.path@.len() > 63
            || w.anchor_frontier@.len() > w.path@.len()) ==> r == Err::<WitnessRecord, WitnessError>(
            WitnessError::LengthMismatch,
        ),
        w.tree_size == w.anchor_tree_size && w.position < w.anchor_tree_size && w.path@.len() <= 63
            && w.anchor_frontier@.len() <= w.path@.len() && w.anchor_tree_size > pow2(w.path@.len())
            ==> r == Err::<WitnessRecord, WitnessError>(WitnessError::TreeSizeOutOfRange),
{
    if w.tree_size != w.anchor_tree_size {
        return Err(WitnessError::StaleAnchor);
    }
    if w.position >= w.anchor_tree_size {
        return Err(WitnessError::PositionOutOfRange);
    }
    if w.path.len() > 63 || w.anchor_frontier.len() > w.path.len() {
        return Err(WitnessError::LengthMismatch);
    }
    if w.anchor_tree_size > capacity_of(w.path.len() as u8) {
        return Err(WitnessError::TreeSizeOutOfRange);
    }
    let mut assertions: Vec<Assertion> = Vec::new();
    assertions.push(Assertion {
        predicate: "note_position".to_owned(),
        object: RecordValue::Unsigned(w.position),
    });
    assertions.push(Assertion {
        predicate: "merkle_path".to_owned(),
        object: RecordValue::Hashes(copy_nodes(&w.path)),
    });
    assertions.push(Assertion { predicate: "anchor".to_owned(), object: RecordValue::Hash(w.anchor) });
    assertions.push(Assertion {
        predicate: "anchor_tree_size".to_owned(),
        object: RecordValue::Unsigned(w.anchor_tree_size),
    });
    assertions.push(Assertion {
        predicate: "anchor_frontier".to_owned(),
        object: RecordValue::Hashes(copy_nodes(&w.anchor_frontier)),
    });
    Ok(WitnessRecord { type_tag: tag.to_owned(), subject: w.commitment, assertions })
}

/// The index of the first assertion of `rec` whose predicate is `name`.
fn find_field(rec: &WitnessRecord, name: &str) -> (r: Option<usize>)
    ensures
        r is None ==> lookup(rec.assertions@, name@, 0) is None,
        r matches Some(i) ==> i < rec.assertions@.len() && lookup(rec.assertions@, name@, 0)
            == Some(rec.assertions@[i as int].object),
{
    let key = name.to_owned();
    let mut i: usize = 0;
    while i < rec.assertions.len()
        invariant
            i <= rec.assertions@.len(),
            key@ == name@,
            lookup(rec.assertions@, name@, 0) == lookup(rec.assertions@, name@, i as nat),
        decreases rec.assertions@.len() - i,
    {
        if rec.assertions[i].predicate == key {
            return Some(i);
        }
        i = i + 1;
    }
    None
}

fn unsigned_of(rec: &WitnessRecord, name: &str) -> (r: Option<u64>)
    ensures
        r == unsigned_field(*rec, name@),
{
    match find_field(rec, name) {
        Some(i) => match &rec.assertions[i].object {
            RecordValue::Unsigned(v) => Some(*v),
            _ => None,
        },
        None => None,
    }
}

fn hash_of(rec: &WitnessRecord, name: &str) -> (r: Option<HashNode>)
    ensures
        r == hash_field(*rec, name@),
{
    match find_field(rec, name) {
        Some(i) => match &rec.assertions[i].object {
            RecordValue::Hash(h) => Some(*h),
            _ => None,
        },
        None => None,
    }
}

fn hashes_of(rec: &WitnessRecord, name: &str) -> (r: Option<Vec<HashNode>>)
    ensures
        r is Some <==> hashes_field(*rec, name@) is Some,
        r matches Some(v) ==> hashes_field(*rec, name@) == Some(v@),
{
    match find_field(rec, name) {
        Some(i) => match &rec.assertions[i].object {
            RecordValue::Hashes(v) => Some(copy_nodes(v)),
            _ => None,
        },
        None => None,
    }
}

/// Reads a witness of a tree of `depth` levels back from a record typed `tag`, checking
/// each constraint of the schema in turn.
pub fn decode_witness(rec: &WitnessRecord, tag: &str, depth: u8) -> (r: Result<Witness, WitnessError>)
    requires
        depth <= 63,
    ensures
        rec.type_tag@ != tag@ ==> r == Err::<Witness, WitnessError>(WitnessError::TypeMismatch),
        rec.type_tag@ == tag@ && !fields_present(*rec) ==> r == Err::<Witness, WitnessError>(
            WitnessError::FieldMissing,
        ),
        rec.type_tag@ == tag@ && fields_present(*rec) && !lengths_fit(*rec, depth as nat) ==> r
            == Err::<Witness, WitnessError>(WitnessError::LengthMismatch),
        rec.type_tag@ == tag@ && fields_present(*rec) && lengths_fit(*rec, depth as nat)
            && unsigned_field(*rec, anchor_tree_size_key())->0 > pow2(depth as nat) ==> r == Err::<
            Witness,
            WitnessError,
        >(WitnessError::TreeSizeOutOfRange),
        rec.type_tag@ == tag@ && fields_present(*rec) && lengths_fit(*rec, depth as nat)
            && unsigned_field(*rec, anchor_tree_size_key())->0 <= pow2(depth as nat) && unsigned_field(
            *rec,
            note_position_key(),
        )->0 >= unsigned_field(*rec, anchor_tree_size_key())->0 ==> r == Err::<Witness, WitnessError>(
            WitnessError::PositionOutOfRange,
        ),
        rec.type_tag@ == tag@ && fields_present(*rec) && lengths_fit(*rec, depth as nat) && sizes_fit(
            *rec,
            depth as nat,
        ) ==> (r matches Ok(w) && decoded_from(*rec, w)),
        r is Ok ==> rec.type_tag@ == tag@ && fields_present(*rec) && lengths_fit(*rec, depth as nat)
            && sizes_fit(*rec, depth as nat),
{
    let expected = tag.to_owned();
    if rec.type_tag != expected {
        return Err(WitnessError::TypeMismatch);
    }
    let position = unsigned_of(rec, "note_position");
    let path = hashes_of(rec, "merkle_path");
    let anchor = hash_of(rec, "anchor");
    let anchor_tree_size = unsigned_of(rec, "anchor_tree_size");
    let anchor_frontier = hashes_of(rec, "anchor_frontier");
    match (position, path, anchor, anchor_tree_size, anchor_frontier) {
        (Some(position), Some(path), Some(anchor), Some(anchor_tree_size), Some(anchor_frontier)) => {
            if path.len() != depth as usize || anchor_frontier.len() > depth as usize {
                return Err(WitnessError::LengthMismatch);
            }
            if anchor_tree_size > capacity_of(depth) {
                return Err(WitnessError::TreeSizeOutOfRange);
            }
            if position >= anchor_tree_size {
                return Err(WitnessError::PositionOutOfRange);
            }
            Ok(Witness {
                commitment: rec.subject,
                position,
                path,
                tree_size: anchor_tree_size,
                anchor,
                anchor_tree_size,
                anchor_frontier,
            })
        },
        _ => Err(WitnessError::FieldMissing),
    }
}

/// Decoding the record of a witness, at the depth that its path gives, passes every
/// check and gives that witness back, field for field.
pub proof fn lemma_record_round_trip(w: Witness, rec: WitnessRecord, tag: Seq<char>, d: Witness)
    requires
        persistable(w),
        encodes(rec, w, tag),
        decoded_from(rec, d),
    ensures
        rec.type_tag@ == tag,
        fields_present(rec),
        lengths_fit(rec, w.path@.len()),
        sizes_fit(rec, w.path@.len()),
        d.commitment == w.commitment,
        d.position == w.position,
        d.path@ == w.path@,
        d.tree_size == w.tree_size,
        d.anchor == w.anchor,
        d.anchor_tree_size == w.anchor_tree_size,
        d.anchor_frontier@ == w.anchor_frontier@,
{
    reveal_strlit("note_position");
    reveal_strlit("merkle_path");
    reveal_strlit("anchor");
    reveal_strlit("anchor_tree_size");
    reveal_strlit("anchor_frontier");
    let a = rec.assertions@;
    assert(a[0].predicate@.len() == 13);
    assert(a[1].predicate@.len() == 11);
    assert(a[2].predicate@.len() == 6);
    assert(a[3].predicate@.len() == 16);
    assert(a[4].predicate@.len() == 15);
    assert(lookup(a, note_position_key(), 0) == Some(a[0].object));
    assert(lookup(a, merkle_path_key(), 1) == Some(a[1].object));
    assert(lookup(a, merkle_path_key(), 0) == Some(a[1].object));
    assert(lookup(a, anchor_key(), 2) == Some(a[2].object));
    assert(lookup(a, anchor_key(), 1) == Some(a[2].object));
    assert(lookup(a, anchor_key(), 0) == Some(a[2].object));
    assert(lookup(a, anchor_tree_size_key(), 3) == Some(a[3].object));
    assert(lookup(a, anchor_tree_size_key(), 2) == Some(a[3].object));
    assert(lookup(a, anchor_tree_size_key(), 1) == Some(a[3].object));
    assert(lookup(a, anchor_tree_size_key(), 0) == Some(a[3].object));
    assert(lookup(a, anchor_frontier_key(), 4) == Some(a[4].object));
    assert(lookup(a, anchor_frontier_key(), 3) == Some(a[4].object));
    assert(lookup(a, anchor_frontier_key(), 2) == Some(a[4].object));
    assert(lookup(a, anchor_frontier_key(), 1) == Some(a[4].object));
    assert(lookup(a, anchor_frontier_key(), 0) == Some(a[4].object));
}

} // verus!
