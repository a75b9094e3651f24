use vstd::prelude::*;

verus! {

/// What can go wrong while growing a tree, extending a witness or reading a witness record.
#[derive(Debug, Clone, Copy, PartialEq, Eq, Structural)]
pub enum WitnessError {
    /// The tree already holds as many leaves as its depth allows.
    TreeFull,
    /// A leaf was offered to a witness out of the order in which leaves were appended.
    InconsistentAppendOrder,
    /// A record does not carry the witness type tag.
    TypeMismatch,
    /// A record lacks a required field, or holds it with a value of the wrong kind.
    FieldMissing,
    /// A record's path, position or frontier does not fit the configured depth.
    LengthMismatch,
    /// A witness whose path has moved past its captured anchor, or that was never
    /// captured: only a witness at its anchor is persisted.
    StaleAnchor,
    /// A record's anchor tree size exceeds the capacity of the configured depth.
    TreeSizeOutOfRange,
    /// A record's note position does not lie within its anchor tree size.
    PositionOutOfRange,
    /// Raw bytes that should form a node are not exactly 32 of them.
    HashLengthMismatch,
}

} // verus!
