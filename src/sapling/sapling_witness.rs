use vstd::prelude::*;

use crate::error::WitnessError;
use crate::record::{
    decode_error, decode_witness, decoded_from, encode_witness, encode_witness_error, encodes,
    persistable, WitnessRecord,
};
use crate::witness::Witness;

verus! {

/// The depth of the Sapling note commitment tree.
pub const SAPLING_COMMITMENT_TREE_DEPTH: u8 = 32;

/// A witness of a note of the Sapling pool, persisted under the `SaplingWitness` type tag
/// at depth 32. Its path is combined with this library's `combine`, not with Sapling's
/// Pedersen hash.
#[derive(Clone, Debug)]
pub struct SaplingWitness(pub Witness);

impl SaplingWitness {
    /// The record of this witness, typed `SaplingWitness`; only a witness at its captured
    /// anchor has one.
    pub fn to_record(&self) -> (r: Result<WitnessRecord, WitnessError>)
        ensures
            r is Ok <==> persistable(self.0),
            r matches Ok(rec) ==> encodes(rec, self.0, "SaplingWitness"@),
            r matches Err(e) ==> encode_witness_error(self.0) == Some(e),
    {
        encode_witness(&self.0, "SaplingWitness")
    }

    /// Reads a Sapling witness back from its record.
    pub fn from_record(rec: &WitnessRecord) -> (r: Result<SaplingWitness, WitnessError>)
        ensures
            decode_error(*rec, "SaplingWitness"@, SAPLING_COMMITMENT_TREE_DEPTH as nat) matches Some(e)
                ==> r == Err::<SaplingWitness, WitnessError>(e),
            decode_error(*rec, "SaplingWitness"@, SAPLING_COMMITMENT_TREE_DEPTH as nat) is None
                ==> (r matches Ok(w) && decoded_from(*rec, w.0)),
    {
        match decode_witness(rec, "SaplingWitness", SAPLING_COMMITMENT_TREE_DEPTH) {
            Ok(w) => Ok(SaplingWitness(w)),
            Err(e) => Err(e),
        }
    }
}

} // verus!
