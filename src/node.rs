use vstd::prelude::*;

use crate::error::WitnessError;

verus! {

/// A fixed-width tree node value: one note commitment or one interior hash.
pub type HashNode = [u8; 32];

/// The 32-byte SHA-256 digest of `data`.
pub uninterp spec fn digest_of(data: Seq<u8>) -> Seq<u8>;

/// Relies on `bc_envelope::prelude::Digest::from_image`, which is SHA-256 of its input:
/// the result depends on the bytes alone.
#[verifier::external_body]
fn sha256(data: &Vec<u8>) -> (r: HashNode)
    ensures
        r@ == digest_of(data@),
{
    *bc_envelope::prelude::Digest::from_image(data).data()
}

/// The parent of `left` and `right` at `level` in a tree personalized by `pz`: the digest
/// of the personalization, the level byte and both children. The personalization tells
/// the trees of different pools apart; the level byte, equal children at different
/// levels.
pub open spec fn combine_spec(pz: Seq<u8>, level: nat, left: Seq<u8>, right: Seq<u8>) -> Seq<u8> {
    digest_of(pz + seq![level as u8] + left + right)
}

fn push_all(data: &mut Vec<u8>, src: &[u8])
    ensures
        final(data)@ == old(data)@ + src@,
{
    let mut i: usize = 0;
    while i < src.len()
        invariant
            i <= src@.len(),
            data@ == old(data)@ + src@.take(i as int),
        decreases src@.len() - i,
    {
        data.push(src[i]);
        assert(src@.take(i + 1) == src@.take(i as int).push(src@[i as int]));
        i = i + 1;
    }
    assert(src@.take(i as int) == src@);
}

/// Combines two sibling nodes at `level` into their parent.
pub fn combine(pz: &Vec<u8>, level: u8, left: &HashNode, right: &HashNode) -> (r: HashNode)
    ensures
        r@ == combine_spec(pz@, level as nat, left@, right@),
{
    let mut data: Vec<u8> = Vec::new();
    push_all(&mut data, pz.as_slice());
    data.push(level);
    push_all(&mut data, left);
    push_all(&mut data, right);
    assert(data@ == pz@ + seq![level] + left@ + right@);
    assert((level as nat) as u8 == level);
    sha256(&data)
}

/// Reads a node from raw bytes, which must be exactly 32 of them.
pub fn hash_node_from_bytes(bytes: &[u8]) -> (r: Result<HashNode, WitnessError>)
    ensures
        bytes@.len() != 32 ==> r == Err::<HashNode, WitnessError>(WitnessError::HashLengthMismatch),
        bytes@.len() == 32 ==> (r matches Ok(h) && h@ == bytes@),
{
    if bytes.len() != 32 {
        return Err(WitnessError::HashLengthMismatch);
    }
    let mut h: HashNode = [0u8; 32];
    let mut i: usize = 0;
    while i < 32
        invariant
            0 <= i <= 32,
            bytes@.len() == 32,
            forall|k: int| 0 <= k < i ==> h@[k] == bytes@[k],
        decreases 32 - i,
    {
        h[i] = bytes[i];
        i = i + 1;
    }
    assert(h@ == bytes@);
    Ok(h)
}

} // verus!
