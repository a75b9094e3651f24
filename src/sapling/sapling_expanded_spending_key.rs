use vstd::prelude::*;

use crate::address_id::u256;

verus! {

/// The three secret components of a Sapling spending key.
#[derive(Clone, Debug)]
pub struct SaplingExpandedSpendingKey {
    /// The spend authorizing key.
    pub ask: u256,
    /// The nullifier private key.
    pub nsk: u256,
    /// The outgoing viewing key.
    pub ovk: u256,
}

fn read_u256(bytes: &[u8], start: usize) -> (r: u256)
    requires
        start <= 64,
        start + 32 <= bytes@.len(),
    ensures
        r.bytes@ == bytes@.subrange(start as int, start + 32),
{
    let mut b: [u8; 32] = [0u8; 32];
    let mut i: usize = 0;
    while i < 32
        invariant
            i <= 32,
            start <= 64,
            start + 32 <= bytes@.len(),
            forall|j: int| 0 <= j < i ==> b@[j] == bytes@[start + j],
        decreases 32 - i,
    {
        b[i] = bytes[start + i];
        i = i + 1;
    }
    assert(b@ =~= bytes@.subrange(start as int, start + 32));
    u256 { bytes: b }
}

impl SaplingExpandedSpendingKey {
    /// The 96 bytes `ask`, `nsk`, `ovk`, in that order.
    pub fn to_bytes(&self) -> (r: Vec<u8>)
        ensures
            r@ == self.ask.bytes@ + self.nsk.bytes@ + self.ovk.bytes@,
    {
        let mut r: Vec<u8> = Vec::new();
        let mut i: usize = 0;
        while i < 96
            invariant
                i <= 96,
                r@ == (self.ask.bytes@ + self.nsk.bytes@ + self.ovk.bytes@).take(i as int),
            decreases 96 - i,
        {
            let ghost all = self.ask.bytes@ + self.nsk.bytes@ + self.ovk.bytes@;
            let b = if i < 32 {
                self.ask.bytes[i]
            } else if i < 64 {
                self.nsk.bytes[i - 32]
            } else {
                self.ovk.bytes[i - 64]
            };
            assert(b == all[i as int]);
            r.push(b);
            assert(all.take(i + 1) == all.take(i as int).push(all[i as int]));
            i = i + 1;
        }
        assert((self.ask.bytes@ + self.nsk.bytes@ + self.ovk.bytes@).take(96) =~= self.ask.bytes@
            + self.nsk.bytes@ + self.ovk.bytes@);
        r
    }

    /// Reads the key from the first 96 bytes of `bytes`, returning it with the number of
    /// bytes read; `None` where fewer than 96 are there.
    pub fn parse(bytes: &[u8]) -> (r: Option<(Self, usize)>)
        ensures
            r is Some <==> bytes@.len() >= 96,
            r matches Some((k, n)) ==> n == 96 && k.ask.bytes@ + k.nsk.bytes@ + k.ovk.bytes@
                == bytes@.take(96),
    {
        if bytes.len() < 96 {
            return None;
        }
        let ask = read_u256(bytes, 0);
        let nsk = read_u256(bytes, 32);
        let ovk = read_u256(bytes, 64);
        assert(ask.bytes@ + nsk.bytes@ + ovk.bytes@ =~= bytes@.take(96));
        Some((SaplingExpandedSpendingKey { ask, nsk, ovk }, 96))
    }
}

} // verus!
