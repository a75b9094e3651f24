use vstd::prelude::*;

use crate::transparent::Address as TransparentAddress;

verus! {

/// A shielded (Sapling or Orchard) address, as its encoded string.
#[derive(Clone, Debug)]
pub struct ShieldedAddress {
    pub address: String,
}

impl ShieldedAddress {
    pub fn new(address: String) -> (r: Self)
        ensures
            r.address@ == address@,
    {
        ShieldedAddress { address }
    }

    pub fn address(&self) -> (r: &str)
        ensures
            r@ == self.address@,
    {
        self.address.as_str()
    }
}

/// A unified address, as its encoded string.
#[derive(Clone, Debug)]
pub struct UnifiedAddress {
    pub address: String,
}

impl UnifiedAddress {
    pub fn new(address: String) -> (r: Self)
        ensures
            r.address@ == address@,
    {
        UnifiedAddress { address }
    }

    pub fn address(&self) -> (r: &str)
        ensures
            r@ == self.address@,
    {
        self.address.as_str()
    }
}

/// An address of one of the Zcash protocols.
#[derive(Clone, Debug)]
pub enum ProtocolAddress {
    Transparent(TransparentAddress),
    Shielded(ShieldedAddress),
    Unified(UnifiedAddress),
}

impl ProtocolAddress {
    /// The encoded address string, whatever the protocol.
    pub open spec fn text(&self) -> Seq<char> {
        match self {
            ProtocolAddress::Transparent(a) => a.address@,
            ProtocolAddress::Shielded(a) => a.address@,
            ProtocolAddress::Unified(a) => a.address@,
        }
    }

    pub fn as_string(&self) -> (r: String)
        ensures
            r@ == self.text(),
    {
        match self {
            ProtocolAddress::Transparent(a) => a.address().to_owned(),
            ProtocolAddress::Shielded(a) => a.address().to_owned(),
            ProtocolAddress::Unified(a) => a.address().to_owned(),
        }
    }
}

} // verus!
