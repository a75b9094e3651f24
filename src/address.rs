use vstd::prelude::*;

use crate::protocol_address::ProtocolAddress;

verus! {

/// A wallet address: a protocol address with a user-given name and an optional purpose.
#[derive(Clone, Debug)]
pub struct Address {
    pub index: usize,
    pub address: ProtocolAddress,
    pub name: String,
    pub purpose: Option<String>,
}

impl Address {
    /// An unnamed address with no purpose, at index 0.
    pub fn new(address: ProtocolAddress) -> (r: Self)
        ensures
            r.index == 0,
            r.address == address,
            r.name@ == Seq::<char>::empty(),
            r.purpose is None,
    {
        Address { index: 0, address, name: String::new(), purpose: None }
    }

    pub fn index(&self) -> (r: usize)
        ensures
            r == self.index,
    {
        self.index
    }

    pub fn set_index(&mut self, index: usize)
        ensures
            *final(self) == (Address { index, ..*old(self) }),
    {
        self.index = index;
    }

    pub fn name(&self) -> (r: &str)
        ensures
            r@ == self.name@,
    {
        self.name.as_str()
    }

    pub fn purpose(&self) -> (r: Option<&str>)
        ensures
            r is Some <==> self.purpose is Some,
            r matches Some(p) ==> p@ == self.purpose->0@,
    {
        match &self.purpose {
            Some(p) => Some(p.as_str()),
            None => None,
        }
    }

    pub fn set_purpose(&mut self, purpose: String)
        ensures
            *final(self) == (Address { purpose: Some(purpose), ..*old(self) }),
    {
        self.purpose = Some(purpose);
    }

    /// The encoded address string.
    pub fn as_string(&self) -> (r: String)
        ensures
            r@ == self.address.text(),
    {
        self.address.as_string()
    }

    pub fn address(&self) -> (r: &ProtocolAddress)
        ensures
            *r == self.address,
    {
        &self.address
    }

    pub fn address_mut(&mut self) -> (r: &mut ProtocolAddress)
        ensures
            *r == old(self).address,
            *final(self) == (Address { address: *final(r), ..*old(self) }),
    {
        &mut self.address
    }

    pub fn set_name(&mut self, name: String)
        ensures
            *final(self) == (Address { name, ..*old(self) }),
    {
        self.name = name;
    }

    pub fn set_address(&mut self, address: ProtocolAddress)
        ensures
            *final(self) == (Address { address, ..*old(self) }),
    {
        self.address = address;
    }
}

} // verus!
