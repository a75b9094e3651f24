use vstd::prelude::*;

verus! {

/// A transparent (Bitcoin-style) address.
#[derive(Clone, Debug)]
pub struct Address {
    pub address: String,
}

impl Address {
    pub fn new(address: String) -> (r: Self)
        ensures
            r.address@ == address@,
    {
        Address { address }
    }

    pub fn address(&self) -> (r: &str)
        ensures
            r@ == self.address@,
    {
        self.address.as_str()
    }
}

} // verus!
