use vstd::prelude::*;

verus! {

/// The Zcash network a wallet belongs to.
#[derive(Clone, Copy, Debug, PartialEq, Eq, Hash, Structural)]
pub enum Network {
    Main,
    Test,
    Regtest,
}

impl Network {
    /// The identifier under which the network is stored.
    pub open spec fn name_spec(self) -> Seq<char> {
        match self {
            Network::Main => "main"@,
            Network::Test => "test"@,
            Network::Regtest => "regtest"@,
        }
    }

    /// The identifier under which the network is stored.
    pub fn encode(&self) -> (r: &'static str)
        ensures
            r@ == self.name_spec(),
    {
        match self {
            Network::Main => "main",
            Network::Test => "test",
            Network::Regtest => "regtest",
        }
    }

    /// The network whose identifier is `value`.
    pub fn decode(value: &str) -> (r: Option<Network>)
        ensures
            r matches Some(n) ==> n.name_spec() == value@,
            r is None ==> value@ != "main"@ && value@ != "test"@ && value@ != "regtest"@,
    {
        let v = value.to_owned();
        if v == "main".to_owned() {
            Some(Network::Main)
        } else if v == "test".to_owned() {
            Some(Network::Test)
        } else if v == "regtest".to_owned() {
            Some(Network::Regtest)
        } else {
            None
        }
    }

    /// The identifier as an owned string.
    pub fn to_display_string(&self) -> (r: String)
        ensures
            r@ == self.name_spec(),
    {
        self.encode().to_owned()
    }
}

} // verus!
