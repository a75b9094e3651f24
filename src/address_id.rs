use vstd::prelude::*;
use vstd::string::StringExecFns;

use crate::hexfmt::{decode_hex, encode_hex, hex_decoded, hex_of};
use crate::network::Network;
use crate::protocol_address::ProtocolAddress;
use crate::text::{has_prefix, starts_with, strip_prefix};

verus! {

/// A 256-bit identifier, held as its 32 bytes.
#[allow(non_camel_case_types)]
#[derive(Clone, Copy, Debug, Hash)]
pub struct u256 {
    pub bytes: [u8; 32],
}

impl PartialEq for u256 {
    fn eq(&self, other: &u256) -> (r: bool)
        ensures
            r == (self.bytes@ == other.bytes@),
    {
        let mut i: usize = 0;
        while i < 32
            invariant
                i <= 32,
                forall|j: int| 0 <= j < i ==> self.bytes@[j] == other.bytes@[j],
            decreases 32 - i,
        {
            if self.bytes[i] != other.bytes[i] {
                return false;
            }
            i = i + 1;
        }
        assert(self.bytes@ =~= other.bytes@);
        true
    }
}

impl vstd::std_specs::cmp::PartialEqSpecImpl for u256 {
    open spec fn obeys_eq_spec() -> bool {
        true
    }

    open spec fn eq_spec(&self, other: &u256) -> bool {
        self.bytes@ == other.bytes@
    }
}

impl Eq for u256 {

}

impl Default for u256 {
    fn default() -> (r: Self)
        ensures
            forall|i: int| 0 <= i < 32 ==> r.bytes@[i] == 0,
    {
        u256 { bytes: [0u8; 32] }
    }
}

impl u256 {
    pub fn from_bytes(bytes: [u8; 32]) -> (r: Self)
        ensures
            r.bytes == bytes,
    {
        u256 { bytes }
    }

    /// The identifier made of `bytes`, which must be exactly 32 of them.
    pub fn from_slice(bytes: &[u8]) -> (r: Option<Self>)
        ensures
            r is Some <==> bytes@.len() == 32,
            r matches Some(id) ==> id.bytes@ == bytes@,
    {
        match crate::node::hash_node_from_bytes(bytes) {
            Ok(b) => Some(u256 { bytes: b }),
            Err(_) => None,
        }
    }

    /// The 64 lowercase hex digits of the identifier.
    pub fn to_hex(&self) -> (r: String)
        ensures
            r@ == hex_of(self.bytes@),
    {
        encode_hex(&self.bytes)
    }
}

/// Why a string does not name an address.
#[derive(Debug, Clone, Copy, PartialEq, Eq, Structural)]
pub enum AddressIdError {
    /// No known address prefix begins the string.
    UnknownAddressType,
    /// No known protocol tag begins the string.
    InvalidFormat,
    /// A unified account identifier is not valid hex.
    InvalidHex,
    /// A unified account identifier is not 32 bytes long.
    InvalidAccountIdLength,
}

/// A key that identifies an address of any protocol, or an account-internal address.
#[derive(Clone, Debug, Hash)]
pub enum AddressId {
    Transparent(String),
    Sapling(String),
    Orchard(String),
    Unified(String),
    UnifiedAccountAddress(u256),
}

/// The protocol type names, by kind.
pub open spec fn protocol_name(kind: nat) -> Seq<char> {
    if kind == 0 {
        "transparent"@
    } else if kind == 1 {
        "sapling"@
    } else if kind == 2 {
        "orchard"@
    } else if kind == 3 {
        "unified"@
    } else {
        "unified_account"@
    }
}

/// The display tags, by kind.
pub open spec fn display_tag(kind: nat) -> Seq<char> {
    if kind == 0 {
        "t:"@
    } else if kind == 1 {
        "zs:"@
    } else if kind == 2 {
        "zo:"@
    } else if kind == 3 {
        "u:"@
    } else {
        "ua:"@
    }
}

/// The kind of a shielded address string: Orchard where it begins with `zo`, else Sapling.
pub open spec fn shielded_kind(s: Seq<char>) -> nat {
    if !starts_with(s, "zs"@) && starts_with(s, "zo"@) {
        2
    } else {
        1
    }
}

/// The kind that the prefix of an address string gives, if any.
pub open spec fn prefix_kind(s: Seq<char>) -> Option<nat> {
    if starts_with(s, "t"@) {
        Some(0)
    } else if starts_with(s, "zs"@) {
        Some(1)
    } else if starts_with(s, "zo"@) {
        Some(2)
    } else if starts_with(s, "u"@) {
        Some(3)
    } else {
        None
    }
}

/// What identifies an `AddressId`: its kind, its address string and its account id.
pub type AddressKey = (nat, Seq<char>, Option<Seq<u8>>);

impl AddressId {
    /// 0 transparent, 1 Sapling, 2 Orchard, 3 unified, 4 unified account address.
    pub open spec fn kind(&self) -> nat {
        match self {
            AddressId::Transparent(_) => 0,
            AddressId::Sapling(_) => 1,
            AddressId::Orchard(_) => 2,
            AddressId::Unified(_) => 3,
            AddressId::UnifiedAccountAddress(_) => 4,
        }
    }

    /// The address string; empty for a unified account address.
    pub open spec fn text(&self) -> Seq<char> {
        match self {
            AddressId::Transparent(s) => s@,
            AddressId::Sapling(s) => s@,
            AddressId::Orchard(s) => s@,
            AddressId::Unified(s) => s@,
            AddressId::UnifiedAccountAddress(_) => Seq::empty(),
        }
    }

    pub open spec fn account(&self) -> Option<u256> {
        match self {
            AddressId::UnifiedAccountAddress(id) => Some(*id),
            _ => None,
        }
    }

    pub open spec fn key(&self) -> AddressKey {
        (
            self.kind(),
            self.text(),
            match self.account() {
                Some(id) => Some(id.bytes@),
                None => None,
            },
        )
    }

    /// The identifier of a protocol address; a shielded address counts as Orchard where it
    /// begins with `zo` and as Sapling otherwise, also where no known prefix begins it.
    pub fn from_protocol_address(address: &ProtocolAddress) -> (r: Self)
        ensures
            r.text() == address.text(),
            address is Transparent ==> r.kind() == 0,
            address is Shielded ==> r.kind() == shielded_kind(address.text()),
            address is Unified ==> r.kind() == 3,
    {
        match address {
            ProtocolAddress::Transparent(a) => AddressId::Transparent(a.address().to_owned()),
            ProtocolAddress::Shielded(a) => {
                let s = a.address();
                if has_prefix(s, "zs") {
                    AddressId::Sapling(s.to_owned())
                } else if has_prefix(s, "zo") {
                    AddressId::Orchard(s.to_owned())
                } else {
                    AddressId::Sapling(s.to_owned())
                }
            },
            ProtocolAddress::Unified(a) => AddressId::Unified(a.address().to_owned()),
        }
    }

    /// The identifier of an address string, by its prefix: `t` transparent, `zs` Sapling,
    /// `zo` Orchard, `u` unified.
    pub fn from_address_string(address: &str, _network: Network) -> (r: Result<Self, AddressIdError>)
        ensures
            prefix_kind(address@) is None ==> r == Err::<AddressId, AddressIdError>(
                AddressIdError::UnknownAddressType,
            ),
            prefix_kind(address@) matches Some(k) ==> (r matches Ok(id) && id.kind() == k
                && id.text() == address@),
    {
        if has_prefix(address, "t") {
            Ok(AddressId::Transparent(address.to_owned()))
        } else if has_prefix(address, "zs") {
            Ok(AddressId::Sapling(address.to_owned()))
        } else if has_prefix(address, "zo") {
            Ok(AddressId::Orchard(address.to_owned()))
        } else if has_prefix(address, "u") {
            Ok(AddressId::Unified(address.to_owned()))
        } else {
            Err(AddressIdError::UnknownAddressType)
        }
    }

    pub fn from_unified_account_id(id: u256) -> (r: Self)
        ensures
            r == AddressId::UnifiedAccountAddress(id),
    {
        AddressId::UnifiedAccountAddress(id)
    }

    pub fn is_unified_account_address(&self) -> (r: bool)
        ensures
            r == (self.kind() == 4),
    {
        matches!(self, AddressId::UnifiedAccountAddress(_))
    }

    /// The address string, for every kind but the unified account address.
    pub fn address_string(&self) -> (r: Option<&str>)
        ensures
            r is Some <==> self.kind() != 4,
            r matches Some(s) ==> s@ == self.text(),
    {
        match self {
            AddressId::Transparent(a) => Some(a.as_str()),
            AddressId::Sapling(a) => Some(a.as_str()),
            AddressId::Orchard(a) => Some(a.as_str()),
            AddressId::Unified(a) => Some(a.as_str()),
            AddressId::UnifiedAccountAddress(_) => None,
        }
    }

    /// The account id of a unified account address.
    pub fn unified_account_id(&self) -> (r: Option<&u256>)
        ensures
            r is Some <==> self.kind() == 4,
            r matches Some(id) ==> self.account() == Some(*id),
    {
        match self {
            AddressId::UnifiedAccountAddress(id) => Some(id),
            _ => None,
        }
    }

    /// The name of the protocol: transparent, sapling, orchard, unified or unified_account.
    pub fn protocol_type(&self) -> (r: &'static str)
        ensures
            r@ == protocol_name(self.kind()),
    {
        match self {
            AddressId::Transparent(_) => "transparent",
            AddressId::Sapling(_) => "sapling",
            AddressId::Orchard(_) => "orchard",
            AddressId::Unified(_) => "unified",
            AddressId::UnifiedAccountAddress(_) => "unified_account",
        }
    }

    /// The tagged form: `t:`, `zs:`, `zo:` or `u:` and the address, or `ua:` and the
    /// account id in hex.
    pub fn to_display_string(&self) -> (r: String)
        ensures
            self.kind() != 4 ==> r@ == display_tag(self.kind()) + self.text(),
            self.account() matches Some(id) ==> r@ == display_tag(4) + hex_of(id.bytes@),
    {
        match self {
            AddressId::Transparent(a) => "t:".to_owned().concat(a.as_str()),
            AddressId::Sapling(a) => "zs:".to_owned().concat(a.as_str()),
            AddressId::Orchard(a) => "zo:".to_owned().concat(a.as_str()),
            AddressId::Unified(a) => "u:".to_owned().concat(a.as_str()),
            AddressId::UnifiedAccountAddress(id) => {
                let h = id.to_hex();
                "ua:".to_owned().concat(h.as_str())
            },
        }
    }

    /// Reads the tagged form back: the first of `t:`, `zs:`, `zo:`, `u:` and `ua:` that
    /// begins `s` gives the kind, and the rest the address or the hex account id.
    pub fn parse(s: &str) -> (r: Result<Self, AddressIdError>)
        ensures
            (exists|k: nat| k <= 4 && #[trigger] starts_with(s@, display_tag(k))) <== r is Ok,
            (forall|k: nat| k <= 4 ==> !#[trigger] starts_with(s@, display_tag(k))) ==> r
                == Err::<AddressId, AddressIdError>(AddressIdError::InvalidFormat),
            forall|k: nat|
                k <= 3 && #[trigger] starts_with(s@, display_tag(k)) && (forall|j: nat|
                    j < k ==> !starts_with(s@, display_tag(j))) ==> (r matches Ok(id) && id.kind()
                    == k && id.text() == s@.skip(display_tag(k).len() as int)),
            starts_with(s@, display_tag(4)) && (forall|j: nat| j < 4 ==> !starts_with(s@, display_tag(j)))
                ==> match hex_decoded(s@.skip(3)) {
                None => r == Err::<AddressId, AddressIdError>(AddressIdError::InvalidHex),
                Some(b) => if b.len() == 32 {
                    r matches Ok(id) && id.account() matches Some(a) && a.bytes@ == b
                } else {
                    r == Err::<AddressId, AddressIdError>(AddressIdError::InvalidAccountIdLength)
                },
            },
    {
        proof {
            reveal_strlit("t:");
            reveal_strlit("zs:");
            reveal_strlit("zo:");
            reveal_strlit("u:");
            reveal_strlit("ua:");
        }
        if let Some(a) = strip_prefix(s, "t:") {
            assert(starts_with(s@, display_tag(0)));
            return Ok(AddressId::Transparent(a));
        }
        if let Some(a) = strip_prefix(s, "zs:") {
            assert(starts_with(s@, display_tag(1)));
            return Ok(AddressId::Sapling(a));
        }
        if let Some(a) = strip_prefix(s, "zo:") {
            assert(starts_with(s@, display_tag(2)));
            return Ok(AddressId::Orchard(a));
        }
        if let Some(a) = strip_prefix(s, "u:") {
            assert(starts_with(s@, display_tag(3)));
            return Ok(AddressId::Unified(a));
        }
        if let Some(h) = strip_prefix(s, "ua:") {
            assert(starts_with(s@, display_tag(4)));
            match decode_hex(h.as_str()) {
                Ok(bytes) => match u256::from_slice(bytes.as_slice()) {
                    Some(id) => Ok(AddressId::UnifiedAccountAddress(id)),
                    None => Err(AddressIdError::InvalidAccountIdLength),
                },
                Err(_) => Err(AddressIdError::InvalidHex),
            }
        } else {
            assert forall|k: nat| k <= 4 implies !#[trigger] starts_with(s@, display_tag(k)) by {
                if k == 0 {
                } else if k == 1 {
                } else if k == 2 {
                } else if k == 3 {
                } else {
                }
            }
            Err(AddressIdError::InvalidFormat)
        }
    }
}

impl PartialEq for AddressId {
    fn eq(&self, other: &AddressId) -> (r: bool)
        ensures
            r == (self.key() == other.key()),
    {
        match self {
            AddressId::Transparent(a) => match other {
                AddressId::Transparent(b) => a.eq(b),
                _ => false,
            },
            AddressId::Sapling(a) => match other {
                AddressId::Sapling(b) => a.eq(b),
                _ => false,
            },
            AddressId::Orchard(a) => match other {
                AddressId::Orchard(b) => a.eq(b),
                _ => false,
            },
            AddressId::Unified(a) => match other {
                AddressId::Unified(b) => a.eq(b),
                _ => false,
            },
            AddressId::UnifiedAccountAddress(a) => match other {
                AddressId::UnifiedAccountAddress(b) => a.eq(b),
                _ => false,
            },
        }
    }
}

impl vstd::std_specs::cmp::PartialEqSpecImpl for AddressId {
    open spec fn obeys_eq_spec() -> bool {
        true
    }

    open spec fn eq_spec(&self, other: &AddressId) -> bool {
        self.key() == other.key()
    }
}

impl Eq for AddressId {

}

} // verus!
