use zewif::{
    Address, Blob, Network, ProtocolAddress, SaplingExpandedSpendingKey, SeedMaterial,
    TransparentAddress, u256,
};

#[test]
fn network_identifiers() {
    assert_eq!(Network::Main.encode(), "main");
    assert_eq!(Network::Test.encode(), "test");
    assert_eq!(Network::Regtest.to_display_string(), "regtest");
    assert_eq!(Network::decode("test"), Some(Network::Test));
    assert_eq!(Network::decode("regtest"), Some(Network::Regtest));
    assert_eq!(Network::decode("mainnet"), None);
    for n in [Network::Main, Network::Test, Network::Regtest] {
        assert_eq!(Network::decode(n.encode()), Some(n));
    }
}

#[test]
fn seed_material_descriptions() {
    let m = SeedMaterial::Bip39Mnemonic("abandon about".to_string());
    assert_eq!(m.describe(), "SeedMaterial::Bip39Mnemonic(\"abandon about\")");
    let mut b = [0u8; 32];
    b[0] = 0x1f;
    let s = SeedMaterial::PreBIP39Seed(Blob::new(b));
    assert_eq!(
        s.describe(),
        "SeedMaterial::PreBIP39Seed(1f00000000000000000000000000000000000000000000000000000000000000)"
    );
}

#[test]
fn spending_key_bytes_round_trip() {
    let key = SaplingExpandedSpendingKey {
        ask: u256::from_bytes([1u8; 32]),
        nsk: u256::from_bytes([2u8; 32]),
        ovk: u256::from_bytes([3u8; 32]),
    };
    let bytes = key.to_bytes();
    assert_eq!(bytes.len(), 96);
    assert_eq!(bytes[0], 1);
    assert_eq!(bytes[32], 2);
    assert_eq!(bytes[95], 3);
    let (back, read) = SaplingExpandedSpendingKey::parse(&bytes).unwrap();
    assert_eq!(read, 96);
    assert_eq!(back.ask, key.ask);
    assert_eq!(back.nsk, key.nsk);
    assert_eq!(back.ovk, key.ovk);
    assert!(SaplingExpandedSpendingKey::parse(&bytes[..95]).is_none());
    let mut longer = bytes.clone();
    longer.extend_from_slice(&[9u8; 10]);
    let (from_longer, read) = SaplingExpandedSpendingKey::parse(&longer).unwrap();
    assert_eq!(read, 96);
    assert_eq!(from_longer.ovk, key.ovk);
}

#[test]
fn wallet_address_accessors() {
    let pa = ProtocolAddress::Transparent(TransparentAddress::new("t1abc".to_string()));
    let mut a = Address::new(pa);
    assert_eq!(a.name(), "");
    assert_eq!(a.purpose(), None);
    assert_eq!(a.index(), 0);
    a.set_name("savings".to_string());
    a.set_purpose("receive".to_string());
    a.set_index(4);
    assert_eq!(a.name(), "savings");
    assert_eq!(a.purpose(), Some("receive"));
    assert_eq!(a.index(), 4);
    assert_eq!(a.as_string(), "t1abc");
    a.set_address(ProtocolAddress::Transparent(TransparentAddress::new("t1xyz".to_string())));
    assert_eq!(a.as_string(), "t1xyz");
    if let ProtocolAddress::Transparent(t) = a.address_mut() {
        *t = TransparentAddress::new("t1new".to_string());
    }
    assert_eq!(a.address().as_string(), "t1new");
}
