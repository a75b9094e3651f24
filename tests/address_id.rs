use zewif::{
    u256, AddressId, AddressIdError, AddressRegistry, Network, ProtocolAddress, ShieldedAddress,
    TransparentAddress, UnifiedAddress,
};

#[test]
fn test_address_id_from_protocol_address() {
    // Test transparent address
    let transparent =
        ProtocolAddress::Transparent(TransparentAddress::new("t1abcdef".to_string()));
    let addr_id = AddressId::from_protocol_address(&transparent);
    assert!(matches!(addr_id, AddressId::Transparent(_)));
    assert_eq!(addr_id.protocol_type(), "transparent");

    // Test sapling address
    let shielded = ProtocolAddress::Shielded(ShieldedAddress::new("zs1abcdef".to_string()));
    let addr_id = AddressId::from_protocol_address(&shielded);
    assert!(matches!(addr_id, AddressId::Sapling(_)));
    assert_eq!(addr_id.protocol_type(), "sapling");
}

#[test]
fn test_address_id_from_string() {
    let result = AddressId::from_address_string("t1abcdef", Network::Main);
    assert!(result.is_ok());
    let addr_id = result.unwrap();
    assert!(matches!(addr_id, AddressId::Transparent(_)));

    let result = AddressId::from_address_string("zs1abcdef", Network::Main);
    assert!(result.is_ok());
    let addr_id = result.unwrap();
    assert!(matches!(addr_id, AddressId::Sapling(_)));

    let result = AddressId::from_address_string("u1abcdef", Network::Main);
    assert!(result.is_ok());
    let addr_id = result.unwrap();
    assert!(matches!(addr_id, AddressId::Unified(_)));
}

#[test]
fn test_address_id_display_and_fromstr() {
    let addr_id = AddressId::Transparent("t1abcdef".to_string());
    let display_str = addr_id.to_display_string();
    assert_eq!(display_str, "t:t1abcdef");

    let parsed: AddressId = AddressId::parse(&display_str).unwrap();
    assert_eq!(parsed, addr_id);

    let id = u256::default();
    let addr_id = AddressId::UnifiedAccountAddress(id);
    let display_str = addr_id.to_display_string();
    assert!(display_str.starts_with("ua:"));
}

#[test]
fn test_address_registry() {
    let mut registry = AddressRegistry::new();

    let addr1 = AddressId::Transparent("t1111".to_string());
    let addr2 = AddressId::Sapling("zs2222".to_string());
    let addr3 = AddressId::Orchard("zo3333".to_string());

    let account1 = u256::default();
    let mut bytes = [0u8; 32];
    bytes[0] = 1;
    let account2 = u256::from_bytes(bytes);

    registry.register(addr1.clone(), account1);
    registry.register(addr2.clone(), account1);
    registry.register(addr3.clone(), account2);

    assert_eq!(registry.find_account(&addr1), Some(&account1));
    assert_eq!(registry.find_account(&addr2), Some(&account1));
    assert_eq!(registry.find_account(&addr3), Some(&account2));

    let addrs_acct1 = registry.find_addresses_for_account(&account1);
    assert_eq!(addrs_acct1.len(), 2);
    assert!(addrs_acct1.contains(&&addr1));
    assert!(addrs_acct1.contains(&&addr2));

    let addrs_acct2 = registry.find_addresses_for_account(&account2);
    assert_eq!(addrs_acct2.len(), 1);
    assert!(addrs_acct2.contains(&&addr3));

    assert_eq!(registry.address_count(), 3);
    assert_eq!(registry.account_count(), 2);
}

#[test]
fn registry_register_again_replaces_account() {
    let mut registry = AddressRegistry::new();
    let addr = AddressId::Unified("u1x".to_string());
    let mut b = [0u8; 32];
    b[31] = 9;
    let other = u256::from_bytes(b);
    registry.register(addr.clone(), u256::default());
    registry.register(addr.clone(), other);
    assert_eq!(registry.address_count(), 1);
    assert_eq!(registry.account_count(), 1);
    assert_eq!(registry.find_account(&addr), Some(&other));
    assert!(registry.find_addresses_for_account(&u256::default()).is_empty());
    assert_eq!(registry.find_account(&AddressId::Unified("u1y".to_string())), None);
}

#[test]
fn shielded_prefixes_pick_the_pool() {
    let orchard = ProtocolAddress::Shielded(ShieldedAddress::new("zo1abc".to_string()));
    let id = AddressId::from_protocol_address(&orchard);
    assert!(matches!(id, AddressId::Orchard(_)));
    assert_eq!(id.protocol_type(), "orchard");
    assert_eq!(id.address_string(), Some("zo1abc"));

    let unknown = ProtocolAddress::Shielded(ShieldedAddress::new("q9".to_string()));
    let id = AddressId::from_protocol_address(&unknown);
    assert!(matches!(id, AddressId::Sapling(_)));

    let unified = ProtocolAddress::Unified(UnifiedAddress::new("u1qq".to_string()));
    let id = AddressId::from_protocol_address(&unified);
    assert_eq!(id.protocol_type(), "unified");
    assert_eq!(unified.as_string(), "u1qq");
}

#[test]
fn address_string_rejects_unknown_prefix() {
    assert_eq!(
        AddressId::from_address_string("x1abc", Network::Test),
        Err(AddressIdError::UnknownAddressType)
    );
    let orchard = AddressId::from_address_string("zo1abc", Network::Regtest).unwrap();
    assert_eq!(orchard.protocol_type(), "orchard");
}

#[test]
fn unified_account_address_round_trips_through_text() {
    let mut b = [0u8; 32];
    b[0] = 0xab;
    b[31] = 0x01;
    let id = AddressId::from_unified_account_id(u256::from_bytes(b));
    assert!(id.is_unified_account_address());
    assert_eq!(id.address_string(), None);
    assert_eq!(id.unified_account_id(), Some(&u256::from_bytes(b)));
    assert_eq!(id.protocol_type(), "unified_account");
    let text = id.to_display_string();
    assert_eq!(
        text,
        "ua:ab00000000000000000000000000000000000000000000000000000000000001"
    );
    assert_eq!(AddressId::parse(&text), Ok(id));
    let upper = "ua:AB00000000000000000000000000000000000000000000000000000000000001";
    assert_eq!(AddressId::parse(upper).unwrap().unified_account_id(), Some(&u256::from_bytes(b)));
}

#[test]
fn parse_reports_each_error() {
    assert_eq!(AddressId::parse("q:abc"), Err(AddressIdError::InvalidFormat));
    assert_eq!(AddressId::parse("ua:zz"), Err(AddressIdError::InvalidHex));
    assert_eq!(AddressId::parse("ua:abc"), Err(AddressIdError::InvalidHex));
    assert_eq!(AddressId::parse("ua:abcd"), Err(AddressIdError::InvalidAccountIdLength));
    assert_eq!(
        AddressId::parse("zs:zs1q").unwrap(),
        AddressId::Sapling("zs1q".to_string())
    );
    assert_eq!(AddressId::parse("zo:x").unwrap(), AddressId::Orchard("x".to_string()));
    assert_eq!(AddressId::parse("u:u1").unwrap(), AddressId::Unified("u1".to_string()));
}

#[test]
fn unified_account_ids_compare_by_bytes() {
    let mut b = [0u8; 32];
    b[5] = 7;
    assert_ne!(
        AddressId::from_unified_account_id(u256::from_bytes(b)),
        AddressId::from_unified_account_id(u256::default())
    );
    assert_ne!(
        AddressId::Sapling("a".to_string()),
        AddressId::Orchard("a".to_string())
    );
    assert_eq!(u256::from_slice(&b), Some(u256::from_bytes(b)));
    assert_eq!(u256::from_slice(&b[..31]), None);
}
