use aleo_core::heartbeat::NodeType;
use aleo_core::peering::{IpAddress, SocketAddress};
use aleo_core::node_config::{
    cdn_choice, check_development, check_peer_address, dev_node_port, dev_rest_port, dev_trusted_validator_ports,
    even_genesis_distribution, genesis_public_balances, legacy_files_plan, parse_node_type, permissions_allowed,
    private_key_source, runtime_thread_counts, AddressTextError, CdnChoice, DevError, GenesisError, KeySource,
    KeySourceError, check_jwt_secret, check_storage_paths, node_address, parse_jwt_secret, remove_bootstrap_peers,
    rest_address, storage_mode, JwtSecretError, StorageMode, StoragePathMismatch, bonded_genesis_distribution,
    bonded_members, dev_client_trusted_peers, dev_listen_addresses, dev_router_address, dev_trusted_peers,
    dev_validator_trusted_peers, BondedEntry, BondedError,
};

#[test]
fn node_type_from_flags() {
    assert_eq!(parse_node_type(true, false, false), NodeType::Validator);
    assert_eq!(parse_node_type(false, true, false), NodeType::Prover);
    assert_eq!(parse_node_type(false, false, true), NodeType::BootstrapClient);
    assert_eq!(parse_node_type(false, false, false), NodeType::Client);
    assert_eq!(parse_node_type(true, true, true), NodeType::Validator);
}

#[test]
fn test_parse_cdn() {
    // Validator and client in production: the default or the given CDN.
    assert_eq!(cdn_choice(false, false, false, None), CdnChoice::Default);
    assert_eq!(cdn_choice(false, false, false, Some("url")), CdnChoice::Given);
    assert_eq!(cdn_choice(false, true, false, None), CdnChoice::Disabled);
    // Development mode: never.
    assert_eq!(cdn_choice(true, false, false, None), CdnChoice::Disabled);
    assert_eq!(cdn_choice(true, false, false, Some("url")), CdnChoice::Disabled);
    assert_eq!(cdn_choice(true, true, false, None), CdnChoice::Disabled);
    // Prover: never.
    assert_eq!(cdn_choice(false, false, true, None), CdnChoice::Disabled);
    assert_eq!(cdn_choice(false, false, true, Some("url")), CdnChoice::Disabled);
    assert_eq!(cdn_choice(true, false, true, None), CdnChoice::Disabled);
    // An empty URL disables it.
    assert_eq!(cdn_choice(false, false, false, Some("")), CdnChoice::Disabled);
}

#[test]
fn peer_address_text() {
    assert_eq!(check_peer_address("1.2.3.4:5"), Ok(()));
    assert_eq!(check_peer_address("example.com:4130"), Ok(()));
    assert_eq!(check_peer_address("1.2.3.4"), Err(AddressTextError::MissingPort));
    assert_eq!(check_peer_address("http://example.com:4130"), Err(AddressTextError::UrlNotSupported));
}

#[test]
fn development_settings() {
    assert_eq!(check_development(1, 4, true), Ok(()));
    assert_eq!(check_development(1, 3, true), Err(DevError::TooFewValidators));
    assert_eq!(check_development(4, 4, true), Err(DevError::ValidatorIndexTooHigh));
    // A client may have any index.
    assert_eq!(check_development(10, 4, false), Ok(()));
    assert_eq!(dev_node_port(5), 4135);
    assert_eq!(dev_rest_port(5), 3035);
    assert_eq!(dev_node_port(1), 4131);
    assert_eq!(dev_rest_port(10), 3040);
    // Validator 1 of 4 trusts the other three.
    assert_eq!(dev_trusted_validator_ports(1, 4), vec![5000, 5002, 5003]);
    assert_eq!(dev_trusted_validator_ports(1, 4).len(), 3);
}

#[test]
fn genesis_balances_split_evenly() {
    // 100 left after the stake, split among 3: 33 each, the first one gets the remainder.
    assert_eq!(genesis_public_balances(1100, 1000, 3), vec![34, 33, 33]);
    // The stake exceeds the supply: nothing is left.
    assert_eq!(genesis_public_balances(10, 20, 2), vec![0, 0]);
    let total: u64 = genesis_public_balances(1_000_007, 500_000, 7).iter().sum();
    assert_eq!(total, 500_007);
}

#[test]
fn even_distribution() {
    let (stake, balances) = even_genesis_distribution(1_000, 4, 4, 100).unwrap();
    assert_eq!(stake, 125);
    assert_eq!(balances, vec![125, 125, 125, 125]);
    assert_eq!(stake * 4 + balances.iter().sum::<u64>(), 1_000);
    assert_eq!(even_genesis_distribution(1_000, 3, 4, 100), Err(GenesisError::TooFewMembers));
    assert_eq!(even_genesis_distribution(1_000, 0, 0, 100), Err(GenesisError::TooFewMembers));
    assert_eq!(even_genesis_distribution(1_000, 4, 4, 126), Err(GenesisError::StakeTooLow));
}

#[test]
fn private_key_permissions() {
    assert!(permissions_allowed(0o100600));
    assert!(permissions_allowed(0o400));
    assert!(!permissions_allowed(0o644));
    assert!(!permissions_allowed(0o700));
}

#[test]
fn legacy_file_migration() {
    assert_eq!(legacy_files_plan(true, &[false, true, true]), Ok(vec![1, 2]));
    assert_eq!(legacy_files_plan(false, &[false, true, true]), Err(1));
    assert_eq!(legacy_files_plan(false, &[false, false]), Ok(vec![]));
    assert_eq!(legacy_files_plan(true, &[]), Ok(vec![]));
}

#[test]
fn private_key_sources() {
    assert_eq!(private_key_source(Some(3), false, false, false), Ok(KeySource::Development(3)));
    assert_eq!(private_key_source(Some(3), true, true, false), Ok(KeySource::Development(3)));
    assert_eq!(private_key_source(None, true, false, false), Ok(KeySource::Given));
    assert_eq!(private_key_source(None, false, true, false), Ok(KeySource::File));
    assert_eq!(private_key_source(None, true, true, true), Err(KeySourceError::Both));
    assert_eq!(private_key_source(None, false, false, true), Ok(KeySource::Random));
    assert_eq!(private_key_source(None, false, false, false), Err(KeySourceError::Missing));
}

#[test]
fn runtime_threads() {
    assert_eq!(runtime_thread_counts(8), (16, 512, 8));
    assert_eq!(runtime_thread_counts(1), (2, 512, 1));
}

fn addr(a: u32, port: u16) -> SocketAddress {
    SocketAddress { ip: IpAddress::V4(a), port }
}

#[test]
fn trusted_peers_without_bootstrap() {
    let trusted = [addr(1, 1), addr(2, 2), addr(3, 3), addr(2, 2)];
    let bootstrap = [addr(2, 2), addr(9, 9)];
    assert_eq!(remove_bootstrap_peers(&trusted, &bootstrap), vec![addr(1, 1), addr(3, 3)]);
    assert_eq!(remove_bootstrap_peers(&trusted, &[]), trusted.to_vec());
}

#[test]
fn listening_addresses() {
    assert_eq!(node_address(None), addr(0, 4130));
    assert_eq!(node_address(Some(addr(7, 1))), addr(7, 1));
    assert_eq!(rest_address(false, None), Some(addr(0, 3030)));
    assert_eq!(rest_address(false, Some(addr(0x7f00_0001, 8080))), Some(addr(0x7f00_0001, 8080)));
    assert_eq!(rest_address(true, Some(addr(0x7f00_0001, 8080))), None);
}

#[test]
fn storage_paths() {
    assert_eq!(storage_mode(true, Some(1)), StorageMode::Custom);
    assert_eq!(storage_mode(false, Some(1)), StorageMode::Development(1));
    assert_eq!(storage_mode(false, None), StorageMode::Production);
    assert_eq!(check_storage_paths(true, StorageMode::Custom, NodeType::Validator), Ok(None));
    assert_eq!(check_storage_paths(false, StorageMode::Production, NodeType::Validator), Ok(None));
    assert_eq!(
        check_storage_paths(true, StorageMode::Production, NodeType::Validator),
        Err(StoragePathMismatch::NodeDataWithoutLedger)
    );
    assert_eq!(
        check_storage_paths(true, StorageMode::Development(2), NodeType::Client),
        Ok(Some(StoragePathMismatch::NodeDataWithoutLedger))
    );
    assert_eq!(
        check_storage_paths(false, StorageMode::Custom, NodeType::Validator),
        Err(StoragePathMismatch::LedgerWithoutNodeData)
    );
    assert_eq!(
        check_storage_paths(false, StorageMode::Custom, NodeType::Prover),
        Ok(Some(StoragePathMismatch::LedgerWithoutNodeData))
    );
}

#[test]
fn jwt_secrets() {
    let expected: Vec<u8> = (0u8..16).collect();
    assert_eq!(parse_jwt_secret("AAECAwQFBgcICQoLDA0ODw=="), Ok(expected));
    assert_eq!(parse_jwt_secret("AAECAwQFBgcICQoLDA0O"), Err(JwtSecretError::WrongLength));
    assert_eq!(parse_jwt_secret("not base64!"), Err(JwtSecretError::InvalidEncoding));
    assert_eq!(check_jwt_secret(None), Err(JwtSecretError::InvalidEncoding));
    assert_eq!(check_jwt_secret(Some(vec![0; 15])), Err(JwtSecretError::WrongLength));
    assert_eq!(check_jwt_secret(Some(vec![7; 16])), Ok(vec![7; 16]));
}

fn localhost(port: u16) -> SocketAddress {
    addr(0x7f00_0001, port)
}

#[test]
fn test_parse_development_addresses() {
    // `--dev 5`: the router at 4135 and the REST server at 3035, on all interfaces.
    assert_eq!(dev_listen_addresses(5, None, false, None), (addr(0, 4135), Some(addr(0, 3035))));
    // `--dev 1 --rest 127.0.0.1:8080`: the given REST address is kept.
    assert_eq!(
        dev_listen_addresses(1, None, false, Some(localhost(8080))),
        (addr(0, 4131), Some(localhost(8080)))
    );
    // `--dev 1 --norest`: no REST server.
    assert_eq!(dev_listen_addresses(1, None, true, None), (addr(0, 4131), None));
    // A given node address is kept.
    assert_eq!(dev_listen_addresses(1, Some(localhost(9000)), false, None).0, localhost(9000));
}

#[test]
fn test_parse_development_trusted_peers() {
    assert_eq!(dev_router_address(3), localhost(4133));
    // A client assigned validators 0 and 2 trusts their routers.
    assert_eq!(dev_client_trusted_peers(&[0, 2]), vec![localhost(4130), localhost(4132)]);
    assert_eq!(dev_trusted_peers(false, false, 5, 4, &[1, 3], None), Some(vec![localhost(4131), localhost(4133)]));
    // Two clients assigned validators differently get different peers.
    assert_ne!(dev_client_trusted_peers(&[0, 1]), dev_client_trusted_peers(&[2, 3]));
    // Validator 1 of 4 trusts the clients (nodes 4 and on) that were assigned it.
    let clients = [vec![0, 1], vec![2, 3], vec![1, 2]];
    assert_eq!(dev_validator_trusted_peers(1, 4, &clients), vec![localhost(4134), localhost(4136)]);
    assert_eq!(
        dev_trusted_peers(false, true, 1, 4, &[], Some(&clients)),
        Some(vec![localhost(4134), localhost(4136)])
    );
    // Without the number of clients, a validator trusts nobody; given peers are kept.
    assert_eq!(dev_trusted_peers(false, true, 1, 4, &[], None), Some(vec![]));
    assert_eq!(dev_trusted_peers(true, false, 5, 4, &[1, 3], None), None);
}

#[test]
fn bonded_genesis() {
    let e = |staker, validator, amount| BondedEntry { staker, validator, amount };
    // Two validators, one with a delegator.
    let entries = [e(1, 1, 100), e(2, 2, 100), e(3, 1, 10)];
    assert_eq!(bonded_members(&entries, &[1, 2], 100, 10), Ok(vec![(1, 110), (2, 100)]));
    assert_eq!(bonded_members(&[e(1, 1, 99)], &[1], 100, 10), Err(BondedError::ValidatorStakeTooLow));
    assert_eq!(bonded_members(&[e(3, 1, 9)], &[1], 100, 10), Err(BondedError::DelegatorStakeTooLow));
    assert_eq!(bonded_members(&[e(5, 5, 100)], &[1], 100, 10), Err(BondedError::NotDevelopmentAddress));
    // The first refused entry decides.
    assert_eq!(
        bonded_members(&[e(3, 1, 9), e(1, 1, 99)], &[1], 100, 10),
        Err(BondedError::DelegatorStakeTooLow)
    );
    // 1000 supply, 210 bonded: 790 left for two accounts.
    assert_eq!(
        bonded_genesis_distribution(&entries, &[1, 2], 2, 1000, 100, 10),
        Ok((vec![(1, 110), (2, 100)], vec![395, 395]))
    );
    assert_eq!(
        bonded_genesis_distribution(&entries, &[1, 2], 3, 1000, 100, 10),
        Err(BondedError::MemberCountMismatch)
    );
}
