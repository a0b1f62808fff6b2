use aleo_core::heartbeat::{
    bootstrap_candidates, bootstrap_surplus, bootstrap_to_connect, bootstrap_to_disconnect, candidates_by_height,
    connection_candidates, peers_to_ask, provers_to_disconnect, untrusted_prover_indices, clients_validators_to_disconnect, connect_log_level, contains_address,
    deficit_plan, disconnects_surplus, is_removable, oldest_peer_to_remove, peer_count_log_level, removable_peers,
    safety_check_minimum_number_of_peers, should_attempt_connection, surplus_plan, ConnectOutcome, LogLevel, NodeType,
    PeerInfo, MAXIMUM_NUMBER_OF_PEERS, MAXIMUM_NUMBER_OF_PROVERS, MEDIAN_NUMBER_OF_PEERS, MINIMUM_NUMBER_OF_PEERS,
};
use aleo_core::peering::{IpAddress, SocketAddress};

fn addr(i: u32) -> SocketAddress {
    SocketAddress { ip: IpAddress::V4(0x0a00_0000 + i), port: 4130 }
}

fn peer(i: u32, node_type: NodeType, last_seen: u64) -> PeerInfo {
    PeerInfo {
        listener_addr: addr(i),
        trusted: false,
        node_type,
        syncing_from_us: false,
        outbound_block_requests: 0,
        last_seen,
    }
}

#[test]
fn peer_limits_are_consistent() {
    assert!(safety_check_minimum_number_of_peers());
    assert_eq!(MINIMUM_NUMBER_OF_PEERS, 3);
    assert_eq!(MEDIAN_NUMBER_OF_PEERS, 10);
    assert_eq!(MAXIMUM_NUMBER_OF_PEERS, 21);
    assert_eq!(MAXIMUM_NUMBER_OF_PROVERS, 5);
}

#[test]
fn removability() {
    let p = peer(1, NodeType::Client, 0);
    assert!(is_removable(&p, false));
    assert!(!is_removable(&PeerInfo { trusted: true, ..p }, true));
    assert!(!is_removable(&PeerInfo { node_type: NodeType::BootstrapClient, ..p }, true));
    assert!(!is_removable(&PeerInfo { syncing_from_us: true, ..p }, true));
    // A peer this node syncs from stays while this node is not synced.
    let busy = PeerInfo { outbound_block_requests: 2, ..p };
    assert!(!is_removable(&busy, false));
    assert!(is_removable(&busy, true));
}

#[test]
fn removable_peers_oldest_first() {
    let peers = [
        peer(0, NodeType::Client, 50),
        PeerInfo { trusted: true, ..peer(1, NodeType::Client, 1) },
        peer(2, NodeType::Validator, 10),
        peer(3, NodeType::Prover, 50),
        peer(4, NodeType::BootstrapClient, 0),
        peer(5, NodeType::Client, 30),
    ];
    // Seen longest ago first; peers 0 and 3 were seen at the same time and keep their order.
    assert_eq!(removable_peers(&peers, true), vec![2, 5, 0, 3]);
    assert_eq!(removable_peers(&[], true), Vec::<usize>::new());
}

#[test]
fn oldest_peer_removal() {
    let removable = [4, 2, 9];
    assert_eq!(oldest_peer_to_remove(false, 10, &removable), Some(4));
    assert_eq!(oldest_peer_to_remove(true, 10, &removable), None);
    assert_eq!(oldest_peer_to_remove(false, MINIMUM_NUMBER_OF_PEERS, &removable), None);
    assert_eq!(oldest_peer_to_remove(false, 10, &[]), None);
}

#[test]
fn surplus_and_deficit_plans() {
    // 25 peers, 8 of them provers: 3 provers go, and 4 - 5 = 0 others.
    assert_eq!(surplus_plan(25, 8), (3, 0));
    // 30 peers, 2 provers: no prover goes, 9 - 2 = 7 clients or validators go.
    assert_eq!(surplus_plan(30, 2), (0, 7));
    assert_eq!(surplus_plan(10, 0), (0, 0));
    // 5 peers below the median of 10: 5 missing, 3 from the higher tier when available.
    assert_eq!(deficit_plan(5, 10), (5, 3, 2));
    assert_eq!(deficit_plan(5, 1), (5, 1, 4));
    assert_eq!(deficit_plan(12, 4), (0, 0, 0));
}

#[test]
fn surplus_disconnects_skip_provers() {
    let peers = [
        peer(0, NodeType::Prover, 0),
        peer(1, NodeType::Client, 0),
        peer(2, NodeType::Validator, 0),
        peer(3, NodeType::Client, 0),
    ];
    let order = [0, 1, 2, 3];
    assert_eq!(clients_validators_to_disconnect(&peers, &order, 2), vec![1, 2]);
    assert_eq!(clients_validators_to_disconnect(&peers, &order, 10), vec![1, 2, 3]);
    assert_eq!(clients_validators_to_disconnect(&peers, &order, 0), Vec::<usize>::new());
}

#[test]
fn bootstrap_peers() {
    let bootstrap = [addr(1), addr(2), addr(3)];
    let connected = [addr(2), addr(7)];
    assert_eq!(bootstrap_candidates(&bootstrap, &connected), vec![addr(1), addr(3)]);
    assert!(contains_address(&connected, addr(7)));
    assert!(!contains_address(&connected, addr(1)));
    assert_eq!(bootstrap_surplus(0), 0);
    assert_eq!(bootstrap_surplus(1), 0);
    assert_eq!(bootstrap_surplus(3), 2);
}

#[test]
fn connection_attempts_and_logging() {
    assert!(should_attempt_connection(None));
    assert!(!should_attempt_connection(Some(9)));
    assert!(should_attempt_connection(Some(10)));
    assert_eq!(connect_log_level(ConnectOutcome::Connected), LogLevel::Silent);
    assert_eq!(connect_log_level(ConnectOutcome::AlreadyConnected), LogLevel::Debug);
    assert_eq!(connect_log_level(ConnectOutcome::AlreadyConnecting), LogLevel::Debug);
    assert_eq!(connect_log_level(ConnectOutcome::Failed), LogLevel::Warn);
    assert_eq!(connect_log_level(ConnectOutcome::TaskFailed), LogLevel::Error);
    assert_eq!(peer_count_log_level(0, 30), LogLevel::Silent);
    assert_eq!(peer_count_log_level(0, 61), LogLevel::Warn);
    assert_eq!(peer_count_log_level(4, 61), LogLevel::Debug);
    assert!(disconnects_surplus(NodeType::Validator));
    assert!(!disconnects_surplus(NodeType::Prover));
}

#[test]
fn random_prover_disconnects() {
    let peers = [
        peer(0, NodeType::Prover, 0),
        PeerInfo { trusted: true, ..peer(1, NodeType::Prover, 0) },
        peer(2, NodeType::Client, 0),
        peer(3, NodeType::Prover, 0),
        peer(4, NodeType::Prover, 0),
        peer(5, NodeType::Prover, 0),
    ];
    assert_eq!(untrusted_prover_indices(&peers), vec![0, 3, 4, 5]);
    for _ in 0..20 {
        let mut picked = provers_to_disconnect(&peers, 2);
        assert_eq!(picked.len(), 2);
        picked.sort();
        picked.dedup();
        assert_eq!(picked.len(), 2);
        assert!(picked.iter().all(|i| [0, 3, 4, 5].contains(i)));
    }
    let mut all = provers_to_disconnect(&peers, 10);
    all.sort();
    assert_eq!(all, vec![0, 3, 4, 5]);
    assert!(provers_to_disconnect(&peers, 0).is_empty());
}

#[test]
fn random_connection_candidates() {
    let heights = [Some(5), Some(20), None, Some(30), Some(10), Some(25)];
    assert_eq!(candidates_by_height(&heights, 10, true), vec![1, 3, 5]);
    assert_eq!(candidates_by_height(&heights, 10, false), vec![0, 2, 4]);
    // Six peers connected: four are missing, two picked from each side.
    let (higher, other) = connection_candidates(&heights, 10, 6);
    assert_eq!(higher.len(), 2);
    assert_eq!(other.len(), 2);
    assert!(higher.iter().all(|i| [1, 3, 5].contains(i)));
    assert!(other.iter().all(|i| [0, 2, 4].contains(i)));
    // Nine missing: five from the higher side, but only three are there; six from the
    // others, who are three.
    let (higher, other) = connection_candidates(&heights, 10, 1);
    assert_eq!(higher.len(), 3);
    assert_eq!(other.len(), 3);
    // Enough peers: nobody is picked.
    let (higher, other) = connection_candidates(&heights, 10, 10);
    assert!(higher.is_empty() && other.is_empty());
}

#[test]
fn random_peer_requests_and_bootstrap() {
    let mut asked = peers_to_ask(8);
    assert_eq!(asked.len(), 3);
    asked.sort();
    asked.dedup();
    assert_eq!(asked.len(), 3);
    assert!(asked.iter().all(|&i| i < 8));
    assert_eq!(peers_to_ask(2).len(), 2);
    assert!(peers_to_ask(0).is_empty());

    assert!(bootstrap_to_connect(3, 0).unwrap() < 3);
    assert_eq!(bootstrap_to_connect(3, 1), None);
    assert_eq!(bootstrap_to_connect(0, 0), None);

    let mut dropped = bootstrap_to_disconnect(4);
    assert_eq!(dropped.len(), 3);
    dropped.sort();
    dropped.dedup();
    assert_eq!(dropped.len(), 3);
    assert!(dropped.iter().all(|&i| i < 4));
    assert!(bootstrap_to_disconnect(1).is_empty());
    assert!(bootstrap_to_disconnect(0).is_empty());
}
