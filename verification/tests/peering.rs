use aleo_core::peering::{
    accept_inbound, can_add_connection, connect_check, initial_peers, is_loopback, is_self_connect, max, ConnectError,
    IpAddress, SocketAddress,
};

fn v4(a: u8, b: u8, c: u8, d: u8, port: u16) -> SocketAddress {
    let ip = ((a as u32) << 24) | ((b as u32) << 16) | ((c as u32) << 8) | d as u32;
    SocketAddress { ip: IpAddress::V4(ip), port }
}

#[test]
fn max_picks_the_larger() {
    assert_eq!(max(3, 7), 7);
    assert_eq!(max(7, 3), 7);
    assert_eq!(max(5, 5), 5);
}

#[test]
fn loopback_addresses() {
    assert!(is_loopback(v4(127, 0, 0, 1, 0).ip));
    assert!(is_loopback(v4(127, 255, 1, 2, 0).ip));
    assert!(!is_loopback(v4(1, 2, 3, 4, 0).ip));
    assert!(is_loopback(IpAddress::V6(1)));
    assert!(!is_loopback(IpAddress::V6(2)));
}

#[test]
fn self_connection_on_loopback_compares_ports() {
    let listening = v4(127, 0, 0, 1, 4130);
    assert!(is_self_connect(listening, v4(127, 0, 0, 1, 4130)));
    assert!(is_self_connect(listening, v4(10, 0, 0, 1, 4130)));
    assert!(!is_self_connect(listening, v4(127, 0, 0, 1, 4131)));
}

#[test]
fn self_connection_elsewhere_compares_addresses() {
    let listening = v4(10, 0, 0, 1, 4130);
    assert!(is_self_connect(listening, v4(10, 0, 0, 1, 9999)));
    assert!(!is_self_connect(listening, v4(10, 0, 0, 2, 4130)));
}

#[test]
fn test_can_add_connection_limits() {
    // With a limit of one: free, one active, one pending, both.
    assert!(can_add_connection(0, 0, 1));
    assert!(!can_add_connection(1, 0, 1));
    assert!(!can_add_connection(0, 1, 1));
    assert!(!can_add_connection(1, 1, 1));
    assert!(can_add_connection(2, 2, 5));
    assert!(!can_add_connection(3, 2, 5));
}

#[test]
fn connect_checks_in_order() {
    let listening = Some(v4(10, 0, 0, 1, 4130));
    let other = v4(1, 2, 3, 4, 4242);
    assert_eq!(connect_check(listening, other, 0, 0, 1, false, false), Ok(()));
    assert_eq!(
        connect_check(listening, other, 1, 0, 1, false, false),
        Err(ConnectError::MaximumConnectionsReached { limit: 1 })
    );
    assert_eq!(
        connect_check(listening, other, 0, 1, 1, false, false),
        Err(ConnectError::MaximumConnectionsReached { limit: 1 })
    );
    assert_eq!(
        connect_check(listening, other, 0, 0, 5, true, false),
        Err(ConnectError::AlreadyConnected { address: other })
    );
    assert_eq!(
        connect_check(listening, other, 0, 0, 5, false, true),
        Err(ConnectError::AlreadyConnecting { address: other })
    );
    // A self-connection is refused before the limit is looked at.
    let me = v4(10, 0, 0, 1, 1);
    assert_eq!(connect_check(listening, me, 9, 9, 1, true, true), Err(ConnectError::SelfConnect { address: me }));
    // Without a listener there is no self-connection.
    assert_eq!(connect_check(None, me, 0, 0, 5, false, false), Ok(()));
}

#[test]
fn inbound_admission() {
    let listening = v4(10, 0, 0, 1, 4130);
    assert!(accept_inbound(listening, v4(1, 2, 3, 4, 5), 0, 0, 2));
    assert!(!accept_inbound(listening, v4(1, 2, 3, 4, 5), 2, 0, 2));
    assert!(!accept_inbound(listening, v4(10, 0, 0, 1, 5), 0, 0, 2));
}

#[test]
fn router_initial_peers() {
    let a = v4(1, 1, 1, 1, 1);
    let b = v4(2, 2, 2, 2, 2);
    let c = v4(3, 3, 3, 3, 3);
    // Cached peers join untrusted; a cached peer that is trusted joins trusted, once.
    let mut peers = initial_peers(&[a, b, a], &[b, c], false);
    peers.sort_by_key(|(addr, _)| addr.port);
    assert_eq!(peers, vec![(a, false), (b, true), (c, true)]);
    // With trusted peers only, the cache is ignored.
    let mut peers = initial_peers(&[a, b], &[b, c, c], true);
    peers.sort_by_key(|(addr, _)| addr.port);
    assert_eq!(peers, vec![(b, true), (c, true)]);
    assert!(initial_peers(&[], &[], false).is_empty());
}
