//! Connection admission of the TCP stack: self-connection detection, connection limits
//! and the checks made before connecting to a peer; and the router's initial peers.
use vstd::prelude::*;

verus! {

/// Returns the larger of `a` and `b`.
pub fn max(a: usize, b: usize) -> (r: usize)
    ensures
        r == if a > b { a } else { b },
{
    if a > b {
        a
    } else {
        b
    }
}

/// An application-level reason to reject a connection or abort a handshake.
pub trait ApplicationError: core::fmt::Debug {

}

/// An IP address.
#[derive(Clone, Copy, Debug, PartialEq, Eq, Structural)]
pub enum IpAddress {
    /// An IPv4 address, its four octets big-endian in a `u32`.
    V4(u32),
    /// An IPv6 address, its sixteen octets big-endian in a `u128`.
    V6(u128),
}

/// A socket address: an IP address and a port.
#[derive(Clone, Copy, Debug, PartialEq, Eq, Structural)]
pub struct SocketAddress {
    pub ip: IpAddress,
    pub port: u16,
}

/// A loopback address: `127.0.0.0/8` for IPv4, `::1` for IPv6.
pub open spec fn spec_is_loopback(ip: IpAddress) -> bool {
    match ip {
        IpAddress::V4(a) => a / 0x0100_0000 == 127,
        IpAddress::V6(a) => a == 1,
    }
}

/// Whether `addr` is this node itself, listening at `listening`: on a loopback address
/// the ports must match (only an outbound connection knows the peer's port); otherwise
/// the IP addresses must match.
pub open spec fn spec_is_self_connect(listening: SocketAddress, addr: SocketAddress) -> bool {
    if spec_is_loopback(listening.ip) {
        listening.port == addr.port
    } else {
        listening.ip == addr.ip
    }
}

/// Whether one more connection fits: fewer active connections than the limit, and fewer
/// active and pending connections together than the limit.
pub open spec fn spec_can_add_connection(num_connected: int, num_connecting: int, limit: int) -> bool {
    num_connected < limit && num_connected + num_connecting < limit
}

/// Why a connection attempt was refused before it started.
#[derive(Clone, Copy, Debug, PartialEq, Eq, Structural)]
pub enum ConnectError {
    /// The connection limit is reached.
    MaximumConnectionsReached { limit: u16 },
    /// A connection to the address is already being set up.
    AlreadyConnecting { address: SocketAddress },
    /// The address is already connected.
    AlreadyConnected { address: SocketAddress },
    /// The address is this node itself.
    SelfConnect { address: SocketAddress },
}

/// The outcome of the checks before connecting to `addr`: self-connection first (when the
/// node listens), then the connection limit, then an existing connection, then a pending one.
pub open spec fn spec_connect_check(
    listening: Option<SocketAddress>,
    addr: SocketAddress,
    num_connected: int,
    num_connecting: int,
    limit: u16,
    is_connected: bool,
    is_connecting: bool,
) -> Result<(), ConnectError> {
    if listening matches Some(l) && (addr == l || spec_is_self_connect(l, addr)) {
        Err(ConnectError::SelfConnect { address: addr })
    } else if !spec_can_add_connection(num_connected, num_connecting, limit as int) {
        Err(ConnectError::MaximumConnectionsReached { limit })
    } else if is_connected {
        Err(ConnectError::AlreadyConnected { address: addr })
    } else if is_connecting {
        Err(ConnectError::AlreadyConnecting { address: addr })
    } else {
        Ok(())
    }
}

/// Whether `ip` is a loopback address.
pub fn is_loopback(ip: IpAddress) -> (r: bool)
    ensures
        r == spec_is_loopback(ip),
{
    match ip {
        IpAddress::V4(a) => a / 0x0100_0000 == 127,
        IpAddress::V6(a) => a == 1,
    }
}

/// Whether `addr` is this node itself, listening at `listening`.
pub fn is_self_connect(listening: SocketAddress, addr: SocketAddress) -> (r: bool)
    ensures
        r == spec_is_self_connect(listening, addr),
{
    if is_loopback(listening.ip) {
        listening.port == addr.port
    } else {
        listening.ip == addr.ip
    }
}

/// Whether the stack can take one more connection, given the numbers of active and
/// pending connections and the limit.
pub fn can_add_connection(num_connected: usize, num_connecting: usize, max_connections: u16) -> (r: bool)
    requires
        num_connected + num_connecting <= usize::MAX,
    ensures
        r == spec_can_add_connection(num_connected as int, num_connecting as int, max_connections as int),
{
    let limit = max_connections as usize;
    if num_connected >= limit {
        false
    } else if num_connected + num_connecting >= limit {
        false
    } else {
        true
    }
}

/// The checks before connecting to `addr`; on success the caller registers `addr` as
/// pending and connects.
pub fn connect_check(
    listening: Option<SocketAddress>,
    addr: SocketAddress,
    num_connected: usize,
    num_connecting: usize,
    max_connections: u16,
    is_connected: bool,
    is_connecting: bool,
) -> (r: Result<(), ConnectError>)
    requires
        num_connected + num_connecting <= usize::MAX,
    ensures
        r == spec_connect_check(
            listening,
            addr,
            num_connected as int,
            num_connecting as int,
            max_connections,
            is_connected,
            is_connecting,
        ),
{
    if let Some(l) = listening {
        if addr == l || is_self_connect(l, addr) {
            return Err(ConnectError::SelfConnect { address: addr });
        }
    }
    if !can_add_connection(num_connected, num_connecting, max_connections) {
        return Err(ConnectError::MaximumConnectionsReached { limit: max_connections });
    }
    if is_connected {
        return Err(ConnectError::AlreadyConnected { address: addr });
    }
    if is_connecting {
        return Err(ConnectError::AlreadyConnecting { address: addr });
    }
    Ok(())
}

/// Whether an inbound connection from `addr` is accepted: the limit allows it and it is
/// not this node itself.
pub fn accept_inbound(
    listening: SocketAddress,
    addr: SocketAddress,
    num_connected: usize,
    num_connecting: usize,
    max_connections: u16,
) -> (r: bool)
    requires
        num_connected + num_connecting <= usize::MAX,
    ensures
        r == (spec_can_add_connection(num_connected as int, num_connecting as int, max_connections as int)
            && !spec_is_self_connect(listening, addr)),
{
    can_add_connection(num_connected, num_connecting, max_connections) && !is_self_connect(listening, addr)
}

/// A connection is admitted only below the limit: when the check passes, the active and
/// pending connections stay below the limit after one more is added to the pending ones.
pub proof fn lemma_admission_respects_limit(
    listening: Option<SocketAddress>,
    addr: SocketAddress,
    num_connected: int,
    num_connecting: int,
    limit: u16,
    is_connected: bool,
    is_connecting: bool,
)
    requires
        0 <= num_connected,
        0 <= num_connecting,
        spec_connect_check(listening, addr, num_connected, num_connecting, limit, is_connected, is_connecting)
            is Ok,
    ensures
        num_connected + num_connecting + 1 <= limit,
        !is_connected,
        !is_connecting,
        listening matches Some(l) ==> addr != l,
{
}

/// A node never admits a connection to its own listening address.
pub proof fn lemma_no_self_connection(
    l: SocketAddress,
    num_connected: int,
    num_connecting: int,
    limit: u16,
    is_connected: bool,
    is_connecting: bool,
)
    ensures
        spec_connect_check(Some(l), l, num_connected, num_connecting, limit, is_connected, is_connecting)
            == Err::<(), ConnectError>(ConnectError::SelfConnect { address: l }),
{
}

/// Whether `addr` is among the initial peers of a router, and whether as a trusted peer:
/// every trusted peer, trusted; unless only trusted peers are allowed, every cached peer
/// that is not trusted, untrusted.
pub open spec fn spec_initial_peer(
    cached: Seq<SocketAddress>,
    trusted: Seq<SocketAddress>,
    trusted_peers_only: bool,
    addr: SocketAddress,
) -> Option<bool> {
    if trusted.contains(addr) {
        Some(true)
    } else if !trusted_peers_only && cached.contains(addr) {
        Some(false)
    } else {
        None
    }
}

/// Whether `a` holds each address at most once.
pub open spec fn distinct_addresses(a: Seq<(SocketAddress, bool)>) -> bool {
    forall|i: int, j: int| 0 <= i < j < a.len() ==> (#[trigger] a[i]).0 != (#[trigger] a[j]).0
}

/// Whether some entry of `peers` has the address `a`.
pub open spec fn has_address(peers: Seq<(SocketAddress, bool)>, a: SocketAddress) -> bool {
    exists|k: int| 0 <= k < peers.len() && (#[trigger] peers[k]).0 == a
}

/// The position of the entry of `peers` with the address `a`, if there is one.
fn position_of_address(peers: &Vec<(SocketAddress, bool)>, a: SocketAddress) -> (r: Option<usize>)
    ensures
        match r {
            Some(i) => i < peers@.len() && peers@[i as int].0 == a,
            None => !has_address(peers@, a),
        },
{
    let mut i: usize = 0;
    while i < peers.len()
        invariant
            i <= peers@.len(),
            forall|j: int| 0 <= j < i ==> (#[trigger] peers@[j]).0 != a,
        decreases peers@.len() - i,
    {
        if peers[i].0 == a {
            return Some(i);
        }
        i = i + 1;
    }
    None
}

/// Appending an entry keeps the addresses there were.
proof fn lemma_has_address_push(peers: Seq<(SocketAddress, bool)>, e: (SocketAddress, bool), a: SocketAddress)
    ensures
        has_address(peers.push(e), a) <==> (has_address(peers, a) || e.0 == a),
{
    let q = peers.push(e);
    if has_address(peers, a) {
        let k = choose|k: int| 0 <= k < peers.len() && (#[trigger] peers[k]).0 == a;
        assert(q[k] == peers[k]);
    }
    if e.0 == a {
        assert(q[peers.len() as int] == e);
    }
    if has_address(q, a) {
        let k = choose|k: int| 0 <= k < q.len() && (#[trigger] q[k]).0 == a;
        if k < peers.len() {
            assert(q[k] == peers[k]);
        }
    }
}

/// The initial peers of a router, each once, with whether it is trusted: the cached peers
/// (unless only trusted peers are allowed) and the trusted peers, a trusted peer being
/// trusted even when it is cached too.
pub fn initial_peers(cached: &[SocketAddress], trusted: &[SocketAddress], trusted_peers_only: bool) -> (r: Vec<
    (SocketAddress, bool),
>)
    ensures
        distinct_addresses(r@),
        forall|i: int|
            0 <= i < r@.len() ==> spec_initial_peer(cached@, trusted@, trusted_peers_only, (#[trigger] r@[i]).0)
                == Some(r@[i].1),
        forall|a: SocketAddress|
            #[trigger] spec_initial_peer(cached@, trusted@, trusted_peers_only, a) is Some ==> has_address(r@, a),
{
    let mut r: Vec<(SocketAddress, bool)> = Vec::new();
    let mut t: usize = 0;
    while t < trusted.len()
        invariant
            t <= trusted@.len(),
            distinct_addresses(r@),
            forall|k: int| 0 <= k < r@.len() ==> (#[trigger] r@[k]).1 && trusted@.contains(r@[k].0),
            forall|j: int| 0 <= j < t ==> has_address(r@, #[trigger] trusted@[j]),
        decreases trusted@.len() - t,
    {
        let a = trusted[t];
        if position_of_address(&r, a).is_none() {
            let ghost old_r = r@;
            r.push((a, true));
            proof {
                assert forall|j: int| 0 <= j < t + 1 implies has_address(r@, #[trigger] trusted@[j]) by {
                    lemma_has_address_push(old_r, (a, true), trusted@[j]);
                }
                assert(trusted@.contains(a)) by {
                    assert(trusted@[t as int] == a);
                }
            }
        }
        t = t + 1;
    }
    if !trusted_peers_only {
        let mut i: usize = 0;
        while i < cached.len()
            invariant
                i <= cached@.len(),
                !trusted_peers_only,
                distinct_addresses(r@),
                forall|k: int|
                    0 <= k < r@.len() ==> spec_initial_peer(cached@, trusted@, trusted_peers_only, (#[trigger] r@[k]).0)
                        == Some(r@[k].1),
                forall|j: int| 0 <= j < trusted@.len() ==> has_address(r@, #[trigger] trusted@[j]),
                forall|j: int| 0 <= j < i ==> has_address(r@, #[trigger] cached@[j]),
            decreases cached@.len() - i,
        {
            let a = cached[i];
            if position_of_address(&r, a).is_none() {
                let ghost old_r = r@;
                proof {
                    if trusted@.contains(a) {
                        let j = choose|j: int| 0 <= j < trusted@.len() && trusted@[j] == a;
                        assert(has_address(old_r, trusted@[j]));
                    }
                    assert(cached@[i as int] == a);
                }
                r.push((a, false));
                proof {
                    assert forall|j: int| 0 <= j < trusted@.len() implies has_address(r@, #[trigger] trusted@[j]) by {
                        lemma_has_address_push(old_r, (a, false), trusted@[j]);
                    }
                    assert forall|j: int| 0 <= j < i + 1 implies has_address(r@, #[trigger] cached@[j]) by {
                        lemma_has_address_push(old_r, (a, false), cached@[j]);
                    }
                }
            }
            i = i + 1;
        }
        proof {
            assert forall|a: SocketAddress|
                #[trigger] spec_initial_peer(cached@, trusted@, trusted_peers_only, a) is Some implies has_address(r@, a) by {
                if trusted@.contains(a) {
                    let j = choose|j: int| 0 <= j < trusted@.len() && trusted@[j] == a;
                    assert(has_address(r@, trusted@[j]));
                } else {
                    let j = choose|j: int| 0 <= j < cached@.len() && cached@[j] == a;
                    assert(has_address(r@, cached@[j]));
                }
            }
        }
    } else {
        proof {
            assert forall|a: SocketAddress|
                #[trigger] spec_initial_peer(cached@, trusted@, trusted_peers_only, a) is Some implies has_address(r@, a) by {
                let j = choose|j: int| 0 <= j < trusted@.len() && trusted@[j] == a;
                assert(has_address(r@, trusted@[j]));
            }
        }
    }
    r
}

} // verus!
