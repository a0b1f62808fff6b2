//! The decisions of the router heartbeat: its peer limits, which peers may be dropped and
//! in which order, how many peers to drop or to look for, which of them are picked at
//! random, and how connection failures are reported.
use vstd::prelude::*;

use crate::peering::SocketAddress;

verus! {

/// The minimum number of peers to keep connections with.
pub const MINIMUM_NUMBER_OF_PEERS: usize = 3;

/// The maximum number of peers to keep connections with.
pub const MAXIMUM_NUMBER_OF_PEERS: usize = 21;

/// The median number of peers to keep connections with: the larger of half the maximum
/// and the minimum.
pub const MEDIAN_NUMBER_OF_PEERS: usize = 10;

/// The maximum number of provers to keep connections with: a quarter of the maximum.
pub const MAXIMUM_NUMBER_OF_PROVERS: usize = 5;

/// The seconds between heartbeats.
pub const HEARTBEAT_INTERVAL_IN_SECS: u64 = 25;

/// The minimum seconds between two connection attempts to a peer.
pub const MINIMUM_SECS_BETWEEN_CONNECTION_ATTEMPTS: u64 = 10;

/// The seconds after start-up during which a lack of peers is not reported.
pub const STARTUP_GRACE_PERIOD_IN_SECS: u64 = 60;

/// The seconds for which an IP address stays banned.
pub const IP_BAN_TIME_IN_SECS: u64 = 300;

/// The larger of two numbers.
pub open spec fn spec_max(a: int, b: int) -> int {
    if a > b {
        a
    } else {
        b
    }
}

/// The limits are consistent: at least one peer, the minimum below the median, the median
/// below the maximum, and the median and prover limit derived from the maximum.
pub proof fn lemma_peer_limits()
    ensures
        MINIMUM_NUMBER_OF_PEERS >= 1,
        MINIMUM_NUMBER_OF_PEERS <= MAXIMUM_NUMBER_OF_PEERS,
        MINIMUM_NUMBER_OF_PEERS <= MEDIAN_NUMBER_OF_PEERS,
        MEDIAN_NUMBER_OF_PEERS <= MAXIMUM_NUMBER_OF_PEERS,
        MAXIMUM_NUMBER_OF_PROVERS <= MAXIMUM_NUMBER_OF_PEERS,
        MEDIAN_NUMBER_OF_PEERS == spec_max(MAXIMUM_NUMBER_OF_PEERS as int / 2, MINIMUM_NUMBER_OF_PEERS as int),
        MAXIMUM_NUMBER_OF_PROVERS == MAXIMUM_NUMBER_OF_PEERS / 4,
{
}

/// Checks the peer limits; they always hold.
pub fn safety_check_minimum_number_of_peers() -> (r: bool)
    ensures
        r,
{
    MINIMUM_NUMBER_OF_PEERS >= 1 && MINIMUM_NUMBER_OF_PEERS <= MAXIMUM_NUMBER_OF_PEERS
        && MINIMUM_NUMBER_OF_PEERS <= MEDIAN_NUMBER_OF_PEERS && MEDIAN_NUMBER_OF_PEERS
        <= MAXIMUM_NUMBER_OF_PEERS && MAXIMUM_NUMBER_OF_PROVERS <= MAXIMUM_NUMBER_OF_PEERS
}

/// The type of a node.
#[derive(Clone, Copy, Debug, PartialEq, Eq, Structural)]
pub enum NodeType {
    Client,
    Prover,
    Validator,
    BootstrapClient,
}

impl NodeType {
    /// Whether the node is a prover.
    pub fn is_prover(&self) -> (r: bool)
        ensures
            r == (*self == NodeType::Prover),
    {
        match self {
            NodeType::Prover => true,
            _ => false,
        }
    }
}

/// What the heartbeat knows of a connected peer.
#[derive(Clone, Copy, Debug, PartialEq, Eq, Structural)]
pub struct PeerInfo {
    /// The address the peer listens at.
    pub listener_addr: SocketAddress,
    /// Whether the peer is trusted.
    pub trusted: bool,
    /// The peer's node type.
    pub node_type: NodeType,
    /// Whether the peer is syncing blocks from this node.
    pub syncing_from_us: bool,
    /// The number of block requests this node has sent to the peer.
    pub outbound_block_requests: usize,
    /// When the peer was last seen, in milliseconds of a monotonic clock.
    pub last_seen: u64,
}

/// A peer may be dropped when it is not trusted, not a bootstrap client, not syncing from
/// this node, and, unless this node is synced, not being synced from.
pub open spec fn spec_is_removable(p: PeerInfo, is_block_synced: bool) -> bool {
    &&& !p.trusted
    &&& p.node_type != NodeType::BootstrapClient
    &&& !p.syncing_from_us
    &&& (is_block_synced || p.outbound_block_requests == 0)
}

/// Peer `a` comes before peer `b` in the order of removal: seen earlier, or seen at the
/// same time and listed earlier.
pub open spec fn removal_before(peers: Seq<PeerInfo>, a: int, b: int) -> bool {
    peers[a].last_seen < peers[b].last_seen || (peers[a].last_seen == peers[b].last_seen && a < b)
}

/// Whether `r` lists the removable peers, each once, in the order of removal.
pub open spec fn is_removal_order(peers: Seq<PeerInfo>, is_block_synced: bool, r: Seq<usize>) -> bool {
    &&& forall|j: int| 0 <= j < r.len() ==> #[trigger] r[j] < peers.len()
    &&& forall|k: int|
        0 <= k < peers.len() ==> (spec_is_removable(peers[k], is_block_synced) <==> r.contains(
            k as usize,
        ))
    &&& forall|a: int, b: int| 0 <= a < b < r.len() ==> removal_before(peers, #[trigger] r[a] as int, #[trigger] r[b] as int)
}

/// Two lists of peer indices, each strictly ordered for removal and holding the same
/// indices, are the same list.
proof fn lemma_sorted_same_elements(peers: Seq<PeerInfo>, r1: Seq<usize>, r2: Seq<usize>)
    requires
        forall|j: int| 0 <= j < r1.len() ==> #[trigger] r1[j] < peers.len(),
        forall|j: int| 0 <= j < r2.len() ==> #[trigger] r2[j] < peers.len(),
        forall|a: int, b: int| 0 <= a < b < r1.len() ==> removal_before(peers, #[trigger] r1[a] as int, #[trigger] r1[b] as int),
        forall|a: int, b: int| 0 <= a < b < r2.len() ==> removal_before(peers, #[trigger] r2[a] as int, #[trigger] r2[b] as int),
        forall|x: usize| r1.contains(x) <==> r2.contains(x),
    ensures
        r1 == r2,
    decreases r1.len(),
{
    if r1.len() == 0 {
        if r2.len() > 0 {
            assert(r2.contains(r2[0]));
        }
        assert(r1 =~= r2);
    } else {
        assert(r1.contains(r1[0]));
        assert(r2.len() > 0);
        let a = r1[0];
        let b = r2[0];
        if a != b {
            assert(r2.contains(a));
            let j = choose|j: int| 0 <= j < r2.len() && r2[j] == a;
            assert(removal_before(peers, r2[0] as int, r2[j] as int));
            assert(r2.contains(b));
            assert(r1.contains(b));
            let i = choose|i: int| 0 <= i < r1.len() && r1[i] == b;
            assert(removal_before(peers, r1[0] as int, r1[i] as int));
            assert(false);
        }
        let t1 = r1.drop_first();
        let t2 = r2.drop_first();
        assert forall|x: usize| t1.contains(x) <==> t2.contains(x) by {
            if t1.contains(x) {
                let i = choose|i: int| 0 <= i < t1.len() && t1[i] == x;
                assert(r1[i + 1] == x);
                assert(removal_before(peers, r1[0] as int, r1[i + 1] as int));
                assert(r1.contains(x));
                assert(r2.contains(x));
                let j = choose|j: int| 0 <= j < r2.len() && r2[j] == x;
                assert(j != 0);
                assert(t2[j - 1] == x);
            }
            if t2.contains(x) {
                let j = choose|j: int| 0 <= j < t2.len() && t2[j] == x;
                assert(r2[j + 1] == x);
                assert(removal_before(peers, r2[0] as int, r2[j + 1] as int));
                assert(r2.contains(x));
                assert(r1.contains(x));
                let i = choose|i: int| 0 <= i < r1.len() && r1[i] == x;
                assert(i != 0);
                assert(t1[i - 1] == x);
            }
        }
        assert forall|a: int, b: int| 0 <= a < b < t1.len() implies removal_before(
            peers,
            #[trigger] t1[a] as int,
            #[trigger] t1[b] as int,
        ) by {
            assert(removal_before(peers, r1[a + 1] as int, r1[b + 1] as int));
        }
        assert forall|a: int, b: int| 0 <= a < b < t2.len() implies removal_before(
            peers,
            #[trigger] t2[a] as int,
            #[trigger] t2[b] as int,
        ) by {
            assert(removal_before(peers, r2[a + 1] as int, r2[b + 1] as int));
        }
        assert forall|j: int| 0 <= j < t1.len() implies #[trigger] t1[j] < peers.len() by {
            assert(r1[j + 1] < peers.len());
        }
        assert forall|j: int| 0 <= j < t2.len() implies #[trigger] t2[j] < peers.len() by {
            assert(r2[j + 1] < peers.len());
        }
        lemma_sorted_same_elements(peers, t1, t2);
        assert(r1 =~= seq![a] + t1);
        assert(r2 =~= seq![b] + t2);
    }
}

/// The order of removal is determined: two lists that both hold the removable peers, each
/// once, in the order of removal are the same list.
pub proof fn lemma_removal_order_unique(
    peers: Seq<PeerInfo>,
    is_block_synced: bool,
    r1: Seq<usize>,
    r2: Seq<usize>,
)
    requires
        is_removal_order(peers, is_block_synced, r1),
        is_removal_order(peers, is_block_synced, r2),
    ensures
        r1 == r2,
{
    assert forall|x: usize| r1.contains(x) <==> r2.contains(x) by {
        if r1.contains(x) {
            let j = choose|j: int| 0 <= j < r1.len() && r1[j] == x;
            assert(r1[j] < peers.len());
            assert(spec_is_removable(peers[x as int], is_block_synced));
        }
        if r2.contains(x) {
            let j = choose|j: int| 0 <= j < r2.len() && r2[j] == x;
            assert(r2[j] < peers.len());
            assert(spec_is_removable(peers[x as int], is_block_synced));
        }
    }
    lemma_sorted_same_elements(peers, r1, r2);
}

/// Whether `p` may be dropped.
pub fn is_removable(p: &PeerInfo, is_block_synced: bool) -> (r: bool)
    ensures
        r == spec_is_removable(*p, is_block_synced),
{
    !p.trusted && p.node_type != NodeType::BootstrapClient && !p.syncing_from_us && (is_block_synced
        || p.outbound_block_requests == 0)
}

/// Whether peer `a` comes before peer `b` in the order of removal.
fn before(peers: &[PeerInfo], a: usize, b: usize) -> (r: bool)
    requires
        a < peers@.len(),
        b < peers@.len(),
    ensures
        r == removal_before(peers@, a as int, b as int),
{
    peers[a].last_seen < peers[b].last_seen || (peers[a].last_seen == peers[b].last_seen && a < b)
}

/// The indices of the peers that may be dropped, those seen longest ago first; peers
/// seen at the same time keep their order.
pub fn removable_peers(peers: &[PeerInfo], is_block_synced: bool) -> (r: Vec<usize>)
    ensures
        is_removal_order(peers@, is_block_synced, r@),
{
    let n = peers.len();
    let mut r: Vec<usize> = Vec::new();
    let mut i: usize = 0;
    while i < n
        invariant
            i <= n,
            n == peers@.len(),
            forall|j: int| 0 <= j < r@.len() ==> #[trigger] r@[j] < i,
            forall|k: int|
                0 <= k < i ==> (spec_is_removable(peers@[k], is_block_synced) <==> r@.contains(
                    k as usize,
                )),
            forall|a: int, b: int| 0 <= a < b < r@.len() ==> removal_before(peers@, #[trigger] r@[a] as int, #[trigger] r@[b] as int),
        decreases n - i,
    {
        if is_removable(&peers[i], is_block_synced) {
            let m = r.len();
            let mut p: usize = 0;
            while p < m && before(peers, r[p], i)
                invariant
                    p <= m,
                    m == r@.len(),
                    i < n,
                    n == peers@.len(),
                    forall|j: int| 0 <= j < r@.len() ==> #[trigger] r@[j] < i,
                    forall|j: int| 0 <= j < p ==> removal_before(peers@, #[trigger] r@[j] as int, i as int),
                decreases m - p,
            {
                p = p + 1;
            }
            let ghost old_r = r@;
            proof {
                assert forall|j: int| p <= j < m implies removal_before(peers@, i as int, #[trigger] old_r[j] as int) by {
                    if j > p {
                        assert(removal_before(peers@, old_r[p as int] as int, old_r[j] as int));
                    }
                    assert(!removal_before(peers@, old_r[p as int] as int, i as int));
                    assert(old_r[p as int] < i);
                }
            }
            r.insert(p, i);
            proof {
                assert(r@ == old_r.insert(p as int, i));
                assert forall|j: int| 0 <= j < r@.len() implies #[trigger] r@[j] < i + 1 by {
                    if j < p {
                        assert(r@[j] == old_r[j]);
                    } else if j > p {
                        assert(r@[j] == old_r[j - 1]);
                    }
                }
                assert forall|k: int| 0 <= k < i + 1 implies (spec_is_removable(peers@[k], is_block_synced)
                    <==> r@.contains(k as usize)) by {
                    if k < i {
                        if old_r.contains(k as usize) {
                            let j = choose|j: int| 0 <= j < old_r.len() && old_r[j] == k as usize;
                            if j < p {
                                assert(r@[j] == k as usize);
                            } else {
                                assert(r@[j + 1] == k as usize);
                            }
                        }
                        if r@.contains(k as usize) {
                            let j = choose|j: int| 0 <= j < r@.len() && r@[j] == k as usize;
                            if j < p {
                                assert(old_r[j] == k as usize);
                            } else if j > p {
                                assert(old_r[j - 1] == k as usize);
                            }
                        }
                    } else {
                        assert(r@[p as int] == i);
                    }
                }
                assert forall|a: int, b: int| 0 <= a < b < r@.len() implies removal_before(
                    peers@,
                    #[trigger] r@[a] as int,
                    #[trigger] r@[b] as int,
                ) by {
                    if b < p {
                        assert(r@[a] == old_r[a] && r@[b] == old_r[b]);
                    } else if b == p {
                        assert(r@[a] == old_r[a]);
                    } else if a > p {
                        assert(r@[a] == old_r[a - 1] && r@[b] == old_r[b - 1]);
                    } else if a == p {
                        assert(r@[b] == old_r[b - 1]);
                    } else {
                        assert(r@[a] == old_r[a] && r@[b] == old_r[b - 1]);
                    }
                }
            }
        } else {
            proof {
                assert(!r@.contains(i)) by {
                    if r@.contains(i) {
                        let j = choose|j: int| 0 <= j < r@.len() && r@[j] == i;
                        assert(r@[j] < i);
                    }
                }
            }
        }
        i = i + 1;
    }
    proof {
        assert forall|j: int| 0 <= j < r@.len() implies #[trigger] r@[j] < peers@.len() by {
            assert(r@[j] < i);
        }
    }
    r
}

/// The peer to drop to keep connections fresh: none when only trusted peers are wanted or
/// there are not more peers than the minimum; else the first peer in the order of removal.
pub fn oldest_peer_to_remove(trusted_peers_only: bool, num_connected: usize, removable: &[usize]) -> (r: Option<usize>)
    ensures
        r == if trusted_peers_only || num_connected <= MINIMUM_NUMBER_OF_PEERS || removable@.len() == 0 {
            None::<usize>
        } else {
            Some(removable@[0])
        },
{
    if trusted_peers_only || num_connected <= MINIMUM_NUMBER_OF_PEERS || removable.len() == 0 {
        None
    } else {
        Some(removable[0])
    }
}

/// `a - b`, or zero when `b` is larger.
pub open spec fn sat_sub(a: int, b: int) -> int {
    if a > b {
        a - b
    } else {
        0
    }
}

/// How many provers, and how many clients and validators, to drop: the provers above
/// their limit, and of the peers above the overall limit those that dropping the provers
/// does not already cover.
pub fn surplus_plan(num_connected: usize, num_connected_provers: usize) -> (r: (usize, usize))
    ensures
        r.0 == sat_sub(num_connected_provers as int, MAXIMUM_NUMBER_OF_PROVERS as int),
        r.1 == sat_sub(
            sat_sub(num_connected as int, MAXIMUM_NUMBER_OF_PEERS as int),
            sat_sub(num_connected_provers as int, r.0 as int),
        ),
{
    let num_surplus_peers = num_connected.saturating_sub(MAXIMUM_NUMBER_OF_PEERS);
    let num_surplus_provers = num_connected_provers.saturating_sub(MAXIMUM_NUMBER_OF_PROVERS);
    let num_remaining_provers = num_connected_provers.saturating_sub(num_surplus_provers);
    let num_surplus_clients_validators = num_surplus_peers.saturating_sub(num_remaining_provers);
    (num_surplus_provers, num_surplus_clients_validators)
}

/// After the plan, the provers kept are within their limit.
pub proof fn lemma_surplus_plan_keeps_provers_within_limit(num_connected_provers: int)
    requires
        num_connected_provers >= 0,
    ensures
        num_connected_provers - sat_sub(num_connected_provers, MAXIMUM_NUMBER_OF_PROVERS as int)
            <= MAXIMUM_NUMBER_OF_PROVERS,
{
}

/// How many peers are missing to reach the median, how many of them to pick from the
/// candidates at a greater block height (half, rounded up, as far as there are such
/// candidates), and how many from the others.
pub fn deficit_plan(num_connected: usize, num_higher_candidates: usize) -> (r: (usize, usize, usize))
    ensures
        r.0 == sat_sub(MEDIAN_NUMBER_OF_PEERS as int, num_connected as int),
        r.1 == if (r.0 + 1) / 2 < num_higher_candidates {
            (r.0 + 1) / 2
        } else {
            num_higher_candidates as int
        },
        r.2 == sat_sub(r.0 as int, r.1 as int),
{
    let num_deficient = MEDIAN_NUMBER_OF_PEERS.saturating_sub(num_connected);
    let half = num_deficient / 2 + num_deficient % 2;
    let num_higher = if half < num_higher_candidates {
        half
    } else {
        num_higher_candidates
    };
    let num_other = num_deficient.saturating_sub(num_higher);
    (num_deficient, num_higher, num_other)
}

/// The peers listed in `order` that are not provers, in that order.
pub open spec fn non_provers(peers: Seq<PeerInfo>, order: Seq<usize>) -> Seq<usize>
    decreases order.len(),
{
    if order.len() == 0 {
        Seq::empty()
    } else if peers[order.last() as int].node_type == NodeType::Prover {
        non_provers(peers, order.drop_last())
    } else {
        non_provers(peers, order.drop_last()).push(order.last())
    }
}

/// The first `k` peers of `order` that are not provers: the clients and validators to drop.
pub fn clients_validators_to_disconnect(peers: &[PeerInfo], order: &[usize], k: usize) -> (r: Vec<usize>)
    requires
        forall|j: int| 0 <= j < order@.len() ==> #[trigger] order@[j] < peers@.len(),
    ensures
        r@ == if non_provers(peers@, order@).len() <= k {
            non_provers(peers@, order@)
        } else {
            non_provers(peers@, order@).take(k as int)
        },
{
    let mut all: Vec<usize> = Vec::new();
    let n = order.len();
    let mut i: usize = 0;
    while i < n
        invariant
            i <= n,
            n == order@.len(),
            forall|j: int| 0 <= j < order@.len() ==> #[trigger] order@[j] < peers@.len(),
            all@ == non_provers(peers@, order@.subrange(0, i as int)),
        decreases n - i,
    {
        let idx = order[i];
        proof {
            let s = order@.subrange(0, i + 1);
            assert(s.drop_last() =~= order@.subrange(0, i as int));
            assert(s.last() == idx);
        }
        if !peers[idx].node_type.is_prover() {
            all.push(idx);
        }
        i = i + 1;
    }
    assert(order@.subrange(0, n as int) =~= order@);
    if all.len() <= k {
        all
    } else {
        all.truncate(k);
        all
    }
}

/// The bootstrap peers that are not connected, in their order.
pub open spec fn unconnected(bootstrap: Seq<SocketAddress>, connected: Seq<SocketAddress>) -> Seq<SocketAddress>
    decreases bootstrap.len(),
{
    if bootstrap.len() == 0 {
        Seq::empty()
    } else if connected.contains(bootstrap.last()) {
        unconnected(bootstrap.drop_last(), connected)
    } else {
        unconnected(bootstrap.drop_last(), connected).push(bootstrap.last())
    }
}

/// The bootstrap peers to choose a new connection from: those not connected yet.
pub fn bootstrap_candidates(bootstrap: &[SocketAddress], connected: &[SocketAddress]) -> (r: Vec<SocketAddress>)
    ensures
        r@ == unconnected(bootstrap@, connected@),
{
    let mut r: Vec<SocketAddress> = Vec::new();
    let n = bootstrap.len();
    let mut i: usize = 0;
    while i < n
        invariant
            i <= n,
            n == bootstrap@.len(),
            r@ == unconnected(bootstrap@.subrange(0, i as int), connected@),
        decreases n - i,
    {
        let b = bootstrap[i];
        proof {
            let s = bootstrap@.subrange(0, i + 1);
            assert(s.drop_last() =~= bootstrap@.subrange(0, i as int));
            assert(s.last() == b);
        }
        if !contains_address(connected, b) {
            r.push(b);
        }
        i = i + 1;
    }
    assert(bootstrap@.subrange(0, n as int) =~= bootstrap@);
    r
}

/// Whether `addrs` holds `a`.
pub fn contains_address(addrs: &[SocketAddress], a: SocketAddress) -> (r: bool)
    ensures
        r == addrs@.contains(a),
{
    let n = addrs.len();
    let mut i: usize = 0;
    while i < n
        invariant
            i <= n,
            n == addrs@.len(),
            forall|j: int| 0 <= j < i ==> addrs@[j] != a,
        decreases n - i,
    {
        if addrs[i] == a {
            assert(addrs@[i as int] == a);
            return true;
        }
        i = i + 1;
    }
    false
}

/// How many connected bootstrap peers to drop: all but one.
pub fn bootstrap_surplus(num_connected_bootstrap: usize) -> (r: usize)
    ensures
        r == sat_sub(num_connected_bootstrap as int, 1),
{
    num_connected_bootstrap.saturating_sub(1)
}

/// Whether to try connecting to a peer whose last attempt was `elapsed_secs` ago, if any:
/// not within ten seconds of the last attempt.
pub fn should_attempt_connection(elapsed_secs_since_last_attempt: Option<u64>) -> (r: bool)
    ensures
        r == match elapsed_secs_since_last_attempt {
            Some(e) => e >= MINIMUM_SECS_BETWEEN_CONNECTION_ATTEMPTS,
            None => true,
        },
{
    match elapsed_secs_since_last_attempt {
        Some(e) => e >= MINIMUM_SECS_BETWEEN_CONNECTION_ATTEMPTS,
        None => true,
    }
}

/// The severity at which an event is reported.
#[derive(Clone, Copy, Debug, PartialEq, Eq, Structural)]
pub enum LogLevel {
    Silent,
    Debug,
    Warn,
    Error,
}

/// How a connection attempt ended.
#[derive(Clone, Copy, Debug, PartialEq, Eq, Structural)]
pub enum ConnectOutcome {
    /// The connection was made.
    Connected,
    /// The peer was already being connected to.
    AlreadyConnecting,
    /// The peer was already connected.
    AlreadyConnected,
    /// The attempt failed for another reason, such as a refused connection.
    Failed,
    /// The task making the attempt did not finish.
    TaskFailed,
}

/// The severity of a connection outcome: silence on success, debug for the benign
/// "already connected or connecting", a warning for other failures, an error for a
/// crashed task.
pub fn connect_log_level(outcome: ConnectOutcome) -> (r: LogLevel)
    ensures
        r == match outcome {
            ConnectOutcome::Connected => LogLevel::Silent,
            ConnectOutcome::AlreadyConnecting | ConnectOutcome::AlreadyConnected => LogLevel::Debug,
            ConnectOutcome::Failed => LogLevel::Warn,
            ConnectOutcome::TaskFailed => LogLevel::Error,
        },
{
    match outcome {
        ConnectOutcome::Connected => LogLevel::Silent,
        ConnectOutcome::AlreadyConnecting | ConnectOutcome::AlreadyConnected => LogLevel::Debug,
        ConnectOutcome::Failed => LogLevel::Warn,
        ConnectOutcome::TaskFailed => LogLevel::Error,
    }
}

/// The severity of the report of the connected peers: with none, a warning once the node
/// has been up past the grace period; otherwise a debug message.
pub fn peer_count_log_level(num_connected: usize, uptime_secs: u64) -> (r: LogLevel)
    ensures
        r == if num_connected == 0 {
            if uptime_secs > STARTUP_GRACE_PERIOD_IN_SECS {
                LogLevel::Warn
            } else {
                LogLevel::Silent
            }
        } else {
            LogLevel::Debug
        },
{
    if num_connected == 0 {
        if uptime_secs > STARTUP_GRACE_PERIOD_IN_SECS {
            LogLevel::Warn
        } else {
            LogLevel::Silent
        }
    } else {
        LogLevel::Debug
    }
}

/// Whether the surplus peers are disconnected: a prover leaves its peers alone.
pub fn disconnects_surplus(own_node_type: NodeType) -> (r: bool)
    ensures
        r == (own_node_type != NodeType::Prover),
{
    !own_node_type.is_prover()
}

/// The smaller of two numbers.
pub open spec fn spec_min(a: int, b: int) -> int {
    if a < b {
        a
    } else {
        b
    }
}

/// Whether `r` is a pick of `amount` of `candidates`: that many of them, or all when there
/// are fewer, each at most once.
pub open spec fn is_pick(candidates: Seq<usize>, amount: int, r: Seq<usize>) -> bool {
    &&& r.len() == spec_min(amount, candidates.len() as int)
    &&& forall|i: int| 0 <= i < r.len() ==> candidates.contains(#[trigger] r[i])
    &&& (candidates.no_duplicates() ==> r.no_duplicates())
}

/// Picks `amount` of `candidates` at random: rand's `IteratorRandom::sample` with a ChaCha
/// generator seeded from the thread's generator. As rand documents, the result holds
/// `amount` of the candidates, taken at distinct positions, or all of them when there are
/// fewer; which ones, and in which order, is left to chance.
#[verifier::external_body]
fn sample_indices(candidates: Vec<usize>, amount: usize) -> (r: Vec<usize>)
    ensures
        is_pick(candidates@, amount as int, r@),
{
    let mut rng = <rand_chacha::ChaChaRng as rand::SeedableRng>::from_rng(&mut rand::rng());
    rand::seq::IteratorRandom::sample(candidates.into_iter(), &mut rng, amount)
}

/// The indices of the peers that are untrusted provers, in order.
pub open spec fn untrusted_provers(peers: Seq<PeerInfo>) -> Seq<usize>
    decreases peers.len(),
{
    if peers.len() == 0 {
        Seq::empty()
    } else if peers.last().node_type == NodeType::Prover && !peers.last().trusted {
        untrusted_provers(peers.drop_last()).push((peers.len() - 1) as usize)
    } else {
        untrusted_provers(peers.drop_last())
    }
}

/// The indices of the peers whose last seen block height is above `own_height`, in
/// order; `higher` says which side to list.
pub open spec fn height_side(heights: Seq<Option<u32>>, own_height: u32, higher: bool) -> Seq<usize>
    decreases heights.len(),
{
    if heights.len() == 0 {
        Seq::empty()
    } else {
        let rest = height_side(heights.drop_last(), own_height, higher);
        let is_higher = heights.last() matches Some(h) && h > own_height;
        if is_higher == higher {
            rest.push((heights.len() - 1) as usize)
        } else {
            rest
        }
    }
}

/// The indices of the untrusted provers are below the number of peers, in increasing order.
proof fn lemma_untrusted_provers_bounded(peers: Seq<PeerInfo>)
    requires
        peers.len() <= usize::MAX,
    ensures
        forall|i: int| 0 <= i < untrusted_provers(peers).len() ==> #[trigger] untrusted_provers(peers)[i] < peers.len(),
        forall|i: int, j: int|
            0 <= i < j < untrusted_provers(peers).len() ==> #[trigger] untrusted_provers(peers)[i] < #[trigger] untrusted_provers(peers)[j],
    decreases peers.len(),
{
    if peers.len() > 0 {
        let prev = peers.drop_last();
        lemma_untrusted_provers_bounded(prev);
        let u = untrusted_provers(prev);
        let n = peers.len();
        if peers.last().node_type == NodeType::Prover && !peers.last().trusted {
            let w = u.push((n - 1) as usize);
            assert(untrusted_provers(peers) == w);
            assert forall|i: int| 0 <= i < w.len() implies #[trigger] w[i] < n by {
                if i < u.len() {
                    assert(w[i] == u[i]);
                }
            }
            assert forall|i: int, j: int| 0 <= i < j < w.len() implies #[trigger] w[i] < #[trigger] w[j] by {
                assert(w[i] == u[i]);
                assert(u[i] < prev.len());
                if j < u.len() {
                    assert(w[j] == u[j]);
                } else {
                    assert(w[j] == n - 1);
                }
            }
        } else {
            assert(untrusted_provers(peers) == u);
        }
    }
}

/// An increasing list holds each index at most once.
proof fn lemma_increasing_no_duplicates(s: Seq<usize>)
    requires
        forall|i: int, j: int| 0 <= i < j < s.len() ==> #[trigger] s[i] < #[trigger] s[j],
    ensures
        s.no_duplicates(),
{
}

/// The indices of the untrusted provers among `peers`.
pub fn untrusted_prover_indices(peers: &[PeerInfo]) -> (r: Vec<usize>)
    ensures
        r@ == untrusted_provers(peers@),
{
    let mut r: Vec<usize> = Vec::new();
    let mut i: usize = 0;
    while i < peers.len()
        invariant
            i <= peers@.len(),
            r@ == untrusted_provers(peers@.subrange(0, i as int)),
        decreases peers@.len() - i,
    {
        proof {
            let s = peers@.subrange(0, i + 1);
            assert(s.drop_last() =~= peers@.subrange(0, i as int));
            assert(s.last() == peers@[i as int]);
        }
        if peers[i].node_type.is_prover() && !peers[i].trusted {
            r.push(i);
        }
        i = i + 1;
    }
    assert(peers@.subrange(0, peers@.len() as int) =~= peers@);
    r
}

/// The provers to drop when there are `num_surplus_provers` too many: that many untrusted
/// provers, picked at random, each once (all of them when there are fewer).
pub fn provers_to_disconnect(peers: &[PeerInfo], num_surplus_provers: usize) -> (r: Vec<usize>)
    ensures
        is_pick(untrusted_provers(peers@), num_surplus_provers as int, r@),
        r@.no_duplicates(),
{
    let candidates = untrusted_prover_indices(peers);
    let n = peers.len();
    proof {
        assert(peers@.len() == n);
        lemma_untrusted_provers_bounded(peers@);
        lemma_increasing_no_duplicates(untrusted_provers(peers@));
    }
    sample_indices(candidates, num_surplus_provers)
}

/// The indices of the candidates above (`higher`) or not above the node's block height,
/// in order; a candidate of unknown height is not above.
pub fn candidates_by_height(heights: &[Option<u32>], own_height: u32, higher: bool) -> (r: Vec<usize>)
    ensures
        r@ == height_side(heights@, own_height, higher),
{
    let mut r: Vec<usize> = Vec::new();
    let mut i: usize = 0;
    while i < heights.len()
        invariant
            i <= heights@.len(),
            r@ == height_side(heights@.subrange(0, i as int), own_height, higher),
        decreases heights@.len() - i,
    {
        proof {
            let s = heights@.subrange(0, i + 1);
            assert(s.drop_last() =~= heights@.subrange(0, i as int));
            assert(s.last() == heights@[i as int]);
        }
        let is_higher = match heights[i] {
            Some(h) => h > own_height,
            None => false,
        };
        if is_higher == higher {
            r.push(i);
        }
        i = i + 1;
    }
    assert(heights@.subrange(0, heights@.len() as int) =~= heights@);
    r
}

/// The candidates to connect to when `num_connected` peers are connected: the missing
/// number up to the median, half of them (rounded up) picked at random among the
/// candidates at a greater block height as far as there are such, the rest among the
/// others. Returns the picks from the higher and from the other candidates.
pub fn connection_candidates(heights: &[Option<u32>], own_height: u32, num_connected: usize) -> (r: (
    Vec<usize>,
    Vec<usize>,
))
    ensures
        ({
            let higher = height_side(heights@, own_height, true);
            let other = height_side(heights@, own_height, false);
            let deficient = sat_sub(MEDIAN_NUMBER_OF_PEERS as int, num_connected as int);
            let num_higher = spec_min((deficient + 1) / 2, higher.len() as int);
            &&& is_pick(higher, num_higher, r.0@)
            &&& is_pick(other, sat_sub(deficient, num_higher), r.1@)
        }),
{
    let higher = candidates_by_height(heights, own_height, true);
    let other = candidates_by_height(heights, own_height, false);
    let (_, num_higher, num_other) = deficit_plan(num_connected, higher.len());
    let picked_higher = sample_indices(higher, num_higher);
    let picked_other = sample_indices(other, num_other);
    (picked_higher, picked_other)
}

/// The connected peers to ask for more peers: three of them, picked at random.
pub fn peers_to_ask(num_connected: usize) -> (r: Vec<usize>)
    ensures
        r@.len() == spec_min(3, num_connected as int),
        forall|i: int| 0 <= i < r@.len() ==> #[trigger] r@[i] < num_connected,
        r@.no_duplicates(),
{
    let mut all: Vec<usize> = Vec::new();
    let mut i: usize = 0;
    while i < num_connected
        invariant
            i <= num_connected,
            all@ == Seq::new(i as nat, |k: int| k as usize),
        decreases num_connected - i,
    {
        all.push(i);
        i = i + 1;
        assert(all@ =~= Seq::new(i as nat, |k: int| k as usize));
    }
    let ghost s = all@;
    assert(s.no_duplicates());
    let r = sample_indices(all, 3);
    proof {
        assert forall|i: int| 0 <= i < r@.len() implies #[trigger] r@[i] < num_connected by {
            assert(s.contains(r@[i]));
        }
    }
    r
}

/// The bootstrap peer to connect to when none is connected: one of the candidates, picked
/// at random; none when there is no candidate or one is connected already.
pub fn bootstrap_to_connect(num_candidates: usize, num_connected_bootstrap: usize) -> (r: Option<usize>)
    ensures
        num_connected_bootstrap > 0 || num_candidates == 0 ==> r is None,
        num_connected_bootstrap == 0 && num_candidates > 0 ==> (r matches Some(i) && i < num_candidates),
{
    if num_connected_bootstrap > 0 || num_candidates == 0 {
        return None;
    }
    let mut all: Vec<usize> = Vec::new();
    let mut i: usize = 0;
    while i < num_candidates
        invariant
            i <= num_candidates,
            all@ == Seq::new(i as nat, |k: int| k as usize),
        decreases num_candidates - i,
    {
        all.push(i);
        i = i + 1;
        assert(all@ =~= Seq::new(i as nat, |k: int| k as usize));
    }
    let ghost s = all@;
    let r = sample_indices(all, 1);
    assert(s.contains(r@[0]));
    Some(r[0])
}

/// The connected bootstrap peers to drop when more than one is connected: all but one,
/// picked at random, each once.
pub fn bootstrap_to_disconnect(num_connected_bootstrap: usize) -> (r: Vec<usize>)
    ensures
        r@.len() == sat_sub(num_connected_bootstrap as int, 1),
        forall|i: int| 0 <= i < r@.len() ==> #[trigger] r@[i] < num_connected_bootstrap,
        r@.no_duplicates(),
{
    let mut all: Vec<usize> = Vec::new();
    let mut i: usize = 0;
    while i < num_connected_bootstrap
        invariant
            i <= num_connected_bootstrap,
            all@ == Seq::new(i as nat, |k: int| k as usize),
        decreases num_connected_bootstrap - i,
    {
        all.push(i);
        i = i + 1;
        assert(all@ =~= Seq::new(i as nat, |k: int| k as usize));
    }
    let ghost s = all@;
    assert(s.no_duplicates());
    let r = sample_indices(all, bootstrap_surplus(num_connected_bootstrap));
    proof {
        assert forall|i: int| 0 <= i < r@.len() implies #[trigger] r@[i] < num_connected_bootstrap by {
            assert(s.contains(r@[i]));
        }
    }
    r
}

} // verus!
