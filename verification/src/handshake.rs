//! The checks of the handshake between two nodes: which message versions a node accepts,
//! which peers may connect to it, what a challenge request and a challenge response must
//! satisfy, and the bytes a challenge signature covers.
use vstd::prelude::*;

use crate::heartbeat::NodeType;

verus! {

/// Why a peer is dropped during the handshake.
#[derive(Clone, Copy, Debug, PartialEq, Eq, Structural)]
pub enum DisconnectReason {
    /// The peer is this node itself.
    SelfConnect,
    /// The node accepts no peer that it does not trust.
    NoExternalPeersAllowed,
    /// The peer speaks an outdated message version.
    OutdatedClientVersion,
    /// The peer is dropped without a stated reason.
    NoReasonGiven,
    /// The peer's challenge response is wrong.
    InvalidChallengeResponse,
}

/// The lowest message version a node accepts: provers and bootstrap clients accept only
/// the latest one; validators and clients the lowest one accepted at their block height.
pub open spec fn spec_lowest_accepted_message_version(
    node_type: NodeType,
    latest_version: u32,
    lowest_at_height: u32,
) -> u32 {
    match node_type {
        NodeType::Prover | NodeType::BootstrapClient => latest_version,
        NodeType::Validator | NodeType::Client => lowest_at_height,
    }
}

/// The lowest message version a node of `node_type` accepts, given the latest version and
/// the lowest version accepted at the node's current block height.
pub fn lowest_accepted_message_version(node_type: NodeType, latest_version: u32, lowest_at_height: u32) -> (r: u32)
    ensures
        r == spec_lowest_accepted_message_version(node_type, latest_version, lowest_at_height),
{
    match node_type {
        NodeType::Prover | NodeType::BootstrapClient => latest_version,
        NodeType::Validator | NodeType::Client => lowest_at_height,
    }
}

/// Whether a node of `node_type` accepts a message of `message_version`.
pub fn is_valid_message_version(
    node_type: NodeType,
    latest_version: u32,
    lowest_at_height: u32,
    message_version: u32,
) -> (r: bool)
    ensures
        r == (message_version >= spec_lowest_accepted_message_version(node_type, latest_version, lowest_at_height)),
{
    message_version >= lowest_accepted_message_version(node_type, latest_version, lowest_at_height)
}

/// The checks on a peer's listening address before its challenge is answered: it must
/// not be this node; a validator admits only trusted peers and bootstrap peers; in
/// trusted-peers-only mode, only trusted peers are admitted.
pub open spec fn spec_peer_admission(
    is_local: bool,
    node_type: NodeType,
    is_trusted: bool,
    is_bootstrap_peer: bool,
    trusted_peers_only: bool,
) -> Result<(), DisconnectReason> {
    if is_local {
        Err(DisconnectReason::SelfConnect)
    } else if node_type == NodeType::Validator && !is_trusted && !is_bootstrap_peer {
        Err(DisconnectReason::NoExternalPeersAllowed)
    } else if trusted_peers_only && !is_trusted {
        Err(DisconnectReason::NoExternalPeersAllowed)
    } else {
        Ok(())
    }
}

/// Who may connect: never the node itself; always a trusted peer; a validator admits
/// besides only bootstrap peers, and a node in trusted-peers-only mode nobody else; every
/// other node admits anyone.
pub proof fn lemma_peer_admission(
    is_local: bool,
    node_type: NodeType,
    is_trusted: bool,
    is_bootstrap_peer: bool,
    trusted_peers_only: bool,
)
    ensures
        ({
            let r = spec_peer_admission(is_local, node_type, is_trusted, is_bootstrap_peer, trusted_peers_only);
            &&& is_local ==> r == Err::<(), DisconnectReason>(DisconnectReason::SelfConnect)
            &&& !is_local ==> (r is Ok <==> is_trusted || (!trusted_peers_only && (node_type != NodeType::Validator
                || is_bootstrap_peer)))
            &&& !is_local && r is Err ==> r == Err::<(), DisconnectReason>(DisconnectReason::NoExternalPeersAllowed)
        }),
{
}

/// Checks whether a peer may connect, given what the router knows of its listening
/// address: whether it is this node's own, trusted, or a bootstrap peer.
pub fn ensure_peer_is_allowed(
    is_local: bool,
    node_type: NodeType,
    is_trusted: bool,
    is_bootstrap_peer: bool,
    trusted_peers_only: bool,
) -> (r: Result<(), DisconnectReason>)
    ensures
        r == spec_peer_admission(is_local, node_type, is_trusted, is_bootstrap_peer, trusted_peers_only),
        is_local ==> r == Err::<(), DisconnectReason>(DisconnectReason::SelfConnect),
        !is_local && is_trusted ==> r is Ok,
        !is_local && node_type != NodeType::Validator && !trusted_peers_only ==> r is Ok,
        !is_local && is_bootstrap_peer && !trusted_peers_only ==> r is Ok,
        !is_local && !is_trusted && (node_type == NodeType::Validator && !is_bootstrap_peer || trusted_peers_only)
            ==> r == Err::<(), DisconnectReason>(DisconnectReason::NoExternalPeersAllowed),
{
    if is_local {
        return Err(DisconnectReason::SelfConnect);
    }
    if node_type == NodeType::Validator && !is_trusted && !is_bootstrap_peer {
        return Err(DisconnectReason::NoExternalPeersAllowed);
    }
    if trusted_peers_only && !is_trusted {
        return Err(DisconnectReason::NoExternalPeersAllowed);
    }
    Ok(())
}

/// The checks on a challenge request: the peer's message version must be accepted, and a
/// validator drops a validator whose account is already connected.
pub open spec fn spec_challenge_request_check(
    node_type: NodeType,
    latest_version: u32,
    lowest_at_height: u32,
    message_version: u32,
    peer_node_type: NodeType,
    peer_address_is_connected: bool,
) -> Option<DisconnectReason> {
    if message_version < spec_lowest_accepted_message_version(node_type, latest_version, lowest_at_height) {
        Some(DisconnectReason::OutdatedClientVersion)
    } else if node_type == NodeType::Validator && peer_node_type == NodeType::Validator
        && peer_address_is_connected {
        Some(DisconnectReason::NoReasonGiven)
    } else {
        None
    }
}

/// Checks a challenge request; `None` when it is accepted.
pub fn verify_challenge_request(
    node_type: NodeType,
    latest_version: u32,
    lowest_at_height: u32,
    message_version: u32,
    peer_node_type: NodeType,
    peer_address_is_connected: bool,
) -> (r: Option<DisconnectReason>)
    ensures
        r == spec_challenge_request_check(
            node_type,
            latest_version,
            lowest_at_height,
            message_version,
            peer_node_type,
            peer_address_is_connected,
        ),
{
    if !is_valid_message_version(node_type, latest_version, lowest_at_height, message_version) {
        return Some(DisconnectReason::OutdatedClientVersion);
    }
    if node_type == NodeType::Validator && peer_node_type == NodeType::Validator && peer_address_is_connected {
        return Some(DisconnectReason::NoReasonGiven);
    }
    None
}

/// The checks on a challenge response: the genesis header must match; unless one side is
/// a prover, the restrictions ID must match; and the signature must be readable and valid.
pub open spec fn spec_challenge_response_check(
    genesis_header_matches: bool,
    node_type: NodeType,
    peer_node_type: NodeType,
    restrictions_id_matches: bool,
    signature_is_valid: bool,
) -> Option<DisconnectReason> {
    if !genesis_header_matches {
        Some(DisconnectReason::InvalidChallengeResponse)
    } else if peer_node_type != NodeType::Prover && node_type != NodeType::Prover && !restrictions_id_matches {
        Some(DisconnectReason::InvalidChallengeResponse)
    } else if !signature_is_valid {
        Some(DisconnectReason::InvalidChallengeResponse)
    } else {
        None
    }
}

/// Checks a challenge response, given whether its genesis header and restrictions ID
/// match this node's and whether its signature over the challenge message is valid;
/// `None` when it is accepted.
pub fn verify_challenge_response(
    genesis_header_matches: bool,
    node_type: NodeType,
    peer_node_type: NodeType,
    restrictions_id_matches: bool,
    signature_is_valid: bool,
) -> (r: Option<DisconnectReason>)
    ensures
        r == spec_challenge_response_check(
            genesis_header_matches,
            node_type,
            peer_node_type,
            restrictions_id_matches,
            signature_is_valid,
        ),
{
    if !genesis_header_matches {
        return Some(DisconnectReason::InvalidChallengeResponse);
    }
    if !peer_node_type.is_prover() && !node_type.is_prover() && !restrictions_id_matches {
        return Some(DisconnectReason::InvalidChallengeResponse);
    }
    if !signature_is_valid {
        return Some(DisconnectReason::InvalidChallengeResponse);
    }
    None
}

/// Which message versions a node accepts: a prover or bootstrap client only the latest;
/// a validator or client any at or above the lowest accepted at its height.
pub proof fn lemma_accepted_message_versions(node_type: NodeType, latest_version: u32, lowest_at_height: u32, v: u32)
    ensures
        node_type == NodeType::Prover || node_type == NodeType::BootstrapClient ==> (v
            >= spec_lowest_accepted_message_version(node_type, latest_version, lowest_at_height) <==> v
            >= latest_version),
        node_type == NodeType::Validator || node_type == NodeType::Client ==> (v
            >= spec_lowest_accepted_message_version(node_type, latest_version, lowest_at_height) <==> v
            >= lowest_at_height),
{
}

/// A challenge request is accepted exactly when its message version is accepted and it is
/// not a validator whose account is connected already to a validator; an outdated version
/// is reported as such, the other refusal without a reason.
pub proof fn lemma_challenge_request_check(
    node_type: NodeType,
    latest_version: u32,
    lowest_at_height: u32,
    message_version: u32,
    peer_node_type: NodeType,
    peer_address_is_connected: bool,
)
    ensures
        ({
            let r = spec_challenge_request_check(
                node_type,
                latest_version,
                lowest_at_height,
                message_version,
                peer_node_type,
                peer_address_is_connected,
            );
            let low = spec_lowest_accepted_message_version(node_type, latest_version, lowest_at_height);
            &&& message_version < low ==> r == Some(DisconnectReason::OutdatedClientVersion)
            &&& message_version >= low ==> (r is None <==> !(node_type == NodeType::Validator && peer_node_type
                == NodeType::Validator && peer_address_is_connected))
            &&& message_version >= low && r is Some ==> r == Some(DisconnectReason::NoReasonGiven)
        }),
{
}

/// A challenge response is accepted exactly when its genesis header matches, its
/// restrictions ID matches unless either side is a prover, and its signature is valid;
/// every refusal is an invalid challenge response.
pub proof fn lemma_challenge_response_check(
    genesis_header_matches: bool,
    node_type: NodeType,
    peer_node_type: NodeType,
    restrictions_id_matches: bool,
    signature_is_valid: bool,
)
    ensures
        ({
            let r = spec_challenge_response_check(
                genesis_header_matches,
                node_type,
                peer_node_type,
                restrictions_id_matches,
                signature_is_valid,
            );
            &&& r is None <==> genesis_header_matches && (node_type == NodeType::Prover || peer_node_type
                == NodeType::Prover || restrictions_id_matches) && signature_is_valid
            &&& r is Some ==> r == Some(DisconnectReason::InvalidChallengeResponse)
        }),
{
}

/// The `n` little-endian bytes of `x`.
pub open spec fn le_bytes(x: nat, n: nat) -> Seq<u8>
    decreases n,
{
    if n == 0 {
        Seq::empty()
    } else {
        seq![(x % 256) as u8] + le_bytes(x / 256, (n - 1) as nat)
    }
}

/// The number that little-endian bytes denote.
pub open spec fn le_value(b: Seq<u8>) -> nat
    decreases b.len(),
{
    if b.len() == 0 {
        0
    } else {
        b[0] as nat + 256 * le_value(b.subrange(1, b.len() as int))
    }
}

/// The value of the `n` little-endian bytes of `x` is `x`, when `x` fits.
pub proof fn lemma_le_bytes_value(x: nat, n: nat)
    requires
        x < vstd::arithmetic::power::pow(256, n),
    ensures
        le_bytes(x, n).len() == n,
        le_value(le_bytes(x, n)) == x,
    decreases n,
{
    reveal(vstd::arithmetic::power::pow);
    if n > 0 {
        let p = vstd::arithmetic::power::pow(256, (n - 1) as nat);
        assert(vstd::arithmetic::power::pow(256, n) == 256 * p);
        assert(x / 256 < p) by (nonlinear_arith)
            requires
                x < 256 * p,
        ;
        lemma_le_bytes_value(x / 256, (n - 1) as nat);
        let b = le_bytes(x, n);
        assert(b.subrange(1, b.len() as int) =~= le_bytes(x / 256, (n - 1) as nat));
        assert(x == x % 256 + 256 * (x / 256)) by (nonlinear_arith);
    }
}

/// The bytes a challenge signature covers: the nonce of the challenge request, then the
/// nonce of the response, each as eight little-endian bytes.
pub open spec fn challenge_message_bytes(request_nonce: u64, response_nonce: u64) -> Seq<u8> {
    le_bytes(request_nonce as nat, 8) + le_bytes(response_nonce as nat, 8)
}

/// Appends the eight little-endian bytes of `x` to `out`.
fn push_u64_le(x: u64, out: &mut Vec<u8>)
    ensures
        final(out)@ == old(out)@ + le_bytes(x as nat, 8),
{
    let ghost start = old(out)@;
    let mut v: u64 = x;
    let mut i: usize = 0;
    while i < 8
        invariant
            i <= 8,
            out@ + le_bytes(v as nat, (8 - i) as nat) == start + le_bytes(x as nat, 8),
        decreases 8 - i,
    {
        let ghost before = out@;
        assert(le_bytes(v as nat, (8 - i) as nat) == seq![(v % 256) as u8] + le_bytes(
            (v / 256) as nat,
            (8 - i - 1) as nat,
        ));
        out.push((v % 256) as u8);
        assert(out@ + le_bytes((v / 256) as nat, (8 - i - 1) as nat) =~= before + le_bytes(
            v as nat,
            (8 - i) as nat,
        ));
        v = v / 256;
        i = i + 1;
    }
    assert(le_bytes(v as nat, 0) =~= Seq::<u8>::empty());
    assert(out@ =~= start + le_bytes(x as nat, 8));
}

/// The bytes a challenge signature covers; the responder signs them and the initiator
/// checks the signature over them.
pub fn challenge_message(request_nonce: u64, response_nonce: u64) -> (r: Vec<u8>)
    ensures
        r@ == challenge_message_bytes(request_nonce, response_nonce),
{
    let mut r: Vec<u8> = Vec::new();
    push_u64_le(request_nonce, &mut r);
    push_u64_le(response_nonce, &mut r);
    assert(r@ =~= challenge_message_bytes(request_nonce, response_nonce));
    r
}

/// Distinct pairs of nonces give distinct challenge messages: a signature over one
/// challenge does not answer another.
pub proof fn lemma_challenge_message_injective(a: u64, b: u64, c: u64, d: u64)
    requires
        challenge_message_bytes(a, b) == challenge_message_bytes(c, d),
    ensures
        a == c,
        b == d,
{
    assert(vstd::arithmetic::power::pow(256, 8) == 0x1_0000_0000_0000_0000) by {
        vstd::arithmetic::power::lemma_pow_positive(256, 8);
        reveal_with_fuel(vstd::arithmetic::power::pow, 9);
    }
    lemma_le_bytes_value(a as nat, 8);
    lemma_le_bytes_value(b as nat, 8);
    lemma_le_bytes_value(c as nat, 8);
    lemma_le_bytes_value(d as nat, 8);
    let m1 = challenge_message_bytes(a, b);
    let m2 = challenge_message_bytes(c, d);
    assert(m1.subrange(0, 8) =~= le_bytes(a as nat, 8));
    assert(m2.subrange(0, 8) =~= le_bytes(c as nat, 8));
    assert(m1.subrange(8, 16) =~= le_bytes(b as nat, 8));
    assert(m2.subrange(8, 16) =~= le_bytes(d as nat, 8));
}

} // verus!
