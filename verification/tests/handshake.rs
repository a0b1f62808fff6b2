use aleo_core::handshake::{
    challenge_message, ensure_peer_is_allowed, is_valid_message_version, lowest_accepted_message_version,
    verify_challenge_request, verify_challenge_response, DisconnectReason,
};
use aleo_core::heartbeat::NodeType;

#[test]
fn message_versions() {
    // Provers and bootstrap clients accept only the latest version.
    assert_eq!(lowest_accepted_message_version(NodeType::Prover, 20, 17), 20);
    assert_eq!(lowest_accepted_message_version(NodeType::BootstrapClient, 20, 17), 20);
    // Validators and clients accept what their block height allows.
    assert_eq!(lowest_accepted_message_version(NodeType::Validator, 20, 17), 17);
    assert_eq!(lowest_accepted_message_version(NodeType::Client, 20, 17), 17);
    assert!(is_valid_message_version(NodeType::Client, 20, 17, 18));
    assert!(!is_valid_message_version(NodeType::Prover, 20, 17, 18));
    assert!(is_valid_message_version(NodeType::Prover, 20, 17, 20));
    assert!(!is_valid_message_version(NodeType::Validator, 20, 17, 16));
}

#[test]
fn peer_admission() {
    assert_eq!(ensure_peer_is_allowed(true, NodeType::Client, true, true, false), Err(DisconnectReason::SelfConnect));
    // A validator admits trusted and bootstrap peers only.
    assert_eq!(
        ensure_peer_is_allowed(false, NodeType::Validator, false, false, false),
        Err(DisconnectReason::NoExternalPeersAllowed)
    );
    assert_eq!(ensure_peer_is_allowed(false, NodeType::Validator, true, false, false), Ok(()));
    assert_eq!(ensure_peer_is_allowed(false, NodeType::Validator, false, true, false), Ok(()));
    // In trusted-peers-only mode a bootstrap peer must be trusted too.
    assert_eq!(
        ensure_peer_is_allowed(false, NodeType::Validator, false, true, true),
        Err(DisconnectReason::NoExternalPeersAllowed)
    );
    assert_eq!(ensure_peer_is_allowed(false, NodeType::Client, false, false, false), Ok(()));
    assert_eq!(
        ensure_peer_is_allowed(false, NodeType::Client, false, false, true),
        Err(DisconnectReason::NoExternalPeersAllowed)
    );
}

#[test]
fn challenge_requests() {
    assert_eq!(
        verify_challenge_request(NodeType::Client, 20, 17, 16, NodeType::Client, false),
        Some(DisconnectReason::OutdatedClientVersion)
    );
    assert_eq!(verify_challenge_request(NodeType::Client, 20, 17, 17, NodeType::Client, true), None);
    // A validator drops a second connection from a validator's account.
    assert_eq!(
        verify_challenge_request(NodeType::Validator, 20, 17, 20, NodeType::Validator, true),
        Some(DisconnectReason::NoReasonGiven)
    );
    assert_eq!(verify_challenge_request(NodeType::Validator, 20, 17, 20, NodeType::Client, true), None);
    assert_eq!(verify_challenge_request(NodeType::Validator, 20, 17, 20, NodeType::Validator, false), None);
}

#[test]
fn challenge_responses() {
    let invalid = Some(DisconnectReason::InvalidChallengeResponse);
    assert_eq!(verify_challenge_response(true, NodeType::Client, NodeType::Validator, true, true), None);
    assert_eq!(verify_challenge_response(false, NodeType::Client, NodeType::Validator, true, true), invalid);
    assert_eq!(verify_challenge_response(true, NodeType::Client, NodeType::Validator, false, true), invalid);
    assert_eq!(verify_challenge_response(true, NodeType::Client, NodeType::Validator, true, false), invalid);
    // When either side is a prover, the restrictions ID is not compared.
    assert_eq!(verify_challenge_response(true, NodeType::Prover, NodeType::Validator, false, true), None);
    assert_eq!(verify_challenge_response(true, NodeType::Client, NodeType::Prover, false, true), None);
}

#[test]
fn challenge_message_layout() {
    let message = challenge_message(0x0102030405060708, 1);
    let mut expected = 0x0102030405060708u64.to_le_bytes().to_vec();
    expected.extend(1u64.to_le_bytes());
    assert_eq!(message, expected);
    assert_eq!(message.len(), 16);
    assert_ne!(challenge_message(1, 2), challenge_message(2, 1));
}
