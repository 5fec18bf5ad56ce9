use m87::handshake::{control_handshake_decision, control_handshake_line, HandshakeDecision};
use m87::response::{AuthError, NexusError};
use m87::token::{
    issue_then_verify_roundtrip, issue_tunnel_token, issue_tunnel_token_at,
    verify_tunnel_token, verify_tunnel_token_at,
};

#[test]
fn test_issue_then_verify_returns_agent_id() {
    // a token with a 30-second TTL verifies to the original agent id
    let token = issue_tunnel_token("aaa", 30, "secret").unwrap();
    let id = verify_tunnel_token(&token, "secret").unwrap();
    assert_eq!(id, "aaa");
}

#[test]
fn test_issue_then_verify_roundtrip_checked() {
    let id = issue_then_verify_roundtrip("agent-7", 30, "secret", 1_700_000_000).unwrap();
    assert_eq!(id, "agent-7");
}

#[test]
fn test_expired_token_is_rejected() {
    let now = 1_700_000_000;
    let token = issue_tunnel_token_at("aaa", 1, "secret", now).unwrap();
    // two seconds later the token has passed its expiry
    let r = verify_tunnel_token_at(&token, "secret", now + 2);
    assert!(matches!(r, Err(NexusError::AuthError(AuthError::InvalidToken(_)))));
}

#[test]
fn test_wrong_secret_is_rejected() {
    let token = issue_tunnel_token("aaa", 30, "secret").unwrap();
    assert!(verify_tunnel_token(&token, "other").is_err());
}

#[test]
fn test_malformed_token_is_rejected() {
    // not base64url at all
    let r = verify_tunnel_token("!!!", "secret");
    assert!(matches!(r, Err(NexusError::InternalError(_))));
    // base64url, but not three parts
    let r = verify_tunnel_token("aGVsbG8", "secret");
    assert!(matches!(r, Err(NexusError::AuthError(AuthError::InvalidToken(_)))));
}

#[test]
fn test_handshake_accepts_valid_token() {
    let now = 1_700_000_000;
    let token = issue_tunnel_token_at("aaa", 30, "secret", now).unwrap();
    let line = control_handshake_line("aaa", &token);
    assert_eq!(line, format!("M87 agent_id=aaa token={}\n", token));
    let d = control_handshake_decision(&line, "secret", now);
    match d {
        HandshakeDecision::Accept(id) => assert_eq!(id, "aaa"),
        HandshakeDecision::Reject => panic!("expected acceptance"),
    }
}

#[test]
fn test_handshake_rejects_expired_token() {
    // an expired token never creates a session
    let now = 1_700_000_000;
    let token = issue_tunnel_token_at("aaa", 1, "secret", now).unwrap();
    let line = control_handshake_line("aaa", &token);
    let d = control_handshake_decision(&line, "secret", now + 2);
    assert!(matches!(d, HandshakeDecision::Reject));
}

#[test]
fn test_handshake_rejects_mismatched_id() {
    let now = 1_700_000_000;
    let token = issue_tunnel_token_at("aaa", 30, "secret", now).unwrap();
    let line = control_handshake_line("bbb", &token);
    let d = control_handshake_decision(&line, "secret", now);
    assert!(matches!(d, HandshakeDecision::Reject));
}

#[test]
fn test_handshake_rejects_missing_pairs() {
    let d = control_handshake_decision("M87\n", "secret", 0);
    assert!(matches!(d, HandshakeDecision::Reject));
    let d = control_handshake_decision("M87 agent_id=aaa\n", "secret", 0);
    assert!(matches!(d, HandshakeDecision::Reject));
}

#[test]
fn test_error_constructors() {
    assert!(matches!(NexusError::internal_error("x"), NexusError::InternalError(_)));
    assert!(matches!(
        NexusError::invalid_token("x"),
        NexusError::AuthError(AuthError::InvalidToken(_))
    ));
    assert!(matches!(
        NexusError::missing_token("x"),
        NexusError::AuthError(AuthError::MissingToken(_))
    ));
    assert!(matches!(
        NexusError::expired_token("x"),
        NexusError::AuthError(AuthError::ExpiredToken(_))
    ));
    assert!(matches!(NexusError::bad_request("x"), NexusError::BadRequest(_)));
    assert!(matches!(NexusError::not_found("x"), NexusError::NotFound(_)));
    assert!(matches!(
        NexusError::unauthorized("x"),
        NexusError::AuthError(AuthError::Unauthorized(_))
    ));
    assert!(matches!(
        NexusError::forbidden("x"),
        NexusError::AuthError(AuthError::Forbidden(_))
    ));
}
