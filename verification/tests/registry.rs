use m87::header::{parse_port_header, parse_stream_header, StreamHeader};
use m87::registry::{ForwardDecision, ForwardMeta, ForwardRegistry, SessionRegistry};

#[test]
fn test_forward_reregistration_replaces() {
    // exactly one mapping lives under a host; registering again replaces it
    let mut reg = ForwardRegistry::new();
    reg.register(
        "4a1d62.example.test".to_string(),
        ForwardMeta { node_id: "aaa".to_string(), target_port: 80, allowed_ips: None },
    );
    reg.register(
        "4a1d62.example.test".to_string(),
        ForwardMeta { node_id: "aaa".to_string(), target_port: 8080, allowed_ips: None },
    );
    let m = reg.lookup("4a1d62.example.test").unwrap();
    assert_eq!(m.target_port, 8080);
}

#[test]
fn test_forward_lookup_miss() {
    let reg = ForwardRegistry::new();
    assert!(reg.lookup("nowhere.example.test").is_none());
}

#[test]
fn test_acl_blocks_unlisted_peer() {
    // forward h -> (A, 8080, {10.0.0.1}); a peer at 10.0.0.2 is blocked
    let mut reg = ForwardRegistry::new();
    reg.register(
        "h".to_string(),
        ForwardMeta {
            node_id: "A".to_string(),
            target_port: 8080,
            allowed_ips: Some(vec!["10.0.0.1".to_string()]),
        },
    );
    let d = reg.decide_forward("h", "10.0.0.2");
    assert!(matches!(d, ForwardDecision::BlockedAcl));
    let d = reg.decide_forward("h", "10.0.0.1");
    match d {
        ForwardDecision::Allow { node_id, target_port } => {
            assert_eq!(node_id, "A");
            assert_eq!(target_port, 8080);
        },
        _ => panic!("listed peer must be allowed"),
    }
}

#[test]
fn test_forward_decision_not_found() {
    let reg = ForwardRegistry::new();
    let d = reg.decide_forward("ghost.example.test", "10.0.0.1");
    assert!(matches!(d, ForwardDecision::NotFound));
}

#[test]
fn test_duplicate_registration_evicts() {
    // a second session for the same agent displaces the first
    let mut reg: SessionRegistry<u32> = SessionRegistry::new();
    let (h1, evicted) = reg.register("A".to_string(), 101);
    assert!(evicted.is_none());
    let (h2, evicted) = reg.register("A".to_string(), 202);
    assert_eq!(evicted, Some(101));
    assert_ne!(h1, h2);
    assert_eq!(reg.lookup("A"), Some(&202));
}

#[test]
fn test_stale_handle_removes_nothing() {
    // a dead session is removed only if the entry still points to it
    let mut reg: SessionRegistry<u32> = SessionRegistry::new();
    let (h1, _) = reg.register("A".to_string(), 101);
    let (_h2, _) = reg.register("A".to_string(), 202);
    // the first session's cleanup races the second registration: no effect
    assert!(reg.remove_if_handle("A", h1).is_none());
    assert_eq!(reg.lookup("A"), Some(&202));
}

#[test]
fn test_remove_with_current_handle() {
    let mut reg: SessionRegistry<u32> = SessionRegistry::new();
    let (h1, _) = reg.register("A".to_string(), 101);
    assert_eq!(reg.remove_if_handle("A", h1), Some(101));
    assert!(reg.lookup("A").is_none());
}

#[test]
fn test_register_forward_and_proxy_chain() {
    // the forwarding chain: a registered host resolves to its agent and
    // port, and the port header written to the substream reads back
    let mut reg = ForwardRegistry::new();
    reg.register(
        "4a1d62.example.test".to_string(),
        ForwardMeta { node_id: "aaa".to_string(), target_port: 80, allowed_ips: None },
    );
    let d = reg.decide_forward("4a1d62.example.test", "203.0.113.9");
    let (node_id, target_port) = match d {
        ForwardDecision::Allow { node_id, target_port } => (node_id, target_port),
        _ => panic!("expected a proxy decision"),
    };
    assert_eq!(node_id, "aaa");
    assert_eq!(target_port, 80);

    let mut sessions: SessionRegistry<u32> = SessionRegistry::new();
    sessions.register("aaa".to_string(), 7);
    assert!(sessions.lookup(&node_id).is_some());

    let header = format!("{}\n", target_port);
    assert_eq!(parse_port_header(header.as_bytes()), Some(80));
    match parse_stream_header(b"80") {
        StreamHeader::Forward(p) => assert_eq!(p, 80),
        _ => panic!("expected a forward header"),
    }
}
