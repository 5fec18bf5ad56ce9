use m87::api::Role;
use m87::certs::{renewal_decision, RenewalDecision};
use m87::config::Config;
use m87::deploy::{DeploymentRevision, RollbackPolicy, RollbackTrigger, RunSpec, RunType,
    RebootMode};
use m87::deploy_status::{main_slot, outcome_from_steps, step_id, step_slots, StepState,
    StepStatus, StatusOutcome, undo_slot};
use m87::handshake::{extract_kv, supervisor_retry_delay_secs, SupervisorEvent};
use m87::node_api::{short_node_id, HeartbeatResponse};
use m87::deploy::{revision_list_short_lines, revision_short_line};

#[test]
fn test_default_config() {
    let config = Config::default();
    assert_eq!(config.backend_url, "wss://api.make87.io/ws");
    assert_eq!(config.log_level, "info");
}

#[test]
fn test_role_allows_order() {
    assert!(Role::allows(&Role::Owner, &Role::Admin));
    assert!(Role::allows(&Role::Admin, &Role::Viewer));
    assert!(Role::allows(&Role::Editor, &Role::Viewer));
    assert!(Role::allows(&Role::Viewer, &Role::Viewer));
    assert!(!Role::allows(&Role::Admin, &Role::Owner));
    assert!(!Role::allows(&Role::Viewer, &Role::Editor));
}

#[test]
fn test_extract_kv_pairs() {
    let line = "M87 agent_id=aaa token=abc123\n";
    assert_eq!(extract_kv(line, "agent_id").as_deref(), Some("aaa"));
    assert_eq!(extract_kv(line, "token").as_deref(), Some("abc123"));
    assert_eq!(extract_kv(line, "missing"), None);
    // unknown keys are ignored, the first match wins
    assert_eq!(extract_kv("x=1 a=2 a=3", "a").as_deref(), Some("2"));
}

#[test]
fn test_supervisor_retry_delays() {
    assert_eq!(supervisor_retry_delay_secs(&SupervisorEvent::RegisterFailed), 1);
    assert_eq!(supervisor_retry_delay_secs(&SupervisorEvent::TunnelError), 5);
    assert_eq!(supervisor_retry_delay_secs(&SupervisorEvent::TunnelClosed), 1);
}

#[test]
fn test_renewal_decision_order() {
    let now = 1_700_000_000;
    // more than ten days of lifetime left: skip
    let d = renewal_decision(Some(now + 11 * 86400), None, true, true, now);
    assert_eq!(d, RenewalDecision::SkipStillValid);
    // expiring, but the last failure was an hour ago: cooldown
    let d = renewal_decision(Some(now + 86400), Some(now - 3600), true, true, now);
    assert_eq!(d, RenewalDecision::SkipRecentFailure);
    // expiring, cooldown passed, but the TXT record is missing
    let d = renewal_decision(Some(now + 86400), Some(now - 13 * 3600), true, false, now);
    assert_eq!(d, RenewalDecision::SkipNoDns);
    // everything in place: attempt
    let d = renewal_decision(None, None, true, true, now);
    assert_eq!(d, RenewalDecision::Attempt);
}

#[test]
fn test_step_slots_and_ids() {
    assert_eq!(main_slot(0), 0);
    assert_eq!(undo_slot(0), 1);
    assert_eq!(main_slot(3), 6);
    assert_eq!(undo_slot(3), 7);
    assert_eq!(step_slots(4), 8);
    assert_eq!(step_id("run1", 2, false), "run1:2");
    assert_eq!(step_id("run1", 2, true), "run1:2:undo");
}

fn row(state: StepState, is_undo: bool) -> StepStatus {
    StepStatus {
        step_id: "r:0".to_string(),
        name: "step".to_string(),
        is_undo,
        defined_in_spec: true,
        state,
        last_update: None,
        attempts_total: 0,
        exit_code: None,
        error: None,
    }
}

#[test]
fn test_outcome_from_steps_folds() {
    assert_eq!(outcome_from_steps(&vec![]), StatusOutcome::Unknown);
    assert_eq!(
        outcome_from_steps(&vec![row(StepState::Success, false)]),
        StatusOutcome::Success
    );
    assert_eq!(
        outcome_from_steps(&vec![row(StepState::Success, false), row(StepState::Failed, false)]),
        StatusOutcome::Failed
    );
    assert_eq!(
        outcome_from_steps(&vec![row(StepState::Success, false), row(StepState::Pending, false)]),
        StatusOutcome::Unknown
    );
    // undo rows are remedial and do not count
    assert_eq!(
        outcome_from_steps(&vec![row(StepState::Success, false), row(StepState::Failed, true)]),
        StatusOutcome::Success
    );
}

#[test]
fn test_run_hash_is_stable_and_field_sensitive() {
    let job = RunSpec::new(
        "job1".to_string(),
        RunType::Service,
        true,
        None,
        Vec::new(),
        Vec::new(),
        Vec::new(),
        None,
        None,
        RebootMode::NoReboot,
        None,
    );
    let mut other = RunSpec::new(
        "job1".to_string(),
        RunType::Service,
        true,
        None,
        Vec::new(),
        Vec::new(),
        Vec::new(),
        None,
        None,
        RebootMode::NoReboot,
        None,
    );
    assert_eq!(job.get_hash(), other.get_hash());
    other.enable(false);
    assert_ne!(job.get_hash(), other.get_hash());
    assert_eq!(job.get_hash().len(), 64);
}

#[test]
fn test_revision_ids_and_lookup() {
    let job = RunSpec::new(
        "job1".to_string(),
        RunType::Job,
        true,
        None,
        Vec::new(),
        Vec::new(),
        Vec::new(),
        None,
        None,
        RebootMode::NoReboot,
        None,
    );
    let hash = job.get_hash();
    let rev = DeploymentRevision::new(
        vec![job],
        Some(RollbackPolicy::new(RollbackTrigger::Never, RollbackTrigger::Any, 60)),
    );
    assert_eq!(rev.id.as_ref().unwrap().len(), 36);
    assert!(rev.get_job(&hash).is_some());
    assert!(rev.get_job("no-such-hash").is_none());
    assert_eq!(rev.get_hash().len(), 64);
}

#[test]
fn test_heartbeat_hash_tracks_content() {
    let a = HeartbeatResponse { compose_ref: None, client_config: None, ssh_keys: None };
    let b = HeartbeatResponse { compose_ref: None, client_config: None, ssh_keys: None };
    assert_eq!(a.get_hash(), b.get_hash());
    let c = HeartbeatResponse {
        compose_ref: Some("ref1".to_string()),
        client_config: None,
        ssh_keys: Some(vec!["key1".to_string()]),
    };
    assert_ne!(a.get_hash(), c.get_hash());
}

#[test]
fn test_revision_list_lines() {
    let rev = DeploymentRevision { id: Some("r1".to_string()), jobs: Vec::new(), rollback: None };
    let line = revision_short_line(&rev);
    assert_eq!(line, format!("{:<36} {:>4} {:>8}", "r1", 0, "no"));
    let lines = revision_list_short_lines(&vec![rev]);
    assert_eq!(lines.len(), 2);
    assert_eq!(lines[0], format!("{:<36} {:>4} {:>8}", "REVISION", "JOBS", "ROLLBACK"));
}

#[test]
fn test_get_job_map_keeps_enabled_jobs() {
    let mut on = RunSpec::new(
        "on".to_string(),
        RunType::Service,
        true,
        None,
        Vec::new(),
        Vec::new(),
        Vec::new(),
        None,
        None,
        RebootMode::NoReboot,
        None,
    );
    let mut off = on.clone();
    off.enable(false);
    on.enable(true);
    let hash = on.get_hash();
    let rev = DeploymentRevision { id: None, jobs: vec![on, off], rollback: None };
    let map = rev.get_job_map();
    assert_eq!(map.len(), 1);
    assert_eq!(map[0].0, hash);
    assert_eq!(map[0].1.id, "on");
}

#[test]
fn test_short_node_id_prefix_of_digest() {
    // the first six hex characters of the id's SHA-256 digest
    assert_eq!(short_node_id("aaa"), "983487");
    assert_eq!(short_node_id("my-agent"), "178890");
    assert_eq!(short_node_id("aaa"), short_node_id("aaa"));
}
