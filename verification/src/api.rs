//! Data shared between agent and server: enrollment requests, client
//! configuration, SSH keys, heartbeats, pagination and roles.

use vstd::prelude::*;

verus! {

/// A poll for the state of an enrollment request.
#[derive(Debug, Clone)]
pub struct CheckAuthRequest {
    pub request_id: String,
}

/// An operator's verdict on an enrollment request.
#[derive(Debug, Clone)]
pub struct AuthRequestAction {
    pub accept: bool,
    pub request_id: String,
}

/// What a polling device learns: the request's state and, once approved,
/// its API key.
#[derive(Debug, Clone)]
pub struct DeviceAuthRequestCheckResponse {
    pub state: String,
    pub api_key: Option<String>,
}

/// Client behavior the server hands a device.
#[derive(Debug, Clone)]
pub struct DeviceClientConfig {
    pub heartbeat_interval_secs: Option<u32>,
    pub update_check_interval_secs: Option<u32>,
    pub server_port: u32,
}

impl Default for DeviceClientConfig {
    /// Thirty-second heartbeats, minutely update checks, port 8337.
    fn default() -> (r: DeviceClientConfig)
        ensures
            r.heartbeat_interval_secs == Some(30u32),
            r.update_check_interval_secs == Some(60u32),
            r.server_port == 8337,
    {
        DeviceClientConfig {
            heartbeat_interval_secs: Some(30),
            update_check_interval_secs: Some(60),
            server_port: 8337,
        }
    }
}

/// A stored SSH public key with its access scopes.
#[derive(Debug, Clone)]
pub struct SSHKey {
    pub id: String,
    pub key: String,
    pub owner_scope: String,
    pub allowed_scopes: Vec<String>,
}

/// A request to store an SSH public key.
#[derive(Debug, Clone)]
pub struct CreateSSHKeyRequest {
    pub key: String,
    pub owner_scope: String,
    pub allowed_scopes: Vec<String>,
}

/// The window of records a listing returned.
#[derive(Debug, Clone)]
pub struct PaginationMetadata {
    pub count: u64,
    pub offset: u64,
    pub limit: u32,
}

/// A device's answer to a heartbeat.
#[derive(Debug)]
pub struct HeartbeatResponse {
    pub up_to_date: bool,
    pub compose_ref: Option<String>,
    pub digests: Option<Digests>,
}

/// Digests of the pieces of state a device mirrors.
#[derive(Debug)]
pub struct Digests {
    pub compose: Option<String>,
    pub secrets: Option<String>,
    pub ssh: Option<String>,
    pub config: Option<String>,
    pub combined: String,
}

/// Per-interface network counters.
#[derive(Debug, Clone)]
pub struct NetworkInterfaceMetrics {
    pub name: String,
    pub rx_bytes: u64,
    pub tx_bytes: u64,
}

/// The principal roles, from widest to narrowest.
#[derive(PartialEq, Eq, Structural, Debug, Clone)]
pub enum Role {
    Owner,
    Admin,
    Editor,
    Viewer,
}

/// The role order: an owner may do anything; every other role covers
/// itself and the narrower ones, except that only an owner reaches owner.
pub open spec fn spec_role_allows(have: Role, need: Role) -> bool {
    match (have, need) {
        (Role::Owner, _) => true,
        (Role::Admin, Role::Admin) => true,
        (Role::Admin, Role::Editor) => true,
        (Role::Admin, Role::Viewer) => true,
        (Role::Editor, Role::Editor) => true,
        (Role::Editor, Role::Viewer) => true,
        (Role::Viewer, Role::Viewer) => true,
        _ => false,
    }
}

impl Role {
    /// Whether a principal holding `have` may act where `need` is needed.
    pub fn allows(have: &Role, need: &Role) -> (r: bool)
        ensures
            r == spec_role_allows(*have, *need),
    {
        match (have, need) {
            (Role::Owner, _) => true,
            (Role::Admin, Role::Admin) => true,
            (Role::Admin, Role::Editor) => true,
            (Role::Admin, Role::Viewer) => true,
            (Role::Editor, Role::Editor) => true,
            (Role::Editor, Role::Viewer) => true,
            (Role::Viewer, Role::Viewer) => true,
            _ => false,
        }
    }
}

} // verus!
