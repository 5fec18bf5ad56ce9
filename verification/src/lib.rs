//! Core logic of a relay that lets operators reach agents behind NAT:
//! session tokens, handshake and header parsing, SNI routing, forward and
//! session registries, terminal resize framing, exec-session configuration,
//! shell selection, and the data model shared between agent and server.

pub mod api;
pub mod certs;
pub mod client_api;
pub mod config;
pub mod deploy;
pub mod deploy_status;
pub mod devices;
pub mod execjson;
pub mod format;
pub mod frames;
pub mod handshake;
pub mod header;
pub mod hub;
pub mod node_api;
pub mod registry;
pub mod response;
pub mod router;
pub mod shell;
pub mod text;
pub mod token;
pub mod trusted;
