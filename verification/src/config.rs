//! The agent's configuration values. Reading and writing the file is the
//! surrounding program's business; the defaults are fixed here.

use vstd::prelude::*;

verus! {

/// The agent's configuration: where to reach the backend, its identity,
/// and how much to log.
#[derive(Debug, Clone)]
pub struct Config {
    pub backend_url: String,
    pub agent_id: Option<String>,
    pub log_level: String,
}

impl Default for Config {
    /// The default backend URL and log level, with no identity yet.
    fn default() -> (r: Config)
        ensures
            r.backend_url@ == "wss://api.make87.io/ws"@,
            r.agent_id is None,
            r.log_level@ == "info"@,
    {
        Config {
            backend_url: "wss://api.make87.io/ws".to_owned(),
            agent_id: None,
            log_level: "info".to_owned(),
        }
    }
}

} // verus!
