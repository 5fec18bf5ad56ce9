//! Client-side request and response shapes, the enrollment handlers'
//! state, and the subprocess builder.

use vstd::prelude::*;

verus! {

/// What an unenrolled agent sends to ask for enrollment.
#[derive(Debug, Clone)]
pub struct NodeAuthRequestBody {
    pub node_info: String,
    pub hostname: String,
    pub owner_scope: String,
    pub node_id: String,
}

/// What a polling agent learns: the request's state and, once approved,
/// its API key.
#[derive(Debug, Clone)]
pub struct NodeAuthRequestCheckResponse {
    pub state: String,
    pub api_key: Option<String>,
}

/// A poll for the state of an enrollment request.
#[derive(Debug, Clone)]
pub struct CheckAuthRequest {
    pub request_id: String,
}

/// An enrollment request as listed to operators.
#[derive(Debug, Clone)]
pub struct NodeAuthRequest {
    pub request_id: String,
    pub node_info: String,
    pub created_at: String,
}

/// An operator's verdict on an enrollment request.
#[derive(Debug, Clone)]
pub struct AuthRequestAction {
    pub accept: bool,
    pub request_id: String,
}

/// The state a device keeps while asking to be enrolled.
pub struct DeviceAuthRequestHandler {
    pub api_url: String,
    pub device_info: Option<String>,
    pub hostname: String,
    pub device_id: String,
    pub owner_scope: String,
    pub request_id: Option<String>,
    pub trust_invalid_server_cert: bool,
}

/// The state a node keeps while asking to be enrolled.
pub struct NodeAuthRequestHandler {
    pub api_url: String,
    pub node_info: Option<String>,
    pub hostname: String,
    pub node_id: String,
    pub owner_scope: String,
    pub request_id: Option<String>,
    pub trust_invalid_server_cert: bool,
}

impl NodeAuthRequestHandler {
    /// The request body this handler would send, once the node info is
    /// known.
    pub fn request_body(&self) -> (r: Option<NodeAuthRequestBody>)
        ensures
            match r {
                Some(b) => self.node_info matches Some(info) && b.node_info@ == info@
                    && b.hostname@ == self.hostname@ && b.owner_scope@ == self.owner_scope@
                    && b.node_id@ == self.node_id@,
                None => self.node_info is None,
            },
    {
        match &self.node_info {
            Some(info) => Some(
                NodeAuthRequestBody {
                    node_info: info.clone(),
                    hostname: self.hostname.clone(),
                    owner_scope: self.owner_scope.clone(),
                    node_id: self.node_id.clone(),
                },
            ),
            None => None,
        }
    }
}

/// The key an approval poll yields, once the request is approved.
pub fn approval_api_key(res: &NodeAuthRequestCheckResponse) -> (r: Option<&String>)
    ensures
        match r {
            Some(k) => res.api_key matches Some(key) && k@ == key@,
            None => res.api_key is None,
        },
{
    match &res.api_key {
        Some(k) => Some(k),
        None => None,
    }
}

/// A builder for running external commands: the program, its arguments,
/// and extra environment entries. Running it is the caller's business.
pub struct SubprocessBuilder {
    program: String,
    args: Vec<String>,
    env: Vec<(String, String)>,
}

impl SubprocessBuilder {
    /// The program to run.
    pub closed spec fn spec_program(&self) -> Seq<char> {
        self.program@
    }

    /// The argument list.
    pub closed spec fn spec_args(&self) -> Seq<String> {
        self.args@
    }

    /// The extra environment entries.
    pub closed spec fn spec_env(&self) -> Seq<(String, String)> {
        self.env@
    }

    /// A builder for the given program, with no arguments and no extra
    /// environment.
    pub fn new(program: String) -> (r: SubprocessBuilder)
        ensures
            r.spec_program() == program@,
            r.spec_args() == Seq::<String>::empty(),
            r.spec_env() == Seq::<(String, String)>::empty(),
    {
        SubprocessBuilder { program, args: Vec::new(), env: Vec::new() }
    }

    /// Replace the argument list.
    pub fn args(self, args: Vec<String>) -> (r: SubprocessBuilder)
        ensures
            r.spec_program() == self.spec_program(),
            r.spec_args() == args@,
            r.spec_env() == self.spec_env(),
    {
        SubprocessBuilder { args, ..self }
    }

    /// Add one environment entry.
    pub fn env(self, key: String, value: String) -> (r: SubprocessBuilder)
        ensures
            r.spec_program() == self.spec_program(),
            r.spec_args() == self.spec_args(),
            r.spec_env() == self.spec_env().push((key, value)),
    {
        let mut e = self.env;
        e.push((key, value));
        SubprocessBuilder { program: self.program, args: self.args, env: e }
    }

    /// The program, for the code that spawns the process.
    pub fn program_str(&self) -> (r: &String)
        ensures
            r@ == self.spec_program(),
    {
        &self.program
    }

    /// The arguments, for the code that spawns the process.
    pub fn args_list(&self) -> (r: &Vec<String>)
        ensures
            r@ == self.spec_args(),
    {
        &self.args
    }

    /// The environment entries, for the code that spawns the process.
    pub fn env_list(&self) -> (r: &Vec<(String, String)>)
        ensures
            r@ == self.spec_env(),
    {
        &self.env
    }
}

} // verus!
