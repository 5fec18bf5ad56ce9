//! Server-side node records: enrollment requests, the per-node client
//! configuration, and the heartbeat instruction hash.

use vstd::prelude::*;
use crate::text::spec_dec_int;
use crate::text::{push_dec_i64, push_dec_u64, spec_dec_nat, spec_hex_bytes, hex_encode_bytes,
    lemma_hex_bytes_len, copy_subrange};
use crate::trusted::{sha256, sha256_of};
use std::hash::DefaultHasher;
use std::hash::Hasher;
use vstd::std_specs::hash::DefaultHasherAdditionalSpecFns;
use vstd::string::StringSliceAdditionalSpecFns;
use vstd::string::StrSliceExecFns;

verus! {

/// Client behavior the server hands a node.
#[derive(Debug, Clone)]
pub struct NodeClientConfig {
    pub heartbeat_interval_secs: Option<u32>,
    pub update_check_interval_secs: Option<u32>,
    pub server_port: u32,
}

impl Default for NodeClientConfig {
    /// Thirty-second heartbeats, minutely update checks, port 8337.
    fn default() -> (r: NodeClientConfig)
        ensures
            r.heartbeat_interval_secs == Some(30u32),
            r.update_check_interval_secs == Some(60u32),
            r.server_port == 8337,
    {
        NodeClientConfig {
            heartbeat_interval_secs: Some(30),
            update_check_interval_secs: Some(60),
            server_port: 8337,
        }
    }
}

/// An enrollment request as listed to operators.
#[derive(Debug, Clone)]
pub struct PublicNodeAuthRequest {
    pub request_id: String,
    pub node_info: String,
    pub created_at: String,
}

/// What an unenrolled agent sends to ask for enrollment.
#[derive(Debug, Clone)]
pub struct NodeAuthRequestBody {
    pub node_info: String,
    pub hostname: String,
    pub owner_scope: String,
    pub node_id: String,
}

/// What a polling agent learns: the request's state and, once approved,
/// its API key.
#[derive(Debug, Clone)]
pub struct NodeAuthRequestCheckResponse {
    pub state: String,
    pub api_key: Option<String>,
}

/// An operator's verdict on an enrollment request.
#[derive(Debug, Clone)]
pub struct AuthRequestAction {
    pub accept: bool,
}

/// The server's answer to a node heartbeat: what the node should mirror.
#[derive(Debug)]
pub struct HeartbeatResponse {
    pub compose_ref: Option<String>,
    pub client_config: Option<NodeClientConfig>,
    pub ssh_keys: Option<Vec<String>>,
}

/// The canonical bytes an optional text contributes to the instruction
/// hash: a presence byte, the length, and the text.
pub open spec fn spec_opt_string_bytes(s: Option<Seq<char>>) -> Seq<u8> {
    match s {
        None => seq![0u8],
        Some(t) => seq![1u8] + spec_dec_int(t.len() as int) + seq![0x3Bu8]
            + vstd::utf8::encode_utf8(t),
    }
}

/// The canonical bytes an optional number contributes.
pub open spec fn spec_opt_u32_bytes(v: Option<u32>) -> Seq<u8> {
    match v {
        None => seq![0u8],
        Some(n) => seq![1u8] + spec_dec_int(n as int) + seq![0x3Bu8],
    }
}

/// The canonical bytes of the whole response, field by field.
pub open spec fn spec_heartbeat_bytes(r: HeartbeatResponse) -> Seq<u8> {
    spec_opt_string_bytes(
        match r.compose_ref {
            None => None,
            Some(s) => Some(s@),
        },
    ) + (match r.client_config {
        None => seq![0u8],
        Some(c) => seq![1u8] + spec_opt_u32_bytes(c.heartbeat_interval_secs)
            + spec_opt_u32_bytes(c.update_check_interval_secs) + spec_dec_int(
            c.server_port as int,
        ) + seq![0x3Bu8],
    }) + (match r.ssh_keys {
        None => seq![0u8],
        Some(keys) => seq![1u8] + spec_dec_int(keys.len() as int) + seq![0x3Bu8]
            + spec_keys_bytes(keys@, keys@.len() as int),
    })
}

/// The canonical bytes of the first `n` keys.
pub open spec fn spec_keys_bytes(keys: Seq<String>, n: int) -> Seq<u8>
    decreases n,
{
    if n <= 0 {
        seq![]
    } else {
        spec_keys_bytes(keys, n - 1) + spec_opt_string_bytes(Some(keys[n - 1]@))
    }
}

/// Append the canonical bytes of an optional text.
fn push_opt_string(s: &Option<String>, out: &mut Vec<u8>)
    ensures
        final(out)@ == old(out)@ + spec_opt_string_bytes(
            match s {
                None => None,
                Some(t) => Some(t@),
            },
        ),
{
    match s {
        None => {
            out.push(0u8);
            proof {
                assert(out@ =~= old(out)@ + seq![0u8]);
            }
        },
        Some(t) => {
            push_string(t, out);
        },
    }
}

/// Append the canonical bytes of a text.
fn push_string(t: &String, out: &mut Vec<u8>)
    ensures
        final(out)@ == old(out)@ + spec_opt_string_bytes(Some(t@)),
{
    out.push(1u8);
    let n = t.as_str().unicode_len();
    push_dec_u64(n as u64, out);
    out.push(0x3Bu8);
    let tb = t.as_str().as_bytes();
    out.extend_from_slice(tb);
    proof {
        assert(spec_dec_int(t@.len() as int) == spec_dec_nat(t@.len()));
        assert(out@ =~= old(out)@ + spec_opt_string_bytes(Some(t@)));
    }
}

/// Append the canonical bytes of an optional number.
fn push_opt_u32(v: &Option<u32>, out: &mut Vec<u8>)
    ensures
        final(out)@ == old(out)@ + spec_opt_u32_bytes(*v),
{
    match v {
        None => {
            out.push(0u8);
            proof {
                assert(out@ =~= old(out)@ + seq![0u8]);
            }
        },
        Some(n) => {
            out.push(1u8);
            push_dec_i64(*n as i64, out);
            out.push(0x3Bu8);
            proof {
                assert(out@ =~= old(out)@ + spec_opt_u32_bytes(*v));
            }
        },
    }
}

impl HeartbeatResponse {
    /// The instruction hash a node compares against: the standard hasher
    /// run over the response's canonical bytes.
    #[verifier::rlimit(100)]
    #[verifier::spinoff_prover]
    pub fn get_hash(&self) -> (r: u64)
        ensures
            r == DefaultHasher::spec_finish(seq![spec_heartbeat_bytes(*self)]),
    {
        let mut bytes: Vec<u8> = Vec::new();
        push_opt_string(&self.compose_ref, &mut bytes);
        match &self.client_config {
            None => {
                bytes.push(0u8);
            },
            Some(c) => {
                bytes.push(1u8);
                push_opt_u32(&c.heartbeat_interval_secs, &mut bytes);
                push_opt_u32(&c.update_check_interval_secs, &mut bytes);
                push_dec_i64(c.server_port as i64, &mut bytes);
                bytes.push(0x3Bu8);
            },
        }
        match &self.ssh_keys {
            None => {
                bytes.push(0u8);
            },
            Some(keys) => {
                bytes.push(1u8);
                let kn = keys.len();
                push_dec_u64(kn as u64, &mut bytes);
                bytes.push(0x3Bu8);
                let mut k: usize = 0;
                let ghost mid = bytes@;
                while k < kn
                    invariant
                        k <= kn,
                        kn == keys@.len(),
                        bytes@ == mid + spec_keys_bytes(keys@, k as int),
                    decreases kn - k,
                {
                    let ghost prev = bytes@;
                    push_string(&keys[k], &mut bytes);
                    proof {
                        assert(bytes@ =~= mid + spec_keys_bytes(keys@, k + 1));
                    }
                    k = k + 1;
                }
            },
        }
        proof {
            assert(bytes@ =~= spec_heartbeat_bytes(*self));
        }
        let mut hasher = DefaultHasher::new();
        hasher.write(bytes.as_slice());
        let r = hasher.finish();
        proof {
            assert(hasher@ =~= seq![spec_heartbeat_bytes(*self)]);
        }
        r
    }
}


/// The short id of a node: the first six hex characters of the SHA-256
/// digest of its id. Used as the DNS label of its forward names.
pub open spec fn spec_short_node_id(node_id: Seq<char>) -> Seq<char> {
    spec_hex_bytes(sha256_of(vstd::utf8::encode_utf8(node_id))).map_values(
        |b: u8| b as char,
    ).subrange(0, 6)
}

/// Derive a node's short id from its full id.
pub fn short_node_id(node_id: &str) -> (r: String)
    ensures
        r@ == spec_short_node_id(node_id@),
{
    let digest = sha256(node_id.as_bytes());
    let hex = hex_encode_bytes(digest.as_slice());
    proof {
        lemma_hex_bytes_len(sha256_of(node_id.spec_bytes()));
    }
    let head = copy_subrange(hex.as_slice(), 0, 6);
    let mut cs: Vec<char> = Vec::new();
    let mut i: usize = 0;
    while i < head.len()
        invariant
            i <= head@.len(),
            cs@ == head@.subrange(0, i as int).map_values(|b: u8| b as char),
        decreases head@.len() - i,
    {
        cs.push(head[i] as char);
        proof {
            assert(head@.subrange(0, i + 1).map_values(|b: u8| b as char) =~= head@.subrange(
                0,
                i as int,
            ).map_values(|b: u8| b as char).push(head@[i as int] as char));
        }
        i = i + 1;
    }
    proof {
        assert(head@.subrange(0, head@.len() as int) =~= head@);
        assert(cs@ =~= spec_short_node_id(node_id@));
    }
    crate::trusted::chars_to_string(&cs)
}

} // verus!
