//! The control-channel handshake: the one line an agent sends after the TLS
//! connect, `M87 agent_id=<id> token=<base64url>`, and the server's decision
//! on it.
//!
//! Keys are whitespace-separated `key=value` pairs; unknown keys are
//! ignored. A bad or expired token closes the connection with no reply.

use vstd::prelude::*;
use crate::text::{copy_subrange_chars, str_eq};
use crate::token::{spec_issued_token, spec_token_accepted, verify_tunnel_token_at};
use vstd::utf8::decode_utf8;
use crate::trusted::{chars_to_string, str_to_chars};
use vstd::string::StringSliceAdditionalSpecFns;
use vstd::string::StringExecFns;

verus! {

/// ASCII whitespace, as the handshake line may separate its pairs.
pub open spec fn spec_is_ws(c: char) -> bool {
    c == ' ' || c == '\t' || c == '\n' || c == '\r'
}

/// The whitespace-separated tokens of a line, in order.
pub open spec fn spec_tokens(s: Seq<char>) -> Seq<Seq<char>>
    decreases s.len(),
{
    if s.len() == 0 {
        seq![]
    } else if spec_is_ws(s[0]) {
        spec_tokens(s.drop_first())
    } else {
        let rest = spec_tokens(s.drop_first());
        if s.len() >= 2 && !spec_is_ws(s[1]) {
            seq![seq![s[0]] + rest[0]] + rest.drop_first()
        } else {
            seq![seq![s[0]]] + rest
        }
    }
}

/// The value of a token of the form `key=value`, if it has that form.
pub open spec fn spec_kv_match(t: Seq<char>, key: Seq<char>) -> Option<Seq<char>> {
    if t.len() > key.len() && t.subrange(0, key.len() as int) == key && t[key.len() as int]
        == '=' {
        Some(t.subrange(key.len() as int + 1, t.len() as int))
    } else {
        None
    }
}

/// The value of the first token that carries the key.
pub open spec fn spec_find_kv(toks: Seq<Seq<char>>, key: Seq<char>) -> Option<Seq<char>>
    decreases toks.len(),
{
    if toks.len() == 0 {
        None
    } else {
        match spec_kv_match(toks[0], key) {
            Some(v) => Some(v),
            None => spec_find_kv(toks.drop_first(), key),
        }
    }
}

/// What `extract_kv` returns: the value of the first whitespace-separated
/// `key=value` pair of the line whose key matches.
pub open spec fn spec_extract_kv(line: Seq<char>, key: Seq<char>) -> Option<Seq<char>> {
    spec_find_kv(spec_tokens(line), key)
}

/// A run of `k` non-whitespace characters closed by whitespace or the end
/// is the first token.
pub proof fn lemma_tokens_run(s: Seq<char>, k: int)
    requires
        0 < k <= s.len(),
        forall|j: int| 0 <= j < k ==> !spec_is_ws(#[trigger] s[j]),
        k == s.len() || spec_is_ws(s[k]),
    ensures
        spec_tokens(s) == seq![s.subrange(0, k)] + spec_tokens(s.subrange(k, s.len() as int)),
    decreases k,
{
    let d = s.drop_first();
    if k == 1 {
        if s.len() == 1 {
            assert(spec_tokens(s) == seq![seq![s[0]]] + spec_tokens(d));
            assert(d =~= s.subrange(1, s.len() as int));
            assert(seq![s[0]] =~= s.subrange(0, 1));
        } else {
            assert(spec_is_ws(s[1]));
            assert(spec_tokens(s) == seq![seq![s[0]]] + spec_tokens(d));
            assert(d =~= s.subrange(1, s.len() as int));
            assert(seq![s[0]] =~= s.subrange(0, 1));
        }
    } else {
        assert(!spec_is_ws(s[1]));
        assert forall|j: int| 0 <= j < k - 1 implies !spec_is_ws(#[trigger] d[j]) by {
            assert(d[j] == s[j + 1]);
        }
        if k - 1 < d.len() {
            assert(d[k - 1] == s[k]);
        }
        lemma_tokens_run(d, k - 1);
        let rest = spec_tokens(d);
        assert(rest == seq![d.subrange(0, k - 1)] + spec_tokens(d.subrange(k - 1, d.len() as int)));
        assert(rest[0] == d.subrange(0, k - 1));
        assert(rest.drop_first() =~= spec_tokens(d.subrange(k - 1, d.len() as int)));
        assert(seq![s[0]] + d.subrange(0, k - 1) =~= s.subrange(0, k));
        assert(d.subrange(k - 1, d.len() as int) =~= s.subrange(k, s.len() as int));
        assert(spec_tokens(s) == seq![seq![s[0]] + rest[0]] + rest.drop_first());
        assert(spec_tokens(s) =~= seq![s.subrange(0, k)] + spec_tokens(
            s.subrange(k, s.len() as int),
        ));
    }
}

/// ASCII-whitespace test on one character.
fn is_ws_char(c: char) -> (r: bool)
    ensures
        r == spec_is_ws(c),
{
    c == ' ' || c == '\t' || c == '\n' || c == '\r'
}

/// Extract the value of a `key=value` pair from a whitespace-separated line.
pub fn extract_kv(line: &str, key: &str) -> (r: Option<String>)
    ensures
        match r {
            Some(v) => spec_extract_kv(line@, key@) == Some(v@),
            None => spec_extract_kv(line@, key@) is None,
        },
{
    let lc = str_to_chars(line);
    let kc = str_to_chars(key);
    let n = lc.len();
    let klen = kc.len();
    let mut i: usize = 0;
    proof {
        assert(lc@.subrange(0, n as int) =~= lc@);
    }
    while i < n
        invariant
            i <= n,
            n == lc@.len(),
            klen == kc@.len(),
            lc@ == line@,
            kc@ == key@,
            spec_find_kv(spec_tokens(line@), key@) == spec_find_kv(
                spec_tokens(lc@.subrange(i as int, n as int)),
                key@,
            ),
        decreases n - i,
    {
        let c = lc[i];
        if is_ws_char(c) {
            proof {
                let cur = lc@.subrange(i as int, n as int);
                assert(cur[0] == c);
                assert(cur.drop_first() =~= lc@.subrange(i + 1, n as int));
            }
            i = i + 1;
        } else {
            // scan the token run
            let mut end: usize = i + 1;
            while end < n && !is_ws_char(lc[end])
                invariant
                    i < end <= n,
                    n == lc@.len(),
                    lc@ == line@,
                    forall|j: int| i <= j < end ==> !spec_is_ws(#[trigger] lc@[j]),
                decreases n - end,
            {
                end = end + 1;
            }
            proof {
                let cur = lc@.subrange(i as int, n as int);
                assert forall|j: int| 0 <= j < end - i implies !spec_is_ws(
                    #[trigger] cur[j],
                ) by {
                    assert(cur[j] == lc@[i + j]);
                }
                if end < n {
                    assert(cur[end - i] == lc@[end as int]);
                }
                lemma_tokens_run(cur, end - i);
                assert(cur.subrange(0, end - i) =~= lc@.subrange(i as int, end as int));
                assert(cur.subrange(end - i, cur.len() as int) =~= lc@.subrange(
                    end as int,
                    n as int,
                ));
            }
            // does this token carry the key?
            let len_ok = end - i > klen;
            let mut eq = true;
            if len_ok {
                let mut t: usize = 0;
                while t < klen && eq
                    invariant
                        t <= klen,
                        klen < end - i,
                        i < end <= n,
                        n == lc@.len(),
                        klen == kc@.len(),
                        lc@ == line@,
                        kc@ == key@,
                        eq ==> forall|j: int| 0 <= j < t ==> lc@[i + j] == kc@[j],
                        !eq ==> exists|j: int|
                            0 <= j < klen && #[trigger] lc@[i + j] != kc@[j],
                    decreases klen - t,
                {
                    if lc[i + t] != kc[t] {
                        eq = false;
                    }
                    t = t + 1;
                }
                if eq && lc[i + klen] != '=' {
                    eq = false;
                    proof {
                        assert(lc@[i + klen] != '=');
                    }
                }
            }
            let ghost tok = lc@.subrange(i as int, end as int);
            if len_ok && eq {
                proof {
                    assert forall|j: int| 0 <= j < klen implies tok[j] == kc@[j] by {
                        assert(tok[j] == lc@[i + j]);
                        assert(lc@[i + j] == kc@[j]);
                    }
                    assert(tok.subrange(0, klen as int) =~= kc@);
                    assert(tok[klen as int] == lc@[i + klen]);
                    assert(tok[klen as int] == '=');
                    assert(spec_kv_match(tok, key@) == Some(
                        tok.subrange(klen as int + 1, tok.len() as int),
                    ));
                    let cur = lc@.subrange(i as int, n as int);
                    assert(spec_tokens(cur)[0] == tok);
                }
                let value = copy_subrange_chars(lc.as_slice(), i + klen + 1, end);
                proof {
                    assert(value@ =~= tok.subrange(klen as int + 1, tok.len() as int));
                }
                return Some(chars_to_string(&value));
            } else {
                proof {
                    assert(spec_kv_match(tok, key@) is None) by {
                        if tok.len() > key@.len() && tok.subrange(0, key@.len() as int)
                            == key@ && tok[key@.len() as int] == '=' {
                            assert(end - i > klen);
                            assert forall|j: int|
                                0 <= j < klen implies lc@[i + j] == kc@[j] by {
                                assert(tok[j] == lc@[i + j]);
                                assert(tok.subrange(0, key@.len() as int)[j] == kc@[j]);
                            }
                            assert(tok[klen as int] == lc@[i + klen]);
                        }
                    }
                    let cur = lc@.subrange(i as int, n as int);
                    let toks = spec_tokens(cur);
                    assert(toks[0] == tok);
                    assert(toks.drop_first() =~= spec_tokens(
                        lc@.subrange(end as int, n as int),
                    ));
                }
                i = end;
            }
        }
    }
    proof {
        assert(lc@.subrange(n as int, n as int) =~= Seq::<char>::empty());
    }
    None
}

/// Build the handshake line an agent sends to open its control tunnel.
pub fn control_handshake_line(agent_id: &str, token: &str) -> (r: String)
    ensures
        r@ == "M87 agent_id="@ + agent_id@ + " token="@ + token@ + "\n"@,
{
    let mut line = String::new();
    line.append("M87 agent_id=");
    line.append(agent_id);
    line.append(" token=");
    line.append(token);
    line.append("\n");
    proof {
        assert(line@ =~= "M87 agent_id="@ + agent_id@ + " token="@ + token@ + "\n"@);
    }
    line
}

/// The line names `id` as agent and carries a token that is accepted for
/// `id` at `now`.
pub open spec fn spec_handshake_accepts(
    line: Seq<char>,
    key: Seq<u8>,
    now: int,
    id: Seq<char>,
) -> bool {
    &&& spec_extract_kv(line, "agent_id"@) == Some(id)
    &&& exists|tokv: Seq<char>|
        spec_extract_kv(line, "token"@) == Some(tokv) && #[trigger] spec_token_accepted(
            tokv,
            key,
            now,
            id,
        )
}

/// The server's verdict on a handshake line.
pub enum HandshakeDecision {
    /// Register a control session for this agent.
    Accept(String),
    /// Close the connection, with no reply.
    Reject,
}

/// The line presents a well-formed, unexpired token for its own agent id:
/// both pairs are present and nonempty, the token is one the issuer could
/// have produced for `idb` with an expiry after `now`, and the line's
/// `agent_id` pair reads as that token's agent id.
pub open spec fn spec_handshake_well_formed(
    line: Seq<char>,
    key: Seq<u8>,
    now: int,
    tokv: Seq<char>,
    idb: Seq<u8>,
    expiry: int,
) -> bool {
    &&& spec_extract_kv(line, "agent_id"@) == Some(decode_utf8(idb))
    &&& spec_extract_kv(line, "token"@) == Some(tokv)
    &&& decode_utf8(idb).len() > 0
    &&& tokv.len() > 0
    &&& spec_issued_token(tokv, key, idb, expiry)
    &&& now < expiry
}

/// Decide a control handshake at the given time: the line must carry
/// `agent_id` and `token` pairs, and the token must verify to that very
/// agent id. Anything else closes the connection silently.
///
/// The three directions of the contract: an acceptance is only ever of the
/// line's own agent id with an accepted token; every line presenting a
/// well-formed unexpired token for its own agent id is accepted; and a
/// well-formed token that is already expired is always rejected, so no
/// session is ever created for it.
pub fn control_handshake_decision(line: &str, secret: &str, now: i64) -> (r: HandshakeDecision)
    ensures
        r matches HandshakeDecision::Accept(id) ==> spec_handshake_accepts(
            line@,
            secret.spec_bytes(),
            now as int,
            id@,
        ),
        forall|tokv: Seq<char>, idb: Seq<u8>, expiry: int|
            #[trigger] spec_handshake_well_formed(
                line@,
                secret.spec_bytes(),
                now as int,
                tokv,
                idb,
                expiry,
            ) ==> (r matches HandshakeDecision::Accept(id) && id@ == decode_utf8(idb)),
        forall|tokv: Seq<char>, idb: Seq<u8>, expiry: int|
            spec_extract_kv(line@, "token"@) == Some(tokv) && #[trigger] spec_issued_token(
                tokv,
                secret.spec_bytes(),
                idb,
                expiry,
            ) && expiry <= now ==> r is Reject,
{
    let ghost key = secret.spec_bytes();
    let agent_id = match extract_kv(line, "agent_id") {
        Some(v) => v,
        None => {
            proof {
                assert forall|tokv: Seq<char>, idb: Seq<u8>, expiry: int|
                    #[trigger] spec_handshake_well_formed(
                        line@,
                        key,
                        now as int,
                        tokv,
                        idb,
                        expiry,
                    ) implies false by {}
            }
            return HandshakeDecision::Reject;
        },
    };
    let token = match extract_kv(line, "token") {
        Some(v) => v,
        None => {
            proof {
                assert forall|tokv: Seq<char>, idb: Seq<u8>, expiry: int|
                    #[trigger] spec_handshake_well_formed(
                        line@,
                        key,
                        now as int,
                        tokv,
                        idb,
                        expiry,
                    ) implies false by {}
            }
            return HandshakeDecision::Reject;
        },
    };
    if agent_id.as_str().is_empty() || token.as_str().is_empty() {
        proof {
            assert forall|tokv: Seq<char>, idb: Seq<u8>, expiry: int|
                #[trigger] spec_handshake_well_formed(
                    line@,
                    key,
                    now as int,
                    tokv,
                    idb,
                    expiry,
                ) implies false by {
                assert(agent_id@ == decode_utf8(idb));
                assert(token@ == tokv);
            }
        }
        return HandshakeDecision::Reject;
    }
    let verified = verify_tunnel_token_at(token.as_str(), secret, now);
    match verified {
        Ok(vid) => {
            if str_eq(vid.as_str(), agent_id.as_str()) {
                proof {
                    assert(spec_token_accepted(
                        token@,
                        secret.spec_bytes(),
                        now as int,
                        agent_id@,
                    ));
                    assert(spec_handshake_accepts(
                        line@,
                        secret.spec_bytes(),
                        now as int,
                        agent_id@,
                    ));
                    assert forall|tokv: Seq<char>, idb: Seq<u8>, expiry: int|
                        #[trigger] spec_handshake_well_formed(
                            line@,
                            key,
                            now as int,
                            tokv,
                            idb,
                            expiry,
                        ) implies agent_id@ == decode_utf8(idb) by {
                        assert(token@ == tokv);
                        assert(spec_issued_token(token@, key, idb, expiry));
                        assert(vid@ == decode_utf8(idb));
                    }
                    assert forall|tokv: Seq<char>, idb: Seq<u8>, expiry: int|
                        spec_extract_kv(line@, "token"@) == Some(tokv) && #[trigger]
                            spec_issued_token(tokv, key, idb, expiry) && expiry
                            <= now implies false by {
                        assert(tokv == token@);
                        assert(spec_issued_token(token@, key, idb, expiry));
                    }
                }
                HandshakeDecision::Accept(agent_id)
            } else {
                proof {
                    assert forall|tokv: Seq<char>, idb: Seq<u8>, expiry: int|
                        #[trigger] spec_handshake_well_formed(
                            line@,
                            key,
                            now as int,
                            tokv,
                            idb,
                            expiry,
                        ) implies false by {
                        assert(token@ == tokv);
                        assert(spec_issued_token(token@, key, idb, expiry));
                        assert(vid@ == decode_utf8(idb));
                        assert(agent_id@ == decode_utf8(idb));
                    }
                }
                HandshakeDecision::Reject
            }
        },
        Err(_) => {
            proof {
                assert forall|tokv: Seq<char>, idb: Seq<u8>, expiry: int|
                    #[trigger] spec_handshake_well_formed(
                        line@,
                        key,
                        now as int,
                        tokv,
                        idb,
                        expiry,
                    ) implies false by {
                    assert(token@ == tokv);
                    assert(spec_issued_token(token@, key, idb, expiry));
                }
            }
            HandshakeDecision::Reject
        },
    }
}

/// Seconds to wait before the agent supervisor retries, by what ended.
pub enum SupervisorEvent {
    /// Registration with the server failed.
    RegisterFailed,
    /// The control tunnel ended with an error.
    TunnelError,
    /// The control tunnel closed cleanly.
    TunnelClosed,
}

/// The supervisor's backoff: a failed registration retries after one
/// second, a failed tunnel after five, a cleanly closed tunnel after one.
pub fn supervisor_retry_delay_secs(ev: &SupervisorEvent) -> (r: u64)
    ensures
        r == match ev {
            SupervisorEvent::RegisterFailed => 1u64,
            SupervisorEvent::TunnelError => 5u64,
            SupervisorEvent::TunnelClosed => 1u64,
        },
{
    match ev {
        SupervisorEvent::RegisterFailed => 1,
        SupervisorEvent::TunnelError => 5,
        SupervisorEvent::TunnelClosed => 1,
    }
}

} // verus!
