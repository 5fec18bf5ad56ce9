//! Tunnel tokens: short-lived HMAC-signed credentials that authorize one
//! agent to open its control tunnel.
//!
//! A token is the base64url-no-padding encoding of the ASCII text
//! `agent_id|expiry|hex(HMAC-SHA256(secret, agent_id|expiry))`, with the
//! expiry in UNIX seconds. Verification decodes, splits on `|`, checks the
//! expiry against the given time, and recomputes the signature.

use vstd::prelude::*;
use crate::response::{NexusError, NexusResult};
use crate::text::{
    spec_dec_int, spec_dec_nat, spec_parse_i64, spec_hex_bytes, spec_parse_hex, push_dec_i64,
    parse_i64_dec, hex_encode_bytes, hex_decode_bytes, find_byte, lemma_dec_int_round_trip,
    lemma_dec_nat_digits, lemma_hex_round_trip,
};
use crate::trusted::{
    hmac_sha256_of, b64url_of, hmac_sha256, hmac_sha256_verify, b64url_encode, b64url_decode,
    bytes_to_string, now_unix_seconds,
};
use vstd::utf8::{valid_utf8, decode_utf8};
use vstd::slice::slice_subrange;
use vstd::string::StringSliceAdditionalSpecFns;

verus! {

/// The signed part of a token: `agent_id|expiry` as bytes.
pub open spec fn spec_token_payload(id: Seq<u8>, expiry: int) -> Seq<u8> {
    id + seq![0x7Cu8] + spec_dec_int(expiry)
}

/// The bytes a token encodes: the payload, a separator, and the lowercase
/// hex text of the payload's HMAC-SHA-256 tag under the secret.
pub open spec fn spec_token_raw(id: Seq<u8>, expiry: int, key: Seq<u8>) -> Seq<u8> {
    spec_token_payload(id, expiry) + seq![0x7Cu8] + spec_hex_bytes(
        hmac_sha256_of(key, spec_token_payload(id, expiry)),
    )
}

/// An agent id that fits the token layout: UTF-8 text without the
/// separator byte.
pub open spec fn spec_wf_token_id(id: Seq<u8>) -> bool {
    valid_utf8(id) && !id.contains(0x7Cu8)
}

/// One way of reading a token: it encodes three `|`-separated parts, the
/// middle one a decimal expiry after `now`, the last one the hex text of
/// the first two parts' tag under `key`; and `id` is the first part's text.
pub open spec fn spec_token_reading(
    token: Seq<char>,
    key: Seq<u8>,
    now: int,
    idb: Seq<u8>,
    eb: Seq<u8>,
    sigb: Seq<u8>,
    expiry: int,
    id: Seq<char>,
) -> bool {
    &&& token == b64url_of(idb + seq![0x7Cu8] + eb + seq![0x7Cu8] + sigb)
    &&& !idb.contains(0x7Cu8)
    &&& spec_parse_i64(eb) == Some(expiry)
    &&& now < expiry
    &&& spec_parse_hex(sigb) == Some(hmac_sha256_of(key, idb + seq![0x7Cu8] + eb))
    &&& id == decode_utf8(idb)
}

/// The token is accepted at `now` as naming `id`, under some reading.
pub open spec fn spec_token_accepted(token: Seq<char>, key: Seq<u8>, now: int, id: Seq<char>) -> bool {
    exists|idb: Seq<u8>, eb: Seq<u8>, sigb: Seq<u8>, expiry: int|
        spec_token_reading(token, key, now, idb, eb, sigb, expiry, id)
}

/// A well-formed token that the issuer could have produced: id without
/// separators, expiry in range.
pub open spec fn spec_issued_token(
    token: Seq<char>,
    key: Seq<u8>,
    idb: Seq<u8>,
    expiry: int,
) -> bool {
    &&& spec_wf_token_id(idb)
    &&& i64::MIN <= expiry <= i64::MAX
    &&& token == b64url_of(spec_token_raw(idb, expiry, key))
}

/// Issue a token for `node_id` that expires at `now + ttl_secs`.
pub fn issue_tunnel_token_at(node_id: &str, ttl_secs: u64, secret: &str, now: i64) -> (r:
    NexusResult<String>)
    requires
        ttl_secs <= i64::MAX,
        now + ttl_secs <= i64::MAX,
    ensures
        r matches Ok(t) && t@ == b64url_of(
            spec_token_raw(node_id.spec_bytes(), now + ttl_secs, secret.spec_bytes()),
        ),
{
    let expiry: i64 = now + (ttl_secs as i64);
    let mut payload: Vec<u8> = Vec::new();
    payload.extend_from_slice(node_id.as_bytes());
    payload.push(0x7Cu8);
    push_dec_i64(expiry, &mut payload);
    proof {
        assert(payload@ =~= spec_token_payload(node_id.spec_bytes(), expiry as int));
    }
    let tag = hmac_sha256(secret.as_bytes(), payload.as_slice());
    let mut hexsig = hex_encode_bytes(tag.as_slice());
    let mut raw = payload;
    raw.push(0x7Cu8);
    raw.append(&mut hexsig);
    proof {
        assert(raw@ =~= spec_token_raw(
            node_id.spec_bytes(),
            expiry as int,
            secret.spec_bytes(),
        ));
    }
    Ok(b64url_encode(raw.as_slice()))
}

/// Issue a token expiring `ttl_secs` from the current time.
pub fn issue_tunnel_token(node_id: &str, ttl_secs: u64, secret: &str) -> (r: NexusResult<
    String,
>)
    ensures
        r matches Ok(t) ==> exists|expiry: int|
            t@ == b64url_of(
                #[trigger] spec_token_raw(node_id.spec_bytes(), expiry, secret.spec_bytes()),
            ),
{
    let now = now_unix_seconds();
    if ttl_secs > i64::MAX as u64 {
        return Err(NexusError::internal_error("ttl out of range"));
    }
    if now > i64::MAX - (ttl_secs as i64) {
        return Err(NexusError::internal_error("expiry out of range"));
    }
    issue_tunnel_token_at(node_id, ttl_secs, secret, now)
}

/// Splitting at the first separator of `a + [0x7C] + tail` finds the end
/// of `a` when `a` is separator-free.
proof fn lemma_pipe_split(raw: Seq<u8>, a: Seq<u8>, tail: Seq<u8>, i: int)
    requires
        raw == a + seq![0x7Cu8] + tail,
        !a.contains(0x7Cu8),
        0 <= i < raw.len(),
        raw[i] == 0x7Cu8,
        forall|j: int| 0 <= j < i ==> raw[j] != 0x7Cu8,
    ensures
        i == a.len(),
        raw.subrange(0, i) == a,
        raw.subrange(i + 1, raw.len() as int) == tail,
{
    if i < a.len() {
        assert(raw[i] == a[i]);
        assert(a.contains(0x7Cu8));
    } else if i > a.len() {
        assert(raw[a.len() as int] == 0x7Cu8);
    }
    assert(raw.subrange(0, i) =~= a);
    assert(raw.subrange(i + 1, raw.len() as int) =~= tail);
}

/// Hex text holds no separator byte.
proof fn lemma_hex_bytes_no_pipe(t: Seq<u8>)
    ensures
        !spec_hex_bytes(t).contains(0x7Cu8),
        forall|j: int|
            0 <= j < spec_hex_bytes(t).len() ==> #[trigger] spec_hex_bytes(t)[j] != 0x7Cu8,
    decreases t.len(),
{
    if t.len() > 0 {
        lemma_hex_bytes_no_pipe(t.drop_first());
        let s = spec_hex_bytes(t);
        let rest = spec_hex_bytes(t.drop_first());
        assert forall|j: int| 0 <= j < s.len() implies #[trigger] s[j] != 0x7Cu8 by {
            if j >= 2 {
                assert(s[j] == rest[j - 2]);
            }
        }
        if s.contains(0x7Cu8) {
            let w = choose|j: int| 0 <= j < s.len() && s[j] == 0x7Cu8;
            assert(s[w] != 0x7Cu8);
        }
    }
}

/// Decimal text holds no separator byte.
proof fn lemma_dec_int_no_pipe(n: int)
    ensures
        !spec_dec_int(n).contains(0x7Cu8),
{
    let s = spec_dec_int(n);
    if n < 0 {
        lemma_dec_nat_digits((-n) as nat);
        let d = spec_dec_nat((-n) as nat);
        assert forall|j: int| 0 <= j < s.len() implies #[trigger] s[j] != 0x7Cu8 by {
            if j >= 1 {
                assert(s[j] == d[j - 1]);
                assert(0x30 <= d[j - 1] <= 0x39);
            }
        }
    } else {
        lemma_dec_nat_digits(n as nat);
        assert forall|j: int| 0 <= j < s.len() implies #[trigger] s[j] != 0x7Cu8 by {
            assert(0x30 <= s[j] <= 0x39);
        }
    }
    if s.contains(0x7Cu8) {
        let w = choose|j: int| 0 <= j < s.len() && s[j] == 0x7Cu8;
        assert(s[w] != 0x7Cu8);
    }
}


/// If the decoded bytes are a well-formed token and the two separators
/// found are the first ones, the three parts are the token's parts.
proof fn lemma_token_split(rawv: Seq<u8>, key: Seq<u8>, idb2: Seq<u8>, expiry2: int, i1: int, j:
    int)
    requires
        rawv == spec_token_raw(idb2, expiry2, key),
        !idb2.contains(0x7Cu8),
        0 <= i1 < rawv.len(),
        rawv[i1] == 0x7Cu8,
        forall|j0: int| 0 <= j0 < i1 ==> rawv[j0] != 0x7Cu8,
        0 <= j < rawv.len() - i1 - 1,
        rawv.subrange(i1 + 1, rawv.len() as int)[j] == 0x7Cu8,
        forall|k: int|
            0 <= k < j ==> #[trigger] rawv.subrange(i1 + 1, rawv.len() as int)[k] != 0x7Cu8,
    ensures
        i1 == idb2.len(),
        rawv.subrange(0, i1) == idb2,
        j == spec_dec_int(expiry2).len(),
        rawv.subrange(i1 + 1, i1 + 1 + j) == spec_dec_int(expiry2),
        rawv.subrange(i1 + 1 + j + 1, rawv.len() as int) == spec_hex_bytes(
            hmac_sha256_of(key, spec_token_payload(idb2, expiry2)),
        ),
{
    let eb = spec_dec_int(expiry2);
    let tag = hmac_sha256_of(key, spec_token_payload(idb2, expiry2));
    let sigb = spec_hex_bytes(tag);
    assert(rawv =~= idb2 + seq![0x7Cu8] + (eb + seq![0x7Cu8] + sigb));
    lemma_pipe_split(rawv, idb2, eb + seq![0x7Cu8] + sigb, i1);
    let a1 = rawv.subrange(i1 + 1, rawv.len() as int);
    assert(a1 == eb + seq![0x7Cu8] + sigb);
    lemma_dec_int_no_pipe(expiry2);
    lemma_pipe_split(a1, eb, sigb, j);
    assert(rawv.subrange(i1 + 1, i1 + 1 + j) =~= a1.subrange(0, j));
    assert(rawv.subrange(i1 + 1 + j + 1, rawv.len() as int) =~= a1.subrange(
        j + 1,
        a1.len() as int,
    ));
}

/// Verify a token against a secret at the given time.
///
/// On success the returned id is the text of the token's first part, the
/// token's signature is the payload's tag under this secret, and the expiry
/// lies after `now`. Every well-formed token for an unexpired instant is
/// accepted, and every well-formed token for a passed instant is rejected.
#[verifier::rlimit(100)]
#[verifier::spinoff_prover]
pub fn verify_tunnel_token_at(token_b64: &str, secret: &str, now: i64) -> (r: NexusResult<
    String,
>)
    ensures
        r matches Ok(id) ==> spec_token_accepted(
            token_b64@,
            secret.spec_bytes(),
            now as int,
            id@,
        ),
        forall|idb: Seq<u8>, expiry: int|
            #[trigger] spec_issued_token(token_b64@, secret.spec_bytes(), idb, expiry)
                && now < expiry ==> (r matches Ok(id) && id@ == decode_utf8(idb)),
        forall|idb: Seq<u8>, expiry: int|
            #[trigger] spec_issued_token(token_b64@, secret.spec_bytes(), idb, expiry)
                && expiry <= now ==> (r is Err),
{
    let ghost key = secret.spec_bytes();
    let ghost token = token_b64@;
    let decoded_opt = b64url_decode(token_b64);
    let ghost dopt = decoded_opt;
    let decoded = match decoded_opt {
        Some(v) => v,
        None => {
            proof {
                assert forall|idb2: Seq<u8>, expiry2: int|
                    #[trigger] spec_issued_token(token, key, idb2, expiry2)
                        && now < expiry2 implies false by {
                    assert(token == b64url_of(spec_token_raw(idb2, expiry2, key)));
                    assert(dopt is Some);
                }
            }
            return Err(NexusError::internal_error("invalid base64"));
        },
    };
    let raw = decoded.as_slice();
    let n = raw.len();
    let ghost rawv = raw@;
    proof {
        assert(dopt == Some(decoded));
    }

    let i1 = match find_byte(raw, 0x7Cu8) {
        Some(i) => i,
        None => {
            proof {
                assert forall|idb2: Seq<u8>, expiry2: int|
                    #[trigger] spec_issued_token(token, key, idb2, expiry2)
                        && now < expiry2 implies false by {
                    assert(rawv == spec_token_raw(idb2, expiry2, key));
                    assert(rawv[idb2.len() as int] == 0x7Cu8);
                }
            }
            return Err(NexusError::invalid_token("invalid token format"));
        },
    };
    let after1 = slice_subrange(raw, i1 + 1, n);

    let j = match find_byte(after1, 0x7Cu8) {
        Some(j) => j,
        None => {
            proof {
                assert forall|idb2: Seq<u8>, expiry2: int|
                    #[trigger] spec_issued_token(token, key, idb2, expiry2)
                        && now < expiry2 implies false by {
                    assert(rawv == spec_token_raw(idb2, expiry2, key));
                    let eb = spec_dec_int(expiry2);
                    let sigb = spec_hex_bytes(
                        hmac_sha256_of(key, spec_token_payload(idb2, expiry2)),
                    );
                    assert(rawv =~= idb2 + seq![0x7Cu8] + (eb + seq![0x7Cu8] + sigb));
                    lemma_pipe_split(rawv, idb2, eb + seq![0x7Cu8] + sigb, i1 as int);
                    assert(after1@ == eb + seq![0x7Cu8] + sigb);
                    assert(after1@[eb.len() as int] == 0x7Cu8);
                }
            }
            return Err(NexusError::invalid_token("invalid token format"));
        },
    };
    let idb = slice_subrange(raw, 0, i1);
    let eb = slice_subrange(after1, 0, j);
    let sigb = slice_subrange(after1, j + 1, after1.len());
    proof {
        assert(eb@ =~= rawv.subrange(i1 + 1, i1 + 1 + j));
        assert(sigb@ =~= rawv.subrange(i1 + 1 + j + 1, n as int));
    }

    // a third separator would mean more than three parts
    let third = find_byte(sigb, 0x7Cu8);
    if third.is_some() {
        proof {
            assert forall|idb2: Seq<u8>, expiry2: int|
                #[trigger] spec_issued_token(token, key, idb2, expiry2)
                    && now < expiry2 implies false by {
                assert(rawv == spec_token_raw(idb2, expiry2, key));
                lemma_token_split(rawv, key, idb2, expiry2, i1 as int, j as int);
                let tag = hmac_sha256_of(key, spec_token_payload(idb2, expiry2));
                lemma_hex_bytes_no_pipe(tag);
                assert(sigb@ == spec_hex_bytes(tag));
                let w = third->Some_0;
                assert(sigb@[w as int] == 0x7Cu8);
            }
        }
        return Err(NexusError::invalid_token("invalid token format"));
    }

    let expiry = match parse_i64_dec(eb) {
        Some(e) => e,
        None => {
            proof {
                assert forall|idb2: Seq<u8>, expiry2: int|
                    #[trigger] spec_issued_token(token, key, idb2, expiry2)
                        && now < expiry2 implies false by {
                    assert(rawv == spec_token_raw(idb2, expiry2, key));
                    lemma_token_split(rawv, key, idb2, expiry2, i1 as int, j as int);
                    lemma_dec_int_round_trip(expiry2);
                    assert(eb@ == spec_dec_int(expiry2));
                }
            }
            return Err(NexusError::invalid_token("invalid expiry"));
        },
    };

    if now >= expiry {
        proof {
            assert forall|idb2: Seq<u8>, expiry2: int|
                #[trigger] spec_issued_token(token, key, idb2, expiry2)
                    && now < expiry2 implies false by {
                assert(rawv == spec_token_raw(idb2, expiry2, key));
                lemma_token_split(rawv, key, idb2, expiry2, i1 as int, j as int);
                lemma_dec_int_round_trip(expiry2);
                assert(eb@ == spec_dec_int(expiry2));
                assert(spec_parse_i64(eb@) == Some(expiry2));
                assert(expiry2 == expiry as int);
            }
        }
        return Err(NexusError::invalid_token("token expired"));
    }

    let sig = match hex_decode_bytes(sigb) {
        Some(s) => s,
        None => {
            proof {
                assert forall|idb2: Seq<u8>, expiry2: int|
                    #[trigger] spec_issued_token(token, key, idb2, expiry2)
                        && now < expiry2 implies false by {
                    assert(rawv == spec_token_raw(idb2, expiry2, key));
                    lemma_token_split(rawv, key, idb2, expiry2, i1 as int, j as int);
                    let tag = hmac_sha256_of(key, spec_token_payload(idb2, expiry2));
                    lemma_hex_round_trip(tag);
                    assert(sigb@ == spec_hex_bytes(tag));
                }
            }
            return Err(NexusError::internal_error("invalid signature hex"));
        },
    };

    let payload = slice_subrange(raw, 0, i1 + 1 + j);
    proof {
        assert(payload@ =~= idb@ + seq![0x7Cu8] + eb@);
    }
    if !hmac_sha256_verify(secret.as_bytes(), payload, sig.as_slice()) {
        proof {
            assert forall|idb2: Seq<u8>, expiry2: int|
                #[trigger] spec_issued_token(token, key, idb2, expiry2)
                    && now < expiry2 implies false by {
                assert(rawv == spec_token_raw(idb2, expiry2, key));
                lemma_token_split(rawv, key, idb2, expiry2, i1 as int, j as int);
                let tag = hmac_sha256_of(key, spec_token_payload(idb2, expiry2));
                lemma_hex_round_trip(tag);
                assert(sigb@ == spec_hex_bytes(tag));
                assert(spec_parse_hex(sigb@) == Some(tag));
                assert(sig@ == tag);
                assert(idb@ == idb2);
                assert(eb@ == spec_dec_int(expiry2));
                assert(payload@ =~= spec_token_payload(idb2, expiry2));
            }
        }
        return Err(NexusError::internal_error("invalid signature"));
    }

    let id = match bytes_to_string(slice_to_vec_u8(idb)) {
        Some(s) => s,
        None => {
            proof {
                assert forall|idb2: Seq<u8>, expiry2: int|
                    #[trigger] spec_issued_token(token, key, idb2, expiry2)
                        && now < expiry2 implies false by {
                    assert(rawv == spec_token_raw(idb2, expiry2, key));
                    lemma_token_split(rawv, key, idb2, expiry2, i1 as int, j as int);
                    assert(idb@ == idb2);
                    assert(valid_utf8(idb@));
                }
            }
            return Err(NexusError::internal_error("invalid utf-8 in token"));
        },
    };
    proof {
        assert(rawv =~= idb@ + seq![0x7Cu8] + eb@ + seq![0x7Cu8] + sigb@);
        assert(token == b64url_of(idb@ + seq![0x7Cu8] + eb@ + seq![0x7Cu8] + sigb@));
        assert(!idb@.contains(0x7Cu8)) by {
            if idb@.contains(0x7Cu8) {
                let w = choose|w: int| 0 <= w < idb@.len() && idb@[w] == 0x7Cu8;
                assert(rawv[w] == 0x7Cu8);
            }
        }
        assert(spec_token_reading(
            token_b64@,
            secret.spec_bytes(),
            now as int,
            idb@,
            eb@,
            sigb@,
            expiry as int,
            id@,
        ));
        assert(spec_token_accepted(token_b64@, secret.spec_bytes(), now as int, id@));
        assert forall|idb2: Seq<u8>, expiry2: int|
            #[trigger] spec_issued_token(token, key, idb2, expiry2)
                && now < expiry2 implies id@ == decode_utf8(idb2) by {
            assert(rawv == spec_token_raw(idb2, expiry2, key));
            lemma_token_split(rawv, key, idb2, expiry2, i1 as int, j as int);
            assert(idb@ == idb2);
        }
        assert forall|idb2: Seq<u8>, expiry2: int|
            #[trigger] spec_issued_token(token, key, idb2, expiry2)
                && expiry2 <= now implies false by {
            assert(rawv == spec_token_raw(idb2, expiry2, key));
            lemma_token_split(rawv, key, idb2, expiry2, i1 as int, j as int);
            lemma_dec_int_round_trip(expiry2);
            assert(eb@ == spec_dec_int(expiry2));
            assert(spec_parse_i64(eb@) == Some(expiry2));
            assert(expiry2 == expiry as int);
        }
    }
    Ok(id)
}

/// Copy a byte slice into a vector.
fn slice_to_vec_u8(s: &[u8]) -> (r: Vec<u8>)
    ensures
        r@ == s@,
{
    let mut out: Vec<u8> = Vec::new();
    out.extend_from_slice(s);
    out
}

/// Verify a token against the current time.
pub fn verify_tunnel_token(token_b64: &str, secret: &str) -> (r: NexusResult<String>)
    ensures
        r matches Ok(id) ==> exists|now: int|
            spec_token_accepted(token_b64@, secret.spec_bytes(), now, id@),
{
    let now = now_unix_seconds();
    let r = verify_tunnel_token_at(token_b64, secret, now);
    proof {
        if r is Ok {
            let id = r->Ok_0;
            assert(spec_token_accepted(token_b64@, secret.spec_bytes(), now as int, id@));
        }
    }
    r
}

/// Issue, then verify before the expiry: the original id comes back.
/// This states the round trip of the token scheme; Verus checks it from the
/// two functions' contracts alone.
pub fn issue_then_verify_roundtrip(node_id: &str, ttl_secs: u64, secret: &str, now: i64) -> (r:
    NexusResult<String>)
    requires
        spec_wf_token_id(node_id.spec_bytes()),
        1 <= ttl_secs <= i64::MAX,
        now + ttl_secs <= i64::MAX,
    ensures
        r matches Ok(id) && id@ == node_id@,
{
    let token = match issue_tunnel_token_at(node_id, ttl_secs, secret, now) {
        Ok(t) => t,
        Err(e) => {
            proof {
                assert(false);
            }
            return Err(e);
        },
    };
    let r = verify_tunnel_token_at(token.as_str(), secret, now);
    proof {
        vstd::utf8::encode_utf8_decode_utf8(node_id@);
        assert(spec_issued_token(
            token@,
            secret.spec_bytes(),
            node_id.spec_bytes(),
            now + ttl_secs,
        ));
    }
    match r {
        Ok(id) => {
            assert(id@ == decode_utf8(node_id.spec_bytes()));
            assert(id@ == node_id@);
            Ok(id)
        },
        Err(e) => {
            proof {
                assert(false);
            }
            Err(e)
        },
    }
}

} // verus!
