//! The SNI router: every connection on the public port is dispatched by
//! the host name in its TLS hello.
//!
//! The apex goes to the REST listener, `control.<host>` to the control
//! channel, one or two labels before `.<host>` to the forward proxy, and
//! everything else — an empty or foreign name included — is closed.

use vstd::prelude::*;
use crate::trusted::str_to_chars;
use vstd::string::StringExecFns;

verus! {

/// Where a connection goes, by its SNI.
#[derive(PartialEq, Eq, Structural, Debug)]
pub enum Route {
    /// The apex name: proxy to the local REST listener.
    Rest,
    /// `control.` and the apex: the agent control channel.
    Control,
    /// A forward name: look it up in the forward registry.
    Forward,
    /// No or no recognized name: close at once.
    Close,
}

/// The label part before `.<host>` carries one or two nonempty labels.
pub open spec fn spec_labels_ok(prefix: Seq<char>) -> bool {
    ||| !prefix.contains('.')
    ||| exists|k: int|
        1 <= k <= prefix.len() - 2 && prefix[k] == '.' && forall|j: int|
            0 <= j < prefix.len() && j != k ==> prefix[j] != '.'
}

/// A forward name: one or two labels, a dot, and the public host.
pub open spec fn spec_is_forward_sni(sni: Seq<char>, host: Seq<char>) -> bool {
    &&& sni.len() > host.len() + 1
    &&& sni.subrange(sni.len() - host.len(), sni.len() as int) == host
    &&& sni[sni.len() - host.len() - 1] == '.'
    &&& spec_labels_ok(sni.subrange(0, sni.len() - host.len() - 1))
}

/// The dispatch: apex to REST, `control.` to the control channel, labeled
/// names to the forward proxy, everything else closed.
pub open spec fn spec_route(sni: Seq<char>, host: Seq<char>) -> Route {
    if sni.len() == 0 {
        Route::Close
    } else if sni == host {
        Route::Rest
    } else if sni == "control."@ + host {
        Route::Control
    } else if spec_is_forward_sni(sni, host) {
        Route::Forward
    } else {
        Route::Close
    }
}

/// Compare two character vectors.
fn chars_eq(a: &[char], b: &[char]) -> (r: bool)
    ensures
        r == (a@ == b@),
{
    if a.len() != b.len() {
        return false;
    }
    let mut i: usize = 0;
    while i < a.len()
        invariant
            i <= a@.len(),
            a@.len() == b@.len(),
            forall|j: int| 0 <= j < i ==> a@[j] == b@[j],
        decreases a.len() - i,
    {
        if a[i] != b[i] {
            return false;
        }
        i = i + 1;
    }
    proof {
        assert(a@ =~= b@);
    }
    true
}

/// Decide where a connection with this SNI goes, for the given public
/// host name.
pub fn decide_route(sni: &str, public_host: &str) -> (r: Route)
    ensures
        r == spec_route(sni@, public_host@),
{
    let s = str_to_chars(sni);
    let h = str_to_chars(public_host);
    let n = s.len();
    let hn = h.len();
    if n == 0 {
        return Route::Close;
    }
    if chars_eq(s.as_slice(), h.as_slice()) {
        return Route::Rest;
    }
    // control.<host>
    let mut control: Vec<char> = str_to_chars("control.");
    let mut hc = str_to_chars(public_host);
    control.append(&mut hc);
    proof {
        assert(control@ == "control."@ + public_host@);
    }
    if chars_eq(s.as_slice(), control.as_slice()) {
        return Route::Control;
    }
    // a forward name must end in ".<host>" with a nonempty label part
    if n <= hn {
        return Route::Close;
    }
    if n - hn <= 1 {
        return Route::Close;
    }
    let suffix = crate::text::copy_subrange_chars(s.as_slice(), n - hn, n);
    if !chars_eq(suffix.as_slice(), h.as_slice()) {
        return Route::Close;
    }
    if s[n - hn - 1] != '.' {
        return Route::Close;
    }
    let plen = n - hn - 1;
    let ghost prefix = s@.subrange(0, plen as int);
    // count the dots of the label part, noting the first two
    let mut dots: usize = 0;
    let mut first_dot: usize = 0;
    let mut second_dot: usize = 0;
    let mut k: usize = 0;
    while k < plen
        invariant
            k <= plen,
            dots <= k,
            plen < n == s@.len(),
            dots == 0 ==> forall|j: int| 0 <= j < k ==> s@[j] != '.',
            dots >= 1 ==> first_dot < k && s@[first_dot as int] == '.',
            dots == 1 ==> forall|j: int|
                0 <= j < k && j != first_dot ==> #[trigger] s@[j] != '.',
            dots >= 2 ==> first_dot < second_dot < k && s@[second_dot as int] == '.',
        decreases plen - k,
    {
        if s[k] == '.' {
            if dots == 0 {
                first_dot = k;
            } else if dots == 1 {
                second_dot = k;
            }
            dots = dots + 1;
        }
        k = k + 1;
    }
    proof {
        assert forall|j: int| 0 <= j < plen implies prefix[j] == s@[j] by {}
    }
    if dots == 0 {
        proof {
            if prefix.contains('.') {
                let w = choose|w: int| 0 <= w < prefix.len() && prefix[w] == '.';
                assert(s@[w] == '.');
            }
            assert(spec_labels_ok(prefix));
        }
        return Route::Forward;
    }
    if dots == 1 && first_dot >= 1 && first_dot + 2 <= plen {
        proof {
            assert(prefix[first_dot as int] == '.');
            assert forall|j: int|
                0 <= j < prefix.len() && j != first_dot implies prefix[j] != '.' by {
                assert(s@[j] != '.');
            }
            assert(spec_labels_ok(prefix));
        }
        return Route::Forward;
    }
    proof {
        assert(prefix[first_dot as int] == '.');
        assert(prefix.contains('.'));
        assert(!spec_labels_ok(prefix)) by {
            if exists|kk: int|
                1 <= kk <= prefix.len() - 2 && prefix[kk] == '.' && forall|j: int|
                    0 <= j < prefix.len() && j != kk ==> prefix[j] != '.' {
                let kk = choose|kk: int|
                    1 <= kk <= prefix.len() - 2 && prefix[kk] == '.' && forall|j: int|
                        0 <= j < prefix.len() && j != kk ==> prefix[j] != '.';
                if dots == 1 {
                    // the single dot sits where a label would be empty
                    assert(kk == first_dot);
                } else {
                    // two dots: one of them differs from the unique position
                    assert(prefix[second_dot as int] == '.');
                    if first_dot != kk {
                        assert(prefix[first_dot as int] != '.');
                    } else {
                        assert(prefix[second_dot as int] != '.');
                    }
                }
            }
        }
    }
    Route::Close
}


/// The SNI host a forward is registered under: `short.host`, or
/// `name.short.host` when a label name is given.
pub open spec fn spec_forward_sni_host(
    name: Seq<char>,
    short_id: Seq<char>,
    public_host: Seq<char>,
) -> Seq<char> {
    if name.len() == 0 {
        short_id + "."@ + public_host
    } else {
        name + "."@ + short_id + "."@ + public_host
    }
}

/// Build the SNI host a forward is registered under.
pub fn forward_sni_host(name: &str, short_id: &str, public_host: &str) -> (r: String)
    ensures
        r@ == spec_forward_sni_host(name@, short_id@, public_host@),
{
    let mut out = String::new();
    if !name.is_empty() {
        out.append(name);
        out.append(".");
    }
    out.append(short_id);
    out.append(".");
    out.append(public_host);
    proof {
        assert(out@ =~= spec_forward_sni_host(name@, short_id@, public_host@));
    }
    out
}

/// The URL handed back for a registered forward: the prefix and the host.
pub fn forward_url(url_prefix: &str, sni_host: &str) -> (r: String)
    ensures
        r@ == url_prefix@ + sni_host@,
{
    let mut out = String::new();
    out.append(url_prefix);
    out.append(sni_host);
    proof {
        assert(out@ =~= url_prefix@ + sni_host@);
    }
    out
}

/// A built forward name routes to the forward handler: any label part
/// with one or two nonempty dot-free labels, other than the reserved
/// `control`, followed by a dot and the public host, is dispatched to the
/// forward proxy.
pub proof fn lemma_forward_sni_routes(prefix: Seq<char>, host: Seq<char>)
    requires
        prefix.len() > 0,
        spec_labels_ok(prefix),
        prefix != "control"@,
    ensures
        spec_route(prefix + "."@ + host, host) == Route::Forward,
{
    reveal_strlit(".");
    reveal_strlit("control");
    reveal_strlit("control.");
    let sni = prefix + "."@ + host;
    assert(sni.len() == prefix.len() + 1 + host.len());
    assert(sni != host);
    assert(sni != "control."@ + host) by {
        if sni == "control."@ + host {
            assert("control."@.len() == 8);
            assert(prefix.len() + 1 == 8);
            assert forall|k: int| 0 <= k < 7 implies prefix[k] == "control"@[k] by {
                assert(sni[k] == prefix[k]);
                assert(("control."@ + host)[k] == "control."@[k]);
                assert("control."@[k] == "control"@[k]);
            }
            assert(prefix =~= "control"@);
        }
    }
    assert(spec_is_forward_sni(sni, host)) by {
        assert(sni.subrange(sni.len() - host.len(), sni.len() as int) =~= host);
        assert(sni[sni.len() - host.len() - 1] == '.');
        assert(sni.subrange(0, sni.len() - host.len() - 1) =~= prefix);
    }
}

} // verus!
