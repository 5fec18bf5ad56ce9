//! The server's two in-memory registries: forward mappings from SNI host
//! names to agents and ports, and live control sessions by agent id.
//!
//! Both keep at most one entry per key: registering under a present key
//! replaces the old entry. Session entries carry a handle, so that a dead
//! session is removed only if the entry still points to it.

use vstd::prelude::*;
use crate::text::str_eq;

verus! {

/// The value at `key` in an association list, searching from the front.
pub open spec fn spec_assoc<V>(s: Seq<(String, V)>, key: Seq<char>) -> Option<V>
    decreases s.len(),
{
    if s.len() == 0 {
        None
    } else if s[0].0@ == key {
        Some(s[0].1)
    } else {
        spec_assoc(s.drop_first(), key)
    }
}

/// No two entries share a key.
pub open spec fn spec_unique_keys<V>(s: Seq<(String, V)>) -> bool {
    forall|i: int, j: int|
        #![trigger s[i], s[j]]
        0 <= i < j < s.len() ==> s[i].0@ != s[j].0@
}

/// A key held by no entry is absent.
proof fn lemma_assoc_absent<V>(s: Seq<(String, V)>, key: Seq<char>)
    requires
        forall|k: int| 0 <= k < s.len() ==> (#[trigger] s[k]).0@ != key,
    ensures
        spec_assoc(s, key) is None,
    decreases s.len(),
{
    if s.len() > 0 {
        let t = s.drop_first();
        assert forall|k: int| 0 <= k < t.len() implies (#[trigger] t[k]).0@ != key by {
            assert(t[k] == s[k + 1]);
        }
        lemma_assoc_absent(t, key);
    }
}

/// The first entry holding the key decides the lookup.
proof fn lemma_assoc_at<V>(s: Seq<(String, V)>, i: int, key: Seq<char>)
    requires
        0 <= i < s.len(),
        s[i].0@ == key,
        forall|k: int| 0 <= k < i ==> (#[trigger] s[k]).0@ != key,
    ensures
        spec_assoc(s, key) == Some(s[i].1),
    decreases s.len(),
{
    if i > 0 {
        assert forall|k: int| 0 <= k < i - 1 implies (#[trigger] s.drop_first()[k]).0@
            != key by {
            assert(s.drop_first()[k] == s[k + 1]);
        }
        assert(s.drop_first()[i - 1] == s[i]);
        lemma_assoc_at(s.drop_first(), i - 1, key);
    }
}

/// Appending an entry with another key leaves a lookup unchanged.
proof fn lemma_assoc_push_other<V>(s: Seq<(String, V)>, e: (String, V), key: Seq<char>)
    requires
        e.0@ != key,
    ensures
        spec_assoc(s.push(e), key) == spec_assoc(s, key),
    decreases s.len(),
{
    if s.len() == 0 {
        assert(s.push(e)[0] == e);
        assert(s.push(e).drop_first() =~= Seq::<(String, V)>::empty());
        assert(spec_assoc(Seq::<(String, V)>::empty(), key) is None);
        assert(spec_assoc(s, key) is None);
    } else {
        assert(s.push(e)[0] == s[0]);
        assert(s.push(e).drop_first() =~= s.drop_first().push(e));
        lemma_assoc_push_other(s.drop_first(), e, key);
        if s[0].0@ == key {
            assert(spec_assoc(s.push(e), key) == Some(s[0].1));
            assert(spec_assoc(s, key) == Some(s[0].1));
        } else {
            assert(spec_assoc(s.push(e), key) == spec_assoc(s.drop_first().push(e), key));
            assert(spec_assoc(s, key) == spec_assoc(s.drop_first(), key));
        }
    }
}

/// Removing an entry with another key leaves a lookup unchanged.
proof fn lemma_assoc_remove_other<V>(s: Seq<(String, V)>, i: int, key: Seq<char>)
    requires
        0 <= i < s.len(),
        s[i].0@ != key,
    ensures
        spec_assoc(s.remove(i), key) == spec_assoc(s, key),
    decreases s.len(),
{
    if i == 0 {
        assert(s.remove(0) =~= s.drop_first());
    } else {
        assert(s.remove(i)[0] == s[0]);
        assert(s.remove(i).drop_first() =~= s.drop_first().remove(i - 1));
        assert(s.drop_first()[i - 1] == s[i]);
        lemma_assoc_remove_other(s.drop_first(), i - 1, key);
    }
}

/// What a forward mapping says: which agent, which port, and which source
/// addresses may use it.
pub struct ForwardMeta {
    pub node_id: String,
    pub target_port: u16,
    pub allowed_ips: Option<Vec<String>>,
}

/// What the proxy should do with an inbound connection for a host.
pub enum ForwardDecision {
    /// Open a substream to this agent and send this port header.
    Allow { node_id: String, target_port: u16 },
    /// The mapping restricts source addresses and the peer is not listed.
    BlockedAcl,
    /// No mapping is registered for the host.
    NotFound,
}

/// The registry of forward mappings: `sni_host` to agent, port and ACL.
pub struct ForwardRegistry {
    entries: Vec<(String, ForwardMeta)>,
}

/// The ACL of a mapping admits the peer: either no restriction is set, or
/// the peer's address is listed.
pub open spec fn spec_acl_admits(meta: ForwardMeta, peer: Seq<char>) -> bool {
    match meta.allowed_ips {
        None => true,
        Some(ips) => exists|k: int| 0 <= k < ips@.len() && (#[trigger] ips@[k])@ == peer,
    }
}

/// The decision for an inbound forward connection: a missing mapping or a
/// failing ACL closes it; otherwise it is proxied.
pub open spec fn spec_forward_decision(
    found: Option<ForwardMeta>,
    peer: Seq<char>,
) -> ForwardDecision {
    match found {
        None => ForwardDecision::NotFound,
        Some(meta) => if spec_acl_admits(meta, peer) {
            ForwardDecision::Allow { node_id: meta.node_id, target_port: meta.target_port }
        } else {
            ForwardDecision::BlockedAcl
        },
    }
}

impl ForwardRegistry {
    /// The mappings, keyed by host name.
    pub closed spec fn spec_entries(&self) -> Seq<(String, ForwardMeta)> {
        self.entries@
    }

    /// Lookup of a host in this registry.
    pub open spec fn spec_lookup(&self, host: Seq<char>) -> Option<ForwardMeta> {
        spec_assoc(self.spec_entries(), host)
    }

    /// Each host holds at most one mapping.
    pub open spec fn wf(&self) -> bool {
        spec_unique_keys(self.spec_entries())
    }

    /// An empty registry.
    pub fn new() -> (r: ForwardRegistry)
        ensures
            r.wf(),
            forall|h: Seq<char>| r.spec_lookup(h) is None,
    {
        let r = ForwardRegistry { entries: Vec::new() };
        proof {
            assert forall|h: Seq<char>| r.spec_lookup(h) is None by {
                lemma_assoc_absent(r.spec_entries(), h);
            }
        }
        r
    }

    /// Index of the entry for `host`, if one exists.
    fn find_index(&self, host: &str) -> (r: Option<usize>)
        ensures
            match r {
                Some(i) => i < self.spec_entries().len() && self.spec_entries()[i as int].0@
                    == host@ && forall|k: int|
                    0 <= k < i ==> (#[trigger] self.spec_entries()[k]).0@ != host@,
                None => forall|k: int|
                    0 <= k < self.spec_entries().len()
                        ==> (#[trigger] self.spec_entries()[k]).0@ != host@,
            },
    {
        let mut i: usize = 0;
        while i < self.entries.len()
            invariant
                i <= self.entries.len(),
                forall|k: int| 0 <= k < i ==> (#[trigger] self.entries@[k]).0@ != host@,
            decreases self.entries.len() - i,
        {
            if str_eq(self.entries[i].0.as_str(), host) {
                return Some(i);
            }
            i = i + 1;
        }
        None
    }

    /// Register a forward: an upsert. Afterwards exactly this mapping lives
    /// under `host`; every other host is untouched.
    pub fn register(&mut self, host: String, meta: ForwardMeta)
        requires
            old(self).wf(),
        ensures
            final(self).wf(),
            final(self).spec_lookup(host@) == Some(meta),
            forall|h: Seq<char>|
                h != host@ ==> #[trigger] final(self).spec_lookup(h) == old(self).spec_lookup(
                    h,
                ),
    {
        let ghost hostv = host@;
        let ghost metav = meta;
        let ghost before = self.entries@;
        let found = self.find_index(host.as_str());
        if let Some(i) = found {
            self.entries.remove(i);
            proof {
                let mid = self.entries@;
                assert(mid == before.remove(i as int));
                assert forall|h: Seq<char>|
                    h != hostv implies #[trigger] spec_assoc(mid, h) == spec_assoc(
                    before,
                    h,
                ) by {
                    if before[i as int].0@ != h {
                        lemma_assoc_remove_other(before, i as int, h);
                    }
                }
                assert forall|a: int, b: int|
                    #![trigger mid[a], mid[b]]
                    0 <= a < b < mid.len() implies mid[a].0@ != mid[b].0@ by {
                    if b < i {
                        assert(mid[a] == before[a] && mid[b] == before[b]);
                    } else if a < i {
                        assert(mid[a] == before[a] && mid[b] == before[b + 1]);
                    } else {
                        assert(mid[a] == before[a + 1] && mid[b] == before[b + 1]);
                    }
                }
                assert forall|k: int| 0 <= k < mid.len() implies (#[trigger] mid[k]).0@
                    != hostv by {
                    if k < i {
                        assert(mid[k] == before[k]);
                    } else {
                        assert(mid[k] == before[k + 1]);
                    }
                }
            }
        }
        let ghost mid = self.entries@;
        proof {
            assert(spec_unique_keys(mid));
            assert(forall|k: int| 0 <= k < mid.len() ==> (#[trigger] mid[k]).0@ != hostv);
            assert(forall|h: Seq<char>|
                h != hostv ==> #[trigger] spec_assoc(mid, h) == spec_assoc(before, h));
        }
        self.entries.push((host, meta));
        proof {
            let after = self.entries@;
            let pushed = after[after.len() - 1];
            assert(after == mid.push(pushed));
            assert(pushed.0@ == hostv);
            assert(pushed.1 == metav);
            assert forall|k: int| 0 <= k < after.len() - 1 implies (#[trigger] after[k]).0@
                != hostv by {
                assert(after[k] == mid[k]);
            }
            lemma_assoc_at(after, after.len() - 1, hostv);
            assert forall|h: Seq<char>|
                h != hostv implies #[trigger] spec_assoc(after, h) == spec_assoc(
                before,
                h,
            ) by {
                lemma_assoc_push_other(mid, pushed, h);
            }
            assert forall|a: int, b: int|
                #![trigger after[a], after[b]]
                0 <= a < b < after.len() implies after[a].0@ != after[b].0@ by {
                if b == after.len() - 1 {
                    assert(after[a] == mid[a]);
                } else {
                    assert(after[a] == mid[a] && after[b] == mid[b]);
                }
            }
        }
    }

    /// Look a host up.
    pub fn lookup(&self, host: &str) -> (r: Option<&ForwardMeta>)
        ensures
            match r {
                Some(m) => self.spec_lookup(host@) == Some(*m),
                None => self.spec_lookup(host@) is None,
            },
    {
        let found = self.find_index(host);
        match found {
            Some(i) => {
                proof {
                    lemma_assoc_at(self.spec_entries(), i as int, host@);
                }
                Some(&self.entries[i].1)
            },
            None => {
                proof {
                    lemma_assoc_absent(self.spec_entries(), host@);
                }
                None
            },
        }
    }

    /// Decide an inbound forward connection: the ACL is checked first,
    /// then the mapping must exist.
    pub fn decide_forward(&self, host: &str, peer_ip: &str) -> (r: ForwardDecision)
        ensures
            r == spec_forward_decision(self.spec_lookup(host@), peer_ip@),
    {
        let found = self.lookup(host);
        match found {
            None => ForwardDecision::NotFound,
            Some(meta) => {
                let admits = match &meta.allowed_ips {
                    None => true,
                    Some(ips) => contains_str(ips, peer_ip),
                };
                if admits {
                    ForwardDecision::Allow {
                        node_id: meta.node_id.clone(),
                        target_port: meta.target_port,
                    }
                } else {
                    ForwardDecision::BlockedAcl
                }
            },
        }
    }

    /// Exactly one mapping can live under a host: two entries with the same
    /// host are the same entry.
    pub proof fn lemma_at_most_one_forward(&self, i: int, j: int)
        requires
            self.wf(),
            0 <= i < self.spec_entries().len(),
            0 <= j < self.spec_entries().len(),
            self.spec_entries()[i].0@ == self.spec_entries()[j].0@,
        ensures
            i == j,
    {
    }
}

/// Whether one of the strings reads as `needle`.
fn contains_str(hay: &Vec<String>, needle: &str) -> (r: bool)
    ensures
        r == exists|k: int| 0 <= k < hay@.len() && (#[trigger] hay@[k])@ == needle@,
{
    let mut i: usize = 0;
    while i < hay.len()
        invariant
            i <= hay@.len(),
            forall|k: int| 0 <= k < i ==> (#[trigger] hay@[k])@ != needle@,
        decreases hay.len() - i,
    {
        if str_eq(hay[i].as_str(), needle) {
            return true;
        }
        i = i + 1;
    }
    false
}


/// The registry of live control sessions: one per agent id, each entry
/// carrying a handle that identifies the registered session object.
pub struct SessionRegistry<T> {
    entries: Vec<(String, (u64, T))>,
    next_handle: u64,
}

impl<T> SessionRegistry<T> {
    /// The sessions, keyed by agent id, each with its handle.
    pub closed spec fn spec_entries(&self) -> Seq<(String, (u64, T))> {
        self.entries@
    }

    /// The handle the next registration will get.
    pub closed spec fn spec_next_handle(&self) -> u64 {
        self.next_handle
    }

    /// Lookup of an agent id: its handle and session, if one is live.
    pub open spec fn spec_lookup(&self, id: Seq<char>) -> Option<(u64, T)> {
        spec_assoc(self.spec_entries(), id)
    }

    /// Each agent id holds at most one session, and every handle was
    /// assigned below the next one.
    pub open spec fn wf(&self) -> bool {
        &&& spec_unique_keys(self.spec_entries())
        &&& forall|k: int|
            0 <= k < self.spec_entries().len()
                ==> (#[trigger] self.spec_entries()[k]).1.0 < self.spec_next_handle()
    }

    /// An empty registry.
    pub fn new() -> (r: SessionRegistry<T>)
        ensures
            r.wf(),
            forall|h: Seq<char>| r.spec_lookup(h) is None,
    {
        let r = SessionRegistry { entries: Vec::new(), next_handle: 0 };
        proof {
            assert forall|h: Seq<char>| r.spec_lookup(h) is None by {
                lemma_assoc_absent(r.spec_entries(), h);
            }
        }
        r
    }

    /// Whether a further session can still get a fresh handle.
    pub fn can_register(&self) -> (r: bool)
        ensures
            r == (self.spec_next_handle() < u64::MAX),
    {
        self.next_handle < u64::MAX
    }

    /// Index of the entry for `id`, if one exists.
    fn find_index(&self, id: &str) -> (r: Option<usize>)
        ensures
            match r {
                Some(i) => i < self.spec_entries().len() && self.spec_entries()[i as int].0@
                    == id@ && forall|k: int|
                    0 <= k < i ==> (#[trigger] self.spec_entries()[k]).0@ != id@,
                None => forall|k: int|
                    0 <= k < self.spec_entries().len()
                        ==> (#[trigger] self.spec_entries()[k]).0@ != id@,
            },
    {
        let mut i: usize = 0;
        while i < self.entries.len()
            invariant
                i <= self.entries.len(),
                forall|k: int| 0 <= k < i ==> (#[trigger] self.entries@[k]).0@ != id@,
            decreases self.entries.len() - i,
        {
            if str_eq(self.entries[i].0.as_str(), id) {
                return Some(i);
            }
            i = i + 1;
        }
        None
    }

    /// Register a session for an agent, evicting and returning any session
    /// that was registered for it, together with the new session's handle.
    /// At most one session per agent is live at any time.
    pub fn register(&mut self, id: String, session: T) -> (r: (u64, Option<T>))
        requires
            old(self).wf(),
            old(self).spec_next_handle() < u64::MAX,
        ensures
            final(self).wf(),
            final(self).spec_lookup(id@) == Some((r.0, session)),
            forall|h: Seq<char>|
                h != id@ ==> #[trigger] final(self).spec_lookup(h) == old(self).spec_lookup(h),
            match r.1 {
                Some(evicted) => old(self).spec_lookup(id@) matches Some(p) && p.1 == evicted,
                None => old(self).spec_lookup(id@) is None,
            },
    {
        let ghost idv = id@;
        let ghost before = self.entries@;
        let found = self.find_index(id.as_str());
        let mut evicted: Option<T> = None;
        if let Some(i) = found {
            proof {
                lemma_assoc_at(before, i as int, idv);
            }
            let (_k, (_h, old_session)) = self.entries.remove(i);
            evicted = Some(old_session);
            proof {
                let mid = self.entries@;
                assert(mid == before.remove(i as int));
                assert forall|h: Seq<char>|
                    h != idv implies #[trigger] spec_assoc(mid, h) == spec_assoc(
                    before,
                    h,
                ) by {
                    if before[i as int].0@ != h {
                        lemma_assoc_remove_other(before, i as int, h);
                    }
                }
                assert forall|a: int, b: int|
                    #![trigger mid[a], mid[b]]
                    0 <= a < b < mid.len() implies mid[a].0@ != mid[b].0@ by {
                    if b < i {
                        assert(mid[a] == before[a] && mid[b] == before[b]);
                    } else if a < i {
                        assert(mid[a] == before[a] && mid[b] == before[b + 1]);
                    } else {
                        assert(mid[a] == before[a + 1] && mid[b] == before[b + 1]);
                    }
                }
                assert forall|k: int| 0 <= k < mid.len() implies (#[trigger] mid[k]).0@
                    != idv by {
                    if k < i {
                        assert(mid[k] == before[k]);
                    } else {
                        assert(mid[k] == before[k + 1]);
                    }
                }
                assert forall|k: int| 0 <= k < mid.len() implies (#[trigger] mid[k]).1.0
                    < self.next_handle by {
                    if k < i {
                        assert(mid[k] == before[k]);
                    } else {
                        assert(mid[k] == before[k + 1]);
                    }
                }
            }
        } else {
            proof {
                lemma_assoc_absent(before, idv);
            }
        }
        let ghost mid = self.entries@;
        proof {
            assert(spec_unique_keys(mid));
            assert(forall|k: int| 0 <= k < mid.len() ==> (#[trigger] mid[k]).0@ != idv);
            assert(forall|k: int|
                0 <= k < mid.len() ==> (#[trigger] mid[k]).1.0 < self.next_handle);
            assert(forall|h: Seq<char>|
                h != idv ==> #[trigger] spec_assoc(mid, h) == spec_assoc(before, h));
        }
        let handle = self.next_handle;
        self.next_handle = self.next_handle + 1;
        self.entries.push((id, (handle, session)));
        proof {
            let after = self.entries@;
            let pushed = after[after.len() - 1];
            assert(after == mid.push(pushed));
            assert(pushed.0@ == idv);
            assert forall|k: int| 0 <= k < after.len() - 1 implies (#[trigger] after[k]).0@
                != idv by {
                assert(after[k] == mid[k]);
            }
            lemma_assoc_at(after, after.len() - 1, idv);
            assert forall|h: Seq<char>|
                h != idv implies #[trigger] spec_assoc(after, h) == spec_assoc(
                before,
                h,
            ) by {
                lemma_assoc_push_other(mid, pushed, h);
            }
            assert forall|a: int, b: int|
                #![trigger after[a], after[b]]
                0 <= a < b < after.len() implies after[a].0@ != after[b].0@ by {
                if b == after.len() - 1 {
                    assert(after[a] == mid[a]);
                } else {
                    assert(after[a] == mid[a] && after[b] == mid[b]);
                }
            }
            assert forall|k: int| 0 <= k < after.len() implies (#[trigger] after[k]).1.0
                < self.next_handle by {
                if k < after.len() - 1 {
                    assert(after[k] == mid[k]);
                }
            }
        }
        (handle, evicted)
    }

    /// Remove the session for `id`, but only if the entry still carries
    /// `handle`: a session that was already displaced stays untouched.
    pub fn remove_if_handle(&mut self, id: &str, handle: u64) -> (r: Option<T>)
        requires
            old(self).wf(),
        ensures
            final(self).wf(),
            match r {
                Some(removed) => {
                    &&& old(self).spec_lookup(id@) matches Some(p) && p == (handle, removed)
                    &&& final(self).spec_lookup(id@) is None
                },
                None => {
                    &&& !(old(self).spec_lookup(id@) matches Some(p) && p.0 == handle)
                    &&& final(self).spec_lookup(id@) == old(self).spec_lookup(id@)
                },
            },
            forall|h: Seq<char>|
                h != id@ ==> #[trigger] final(self).spec_lookup(h) == old(self).spec_lookup(h),
    {
        let ghost idv = id@;
        let ghost before = self.entries@;
        let found = self.find_index(id);
        match found {
            Some(i) => {
                proof {
                    lemma_assoc_at(before, i as int, idv);
                }
                if self.entries[i].1.0 == handle {
                    let (_k, (_h, removed)) = self.entries.remove(i);
                    proof {
                        let mid = self.entries@;
                        assert(mid == before.remove(i as int));
                        assert forall|h: Seq<char>|
                            h != idv implies #[trigger] spec_assoc(mid, h) == spec_assoc(
                            before,
                            h,
                        ) by {
                            if before[i as int].0@ != h {
                                lemma_assoc_remove_other(before, i as int, h);
                            }
                        }
                        assert forall|a: int, b: int|
                            #![trigger mid[a], mid[b]]
                            0 <= a < b < mid.len() implies mid[a].0@ != mid[b].0@ by {
                            if b < i {
                                assert(mid[a] == before[a] && mid[b] == before[b]);
                            } else if a < i {
                                assert(mid[a] == before[a] && mid[b] == before[b + 1]);
                            } else {
                                assert(mid[a] == before[a + 1] && mid[b] == before[b + 1]);
                            }
                        }
                        assert forall|k: int| 0 <= k < mid.len() implies (#[trigger] mid[k]).0@
                            != idv by {
                            if k < i {
                                assert(mid[k] == before[k]);
                            } else {
                                assert(mid[k] == before[k + 1]);
                            }
                        }
                        assert forall|k: int|
                            0 <= k < mid.len() implies (#[trigger] mid[k]).1.0
                            < self.next_handle by {
                            if k < i {
                                assert(mid[k] == before[k]);
                            } else {
                                assert(mid[k] == before[k + 1]);
                            }
                        }
                        lemma_assoc_absent(mid, idv);
                    }
                    Some(removed)
                } else {
                    None
                }
            },
            None => {
                proof {
                    lemma_assoc_absent(before, idv);
                }
                None
            },
        }
    }

    /// Whether a session is live for `id`, and under which handle.
    pub fn lookup_handle(&self, id: &str) -> (r: Option<u64>)
        ensures
            match r {
                Some(h) => self.spec_lookup(id@) matches Some(p) && p.0 == h,
                None => self.spec_lookup(id@) is None,
            },
    {
        let found = self.find_index(id);
        match found {
            Some(i) => {
                proof {
                    lemma_assoc_at(self.spec_entries(), i as int, id@);
                }
                Some(self.entries[i].1.0)
            },
            None => {
                proof {
                    lemma_assoc_absent(self.spec_entries(), id@);
                }
                None
            },
        }
    }

    /// Borrow the session for `id`, if one is live.
    pub fn lookup(&self, id: &str) -> (r: Option<&T>)
        ensures
            match r {
                Some(t) => self.spec_lookup(id@) matches Some(p) && p.1 == *t,
                None => self.spec_lookup(id@) is None,
            },
    {
        let found = self.find_index(id);
        match found {
            Some(i) => {
                proof {
                    lemma_assoc_at(self.spec_entries(), i as int, id@);
                }
                Some(&self.entries[i].1.1)
            },
            None => {
                proof {
                    lemma_assoc_absent(self.spec_entries(), id@);
                }
                None
            },
        }
    }

    /// At most one control session is registered per agent at any time:
    /// two entries naming the same agent are the same entry.
    pub proof fn lemma_at_most_one_session(&self, i: int, j: int)
        requires
            self.wf(),
            0 <= i < self.spec_entries().len(),
            0 <= j < self.spec_entries().len(),
            self.spec_entries()[i].0@ == self.spec_entries()[j].0@,
        ensures
            i == j,
    {
    }
}

} // verus!
