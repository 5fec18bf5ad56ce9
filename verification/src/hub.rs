//! The shared-producer hub: one producer task per topic, running exactly
//! while at least one subscriber is attached.
//!
//! The hub here is the counting logic; the broadcast channel and the task
//! itself live outside. `subscribe` and `unsubscribe` return the action the
//! caller must take: start the producer on the first subscriber, stop it
//! after the last one leaves.

use vstd::prelude::*;
use crate::text::str_eq;

verus! {

/// What the caller must do after a subscription change.
#[derive(PartialEq, Eq, Structural, Debug)]
pub enum ProducerAction {
    /// The first subscriber arrived: spawn the producer task.
    StartProducer,
    /// The last subscriber left: stop the producer task.
    StopProducer,
    /// Nothing: the producer already runs, or still must.
    Nothing,
}

/// One topic's counters.
struct TopicState {
    name: String,
    subscribers: u64,
    producer_running: bool,
}

/// The hub: per-topic subscriber counts and producer states.
pub struct ProducerHub {
    topics: Vec<TopicState>,
}

impl ProducerHub {
    /// The subscriber count of a topic; zero when the topic is unknown.
    pub closed spec fn spec_subscribers(&self, topic: Seq<char>) -> int {
        spec_subs(self.topics@, topic)
    }

    /// Whether a topic's producer runs; false when the topic is unknown.
    pub closed spec fn spec_producer_running(&self, topic: Seq<char>) -> bool {
        spec_running(self.topics@, topic)
    }

    /// The hub's invariant: a producer runs exactly while subscribers are
    /// attached, for every topic.
    pub closed spec fn wf(&self) -> bool {
        &&& forall|k: int|
            0 <= k < self.topics@.len() ==> ((#[trigger] self.topics@[k]).producer_running
                <==> self.topics@[k].subscribers > 0)
        &&& forall|i: int, j: int|
            #![trigger self.topics@[i], self.topics@[j]]
            0 <= i < j < self.topics@.len() ==> self.topics@[i].name@ != self.topics@[j].name@
    }

    /// A fresh hub with no topics.
    pub fn new() -> (r: ProducerHub)
        ensures
            r.wf(),
            forall|t: Seq<char>| r.spec_subscribers(t) == 0,
            forall|t: Seq<char>| !r.spec_producer_running(t),
    {
        let r = ProducerHub { topics: Vec::new() };
        proof {
            assert forall|t: Seq<char>| r.spec_subscribers(t) == 0 by {
                lemma_subs_absent(r.topics@, t);
            }
            assert forall|t: Seq<char>| !r.spec_producer_running(t) by {
                lemma_subs_absent(r.topics@, t);
            }
        }
        r
    }

    /// Index of a topic, if known.
    fn find(&self, topic: &str) -> (r: Option<usize>)
        ensures
            match r {
                Some(i) => i < self.topics@.len() && self.topics@[i as int].name@ == topic@
                    && forall|k: int|
                    0 <= k < i ==> (#[trigger] self.topics@[k]).name@ != topic@,
                None => forall|k: int|
                    0 <= k < self.topics@.len() ==> (#[trigger] self.topics@[k]).name@
                        != topic@,
            },
    {
        let mut i: usize = 0;
        while i < self.topics.len()
            invariant
                i <= self.topics@.len(),
                forall|k: int| 0 <= k < i ==> (#[trigger] self.topics@[k]).name@ != topic@,
            decreases self.topics@.len() - i,
        {
            if str_eq(self.topics[i].name.as_str(), topic) {
                return Some(i);
            }
            i = i + 1;
        }
        None
    }

    /// Attach one subscriber to a topic. On the move from zero subscribers
    /// to one, and only then, the caller must start the producer; in every
    /// case the producer runs afterwards.
    pub fn subscribe(&mut self, topic: &str) -> (r: ProducerAction)
        requires
            old(self).wf(),
            old(self).spec_subscribers(topic@) < u64::MAX,
        ensures
            final(self).wf(),
            final(self).spec_subscribers(topic@) == old(self).spec_subscribers(topic@) + 1,
            final(self).spec_producer_running(topic@),
            (r == ProducerAction::StartProducer) <==> old(self).spec_subscribers(topic@) == 0,
            r == ProducerAction::StartProducer || r == ProducerAction::Nothing,
            forall|t: Seq<char>|
                t != topic@ ==> #[trigger] final(self).spec_subscribers(t) == old(
                    self,
                ).spec_subscribers(t),
            forall|t: Seq<char>|
                t != topic@ ==> #[trigger] final(self).spec_producer_running(t) == old(
                    self,
                ).spec_producer_running(t),
    {
        let ghost before = self.topics@;
        let found = self.find(topic);
        match found {
            Some(i) => {
                proof {
                    lemma_subs_at(before, i as int, topic@);
                }
                let subs = self.topics[i].subscribers;
                let was_running = self.topics[i].producer_running;
                let name_copy = self.topics[i].name.clone();
                let updated = TopicState {
                    name: name_copy,
                    subscribers: subs + 1,
                    producer_running: true,
                };
                let _ = self.topics.remove(i);
                self.topics.insert(i, updated);
                proof {
                    let after = self.topics@;
                    assert(after =~= before.update(i as int, after[i as int]));
                    assert(after[i as int].name@ == topic@);
                    assert(after[i as int].subscribers == subs + 1);
                    lemma_subs_at(after, i as int, topic@);
                    assert forall|a: int, b: int|
                        #![trigger after[a], after[b]]
                        0 <= a < b < after.len() implies after[a].name@ != after[b].name@ by {
                        if a != i && b != i {
                            assert(after[a] == before[a] && after[b] == before[b]);
                        } else if a == i {
                            assert(after[b] == before[b]);
                        } else {
                            assert(after[a] == before[a]);
                        }
                    }
                    assert forall|t: Seq<char>|
                        t != topic@ implies #[trigger] spec_subs(after, t) == spec_subs(
                        before,
                        t,
                    ) by {
                        lemma_subs_update_other(before, after, i as int, t);
                    }
                    assert forall|t: Seq<char>|
                        t != topic@ implies #[trigger] spec_running(after, t) == spec_running(
                        before,
                        t,
                    ) by {
                        lemma_subs_update_other(before, after, i as int, t);
                    }
                }
                if was_running {
                    ProducerAction::Nothing
                } else {
                    ProducerAction::StartProducer
                }
            },
            None => {
                proof {
                    lemma_subs_absent(before, topic@);
                }
                let name = topic.to_owned();
                self.topics.push(
                    TopicState { name, subscribers: 1, producer_running: true },
                );
                proof {
                    let after = self.topics@;
                    let last = after.len() - 1;
                    assert(after[last].name@ == topic@);
                    lemma_subs_at_aux(after, last, topic@, before);
                    assert forall|t: Seq<char>|
                        t != topic@ implies #[trigger] spec_subs(after, t) == spec_subs(
                        before,
                        t,
                    ) by {
                        assert(after =~= before.push(after[last]));
                        lemma_subs_push_other(before, after[last], t);
                    }
                    assert forall|t: Seq<char>|
                        t != topic@ implies #[trigger] spec_running(after, t) == spec_running(
                        before,
                        t,
                    ) by {
                        assert(after =~= before.push(after[last]));
                        lemma_subs_push_other(before, after[last], t);
                    }
                    assert forall|a: int, b: int|
                        #![trigger after[a], after[b]]
                        0 <= a < b < after.len() implies after[a].name@ != after[b].name@ by {
                        if b == last {
                            assert(after[a] == before[a]);
                        } else {
                            assert(after[a] == before[a] && after[b] == before[b]);
                        }
                    }
                }
                ProducerAction::StartProducer
            },
        }
    }

    /// Detach one subscriber from a topic. On the move from one subscriber
    /// to zero, and only then, the caller must stop the producer; the
    /// producer keeps running exactly while subscribers remain.
    pub fn unsubscribe(&mut self, topic: &str) -> (r: ProducerAction)
        requires
            old(self).wf(),
            old(self).spec_subscribers(topic@) > 0,
        ensures
            final(self).wf(),
            final(self).spec_subscribers(topic@) == old(self).spec_subscribers(topic@) - 1,
            final(self).spec_producer_running(topic@) <==> old(self).spec_subscribers(topic@)
                > 1,
            (r == ProducerAction::StopProducer) <==> old(self).spec_subscribers(topic@) == 1,
            r == ProducerAction::StopProducer || r == ProducerAction::Nothing,
            forall|t: Seq<char>|
                t != topic@ ==> #[trigger] final(self).spec_subscribers(t) == old(
                    self,
                ).spec_subscribers(t),
            forall|t: Seq<char>|
                t != topic@ ==> #[trigger] final(self).spec_producer_running(t) == old(
                    self,
                ).spec_producer_running(t),
    {
        let ghost before = self.topics@;
        let found = self.find(topic);
        match found {
            Some(i) => {
                proof {
                    lemma_subs_at(before, i as int, topic@);
                }
                let subs = self.topics[i].subscribers;
                let name_copy = self.topics[i].name.clone();
                let updated = TopicState {
                    name: name_copy,
                    subscribers: subs - 1,
                    producer_running: subs > 1,
                };
                let _ = self.topics.remove(i);
                self.topics.insert(i, updated);
                proof {
                    let after = self.topics@;
                    assert(after =~= before.update(i as int, after[i as int]));
                    assert(after[i as int].name@ == topic@);
                    lemma_subs_at(after, i as int, topic@);
                    assert forall|a: int, b: int|
                        #![trigger after[a], after[b]]
                        0 <= a < b < after.len() implies after[a].name@ != after[b].name@ by {
                        if a != i && b != i {
                            assert(after[a] == before[a] && after[b] == before[b]);
                        } else if a == i {
                            assert(after[b] == before[b]);
                        } else {
                            assert(after[a] == before[a]);
                        }
                    }
                    assert forall|t: Seq<char>|
                        t != topic@ implies #[trigger] spec_subs(after, t) == spec_subs(
                        before,
                        t,
                    ) by {
                        lemma_subs_update_other(before, after, i as int, t);
                    }
                    assert forall|t: Seq<char>|
                        t != topic@ implies #[trigger] spec_running(after, t) == spec_running(
                        before,
                        t,
                    ) by {
                        lemma_subs_update_other(before, after, i as int, t);
                    }
                }
                if subs == 1 {
                    ProducerAction::StopProducer
                } else {
                    ProducerAction::Nothing
                }
            },
            None => {
                proof {
                    lemma_subs_absent(before, topic@);
                    assert(false);
                }
                ProducerAction::Nothing
            },
        }
    }


    /// How many subscribers a topic has.
    pub fn subscriber_count(&self, topic: &str) -> (r: u64)
        requires
            self.wf(),
        ensures
            r as int == self.spec_subscribers(topic@),
    {
        let found = self.find(topic);
        match found {
            Some(i) => {
                proof {
                    lemma_subs_at(self.topics@, i as int, topic@);
                }
                self.topics[i].subscribers
            },
            None => {
                proof {
                    lemma_subs_absent(self.topics@, topic@);
                }
                0
            },
        }
    }

    /// The invariant spelled out: for every topic, the producer runs if
    /// and only if at least one subscriber is attached.
    pub proof fn lemma_producer_iff_subscribers(&self, topic: Seq<char>)
        requires
            self.wf(),
        ensures
            self.spec_producer_running(topic) <==> self.spec_subscribers(topic) > 0,
    {
        lemma_wf_iff(self.topics@, topic);
    }
}

/// Subscriber count of a topic in a topic list.
spec fn spec_subs(ts: Seq<TopicState>, topic: Seq<char>) -> int
    decreases ts.len(),
{
    if ts.len() == 0 {
        0
    } else if ts[0].name@ == topic {
        ts[0].subscribers as int
    } else {
        spec_subs(ts.drop_first(), topic)
    }
}

/// Producer state of a topic in a topic list.
spec fn spec_running(ts: Seq<TopicState>, topic: Seq<char>) -> bool
    decreases ts.len(),
{
    if ts.len() == 0 {
        false
    } else if ts[0].name@ == topic {
        ts[0].producer_running
    } else {
        spec_running(ts.drop_first(), topic)
    }
}

/// An unknown topic has no subscribers and no producer.
proof fn lemma_subs_absent(ts: Seq<TopicState>, topic: Seq<char>)
    requires
        forall|k: int| 0 <= k < ts.len() ==> (#[trigger] ts[k]).name@ != topic,
    ensures
        spec_subs(ts, topic) == 0,
        !spec_running(ts, topic),
    decreases ts.len(),
{
    if ts.len() > 0 {
        let d = ts.drop_first();
        assert forall|k: int| 0 <= k < d.len() implies (#[trigger] d[k]).name@ != topic by {
            assert(d[k] == ts[k + 1]);
        }
        lemma_subs_absent(d, topic);
    }
}

/// The first entry of a topic decides its counters.
proof fn lemma_subs_at(ts: Seq<TopicState>, i: int, topic: Seq<char>)
    requires
        0 <= i < ts.len(),
        ts[i].name@ == topic,
        forall|k: int| 0 <= k < i ==> (#[trigger] ts[k]).name@ != topic,
    ensures
        spec_subs(ts, topic) == ts[i].subscribers as int,
        spec_running(ts, topic) == ts[i].producer_running,
    decreases ts.len(),
{
    if i > 0 {
        let d = ts.drop_first();
        assert forall|k: int| 0 <= k < i - 1 implies (#[trigger] d[k]).name@ != topic by {
            assert(d[k] == ts[k + 1]);
        }
        assert(d[i - 1] == ts[i]);
        lemma_subs_at(d, i - 1, topic);
    }
}

/// Counters after pushing a fresh topic at the end of a list with no entry
/// for it.
proof fn lemma_subs_at_aux(ts: Seq<TopicState>, last: int, topic: Seq<char>, before: Seq<
    TopicState,
>)
    requires
        last == ts.len() - 1,
        0 <= last,
        ts[last].name@ == topic,
        ts =~= before.push(ts[last]),
        forall|k: int| 0 <= k < before.len() ==> (#[trigger] before[k]).name@ != topic,
    ensures
        spec_subs(ts, topic) == ts[last].subscribers as int,
        spec_running(ts, topic) == ts[last].producer_running,
{
    assert forall|k: int| 0 <= k < last implies (#[trigger] ts[k]).name@ != topic by {
        assert(ts[k] == before[k]);
    }
    lemma_subs_at(ts, last, topic);
}

/// Pushing an entry for another topic changes nothing for this one.
proof fn lemma_subs_push_other(ts: Seq<TopicState>, e: TopicState, topic: Seq<char>)
    requires
        e.name@ != topic,
    ensures
        spec_subs(ts.push(e), topic) == spec_subs(ts, topic),
        spec_running(ts.push(e), topic) == spec_running(ts, topic),
    decreases ts.len(),
{
    if ts.len() == 0 {
        assert(ts.push(e)[0] == e);
        assert(ts.push(e).drop_first() =~= Seq::<TopicState>::empty());
        assert(spec_subs(Seq::<TopicState>::empty(), topic) == 0);
        assert(!spec_running(Seq::<TopicState>::empty(), topic));
    } else {
        assert(ts.push(e)[0] == ts[0]);
        assert(ts.push(e).drop_first() =~= ts.drop_first().push(e));
        lemma_subs_push_other(ts.drop_first(), e, topic);
    }
}

/// Updating the entry of another topic changes nothing for this one.
proof fn lemma_subs_update_other(before: Seq<TopicState>, after: Seq<TopicState>, i: int, topic:
    Seq<char>)
    requires
        0 <= i < before.len(),
        after.len() == before.len(),
        forall|k: int| 0 <= k < before.len() && k != i ==> #[trigger] after[k] == before[k],
        before[i].name@ != topic,
        after[i].name@ != topic,
    ensures
        spec_subs(after, topic) == spec_subs(before, topic),
        spec_running(after, topic) == spec_running(before, topic),
    decreases before.len(),
{
    if i == 0 {
        assert(after.drop_first() =~= before.drop_first());
    } else {
        assert(after[0] == before[0]);
        let da = after.drop_first();
        let db = before.drop_first();
        assert forall|k: int|
            0 <= k < db.len() && k != i - 1 implies #[trigger] da[k] == db[k] by {
            assert(da[k] == after[k + 1] && db[k] == before[k + 1]);
        }
        assert(da[i - 1] == after[i] && db[i - 1] == before[i]);
        lemma_subs_update_other(db, da, i - 1, topic);
    }
}

/// The hub invariant, topic by topic.
proof fn lemma_wf_iff(ts: Seq<TopicState>, topic: Seq<char>)
    requires
        forall|k: int|
            0 <= k < ts.len() ==> ((#[trigger] ts[k]).producer_running <==> ts[k].subscribers
                > 0),
    ensures
        spec_running(ts, topic) <==> spec_subs(ts, topic) > 0,
    decreases ts.len(),
{
    if ts.len() > 0 && ts[0].name@ != topic {
        let d = ts.drop_first();
        assert forall|k: int|
            0 <= k < d.len() implies ((#[trigger] d[k]).producer_running <==> d[k].subscribers
            > 0) by {
            assert(d[k] == ts[k + 1]);
        }
        lemma_wf_iff(d, topic);
    }
}

} // verus!
