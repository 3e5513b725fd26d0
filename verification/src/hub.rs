//! Subscriber fan-out: bounded per-subscriber event queues with
//! lagging-eviction.
//!
//! Publishing never waits on a consumer: an event is appended to every
//! subscriber queue that has room, and a subscriber whose queue is full is
//! evicted with a lagging notification instead of delaying the publisher.
//! Events stay in the exact order they were published.

use vstd::prelude::*;
use crate::sync::{ChangeEvent, copy_event};

verus! {

/// One registered consumer: its id and its pending events, oldest first.
#[derive(Clone, Debug)]
pub struct Subscriber {
    /// Identifier handed out by `subscribe`.
    pub id: u64,
    /// Undelivered events in publish order.
    pub queue: Vec<ChangeEvent>,
}

/// Model of one subscriber.
pub ghost struct SubModel {
    /// Identifier.
    pub id: u64,
    /// Undelivered events in publish order.
    pub queue: Seq<ChangeEvent>,
}

/// Models of a sequence of subscribers.
pub open spec fn subs_model(s: Seq<Subscriber>) -> Seq<SubModel> {
    s.map_values(|x: Subscriber| SubModel { id: x.id, queue: x.queue@ })
}

/// Effect of publishing `e` at capacity `cap`: subscribers with room get
/// `e` appended in place, full ones are dropped and their ids reported.
pub open spec fn publish_model(subs: Seq<SubModel>, e: ChangeEvent, cap: int) -> (Seq<SubModel>,
    Seq<u64>)
    decreases subs.len(),
{
    if subs.len() == 0 {
        (Seq::<SubModel>::empty(), Seq::<u64>::empty())
    } else {
        let (rs, ev) = publish_model(subs.drop_last(), e, cap);
        let s = subs.last();
        if s.queue.len() < cap {
            (rs.push(SubModel { id: s.id, queue: s.queue.push(e) }), ev)
        } else {
            (rs, ev.push(s.id))
        }
    }
}

/// Backpressure: publishing appends the event to every subscriber that has
/// room, keeps every queue within the capacity bound, and evicts exactly
/// the subscribers whose queues were full — it never grows a full queue.
pub proof fn lemma_publish_backpressure(subs: Seq<SubModel>, e: ChangeEvent, cap: int)
    requires
        forall|k: int| 0 <= k < subs.len() ==> (#[trigger] subs[k]).queue.len() <= cap,
    ensures
        ({
            let (rs, ev) = publish_model(subs, e, cap);
            &&& rs.len() + ev.len() == subs.len()
            &&& forall|k: int|
                0 <= k < subs.len() && (#[trigger] subs[k]).queue.len() < cap ==> rs.contains(
                    SubModel { id: subs[k].id, queue: subs[k].queue.push(e) },
                )
            &&& forall|k: int|
                0 <= k < subs.len() && (#[trigger] subs[k]).queue.len() >= cap ==> ev.contains(
                    subs[k].id,
                )
            &&& forall|k: int| 0 <= k < rs.len() ==> (#[trigger] rs[k]).queue.len() <= cap
        }),
    decreases subs.len(),
{
    if subs.len() > 0 {
        let pre = subs.drop_last();
        lemma_publish_backpressure(pre, e, cap);
        let (rs0, ev0) = publish_model(pre, e, cap);
        let (rs, ev) = publish_model(subs, e, cap);
        let s = subs.last();
        assert forall|k: int|
            0 <= k < subs.len() && (#[trigger] subs[k]).queue.len() < cap implies rs.contains(
            SubModel { id: subs[k].id, queue: subs[k].queue.push(e) },
        ) by {
            if k < pre.len() {
                assert(pre[k] == subs[k]);
                let w = SubModel { id: subs[k].id, queue: subs[k].queue.push(e) };
                let wi = choose|i: int| 0 <= i < rs0.len() && rs0[i] == w;
                if s.queue.len() < cap {
                    assert(rs[wi] == w);
                } else {
                    assert(rs[wi] == w);
                }
            } else {
                assert(subs[k] == s);
                assert(rs.last() == SubModel { id: s.id, queue: s.queue.push(e) });
            }
        }
        assert forall|k: int|
            0 <= k < subs.len() && (#[trigger] subs[k]).queue.len() >= cap implies ev.contains(
            subs[k].id,
        ) by {
            if k < pre.len() {
                assert(pre[k] == subs[k]);
                let wi = choose|i: int| 0 <= i < ev0.len() && ev0[i] == subs[k].id;
                assert(ev[wi] == subs[k].id);
            } else {
                assert(ev.last() == s.id);
            }
        }
    }
}

/// Registers consumers, fans change events out to them, and hands out
/// their queued events.
#[derive(Clone, Debug)]
pub struct SubscriptionHub {
    /// Live subscribers in registration order.
    pub subscribers: Vec<Subscriber>,
    /// Next id to hand out.
    pub next_id: u64,
    /// Bound on every subscriber queue.
    pub capacity: usize,
    /// Ids evicted for lagging, as notifications not yet collected.
    pub evicted: Vec<u64>,
}

impl SubscriptionHub {
    /// Well-formedness: a positive capacity, queues within it, unique ids
    /// below `next_id`.
    pub open spec fn wf(self) -> bool {
        &&& self.capacity >= 1
        &&& forall|k: int|
            0 <= k < self.subscribers@.len() ==> (#[trigger] self.subscribers@[k]).queue@.len()
                <= self.capacity
        &&& forall|k: int|
            0 <= k < self.subscribers@.len() ==> (#[trigger] self.subscribers@[k]).id
                < self.next_id
        &&& forall|k: int, l: int|
            0 <= k < l < self.subscribers@.len() ==> (#[trigger] self.subscribers@[k]).id != (
            #[trigger] self.subscribers@[l]).id
    }

    /// An empty hub whose queues are bounded by `capacity`.
    pub fn new(capacity: usize) -> (r: SubscriptionHub)
        requires
            capacity >= 1,
        ensures
            r.wf(),
            r.capacity == capacity,
            r.subscribers@.len() == 0,
            r.evicted@.len() == 0,
    {
        SubscriptionHub { subscribers: Vec::new(), next_id: 0, capacity, evicted: Vec::new() }
    }

    /// Registers a consumer and returns its id.
    pub fn subscribe(&mut self) -> (r: u64)
        requires
            old(self).wf(),
            old(self).next_id < u64::MAX,
        ensures
            final(self).wf(),
            r == old(self).next_id,
            final(self).subscribers@.len() == old(self).subscribers@.len() + 1,
            final(self).subscribers@.subrange(0, old(self).subscribers@.len() as int) == old(
                self).subscribers@,
            final(self).subscribers@.last().id == r,
            final(self).subscribers@.last().queue@ == Seq::<ChangeEvent>::empty(),
            final(self).capacity == old(self).capacity,
            final(self).evicted@ == old(self).evicted@,
    {
        let id = self.next_id;
        self.next_id = self.next_id + 1;
        self.subscribers.push(Subscriber { id, queue: Vec::new() });
        proof {
            let s0 = old(self).subscribers@;
            let s1 = self.subscribers@;
            assert(s1.subrange(0, s0.len() as int) =~= s0);
            assert forall|k: int, l: int| 0 <= k < l < s1.len() implies (#[trigger] s1[k]).id != (
            #[trigger] s1[l]).id by {
                if l < s0.len() {
                    assert(s1[k] == s0[k]);
                    assert(s1[l] == s0[l]);
                } else {
                    assert(s1[k] == s0[k]);
                    assert(s1[l].id == id);
                }
            }
            assert forall|k: int| 0 <= k < s1.len() implies (#[trigger] s1[k]).id
                < self.next_id by {
                if k < s0.len() {
                    assert(s1[k] == s0[k]);
                }
            }
            assert forall|k: int| 0 <= k < s1.len() implies (#[trigger] s1[k]).queue@.len()
                <= self.capacity by {
                if k < s0.len() {
                    assert(s1[k] == s0[k]);
                }
            }
        }
        id
    }

    /// Removes the subscriber with the given id; true when one existed.
    #[verifier::loop_isolation(false)]
    pub fn unsubscribe(&mut self, id: u64) -> (r: bool)
        requires
            old(self).wf(),
        ensures
            final(self).wf(),
            final(self).capacity == old(self).capacity,
            forall|k: int|
                0 <= k < final(self).subscribers@.len() ==> (#[trigger] final(
                    self).subscribers@[k]).id != id,
            r ==> (exists|i: int|
                {
                    &&& 0 <= i < old(self).subscribers@.len()
                    &&& (#[trigger] old(self).subscribers@[i]).id == id
                    &&& final(self).subscribers@ == old(self).subscribers@.remove(i)
                }),
            r ==> final(self).next_id == old(self).next_id && final(self).evicted@ == old(
                self).evicted@ && final(self).capacity == old(self).capacity,
            !r ==> *final(self) == *old(self),
    {
        let n = self.subscribers.len();
        let mut i: usize = 0;
        while i < n
            invariant
                i <= n,
                n == self.subscribers@.len(),
                *self == *old(self),
                forall|k: int| 0 <= k < i ==> (#[trigger] self.subscribers@[k]).id != id,
            decreases n - i,
        {
            if self.subscribers[i].id == id {
                self.subscribers.remove(i);
                proof {
                    let s0 = old(self).subscribers@;
                    let s1 = self.subscribers@;
                    assert forall|k: int| 0 <= k < s1.len() implies (#[trigger] s1[k]).id
                        != id by {
                        if k < i {
                            assert(s1[k] == s0[k]);
                        } else {
                            assert(s1[k] == s0[k + 1]);
                        }
                    }
                    assert forall|k: int, l: int| 0 <= k < l < s1.len() implies (
                    #[trigger] s1[k]).id != (#[trigger] s1[l]).id by {
                        let k0: int = if k < i { k } else { k + 1 };
                        let l0: int = if l < i { l } else { l + 1 };
                        assert(s1[k] == s0[k0]);
                        assert(s1[l] == s0[l0]);
                    }
                }
                return true;
            }
            i = i + 1;
        }
        false
    }

    /// Publishes one event to every subscriber: appended where the queue
    /// has room, eviction with a lagging notification where it is full.
    /// Never blocks on a consumer.
    #[verifier::loop_isolation(false)]
    pub fn publish(&mut self, e: &ChangeEvent)
        requires
            old(self).wf(),
        ensures
            final(self).wf(),
            final(self).capacity == old(self).capacity,
            final(self).next_id == old(self).next_id,
            ({
                let (rs, ev) = publish_model(
                    subs_model(old(self).subscribers@),
                    *e,
                    old(self).capacity as int,
                );
                subs_model(final(self).subscribers@) == rs && final(self).evicted@ == old(
                    self,
                ).evicted@ + ev
            }),
    {
        let ghost orig = self.subscribers@;
        let ghost cap = self.capacity as int;
        let ghost ev0 = self.evicted@;
        let mut i: usize = 0;
        let ghost mut p: int = 0;
        proof {
            assert(orig.subrange(0, 0) =~= Seq::<Subscriber>::empty());
            assert(subs_model(Seq::<Subscriber>::empty()) =~= Seq::<SubModel>::empty());
        }
        while i < self.subscribers.len()
            invariant
                0 <= p <= orig.len(),
                i <= self.subscribers@.len(),
                self.capacity == old(self).capacity,
                self.next_id == old(self).next_id,
                ({
                    let (rs, ev) = publish_model(subs_model(orig.subrange(0, p)), *e, cap);
                    &&& subs_model(self.subscribers@) == rs + subs_model(
                        orig.subrange(p, orig.len() as int),
                    )
                    &&& self.evicted@ == ev0 + ev
                    &&& i == rs.len()
                }),
            decreases orig.len() - p,
        {
            proof {
                assert(subs_model(self.subscribers@)[i as int] == subs_model(orig)[p]);
                assert(orig.subrange(0, p + 1).drop_last() =~= orig.subrange(0, p));
                assert(orig.subrange(0, p + 1).last() == orig[p]);
                assert(subs_model(orig.subrange(0, p + 1)).drop_last() =~= subs_model(
                    orig.subrange(0, p),
                ));
                assert(subs_model(orig.subrange(0, p + 1)).last() == subs_model(orig)[p]);
            }
            let ghost s_pre = self.subscribers@;
            let ghost i0 = i as int;
            if self.subscribers[i].queue.len() < self.capacity {
                self.subscribers[i].queue.push(copy_event(e));
                i = i + 1;
            } else {
                let s = self.subscribers.remove(i);
                self.evicted.push(s.id);
            }
            proof {
                let x0 = subs_model(orig.subrange(0, p));
                let x1 = subs_model(orig.subrange(0, p + 1));
                assert(x1.drop_last() =~= x0);
                assert(x1.last() == subs_model(orig)[p]);
                let (rs0, evd0) = publish_model(x0, *e, cap);
                let (rs1, evd1) = publish_model(x1, *e, cap);
                if subs_model(orig)[p].queue.len() < cap {
                    assert(rs1 == rs0.push(
                        SubModel {
                            id: subs_model(orig)[p].id,
                            queue: subs_model(orig)[p].queue.push(*e),
                        },
                    ));
                    assert(evd1 == evd0);
                } else {
                    assert(rs1 == rs0);
                    assert(evd1 == evd0.push(subs_model(orig)[p].id));
                }
                p = p + 1;
                assert forall|j: int|
                    0 <= j < subs_model(self.subscribers@).len() implies subs_model(
                    self.subscribers@,
                )[j] == (rs1 + subs_model(orig.subrange(p, orig.len() as int)))[j] by {
                    let lenr = rs1.len() as int;
                    assert(subs_model(self.subscribers@)[j] == (SubModel {
                        id: self.subscribers@[j].id,
                        queue: self.subscribers@[j].queue@,
                    }));
                    if j < i0 {
                        assert(self.subscribers@[j] == s_pre[j]);
                        assert(subs_model(s_pre)[j] == rs0[j]);
                        assert(rs1[j] == rs0[j]);
                    } else if j < lenr {
                        assert(j == i0);
                        assert(self.subscribers@[i0].id == s_pre[i0].id);
                        assert(self.subscribers@[i0].queue@ == s_pre[i0].queue@.push(*e));
                        assert(subs_model(s_pre)[i0] == subs_model(orig)[p - 1]);
                        assert(subs_model(s_pre)[i0] == (SubModel {
                            id: s_pre[i0].id,
                            queue: s_pre[i0].queue@,
                        }));
                    } else {
                        if lenr > i0 {
                            assert(self.subscribers@[j] == s_pre[j]);
                            assert(subs_model(s_pre)[j] == subs_model(
                                orig.subrange(p - 1, orig.len() as int),
                            )[j - i0]);
                            assert(subs_model(orig.subrange(p - 1, orig.len() as int))[j - i0]
                                == subs_model(orig)[p - 1 + j - i0]);
                        } else {
                            assert(self.subscribers@[j] == s_pre[j + 1]);
                            assert(subs_model(s_pre)[j + 1] == subs_model(
                                orig.subrange(p - 1, orig.len() as int),
                            )[j + 1 - i0]);
                            assert(subs_model(orig.subrange(p - 1, orig.len() as int))[j + 1
                                - i0] == subs_model(orig)[p + j - i0]);
                        }
                        assert(subs_model(orig.subrange(p, orig.len() as int))[j - lenr]
                            == subs_model(orig)[p + j - lenr]);
                    }
                }
                assert(subs_model(self.subscribers@) =~= rs1 + subs_model(
                    orig.subrange(p, orig.len() as int),
                ));
                assert(self.evicted@ =~= ev0 + evd1);
            }
        }
        proof {
            assert(orig.subrange(0, p) =~= orig);
            assert(subs_model(orig.subrange(p, orig.len() as int)) =~= Seq::<SubModel>::empty());
            let (rs, ev) = publish_model(subs_model(orig), *e, cap);
            assert(subs_model(self.subscribers@) =~= rs);
            lemma_publish_backpressure(subs_model(orig), *e, cap);
            assert forall|k: int, l: int| 0 <= k < l < self.subscribers@.len() implies (
            #[trigger] self.subscribers@[k]).id != (#[trigger] self.subscribers@[l]).id by {
                lemma_publish_ids(subs_model(orig), *e, cap);
                assert(subs_model(self.subscribers@)[k].id == self.subscribers@[k].id);
                assert(subs_model(self.subscribers@)[l].id == self.subscribers@[l].id);
                assert(subs_model(self.subscribers@)[k] == rs[k]);
                assert(subs_model(self.subscribers@)[l] == rs[l]);
            }
            assert forall|k: int| 0 <= k < self.subscribers@.len() implies (
            #[trigger] self.subscribers@[k]).id < self.next_id by {
                lemma_publish_ids(subs_model(orig), *e, cap);
                assert(subs_model(self.subscribers@)[k].id == self.subscribers@[k].id);
            }
            assert forall|k: int| 0 <= k < self.subscribers@.len() implies (
            #[trigger] self.subscribers@[k]).queue@.len() <= self.capacity by {
                assert(subs_model(self.subscribers@)[k].queue == self.subscribers@[k].queue@);
            }
        }
    }

    /// Hands out and clears the queued events of the subscriber with the
    /// given id, oldest first; `None` when no such subscriber exists.
    #[verifier::loop_isolation(false)]
    pub fn drain(&mut self, id: u64) -> (r: Option<Vec<ChangeEvent>>)
        requires
            old(self).wf(),
        ensures
            final(self).wf(),
            final(self).capacity == old(self).capacity,
            final(self).next_id == old(self).next_id,
            final(self).evicted@ == old(self).evicted@,
            final(self).subscribers@.len() == old(self).subscribers@.len(),
            match r {
                Some(events) => exists|k: int|
                    {
                        &&& 0 <= k < old(self).subscribers@.len()
                        &&& (#[trigger] old(self).subscribers@[k]).id == id
                        &&& events@ == old(self).subscribers@[k].queue@
                        &&& final(self).subscribers@[k].id == id
                        &&& final(self).subscribers@[k].queue@ == Seq::<ChangeEvent>::empty()
                        &&& forall|j: int|
                            0 <= j < old(self).subscribers@.len() && j != k ==> final(
                                self).subscribers@[j] == old(self).subscribers@[j]
                    },
                None => *final(self) == *old(self) && forall|k: int|
                    0 <= k < old(self).subscribers@.len() ==> (#[trigger] old(
                        self).subscribers@[k]).id != id,
            },
    {
        let n = self.subscribers.len();
        let mut i: usize = 0;
        while i < n
            invariant
                i <= n,
                n == self.subscribers@.len(),
                *self == *old(self),
                forall|k: int| 0 <= k < i ==> (#[trigger] self.subscribers@[k]).id != id,
            decreases n - i,
        {
            if self.subscribers[i].id == id {
                let mut taken: Vec<ChangeEvent> = Vec::new();
                core::mem::swap(&mut taken, &mut self.subscribers[i].queue);
                proof {
                    let s0 = old(self).subscribers@;
                    let s1 = self.subscribers@;
                    assert(s1[i as int].queue@ == Seq::<ChangeEvent>::empty());
                    assert forall|k: int, l: int| 0 <= k < l < s1.len() implies (
                    #[trigger] s1[k]).id != (#[trigger] s1[l]).id by {
                        assert(s1[k].id == s0[k].id);
                        assert(s1[l].id == s0[l].id);
                    }
                    assert forall|k: int| 0 <= k < s1.len() implies (#[trigger] s1[k]).queue@.len()
                        <= self.capacity by {
                        if k != i {
                            assert(s1[k] == s0[k]);
                        }
                    }
                    assert forall|k: int| 0 <= k < s1.len() implies (#[trigger] s1[k]).id
                        < self.next_id by {
                        assert(s1[k].id == s0[k].id);
                    }
                }
                return Some(taken);
            }
            i = i + 1;
        }
        None
    }
}

/// The ids of the kept subscribers after a publish are ids of the previous
/// subscribers, pairwise distinct if they were.
proof fn lemma_publish_ids(subs: Seq<SubModel>, e: ChangeEvent, cap: int)
    requires
        forall|k: int, l: int|
            0 <= k < l < subs.len() ==> (#[trigger] subs[k]).id != (#[trigger] subs[l]).id,
    ensures
        ({
            let (rs, ev) = publish_model(subs, e, cap);
            &&& forall|k: int|
                0 <= k < rs.len() ==> exists|j: int|
                    0 <= j < subs.len() && (#[trigger] rs[k]).id == subs[j].id
            &&& forall|k: int, l: int|
                0 <= k < l < rs.len() ==> (#[trigger] rs[k]).id != (#[trigger] rs[l]).id
        }),
    decreases subs.len(),
{
    if subs.len() > 0 {
        let pre = subs.drop_last();
        lemma_publish_ids(pre, e, cap);
        let (rs0, ev0) = publish_model(pre, e, cap);
        let (rs, ev) = publish_model(subs, e, cap);
        let s = subs.last();
        assert forall|k: int| 0 <= k < rs.len() implies exists|j: int|
            0 <= j < subs.len() && (#[trigger] rs[k]).id == subs[j].id by {
            if k < rs0.len() {
                assert(rs[k] == rs0[k]);
                let j0 = choose|j: int| 0 <= j < pre.len() && rs0[k].id == pre[j].id;
                assert(subs[j0] == pre[j0]);
                assert(rs[k].id == subs[j0].id);
            } else {
                assert(rs[k].id == s.id);
                assert(subs[subs.len() - 1].id == s.id);
            }
        }
        assert forall|k: int, l: int| 0 <= k < l < rs.len() implies (#[trigger] rs[k]).id != (
        #[trigger] rs[l]).id by {
            if l < rs0.len() {
                assert(rs[k] == rs0[k]);
                assert(rs[l] == rs0[l]);
            } else if s.queue.len() < cap && l == rs0.len() {
                assert(rs[k] == rs0[k]);
                let j0 = choose|j: int| 0 <= j < pre.len() && rs0[k].id == pre[j].id;
                assert(subs[j0] == pre[j0]);
                assert(subs[j0].id != s.id);
            }
        }
    }
}


/// Effect of publishing a sequence of events in order, starting from
/// `subs`: the surviving subscribers and the lagging ids, in order.
pub open spec fn publish_all(subs: Seq<SubModel>, es: Seq<ChangeEvent>, cap: int) -> (Seq<SubModel>,
    Seq<u64>)
    decreases es.len(),
{
    if es.len() == 0 {
        (subs, Seq::<u64>::empty())
    } else {
        let (s1, e1) = publish_model(subs, es[0], cap);
        let (s2, e2) = publish_all(s1, es.drop_first(), cap);
        (s2, e1 + e2)
    }
}

/// Splitting off the last event: publishing a sequence is publishing its
/// prefix, then its last event.
pub proof fn lemma_publish_all_snoc(subs: Seq<SubModel>, es: Seq<ChangeEvent>, cap: int)
    requires
        es.len() > 0,
    ensures
        ({
            let (s1, e1) = publish_all(subs, es.drop_last(), cap);
            let (s2, e2) = publish_model(s1, es.last(), cap);
            publish_all(subs, es, cap).0 == s2 && publish_all(subs, es, cap).1 == e1 + e2
        }),
    decreases es.len(),
{
    if es.len() == 1 {
        assert(es.drop_last() =~= Seq::<ChangeEvent>::empty());
        assert(es.drop_first() =~= Seq::<ChangeEvent>::empty());
        let (s1, e1) = publish_model(subs, es[0], cap);
        assert(publish_all(s1, es.drop_first(), cap) == (s1, Seq::<u64>::empty()));
        assert(publish_all(subs, es, cap).1 =~= e1);
        assert(Seq::<u64>::empty() + e1 =~= e1);
    } else {
        let (s1, e1) = publish_model(subs, es[0], cap);
        lemma_publish_all_snoc(s1, es.drop_first(), cap);
        assert(es.drop_first().drop_last() =~= es.drop_last().drop_first());
        assert(es.drop_first().last() == es.last());
        assert(es.drop_last()[0] == es[0]);
        let (p1, q1) = publish_all(s1, es.drop_last().drop_first(), cap);
        let (p2, q2) = publish_model(p1, es.last(), cap);
        assert(publish_all(subs, es, cap).1 =~= e1 + (q1 + q2));
        assert(publish_all(subs, es.drop_last(), cap).1 =~= e1 + q1);
        assert(e1 + (q1 + q2) =~= (e1 + q1) + q2);
    }
}

} // verus!
