//! Ordering laws of a delivery buffer, stated over every sequence of offers
//! and deliveries that a producer and the forwarding loop may perform.

use crate::buffer::{offer_queue, Backpressure};
use vstd::prelude::*;

verus! {

/// One thing that happens to a buffer: a producer offers a message, or the
/// forwarding loop takes the oldest one and writes it to the socket.
pub enum BufferEvent<M> {
    Offer(M),
    Deliver,
}

/// The history of one buffer: what is queued now, every message offered so
/// far, for each of them whether it was taken into the queue, what reached
/// the socket, in order, how many queued messages were evicted to make
/// room, and, for each message delivered or queued, the position of the
/// offer it came from.
pub struct Trace<M> {
    pub queue: Seq<M>,
    pub offered: Seq<M>,
    pub kept: Seq<bool>,
    pub delivered: Seq<M>,
    pub evicted: nat,
    pub origin: Seq<int>,
}

/// The messages of `offered` whose flag in `kept` is set, in offer order.
pub open spec fn select<M>(offered: Seq<M>, kept: Seq<bool>) -> Seq<M>
    decreases offered.len(),
{
    if offered.len() == 0 || kept.len() == 0 {
        Seq::empty()
    } else {
        let rest = select(offered.drop_last(), kept.drop_last());
        if kept.last() {
            rest.push(offered.last())
        } else {
            rest
        }
    }
}

/// The messages that the buffer took in, in offer order.
pub open spec fn accepted<M>(t: Trace<M>) -> Seq<M> {
    select(t.offered, t.kept)
}

pub open spec fn empty_trace<M>() -> Trace<M> {
    Trace {
        queue: Seq::empty(),
        offered: Seq::empty(),
        kept: Seq::empty(),
        delivered: Seq::empty(),
        evicted: 0,
        origin: Seq::empty(),
    }
}

/// Every message delivered or still queued comes from an offer that the
/// buffer took in, and they stand in the order of those offers.
pub open spec fn in_offer_order<M>(t: Trace<M>) -> bool {
    let s = t.delivered + t.queue;
    &&& t.origin.len() == s.len()
    &&& forall|k: int|
        0 <= k < s.len() ==> 0 <= #[trigger] t.origin[k] < t.offered.len() && s[k]
            == t.offered[t.origin[k]] && t.kept[t.origin[k]]
    &&& forall|k: int, l: int| 0 <= k < l < s.len() ==> #[trigger] t.origin[k] < #[trigger] t.origin[l]
}

/// The history after one more event, for a buffer of capacity `cap`.
pub open spec fn trace_step<M>(t: Trace<M>, cap: nat, policy: Backpressure, e: BufferEvent<M>) -> Trace<M> {
    match e {
        BufferEvent::Offer(m) => {
            let room = t.queue.len() < cap;
            let evict = !room && policy == Backpressure::DropOldest;
            Trace {
                queue: offer_queue(t.queue, cap, policy, m),
                offered: t.offered.push(m),
                kept: t.kept.push(room || evict),
                delivered: t.delivered,
                evicted: if evict {
                    t.evicted + 1
                } else {
                    t.evicted
                },
                origin: if room {
                    t.origin.push(t.offered.len() as int)
                } else if evict {
                    t.origin.remove(t.delivered.len() as int).push(t.offered.len() as int)
                } else {
                    t.origin
                },
            }
        },
        BufferEvent::Deliver => if t.queue.len() == 0 {
            t
        } else {
            Trace {
                queue: t.queue.drop_first(),
                offered: t.offered,
                kept: t.kept,
                delivered: t.delivered.push(t.queue[0]),
                evicted: t.evicted,
                origin: t.origin,
            }
        },
    }
}

/// The history of a buffer that starts empty and sees `events` in order.
pub open spec fn run<M>(cap: nat, policy: Backpressure, events: Seq<BufferEvent<M>>) -> Trace<M>
    decreases events.len(),
{
    if events.len() == 0 {
        empty_trace()
    } else {
        trace_step(run(cap, policy, events.drop_last()), cap, policy, events.last())
    }
}

/// The messages offered by `events`, in order.
pub open spec fn offers<M>(events: Seq<BufferEvent<M>>) -> Seq<M>
    decreases events.len(),
{
    if events.len() == 0 {
        Seq::empty()
    } else {
        match events.last() {
            BufferEvent::Offer(m) => offers(events.drop_last()).push(m),
            BufferEvent::Deliver => offers(events.drop_last()),
        }
    }
}

proof fn lemma_run_shape<M>(cap: nat, policy: Backpressure, events: Seq<BufferEvent<M>>)
    requires
        cap > 0,
    ensures
        ({
            let t = run(cap, policy, events);
            &&& t.kept.len() == t.offered.len()
            &&& t.offered == offers(events)
            &&& t.queue.len() <= cap
            &&& t.evicted == 0 ==> accepted(t) == t.delivered + t.queue
            &&& policy != Backpressure::DropOldest ==> t.evicted == 0
            &&& in_offer_order(t)
        }),
    decreases events.len(),
{
    if events.len() > 0 {
        let prev = events.drop_last();
        lemma_run_shape(cap, policy, prev);
        let p = run(cap, policy, prev);
        let t = run(cap, policy, events);
        let ps = p.delivered + p.queue;
        let ts = t.delivered + t.queue;
        match events.last() {
            BufferEvent::Offer(m) => {
                assert(t.offered.drop_last() =~= p.offered);
                assert(t.kept.drop_last() =~= p.kept);
                let n = p.offered.len() as int;
                if p.queue.len() < cap {
                    assert(accepted(t) == accepted(p).push(m));
                    assert(ts =~= ps.push(m));
                    if t.evicted == 0 {
                        assert(accepted(t) =~= t.delivered + t.queue);
                    }
                    assert forall|k: int| 0 <= k < ts.len() implies 0 <= #[trigger] t.origin[k]
                        < t.offered.len() && ts[k] == t.offered[t.origin[k]] && t.kept[t.origin[k]] by {
                        if k < ps.len() {
                            assert(t.origin[k] == p.origin[k]);
                        }
                    }
                } else if policy == Backpressure::DropOldest {
                    let d = p.delivered.len() as int;
                    assert(accepted(t) == accepted(p).push(m));
                    assert(ts =~= ps.remove(d).push(m));
                    let o = p.origin.remove(d);
                    assert forall|k: int| 0 <= k < ts.len() implies 0 <= #[trigger] t.origin[k]
                        < t.offered.len() && ts[k] == t.offered[t.origin[k]] && t.kept[t.origin[k]] by {
                        if k < ps.len() - 1 {
                            let ok = if k < d { k } else { k + 1 };
                            assert(t.origin[k] == p.origin[ok]);
                            assert(ts[k] == ps[ok]);
                        }
                    }
                    assert forall|k: int, l: int| 0 <= k < l < ts.len() implies #[trigger] t.origin[k]
                        < #[trigger] t.origin[l] by {
                        let ok = if k < d { k } else { k + 1 };
                        assert(t.origin[k] == p.origin[ok]);
                        if l < ps.len() - 1 {
                            let ol = if l < d { l } else { l + 1 };
                            assert(t.origin[l] == p.origin[ol]);
                        }
                    }
                } else {
                    assert(accepted(t) == accepted(p));
                    assert(ts =~= ps);
                    assert forall|k: int| 0 <= k < ts.len() implies 0 <= #[trigger] t.origin[k]
                        < t.offered.len() && ts[k] == t.offered[t.origin[k]] && t.kept[t.origin[k]] by {
                        assert(t.origin[k] == p.origin[k]);
                    }
                }
            },
            BufferEvent::Deliver => {
                if p.queue.len() > 0 {
                    assert(ts =~= ps);
                    if t.evicted == 0 {
                        assert(accepted(t) =~= t.delivered + t.queue);
                    }
                }
            },
        }
    }
}

/// Whatever the policy, the messages that reached the socket, followed by
/// those still queued, were all taken in by the buffer and stand in the
/// order in which they were offered: evicting the oldest one skips a
/// message but never reorders.
pub proof fn lemma_order_kept<M>(cap: nat, policy: Backpressure, events: Seq<BufferEvent<M>>)
    requires
        cap > 0,
    ensures
        in_offer_order(run(cap, policy, events)),
        run(cap, policy, events).offered == offers(events),
{
    lemma_run_shape(cap, policy, events);
}

/// Whatever the policy, as long as no queued message was evicted, the
/// buffer delivers exactly the messages it accepted, in the order it
/// accepted them. Delivery stopping early (the socket failed) only cuts
/// the tail off.
pub proof fn lemma_fifo_without_eviction<M>(cap: nat, policy: Backpressure, events: Seq<BufferEvent<M>>)
    requires
        cap > 0,
        run(cap, policy, events).evicted == 0,
    ensures
        run(cap, policy, events).delivered + run(cap, policy, events).queue == accepted(
            run(cap, policy, events),
        ),
        run(cap, policy, events).delivered.is_prefix_of(accepted(run(cap, policy, events))),
{
    lemma_run_shape(cap, policy, events);
    let t = run(cap, policy, events);
    assert(t.delivered =~= accepted(t).subrange(0, t.delivered.len() as int));
}

/// A buffer that never evicts delivers exactly the messages it accepted, in
/// the order it accepted them: what reached the socket, followed by what is
/// still queued, is the accepted sequence. Delivery stopping early (the
/// socket failed) only cuts the tail off.
pub proof fn lemma_fifo_delivery<M>(cap: nat, policy: Backpressure, events: Seq<BufferEvent<M>>)
    requires
        cap > 0,
        policy != Backpressure::DropOldest,
    ensures
        run(cap, policy, events).delivered + run(cap, policy, events).queue == accepted(
            run(cap, policy, events),
        ),
        run(cap, policy, events).delivered.is_prefix_of(accepted(run(cap, policy, events))),
{
    lemma_run_shape(cap, policy, events);
    lemma_fifo_without_eviction(cap, policy, events);
}

/// Under the drop-newest policy the delivered messages are a prefix of a
/// subsequence of the offered messages: a full buffer skips messages but
/// never reorders them.
pub proof fn lemma_drop_newest_shape<M>(cap: nat, events: Seq<BufferEvent<M>>)
    requires
        cap > 0,
    ensures
        ({
            let t = run(cap, Backpressure::DropNewest, events);
            &&& t.offered == offers(events)
            &&& t.kept.len() == t.offered.len()
            &&& t.delivered.is_prefix_of(select(offers(events), t.kept))
        }),
{
    lemma_run_shape(cap, Backpressure::DropNewest, events);
    lemma_fifo_delivery(cap, Backpressure::DropNewest, events);
}

/// A buffer of capacity one, under any policy, still delivers in order:
/// what it delivers stands in offer order, and while nothing was evicted
/// (always, unless the policy is drop-oldest) it is exactly what was
/// accepted.
pub proof fn lemma_unit_capacity_fifo<M>(policy: Backpressure, events: Seq<BufferEvent<M>>)
    ensures
        in_offer_order(run(1, policy, events)),
        policy != Backpressure::DropOldest ==> run(1, policy, events).evicted == 0,
        run(1, policy, events).evicted == 0 ==> run(1, policy, events).delivered + run(
            1,
            policy,
            events,
        ).queue == accepted(run(1, policy, events)),
{
    lemma_run_shape(1, policy, events);
    if run(1, policy, events).evicted == 0 {
        lemma_fifo_without_eviction(1, policy, events);
    }
}

} // verus!
