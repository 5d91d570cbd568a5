//! A bounded first-in first-out buffer of notifications for one client,
//! with a configurable rule for what happens when it is full.

use std::collections::VecDeque;
use vstd::prelude::*;

verus! {

/// What a full buffer does with a newly offered message.
#[derive(Clone, Copy, Debug, PartialEq, Eq, Structural)]
pub enum Backpressure {
    /// The new message is refused; the queue is left as it was.
    DropNewest,
    /// The oldest queued message is discarded to make room.
    DropOldest,
    /// The new message is refused; the producer waits for room and retries.
    BlockProducer,
}

/// The result of offering a message to a buffer.
#[derive(Clone, Copy, Debug, PartialEq, Eq, Structural)]
pub enum Offered {
    /// There was room: the message was queued.
    Accepted,
    /// The buffer was full and the oldest message made way for this one.
    EvictedOldest,
    /// The buffer was full and the message was not queued.
    Refused,
}

/// The queue after offering `m` to a buffer holding `q` with capacity `cap`.
pub open spec fn offer_queue<M>(q: Seq<M>, cap: nat, policy: Backpressure, m: M) -> Seq<M> {
    if q.len() < cap {
        q.push(m)
    } else if policy == Backpressure::DropOldest {
        q.drop_first().push(m)
    } else {
        q
    }
}

/// The outcome reported when offering to a buffer holding `len` messages.
pub open spec fn offer_outcome(len: nat, cap: nat, policy: Backpressure) -> Offered {
    if len < cap {
        Offered::Accepted
    } else if policy == Backpressure::DropOldest {
        Offered::EvictedOldest
    } else {
        Offered::Refused
    }
}

/// A bounded FIFO queue of messages awaiting delivery to one socket.
pub struct DeliveryBuffer<M> {
    items: VecDeque<M>,
    capacity: usize,
    policy: Backpressure,
}

impl<M> View for DeliveryBuffer<M> {
    type V = Seq<M>;

    closed spec fn view(&self) -> Seq<M> {
        self.items@
    }
}

impl<M> DeliveryBuffer<M> {
    pub closed spec fn spec_capacity(&self) -> nat {
        self.capacity as nat
    }

    pub closed spec fn spec_policy(&self) -> Backpressure {
        self.policy
    }

    /// The queue never holds more than its capacity, which is positive.
    pub closed spec fn wf(&self) -> bool {
        &&& self.capacity > 0
        &&& self.items@.len() <= self.capacity
    }

    /// An empty buffer holding at most `capacity` messages.
    pub fn new(capacity: usize, policy: Backpressure) -> (r: Self)
        requires
            capacity > 0,
        ensures
            r.wf(),
            r@ == Seq::<M>::empty(),
            r.spec_capacity() == capacity,
            r.spec_policy() == policy,
    {
        DeliveryBuffer { items: VecDeque::new(), capacity, policy }
    }

    pub fn capacity(&self) -> (r: usize)
        ensures
            r == self.spec_capacity(),
    {
        self.capacity
    }

    pub fn policy(&self) -> (r: Backpressure)
        ensures
            r == self.spec_policy(),
    {
        self.policy
    }

    pub fn len(&self) -> (r: usize)
        ensures
            r == self@.len(),
    {
        self.items.len()
    }

    pub fn is_full(&self) -> (r: bool)
        requires
            self.wf(),
        ensures
            r == (self@.len() >= self.spec_capacity()),
    {
        self.items.len() >= self.capacity
    }

    /// Offers `m` for delivery, applying the backpressure policy when full.
    pub fn offer(&mut self, m: M) -> (r: Offered)
        requires
            old(self).wf(),
        ensures
            final(self).wf(),
            final(self).spec_capacity() == old(self).spec_capacity(),
            final(self).spec_policy() == old(self).spec_policy(),
            final(self)@ == offer_queue(
                old(self)@,
                old(self).spec_capacity(),
                old(self).spec_policy(),
                m,
            ),
            r == offer_outcome(old(self)@.len(), old(self).spec_capacity(), old(self).spec_policy()),
    {
        if self.items.len() < self.capacity {
            self.items.push_back(m);
            Offered::Accepted
        } else if self.policy == Backpressure::DropOldest {
            let _ = self.items.pop_front();
            self.items.push_back(m);
            proof {
                assert(self.items@ =~= old(self)@.drop_first().push(m));
            }
            Offered::EvictedOldest
        } else {
            Offered::Refused
        }
    }

    /// Removes and returns the oldest queued message, if any.
    pub fn take(&mut self) -> (r: Option<M>)
        requires
            old(self).wf(),
        ensures
            final(self).wf(),
            final(self).spec_capacity() == old(self).spec_capacity(),
            final(self).spec_policy() == old(self).spec_policy(),
            old(self)@.len() == 0 ==> r is None && final(self)@ == old(self)@,
            old(self)@.len() > 0 ==> r == Some(old(self)@[0]) && final(self)@ == old(
                self,
            )@.drop_first(),
    {
        let r = self.items.pop_front();
        proof {
            if old(self)@.len() > 0 {
                assert(self.items@ =~= old(self)@.drop_first());
            }
        }
        r
    }
}

} // verus!
