//! The notifier registry: which client is bound to which delivery channel.
//! At most one channel is bound to a client; a binding is named by a token
//! that no other binding of the same registry ever had, so a closing channel
//! removes its own binding and never a successor's.

use crate::buffer::{offer_outcome, offer_queue, Backpressure, DeliveryBuffer, Offered};
use crate::client::ClientId;
use crate::notification::Notification;
use vstd::prelude::*;

verus! {

/// What one client's binding holds: its token and its queued messages.
pub type Slot = (u64, Seq<Notification>);

/// The answer to a request to bind a channel to a client.
#[derive(Clone, Copy, Debug, PartialEq, Eq, Structural)]
pub enum RegisterOutcome {
    /// The channel is bound; the token names this binding.
    Admitted(u64),
    /// Another channel is already bound to the client.
    Conflict,
}

/// The answer to a request to queue a message for one client.
#[derive(Clone, Copy, Debug, PartialEq, Eq, Structural)]
pub enum PublishOutcome {
    /// The message was queued (perhaps evicting an older one).
    DeliveredToBuffer,
    /// No channel is bound to the client.
    NoSuchClient,
    /// The client's buffer was full and the message was not queued.
    BufferFull,
}

/// What a producer does after an attempt to publish.
#[derive(Clone, Copy, Debug, PartialEq, Eq, Structural)]
pub enum PublishNext {
    /// The outcome is final: report it.
    Done,
    /// Wait until a buffer has room, then publish again.
    WaitAndRetry,
}

/// Under the block-producer policy a full buffer suspends the producer
/// until there is room; every other outcome is final.
pub fn after_publish(outcome: PublishOutcome, policy: Backpressure) -> (r: PublishNext)
    ensures
        r == PublishNext::WaitAndRetry <==> (outcome == PublishOutcome::BufferFull && policy
            == Backpressure::BlockProducer),
        r == PublishNext::Done <==> !(outcome == PublishOutcome::BufferFull && policy
            == Backpressure::BlockProducer),
{
    if outcome == PublishOutcome::BufferFull && policy == Backpressure::BlockProducer {
        PublishNext::WaitAndRetry
    } else {
        PublishNext::Done
    }
}

/// What the forwarding loop of a binding finds when it asks for work.
#[derive(Debug)]
pub enum Dequeued {
    /// The oldest queued message, now removed from the buffer.
    Message(Notification),
    /// The buffer is empty.
    Idle,
    /// The binding no longer exists: the loop must stop.
    Unbound,
}

/// The bindings after a request to bind a fresh channel, with token `fresh`,
/// to client `c`: the first binding wins, a later one changes nothing.
pub open spec fn after_register(slots: Map<Seq<char>, Slot>, c: Seq<char>, fresh: u64) -> Map<
    Seq<char>,
    Slot,
> {
    if slots.contains_key(c) {
        slots
    } else {
        slots.insert(c, (fresh, Seq::empty()))
    }
}

/// The bindings after the channel with token `t` gives up client `c`: only
/// a binding that still carries `t` goes.
pub open spec fn after_deregister(slots: Map<Seq<char>, Slot>, c: Seq<char>, t: u64) -> Map<
    Seq<char>,
    Slot,
> {
    if slots.contains_key(c) && slots[c].0 == t {
        slots.remove(c)
    } else {
        slots
    }
}

/// The token bound to `c`, if any.
pub open spec fn bound_token(slots: Map<Seq<char>, Slot>, c: Seq<char>) -> Option<u64> {
    if slots.contains_key(c) {
        Some(slots[c].0)
    } else {
        None
    }
}

/// How an offer's outcome is reported to the producer.
pub open spec fn publish_outcome(o: Offered) -> PublishOutcome {
    match o {
        Offered::Refused => PublishOutcome::BufferFull,
        _ => PublishOutcome::DeliveredToBuffer,
    }
}

/// Which bound clients a broadcast is offered to.
pub enum ClientFilter {
    /// Every bound client.
    All,
    /// The bound clients among those listed.
    AnyOf(Vec<ClientId>),
}

/// Whether filter `f` selects client `c`.
pub open spec fn selects(f: ClientFilter, c: Seq<char>) -> bool {
    match f {
        ClientFilter::All => true,
        ClientFilter::AnyOf(v) => exists|i: int| 0 <= i < v@.len() && v@[i]@ == c,
    }
}

/// Whether `c` is among the clients of `v`.
fn lists(v: &Vec<ClientId>, c: &ClientId) -> (r: bool)
    ensures
        r == exists|i: int| 0 <= i < v@.len() && v@[i]@ == c@,
{
    let mut i: usize = 0;
    while i < v.len()
        invariant
            i <= v@.len(),
            forall|j: int| 0 <= j < i ==> #[trigger] v@[j]@ != c@,
        decreases v@.len() - i,
    {
        if v[i].same(c) {
            assert(v@[i as int]@ == c@);
            return true;
        }
        i = i + 1;
    }
    false
}

impl ClientFilter {
    pub fn admits(&self, c: &ClientId) -> (r: bool)
        ensures
            r == selects(*self, c@),
    {
        match self {
            ClientFilter::All => true,
            ClientFilter::AnyOf(v) => lists(v, c),
        }
    }
}

/// How a broadcast fared: the number of selected clients whose buffer took
/// the message, the number of listed clients with no channel, and the
/// number of selected clients whose full buffer refused the message.
#[derive(Clone, Copy, Debug, PartialEq, Eq, Structural)]
pub struct BroadcastCounts {
    pub accepted: usize,
    pub no_such_client: usize,
    pub dropped: usize,
}

/// How many entries of `ids` name a client with no binding in `slots`.
pub open spec fn unbound_count(ids: Seq<ClientId>, slots: Map<Seq<char>, Slot>) -> nat
    decreases ids.len(),
{
    if ids.len() == 0 {
        0
    } else {
        unbound_count(ids.drop_last(), slots) + if slots.contains_key(ids.last()@) {
            0nat
        } else {
            1nat
        }
    }
}

/// The clients that filter `f` names but that have no binding in `slots`.
pub open spec fn missing(f: ClientFilter, slots: Map<Seq<char>, Slot>) -> nat {
    match f {
        ClientFilter::All => 0,
        ClientFilter::AnyOf(v) => unbound_count(v@, slots),
    }
}

/// Among the clients `ids`, those selected by `f` whose buffer (as in
/// `slots`) refuses an offer, when `refused`, or takes it, otherwise.
pub open spec fn tally(
    f: ClientFilter,
    ids: Seq<Seq<char>>,
    slots: Map<Seq<char>, Slot>,
    cap: nat,
    policy: Backpressure,
    refused: bool,
) -> nat
    decreases ids.len(),
{
    if ids.len() == 0 {
        0
    } else {
        let c = ids.last();
        let counted = selects(f, c) && (offer_outcome(slots[c].1.len(), cap, policy)
            == Offered::Refused) == refused;
        tally(f, ids.drop_last(), slots, cap, policy, refused) + if counted {
            1nat
        } else {
            0nat
        }
    }
}

/// Whether predicate `f` answered true for client `c` and the binding went
/// from `pre` to `pre` with `m` offered, or answered false and the binding
/// stayed `pre`.
pub open spec fn offered_if_chosen<F: Fn(&ClientId) -> bool>(
    f: F,
    c: ClientId,
    pre: Slot,
    post: Slot,
    cap: nat,
    policy: Backpressure,
    m: Notification,
) -> bool {
    ||| f.ensures((&c,), true) && post == (pre.0, offer_queue(pre.1, cap, policy, m))
    ||| f.ensures((&c,), false) && post == pre
}

/// The binding of `c` after a broadcast of `m` through filter `f`.
pub open spec fn after_broadcast(
    f: ClientFilter,
    c: Seq<char>,
    slot: Slot,
    cap: nat,
    policy: Backpressure,
    m: Notification,
) -> Slot {
    if selects(f, c) {
        (slot.0, offer_queue(slot.1, cap, policy, m))
    } else {
        slot
    }
}

struct Binding {
    client: ClientId,
    token: u64,
    buffer: DeliveryBuffer<Notification>,
}

/// The process-wide map from clients to their bound delivery channels.
pub struct Registry {
    bindings: Vec<Binding>,
    slots: Ghost<Map<Seq<char>, Slot>>,
    next_token: u64,
    capacity: usize,
    policy: Backpressure,
}

impl Registry {
    /// Each client's binding: its token and the messages waiting for it.
    pub closed spec fn slots(&self) -> Map<Seq<char>, Slot> {
        self.slots@
    }

    /// The identities of the bound clients, in the order they were admitted.
    pub closed spec fn clients(&self) -> Seq<ClientId> {
        Seq::new(self.bindings@.len(), |i: int| self.bindings@[i].client)
    }

    /// The bound clients, in the order they were admitted.
    pub closed spec fn order(&self) -> Seq<Seq<char>> {
        Seq::new(self.bindings@.len(), |i: int| self.bindings@[i].client@)
    }

    /// The token that the next admitted channel receives.
    pub closed spec fn spec_next_token(&self) -> u64 {
        self.next_token
    }

    pub closed spec fn spec_capacity(&self) -> nat {
        self.capacity as nat
    }

    pub closed spec fn spec_policy(&self) -> Backpressure {
        self.policy
    }

    closed spec fn binding_ok(&self, i: int) -> bool {
        let b = self.bindings@[i];
        &&& self.slots@.contains_key(b.client@)
        &&& self.slots@[b.client@] == (b.token, b.buffer@)
        &&& b.buffer.wf()
        &&& b.buffer.spec_capacity() == self.capacity
        &&& b.buffer.spec_policy() == self.policy
        &&& b.token < self.next_token
    }

    /// Every binding is recorded under its client, once, with a token below
    /// the next one to be handed out and a buffer of the configured shape.
    pub closed spec fn wf(&self) -> bool {
        &&& self.capacity > 0
        &&& forall|i: int| 0 <= i < self.bindings@.len() ==> #[trigger] self.binding_ok(i)
        &&& forall|c: Seq<char>| #[trigger]
            self.slots@.contains_key(c) ==> exists|i: int|
                0 <= i < self.bindings@.len() && #[trigger] self.bindings@[i].client@ == c
        &&& forall|i: int, j: int|
            0 <= i < self.bindings@.len() && 0 <= j < self.bindings@.len() && i != j
                ==> #[trigger] self.bindings@[i].client@ != #[trigger] self.bindings@[j].client@
    }

    /// An empty registry whose buffers hold `capacity` messages each and
    /// apply `policy` when full.
    pub fn new(capacity: usize, policy: Backpressure) -> (r: Self)
        requires
            capacity > 0,
        ensures
            r.wf(),
            r.slots() == Map::<Seq<char>, Slot>::empty(),
            r.order() == Seq::<Seq<char>>::empty(),
            r.spec_next_token() == 0,
            r.spec_capacity() == capacity,
            r.spec_policy() == policy,
    {
        let r = Registry {
            bindings: Vec::new(),
            slots: Ghost(Map::empty()),
            next_token: 0,
            capacity,
            policy,
        };
        assert(r.order() =~= Seq::<Seq<char>>::empty());
        r
    }

    pub fn capacity(&self) -> (r: usize)
        ensures
            r == self.spec_capacity(),
    {
        self.capacity
    }

    pub fn policy(&self) -> (r: Backpressure)
        ensures
            r == self.spec_policy(),
    {
        self.policy
    }

    /// Whether another channel can still be given a token of its own.
    pub fn has_fresh_token(&self) -> (r: bool)
        ensures
            r == (self.spec_next_token() < u64::MAX),
    {
        self.next_token < u64::MAX
    }

    /// The position of the binding of `c`, if there is one.
    fn find(&self, c: &ClientId) -> (r: Option<usize>)
        requires
            self.wf(),
        ensures
            r matches Some(i) ==> i < self.bindings@.len() && self.bindings@[i as int].client@
                == c@,
            r is None ==> !self.slots@.contains_key(c@),
    {
        let mut i: usize = 0;
        while i < self.bindings.len()
            invariant
                i <= self.bindings@.len(),
                forall|j: int| 0 <= j < i ==> #[trigger] self.bindings@[j].client@ != c@,
            decreases self.bindings@.len() - i,
        {
            if self.bindings[i].client.same(c) {
                return Some(i);
            }
            i = i + 1;
        }
        proof {
            if self.slots@.contains_key(c@) {
                let k = choose|k: int|
                    0 <= k < self.bindings@.len() && #[trigger] self.bindings@[k].client@ == c@;
                assert(self.bindings@[k].client@ != c@);
            }
        }
        None
    }

    /// The token of the channel bound to `c`, or nothing.
    pub fn lookup(&self, c: &ClientId) -> (r: Option<u64>)
        requires
            self.wf(),
        ensures
            r == bound_token(self.slots(), c@),
    {
        match self.find(c) {
            Some(i) => {
                assert(self.binding_ok(i as int));
                Some(self.bindings[i].token)
            },
            None => None,
        }
    }

    /// Binds a fresh channel to `c` unless one is bound already. The first
    /// request wins; every later one gets `Conflict` and changes nothing.
    pub fn register(&mut self, c: ClientId) -> (r: RegisterOutcome)
        requires
            old(self).wf(),
            old(self).spec_next_token() < u64::MAX,
        ensures
            final(self).wf(),
            final(self).spec_capacity() == old(self).spec_capacity(),
            final(self).spec_policy() == old(self).spec_policy(),
            final(self).slots() == after_register(
                old(self).slots(),
                c@,
                old(self).spec_next_token(),
            ),
            old(self).slots().contains_key(c@) ==> r == RegisterOutcome::Conflict
                && final(self).spec_next_token() == old(self).spec_next_token(),
            !old(self).slots().contains_key(c@) ==> r == RegisterOutcome::Admitted(
                old(self).spec_next_token(),
            ) && final(self).spec_next_token() == old(self).spec_next_token() + 1,
    {
        match self.find(&c) {
            Some(i) => {
                assert(self.binding_ok(i as int));
                RegisterOutcome::Conflict
            },
            None => {
                let t = self.next_token;
                let ghost key = c@;
                let buffer = DeliveryBuffer::new(self.capacity, self.policy);
                let ghost old_bindings = self.bindings@;
                self.bindings.push(Binding { client: c, token: t, buffer });
                self.slots = Ghost(self.slots@.insert(key, (t, Seq::empty())));
                self.next_token = t + 1;
                proof {
                    let n = old_bindings.len() as int;
                    assert forall|i: int| 0 <= i < self.bindings@.len() implies #[trigger] self.binding_ok(i) by {
                        if i < n {
                            assert(old(self).binding_ok(i));
                            assert(self.bindings@[i] == old_bindings[i]);
                        }
                    }
                    assert forall|k: Seq<char>| #[trigger]
                        self.slots@.contains_key(k) implies exists|i: int|
                            0 <= i < self.bindings@.len() && #[trigger] self.bindings@[i].client@ == k by {
                        if k == key {
                            assert(self.bindings@[n].client@ == k);
                        } else {
                            let i = choose|i: int|
                                0 <= i < old_bindings.len() && #[trigger] old_bindings[i].client@ == k;
                            assert(self.bindings@[i] == old_bindings[i]);
                        }
                    }
                    assert forall|i: int, j: int|
                        0 <= i < self.bindings@.len() && 0 <= j < self.bindings@.len() && i != j
                        implies #[trigger] self.bindings@[i].client@ != #[trigger] self.bindings@[j].client@ by {
                        if i < n && j < n {
                            assert(self.bindings@[i] == old_bindings[i]);
                            assert(self.bindings@[j] == old_bindings[j]);
                        } else if i < n {
                            assert(old(self).binding_ok(i));
                            assert(self.bindings@[i] == old_bindings[i]);
                        } else {
                            assert(old(self).binding_ok(j));
                            assert(self.bindings@[j] == old_bindings[j]);
                        }
                    }
                }
                RegisterOutcome::Admitted(t)
            },
        }
    }

    /// After the binding at `i` got a new buffer (same client, same token,
    /// same shape), the registry is still well formed.
    proof fn lemma_replaced_buffer(pre: &Registry, post: &Registry, i: int)
        requires
            pre.wf(),
            0 <= i < pre.bindings@.len(),
            post.bindings@.len() == pre.bindings@.len(),
            forall|j: int| 0 <= j < pre.bindings@.len() && j != i ==> post.bindings@[j] == pre.bindings@[j],
            post.bindings@[i].client@ == pre.bindings@[i].client@,
            post.bindings@[i].token == pre.bindings@[i].token,
            post.bindings@[i].buffer.wf(),
            post.bindings@[i].buffer.spec_capacity() == pre.capacity,
            post.bindings@[i].buffer.spec_policy() == pre.policy,
            post.slots@ == pre.slots@.insert(
                pre.bindings@[i].client@,
                (pre.bindings@[i].token, post.bindings@[i].buffer@),
            ),
            post.next_token == pre.next_token,
            post.capacity == pre.capacity,
            post.policy == pre.policy,
        ensures
            post.wf(),
            post.order() == pre.order(),
    {
        let key = pre.bindings@[i].client@;
        assert(pre.binding_ok(i));
        assert forall|j: int| 0 <= j < post.bindings@.len() implies #[trigger] post.binding_ok(j) by {
            if j != i {
                assert(pre.binding_ok(j));
                assert(pre.bindings@[j].client@ != key);
            }
        }
        assert forall|k: Seq<char>| #[trigger]
            post.slots@.contains_key(k) implies exists|j: int|
                0 <= j < post.bindings@.len() && #[trigger] post.bindings@[j].client@ == k by {
            if k == key {
                assert(post.bindings@[i].client@ == k);
            } else {
                let j = choose|j: int|
                    0 <= j < pre.bindings@.len() && #[trigger] pre.bindings@[j].client@ == k;
                assert(post.bindings@[j].client@ == k);
            }
        }
        assert forall|a: int, b: int|
            0 <= a < post.bindings@.len() && 0 <= b < post.bindings@.len() && a != b
            implies #[trigger] post.bindings@[a].client@ != #[trigger] post.bindings@[b].client@ by {
            assert(pre.bindings@[a].client@ != pre.bindings@[b].client@);
        }
        assert(post.order() =~= pre.order());
    }

    /// Unbinds `c` if, and only if, the binding still carries `token`. A
    /// binding that has since replaced it stays; either way nothing is
    /// reported.
    pub fn deregister(&mut self, c: &ClientId, token: u64)
        requires
            old(self).wf(),
        ensures
            final(self).wf(),
            final(self).spec_capacity() == old(self).spec_capacity(),
            final(self).spec_policy() == old(self).spec_policy(),
            final(self).spec_next_token() == old(self).spec_next_token(),
            final(self).slots() == after_deregister(old(self).slots(), c@, token),
    {
        match self.find(c) {
            Some(i) => {
                assert(self.binding_ok(i as int));
                if self.bindings[i].token == token {
                    let ghost old_bindings = self.bindings@;
                    let _ = self.bindings.remove(i);
                    self.slots = Ghost(self.slots@.remove(c@));
                    proof {
                        let ii = i as int;
                        assert forall|j: int| 0 <= j < self.bindings@.len() implies #[trigger] self.binding_ok(j) by {
                            let oj = if j < ii { j } else { j + 1 };
                            assert(self.bindings@[j] == old_bindings[oj]);
                            assert(old(self).binding_ok(oj));
                            assert(old_bindings[oj].client@ != old_bindings[ii].client@);
                        }
                        assert forall|k: Seq<char>| #[trigger]
                            self.slots@.contains_key(k) implies exists|j: int|
                                0 <= j < self.bindings@.len() && #[trigger] self.bindings@[j].client@ == k by {
                            let oj = choose|oj: int|
                                0 <= oj < old_bindings.len() && #[trigger] old_bindings[oj].client@ == k;
                            assert(oj != ii);
                            let j = if oj < ii { oj } else { oj - 1 };
                            assert(self.bindings@[j] == old_bindings[oj]);
                        }
                        assert forall|a: int, b: int|
                            0 <= a < self.bindings@.len() && 0 <= b < self.bindings@.len() && a != b
                            implies #[trigger] self.bindings@[a].client@ != #[trigger] self.bindings@[b].client@ by {
                            let oa = if a < ii { a } else { a + 1 };
                            let ob = if b < ii { b } else { b + 1 };
                            assert(self.bindings@[a] == old_bindings[oa]);
                            assert(self.bindings@[b] == old_bindings[ob]);
                            assert(old_bindings[oa].client@ != old_bindings[ob].client@);
                        }
                    }
                }
            },
            None => {},
        }
    }

    /// Queues `m` for the channel bound to `c`, under the registry's
    /// backpressure policy.
    pub fn publish(&mut self, c: &ClientId, m: Notification) -> (r: PublishOutcome)
        requires
            old(self).wf(),
        ensures
            final(self).wf(),
            final(self).spec_capacity() == old(self).spec_capacity(),
            final(self).spec_policy() == old(self).spec_policy(),
            final(self).spec_next_token() == old(self).spec_next_token(),
            final(self).order() == old(self).order(),
            !old(self).slots().contains_key(c@) ==> r == PublishOutcome::NoSuchClient
                && final(self).slots() == old(self).slots(),
            old(self).slots().contains_key(c@) ==> {
                let (t, q) = old(self).slots()[c@];
                &&& final(self).slots() == old(self).slots().insert(
                    c@,
                    (t, offer_queue(q, old(self).spec_capacity(), old(self).spec_policy(), m)),
                )
                &&& r == publish_outcome(
                    offer_outcome(q.len(), old(self).spec_capacity(), old(self).spec_policy()),
                )
            },
    {
        match self.find(c) {
            Some(i) => {
                assert(self.binding_ok(i as int));
                let mut b = self.bindings.remove(i);
                let offered = b.buffer.offer(m);
                let ghost q = b.buffer@;
                let ghost t = b.token;
                self.bindings.insert(i, b);
                self.slots = Ghost(self.slots@.insert(c@, (t, q)));
                proof {
                    Registry::lemma_replaced_buffer(old(self), self, i as int);
                }
                match offered {
                    Offered::Refused => PublishOutcome::BufferFull,
                    _ => PublishOutcome::DeliveredToBuffer,
                }
            },
            None => PublishOutcome::NoSuchClient,
        }
    }

    /// Hands the forwarding loop of binding `token` the oldest message
    /// queued for `c`. A loop whose binding is gone learns so.
    pub fn take_next(&mut self, c: &ClientId, token: u64) -> (r: Dequeued)
        requires
            old(self).wf(),
        ensures
            final(self).wf(),
            final(self).spec_capacity() == old(self).spec_capacity(),
            final(self).spec_policy() == old(self).spec_policy(),
            final(self).spec_next_token() == old(self).spec_next_token(),
            final(self).order() == old(self).order(),
            bound_token(old(self).slots(), c@) != Some(token) ==> r is Unbound
                && final(self).slots() == old(self).slots(),
            bound_token(old(self).slots(), c@) == Some(token) ==> {
                let q = old(self).slots()[c@].1;
                &&& q.len() == 0 ==> r is Idle && final(self).slots() == old(self).slots()
                &&& q.len() > 0 ==> r == Dequeued::Message(q[0]) && final(self).slots()
                    == old(self).slots().insert(c@, (token, q.drop_first()))
            },
    {
        match self.find(c) {
            Some(i) => {
                assert(self.binding_ok(i as int));
                if self.bindings[i].token != token {
                    return Dequeued::Unbound;
                }
                let mut b = self.bindings.remove(i);
                let next = b.buffer.take();
                let ghost q = b.buffer@;
                self.bindings.insert(i, b);
                self.slots = Ghost(self.slots@.insert(c@, (token, q)));
                proof {
                    Registry::lemma_replaced_buffer(old(self), self, i as int);
                    if old(self).slots@[c@].1.len() == 0 {
                        assert(self.slots@ =~= old(self).slots@);
                    }
                }
                match next {
                    Some(m) => Dequeued::Message(m),
                    None => Dequeued::Idle,
                }
            },
            None => Dequeued::Unbound,
        }
    }

    /// Offers `m` to the buffer of every bound client that `f` selects, and
    /// to no other. Clients are not added or removed.
    pub fn broadcast(&mut self, f: &ClientFilter, m: &Notification) -> (r: BroadcastCounts)
        requires
            old(self).wf(),
        ensures
            final(self).wf(),
            final(self).spec_capacity() == old(self).spec_capacity(),
            final(self).spec_policy() == old(self).spec_policy(),
            final(self).spec_next_token() == old(self).spec_next_token(),
            final(self).order() == old(self).order(),
            final(self).slots().dom() == old(self).slots().dom(),
            forall|c: Seq<char>| #[trigger]
                old(self).slots().contains_key(c) ==> final(self).slots()[c] == after_broadcast(
                    *f,
                    c,
                    old(self).slots()[c],
                    old(self).spec_capacity(),
                    old(self).spec_policy(),
                    *m,
                ),
            r.accepted == tally(
                *f,
                old(self).order(),
                old(self).slots(),
                old(self).spec_capacity(),
                old(self).spec_policy(),
                false,
            ),
            r.dropped == tally(
                *f,
                old(self).order(),
                old(self).slots(),
                old(self).spec_capacity(),
                old(self).spec_policy(),
                true,
            ),
            r.no_such_client == missing(*f, old(self).slots()),
    {
        let no_such_client = self.count_unbound(f);
        let ghost pre_slots = self.slots@;
        let ghost ids = self.order();
        let ghost cap = self.capacity as nat;
        let ghost policy = self.policy;
        let mut accepted: usize = 0;
        let mut dropped: usize = 0;
        let mut i: usize = 0;
        while i < self.bindings.len()
            invariant
                self.wf(),
                self.order() == ids,
                self.capacity == cap,
                self.policy == policy,
                self.next_token == old(self).next_token,
                i <= ids.len(),
                self.slots@.dom() == pre_slots.dom(),
                forall|j: int|
                    0 <= j < ids.len() ==> #[trigger] self.slots@[ids[j]] == if j < i {
                        after_broadcast(*f, ids[j], pre_slots[ids[j]], cap, policy, *m)
                    } else {
                        pre_slots[ids[j]]
                    },
                accepted <= i,
                dropped <= i,
                accepted == tally(*f, ids.subrange(0, i as int), pre_slots, cap, policy, false),
                dropped == tally(*f, ids.subrange(0, i as int), pre_slots, cap, policy, true),
            decreases ids.len() - i,
        {
            let ghost before = *self;
            let ghost key = ids[i as int];
            assert(self.binding_ok(i as int));
            assert(self.bindings@[i as int].client@ == key);
            assert(ids.subrange(0, i + 1).drop_last() =~= ids.subrange(0, i as int));
            if f.admits(&self.bindings[i].client) {
                let mut b = self.bindings.remove(i);
                let offered = b.buffer.offer(m.duplicate());
                let ghost q = b.buffer@;
                let ghost t = b.token;
                self.bindings.insert(i, b);
                self.slots = Ghost(self.slots@.insert(key, (t, q)));
                proof {
                    Registry::lemma_replaced_buffer(&before, self, i as int);
                    assert forall|j: int| 0 <= j < ids.len() && j != i implies ids[j] != key by {
                        assert(before.bindings@[j].client@ != before.bindings@[i as int].client@);
                    }
                    assert(self.slots@.dom() =~= pre_slots.dom());
                }
                match offered {
                    Offered::Refused => {
                        dropped = dropped + 1;
                    },
                    _ => {
                        accepted = accepted + 1;
                    },
                }
            }
            i = i + 1;
        }
        proof {
            assert(ids.subrange(0, ids.len() as int) =~= ids);
            assert forall|c: Seq<char>| #[trigger] pre_slots.contains_key(c) implies self.slots@[c]
                == after_broadcast(*f, c, pre_slots[c], cap, policy, *m) by {
                let j = choose|j: int|
                    0 <= j < old(self).bindings@.len() && #[trigger] old(self).bindings@[j].client@ == c;
                assert(ids[j] == c);
            }
        }
        BroadcastCounts { accepted, no_such_client, dropped }
    }

    /// How many clients that `f` names have no binding.
    fn count_unbound(&self, f: &ClientFilter) -> (r: usize)
        requires
            self.wf(),
        ensures
            r == missing(*f, self.slots()),
    {
        match f {
            ClientFilter::All => 0,
            ClientFilter::AnyOf(v) => {
                let mut n: usize = 0;
                let mut i: usize = 0;
                while i < v.len()
                    invariant
                        self.wf(),
                        i <= v@.len(),
                        n <= i,
                        n == unbound_count(v@.subrange(0, i as int), self.slots@),
                    decreases v@.len() - i,
                {
                    assert(v@.subrange(0, i + 1).drop_last() =~= v@.subrange(0, i as int));
                    match self.find(&v[i]) {
                        None => {
                            n = n + 1;
                        },
                        Some(j) => {
                            assert(self.binding_ok(j as int));
                        },
                    }
                    i = i + 1;
                }
                assert(v@.subrange(0, v@.len() as int) =~= v@);
                n
            },
        }
    
    }

    /// Offers `m` to the buffer of every bound client for which the
    /// predicate `f` answers true, and to no other; `f` is asked once per
    /// bound client. Clients are not added or removed.
    pub fn broadcast_where<F: Fn(&ClientId) -> bool>(&mut self, f: &F, m: &Notification) -> (r:
        BroadcastCounts)
        requires
            old(self).wf(),
            forall|c: &ClientId| f.requires((c,)),
        ensures
            final(self).wf(),
            final(self).spec_capacity() == old(self).spec_capacity(),
            final(self).spec_policy() == old(self).spec_policy(),
            final(self).spec_next_token() == old(self).spec_next_token(),
            final(self).order() == old(self).order(),
            final(self).clients() == old(self).clients(),
            final(self).slots().dom() == old(self).slots().dom(),
            forall|i: int|
                0 <= i < old(self).clients().len() ==> offered_if_chosen(
                    *f,
                    #[trigger] old(self).clients()[i],
                    old(self).slots()[old(self).clients()[i]@],
                    final(self).slots()[old(self).clients()[i]@],
                    old(self).spec_capacity(),
                    old(self).spec_policy(),
                    *m,
                ),
            r.no_such_client == 0,
            r.accepted + r.dropped <= old(self).clients().len(),
    {
        let ghost pre_slots = self.slots@;
        let ghost ids = self.order();
        let ghost cs = self.clients();
        let ghost cap = self.capacity as nat;
        let ghost policy = self.policy;
        let mut accepted: usize = 0;
        let mut dropped: usize = 0;
        let mut i: usize = 0;
        while i < self.bindings.len()
            invariant
                self.wf(),
                self.order() == ids,
                self.clients() == cs,
                cs.len() == ids.len(),
                forall|j: int| 0 <= j < cs.len() ==> #[trigger] cs[j]@ == ids[j],
                self.capacity == cap,
                self.policy == policy,
                self.next_token == old(self).next_token,
                i <= ids.len(),
                self.slots@.dom() == pre_slots.dom(),
                forall|c: &ClientId| f.requires((c,)),
                forall|j: int|
                    0 <= j < i ==> offered_if_chosen(
                        *f,
                        #[trigger] cs[j],
                        pre_slots[ids[j]],
                        self.slots@[ids[j]],
                        cap,
                        policy,
                        *m,
                    ),
                forall|j: int| i <= j < ids.len() ==> #[trigger] self.slots@[ids[j]] == pre_slots[ids[j]],
                accepted + dropped <= i,
            decreases ids.len() - i,
        {
            let ghost before = *self;
            let ghost key = ids[i as int];
            assert(self.binding_ok(i as int));
            assert(cs[i as int] == self.bindings@[i as int].client);
            assert(cs[i as int]@ == key);
            let chosen = f(&self.bindings[i].client);
            if chosen {
                let mut b = self.bindings.remove(i);
                let offered = b.buffer.offer(m.duplicate());
                let ghost q = b.buffer@;
                let ghost t = b.token;
                self.bindings.insert(i, b);
                self.slots = Ghost(self.slots@.insert(key, (t, q)));
                proof {
                    Registry::lemma_replaced_buffer(&before, self, i as int);
                    assert forall|j: int| 0 <= j < ids.len() && j != i implies ids[j] != key by {
                        assert(before.bindings@[j].client@ != before.bindings@[i as int].client@);
                    }
                    assert(self.slots@.dom() =~= pre_slots.dom());
                    assert(self.clients() =~= before.clients());
                }
                match offered {
                    Offered::Refused => {
                        dropped = dropped + 1;
                    },
                    _ => {
                        accepted = accepted + 1;
                    },
                }
            }
            assert(offered_if_chosen(*f, cs[i as int], pre_slots[key], self.slots@[key], cap, policy, *m));
            i = i + 1;
        }
        BroadcastCounts { accepted, no_such_client: 0, dropped }
    }
}

} // verus!
