//! Laws of the notifier registry, stated over the bindings that
//! `Registry::slots` exposes and proved for every sequence of requests.

use crate::registry::{after_deregister, after_register, bound_token, Slot};
use vstd::prelude::*;

verus! {

/// The bindings after requests to bind channels with the tokens `tokens`,
/// in order, to client `c`.
pub open spec fn register_run(slots: Map<Seq<char>, Slot>, c: Seq<char>, tokens: Seq<u64>) -> Map<
    Seq<char>,
    Slot,
>
    decreases tokens.len(),
{
    if tokens.len() == 0 {
        slots
    } else {
        after_register(register_run(slots, c, tokens.drop_last()), c, tokens.last())
    }
}

/// How many of those requests were admitted: each one that found `c` unbound.
pub open spec fn admissions(slots: Map<Seq<char>, Slot>, c: Seq<char>, tokens: Seq<u64>) -> nat
    decreases tokens.len(),
{
    if tokens.len() == 0 {
        0
    } else {
        admissions(slots, c, tokens.drop_last()) + if register_run(
            slots,
            c,
            tokens.drop_last(),
        ).contains_key(c) {
            0nat
        } else {
            1nat
        }
    }
}

/// Of any number of requests to bind a channel to one client, at most one
/// is admitted: exactly one, the first, when the client was unbound, and
/// none when it was bound already. The binding that results is the first
/// request's, or the one that was there.
pub proof fn lemma_single_owner(slots: Map<Seq<char>, Slot>, c: Seq<char>, tokens: Seq<u64>)
    requires
        tokens.len() > 0,
    ensures
        admissions(slots, c, tokens) == if slots.contains_key(c) {
            0nat
        } else {
            1nat
        },
        register_run(slots, c, tokens).contains_key(c),
        register_run(slots, c, tokens)[c] == if slots.contains_key(c) {
            slots[c]
        } else {
            (tokens[0], Seq::<crate::notification::Notification>::empty())
        },
    decreases tokens.len(),
{
    let prev = tokens.drop_last();
    if tokens.len() > 1 {
        lemma_single_owner(slots, c, prev);
        assert(prev[0] == tokens[0]);
    } else {
        assert(prev.len() == 0);
        assert(register_run(slots, c, prev) == slots);
        assert(admissions(slots, c, prev) == 0);
        assert(tokens.last() == tokens[0]);
    }
}

/// A request that changes the bindings.
pub enum RegistryOp {
    /// A channel with the given token asks to be bound to the client.
    Register(Seq<char>, u64),
    /// The channel with the given token gives up the client.
    Deregister(Seq<char>, u64),
}

pub open spec fn apply(slots: Map<Seq<char>, Slot>, op: RegistryOp) -> Map<Seq<char>, Slot> {
    match op {
        RegistryOp::Register(c, t) => after_register(slots, c, t),
        RegistryOp::Deregister(c, t) => after_deregister(slots, c, t),
    }
}

pub open spec fn apply_all(slots: Map<Seq<char>, Slot>, ops: Seq<RegistryOp>) -> Map<
    Seq<char>,
    Slot,
>
    decreases ops.len(),
{
    if ops.len() == 0 {
        slots
    } else {
        apply(apply_all(slots, ops.drop_last()), ops.last())
    }
}

/// Whether some request among `ops` bound a new channel to `c`.
pub open spec fn rebound(slots: Map<Seq<char>, Slot>, c: Seq<char>, ops: Seq<RegistryOp>) -> bool
    decreases ops.len(),
{
    if ops.len() == 0 {
        false
    } else {
        rebound(slots, c, ops.drop_last()) || match ops.last() {
            RegistryOp::Register(d, _) => d == c && !apply_all(slots, ops.drop_last()).contains_key(
                c,
            ),
            RegistryOp::Deregister(_, _) => false,
        }
    }
}

proof fn lemma_own_or_absent(slots: Map<Seq<char>, Slot>, c: Seq<char>, t: u64, ops: Seq<RegistryOp>)
    requires
        slots.contains_key(c),
        slots[c].0 == t,
        !rebound(slots, c, ops),
    ensures
        apply_all(slots, ops).contains_key(c) ==> apply_all(slots, ops)[c].0 == t,
    decreases ops.len(),
{
    if ops.len() > 0 {
        lemma_own_or_absent(slots, c, t, ops.drop_last());
    }
}

/// Once the forwarding loop of the binding `t` of client `c` has given the
/// client up, whatever requests came in between, the client is unbound
/// unless one of those requests bound a new channel to it.
pub proof fn lemma_no_orphans(slots: Map<Seq<char>, Slot>, c: Seq<char>, t: u64, ops: Seq<RegistryOp>)
    requires
        slots.contains_key(c),
        slots[c].0 == t,
    ensures
        bound_token(apply_all(slots, ops.push(RegistryOp::Deregister(c, t))), c) is Some
            ==> rebound(slots, c, ops),
{
    let all = ops.push(RegistryOp::Deregister(c, t));
    assert(all.drop_last() =~= ops);
    if !rebound(slots, c, ops) {
        lemma_own_or_absent(slots, c, t, ops);
    }
}

/// Binding a channel to an unbound client and then giving it up with the
/// token it received restores the bindings as they were.
pub proof fn lemma_register_round_trip(slots: Map<Seq<char>, Slot>, c: Seq<char>, t: u64)
    requires
        !slots.contains_key(c),
    ensures
        after_deregister(after_register(slots, c, t), c, t) == slots,
{
    assert(after_deregister(after_register(slots, c, t), c, t) =~= slots);
}

/// Giving up a client with a token that is not the one bound to it, or when
/// it is unbound, changes nothing.
pub proof fn lemma_stale_deregister(slots: Map<Seq<char>, Slot>, c: Seq<char>, t: u64)
    requires
        bound_token(slots, c) != Some(t),
    ensures
        after_deregister(slots, c, t) == slots,
{
}

/// A conflicting request to bind a channel leaves every binding as it was,
/// so a producer sees the old channel whether it comes before or after the
/// request; an admitted request shows the new channel. No third state is
/// ever visible.
pub proof fn lemma_publish_sees_old_or_new(slots: Map<Seq<char>, Slot>, c: Seq<char>, t: u64)
    ensures
        slots.contains_key(c) ==> after_register(slots, c, t) == slots,
        bound_token(after_register(slots, c, t), c) == Some(t) || bound_token(after_register(slots, c, t), c)
            == bound_token(slots, c),
{
}

} // verus!
