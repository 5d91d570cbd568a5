//! Decisions of the forwarding loop that drains one client's buffer onto
//! its socket. The loop itself (waiting, writing, closing) is driven by the
//! caller, which performs each action and reports each event.

use crate::notification::{encode_frame, frame_text, is_json_document, json_quoted, Notification};
use vstd::prelude::*;

verus! {

/// Where a forwarding loop is in its life.
#[derive(Clone, Copy, Debug, PartialEq, Eq, Structural)]
pub enum LoopState {
    /// Delivering messages.
    Running,
    /// Leaving: the binding must still be released.
    Draining,
    /// Done: the binding is released.
    Terminated,
}

/// What the loop observed.
#[derive(Debug)]
pub enum LoopEvent {
    /// A message was taken from the buffer.
    Dequeued(Notification),
    /// The client sent a data frame; such frames carry no meaning.
    InboundData,
    /// Writing to the socket failed.
    WriteFailed,
    /// The buffer was closed: nothing more will be published.
    BufferClosed,
    /// The client closed the socket.
    PeerClosed,
    /// The loop was asked to stop.
    Cancelled,
    /// The client failed its liveness probes.
    IdleTimeout,
}

/// What the loop must do next.
#[derive(Debug)]
pub enum LoopAction {
    /// Write this text frame to the socket.
    Send(String),
    /// The message could not be serialised: drop it and go on.
    DropMessage,
    /// Nothing to do.
    Nothing,
    /// Close the socket, then leave the loop.
    CloseSocket,
    /// Leave the loop.
    Exit,
    /// Release the binding from the registry.
    Deregister,
}

/// A transition: the next state and the action to perform.
#[derive(Debug)]
pub struct Step {
    pub next: LoopState,
    pub action: LoopAction,
}

/// The state after `e` in state `s`; `Running` is only ever left.
pub open spec fn next_state(s: LoopState, e: LoopEvent) -> LoopState {
    if s != LoopState::Running {
        s
    } else {
        match e {
            LoopEvent::Dequeued(_) | LoopEvent::InboundData => LoopState::Running,
            _ => LoopState::Draining,
        }
    }
}

/// Decides what the loop does on event `e` in state `s`. A running loop
/// serialises and sends each dequeued message, drops one that cannot be
/// serialised, closes the socket when the write failed or the buffer was
/// closed, and leaves on a peer close, a cancellation or an idle timeout.
/// A loop that is no longer running ignores events.
pub fn forward_step(s: LoopState, e: LoopEvent) -> (r: Step)
    ensures
        r.next == next_state(s, e),
        s != LoopState::Running ==> r.action is Nothing,
        s == LoopState::Running ==> match e {
            LoopEvent::Dequeued(n) => {
                &&& r.action is Send || r.action is DropMessage
                &&& r.action matches LoopAction::Send(f) ==> f@ == frame_text(
                    json_quoted(n.kind@),
                    n.payload@,
                )
                &&& is_json_document(n.payload@) ==> r.action is Send
                &&& !is_json_document(n.payload@) ==> r.action is DropMessage
            },
            LoopEvent::InboundData => r.action is Nothing,
            LoopEvent::WriteFailed | LoopEvent::BufferClosed => r.action is CloseSocket,
            LoopEvent::PeerClosed | LoopEvent::Cancelled | LoopEvent::IdleTimeout => r.action is Exit,
        },
{
    if s != LoopState::Running {
        return Step { next: s, action: LoopAction::Nothing };
    }
    match e {
        LoopEvent::Dequeued(n) => {
            let action = match encode_frame(&n) {
                Some(f) => LoopAction::Send(f),
                None => LoopAction::DropMessage,
            };
            Step { next: LoopState::Running, action }
        },
        LoopEvent::InboundData => Step { next: LoopState::Running, action: LoopAction::Nothing },
        LoopEvent::WriteFailed => Step { next: LoopState::Draining, action: LoopAction::CloseSocket },
        LoopEvent::BufferClosed => Step { next: LoopState::Draining, action: LoopAction::CloseSocket },
        LoopEvent::PeerClosed => Step { next: LoopState::Draining, action: LoopAction::Exit },
        LoopEvent::Cancelled => Step { next: LoopState::Draining, action: LoopAction::Exit },
        LoopEvent::IdleTimeout => Step { next: LoopState::Draining, action: LoopAction::Exit },
    }
}

/// Completes a loop that has left `Running`: a draining loop releases its
/// binding and terminates. Any other state is left as it is.
pub fn finish(s: LoopState) -> (r: Step)
    ensures
        s == LoopState::Draining ==> r.next == LoopState::Terminated && r.action is Deregister,
        s != LoopState::Draining ==> r.next == s && r.action is Nothing,
{
    match s {
        LoopState::Draining => Step { next: LoopState::Terminated, action: LoopAction::Deregister },
        _ => Step { next: s, action: LoopAction::Nothing },
    }
}

} // verus!
