//! The transports over which the server pushes notifications.

use vstd::prelude::*;

verus! {

/// Which push transports are supported, by name.
#[derive(Clone, Copy, Debug, PartialEq, Eq, Structural)]
pub struct NotifiersResponse {
    pub websocket: bool,
}

/// The advertised transports: the WebSocket channel, and nothing else.
pub fn notifier_get() -> (r: NotifiersResponse)
    ensures
        r.websocket,
{
    NotifiersResponse { websocket: true }
}

} // verus!
