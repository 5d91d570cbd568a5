//! Admission of a notifier channel: who may open one, and the errors a
//! refused request gets.

use crate::client::ClientId;
use crate::registry::{after_register, Registry};
use vstd::prelude::*;
use vstd::string::StringExecFns;

verus! {

/// What authentication established about the requester.
#[derive(Debug)]
pub enum Identity {
    /// No valid session was presented.
    Anonymous,
    /// The session carries no client identity.
    NoClient,
    /// An authenticated client.
    Client(ClientId),
}

/// Why a channel was not opened.
#[derive(Clone, Copy, Debug, PartialEq, Eq, Structural)]
pub enum UpgradeError {
    Unauthorized,
    Forbidden,
    Conflict,
}

impl UpgradeError {
    /// The HTTP status the error is answered with.
    pub fn status(&self) -> (r: u16)
        ensures
            *self == UpgradeError::Unauthorized ==> r == 401,
            *self == UpgradeError::Forbidden ==> r == 403,
            *self == UpgradeError::Conflict ==> r == 409,
    {
        match self {
            UpgradeError::Unauthorized => 401,
            UpgradeError::Forbidden => 403,
            UpgradeError::Conflict => 409,
        }
    }

    /// The machine-readable code of the problem document.
    pub fn code(&self) -> (r: String)
        ensures
            *self == UpgradeError::Unauthorized ==> r@ == "unauthorized"@,
            *self == UpgradeError::Forbidden ==> r@ == "forbidden"@,
            *self == UpgradeError::Conflict ==> r@ == "notifier_channel_conflict"@,
    {
        match self {
            UpgradeError::Unauthorized => String::from_str("unauthorized"),
            UpgradeError::Forbidden => String::from_str("forbidden"),
            UpgradeError::Conflict => String::from_str("notifier_channel_conflict"),
        }
    }

    /// The human-readable message of the problem document.
    pub fn message(&self) -> (r: String)
        ensures
            *self == UpgradeError::Unauthorized ==> r@ == "no valid session presented"@,
            *self == UpgradeError::Forbidden ==> r@ == "session carries no client identity"@,
            *self == UpgradeError::Conflict ==> r@ == "notifier channel already open for this client"@,
    {
        match self {
            UpgradeError::Unauthorized => String::from_str("no valid session presented"),
            UpgradeError::Forbidden => String::from_str("session carries no client identity"),
            UpgradeError::Conflict => String::from_str(
                "notifier channel already open for this client",
            ),
        }
    }
}

/// Reserves the registry slot for a channel of the requester, before the
/// transport is upgraded. Anonymous requests are unauthorized, sessions
/// without a client are forbidden, and a client with a channel already
/// bound gets a conflict; none of those changes the registry. Otherwise the
/// client is bound and the token of its binding is returned: the caller
/// must give it up again if the upgrade then fails. Only that last case
/// needs a token to be left.
pub fn reserve_channel(reg: &mut Registry, who: Identity) -> (r: Result<(ClientId, u64), UpgradeError>)
    requires
        old(reg).wf(),
        (who matches Identity::Client(c) && !old(reg).slots().contains_key(c@)) ==> old(
            reg,
        ).spec_next_token() < u64::MAX,
    ensures
        final(reg).wf(),
        final(reg).spec_capacity() == old(reg).spec_capacity(),
        final(reg).spec_policy() == old(reg).spec_policy(),
        match who {
            Identity::Anonymous => r == Err::<(ClientId, u64), UpgradeError>(UpgradeError::Unauthorized)
                && final(reg).slots() == old(reg).slots(),
            Identity::NoClient => r == Err::<(ClientId, u64), UpgradeError>(UpgradeError::Forbidden)
                && final(reg).slots() == old(reg).slots(),
            Identity::Client(c) => {
                &&& final(reg).slots() == after_register(old(reg).slots(), c@, old(reg).spec_next_token())
                &&& old(reg).slots().contains_key(c@) ==> r == Err::<(ClientId, u64), UpgradeError>(
                    UpgradeError::Conflict,
                )
                &&& !old(reg).slots().contains_key(c@) ==> (r matches Ok((d, t)) && d@ == c@ && t
                    == old(reg).spec_next_token())
            },
        },
{
    match who {
        Identity::Anonymous => Err(UpgradeError::Unauthorized),
        Identity::NoClient => Err(UpgradeError::Forbidden),
        Identity::Client(c) => {
            let kept = c.copy();
            if reg.lookup(&kept).is_some() {
                return Err(UpgradeError::Conflict);
            }
            match reg.register(c) {
                crate::registry::RegisterOutcome::Admitted(t) => Ok((kept, t)),
                crate::registry::RegisterOutcome::Conflict => Err(UpgradeError::Conflict),
            }
        },
    }
}

} // verus!
