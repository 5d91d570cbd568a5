//! The authenticated identity that a notifier channel is bound to.

use vstd::prelude::*;
use vstd::string::StringExecFns;

verus! {

/// An opaque client identity, compared by its characters.
#[derive(Debug)]
pub struct ClientId {
    id: String,
}

impl View for ClientId {
    type V = Seq<char>;

    closed spec fn view(&self) -> Seq<char> {
        self.id@
    }
}

impl ClientId {
    pub fn new(id: String) -> (r: Self)
        ensures
            r@ == id@,
    {
        ClientId { id }
    }

    pub fn from_text(id: &str) -> (r: Self)
        ensures
            r@ == id@,
    {
        ClientId { id: String::from_str(id) }
    }

    pub fn as_str(&self) -> (r: &str)
        ensures
            r@ == self@,
    {
        self.id.as_str()
    }

    /// Whether both name the same client.
    pub fn same(&self, other: &ClientId) -> (r: bool)
        ensures
            r == (self@ == other@),
    {
        self.id == other.id
    }

    /// A copy with the same characters.
    pub fn copy(&self) -> (r: ClientId)
        ensures
            r@ == self@,
    {
        ClientId { id: self.id.clone() }
    }
}

} // verus!
