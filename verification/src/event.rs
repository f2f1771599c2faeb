//! The typed events exchanged between clients and the server.

use vstd::prelude::*;

verus! {

/// A typed message exchanged over the wire protocol.
///
/// `RequestJoin`, `Leave` and `MessageSend` are client-originated requests;
/// `Joined`, `Left` and `MessageReceived` are server-originated
/// announcements broadcast to every registered user.
pub enum Event {
    /// Client requests or changes its display name.
    RequestJoin(String),
    /// Client requests a graceful disconnect.
    Leave(),
    /// Client sends a chat line.
    MessageSend(String),
    /// Server to all: a user joined or renamed, with its display label.
    Joined(String),
    /// Server to all: a user left, with its final display label.
    Left(String),
    /// Server to all: relay of a chat line, with the sender's display label.
    MessageReceived(String, String),
}

impl Event {
    /// Whether this event is one of the client-originated request kinds,
    /// which are the only events a connection may hand to the dispatcher.
    pub open spec fn spec_is_client_request(self) -> bool {
        match self {
            Event::RequestJoin(_) => true,
            Event::Leave() => true,
            Event::MessageSend(_) => true,
            _ => false,
        }
    }

    /// Runtime check matching `spec_is_client_request`, so that callers
    /// outside the library can test an event before dispatching it.
    pub fn is_client_request(&self) -> (r: bool)
        ensures
            r == self.spec_is_client_request(),
    {
        match self {
            Event::RequestJoin(_) => true,
            Event::Leave() => true,
            Event::MessageSend(_) => true,
            _ => false,
        }
    }

    /// A structurally equal copy of this event, used when one event is
    /// delivered to many recipients' queues.
    pub fn duplicate(&self) -> (r: Event)
        ensures
            r == *self,
    {
        match self {
            Event::RequestJoin(name) => Event::RequestJoin(name.clone()),
            Event::Leave() => Event::Leave(),
            Event::MessageSend(text) => Event::MessageSend(text.clone()),
            Event::Joined(label) => Event::Joined(label.clone()),
            Event::Left(label) => Event::Left(label.clone()),
            Event::MessageReceived(label, text) => Event::MessageReceived(
                label.clone(),
                text.clone(),
            ),
        }
    }
}

} // verus!
