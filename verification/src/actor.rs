//! Per-connection event dispatch: what a connection's actor does with each
//! decoded client event.
//!
//! The surrounding runtime owns the stream and the scheduling; it decodes a
//! client event, calls [`Session::handle_event`], performs the announced
//! deliveries that could not complete (`undelivered`), and tears the
//! connection down when `terminate` is set.

use vstd::prelude::*;
use crate::event::Event;
use crate::session::{
    Session,
    User,
    queue_gets,
    queues_broadcast,
    roster_has,
    spec_label,
};

verus! {

/// What dispatching one client event did.
pub struct HandleOutcome {
    /// Whether the connection's actor must terminate (the user left).
    pub terminate: bool,
    /// The server announcement that was broadcast to every registered user.
    pub announcement: Event,
    /// The recipients whose queues were at capacity, in the order they
    /// appear in the registry; the caller offers the announcement to each
    /// again once its queue drains.
    pub undelivered: Vec<u64>,
}

/// The effect of dispatching `RequestJoin(name)` from connection `id`:
/// that user's name becomes `name` (everyone else untouched), and a
/// `Joined` announcement carrying the user's new display label is broadcast
/// to every registered user, the sender included.
pub open spec fn join_step(
    pre: Session,
    post: Session,
    id: u64,
    name: Seq<char>,
    out: HandleOutcome,
) -> bool {
    let k = pre.index_of(id);
    &&& !out.terminate
    &&& (out.announcement matches Event::Joined(l) && l@ == spec_label(
        Some(name),
        pre.users@[k].addr@,
    ))
    &&& post.counter == pre.counter
    &&& post.users@.len() == pre.users@.len()
    &&& forall|i: int|
        0 <= i < pre.users@.len() ==> #[trigger] post.users@[i].id == pre.users@[i].id
            && post.users@[i].addr == pre.users@[i].addr
    &&& forall|i: int|
        0 <= i < pre.users@.len() && i != k ==> #[trigger] post.users@[i].name == pre.users@[
            i
        ].name
    &&& post.users@[k].name_seq() == Some(name)
    &&& queues_broadcast(pre.users@, post.users@, out.announcement, out.undelivered@)
}

/// The effect of dispatching `Leave()` from connection `id`: the user is
/// removed from the registry, a `Left` announcement carrying its final
/// display label is broadcast to every remaining user, and the connection's
/// actor terminates.
pub open spec fn leave_step(pre: Session, post: Session, id: u64, out: HandleOutcome) -> bool {
    let rest = pre.users@.remove(pre.index_of(id));
    &&& out.terminate
    &&& (out.announcement matches Event::Left(l) && l@ == pre.label_of(id))
    &&& post.counter == pre.counter
    &&& !post.contains_id(id)
    &&& post.users@.len() == rest.len()
    &&& forall|i: int|
        0 <= i < rest.len() ==> #[trigger] post.users@[i].id == rest[i].id && post.users@[i].name
            == rest[i].name && post.users@[i].addr == rest[i].addr
    &&& queues_broadcast(rest, post.users@, out.announcement, out.undelivered@)
}

/// The effect of dispatching `MessageSend(text)` from connection `id`: the
/// registry is untouched except that a `MessageReceived` announcement
/// carrying the sender's current display label and `text` is broadcast to
/// every registered user, the sender included.
pub open spec fn message_step(
    pre: Session,
    post: Session,
    id: u64,
    text: Seq<char>,
    out: HandleOutcome,
) -> bool {
    &&& !out.terminate
    &&& (out.announcement matches Event::MessageReceived(l, t) && l@ == pre.label_of(id) && t@
        == text)
    &&& post.counter == pre.counter
    &&& post.users@.len() == pre.users@.len()
    &&& forall|i: int|
        0 <= i < pre.users@.len() ==> #[trigger] post.users@[i].id == pre.users@[i].id
            && post.users@[i].name == pre.users@[i].name && post.users@[i].addr == pre.users@[
            i
        ].addr
    &&& queues_broadcast(pre.users@, post.users@, out.announcement, out.undelivered@)
}

impl Session {
    /// Dispatches one decoded client event from connection `id`, exactly as
    /// the connection's actor does: a join request renames the user and
    /// broadcasts `Joined`, a leave removes the user, broadcasts `Left` and
    /// terminates the actor, and a chat line broadcasts `MessageReceived`
    /// under the sender's current label. Only the three client-originated
    /// event kinds are accepted; server announcements are never dispatched
    /// here.
    pub fn handle_event(&mut self, id: u64, evt: Event) -> (out: HandleOutcome)
        requires
            old(self).wf(),
            old(self).contains_id(id),
            evt.spec_is_client_request(),
        ensures
            final(self).wf(),
            match evt {
                Event::RequestJoin(name) => join_step(*old(self), *final(self), id, name@, out),
                Event::Leave() => leave_step(*old(self), *final(self), id, out),
                Event::MessageSend(text) => message_step(*old(self), *final(self), id, text@, out),
                _ => false,
            },
    {
        match evt {
            Event::RequestJoin(name) => {
                let label = self.update_user(id, name);
                let ghost mid = *self;
                let ann = Event::Joined(label);
                let undelivered = self.broadcast(&ann);
                proof {
                    lemma_same_queues_broadcast(
                        old(self).users@,
                        mid.users@,
                        self.users@,
                        ann,
                        undelivered@,
                    );
                }
                HandleOutcome { terminate: false, announcement: ann, undelivered }
            },
            Event::Leave() => {
                let label = self.remove_user(id);
                let ghost mid = *self;
                let ann = Event::Left(label);
                let undelivered = self.broadcast(&ann);
                proof {
                    assert forall|j: int|
                        0 <= j < self.users@.len() implies #[trigger] self.users@[j].id != id by {
                        assert(mid.users@[j].id == self.users@[j].id);
                    }
                }
                HandleOutcome { terminate: true, announcement: ann, undelivered }
            },
            Event::MessageSend(text) => {
                let label = self.get_name(id);
                let ann = Event::MessageReceived(label, text);
                let undelivered = self.broadcast(&ann);
                HandleOutcome { terminate: false, announcement: ann, undelivered }
            },
            _ => {
                proof {
                    assert(false);
                }
                vstd::pervasive::unreached()
            },
        }
    }
}

/// When two rosters hold the same queues entry for entry, a broadcast over
/// the second is also a broadcast over the first.
proof fn lemma_same_queues_broadcast(
    pre: Seq<User>,
    mid: Seq<User>,
    post: Seq<User>,
    e: Event,
    und: Seq<u64>,
)
    requires
        mid.len() == pre.len(),
        forall|i: int|
            0 <= i < pre.len() ==> #[trigger] mid[i].outbound == pre[i].outbound && mid[i].id
                == pre[i].id,
        queues_broadcast(mid, post, e, und),
    ensures
        queues_broadcast(pre, post, e, und),
{
    assert forall|i: int| 0 <= i < pre.len() implies queue_gets(pre[i], post[i], e) by {
        assert(queue_gets(mid[i], post[i], e));
    }
    assert forall|i: int|
        0 <= i < pre.len() implies (und.contains(pre[i].id) <==> pre[i].outbound@.len()
        >= crate::session::QUEUE_CAPACITY) by {
        assert(und.contains(mid[i].id) <==> mid[i].outbound@.len()
            >= crate::session::QUEUE_CAPACITY);
    }
    assert forall|j: int| 0 <= j < und.len() implies roster_has(pre, #[trigger] und[j]) by {
        assert(roster_has(mid, und[j]));
        let k = choose|k: int| 0 <= k < mid.len() && mid[k].id == und[j];
        assert(pre[k].id == und[j]);
    }
}

} // verus!
