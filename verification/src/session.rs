//! The session registry: the shared table of currently-connected users,
//! their display labels, and their bounded outbound delivery queues.

use vstd::prelude::*;
use vstd::string::StringExecFns;
use crate::event::Event;

verus! {

/// Capacity of each user's outbound delivery queue.
pub const QUEUE_CAPACITY: usize = 100;

/// One entry of the session registry: a single active connection.
pub struct User {
    /// Unique id, assigned at registration, never reused.
    pub id: u64,
    /// Display name; absent until the client's first join request.
    pub name: Option<String>,
    /// Transport-level peer address, fixed at registration.
    pub addr: String,
    /// Bounded FIFO queue of events awaiting delivery to this connection.
    /// Events are enqueued at the back by broadcasts and drained from the
    /// front by this connection's own writer.
    pub outbound: Vec<Event>,
}

/// The display label for a user with the given name and address:
/// `"{name} [{addr}]"` once a name is set, else `"anonymous [{addr}]"`.
pub open spec fn spec_label(name: Option<Seq<char>>, addr: Seq<char>) -> Seq<char> {
    (match name {
        Some(n) => n,
        None => "anonymous"@,
    }) + " ["@ + addr + "]"@
}

impl User {
    /// The user's name as a sequence of characters, if set.
    pub open spec fn name_seq(self) -> Option<Seq<char>> {
        match self.name {
            Some(n) => Some(n@),
            None => None,
        }
    }

    /// The user's current display label.
    pub open spec fn spec_label_of(self) -> Seq<char> {
        spec_label(self.name_seq(), self.addr@)
    }

    /// The current display label: the name (or `"anonymous"`) followed by
    /// the peer address in square brackets.
    pub fn get_name(&self) -> (r: String)
        ensures
            r@ == self.spec_label_of(),
    {
        let mut label: String = match &self.name {
            Some(n) => n.clone(),
            None => String::from_str("anonymous"),
        };
        label.append(" [");
        label.append(self.addr.as_str());
        label.append("]");
        label
    }
}

/// What `send_event` did with an event offered to one recipient.
#[derive(Clone, Copy, PartialEq, Eq, Structural, Debug)]
pub enum DeliverOutcome {
    /// The event was appended to the recipient's outbound queue.
    Delivered,
    /// The recipient's queue is at capacity; the registry is unchanged and
    /// the caller decides when to offer the event again.
    QueueFull,
    /// No user with that id is registered; the delivery is silently dropped.
    NotRegistered,
}

/// The two users describe the same connection: delivery never changes who a
/// queue belongs to.
pub open spec fn same_identity(a: User, b: User) -> bool {
    &&& b.id == a.id
    &&& b.name == a.name
    &&& b.addr == a.addr
}

/// How one recipient's queue changes when an event is offered to it: the
/// event is appended when there is room, and the queue is left untouched
/// when it is at capacity.
pub open spec fn queue_gets(a: User, b: User, e: Event) -> bool {
    if a.outbound@.len() < QUEUE_CAPACITY {
        b.outbound@ == a.outbound@.push(e)
    } else {
        b.outbound@ == a.outbound@
    }
}

/// Whether some entry of a roster carries this id.
pub open spec fn roster_has(users: Seq<User>, id: u64) -> bool {
    exists|i: int| 0 <= i < users.len() && users[i].id == id
}

/// A broadcast of `e` over a roster: every recipient's queue is updated
/// independently of the others (`queue_gets`), and `und` holds exactly the
/// ids whose queues were at capacity, so the caller can offer the event to
/// them again once they drain.
pub open spec fn queues_broadcast(pre: Seq<User>, post: Seq<User>, e: Event, und: Seq<u64>) -> bool {
    &&& post.len() == pre.len()
    &&& forall|i: int| 0 <= i < pre.len() ==> queue_gets(pre[i], post[i], e)
    &&& forall|i: int|
        0 <= i < pre.len() ==> (und.contains(pre[i].id) <==> pre[i].outbound@.len()
            >= QUEUE_CAPACITY)
    &&& forall|j: int| 0 <= j < und.len() ==> roster_has(pre, #[trigger] und[j])
}

/// The full effect of `Session::broadcast`: the roster (membership, names,
/// addresses, order) is unchanged and the queues change per `queues_broadcast`.
pub open spec fn broadcast_rel(pre: Session, post: Session, e: Event, und: Seq<u64>) -> bool {
    &&& post.counter == pre.counter
    &&& post.users@.len() == pre.users@.len()
    &&& forall|i: int| 0 <= i < pre.users@.len() ==> same_identity(pre.users@[i], post.users@[i])
    &&& queues_broadcast(pre.users@, post.users@, e, und)
}

/// The session registry: every currently-registered user, ordered by id,
/// plus the counter used to mint the next id.
pub struct Session {
    /// The last id handed out; the next registration receives `counter + 1`.
    pub counter: u64,
    /// The registered users, in strictly increasing id order.
    pub users: Vec<User>,
}

impl Session {
    /// Registry well-formedness: ids strictly increase along the table, no
    /// id exceeds the counter (so no future id collides with a present one),
    /// and every outbound queue respects its capacity.
    pub open spec fn wf(self) -> bool {
        &&& forall|i: int, j: int|
            0 <= i < j < self.users@.len() ==> self.users@[i].id < self.users@[j].id
        &&& forall|i: int| 0 <= i < self.users@.len() ==> self.users@[i].id <= self.counter
        &&& forall|i: int|
            0 <= i < self.users@.len() ==> self.users@[i].outbound@.len() <= QUEUE_CAPACITY
    }

    /// Whether a user with this id is currently registered.
    pub open spec fn contains_id(self, id: u64) -> bool {
        exists|i: int| 0 <= i < self.users@.len() && self.users@[i].id == id
    }

    /// The position of the user with this id in the table.
    pub open spec fn index_of(self, id: u64) -> int
        recommends
            self.contains_id(id),
    {
        choose|i: int| 0 <= i < self.users@.len() && self.users@[i].id == id
    }

    /// The registered user with this id.
    pub open spec fn user_at(self, id: u64) -> User
        recommends
            self.contains_id(id),
    {
        self.users@[self.index_of(id)]
    }

    /// The current display label of the user with this id.
    pub open spec fn label_of(self, id: u64) -> Seq<char>
        recommends
            self.contains_id(id),
    {
        self.user_at(id).spec_label_of()
    }

    /// The outbound queue of the user with this id.
    pub open spec fn queue_of(self, id: u64) -> Seq<Event>
        recommends
            self.contains_id(id),
    {
        self.user_at(id).outbound@
    }

    /// In a well-formed registry ids are unique, so a position holding a
    /// given id is the position `index_of` denotes.
    pub proof fn lemma_index_unique(self, i: int, id: u64)
        requires
            self.wf(),
            0 <= i < self.users@.len(),
            self.users@[i].id == id,
        ensures
            self.contains_id(id),
            self.index_of(id) == i,
    {
        assert(self.contains_id(id));
        let j = self.index_of(id);
        if i < j {
            assert(self.users@[i].id < self.users@[j].id);
        } else if j < i {
            assert(self.users@[j].id < self.users@[i].id);
        }
    }

    /// An empty registry: no users, counter at zero.
    pub fn new() -> (s: Session)
        ensures
            s.wf(),
            s.counter == 0,
            s.users@.len() == 0,
    {
        Session { counter: 0, users: Vec::new() }
    }

    /// Registers a new connection from the given peer address: allocates the
    /// next id and inserts a user with no name and an empty outbound queue.
    /// The returned id is strictly greater than every id ever handed out
    /// before, so concurrent registrations serialized through the registry
    /// always receive distinct, strictly increasing ids.
    pub fn add_user(&mut self, addr: String) -> (id: u64)
        requires
            old(self).wf(),
            old(self).counter < u64::MAX,
        ensures
            final(self).wf(),
            id == old(self).counter + 1,
            final(self).counter == id,
            final(self).users@.len() == old(self).users@.len() + 1,
            forall|i: int|
                0 <= i < old(self).users@.len() ==> final(self).users@[i] == old(self).users@[i],
            forall|i: int| 0 <= i < old(self).users@.len() ==> old(self).users@[i].id < id,
            final(self).users@.last().id == id,
            final(self).users@.last().name is None,
            final(self).users@.last().addr@ == addr@,
            final(self).users@.last().outbound@ == Seq::<Event>::empty(),
            final(self).contains_id(id),
    {
        self.counter = self.counter + 1;
        let id = self.counter;
        let user = User { id, name: None, addr, outbound: Vec::new() };
        self.users.push(user);
        proof {
            let n = self.users@.len() - 1;
            assert(self.users@[n].id == id);
        }
        id
    }

    /// Linear lookup of a user's position by id.
    fn find_index(&self, id: u64) -> (r: Option<usize>)
        requires
            self.wf(),
        ensures
            match r {
                Some(i) => {
                    &&& i < self.users@.len()
                    &&& self.users@[i as int].id == id
                    &&& self.contains_id(id)
                    &&& self.index_of(id) == i
                },
                None => !self.contains_id(id),
            },
    {
        let n = self.users.len();
        let mut i: usize = 0;
        while i < n
            invariant
                n == self.users@.len(),
                self.wf(),
                i <= n,
                forall|k: int| 0 <= k < i ==> self.users@[k].id != id,
            decreases n - i,
        {
            if self.users[i].id == id {
                proof {
                    self.lemma_index_unique(i as int, id);
                }
                return Some(i);
            }
            i = i + 1;
        }
        None
    }

    /// The current display label of the registered user `id`. Callers only
    /// invoke this for ids they know to be registered.
    pub fn get_name(&self, id: u64) -> (r: String)
        requires
            self.wf(),
            self.contains_id(id),
        ensures
            r@ == self.label_of(id),
    {
        let i = self.find_index(id).unwrap();
        self.users[i].get_name()
    }

    /// Sets the display name of the registered user `id` and returns the
    /// resulting display label. Nothing else changes: not the roster, not
    /// the other users, not any outbound queue.
    pub fn update_user(&mut self, id: u64, name: String) -> (r: String)
        requires
            old(self).wf(),
            old(self).contains_id(id),
        ensures
            final(self).wf(),
            final(self).counter == old(self).counter,
            final(self).users@.len() == old(self).users@.len(),
            forall|k: int|
                0 <= k < old(self).users@.len() && k != old(self).index_of(id)
                    ==> final(self).users@[k] == old(self).users@[k],
            forall|k: int|
                0 <= k < old(self).users@.len()
                    ==> final(self).users@[k].id == old(self).users@[k].id,
            final(self).users@[old(self).index_of(id)].name == Some(name),
            final(self).users@[old(self).index_of(id)].addr == old(self).user_at(id).addr,
            final(self).users@[old(self).index_of(id)].outbound == old(self).user_at(id).outbound,
            final(self).contains_id(id),
            final(self).index_of(id) == old(self).index_of(id),
            r@ == spec_label(Some(name@), old(self).user_at(id).addr@),
            r@ == final(self).label_of(id),
    {
        let i = self.find_index(id).unwrap();
        let ghost prev = self.users@;
        let mut u = self.users.remove(i);
        u.name = Some(name);
        let r = u.get_name();
        self.users.insert(i, u);
        proof {
            assert(self.users@ =~= prev.update(i as int, self.users@[i as int]));
            self.lemma_index_unique(i as int, id);
        }
        r
    }

    /// Removes the registered user `id` and returns its final display
    /// label. Every other user, and every other queue, is unchanged.
    pub fn remove_user(&mut self, id: u64) -> (r: String)
        requires
            old(self).wf(),
            old(self).contains_id(id),
        ensures
            final(self).wf(),
            final(self).counter == old(self).counter,
            final(self).users@ == old(self).users@.remove(old(self).index_of(id)),
            !final(self).contains_id(id),
            forall|oid: u64|
                oid != id ==> (final(self).contains_id(oid) <==> old(self).contains_id(oid)),
            forall|oid: u64|
                oid != id && old(self).contains_id(oid)
                    ==> final(self).user_at(oid) == old(self).user_at(oid),
            r@ == old(self).label_of(id),
    {
        let i = self.find_index(id).unwrap();
        let ghost pre = *self;
        let u = self.users.remove(i);
        let r = u.get_name();
        proof {
            pre.lemma_remove_effect(*self, id);
        }
        r
    }

    /// After removing `id` at its position, membership and entries of every
    /// other id are preserved, and `id` itself is gone.
    proof fn lemma_remove_effect(self, post: Session, id: u64)
        requires
            self.wf(),
            self.contains_id(id),
            post.users@ == self.users@.remove(self.index_of(id)),
        ensures
            !post.contains_id(id),
            forall|oid: u64| oid != id ==> (post.contains_id(oid) <==> self.contains_id(oid)),
            forall|oid: u64|
                oid != id && self.contains_id(oid) ==> post.user_at(oid) == self.user_at(oid),
    {
        let k = self.index_of(id);
        assert forall|j: int| 0 <= j < post.users@.len() implies post.users@[j].id != id by {
            if j < k {
                self.lemma_index_unique(j, self.users@[j].id);
            } else {
                self.lemma_index_unique(j + 1, self.users@[j + 1].id);
            }
        }
        assert forall|oid: u64| oid != id && self.contains_id(oid) implies post.contains_id(oid)
            && post.user_at(oid) == self.user_at(oid) by {
            let p = self.index_of(oid);
            let q: int = if p < k {
                p
            } else {
                p - 1
            };
            assert(post.users@[q] == self.users@[p]);
            post.lemma_post_index_unique(q, oid);
        }
        assert forall|oid: u64| oid != id && post.contains_id(oid) implies self.contains_id(
            oid,
        ) by {
            let q = post.index_of(oid);
            if q < k {
                assert(self.users@[q].id == oid);
            } else {
                assert(self.users@[q + 1].id == oid);
            }
        }
    }

    /// Index uniqueness restated for a roster known to be duplicate-free
    /// because it came from removing one entry of a well-formed roster.
    proof fn lemma_post_index_unique(self, i: int, id: u64)
        requires
            forall|a: int, b: int|
                0 <= a < b < self.users@.len() ==> self.users@[a].id != self.users@[b].id,
            0 <= i < self.users@.len(),
            self.users@[i].id == id,
        ensures
            self.contains_id(id),
            self.index_of(id) == i,
    {
        assert(self.contains_id(id));
    }

    /// A snapshot of all currently-registered ids, in the table's order,
    /// which is strictly increasing. Every id registered and not yet removed
    /// at the instant of the call is included.
    pub fn user_ids(&self) -> (ids: Vec<u64>)
        requires
            self.wf(),
        ensures
            ids@.len() == self.users@.len(),
            forall|i: int| 0 <= i < ids@.len() ==> ids@[i] == self.users@[i].id,
            forall|i: int, j: int| 0 <= i < j < ids@.len() ==> ids@[i] < ids@[j],
            forall|id: u64| ids@.contains(id) <==> self.contains_id(id),
    {
        let n = self.users.len();
        let mut ids: Vec<u64> = Vec::new();
        let mut i: usize = 0;
        while i < n
            invariant
                n == self.users@.len(),
                i <= n,
                ids@.len() == i,
                forall|k: int| 0 <= k < i ==> ids@[k] == self.users@[k].id,
            decreases n - i,
        {
            let id = self.users[i].id;
            ids.push(id);
            i = i + 1;
        }
        proof {
            assert forall|id: u64| ids@.contains(id) implies self.contains_id(id) by {
                let k = choose|k: int| 0 <= k < ids@.len() && ids@[k] == id;
                assert(self.users@[k].id == id);
            }
            assert forall|id: u64| self.contains_id(id) implies ids@.contains(id) by {
                let k = choose|k: int| 0 <= k < self.users@.len() && self.users@[k].id == id;
                assert(ids@[k] == id);
            }
        }
        ids
    }

    /// Offers one event to recipient `id`'s outbound queue. If `id` is no
    /// longer registered the delivery is silently dropped; if the queue is
    /// at capacity nothing changes and the caller decides when to offer the
    /// event again. The event is appended if and only if `id` is registered
    /// with a queue below capacity.
    pub fn send_event(&mut self, id: u64, evt: Event) -> (r: DeliverOutcome)
        requires
            old(self).wf(),
        ensures
            final(self).wf(),
            !old(self).contains_id(id) ==> *final(self) == *old(self) && r
                == DeliverOutcome::NotRegistered,
            old(self).contains_id(id) && old(self).queue_of(id).len() >= QUEUE_CAPACITY
                ==> *final(self) == *old(self) && r == DeliverOutcome::QueueFull,
            old(self).contains_id(id) && old(self).queue_of(id).len() < QUEUE_CAPACITY ==> ({
                let k = old(self).index_of(id);
                &&& r == DeliverOutcome::Delivered
                &&& final(self).counter == old(self).counter
                &&& final(self).users@.len() == old(self).users@.len()
                &&& forall|j: int|
                    0 <= j < old(self).users@.len() && j != k
                        ==> final(self).users@[j] == old(self).users@[j]
                &&& same_identity(old(self).users@[k], final(self).users@[k])
                &&& final(self).users@[k].outbound@ == old(self).users@[k].outbound@.push(evt)
            }),
    {
        let i = match self.find_index(id) {
            Some(i) => i,
            None => {
                return DeliverOutcome::NotRegistered;
            },
        };
        let ghost prev = self.users@;
        if self.users[i].outbound.len() >= QUEUE_CAPACITY {
            return DeliverOutcome::QueueFull;
        }
        let mut u = self.users.remove(i);
        u.outbound.push(evt);
        self.users.insert(i, u);
        proof {
            assert(self.users@ =~= prev.update(i as int, self.users@[i as int]));
        }
        DeliverOutcome::Delivered
    }

    /// Takes the next event awaiting delivery to connection `id`, in the
    /// order the events were enqueued (FIFO). Returns nothing when `id` is
    /// not registered or its queue is empty.
    pub fn next_outbound(&mut self, id: u64) -> (r: Option<Event>)
        requires
            old(self).wf(),
        ensures
            final(self).wf(),
            !old(self).contains_id(id) ==> *final(self) == *old(self) && r is None,
            old(self).contains_id(id) && old(self).queue_of(id).len() == 0 ==> *final(self)
                == *old(self) && r is None,
            old(self).contains_id(id) && old(self).queue_of(id).len() > 0 ==> ({
                let k = old(self).index_of(id);
                &&& r == Some(old(self).queue_of(id)[0])
                &&& final(self).counter == old(self).counter
                &&& final(self).users@.len() == old(self).users@.len()
                &&& forall|j: int|
                    0 <= j < old(self).users@.len() && j != k
                        ==> final(self).users@[j] == old(self).users@[j]
                &&& same_identity(old(self).users@[k], final(self).users@[k])
                &&& final(self).users@[k].outbound@ == old(self).users@[k].outbound@.remove(0)
            }),
    {
        let i = match self.find_index(id) {
            Some(i) => i,
            None => {
                return None;
            },
        };
        if self.users[i].outbound.len() == 0 {
            return None;
        }
        let ghost prev = self.users@;
        let mut u = self.users.remove(i);
        let e = u.outbound.remove(0);
        self.users.insert(i, u);
        proof {
            assert(self.users@ =~= prev.update(i as int, self.users@[i as int]));
        }
        Some(e)
    }

    /// Fans one event out to every currently-registered user's outbound
    /// queue. Each recipient is handled independently: a queue at capacity
    /// never delays or prevents delivery to any other recipient; its id is
    /// returned instead, so the caller can offer the event to it again once
    /// it drains.
    pub fn broadcast(&mut self, evt: &Event) -> (undelivered: Vec<u64>)
        requires
            old(self).wf(),
        ensures
            final(self).wf(),
            broadcast_rel(*old(self), *final(self), *evt, undelivered@),
    {
        let ghost pre = *self;
        let mut undelivered: Vec<u64> = Vec::new();
        let n = self.users.len();
        let mut i: usize = 0;
        while i < n
            invariant
                pre.wf(),
                n == pre.users@.len(),
                i <= n,
                self.counter == pre.counter,
                self.users@.len() == n,
                forall|k: int| 0 <= k < n ==> same_identity(pre.users@[k], self.users@[k]),
                forall|k: int| i <= k < n ==> self.users@[k] == pre.users@[k],
                forall|k: int| 0 <= k < i ==> queue_gets(pre.users@[k], self.users@[k], *evt),
                forall|k: int|
                    0 <= k < i ==> (undelivered@.contains(pre.users@[k].id) <==> pre.users@[
                        k
                    ].outbound@.len() >= QUEUE_CAPACITY),
                forall|j: int|
                    0 <= j < undelivered@.len() ==> roster_has(
                        pre.users@.subrange(0, i as int),
                        #[trigger] undelivered@[j],
                    ),
            decreases n - i,
        {
            let ghost und_prev = undelivered@;
            let ghost cur = self.users@;
            if self.users[i].outbound.len() < QUEUE_CAPACITY {
                let mut u = self.users.remove(i);
                u.outbound.push(evt.duplicate());
                self.users.insert(i, u);
                proof {
                    assert(self.users@ =~= cur.update(i as int, self.users@[i as int]));
                }
            } else {
                undelivered.push(self.users[i].id);
            }
            proof {
                let full = pre.users@[i as int].outbound@.len() >= QUEUE_CAPACITY;
                let prefix_old = pre.users@.subrange(0, i as int);
                let prefix_new = pre.users@.subrange(0, i + 1);
                assert forall|k: int|
                    0 <= k < i + 1 implies (undelivered@.contains(pre.users@[k].id)
                    <==> pre.users@[k].outbound@.len() >= QUEUE_CAPACITY) by {
                    let uid = pre.users@[k].id;
                    if undelivered@.contains(uid) {
                        let j = choose|j: int|
                            0 <= j < undelivered@.len() && undelivered@[j] == uid;
                        if j < und_prev.len() {
                            assert(und_prev[j] == uid);
                            assert(und_prev.contains(uid));
                            assert(roster_has(prefix_old, und_prev[j]));
                            let k2 = choose|k2: int|
                                0 <= k2 < prefix_old.len() && prefix_old[k2].id == uid;
                            assert(pre.users@[k2].id == uid);
                            assert(und_prev.contains(pre.users@[k2].id));
                            assert(pre.users@[k2].outbound@.len() >= QUEUE_CAPACITY);
                            pre.lemma_index_unique(k2, uid);
                            pre.lemma_index_unique(k, uid);
                        } else {
                            // the one new entry is this round's id, and it
                            // was pushed only because this queue is full
                            assert(full);
                            assert(undelivered@[j] == pre.users@[i as int].id);
                            pre.lemma_index_unique(i as int, uid);
                            pre.lemma_index_unique(k, uid);
                        }
                    }
                    if pre.users@[k].outbound@.len() >= QUEUE_CAPACITY {
                        if k < i {
                            assert(und_prev.contains(uid));
                            let j = choose|j: int|
                                0 <= j < und_prev.len() && und_prev[j] == uid;
                            assert(undelivered@[j] == uid);
                        } else {
                            assert(full);
                            assert(undelivered@[und_prev.len() as int] == uid);
                        }
                    }
                }
                assert forall|j: int|
                    0 <= j < undelivered@.len() implies roster_has(
                    prefix_new,
                    #[trigger] undelivered@[j],
                ) by {
                    if j < und_prev.len() {
                        assert(und_prev[j] == undelivered@[j]);
                        assert(roster_has(prefix_old, und_prev[j]));
                        let k2 = choose|k2: int|
                            0 <= k2 < prefix_old.len() && prefix_old[k2].id == und_prev[j];
                        assert(prefix_new[k2].id == undelivered@[j]);
                    } else {
                        assert(prefix_new[i as int].id == undelivered@[j]);
                    }
                }
            }
            i = i + 1;
        }
        proof {
            assert forall|a: int, b: int|
                0 <= a < b < self.users@.len() implies self.users@[a].id < self.users@[b].id by {
                assert(same_identity(pre.users@[a], self.users@[a]));
                assert(same_identity(pre.users@[b], self.users@[b]));
            }
            assert forall|a: int|
                0 <= a < self.users@.len() implies self.users@[a].id <= self.counter by {
                assert(same_identity(pre.users@[a], self.users@[a]));
            }
            assert forall|a: int|
                0 <= a < self.users@.len() implies self.users@[a].outbound@.len()
                <= QUEUE_CAPACITY by {
                assert(queue_gets(pre.users@[a], self.users@[a], *evt));
            }
            assert(pre.users@.subrange(0, n as int) =~= pre.users@);
            assert forall|j: int|
                0 <= j < undelivered@.len() implies roster_has(
                pre.users@,
                #[trigger] undelivered@[j],
            ) by {
                assert(roster_has(pre.users@.subrange(0, n as int), undelivered@[j]));
            }
        }
        undelivered
    }
}

} // verus!
