//! Laws of the session core, stated and proved over the contracts of the
//! registry, the broadcast router and the per-connection dispatcher.

use vstd::prelude::*;
use crate::event::Event;
use crate::session::{
    Session,
    User,
    QUEUE_CAPACITY,
    broadcast_rel,
    queue_gets,
    spec_label,
};
use crate::actor::{HandleOutcome, join_step, leave_step};

verus! {

/// The label a server announcement carries, whichever announcement kind it
/// is.
pub open spec fn announced_label(e: Event) -> Seq<char> {
    match e {
        Event::Joined(l) => l@,
        Event::Left(l) => l@,
        Event::MessageReceived(l, _) => l@,
        _ => Seq::<char>::empty(),
    }
}

/// Unique increasing ids, across calls: a registration mints `counter + 1`,
/// records it in the counter, and every other operation keeps the counter;
/// so when one registration returned `id1` and a later registration mints
/// `id2` from any counter that has not decreased since, the later id is
/// strictly greater — in particular the two are distinct.
pub proof fn lemma_ids_unique_increasing(id1: u64, c1: u64, c2: u64, id2: u64)
    requires
        id1 <= c1,
        c1 <= c2,
        id2 == c2 + 1,
    ensures
        id2 > id1,
        id2 != id1,
{
}

/// Unique increasing ids, within a state: in a well-formed registry every
/// two distinct entries carry distinct ids, so N registered users are N
/// different ids.
pub proof fn lemma_registered_ids_distinct(s: Session, i: int, j: int)
    requires
        s.wf(),
        0 <= i < s.users@.len(),
        0 <= j < s.users@.len(),
        i != j,
    ensures
        s.users@[i].id != s.users@[j].id,
{
}

/// Broadcast completeness: a broadcast reaches every recipient of the
/// snapshot whose queue has room, appending exactly one copy of the event
/// after everything already queued — the count of copies in that queue
/// rises by precisely one.
pub proof fn lemma_broadcast_completeness(
    pre: Session,
    post: Session,
    e: Event,
    und: Seq<u64>,
    i: int,
)
    requires
        broadcast_rel(pre, post, e, und),
        0 <= i < pre.users@.len(),
        pre.users@[i].outbound@.len() < QUEUE_CAPACITY,
    ensures
        post.users@[i].outbound@ == pre.users@[i].outbound@.push(e),
        post.users@[i].outbound@.to_multiset().count(e) == pre.users@[
            i
        ].outbound@.to_multiset().count(e) + 1,
{
    assert(queue_gets(pre.users@[i], post.users@[i], e));
    pre.users@[i].outbound@.to_multiset_ensures();
    assert(pre.users@[i].outbound@.push(e).to_multiset() =~= pre.users@[
        i
    ].outbound@.to_multiset().insert(e));
}

/// No user registered after a broadcast's snapshot receives the event:
/// registration creates the newcomer with an empty outbound queue, and an
/// empty queue holds nothing.
pub proof fn lemma_late_registrant_misses(u: User, e: Event)
    requires
        u.outbound@ == Seq::<Event>::empty(),
    ensures
        !u.outbound@.contains(e),
{
}

/// Isolation under backpressure: one recipient's saturated queue never
/// affects delivery to any other recipient. When `j`'s queue is full and
/// `i`'s has room, the broadcast still appends the event to `i`'s queue,
/// leaves `j`'s untouched, and reports `j` — and not `i` — for later
/// delivery.
pub proof fn lemma_backpressure_isolation(
    pre: Session,
    post: Session,
    e: Event,
    und: Seq<u64>,
    i: int,
    j: int,
)
    requires
        pre.wf(),
        broadcast_rel(pre, post, e, und),
        0 <= i < pre.users@.len(),
        0 <= j < pre.users@.len(),
        i != j,
        pre.users@[i].outbound@.len() < QUEUE_CAPACITY,
        pre.users@[j].outbound@.len() >= QUEUE_CAPACITY,
    ensures
        post.users@[i].outbound@ == pre.users@[i].outbound@.push(e),
        post.users@[j].outbound@ == pre.users@[j].outbound@,
        und.contains(pre.users@[j].id),
        !und.contains(pre.users@[i].id),
{
    assert(queue_gets(pre.users@[i], post.users@[i], e));
    assert(queue_gets(pre.users@[j], post.users@[j], e));
}

/// Leave removes and announces: after a user leaves, it is no longer
/// registered — a later broadcast snapshot no longer includes it — while
/// every other user remains registered exactly as before; the announcement
/// is `Left` with the leaver's final label; and each remaining recipient
/// with room receives exactly one copy of it.
pub proof fn lemma_leave_removes_and_announces(
    pre: Session,
    post: Session,
    id: u64,
    out: HandleOutcome,
)
    requires
        pre.wf(),
        pre.contains_id(id),
        leave_step(pre, post, id, out),
    ensures
        !post.contains_id(id),
        forall|oid: u64| oid != id ==> (post.contains_id(oid) <==> pre.contains_id(oid)),
        (out.announcement matches Event::Left(l) && l@ == pre.label_of(id)),
        forall|i: int|
            0 <= i < post.users@.len() && pre.users@.remove(pre.index_of(id))[i].outbound@.len()
                < QUEUE_CAPACITY ==> post.users@[i].outbound@ == pre.users@.remove(
                pre.index_of(id),
            )[i].outbound@.push(out.announcement),
{
    let k = pre.index_of(id);
    let rest = pre.users@.remove(k);
    assert forall|oid: u64| oid != id && pre.contains_id(oid) implies post.contains_id(oid) by {
        let p = pre.index_of(oid);
        pre.lemma_index_unique(k, id);
        let q: int = if p < k {
            p
        } else {
            p - 1
        };
        assert(rest[q].id == oid);
        assert(post.users@[q].id == oid);
    }
    assert forall|oid: u64| oid != id && post.contains_id(oid) implies pre.contains_id(oid) by {
        let q = choose|q: int| 0 <= q < post.users@.len() && post.users@[q].id == oid;
        assert(rest[q].id == oid);
        if q < k {
            assert(pre.users@[q].id == oid);
        } else {
            assert(pre.users@[q + 1].id == oid);
        }
    }
    assert forall|i: int|
        0 <= i < post.users@.len() && rest[i].outbound@.len() < QUEUE_CAPACITY implies post.users@[
        i
    ].outbound@ == rest[i].outbound@.push(out.announcement) by {
        assert(queue_gets(rest[i], post.users@[i], out.announcement));
    }
}

/// Rename is idempotent on identity, not on the event: two identical join
/// requests from the same connection yield the same display label both
/// times, yet each one broadcasts its own fresh `Joined` announcement — a
/// recipient with room both times holds two copies, not a deduplicated one.
pub proof fn lemma_rename_twice(
    s0: Session,
    s1: Session,
    s2: Session,
    id: u64,
    name: Seq<char>,
    out1: HandleOutcome,
    out2: HandleOutcome,
    i: int,
)
    requires
        s0.wf(),
        s1.wf(),
        s2.wf(),
        s0.contains_id(id),
        join_step(s0, s1, id, name, out1),
        join_step(s1, s2, id, name, out2),
        0 <= i < s0.users@.len(),
    ensures
        announced_label(out1.announcement) == announced_label(out2.announcement),
        announced_label(out1.announcement) == spec_label(Some(name), s0.user_at(id).addr@),
        s2.label_of(id) == s1.label_of(id),
        s0.users@[i].outbound@.len() + 1 < QUEUE_CAPACITY ==> s2.users@[i].outbound@ == s0.users@[
            i
        ].outbound@.push(out1.announcement).push(out2.announcement),
{
    let k = s0.index_of(id);
    assert(s1.users@[k].id == id);
    s1.lemma_index_unique(k, id);
    assert(s2.users@[k].id == id);
    s2.lemma_index_unique(k, id);
    assert(s1.users@[k].addr == s0.users@[k].addr);
    assert(s2.users@[k].name_seq() == Some(name));
    if s0.users@[i].outbound@.len() + 1 < QUEUE_CAPACITY {
        assert(queue_gets(s0.users@[i], s1.users@[i], out1.announcement));
        assert(queue_gets(s1.users@[i], s2.users@[i], out2.announcement));
    }
}

} // verus!
