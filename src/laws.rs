use vstd::prelude::*;
use crate::hub::{deliver, HubState};
use crate::score::ScoreData;

verus! {

/// The queue after each of `vs` has been delivered to `q` in turn.
pub open spec fn deliver_all(q: Seq<ScoreData>, vs: Seq<ScoreData>, cap: nat) -> Seq<ScoreData>
    decreases vs.len(),
{
    if vs.len() == 0 {
        q
    } else {
        deliver(deliver_all(q, vs.drop_last(), cap), vs.last(), cap)
    }
}

/// The last `n` elements of `s` (all of them when there are fewer).
pub open spec fn last_n(s: Seq<ScoreData>, n: nat) -> Seq<ScoreData> {
    if s.len() <= n {
        s
    } else {
        s.subrange(s.len() - n, s.len() as int)
    }
}

/// The hub after each of `vs` has been published in turn.
pub open spec fn publish_all(h: HubState, vs: Seq<ScoreData>) -> HubState
    decreases vs.len(),
{
    if vs.len() == 0 {
        h
    } else {
        publish_all(h, vs.drop_last()).publish(vs.last())
    }
}

/// Under drop-oldest, a queue that has been sent `vs` holds exactly the
/// most recent `cap` values of what it held followed by `vs`.
pub proof fn lemma_deliver_all_keeps_latest(q: Seq<ScoreData>, vs: Seq<ScoreData>, cap: nat)
    requires
        cap >= 1,
        q.len() <= cap,
    ensures
        deliver_all(q, vs, cap) == last_n(q + vs, cap),
    decreases vs.len(),
{
    if vs.len() > 0 {
        let prev = vs.drop_last();
        lemma_deliver_all_keeps_latest(q, prev, cap);
        let s = q + prev;
        let t = q + vs;
        assert(t =~= s.push(vs.last()));
        if s.len() < cap {
            assert(deliver_all(q, vs, cap) =~= last_n(t, cap));
        } else {
            assert(deliver_all(q, vs, cap) =~= last_n(t, cap));
        }
    }
}

/// Publishing keeps every registered identity, adds none, and delivers the
/// value to the queue of each.
pub proof fn lemma_publish_queues(h: HubState, v: ScoreData)
    requires
        h.wf(),
    ensures
        h.publish(v).wf(),
        h.publish(v).next_id == h.next_id,
        h.publish(v).capacity == h.capacity,
        h.publish(v).count() == h.count(),
        forall|id: u64| #[trigger] h.publish(v).contains(id) == h.contains(id),
        forall|id: u64|
            h.contains(id) ==> #[trigger] h.publish(v).queue_of(id) == deliver(
                h.queue_of(id),
                v,
                h.capacity,
            ),
{
    let p = h.publish(v);
    h.lemma_publish_wf(v);
    assert forall|id: u64| #[trigger] p.contains(id) == h.contains(id) by {
        if h.contains(id) {
            let k = h.index_of(id);
            assert(p.entries[k].0 == id);
        }
        if p.contains(id) {
            let k = p.index_of(id);
            assert(h.entries[k].0 == id);
        }
    }
    assert forall|id: u64| h.contains(id) implies #[trigger] p.queue_of(id) == deliver(
        h.queue_of(id),
        v,
        h.capacity,
    ) by {
        let k = h.index_of(id);
        p.lemma_index_of(k);
    }
}

/// Publishing a sequence keeps the registered identities and sends the whole
/// sequence to each queue.
pub proof fn lemma_publish_all_queues(h: HubState, vs: Seq<ScoreData>)
    requires
        h.wf(),
    ensures
        publish_all(h, vs).wf(),
        publish_all(h, vs).next_id == h.next_id,
        publish_all(h, vs).capacity == h.capacity,
        publish_all(h, vs).count() == h.count(),
        forall|id: u64| #[trigger] publish_all(h, vs).contains(id) == h.contains(id),
        forall|id: u64|
            h.contains(id) ==> #[trigger] publish_all(h, vs).queue_of(id) == deliver_all(
                h.queue_of(id),
                vs,
                h.capacity,
            ),
    decreases vs.len(),
{
    if vs.len() > 0 {
        lemma_publish_all_queues(h, vs.drop_last());
        lemma_publish_queues(publish_all(h, vs.drop_last()), vs.last());
    }
}

/// Every subscriber whose queue has room for all of `vs` receives exactly
/// `vs`, in the order of publication, after what it already held.
pub proof fn law_fanout_in_order(h: HubState, vs: Seq<ScoreData>)
    requires
        h.wf(),
        forall|id: u64| h.contains(id) ==> #[trigger] h.queue_of(id).len() + vs.len() <= h.capacity,
    ensures
        forall|id: u64|
            h.contains(id) ==> #[trigger] publish_all(h, vs).queue_of(id) == h.queue_of(id) + vs,
{
    lemma_publish_all_queues(h, vs);
    assert forall|id: u64| h.contains(id) implies #[trigger] publish_all(h, vs).queue_of(id)
        == h.queue_of(id) + vs by {
        let q = h.queue_of(id);
        assert(q.len() + vs.len() <= h.capacity);
        lemma_deliver_all_keeps_latest(q, vs, h.capacity);
    }
}

/// A subscriber that joins after `before` has been published and before
/// `after` is published holds only values of `after`: its most recent ones,
/// as many as its queue holds.
pub proof fn law_no_backfill(h: HubState, before: Seq<ScoreData>, after: Seq<ScoreData>)
    requires
        h.wf(),
        h.can_subscribe(),
    ensures
        ({
            let joined = publish_all(h, before);
            let id = joined.next_id as u64;
            let end = publish_all(joined.subscribe(), after);
            &&& end.contains(id)
            &&& end.queue_of(id) == last_n(after, h.capacity)
        }),
{
    let joined = publish_all(h, before);
    lemma_publish_all_queues(h, before);
    let s = joined.subscribe();
    let id = joined.next_id as u64;
    joined.lemma_subscribe_wf();
    s.lemma_index_of(s.entries.len() - 1);
    assert(s.contains(id));
    assert(s.queue_of(id) == Seq::<ScoreData>::empty());
    lemma_publish_all_queues(s, after);
    lemma_deliver_all_keeps_latest(Seq::empty(), after, h.capacity);
    assert(Seq::<ScoreData>::empty() + after =~= after);
}

/// Under overflow a subscriber keeps the most recent values only: after `vs`
/// its queue is the last `capacity` values of what it held followed by `vs`,
/// so when more than `capacity` values are published it holds exactly the
/// last `capacity` of them.
pub proof fn law_drop_oldest(h: HubState, id: u64, vs: Seq<ScoreData>)
    requires
        h.wf(),
        h.contains(id),
    ensures
        publish_all(h, vs).queue_of(id) == last_n(h.queue_of(id) + vs, h.capacity),
        publish_all(h, vs).queue_of(id).len() <= h.capacity,
        vs.len() >= h.capacity ==> publish_all(h, vs).queue_of(id) == vs.subrange(
            vs.len() - h.capacity,
            vs.len() as int,
        ),
{
    lemma_publish_all_queues(h, vs);
    let q = h.queue_of(id);
    h.lemma_index_of(h.index_of(id));
    assert(q.len() <= h.capacity);
    lemma_deliver_all_keeps_latest(q, vs, h.capacity);
    if vs.len() >= h.capacity {
        let t = q + vs;
        assert(t.subrange(t.len() - h.capacity, t.len() as int) =~= vs.subrange(
            vs.len() - h.capacity,
            vs.len() as int,
        ));
    }
}

/// After `id` unsubscribes, a publication reaches every other subscriber and
/// not `id`: the hub counts one subscriber fewer if `id` was registered.
pub proof fn law_unsubscribe_leaves_no_entry(h: HubState, id: u64, v: ScoreData)
    requires
        h.wf(),
    ensures
        ({
            let after = h.unsubscribe(id).publish(v);
            &&& !after.contains(id)
            &&& forall|other: u64| other != id ==> (after.contains(other) <==> h.contains(other))
            &&& after.count() == if h.contains(id) { h.count() - 1 } else { h.count() as int }
        }),
{
    h.lemma_unsubscribe_removes(id);
    h.lemma_unsubscribe_wf(id);
    lemma_publish_queues(h.unsubscribe(id), v);
}

/// One operation on a hub, as the tasks around it perform them.
pub ghost enum HubOp {
    Subscribe,
    Unsubscribe(u64),
    Publish(ScoreData),
    Receive(u64),
    Drain(u64),
}

pub open spec fn apply(h: HubState, op: HubOp) -> HubState {
    match op {
        HubOp::Subscribe => h.subscribe(),
        HubOp::Unsubscribe(id) => h.unsubscribe(id),
        HubOp::Publish(v) => h.publish(v),
        HubOp::Receive(id) => h.receive(id),
        HubOp::Drain(id) => h.drain(id),
    }
}

/// The hub after `ops`, in this order. The hub serializes the operations of
/// concurrent tasks, so every interleaving of them is one such sequence.
pub open spec fn run(h: HubState, ops: Seq<HubOp>) -> HubState
    decreases ops.len(),
{
    if ops.len() == 0 {
        h
    } else {
        apply(run(h, ops.drop_last()), ops.last())
    }
}

/// The identity handed out by the operation at position `i` when it subscribes.
pub open spec fn issued(h: HubState, ops: Seq<HubOp>, i: int) -> nat {
    run(h, ops.take(i)).next_id
}

/// Whether `id` is unsubscribed at position `from` or later.
pub open spec fn unsubscribed_from(ops: Seq<HubOp>, from: int, id: u64) -> bool {
    exists|j: int| from <= j < ops.len() && #[trigger] ops[j] == HubOp::Unsubscribe(id)
}

/// Whether `id` is live after `ops`: it was registered at the start or handed
/// out by a subscription in `ops`, and it was not unsubscribed since.
pub open spec fn live_after(h: HubState, ops: Seq<HubOp>, id: u64) -> bool {
    ||| h.contains(id) && !unsubscribed_from(ops, 0, id)
    ||| exists|i: int|
        0 <= i < ops.len() && ops[i] == HubOp::Subscribe && #[trigger] issued(h, ops, i) == id
            && !unsubscribed_from(ops, i + 1, id)
}

pub proof fn lemma_apply(h: HubState, op: HubOp)
    requires
        h.wf(),
        op == HubOp::Subscribe ==> h.can_subscribe(),
    ensures
        apply(h, op).wf(),
        apply(h, op).capacity == h.capacity,
        apply(h, op).next_id == if op == HubOp::Subscribe { h.next_id + 1 } else { h.next_id },
        forall|id: u64|
            #[trigger] apply(h, op).contains(id) == match op {
                HubOp::Subscribe => h.contains(id) || id == h.next_id,
                HubOp::Unsubscribe(x) => h.contains(id) && id != x,
                _ => h.contains(id),
            },
{
    match op {
        HubOp::Subscribe => {
            h.lemma_subscribe_wf();
            let s = h.subscribe();
            assert forall|id: u64| #[trigger] s.contains(id) == (h.contains(id) || id == h.next_id) by {
                if h.contains(id) {
                    let k = h.index_of(id);
                    assert(s.entries[k].0 == id);
                }
                if id == h.next_id {
                    assert(s.entries[s.entries.len() - 1].0 == id);
                }
                if s.contains(id) && id != h.next_id {
                    let k = choose|k: int| 0 <= k < s.entries.len() && #[trigger] s.entries[k].0 == id;
                    assert(h.entries[k].0 == id);
                }
            }
        },
        HubOp::Unsubscribe(x) => {
            h.lemma_unsubscribe_wf(x);
            h.lemma_unsubscribe_removes(x);
        },
        HubOp::Publish(v) => {
            lemma_publish_queues(h, v);
        },
        HubOp::Receive(x) => {
            h.lemma_receive_wf(x);
            if h.queue_of(x).len() > 0 {
                lemma_with_queue_contains(h, x, h.queue_of(x).drop_first());
            }
        },
        HubOp::Drain(x) => {
            h.lemma_drain_wf(x);
            lemma_with_queue_contains(h, x, Seq::empty());
        },
    }
}

pub proof fn lemma_with_queue_contains(h: HubState, x: u64, q: Seq<ScoreData>)
    requires
        h.wf(),
    ensures
        forall|id: u64| #[trigger] h.with_queue(x, q).contains(id) == h.contains(id),
{
    let w = h.with_queue(x, q);
    assert forall|id: u64| #[trigger] w.contains(id) == h.contains(id) by {
        if h.contains(id) {
            let k = h.index_of(id);
            assert(w.entries[k].0 == id);
        }
        if w.contains(id) {
            let k = choose|k: int| 0 <= k < w.entries.len() && #[trigger] w.entries[k].0 == id;
            assert(h.entries[k].0 == id);
        }
    }
}

/// However subscriptions, unsubscriptions, publications and reads
/// interleave, the hub stays well formed and its registered subscribers are
/// exactly those that were registered or subscribed and have not been
/// unsubscribed since.
pub proof fn law_live_subscribers(h: HubState, ops: Seq<HubOp>)
    requires
        h.wf(),
        h.next_id + ops.len() <= u64::MAX,
    ensures
        run(h, ops).wf(),
        run(h, ops).capacity == h.capacity,
        h.next_id <= run(h, ops).next_id <= h.next_id + ops.len(),
        forall|i: int|
            0 <= i < ops.len() && ops[i] == HubOp::Subscribe ==> #[trigger] issued(h, ops, i)
                < run(h, ops).next_id,
        forall|id: u64| #[trigger] run(h, ops).contains(id) <==> live_after(h, ops, id),
    decreases ops.len(),
{
    if ops.len() == 0 {
        assert forall|id: u64| #[trigger] run(h, ops).contains(id) <==> live_after(h, ops, id) by {}
    } else {
        let n = ops.len() - 1;
        let prev = ops.drop_last();
        let o = ops.last();
        let hp = run(h, prev);
        law_live_subscribers(h, prev);
        lemma_apply(hp, o);
        assert(ops.take(n) =~= prev);
        assert forall|i: int| 0 <= i < n implies #[trigger] issued(h, ops, i) == issued(h, prev, i) by {
            assert(ops.take(i) =~= prev.take(i));
        }
        assert(issued(h, ops, n) == hp.next_id);
        assert forall|i: int|
            0 <= i < ops.len() && ops[i] == HubOp::Subscribe implies #[trigger] issued(h, ops, i)
            < run(h, ops).next_id by {
            if i < n {
                assert(prev[i] == ops[i]);
                assert(issued(h, prev, i) < hp.next_id);
            }
        }
        assert forall|id: u64| #[trigger] run(h, ops).contains(id) <==> live_after(h, ops, id) by {
            // an unsubscription before the last step is one of `prev`
            assert forall|k: int| 0 <= k <= n implies (#[trigger] unsubscribed_from(ops, k, id) <==> (
            unsubscribed_from(prev, k, id) || o == HubOp::Unsubscribe(id))) by {
                if unsubscribed_from(ops, k, id) {
                    let j = choose|j: int| k <= j < ops.len() && #[trigger] ops[j] == HubOp::Unsubscribe(id);
                    if j < n {
                        assert(prev[j] == ops[j]);
                    }
                }
                if unsubscribed_from(prev, k, id) {
                    let j = choose|j: int| k <= j < prev.len() && #[trigger] prev[j] == HubOp::Unsubscribe(id);
                    assert(ops[j] == prev[j]);
                }
                if o == HubOp::Unsubscribe(id) {
                    assert(ops[n] == o);
                }
            }
            assert(unsubscribed_from(ops, 0, id) == (unsubscribed_from(prev, 0, id) || o == HubOp::Unsubscribe(id)));
            let old_exists = exists|i: int|
                0 <= i < prev.len() && prev[i] == HubOp::Subscribe && #[trigger] issued(h, prev, i) == id
                    && !unsubscribed_from(prev, i + 1, id);
            let new_exists = exists|i: int|
                0 <= i < ops.len() && ops[i] == HubOp::Subscribe && #[trigger] issued(h, ops, i) == id
                    && !unsubscribed_from(ops, i + 1, id);
            if o == HubOp::Unsubscribe(id) {
                assert(!new_exists) by {
                    if new_exists {
                        let i = choose|i: int|
                            0 <= i < ops.len() && ops[i] == HubOp::Subscribe && #[trigger] issued(h, ops, i) == id
                                && !unsubscribed_from(ops, i + 1, id);
                        if i < n {
                            assert(unsubscribed_from(ops, i + 1, id));
                        }
                    }
                }
            } else {
                // `o` unsubscribes someone else, or nobody
                if old_exists {
                    let i = choose|i: int|
                        0 <= i < prev.len() && prev[i] == HubOp::Subscribe && #[trigger] issued(h, prev, i) == id
                            && !unsubscribed_from(prev, i + 1, id);
                    assert(ops[i] == prev[i]);
                    assert(issued(h, ops, i) == id);
                    assert(!unsubscribed_from(ops, i + 1, id));
                }
                if new_exists {
                    let i = choose|i: int|
                        0 <= i < ops.len() && ops[i] == HubOp::Subscribe && #[trigger] issued(h, ops, i) == id
                            && !unsubscribed_from(ops, i + 1, id);
                    if i < n {
                        assert(prev[i] == ops[i]);
                        assert(issued(h, prev, i) == id);
                        assert(!unsubscribed_from(prev, i + 1, id));
                        assert(old_exists);
                    } else {
                        assert(o == HubOp::Subscribe);
                        assert(id == hp.next_id);
                    }
                }
                if o == HubOp::Subscribe && id == hp.next_id {
                    assert(!unsubscribed_from(ops, n + 1, id));
                    assert(new_exists);
                }
                if o == HubOp::Subscribe && id == hp.next_id {
                    assert(!old_exists) by {
                        if old_exists {
                            let i = choose|i: int|
                                0 <= i < prev.len() && prev[i] == HubOp::Subscribe && #[trigger] issued(h, prev, i) == id
                                    && !unsubscribed_from(prev, i + 1, id);
                            assert(issued(h, prev, i) < hp.next_id);
                        }
                    }
                    assert(!hp.contains(id));
                }
            }
        }
    }
}

} // verus!
