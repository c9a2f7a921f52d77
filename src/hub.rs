use vstd::prelude::*;
use std::collections::VecDeque;
use crate::score::ScoreData;

verus! {

/// What a subscriber's queue becomes when `v` is published to it: `v` is
/// appended, and when the queue already holds `cap` values its oldest one
/// is evicted first (drop-oldest).
pub open spec fn deliver(q: Seq<ScoreData>, v: ScoreData, cap: nat) -> Seq<ScoreData> {
    if q.len() < cap {
        q.push(v)
    } else {
        q.drop_first().push(v)
    }
}

/// The mathematical state of a hub: the registered subscribers in order of
/// registration, each with its pending values, the fixed queue capacity and
/// the identity the next subscriber will get.
pub ghost struct HubState {
    pub entries: Seq<(u64, Seq<ScoreData>)>,
    pub capacity: nat,
    pub next_id: nat,
}

impl HubState {
    /// Queues within capacity, identities below the next one and all distinct.
    pub open spec fn wf(self) -> bool {
        &&& self.capacity >= 1
        &&& self.next_id <= u64::MAX
        &&& forall|i: int|
            0 <= i < self.entries.len() ==> {
                &&& (#[trigger] self.entries[i]).1.len() <= self.capacity
                &&& self.entries[i].0 < self.next_id
            }
        &&& forall|i: int, j: int|
            0 <= i < self.entries.len() && 0 <= j < self.entries.len() && i != j
                ==> #[trigger] self.entries[i].0 != #[trigger] self.entries[j].0
    }

    pub open spec fn contains(self, id: u64) -> bool {
        exists|i: int| 0 <= i < self.entries.len() && #[trigger] self.entries[i].0 == id
    }

    /// The position of a registered subscriber.
    pub open spec fn index_of(self, id: u64) -> int {
        choose|i: int| 0 <= i < self.entries.len() && #[trigger] self.entries[i].0 == id
    }

    /// In a well-formed state each position holds the one entry of its identity.
    pub proof fn lemma_index_of(self, i: int)
        requires
            self.wf(),
            0 <= i < self.entries.len(),
        ensures
            self.contains(self.entries[i].0),
            self.index_of(self.entries[i].0) == i,
    {
        assert(self.contains(self.entries[i].0));
    }

    pub proof fn lemma_subscribe_wf(self)
        requires
            self.wf(),
            self.can_subscribe(),
        ensures
            self.subscribe().wf(),
    {
        let e = self.subscribe().entries;
        assert forall|i: int| 0 <= i < e.len() - 1 implies #[trigger] e[i] == self.entries[i] by {}
        assert(e[e.len() - 1] == (self.next_id as u64, Seq::<ScoreData>::empty()));
        assert forall|i: int| 0 <= i < e.len() implies #[trigger] e[i].1.len() <= self.capacity
            && e[i].0 < self.next_id + 1 by {
            if i < e.len() - 1 {
                assert(self.entries[i].1.len() <= self.capacity);
            }
        }
        assert forall|i: int, j: int|
            0 <= i < e.len() && 0 <= j < e.len() && i != j implies #[trigger] e[i].0
            != #[trigger] e[j].0 by {
            if i < e.len() - 1 && j < e.len() - 1 {
                assert(self.entries[i].0 != self.entries[j].0);
            } else if i < e.len() - 1 {
                assert(self.entries[i].0 < self.next_id);
            } else {
                assert(self.entries[j].0 < self.next_id);
            }
        }
    }

    pub proof fn lemma_unsubscribe_wf(self, id: u64)
        requires
            self.wf(),
        ensures
            self.unsubscribe(id).wf(),
    {
        if self.contains(id) {
            let k = self.index_of(id);
            let e = self.entries.remove(k);
            assert forall|i: int| 0 <= i < e.len() implies e[i] == self.entries[if i < k { i } else { i + 1 }] by {}
        }
    }

    /// After `unsubscribe(id)` the identity is gone and every other entry stays.
    pub proof fn lemma_unsubscribe_removes(self, id: u64)
        requires
            self.wf(),
        ensures
            !self.unsubscribe(id).contains(id),
            forall|other: u64| other != id ==> (self.unsubscribe(id).contains(other) <==> self.contains(other)),
            self.unsubscribe(id).count() == if self.contains(id) { self.count() - 1 } else { self.count() as int },
    {
        if self.contains(id) {
            let k = self.index_of(id);
            let e = self.unsubscribe(id).entries;
            assert forall|i: int| 0 <= i < e.len() implies e[i] == self.entries[if i < k { i } else { i + 1 }] by {}
            if self.unsubscribe(id).contains(id) {
                let i = choose|i: int| 0 <= i < e.len() && #[trigger] e[i].0 == id;
                let j = if i < k { i } else { i + 1 };
                assert(self.entries[j].0 == id);
            }
            assert forall|other: u64| other != id && self.contains(other) implies self.unsubscribe(id).contains(other) by {
                let j = self.index_of(other);
                let i = if j < k { j } else { j - 1 };
                assert(e[i].0 == other);
            }
            assert forall|other: u64| other != id && self.unsubscribe(id).contains(other) implies self.contains(other) by {
                let i = choose|i: int| 0 <= i < e.len() && #[trigger] e[i].0 == other;
                let j = if i < k { i } else { i + 1 };
                assert(self.entries[j].0 == other);
            }
        }
    }

    pub proof fn lemma_publish_wf(self, v: ScoreData)
        requires
            self.wf(),
        ensures
            self.publish(v).wf(),
    {
    }

    pub proof fn lemma_with_queue_wf(self, id: u64, q: Seq<ScoreData>)
        requires
            self.wf(),
            q.len() <= self.capacity,
        ensures
            self.with_queue(id, q).wf(),
    {
        if self.contains(id) {
            let k = self.index_of(id);
            let e = self.with_queue(id, q).entries;
            assert forall|i: int| 0 <= i < e.len() && i != k implies #[trigger] e[i] == self.entries[i] by {}
        }
    }

    pub proof fn lemma_receive_wf(self, id: u64)
        requires
            self.wf(),
        ensures
            self.receive(id).wf(),
    {
        if self.queue_of(id).len() > 0 {
            self.lemma_with_queue_wf(id, self.queue_of(id).drop_first());
        }
    }

    pub proof fn lemma_drain_wf(self, id: u64)
        requires
            self.wf(),
        ensures
            self.drain(id).wf(),
    {
        self.lemma_with_queue_wf(id, Seq::empty());
    }

    /// The values waiting for `id`; none for an identity that is not registered.
    pub open spec fn queue_of(self, id: u64) -> Seq<ScoreData> {
        if self.contains(id) {
            self.entries[self.index_of(id)].1
        } else {
            Seq::empty()
        }
    }

    pub open spec fn count(self) -> nat {
        self.entries.len()
    }

    pub open spec fn can_subscribe(self) -> bool {
        self.next_id < u64::MAX
    }

    /// A fresh subscriber `next_id` is registered with an empty queue.
    pub open spec fn subscribe(self) -> HubState {
        HubState {
            entries: self.entries.push((self.next_id as u64, Seq::empty())),
            next_id: self.next_id + 1,
            ..self
        }
    }

    /// The entry of `id` is removed, if there is one.
    pub open spec fn unsubscribe(self, id: u64) -> HubState {
        if self.contains(id) {
            HubState { entries: self.entries.remove(self.index_of(id)), ..self }
        } else {
            self
        }
    }

    /// `v` is delivered to every registered subscriber.
    pub open spec fn publish(self, v: ScoreData) -> HubState {
        HubState {
            entries: self.entries.map_values(
                |e: (u64, Seq<ScoreData>)| (e.0, deliver(e.1, v, self.capacity)),
            ),
            ..self
        }
    }

    /// The queue of `id` is replaced by `q`.
    pub open spec fn with_queue(self, id: u64, q: Seq<ScoreData>) -> HubState {
        if self.contains(id) {
            HubState { entries: self.entries.update(self.index_of(id), (id, q)), ..self }
        } else {
            self
        }
    }

    /// The oldest pending value of `id` is taken out.
    pub open spec fn receive(self, id: u64) -> HubState {
        if self.queue_of(id).len() > 0 {
            self.with_queue(id, self.queue_of(id).drop_first())
        } else {
            self
        }
    }

    /// Every pending value of `id` is taken out.
    pub open spec fn drain(self, id: u64) -> HubState {
        self.with_queue(id, Seq::empty())
    }
}

/// One registered subscriber and its bounded delivery queue.
struct Subscriber {
    id: u64,
    queue: VecDeque<ScoreData>,
}

impl Subscriber {
    fn deliver(&mut self, v: ScoreData, cap: usize)
        requires
            cap >= 1,
        ensures
            final(self).id == old(self).id,
            final(self).queue@ == deliver(old(self).queue@, v, cap as nat),
    {
        if self.queue.len() >= cap {
            self.queue.pop_front();
        }
        self.queue.push_back(v);
        assert(self.queue@ =~= deliver(old(self).queue@, v, cap as nat));
    }

    fn take_all(&mut self) -> (r: Vec<ScoreData>)
        ensures
            final(self).id == old(self).id,
            final(self).queue@ == Seq::<ScoreData>::empty(),
            r@ == old(self).queue@,
    {
        let mut r: Vec<ScoreData> = Vec::new();
        while self.queue.len() > 0
            invariant
                self.id == old(self).id,
                r@ + self.queue@ == old(self).queue@,
            decreases self.queue@.len(),
        {
            let ghost rest = self.queue@;
            match self.queue.pop_front() {
                Some(v) => {
                    r.push(v);
                    assert(r@ + self.queue@ =~= old(self).queue@) by {
                        assert(rest =~= seq![v] + self.queue@);
                    }
                },
                None => {},
            }
        }
        assert(r@ =~= old(self).queue@);
        r
    }
}

/// The fan-out point between the producer and the subscribers.
///
/// Each subscriber owns a queue of fixed capacity. Publishing never blocks:
/// when a queue is full its oldest value is evicted to make room for the new
/// one, so a slow subscriber only loses its own stale values.
pub struct Hub {
    subscribers: Vec<Subscriber>,
    capacity: usize,
    next_id: u64,
}

impl Hub {
    pub closed spec fn view(&self) -> HubState {
        HubState {
            entries: self.subscribers@.map_values(|s: Subscriber| (s.id, s.queue@)),
            capacity: self.capacity as nat,
            next_id: self.next_id as nat,
        }
    }

    /// A hub with no subscribers whose queues hold `capacity` values each.
    pub fn new(capacity: usize) -> (r: Hub)
        requires
            capacity >= 1,
        ensures
            r@ == (HubState { entries: Seq::empty(), capacity: capacity as nat, next_id: 0 }),
            r@.wf(),
    {
        let r = Hub { subscribers: Vec::new(), capacity, next_id: 0 };
        assert(r@.entries =~= Seq::empty());
        r
    }

    pub fn capacity(&self) -> (r: usize)
        ensures
            r == self@.capacity,
    {
        self.capacity
    }

    /// How many subscribers are registered.
    pub fn subscriber_count(&self) -> (r: usize)
        ensures
            r == self@.count(),
    {
        self.subscribers.len()
    }

    /// Whether another identity is left to hand out.
    pub fn can_subscribe(&self) -> (r: bool)
        ensures
            r == self@.can_subscribe(),
    {
        self.next_id < u64::MAX
    }

    fn find(&self, id: u64) -> (r: Option<usize>)
        requires
            self@.wf(),
        ensures
            match r {
                Some(i) => self@.contains(id) && i == self@.index_of(id),
                None => !self@.contains(id),
            },
    {
        let mut i: usize = 0;
        while i < self.subscribers.len()
            invariant
                self@.wf(),
                i <= self.subscribers@.len(),
                forall|k: int| 0 <= k < i ==> #[trigger] self@.entries[k].0 != id,
            decreases self.subscribers@.len() - i,
        {
            if self.subscribers[i].id == id {
                proof {
                    self@.lemma_index_of(i as int);
                }
                return Some(i);
            }
            i = i + 1;
        }
        None
    }

    /// Whether `id` is registered.
    pub fn is_subscribed(&self, id: u64) -> (r: bool)
        requires
            self@.wf(),
        ensures
            r == self@.contains(id),
    {
        self.find(id).is_some()
    }

    /// Registers a new subscriber with an empty queue and returns its
    /// identity. It will receive only values published from now on.
    pub fn subscribe(&mut self) -> (r: u64)
        requires
            old(self)@.wf(),
            old(self)@.can_subscribe(),
        ensures
            r == old(self)@.next_id,
            final(self)@ == old(self)@.subscribe(),
            final(self)@.wf(),
    {
        let id = self.next_id;
        self.subscribers.push(Subscriber { id, queue: VecDeque::new() });
        self.next_id = id + 1;
        assert(self@.entries =~= old(self)@.subscribe().entries);
        proof {
            old(self)@.lemma_subscribe_wf();
        }
        id
    }

    /// Removes the entry of `id`; nothing happens when it has none.
    pub fn unsubscribe(&mut self, id: u64)
        requires
            old(self)@.wf(),
        ensures
            final(self)@ == old(self)@.unsubscribe(id),
            final(self)@.wf(),
    {
        match self.find(id) {
            Some(i) => {
                self.subscribers.remove(i);
                assert(self@.entries =~= old(self)@.unsubscribe(id).entries);
            },
            None => {},
        }
        proof {
            old(self)@.lemma_unsubscribe_wf(id);
        }
    }

    /// Delivers `v` to every registered subscriber without waiting on any of
    /// them: a full queue drops its oldest value.
    pub fn publish(&mut self, v: ScoreData)
        requires
            old(self)@.wf(),
        ensures
            final(self)@ == old(self)@.publish(v),
            final(self)@.wf(),
    {
        let n = self.subscribers.len();
        let mut i: usize = 0;
        while i < n
            invariant
                n == self.subscribers@.len(),
                i <= n,
                self.capacity == old(self).capacity,
                self.next_id == old(self).next_id,
                old(self)@.wf(),
                forall|k: int|
                    0 <= k < i ==> {
                        &&& #[trigger] self.subscribers@[k].id == old(self).subscribers@[k].id
                        &&& self.subscribers@[k].queue@ == deliver(
                            old(self).subscribers@[k].queue@,
                            v,
                            old(self)@.capacity,
                        )
                    },
                forall|k: int| i <= k < n ==> #[trigger] self.subscribers@[k] == old(self).subscribers@[k],
            decreases n - i,
        {
            let cap = self.capacity;
            let ghost before = self.subscribers@;
            self.subscribers[i].deliver(v, cap);
            assert(self.subscribers@ == before.update(i as int, self.subscribers@[i as int]));
            i = i + 1;
        }
        assert(self@.entries =~= old(self)@.publish(v).entries);
        proof {
            old(self)@.lemma_publish_wf(v);
        }
    }

    /// Takes the oldest value waiting for `id`, if any.
    pub fn receive(&mut self, id: u64) -> (r: Option<ScoreData>)
        requires
            old(self)@.wf(),
        ensures
            final(self)@ == old(self)@.receive(id),
            final(self)@.wf(),
            r == (if old(self)@.queue_of(id).len() > 0 {
                Some(old(self)@.queue_of(id)[0])
            } else {
                None
            }),
    {
        proof {
            old(self)@.lemma_receive_wf(id);
        }
        match self.find(id) {
            Some(i) => {
                let ghost before = self.subscribers@;
                let r = self.subscribers[i].queue.pop_front();
                assert(self.subscribers@ == before.update(i as int, self.subscribers@[i as int]));
                assert(self@.entries =~= old(self)@.receive(id).entries);
                r
            },
            None => None,
        }
    }

    /// Takes every value waiting for `id`, oldest first.
    pub fn drain(&mut self, id: u64) -> (r: Vec<ScoreData>)
        requires
            old(self)@.wf(),
        ensures
            final(self)@ == old(self)@.drain(id),
            final(self)@.wf(),
            r@ == old(self)@.queue_of(id),
    {
        proof {
            old(self)@.lemma_drain_wf(id);
        }
        match self.find(id) {
            Some(i) => {
                let ghost before = self.subscribers@;
                let r = self.subscribers[i].take_all();
                assert(self.subscribers@ == before.update(i as int, self.subscribers@[i as int]));
                assert(self@.entries =~= old(self)@.drain(id).entries);
                r
            },
            None => Vec::new(),
        }
    }
}

} // verus!
