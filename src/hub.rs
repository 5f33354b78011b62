use vstd::prelude::*;
use std::collections::VecDeque;

verus! {

/// What one subscription looks like, in terms of the hub's publish order.
pub struct SubscriberView {
    /// How many messages had been published when the subscription was made.
    pub start: nat,
    /// Position, in publish order, of the first message still waiting.
    pub next: nat,
    /// Messages waiting to be taken, oldest first.
    pub pending: Seq<Seq<char>>,
    /// Positions of the messages taken so far, in the order they were taken.
    pub taken: Seq<nat>,
}

/// The whole hub: every message ever published and each live subscription.
pub struct HubView {
    pub capacity: nat,
    pub history: Seq<Seq<char>>,
    pub subscribers: Map<usize, SubscriberView>,
}

impl SubscriberView {
    /// Messages that were dropped from this subscriber's queue because it was full.
    pub open spec fn missed(self) -> int {
        self.next - self.start - self.taken.len()
    }

    /// The messages taken so far, in the order they were taken.
    pub open spec fn received(self, history: Seq<Seq<char>>) -> Seq<Seq<char>> {
        self.taken.map_values(|k: nat| history[k as int])
    }

    /// Queue `m` behind the waiting messages, dropping the oldest one when
    /// `capacity` are already waiting.
    pub open spec fn enqueue(self, m: Seq<char>, capacity: nat) -> SubscriberView {
        if capacity == 0 {
            SubscriberView { next: self.next + 1, ..self }
        } else if self.pending.len() < capacity {
            SubscriberView { pending: self.pending.push(m), ..self }
        } else {
            SubscriberView { next: self.next + 1, pending: self.pending.drop_first().push(m), ..self }
        }
    }

    /// Hand out the oldest waiting message.
    pub open spec fn dequeue(self) -> SubscriberView {
        SubscriberView {
            next: self.next + 1,
            pending: self.pending.drop_first(),
            taken: self.taken.push(self.next),
            ..self
        }
    }

    /// How a subscription relates to the publish history.
    pub open spec fn consistent(self, history: Seq<Seq<char>>, capacity: nat) -> bool {
        &&& self.start <= self.next
        &&& self.next + self.pending.len() == history.len()
        &&& self.pending.len() <= capacity
        &&& forall|k: int| 0 <= k < self.pending.len() ==> #[trigger] self.pending[k] == history[self.next + k]
        &&& self.taken.len() <= self.next - self.start
        &&& forall|k: int| 0 <= k < self.taken.len() ==> self.start <= #[trigger] self.taken[k] < self.next
        &&& forall|a: int, b: int| 0 <= a < b < self.taken.len() ==> #[trigger] self.taken[a] < #[trigger] self.taken[b]
        &&& self.missed() == 0 ==> forall|k: int| 0 <= k < self.taken.len() ==> #[trigger] self.taken[k] == self.start + k
    }
}

impl HubView {
    /// A new subscription at slot `id`, which sees only what is published from now on.
    pub open spec fn subscribe(self, id: usize) -> HubView {
        HubView {
            subscribers: self.subscribers.insert(
                id,
                SubscriberView {
                    start: self.history.len(),
                    next: self.history.len(),
                    pending: Seq::empty(),
                    taken: Seq::empty(),
                },
            ),
            ..self
        }
    }

    /// `m` is appended to the history and queued for every subscriber.
    pub open spec fn publish(self, m: Seq<char>) -> HubView {
        HubView {
            history: self.history.push(m),
            subscribers: Map::new(
                |id: usize| self.subscribers.dom().contains(id),
                |id: usize| self.subscribers[id].enqueue(m, self.capacity),
            ),
            ..self
        }
    }

    /// The subscription at `id` is gone.
    pub open spec fn unsubscribe(self, id: usize) -> HubView {
        HubView { subscribers: self.subscribers.remove(id), ..self }
    }

    /// The oldest message waiting for `id` has been taken.
    pub open spec fn take(self, id: usize) -> HubView {
        HubView { subscribers: self.subscribers.insert(id, self.subscribers[id].dequeue()), ..self }
    }

    pub open spec fn wf(self) -> bool {
        forall|id: usize| #[trigger] self.subscribers.dom().contains(id)
            ==> self.subscribers[id].consistent(self.history, self.capacity)
    }
}

/// No replay of history: whatever a subscriber has taken, or has waiting,
/// was published at or after the moment it subscribed (`start`, which counts
/// the messages published before). Taken messages come in publish order,
/// each at most once.
pub proof fn lemma_no_replay(h: HubView, id: usize)
    requires
        h.wf(),
        h.subscribers.dom().contains(id),
    ensures
        forall|k: int| 0 <= k < h.subscribers[id].taken.len() ==>
            h.subscribers[id].start <= #[trigger] h.subscribers[id].taken[k] < h.history.len(),
        forall|a: int, b: int| 0 <= a < b < h.subscribers[id].taken.len() ==>
            #[trigger] h.subscribers[id].taken[a] < #[trigger] h.subscribers[id].taken[b],
        forall|k: int| 0 <= k < h.subscribers[id].pending.len() ==>
            #[trigger] h.subscribers[id].pending[k] == h.history[h.subscribers[id].next + k]
                && h.subscribers[id].start <= h.subscribers[id].next + k,
{
    assert(h.subscribers[id].consistent(h.history, h.capacity));
}

/// A subscriber that never lost a message to a full queue has taken, in
/// publish order and each once, every message published since it
/// subscribed, except those still waiting, which follow in publish order.
pub proof fn lemma_complete_delivery(h: HubView, id: usize)
    requires
        h.wf(),
        h.subscribers.dom().contains(id),
        h.subscribers[id].missed() == 0,
    ensures
        h.subscribers[id].received(h.history) + h.subscribers[id].pending
            == h.history.subrange(h.subscribers[id].start as int, h.history.len() as int),
{
    let s = h.subscribers[id];
    assert(s.consistent(h.history, h.capacity));
    let got = s.received(h.history) + s.pending;
    let want = h.history.subrange(s.start as int, h.history.len() as int);
    assert forall|k: int| 0 <= k < got.len() implies got[k] == want[k] by {
        if k < s.taken.len() {
            assert(s.taken[k] == s.start + k);
        } else {
            assert(s.pending[k - s.taken.len()] == h.history[s.next + k - s.taken.len()]);
        }
    }
    assert(got =~= want);
}

struct Subscriber {
    queue: VecDeque<String>,
    start: Ghost<nat>,
    next: Ghost<nat>,
    taken: Ghost<Seq<nat>>,
}

impl Subscriber {
    closed spec fn view(&self) -> SubscriberView {
        SubscriberView {
            start: self.start@,
            next: self.next@,
            pending: self.queue@.map_values(|s: String| s@),
            taken: self.taken@,
        }
    }

    fn enqueue(&mut self, m: String, capacity: usize)
        requires
            old(self).view().pending.len() <= capacity,
        ensures
            final(self).view() == old(self).view().enqueue(m@, capacity as nat),
    {
        if capacity == 0 {
            self.next = Ghost(self.next@ + 1);
        } else {
            if self.queue.len() == capacity {
                self.queue.pop_front();
                self.next = Ghost(self.next@ + 1);
            }
            self.queue.push_back(m);
        }
        assert(self.view().pending =~= old(self).view().enqueue(m@, capacity as nat).pending);
    }
}

/// A fan-out channel: every message published is queued for each subscriber
/// that is subscribed at that moment. Each subscriber's queue holds at most
/// `capacity` messages; publishing to a full queue drops its oldest message.
pub struct Hub {
    capacity: usize,
    slots: Vec<Option<Subscriber>>,
    history: Ghost<Seq<Seq<char>>>,
}

impl Hub {
    pub closed spec fn view(&self) -> HubView {
        HubView {
            capacity: self.capacity as nat,
            history: self.history@,
            subscribers: Map::new(
                |id: usize| id < self.slots@.len() && self.slots@[id as int] is Some,
                |id: usize| self.slots@[id as int]->Some_0.view(),
            ),
        }
    }

    pub closed spec fn wf(&self) -> bool {
        self@.wf()
    }

    /// A hub with no subscribers and nothing published, whose subscriber
    /// queues hold at most `capacity` messages each.
    pub fn new(capacity: usize) -> (r: Hub)
        ensures
            r.wf(),
            r@.capacity == capacity,
            r@.history == Seq::<Seq<char>>::empty(),
            r@.subscribers == Map::<usize, SubscriberView>::empty(),
    {
        let r = Hub { capacity, slots: Vec::new(), history: Ghost(Seq::empty()) };
        assert(r@.subscribers =~= Map::<usize, SubscriberView>::empty());
        r
    }

    /// The most messages a subscriber's queue holds.
    pub fn capacity(&self) -> (r: usize)
        ensures
            r == self@.capacity,
    {
        self.capacity
    }

    /// Opens a subscription that sees every message published from now on,
    /// and returns its id, which no live subscription holds.
    pub fn subscribe(&mut self) -> (id: usize)
        requires
            old(self).wf(),
        ensures
            final(self).wf(),
            !old(self)@.subscribers.dom().contains(id),
            final(self)@ == old(self)@.subscribe(id),
    {
        let fresh = Subscriber {
            queue: VecDeque::new(),
            start: Ghost(self.history@.len()),
            next: Ghost(self.history@.len()),
            taken: Ghost(Seq::empty()),
        };
        assert(fresh.view().pending =~= Seq::<Seq<char>>::empty());
        let mut i: usize = 0;
        while i < self.slots.len() && self.slots[i].is_some()
            invariant
                i <= self.slots@.len(),
                self.slots == old(self).slots,
                forall|j: int| 0 <= j < i ==> self.slots@[j] is Some,
            decreases self.slots@.len() - i,
        {
            i = i + 1;
        }
        let id = i;
        if id == self.slots.len() {
            self.slots.push(Some(fresh));
        } else {
            let mut slot = Some(fresh);
            self.slots.set_and_swap(id, &mut slot);
        }
        assert(self@.subscribers =~= old(self)@.subscribe(id).subscribers);
        id
    }

    /// Closes the subscription `id`, dropping what waits for it. Nothing
    /// changes when there is no such subscription.
    pub fn unsubscribe(&mut self, id: usize)
        requires
            old(self).wf(),
        ensures
            final(self).wf(),
            final(self)@ == old(self)@.unsubscribe(id),
    {
        if id < self.slots.len() {
            let mut slot: Option<Subscriber> = None;
            self.slots.set_and_swap(id, &mut slot);
        }
        assert(self@.subscribers =~= old(self)@.unsubscribe(id).subscribers);
    }

    /// Publishes `m`: it is queued for every live subscriber. Never blocks,
    /// and with no subscriber the message simply goes nowhere.
    pub fn publish(&mut self, m: String)
        requires
            old(self).wf(),
        ensures
            final(self).wf(),
            final(self)@ == old(self)@.publish(m@),
    {
        let ghost old_view = self@;
        self.history = Ghost(self.history@.push(m@));
        let mut i: usize = 0;
        while i < self.slots.len()
            invariant
                i <= self.slots@.len(),
                self.slots@.len() == old(self).slots@.len(),
                self.capacity == old(self).capacity,
                self.history@ == old_view.history.push(m@),
                old_view == old(self)@,
                old_view.wf(),
                forall|j: int| 0 <= j < self.slots@.len() ==>
                    (#[trigger] self.slots@[j] is Some <==> old(self).slots@[j] is Some),
                forall|j: int| 0 <= j < i && self.slots@[j] is Some ==>
                    (#[trigger] self.slots@[j])->Some_0.view()
                        == old(self).slots@[j]->Some_0.view().enqueue(m@, self.capacity as nat),
                forall|j: int| i <= j < self.slots@.len() ==> #[trigger] self.slots@[j] == old(self).slots@[j],
            decreases self.slots@.len() - i,
        {
            let mut slot: Option<Subscriber> = None;
            self.slots.set_and_swap(i, &mut slot);
            match &mut slot {
                Some(sub) => {
                    proof {
                        let id = i;
                        assert(old_view.subscribers.dom().contains(id));
                    }
                    sub.enqueue(m.clone(), self.capacity);
                },
                None => {},
            }
            self.slots.set_and_swap(i, &mut slot);
            i = i + 1;
        }
        proof {
            let target = old_view.publish(m@);
            assert(self@.subscribers =~= target.subscribers);
            assert forall|id: usize| #[trigger] target.subscribers.dom().contains(id)
                implies target.subscribers[id].consistent(target.history, target.capacity) by {
                let s = old_view.subscribers[id];
                assert(s.consistent(old_view.history, old_view.capacity));
                let t = s.enqueue(m@, old_view.capacity);
                assert(target.subscribers[id] == t);
                if old_view.capacity != 0 && s.pending.len() == old_view.capacity {
                    assert forall|k: int| 0 <= k < t.pending.len() implies
                        #[trigger] t.pending[k] == target.history[t.next + k] by {
                        if k < t.pending.len() - 1 {
                            assert(t.pending[k] == s.pending[k + 1]);
                        }
                    }
                }
            }
        }
    }

    /// Takes the oldest message waiting for subscription `id`; `None` when
    /// nothing waits or there is no such subscription.
    pub fn next_message(&mut self, id: usize) -> (r: Option<String>)
        requires
            old(self).wf(),
        ensures
            final(self).wf(),
            r is None <==> !old(self)@.subscribers.dom().contains(id)
                || old(self)@.subscribers[id].pending.len() == 0,
            r is None ==> final(self)@ == old(self)@,
            r matches Some(m) ==> m@ == old(self)@.subscribers[id].pending[0]
                && final(self)@ == old(self)@.take(id),
    {
        if id >= self.slots.len() {
            return None;
        }
        let mut slot: Option<Subscriber> = None;
        self.slots.set_and_swap(id, &mut slot);
        let r = match &mut slot {
            Some(sub) => {
                let r = sub.queue.pop_front();
                if r.is_some() {
                    let ghost k = sub.next@;
                    sub.next = Ghost(sub.next@ + 1);
                    sub.taken = Ghost(sub.taken@.push(k));
                }
                r
            },
            None => None,
        };
        self.slots.set_and_swap(id, &mut slot);
        proof {
            if r is None {
                assert(self@.subscribers =~= old(self)@.subscribers);
            } else {
                let old_view = old(self)@;
                let target = old_view.take(id);
                assert(old_view.subscribers.dom().contains(id));
                let s = old_view.subscribers[id];
                assert(s.consistent(old_view.history, old_view.capacity));
                assert(self@.subscribers[id].pending =~= target.subscribers[id].pending);
                assert(self@.subscribers =~= target.subscribers);
                let t = s.dequeue();
                assert forall|k: int| 0 <= k < t.pending.len() implies
                    #[trigger] t.pending[k] == target.history[t.next + k] by {
                    assert(t.pending[k] == s.pending[k + 1]);
                }
                assert forall|k: int| 0 <= k < t.taken.len() implies
                    t.start <= #[trigger] t.taken[k] < t.next by {
                    if k < s.taken.len() { assert(t.taken[k] == s.taken[k]); }
                }
                assert forall|a: int, b: int| 0 <= a < b < t.taken.len() implies
                    #[trigger] t.taken[a] < #[trigger] t.taken[b] by {
                    assert(t.taken[a] == s.taken[a]);
                    if b < s.taken.len() { assert(t.taken[b] == s.taken[b]); }
                }
                if t.missed() == 0 {
                    assert forall|k: int| 0 <= k < t.taken.len() implies
                        #[trigger] t.taken[k] == t.start + k by {
                        if k < s.taken.len() { assert(t.taken[k] == s.taken[k]); }
                    }
                }
            }
        }
        r
    }
}

} // verus!
