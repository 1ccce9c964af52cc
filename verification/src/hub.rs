//! The broadcast hub.
//!
//! The hub is a log of every line ever published and, for each subscriber, a
//! cursor into that log. Only the newest [`CAPACITY`] lines are kept: a
//! subscriber whose cursor falls behind them has lagged, is told how many
//! lines it lost, and goes on with the oldest line that is still kept.

use std::collections::VecDeque;
use vstd::prelude::*;

verus! {

/// How many published lines a subscriber may leave unread before it loses
/// the oldest of them.
pub const CAPACITY: usize = 100;

/// Names one subscriber of a hub. An identifier is only meaningful between
/// the `subscribe` that returned it and the `unsubscribe` that gives it back;
/// after that the hub may hand it out again.
pub type SubscriberId = usize;

/// What a subscriber gets when it asks for its next line.
#[derive(Debug, Clone, PartialEq, Eq)]
pub enum Delivery {
    /// The next line, in publication order.
    Line(String),
    /// The subscriber fell behind: this many lines were dropped for it. The
    /// count saturates at `u64::MAX`.
    Lagged(u64),
    /// Nothing has been published that the subscriber has not yet seen.
    Empty,
    /// The identifier names no current subscriber.
    Closed,
}

/// The mathematical value of a [`Delivery`].
pub enum DeliveryView {
    Line(Seq<char>),
    Lagged(nat),
    Empty,
    Closed,
}

impl View for Delivery {
    type V = DeliveryView;

    open spec fn view(&self) -> DeliveryView {
        match self {
            Delivery::Line(s) => DeliveryView::Line(s@),
            Delivery::Lagged(n) => DeliveryView::Lagged(*n as nat),
            Delivery::Empty => DeliveryView::Empty,
            Delivery::Closed => DeliveryView::Closed,
        }
    }
}

/// Why a line could not be published.
#[derive(Debug, PartialEq, Eq, Structural, Clone, Copy)]
pub enum PublishError {
    /// Nobody is subscribed; the line is dropped.
    NoSubscribers,
}

/// The mathematical value of a [`Hub`]: the log and the cursors.
pub struct HubView {
    /// Every line ever published, oldest first.
    pub history: Seq<Seq<char>>,
    /// For each subscriber, the position in `history` of the line it is due
    /// next (or would be due, had that line not been dropped).
    pub cursors: Map<SubscriberId, nat>,
}

impl HubView {
    /// No cursor is ahead of the log, and the subscribers are finitely many.
    pub open spec fn wf(self) -> bool {
        &&& self.cursors.dom().finite()
        &&& forall|id: SubscriberId| #[trigger]
            self.cursors.contains_key(id) ==> self.cursors[id] <= self.history.len()
    }

    /// The hub before anything happened.
    pub open spec fn empty() -> HubView {
        HubView { history: Seq::empty(), cursors: Map::empty() }
    }

    pub open spec fn subscribed(self, id: SubscriberId) -> bool {
        self.cursors.contains_key(id)
    }

    /// The position of the oldest line that is still kept.
    pub open spec fn oldest_kept(self) -> nat {
        if self.history.len() > CAPACITY {
            (self.history.len() - CAPACITY) as nat
        } else {
            0
        }
    }

    /// How many lines were dropped for `id` since it last asked.
    pub open spec fn missed(self, id: SubscriberId) -> nat {
        if self.cursors[id] < self.oldest_kept() {
            (self.oldest_kept() - self.cursors[id]) as nat
        } else {
            0
        }
    }

    /// The lines that `id` has yet to receive and that are still kept,
    /// oldest first.
    pub open spec fn pending(self, id: SubscriberId) -> Seq<Seq<char>> {
        if self.cursors[id] < self.oldest_kept() {
            self.history.subrange(self.oldest_kept() as int, self.history.len() as int)
        } else {
            self.history.subrange(self.cursors[id] as int, self.history.len() as int)
        }
    }

    /// The hub after `id` has subscribed: its cursor stands at the end of the
    /// log, so nothing published before is ever delivered to it.
    pub open spec fn subscribe(self, id: SubscriberId) -> HubView {
        HubView { history: self.history, cursors: self.cursors.insert(id, self.history.len()) }
    }

    /// The hub after `id` has left.
    pub open spec fn unsubscribe(self, id: SubscriberId) -> HubView {
        HubView { history: self.history, cursors: self.cursors.remove(id) }
    }

    /// The hub after `line` has been published.
    pub open spec fn publish(self, line: Seq<char>) -> HubView {
        HubView { history: self.history.push(line), cursors: self.cursors }
    }

    /// What `id` is handed when it asks for its next line.
    pub open spec fn delivery(self, id: SubscriberId) -> DeliveryView {
        if !self.subscribed(id) {
            DeliveryView::Closed
        } else if self.missed(id) > 0 {
            DeliveryView::Lagged(
                if self.missed(id) > u64::MAX {
                    u64::MAX as nat
                } else {
                    self.missed(id)
                },
            )
        } else if self.cursors[id] == self.history.len() {
            DeliveryView::Empty
        } else {
            DeliveryView::Line(self.history[self.cursors[id] as int])
        }
    }

    /// The hub after `id` has asked for its next line: a lagging subscriber
    /// is moved to the oldest kept line, one that received a line moves past
    /// it, and nothing else changes.
    pub open spec fn receive(self, id: SubscriberId) -> HubView {
        if !self.subscribed(id) {
            self
        } else if self.missed(id) > 0 {
            HubView { history: self.history, cursors: self.cursors.insert(id, self.oldest_kept()) }
        } else if self.cursors[id] == self.history.len() {
            self
        } else {
            HubView {
                history: self.history,
                cursors: self.cursors.insert(id, self.cursors[id] + 1),
            }
        }
    }
}

/// One subscriber's place, as the hub stores it.
#[derive(Clone, Copy)]
struct Slot {
    /// How many of the kept lines the subscriber has yet to receive.
    pending: usize,
    /// How many lines were dropped for it since it last asked, saturating.
    missed: u64,
    /// Its cursor into the whole log.
    cursor: Ghost<nat>,
}

impl Slot {
    /// The stored counters are what the cursor says, for a log of `len` lines.
    spec fn agrees(self, len: nat) -> bool {
        let behind = len - self.cursor@;
        &&& self.cursor@ <= len
        &&& self.pending == (if behind <= CAPACITY { behind } else { CAPACITY as int })
        &&& self.missed == (if behind <= CAPACITY {
            0
        } else if behind - CAPACITY <= u64::MAX {
            behind - CAPACITY
        } else {
            u64::MAX as int
        })
    }
}

/// The positions below `n` that hold a subscriber.
spec fn occupied(slots: Seq<Option<Slot>>, n: nat) -> Set<SubscriberId>
    decreases n,
{
    if n == 0 {
        Set::empty()
    } else if slots[n - 1] is Some {
        occupied(slots, (n - 1) as nat).insert((n - 1) as usize)
    } else {
        occupied(slots, (n - 1) as nat)
    }
}

proof fn lemma_occupied(slots: Seq<Option<Slot>>, n: nat)
    requires
        n <= slots.len() <= usize::MAX,
    ensures
        occupied(slots, n).finite(),
        occupied(slots, n).len() <= n,
        forall|i: SubscriberId| #[trigger]
            occupied(slots, n).contains(i) <==> (i < n && slots[i as int] is Some),
    decreases n,
{
    if n > 0 {
        lemma_occupied(slots, (n - 1) as nat);
    }
}

/// Below `n`, the occupied positions depend only on which positions hold a
/// subscriber.
proof fn lemma_occupied_shape(a: Seq<Option<Slot>>, b: Seq<Option<Slot>>, n: nat)
    requires
        n <= a.len(),
        n <= b.len(),
        forall|k: int| 0 <= k < n ==> (#[trigger] a[k] is Some) == (b[k] is Some),
    ensures
        occupied(a, n) == occupied(b, n),
    decreases n,
{
    if n > 0 {
        lemma_occupied_shape(a, b, (n - 1) as nat);
    }
}

/// Counting one position further adds it exactly when it holds a subscriber.
proof fn lemma_occupied_step(slots: Seq<Option<Slot>>, n: nat)
    requires
        n < slots.len() <= usize::MAX,
    ensures
        occupied(slots, n + 1).len() == occupied(slots, n).len() + (if slots[n as int] is Some {
            1nat
        } else {
            0nat
        }),
{
    lemma_occupied(slots, n);
}

/// `retained` holds the newest lines of `history`, up to `CAPACITY` of them.
spec fn keeps_tail(retained: Seq<String>, history: Seq<Seq<char>>) -> bool {
    let len = history.len();
    let kept = retained.len();
    &&& kept == (if len <= CAPACITY { len } else { CAPACITY as nat })
    &&& forall|k: int| 0 <= k < kept ==> (#[trigger] retained[k])@ == history[len - kept + k]
}

/// The broadcast hub: the newest lines, and each subscriber's place in them.
pub struct Hub {
    /// The newest lines of the log, at most `CAPACITY` of them, oldest first.
    retained: VecDeque<String>,
    /// The subscribers, each at the position that is its identifier.
    slots: Vec<Option<Slot>>,
    /// Every line ever published.
    history: Ghost<Seq<Seq<char>>>,
}

impl View for Hub {
    type V = HubView;

    closed spec fn view(&self) -> HubView {
        HubView {
            history: self.history@,
            cursors: Map::new(
                |i: SubscriberId| occupied(self.slots@, self.slots@.len()).contains(i),
                |i: SubscriberId| self.slots@[i as int].unwrap().cursor@,
            ),
        }
    }
}

impl Hub {
    /// The stored lines are the tail of the log, and every subscriber's
    /// counters agree with its cursor.
    pub closed spec fn wf(&self) -> bool {
        let len = self.history@.len();
        &&& keeps_tail(self.retained@, self.history@)
        &&& forall|i: int|
            0 <= i < self.slots@.len() && (#[trigger] self.slots@[i]) is Some
                ==> self.slots@[i].unwrap().agrees(len)
    }

    /// A well-formed hub has a well-formed value.
    pub proof fn lemma_view_wf(&self)
        requires
            self.wf(),
        ensures
            self@.wf(),
    {
        self.lemma_view();
    }

    /// The value's subscribers are the occupied positions.
    proof fn lemma_view(&self)
        requires
            self.wf(),
        ensures
            self@.wf(),
            self@.history == self.history@,
            self@.cursors.dom() == occupied(self.slots@, self.slots@.len()),
            forall|i: SubscriberId| #[trigger]
                self@.cursors.contains_key(i) <==> (i < self.slots@.len()
                    && self.slots@[i as int] is Some),
            forall|i: SubscriberId| #[trigger]
                self@.cursors.contains_key(i) ==> self@.cursors[i]
                    == self.slots@[i as int].unwrap().cursor@,
    {
        assert(self.slots@.len() == self.slots.len());
        lemma_occupied(self.slots@, self.slots@.len());
        assert(self@.cursors.dom() =~= occupied(self.slots@, self.slots@.len()));
    }

    /// A hub with no subscriber and nothing published.
    pub fn new() -> (hub: Hub)
        ensures
            hub.wf(),
            hub@ == HubView::empty(),
    {
        let hub = Hub {
            retained: VecDeque::new(),
            slots: Vec::new(),
            history: Ghost(Seq::empty()),
        };
        proof {
            assert(hub@.cursors =~= Map::empty());
        }
        hub
    }

    /// How many subscribers the hub has.
    pub fn subscriber_count(&self) -> (n: usize)
        requires
            self.wf(),
        ensures
            n == self@.cursors.dom().len(),
    {
        let mut n: usize = 0;
        let mut i: usize = 0;
        while i < self.slots.len()
            invariant
                i <= self.slots@.len(),
                n == occupied(self.slots@, i as nat).len(),
                n <= i,
            decreases self.slots@.len() - i,
        {
            proof {
                lemma_occupied_step(self.slots@, i as nat);
            }
            if self.slots[i].is_some() {
                n = n + 1;
            }
            i = i + 1;
        }
        proof {
            self.lemma_view();
        }
        n
    }

    /// Whether `id` names a current subscriber.
    pub fn is_subscribed(&self, id: SubscriberId) -> (b: bool)
        requires
            self.wf(),
        ensures
            b == self@.subscribed(id),
    {
        proof {
            self.lemma_view();
        }
        id < self.slots.len() && self.slots[id].is_some()
    }

    /// Registers a new subscriber and returns its identifier, the least one
    /// that is free. The subscriber starts at the end of the log: it will
    /// receive the lines published from now on, and none from before.
    pub fn subscribe(&mut self) -> (id: SubscriberId)
        requires
            old(self).wf(),
        ensures
            final(self).wf(),
            !old(self)@.subscribed(id),
            forall|j: SubscriberId| j < id ==> old(self)@.subscribed(j),
            final(self)@ == old(self)@.subscribe(id),
    {
        proof {
            self.lemma_view();
        }
        let slot = Slot { pending: 0, missed: 0, cursor: Ghost(self.history@.len()) };
        let mut i: usize = 0;
        while i < self.slots.len() && self.slots[i].is_some()
            invariant
                i <= self.slots@.len(),
                forall|j: int| 0 <= j < i ==> (#[trigger] self.slots@[j]) is Some,
            decreases self.slots@.len() - i,
        {
            i = i + 1;
        }
        if i < self.slots.len() {
            self.slots[i] = Some(slot);
        } else {
            self.slots.push(Some(slot));
        }
        proof {
            self.lemma_view();
            assert(self@.cursors =~= old(self)@.subscribe(i).cursors);
        }
        i
    }

    /// Removes the subscriber `id` and says whether there was one. Nothing
    /// changes for any other subscriber.
    pub fn unsubscribe(&mut self, id: SubscriberId) -> (was: bool)
        requires
            old(self).wf(),
        ensures
            final(self).wf(),
            was == old(self)@.subscribed(id),
            final(self)@ == old(self)@.unsubscribe(id),
    {
        proof {
            self.lemma_view();
        }
        let was = id < self.slots.len() && self.slots[id].is_some();
        if was {
            self.slots[id] = None;
        }
        proof {
            self.lemma_view();
            assert(self@.cursors =~= old(self)@.unsubscribe(id).cursors);
        }
        was
    }

    /// Publishes `line` to every current subscriber and returns how many
    /// there are. With no subscriber the line reaches nobody, now or later,
    /// and the call reports `NoSubscribers`.
    pub fn publish(&mut self, line: String) -> (r: Result<usize, PublishError>)
        requires
            old(self).wf(),
        ensures
            final(self).wf(),
            final(self)@ == old(self)@.publish(line@),
            r == (if old(self)@.cursors.dom().len() == 0 {
                Err::<usize, PublishError>(PublishError::NoSubscribers)
            } else {
                Ok::<usize, PublishError>(old(self)@.cursors.dom().len() as usize)
            }),
    {
        proof {
            self.lemma_view();
        }
        let ghost before = self.history@;
        let ghost after = self.history@.push(line@);
        if self.retained.len() == CAPACITY {
            let _ = self.retained.pop_front();
        }
        self.retained.push_back(line);
        proof {
            self.history = Ghost(after);
        }
        let mut n: usize = 0;
        let mut i: usize = 0;
        while i < self.slots.len()
            invariant
                i <= self.slots@.len(),
                self.slots@.len() == old(self).slots@.len(),
                n == occupied(self.slots@, i as nat).len(),
                n <= i,
                after.len() == before.len() + 1,
                self.history@ == after,
                keeps_tail(self.retained@, after),
                forall|k: int|
                    0 <= k < self.slots@.len() ==> ((#[trigger] self.slots@[k]) is Some) == (
                    old(self).slots@[k] is Some),
                forall|k: int|
                    0 <= k < self.slots@.len() && (#[trigger] self.slots@[k]) is Some
                        ==> self.slots@[k].unwrap().cursor@ == old(self).slots@[k].unwrap().cursor@,
                forall|k: int|
                    0 <= k < i && (#[trigger] self.slots@[k]) is Some
                        ==> self.slots@[k].unwrap().agrees(after.len()),
                forall|k: int|
                    i <= k < self.slots@.len() && (#[trigger] self.slots@[k]) is Some
                        ==> self.slots@[k].unwrap().agrees(before.len()),
            decreases self.slots@.len() - i,
        {
            let ghost slots_before = self.slots@;
            match self.slots[i] {
                Some(slot) => {
                    let moved = if slot.pending < CAPACITY {
                        Slot { pending: slot.pending + 1, missed: slot.missed, cursor: slot.cursor }
                    } else if slot.missed < u64::MAX {
                        Slot { pending: slot.pending, missed: slot.missed + 1, cursor: slot.cursor }
                    } else {
                        slot
                    };
                    self.slots[i] = Some(moved);
                    n = n + 1;
                },
                None => {},
            }
            proof {
                lemma_occupied_shape(slots_before, self.slots@, i as nat);
                lemma_occupied_step(self.slots@, i as nat);
            }
            i = i + 1;
        }
        proof {
            lemma_occupied_shape(old(self).slots@, self.slots@, self.slots@.len());
            self.lemma_view();
            assert(self@.cursors =~= old(self)@.publish(line@).cursors);
        }
        if n == 0 {
            Err(PublishError::NoSubscribers)
        } else {
            Ok(n)
        }
    }

    /// Hands the subscriber `id` its next line, if there is one. A subscriber
    /// that has fallen behind is told once how many lines it lost and is
    /// moved to the oldest line still kept, which the next call returns.
    pub fn receive(&mut self, id: SubscriberId) -> (d: Delivery)
        requires
            old(self).wf(),
        ensures
            final(self).wf(),
            d@ == old(self)@.delivery(id),
            final(self)@ == old(self)@.receive(id),
    {
        proof {
            self.lemma_view();
        }
        if id >= self.slots.len() {
            return Delivery::Closed;
        }
        match self.slots[id] {
            None => Delivery::Closed,
            Some(slot) => {
                if slot.missed > 0 {
                    let ghost oldest = self@.oldest_kept();
                    self.slots[id] = Some(
                        Slot { pending: slot.pending, missed: 0, cursor: Ghost(oldest) },
                    );
                    proof {
                        self.lemma_view();
                        assert(self@.cursors =~= old(self)@.receive(id).cursors);
                    }
                    Delivery::Lagged(slot.missed)
                } else if slot.pending == 0 {
                    Delivery::Empty
                } else {
                    let at = self.retained.len() - slot.pending;
                    let line = self.retained[at].clone();
                    self.slots[id] = Some(
                        Slot {
                            pending: slot.pending - 1,
                            missed: 0,
                            cursor: Ghost(slot.cursor@ + 1),
                        },
                    );
                    proof {
                        self.lemma_view();
                        assert(self@.cursors =~= old(self)@.receive(id).cursors);
                    }
                    Delivery::Line(line)
                }
            },
        }
    }
}

} // verus!
