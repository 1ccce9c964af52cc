//! Histories of a hub, and what holds of every one of them.
//!
//! A history is a sequence of events: somebody publishes, subscribes, leaves
//! or asks for its next line. The laws below follow one subscriber through an
//! arbitrary history and say what it is handed, whatever the others do.

use crate::hub::{DeliveryView, HubView, SubscriberId, CAPACITY};
use vstd::prelude::*;

verus! {

/// One thing that happens to a hub.
pub enum Event {
    /// A line is published.
    Publish(Seq<char>),
    /// The identifier is given to a new subscriber.
    Subscribe(SubscriberId),
    /// The subscriber leaves.
    Unsubscribe(SubscriberId),
    /// The subscriber asks for its next line.
    Receive(SubscriberId),
}

impl Event {
    /// The event names `id`.
    pub open spec fn concerns(self, id: SubscriberId) -> bool {
        self == Event::Subscribe(id) || self == Event::Unsubscribe(id) || self == Event::Receive(
            id,
        )
    }

    /// The event begins or ends the subscription `id`.
    pub open spec fn rebinds(self, id: SubscriberId) -> bool {
        self == Event::Subscribe(id) || self == Event::Unsubscribe(id)
    }
}

/// The hub after one event.
pub open spec fn step(h: HubView, e: Event) -> HubView {
    match e {
        Event::Publish(line) => h.publish(line),
        Event::Subscribe(id) => h.subscribe(id),
        Event::Unsubscribe(id) => h.unsubscribe(id),
        Event::Receive(id) => h.receive(id),
    }
}

/// The hub after the events of `t`, in order.
pub open spec fn run(h: HubView, t: Seq<Event>) -> HubView
    decreases t.len(),
{
    if t.len() == 0 {
        h
    } else {
        step(run(h, t.drop_last()), t.last())
    }
}

/// `id` stays subscribed throughout `t`: no event of `t` begins or ends its
/// subscription.
pub open spec fn keeps(t: Seq<Event>, id: SubscriberId) -> bool {
    forall|i: int| 0 <= i < t.len() ==> !(#[trigger] t[i]).rebinds(id)
}

/// No event of `t` names `id`.
pub open spec fn ignores(t: Seq<Event>, id: SubscriberId) -> bool {
    forall|i: int| 0 <= i < t.len() ==> !(#[trigger] t[i]).concerns(id)
}

/// The lines published in `t`, in order.
pub open spec fn published(t: Seq<Event>) -> Seq<Seq<char>>
    decreases t.len(),
{
    if t.len() == 0 {
        Seq::empty()
    } else {
        match t.last() {
            Event::Publish(line) => published(t.drop_last()).push(line),
            _ => published(t.drop_last()),
        }
    }
}

/// Everything that `id` is handed in `t`, in order, starting from `h`.
pub open spec fn deliveries(h: HubView, t: Seq<Event>, id: SubscriberId) -> Seq<DeliveryView>
    decreases t.len(),
{
    if t.len() == 0 {
        Seq::empty()
    } else if t.last() == Event::Receive(id) {
        deliveries(h, t.drop_last(), id).push(run(h, t.drop_last()).delivery(id))
    } else {
        deliveries(h, t.drop_last(), id)
    }
}

/// The lines that `id` is handed in `t`, in order, starting from `h`.
pub open spec fn received(h: HubView, t: Seq<Event>, id: SubscriberId) -> Seq<Seq<char>>
    decreases t.len(),
{
    if t.len() == 0 {
        Seq::empty()
    } else if t.last() == Event::Receive(id) {
        match run(h, t.drop_last()).delivery(id) {
            DeliveryView::Line(line) => received(h, t.drop_last(), id).push(line),
            _ => received(h, t.drop_last(), id),
        }
    } else {
        received(h, t.drop_last(), id)
    }
}

/// For each line that `id` is handed in `t`, its position in the log.
pub open spec fn received_at(h: HubView, t: Seq<Event>, id: SubscriberId) -> Seq<nat>
    decreases t.len(),
{
    if t.len() == 0 {
        Seq::empty()
    } else if t.last() == Event::Receive(id) {
        match run(h, t.drop_last()).delivery(id) {
            DeliveryView::Line(_) => received_at(h, t.drop_last(), id).push(
                run(h, t.drop_last()).cursors[id],
            ),
            _ => received_at(h, t.drop_last(), id),
        }
    } else {
        received_at(h, t.drop_last(), id)
    }
}

/// `id` is never told in `t` that it lost lines, and has lost none at the end.
pub open spec fn lossless(h: HubView, t: Seq<Event>, id: SubscriberId) -> bool {
    &&& forall|i: int|
        0 <= i < deliveries(h, t, id).len() ==> !(#[trigger] deliveries(h, t, id)[i]
            is Lagged)
    &&& run(h, t).missed(id) == 0
}

/// Every event keeps a hub well-formed.
pub proof fn lemma_step_wf(h: HubView, e: Event)
    requires
        h.wf(),
    ensures
        step(h, e).wf(),
{
}

/// A history only appends to the log, keeps a hub well-formed, and moves the
/// cursor of a subscriber that stays only forward.
pub proof fn lemma_run(h: HubView, t: Seq<Event>, id: SubscriberId)
    requires
        h.wf(),
    ensures
        run(h, t).wf(),
        run(h, t).history == h.history + published(t),
        h.subscribed(id) && keeps(t, id) ==> run(h, t).subscribed(id) && h.cursors[id] <= run(
            h,
            t,
        ).cursors[id],
    decreases t.len(),
{
    if t.len() > 0 {
        let before = run(h, t.drop_last());
        lemma_run(h, t.drop_last(), id);
        lemma_step_wf(before, t.last());
    }
}

/// Every line that a subscriber is handed stands in the log, at or after the
/// place where the subscriber started, and the lines are handed out in the
/// order in which they were published: their positions in the log strictly
/// increase. This holds with and without lag.
pub proof fn lemma_received_follows_log(h: HubView, t: Seq<Event>, id: SubscriberId)
    requires
        h.wf(),
        h.subscribed(id),
        keeps(t, id),
    ensures
        received_at(h, t, id).len() == received(h, t, id).len(),
        forall|i: int|
            0 <= i < received(h, t, id).len() ==> {
                &&& h.cursors[id] <= (#[trigger] received_at(h, t, id)[i]) < run(h, t).cursors[id]
                &&& run(h, t).history[received_at(h, t, id)[i] as int] == received(h, t, id)[i]
            },
        forall|i: int, j: int|
            0 <= i < j < received(h, t, id).len() ==> (#[trigger] received_at(h, t, id)[i]) < (
            #[trigger] received_at(h, t, id)[j]),
    decreases t.len(),
{
    if t.len() > 0 {
        let t0 = t.drop_last();
        let before = run(h, t0);
        lemma_received_follows_log(h, t0, id);
        lemma_run(h, t0, id);
        lemma_run(h, t, id);
        lemma_step_wf(before, t.last());
        assert(before.history =~= run(h, t).history.subrange(0, before.history.len() as int));
    }
}

/// A subscriber that joins now is never handed a line that was published
/// before: whatever happens afterwards, each line it receives stands in the
/// log at or after the place where the log ended when it joined.
pub proof fn lemma_no_backfill(h: HubView, id: SubscriberId, t: Seq<Event>)
    requires
        h.wf(),
        keeps(t, id),
    ensures
        h.subscribe(id).pending(id) == Seq::<Seq<char>>::empty(),
        h.subscribe(id).delivery(id) == DeliveryView::Empty,
        forall|i: int|
            0 <= i < received(h.subscribe(id), t, id).len() ==> h.history.len() <= (
            #[trigger] received_at(h.subscribe(id), t, id)[i]),
        forall|i: int|
            0 <= i < received(h.subscribe(id), t, id).len() ==> received(h.subscribe(id), t, id)[i]
                == published(t)[#[trigger] received_at(h.subscribe(id), t, id)[i]
                - h.history.len()],
{
    let g = h.subscribe(id);
    lemma_received_follows_log(g, t, id);
    lemma_run(g, t, id);
}

/// Without lag nothing is lost or reordered: the lines that a subscriber has
/// been handed, followed by those that still wait for it, are the lines that
/// waited for it at the start followed by the lines published since.
pub proof fn lemma_lossless_is_complete(h: HubView, t: Seq<Event>, id: SubscriberId)
    requires
        h.wf(),
        h.subscribed(id),
        keeps(t, id),
        h.missed(id) == 0,
        lossless(h, t, id),
    ensures
        received(h, t, id) + run(h, t).pending(id) == h.pending(id) + published(t),
    decreases t.len(),
{
    if t.len() > 0 {
        let t0 = t.drop_last();
        let before = run(h, t0);
        lemma_run(h, t0, id);
        assert(before.missed(id) == 0) by {
            if before.missed(id) > 0 {
                if t.last() == Event::Receive(id) {
                    let ds = deliveries(h, t, id);
                    assert(ds[ds.len() - 1] is Lagged);
                }
            }
        }
        assert(lossless(h, t0, id)) by {
            assert forall|i: int| 0 <= i < deliveries(h, t0, id).len() implies !(
            #[trigger] deliveries(h, t0, id)[i] is Lagged) by {
                assert(deliveries(h, t, id)[i] == deliveries(h, t0, id)[i]);
            }
        }
        lemma_lossless_is_complete(h, t0, id);
        assert(h.pending(id) + published(t) =~= h.pending(id) + published(t0) + (published(
            t,
        ).subrange(published(t0).len() as int, published(t).len() as int)));
    }
}

/// The history in which `id` asks for its next line `k` times in a row.
pub open spec fn requests(id: SubscriberId, k: nat) -> Seq<Event> {
    Seq::new(k, |i: int| Event::Receive(id))
}

/// A subscriber that has lost nothing and asks `k` times in a row, with `k` no
/// more than the number of lines that wait for it, is handed the first `k` of
/// them, in order; the others still wait.
pub proof fn lemma_drain(h: HubView, id: SubscriberId, k: nat)
    requires
        h.wf(),
        h.subscribed(id),
        h.missed(id) == 0,
        k <= h.pending(id).len(),
    ensures
        received(h, requests(id, k), id) == h.pending(id).subrange(0, k as int),
        run(h, requests(id, k)).pending(id) == h.pending(id).subrange(
            k as int,
            h.pending(id).len() as int,
        ),
        run(h, requests(id, k)).missed(id) == 0,
        run(h, requests(id, k)).history == h.history,
    decreases k,
{
    let t = requests(id, k);
    if k > 0 {
        let t0 = requests(id, (k - 1) as nat);
        assert(t.drop_last() =~= t0);
        lemma_drain(h, id, (k - 1) as nat);
        lemma_run(h, t0, id);
        let before = run(h, t0);
        assert(before.pending(id).len() > 0);
    }
}

/// A published line reaches every subscriber, the publisher's own included:
/// it is the newest of the lines that wait for each. A subscriber that has
/// lost nothing is handed it, after the lines that were waiting before it,
/// within as many requests as lines wait for it, which is at most `CAPACITY`.
pub proof fn lemma_publish_reaches_everyone(h: HubView, line: Seq<char>, id: SubscriberId)
    requires
        h.wf(),
        h.subscribed(id),
    ensures
        h.publish(line).subscribed(id),
        1 <= h.publish(line).pending(id).len() <= CAPACITY,
        h.publish(line).pending(id).last() == line,
        h.publish(line).missed(id) == 0 ==> {
            &&& h.publish(line).pending(id) == h.pending(id).push(line)
            &&& received(
                h.publish(line),
                requests(id, h.publish(line).pending(id).len()),
                id,
            ) == h.pending(id).push(line)
        },
{
    let g = h.publish(line);
    if g.missed(id) == 0 {
        lemma_drain(g, id, g.pending(id).len());
    }
}

/// A subscriber that stays but does not ask while more than `CAPACITY` lines
/// are published has lost at least one of them. It is told so once, and then
/// goes on: the lines that wait for it are the newest `CAPACITY` lines, and
/// its next request returns the oldest of these.
pub proof fn lemma_lag_and_recovery(h: HubView, t: Seq<Event>, id: SubscriberId)
    requires
        h.wf(),
        h.subscribed(id),
        ignores(t, id),
        published(t).len() > CAPACITY,
    ensures
        run(h, t).subscribed(id),
        run(h, t).missed(id) >= 1,
        run(h, t).missed(id) == run(h, t).history.len() - CAPACITY - h.cursors[id],
        run(h, t).delivery(id) is Lagged,
        run(h, t).delivery(id)->Lagged_0 >= 1,
        run(h, t).receive(id).missed(id) == 0,
        run(h, t).receive(id).pending(id) == run(h, t).history.subrange(
            run(h, t).history.len() - CAPACITY,
            run(h, t).history.len() as int,
        ),
        run(h, t).receive(id).delivery(id) == DeliveryView::Line(
            run(h, t).history[run(h, t).history.len() - CAPACITY],
        ),
{
    lemma_untouched(h, t, id);
    lemma_run(h, t, id);
}

/// A history that does not name a subscriber leaves it subscribed, with its
/// cursor where it was.
pub proof fn lemma_untouched(h: HubView, t: Seq<Event>, id: SubscriberId)
    requires
        h.subscribed(id),
        ignores(t, id),
    ensures
        run(h, t).subscribed(id),
        run(h, t).cursors[id] == h.cursors[id],
    decreases t.len(),
{
    if t.len() > 0 {
        lemma_untouched(h, t.drop_last(), id);
    }
}

/// A subscriber that leaves takes nothing with it: in any history that does
/// not name it again, every other subscriber is handed exactly what it would
/// have been handed had the first stayed, and the hub ends up the same but
/// for the one that left. Newcomers are taken on as before.
pub proof fn lemma_departure_is_unseen(
    h: HubView,
    gone: SubscriberId,
    t: Seq<Event>,
    id: SubscriberId,
)
    requires
        id != gone,
        ignores(t, gone),
    ensures
        run(h.unsubscribe(gone), t) == run(h, t).unsubscribe(gone),
        deliveries(h.unsubscribe(gone), t, id) == deliveries(h, t, id),
        received(h.unsubscribe(gone), t, id) == received(h, t, id),
    decreases t.len(),
{
    if t.len() > 0 {
        let t0 = t.drop_last();
        lemma_departure_is_unseen(h, gone, t0, id);
        let a = run(h, t0);
        let b = run(h.unsubscribe(gone), t0);
        match t.last() {
            Event::Publish(line) => {},
            Event::Subscribe(j) => {
                assert(b.subscribe(j).cursors =~= a.subscribe(j).unsubscribe(gone).cursors);
            },
            Event::Unsubscribe(j) => {
                assert(b.unsubscribe(j).cursors =~= a.unsubscribe(j).unsubscribe(gone).cursors);
            },
            Event::Receive(j) => {
                assert(b.receive(j).cursors =~= a.receive(j).unsubscribe(gone).cursors);
            },
        }
    }
}

} // verus!
