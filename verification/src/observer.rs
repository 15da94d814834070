//! Notification of observers. Systems publish events to a dispatcher;
//! listeners subscribe to it and are told of each event while their
//! subscription lasts.

use vstd::prelude::*;

verus! {

/// What the turn pipeline reports.
#[derive(Debug)]
pub enum Event {
    /// A blow that did damage.
    AttackLanded { attacker: specs::Entity, defender_name: String, damage: i64 },
    /// A blow that did none.
    AttackNoEffect { attacker: specs::Entity, defender_name: String },
    /// A death.
    EntityDied { entity: specs::Entity, name: String },
}

/// An observer of events that states what it has heard. What a dispatcher
/// proves of `heard()` holds of the listeners that state it: a listener
/// says over its own state which events it was told of, and `notify` adds
/// to that. An observer that keeps nothing to say it over is a `Sink`, and
/// listens through a `Relay`.
pub trait Listener {
    /// Every event that this listener was told of, in the order of telling.
    spec fn heard(&self) -> Seq<Event>;

    /// Takes note of `event`: the listener has then heard it, after all
    /// that it had heard before.
    fn notify(&mut self, event: &Event)
        ensures
            final(self).heard() == old(self).heard().push(*event),
    ;
}

/// One subscription: the handle it was given, and whether it still lasts.
#[derive(Clone, Copy, Debug, PartialEq, Eq, Structural)]
pub struct Subscription {
    pub handle: u64,
    pub live: bool,
}

/// The subscriptions of `subs` that still last, in their order.
pub open spec fn lasting(subs: Seq<Subscription>) -> Seq<Subscription>
    decreases subs.len(),
{
    if subs.len() == 0 {
        Seq::empty()
    } else if subs.last().live {
        lasting(subs.drop_last()).push(subs.last())
    } else {
        lasting(subs.drop_last())
    }
}

/// `subs` with every subscription under `handle` ended.
pub open spec fn released(subs: Seq<Subscription>, handle: u64) -> Seq<Subscription> {
    Seq::new(
        subs.len(),
        |i: int|
            if subs[i].handle == handle {
                Subscription { handle, live: false }
            } else {
                subs[i]
            },
    )
}

/// Every subscription that lasts is one of the subscriptions, and is live.
pub proof fn lemma_lasting_are_live(subs: Seq<Subscription>)
    ensures
        forall|i: int| 0 <= i < lasting(subs).len() ==> (#[trigger] lasting(subs)[i]).live,
        forall|i: int| 0 <= i < lasting(subs).len() ==> subs.contains(#[trigger] lasting(subs)[i]),
        lasting(subs).len() <= subs.len(),
    decreases subs.len(),
{
    if subs.len() > 0 {
        let rest = subs.drop_last();
        lemma_lasting_are_live(rest);
        assert forall|i: int| 0 <= i < lasting(subs).len() implies subs.contains(
            #[trigger] lasting(subs)[i],
        ) by {
            if i < lasting(rest).len() {
                let s = lasting(rest)[i];
                let k = choose|k: int| 0 <= k < rest.len() && rest[k] == s;
                assert(subs[k] == s);
            } else {
                assert(subs[subs.len() - 1] == subs.last());
            }
        }
    }
}

/// Where all subscriptions last, all are kept.
pub proof fn lemma_lasting_all(subs: Seq<Subscription>)
    requires
        forall|i: int| 0 <= i < subs.len() ==> (#[trigger] subs[i]).live,
    ensures
        lasting(subs) == subs,
    decreases subs.len(),
{
    if subs.len() > 0 {
        lemma_lasting_all(subs.drop_last());
        assert(subs.drop_last().push(subs.last()) == subs);
    }
}

/// An observer of events that states nothing of itself.
pub trait Sink {
    /// Takes note of `event`.
    fn receive(&mut self, event: &Event);
}

/// A listener that hands every event on to a sink and keeps count, for
/// the proof alone, of what it handed on.
pub struct Relay {
    sink: Box<dyn Sink>,
    told: Ghost<Seq<Event>>,
}

impl Relay {
    /// A relay to `sink` that has heard nothing.
    pub fn new(sink: Box<dyn Sink>) -> (r: Relay)
        ensures
            r.heard().len() == 0,
    {
        Relay { sink, told: Ghost(Seq::empty()) }
    }
}

impl Listener for Relay {
    closed spec fn heard(&self) -> Seq<Event> {
        self.told@
    }

    fn notify(&mut self, event: &Event) {
        self.sink.receive(event);
        proof {
            self.told@ = self.told@.push(*event);
        }
    }
}

/// A listener that keeps what it was told.
pub struct Journal {
    pub events: Vec<Event>,
}

impl Listener for Journal {
    open spec fn heard(&self) -> Seq<Event> {
        self.events@
    }

    fn notify(&mut self, event: &Event) {
        self.events.push(event.duplicate());
    }
}

impl Event {
    /// A copy of this event.
    pub fn duplicate(&self) -> (e: Event)
        ensures
            e == *self,
    {
        match self {
            Event::AttackLanded { attacker, defender_name, damage } => Event::AttackLanded {
                attacker: *attacker,
                defender_name: defender_name.clone(),
                damage: *damage,
            },
            Event::AttackNoEffect { attacker, defender_name } => Event::AttackNoEffect {
                attacker: *attacker,
                defender_name: defender_name.clone(),
            },
            Event::EntityDied { entity, name } => Event::EntityDied {
                entity: *entity,
                name: name.clone(),
            },
        }
    }
}

/// The items that stand beside the subscriptions that still last, in
/// their order: `items[i]` is kept exactly if `subs[i]` lasts.
pub open spec fn kept<T>(subs: Seq<Subscription>, items: Seq<T>) -> Seq<T>
    decreases subs.len(),
{
    if subs.len() == 0 || items.len() == 0 {
        Seq::empty()
    } else if subs.last().live {
        kept(subs.drop_last(), items.drop_last()).push(items.last())
    } else {
        kept(subs.drop_last(), items.drop_last())
    }
}

/// What each of the listeners has heard once it was told of `events` too.
pub open spec fn each_told(heard: Seq<Seq<Event>>, events: Seq<Event>) -> Seq<Seq<Event>> {
    Seq::new(heard.len(), |i: int| heard[i] + events)
}

/// As many items are kept as subscriptions last.
pub proof fn lemma_kept_len<T>(subs: Seq<Subscription>, items: Seq<T>)
    requires
        subs.len() == items.len(),
    ensures
        kept(subs, items).len() == lasting(subs).len(),
    decreases subs.len(),
{
    if subs.len() > 0 {
        lemma_kept_len(subs.drop_last(), items.drop_last());
    }
}

/// Where all subscriptions last, all items are kept.
pub proof fn lemma_kept_all<T>(subs: Seq<Subscription>, items: Seq<T>)
    requires
        subs.len() == items.len(),
        forall|i: int| 0 <= i < subs.len() ==> (#[trigger] subs[i]).live,
    ensures
        kept(subs, items) == items,
    decreases subs.len(),
{
    if subs.len() > 0 {
        lemma_kept_all(subs.drop_last(), items.drop_last());
        assert(items.drop_last().push(items.last()) == items);
    }
}

/// A listener as the dispatcher holds it.
struct Subscriber {
    listener: Box<dyn Listener>,
}

/// Wraps a listener for the dispatcher to hold.
fn subscriber(listener: Box<dyn Listener>) -> (s: Subscriber)
    ensures
        s == (Subscriber { listener }),
{
    Subscriber { listener }
}

/// What `listener` has heard, as a dispatcher holds it once it has
/// subscribed.
pub closed spec fn heard_by(listener: Box<dyn Listener>) -> Seq<Event> {
    (Subscriber { listener }).listener.heard()
}

/// What each of the listeners has heard.
spec fn heard_of(listeners: Seq<Subscriber>) -> Seq<Seq<Event>> {
    Seq::new(listeners.len(), |i: int| listeners[i].listener.heard())
}

/// What the kept listeners have heard is what is kept of what the listeners
/// have heard.
proof fn lemma_heard_of_kept(subs: Seq<Subscription>, listeners: Seq<Subscriber>)
    requires
        subs.len() == listeners.len(),
    ensures
        heard_of(kept(subs, listeners)) == kept(subs, heard_of(listeners)),
    decreases subs.len(),
{
    if subs.len() > 0 {
        lemma_heard_of_kept(subs.drop_last(), listeners.drop_last());
        assert(heard_of(listeners).drop_last() == heard_of(listeners.drop_last()));
        assert(heard_of(listeners).last() == listeners.last().listener.heard());
        let rest = kept(subs.drop_last(), listeners.drop_last());
        assert(heard_of(rest.push(listeners.last())) == heard_of(rest).push(
            listeners.last().listener.heard(),
        ));
    } else {
        assert(heard_of(kept(subs, listeners)) == kept(subs, heard_of(listeners)));
    }
}

/// Publishes events to the listeners that subscribed.
pub struct Dispatcher {
    listeners: Vec<Subscriber>,
    subs: Vec<Subscription>,
    next_handle: u64,
    history: Ghost<Seq<Event>>,
}

impl Dispatcher {
    /// The representation invariant: one subscription per listener, under
    /// handles that were given out.
    pub closed spec fn wf(&self) -> bool {
        &&& self.listeners@.len() == self.subs@.len()
        &&& forall|i: int| 0 <= i < self.subs@.len() ==> (#[trigger] self.subs@[i]).handle
            < self.next_handle
    }

    /// The subscriptions, in the order of subscribing.
    pub closed spec fn subscriptions(&self) -> Seq<Subscription> {
        self.subs@
    }

    /// What the listener of each subscription has heard: `heard()[i]` is
    /// every event that the listener of `subscriptions()[i]` was told of.
    pub closed spec fn heard(&self) -> Seq<Seq<Event>> {
        heard_of(self.listeners@)
    }

    /// The number of handles given out so far.
    pub closed spec fn issued(&self) -> int {
        self.next_handle as int
    }

    /// Every event published so far, in the order of publishing.
    pub closed spec fn history(&self) -> Seq<Event> {
        self.history@
    }

    /// There is one listener for each subscription.
    pub proof fn lemma_aligned(&self)
        requires
            self.wf(),
        ensures
            self.heard().len() == self.subscriptions().len(),
    {
    }

    /// A dispatcher without listeners that has published nothing.
    pub fn new() -> (d: Dispatcher)
        ensures
            d.wf(),
            d.subscriptions().len() == 0,
            d.heard().len() == 0,
            d.issued() == 0,
            d.history().len() == 0,
    {
        Dispatcher {
            listeners: Vec::new(),
            subs: Vec::new(),
            next_handle: 0,
            history: Ghost(Seq::empty()),
        }
    }

    /// The number of handles given out so far.
    pub fn handles_issued(&self) -> (n: u64)
        ensures
            n == self.issued(),
    {
        self.next_handle
    }

    /// Subscribes `listener` and returns the handle of the subscription,
    /// which no subscription had before.
    pub fn register_listener(&mut self, listener: Box<dyn Listener>) -> (handle: u64)
        requires
            old(self).wf(),
            old(self).issued() < u64::MAX,
        ensures
            final(self).wf(),
            handle == old(self).issued(),
            final(self).issued() == old(self).issued() + 1,
            final(self).subscriptions() == old(self).subscriptions().push(
                Subscription { handle, live: true },
            ),
            final(self).heard() == old(self).heard().push(heard_by(listener)),
            forall|i: int|
                0 <= i < old(self).subscriptions().len() ==> (#[trigger] old(
                    self,
                ).subscriptions()[i]).handle != handle,
            final(self).history() == old(self).history(),
    {
        let handle = self.next_handle;
        self.next_handle = handle + 1;
        let held = subscriber(listener);
        self.listeners.push(held);
        self.subs.push(Subscription { handle, live: true });
        proof {
            assert(self.listeners@ == old(self).listeners@.push(held));
            assert(held.listener.heard() == heard_by(listener));
            assert(heard_of(self.listeners@) =~= heard_of(old(self).listeners@).push(
                heard_by(listener),
            ));
        }
        handle
    }

    /// Ends the subscription under `handle`. Its listener is told of nothing
    /// more, and the next dispatch forgets it.
    pub fn release(&mut self, handle: u64)
        requires
            old(self).wf(),
        ensures
            final(self).wf(),
            final(self).issued() == old(self).issued(),
            final(self).subscriptions() == released(old(self).subscriptions(), handle),
            final(self).heard() == old(self).heard(),
            final(self).history() == old(self).history(),
    {
        let n = self.subs.len();
        let mut i: usize = 0;
        while i < n
            invariant
                self.wf(),
                n == self.subs@.len(),
                i <= n,
                self.subs@.len() == old(self).subs@.len(),
                self.listeners == old(self).listeners,
                self.next_handle == old(self).next_handle,
                self.history == old(self).history,
                forall|k: int|
                    0 <= k < i ==> #[trigger] self.subs@[k] == released(old(self).subs@, handle)[k],
                forall|k: int| i <= k < n ==> #[trigger] self.subs@[k] == old(self).subs@[k],
            decreases n - i,
        {
            if self.subs[i].handle == handle {
                self.subs.set(i, Subscription { handle, live: false });
            }
            i = i + 1;
        }
        assert(self.subs@ =~= released(old(self).subs@, handle));
    }

    /// Forgets the subscriptions that have ended, each with its listener.
    fn prune(&mut self)
        requires
            old(self).wf(),
        ensures
            final(self).wf(),
            final(self).issued() == old(self).issued(),
            final(self).subscriptions() == lasting(old(self).subscriptions()),
            final(self).heard() == kept(old(self).subscriptions(), old(self).heard()),
            final(self).history() == old(self).history(),
            forall|i: int|
                0 <= i < final(self).subscriptions().len() ==> (#[trigger] final(self).subscriptions()[i]).live,
    {
        let ghost before = self.subs@;
        let ghost held = self.listeners@;
        let ghost mut done: int = 0;
        let mut i: usize = 0;
        while i < self.subs.len()
            invariant
                self.listeners@.len() == self.subs@.len(),
                self.next_handle == old(self).next_handle,
                self.history == old(self).history,
                before == old(self).subs@,
                held == old(self).listeners@,
                held.len() == before.len(),
                forall|k: int| 0 <= k < before.len() ==> (#[trigger] before[k]).handle
                    < self.next_handle,
                0 <= i <= self.subs@.len(),
                0 <= done <= before.len(),
                self.subs@.len() - i == before.len() - done,
                self.subs@.subrange(0, i as int) == lasting(before.subrange(0, done)),
                self.subs@.subrange(i as int, self.subs@.len() as int) == before.subrange(
                    done,
                    before.len() as int,
                ),
                self.listeners@.subrange(0, i as int) == kept(
                    before.subrange(0, done),
                    held.subrange(0, done),
                ),
                self.listeners@.subrange(i as int, self.listeners@.len() as int) == held.subrange(
                    done,
                    held.len() as int,
                ),
            decreases self.subs@.len() - i,
        {
            let ghost now = self.subs@;
            let ghost here = self.listeners@;
            proof {
                assert(now[i as int] == now.subrange(i as int, now.len() as int)[0]);
                assert(here[i as int] == here.subrange(i as int, here.len() as int)[0]);
                assert(before.subrange(0, done + 1).drop_last() == before.subrange(0, done));
                assert(before.subrange(0, done + 1).last() == before[done]);
                assert(held.subrange(0, done + 1).drop_last() == held.subrange(0, done));
                assert(held.subrange(0, done + 1).last() == held[done]);
            }
            if self.subs[i].live {
                proof {
                    assert(now.subrange(0, i as int + 1) == now.subrange(0, i as int).push(
                        now[i as int],
                    ));
                    assert(here.subrange(0, i as int + 1) == here.subrange(0, i as int).push(
                        here[i as int],
                    ));
                    lemma_tail_after(now, i as int, before, done);
                    lemma_tail_after(here, i as int, held, done);
                }
                i = i + 1;
            } else {
                self.subs.remove(i);
                self.listeners.remove(i);
                proof {
                    let after = self.subs@;
                    let there = self.listeners@;
                    assert(after.subrange(0, i as int) == now.subrange(0, i as int));
                    assert(there.subrange(0, i as int) == here.subrange(0, i as int));
                    lemma_tail_after(now, i as int, before, done);
                    lemma_tail_after(here, i as int, held, done);
                    assert(after.subrange(i as int, after.len() as int) == now.subrange(
                        i as int + 1,
                        now.len() as int,
                    ));
                    assert(there.subrange(i as int, there.len() as int) == here.subrange(
                        i as int + 1,
                        here.len() as int,
                    ));
                }
            }
            proof {
                done = done + 1;
            }
        }
        proof {
            assert(self.subs@.subrange(0, i as int) == self.subs@);
            assert(self.listeners@.subrange(0, i as int) == self.listeners@);
            assert(before.subrange(0, done) == before);
            assert(held.subrange(0, done) == held);
            lemma_lasting_are_live(before);
            assert forall|k: int| 0 <= k < self.subs@.len() implies (#[trigger] self.subs@[k]).handle
                < self.next_handle by {
                let s = lasting(before)[k];
                let j = choose|j: int| 0 <= j < before.len() && before[j] == s;
                assert(before[j].handle < self.next_handle);
            }
            lemma_heard_of_kept(before, held);
        }
    }

    /// Publishes `event`: the subscriptions that have ended are forgotten,
    /// each with its listener, and each listener whose subscription lasts
    /// is told once, in the order of subscribing.
    pub fn dispatch(&mut self, event: Event)
        requires
            old(self).wf(),
        ensures
            final(self).wf(),
            final(self).issued() == old(self).issued(),
            final(self).subscriptions() == lasting(old(self).subscriptions()),
            final(self).heard() == each_told(
                kept(old(self).subscriptions(), old(self).heard()),
                seq![event],
            ),
            final(self).history() == old(self).history().push(event),
    {
        self.prune();
        let ghost base = self.heard();
        let n = self.listeners.len();
        let mut i: usize = 0;
        while i < n
            invariant
                i <= n,
                n == self.listeners@.len(),
                n == base.len(),
                self.wf(),
                self.subs@ == lasting(old(self).subs@),
                self.next_handle == old(self).next_handle,
                self.history == old(self).history,
                forall|j: int|
                    0 <= j < i ==> (#[trigger] self.listeners@[j]).listener.heard() == base[j].push(
                        event,
                    ),
                forall|j: int|
                    i <= j < n ==> (#[trigger] self.listeners@[j]).listener.heard() == base[j],
            decreases n - i,
        {
            self.listeners[i].listener.notify(&event);
            i = i + 1;
        }
        proof {
            assert(self.heard() =~= each_told(base, seq![event])) by {
                assert forall|j: int| 0 <= j < n implies self.heard()[j] == each_told(
                    base,
                    seq![event],
                )[j] by {
                    assert(self.listeners@[j].listener.heard() == base[j].push(event));
                    assert(base[j].push(event) =~= base[j] + seq![event]);
                }
            }
            self.history@ = self.history@.push(event);
        }
    }
}

/// What is left of `now` after place `i` is what is left of `base` after
/// place `k`, where the two agree from those places on.
proof fn lemma_tail_after<T>(now: Seq<T>, i: int, base: Seq<T>, k: int)
    requires
        0 <= i < now.len(),
        0 <= k < base.len(),
        now.subrange(i, now.len() as int) == base.subrange(k, base.len() as int),
    ensures
        now.subrange(i + 1, now.len() as int) == base.subrange(k + 1, base.len() as int),
        now[i] == base[k],
{
    let a = now.subrange(i + 1, now.len() as int);
    let b = base.subrange(k + 1, base.len() as int);
    let x = now.subrange(i, now.len() as int);
    let y = base.subrange(k, base.len() as int);
    assert(x.len() == now.len() - i);
    assert(y.len() == base.len() - k);
    assert(a.len() == b.len());
    assert forall|j: int| 0 <= j < a.len() implies a[j] == b[j] by {
        assert(a[j] == now.subrange(i, now.len() as int)[j + 1]);
        assert(b[j] == base.subrange(k, base.len() as int)[j + 1]);
    }
    assert(a =~= b);
    assert(now[i] == now.subrange(i, now.len() as int)[0]);
    assert(base[k] == base.subrange(k, base.len() as int)[0]);
}

} // verus!
