//! The publish/subscribe bus: every subscriber independently receives every
//! event published after it subscribed, in publish order. The bus has a fixed
//! capacity; a subscriber that falls behind by more than that capacity loses
//! its oldest unread events and sees a lag indication instead — publishers
//! are never blocked by slow consumers (drop-oldest, an explicit policy).

use vstd::prelude::*;

use crate::event::Event;

verus! {

/// What one receive attempt yields for one subscription.
#[derive(Debug)]
pub enum RecvOutcome {
    /// The next unread event, in publish order.
    Received(Event),
    /// The subscription fell behind by more than the bus capacity; this many
    /// oldest unread events were dropped for it. The next receive resumes at
    /// the oldest event still within the capacity window.
    Lagged(usize),
    /// Nothing unread yet, and the bus may still publish.
    Empty,
    /// Nothing unread and the bus is closed: the subscription is drained.
    Closed,
}

/// The bus. The full publish history is the model of what was ever offered;
/// per-subscription cursors decide what each subscriber can still read.
pub struct Bus {
    entries: Vec<Event>,
    capacity: usize,
    closed: bool,
}

/// An independent cursor into the bus: one per subscriber.
pub struct BusSubscription {
    next: usize,
    origin: Ghost<int>,
}

impl BusSubscription {
    /// Position of the next unread event in the bus's publish history.
    pub closed spec fn next_index(&self) -> int {
        self.next as int
    }

    /// Length the publish history had when this subscription was created:
    /// nothing before it is ever delivered.
    pub closed spec fn origin(&self) -> int {
        self.origin@
    }

    /// The cursor sits between its creation point and the end of the history.
    pub open spec fn valid_for(&self, bus: &Bus) -> bool {
        0 <= self.origin() <= self.next_index() <= bus.log().len()
    }
}

impl Bus {
    /// Everything ever published, in publish order.
    pub closed spec fn log(&self) -> Seq<Event> {
        self.entries@
    }

    /// The fixed capacity: how far a subscriber may fall behind before it
    /// starts losing its oldest unread events.
    pub closed spec fn cap(&self) -> int {
        self.capacity as int
    }

    /// Whether the producer side has closed the bus.
    pub closed spec fn is_closed(&self) -> bool {
        self.closed
    }

    pub open spec fn wf(&self) -> bool {
        self.cap() >= 1
    }

    pub fn new(capacity: usize) -> (bus: Bus)
        requires
            capacity >= 1,
        ensures
            bus.wf(),
            bus.log() == Seq::<Event>::empty(),
            bus.cap() == capacity,
            !bus.is_closed(),
    {
        Bus { entries: Vec::new(), capacity, closed: false }
    }

    /// Publish one event. Publishing never waits for subscribers and never
    /// fails: a slow subscriber loses old events instead of exerting
    /// backpressure here.
    pub fn publish(&mut self, event: Event)
        requires
            !old(self).is_closed(),
        ensures
            final(self).log() == old(self).log().push(event),
            final(self).cap() == old(self).cap(),
            !final(self).is_closed(),
    {
        self.entries.push(event);
    }

    /// Close the producer side: subscribers drain what is left, then see
    /// `Closed`.
    pub fn close(&mut self)
        ensures
            final(self).log() == old(self).log(),
            final(self).cap() == old(self).cap(),
            final(self).is_closed(),
    {
        self.closed = true;
    }

    /// Open an independent subscription. Only events published after this
    /// call are visible through it: no replay of history.
    pub fn subscribe(&self) -> (sub: BusSubscription)
        ensures
            sub.valid_for(self),
            sub.origin() == self.log().len(),
            sub.next_index() == self.log().len(),
    {
        let next = self.entries.len();
        BusSubscription { next, origin: Ghost(next as int) }
    }

    /// One receive attempt for one subscription. Exactly one of the four
    /// outcomes occurs:
    /// - the subscription fell behind by more than the capacity: a lag
    ///   indication reporting how many events it lost, and the cursor jumps
    ///   to the oldest event still within the window;
    /// - an unread event within the window: delivered, cursor advances one;
    /// - the cursor is at the end: `Closed` if the bus closed, else `Empty`.
    ///
    /// Every delivered event sits at or after the subscription's origin, so
    /// no event published before the subscribe call is ever delivered.
    pub fn recv(&self, sub: &mut BusSubscription) -> (r: RecvOutcome)
        requires
            old(sub).valid_for(self),
        ensures
            final(sub).valid_for(self),
            final(sub).origin() == old(sub).origin(),
            old(sub).next_index() <= final(sub).next_index(),
            (r is Lagged) <==> self.log().len() - old(sub).next_index() > self.cap(),
            r matches RecvOutcome::Lagged(missed) ==> {
                &&& missed == self.log().len() - old(sub).next_index() - self.cap()
                &&& final(sub).next_index() == self.log().len() - self.cap()
            },
            (r is Received) <==> (old(sub).next_index() < self.log().len()
                && self.log().len() - old(sub).next_index() <= self.cap()),
            r matches RecvOutcome::Received(e) ==> {
                &&& e == self.log()[old(sub).next_index()]
                &&& final(sub).next_index() == old(sub).next_index() + 1
            },
            r matches RecvOutcome::Received(e) ==> exists|i: int|
                old(sub).origin() <= i < self.log().len() && e == self.log()[i],
            (r is Closed) <==> (old(sub).next_index() == self.log().len() && self.is_closed()),
            (r is Empty) <==> (old(sub).next_index() == self.log().len() && !self.is_closed()),
            (r is Closed || r is Empty) ==> final(sub).next_index() == old(sub).next_index(),
    {
        let len = self.entries.len();
        if len - sub.next > self.capacity {
            let missed = len - sub.next - self.capacity;
            sub.next = len - self.capacity;
            RecvOutcome::Lagged(missed)
        } else if sub.next < len {
            let e = self.entries[sub.next].clone();
            sub.next = sub.next + 1;
            RecvOutcome::Received(e)
        } else if self.closed {
            RecvOutcome::Closed
        } else {
            RecvOutcome::Empty
        }
    }
}

/// No replay of history: whatever a subscription has consumed so far, its
/// cursor never points before its origin, so together with `recv`'s contract
/// no event published before the subscribe call is ever delivered to it.
pub proof fn lemma_no_delivery_before_origin(bus: &Bus, sub: &BusSubscription)
    requires
        sub.valid_for(bus),
    ensures
        sub.origin() <= sub.next_index(),
{
}

} // verus!
