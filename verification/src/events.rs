//! Publish/subscribe bookkeeping.
//!
//! Each event type is known by a numeric key and each subscriber by a numeric
//! handle; the caller keeps the callbacks themselves.  Raising an event yields
//! the handles to run, in the order they subscribed.
use vstd::prelude::*;
use crate::maps::IdMap;

verus! {

/// The handlers subscribed to each event, in order of subscription.
pub struct EventManager {
    subscribers: IdMap<Vec<u64>>,
}

/// The handles subscribed to `event_type` in `subs`, oldest first.
pub open spec fn handlers_in(subs: Map<u64, Vec<u64>>, event_type: u64) -> Seq<u64> {
    if subs.dom().contains(event_type) {
        subs[event_type]@
    } else {
        Seq::empty()
    }
}

impl EventManager {
    /// The handles subscribed to `event_type`, oldest first.
    pub closed spec fn handlers(&self, event_type: u64) -> Seq<u64> {
        handlers_in(self.subscribers@, event_type)
    }

    /// A manager with no subscribers.
    pub fn new() -> (m: Self)
        ensures
            forall|t: u64| #[trigger] m.handlers(t) == Seq::<u64>::empty(),
    {
        EventManager { subscribers: IdMap::new() }
    }

    /// Adds `handler` at the end of the subscribers of `event_type`.
    pub fn subscribe(&mut self, event_type: u64, handler: u64)
        ensures
            final(self).handlers(event_type) == old(self).handlers(event_type).push(handler),
            forall|t: u64|
                t != event_type ==> #[trigger] final(self).handlers(t) == old(self).handlers(t),
    {
        let mut list = match self.subscribers.remove(&event_type) {
            Some(v) => v,
            None => Vec::new(),
        };
        list.push(handler);
        self.subscribers.insert(event_type, list);
        proof {
            assert(old(self).handlers(event_type) == handlers_in(
                old(self).subscribers@,
                event_type,
            ));
        }
    }

    /// Subscribes a method of a long-lived instance; the caller binds the
    /// instance into the callback behind `handler`.
    pub fn subscribe_method(&mut self, event_type: u64, handler: u64)
        ensures
            final(self).handlers(event_type) == old(self).handlers(event_type).push(handler),
            forall|t: u64|
                t != event_type ==> #[trigger] final(self).handlers(t) == old(self).handlers(t),
    {
        self.subscribe(event_type, handler);
    }

    /// The handles to run for an event of type `event_type`, in order.
    pub fn raise_event(&self, event_type: u64) -> (r: Vec<u64>)
        ensures
            r@ == self.handlers(event_type),
    {
        match self.subscribers.get(&event_type) {
            Some(v) => v.clone(),
            None => Vec::new(),
        }
    }
}

/// Subscribes `handler` to `event_type` in `manager`.
pub fn subscribe_event(manager: &mut EventManager, event_type: u64, handler: u64)
    ensures
        final(manager).handlers(event_type) == old(manager).handlers(event_type).push(handler),
        forall|t: u64|
            t != event_type ==> #[trigger] final(manager).handlers(t) == old(manager).handlers(t),
{
    manager.subscribe(event_type, handler);
}

/// Subscribes an instance method, behind `handler`, to `event_type`.
pub fn subscribe_method(manager: &mut EventManager, event_type: u64, handler: u64)
    ensures
        final(manager).handlers(event_type) == old(manager).handlers(event_type).push(handler),
        forall|t: u64|
            t != event_type ==> #[trigger] final(manager).handlers(t) == old(manager).handlers(t),
{
    manager.subscribe_method(event_type, handler);
}

/// Raising an event runs exactly the subscribers of its type, in the order
/// they subscribed: a subscription made last is run last, and subscribing to
/// one type leaves the subscribers of every other type as they were.
pub proof fn law_raise_after_subscribe(
    before: EventManager,
    after: EventManager,
    event_type: u64,
    handler: u64,
    other: u64,
)
    requires
        after.handlers(event_type) == before.handlers(event_type).push(handler),
        forall|t: u64| t != event_type ==> #[trigger] after.handlers(t) == before.handlers(t),
        other != event_type,
    ensures
        after.handlers(event_type).last() == handler,
        after.handlers(event_type).len() == before.handlers(event_type).len() + 1,
        after.handlers(event_type).subrange(0, before.handlers(event_type).len() as int)
            == before.handlers(event_type),
        after.handlers(other) == before.handlers(other),
{
    assert(after.handlers(event_type).subrange(0, before.handlers(event_type).len() as int)
        =~= before.handlers(event_type));
}

} // verus!
