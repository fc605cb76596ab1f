use vstd::prelude::*;
use crate::messaging::bus::BusRequest;

verus! {

/// A non-owning reference to a subscriber held in a subscriber store.
///
/// Stores never reuse a slot, so a handle names at most one subscriber over
/// the store's whole life: once that subscriber is dropped, the handle stops
/// resolving and never resolves again.
#[derive(Debug, Clone, Copy, PartialEq, Eq, Hash, Structural)]
pub struct SubscriberHandle {
    pub slot: usize,
}

/// A single-thread subscriber: receives the events of the categories it was
/// subscribed to and answers each with a directive to the bus.
pub trait Subscriber<T, E>: Sized {
    /// The directive this subscriber gives for `event`.
    spec fn reply(&self, event: E) -> BusRequest;

    fn on_event(&self, event: &E) -> (r: BusRequest)
        ensures
            r == self.reply(*event),
    ;
}

/// A subscriber that can be shared between threads.
pub trait TSSubscriber<T, E>: Sized + Send + Sync {
    fn on_event(&self, event: &E) -> BusRequest;
}

} // verus!
