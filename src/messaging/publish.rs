use vstd::prelude::*;
use vstd::laws_eq::obeys_concrete_eq;
use crate::messaging::bus::{dispatched, EventDispatchResult};
use crate::messaging::event::{Event, TSEvent, ThermiteEvent, ThermiteEventType};
use crate::messaging::rc::{answers, EventBus, Subscribers};
use crate::messaging::subscribe::{Subscriber, TSSubscriber};
use crate::messaging::sync::{may_dispatch, SharedSubscribers, TSEventBus};

verus! {

/// A single-thread source of events. It keeps no subscribers of its own: it
/// hands each event to a bus. An implementor may add work around the hand-over,
/// but must still deliver the event as the bus would.
pub trait Publisher<T: PartialEq, E: Event<T>> {
    fn publish_event<S: Subscriber<T, E>>(&self, event: &E, bus: &mut EventBus<T, E>, subscribers: &Subscribers<S>) -> (r: EventDispatchResult)
        requires
            old(bus).wf(),
            obeys_concrete_eq::<T>(),
        ensures
            final(bus).wf(),
            (final(bus)@, r) == dispatched(
                old(bus)@,
                event.category_spec(),
                subscribers.liveness(),
                answers(*subscribers, *event),
            ),
    {
        bus.dispatch_event(event, subscribers)
    }
}

/// A source of events for a bus shared between threads.
pub trait TSPublisher<T: PartialEq, E: TSEvent<T>> {
    fn publish_event<S: TSSubscriber<T, E>>(
        &self,
        event: &E,
        bus: &mut TSEventBus<T, E>,
        subscribers: &SharedSubscribers<S>,
    ) -> (r: EventDispatchResult)
        requires
            old(bus).wf(),
            obeys_concrete_eq::<T>(),
        ensures
            final(bus).wf(),
            may_dispatch(old(bus)@, event.category_spec(), subscribers.liveness(), final(bus)@, r),
    {
        bus.dispatch_event(event, subscribers)
    }
}

/// A publisher of this engine's events that adds nothing to the hand-over.
pub struct TestPublisher {}

impl Publisher<ThermiteEventType, ThermiteEvent> for TestPublisher {}

impl TSPublisher<ThermiteEventType, ThermiteEvent> for TestPublisher {}

} // verus!
