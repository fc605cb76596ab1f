//! The single-thread bus and the store that owns its subscribers.
use std::marker::PhantomData;
use vstd::prelude::*;
use vstd::laws_eq::obeys_concrete_eq;
use crate::messaging::bus::{
    dispatched, lemma_run_with_replies, reply_or_skip, run_with, subscribed, unsubscribed, BusRequest,
    EventDispatchResult,
};
use crate::messaging::channels::ChannelMap;
use crate::messaging::event::Event;
use crate::messaging::subscribe::{Subscriber, SubscriberHandle};

verus! {

/// The store that owns single-thread subscribers; buses hold only handles into it.
///
/// A slot is filled once and emptied at most once, and never filled again.
pub struct Subscribers<S> {
    slots: Vec<Option<S>>,
}

impl<S> View for Subscribers<S> {
    type V = Seq<Option<S>>;

    closed spec fn view(&self) -> Seq<Option<S>> {
        self.slots@
    }
}

impl<S> Subscribers<S> {
    /// Whether `h` still names a subscriber of this store.
    pub open spec fn resolves(&self, h: SubscriberHandle) -> bool {
        h.slot < self@.len() && self@[h.slot as int] is Some
    }

    /// `resolves`, as a predicate on handles.
    pub open spec fn liveness(&self) -> spec_fn(SubscriberHandle) -> bool {
        |h: SubscriberHandle| self.resolves(h)
    }

    /// The subscriber that `h` names (meaningful when `h` resolves).
    pub open spec fn target(&self, h: SubscriberHandle) -> S {
        self@[h.slot as int]->Some_0
    }

    pub fn new() -> (r: Self)
        ensures
            r@ == Seq::<Option<S>>::empty(),
    {
        Subscribers { slots: Vec::new() }
    }

    /// Takes ownership of `subscriber` and returns a fresh handle to it.
    pub fn add(&mut self, subscriber: S) -> (h: SubscriberHandle)
        ensures
            final(self)@ == old(self)@.push(Some(subscriber)),
            h.slot == old(self)@.len(),
            final(self).resolves(h),
            final(self).target(h) == subscriber,
    {
        let h = SubscriberHandle { slot: self.slots.len() };
        self.slots.push(Some(subscriber));
        h
    }

    /// Drops the subscriber `h` names, if any, and hands it back.
    pub fn remove(&mut self, h: SubscriberHandle) -> (r: Option<S>)
        ensures
            old(self).resolves(h) ==> r == Some(old(self).target(h)) && final(self)@ == old(self)@.update(
                h.slot as int,
                None,
            ),
            !old(self).resolves(h) ==> r is None && final(self)@ == old(self)@,
    {
        if h.slot < self.slots.len() {
            let mut taken: Option<S> = None;
            self.slots.set_and_swap(h.slot, &mut taken);
            taken
        } else {
            None
        }
    }

    /// Whether `h` still names a subscriber of this store.
    pub fn is_live(&self, h: &SubscriberHandle) -> (r: bool)
        ensures
            r == self.resolves(*h),
    {
        h.slot < self.slots.len() && self.slots[h.slot].is_some()
    }

    /// The subscriber `h` names, if it is still there.
    pub fn get(&self, h: SubscriberHandle) -> (r: Option<&S>)
        ensures
            self.resolves(h) ==> r == Some(&self.target(h)),
            !self.resolves(h) ==> r is None,
    {
        if h.slot < self.slots.len() {
            self.slots[h.slot].as_ref()
        } else {
            None
        }
    }
}

impl<S> Default for Subscribers<S> {
    fn default() -> (r: Self)
        ensures
            r@ == Seq::<Option<S>>::empty(),
    {
        Self::new()
    }
}

/// What each handle's subscriber answers to `event`.
pub open spec fn answers<T, E, S: Subscriber<T, E>>(store: Subscribers<S>, event: E) -> spec_fn(SubscriberHandle) -> BusRequest {
    |h: SubscriberHandle| store.target(h).reply(event)
}

/// Single-thread bus: routes each event to the subscribers of its category.
///
/// It holds handles only; the subscribers live in a `Subscribers` store that
/// their owner keeps, and a subscriber dropped from there is skipped and then
/// cleared out of the channels.
pub struct EventBus<T, E> {
    channels: ChannelMap<T>,
    events: PhantomData<E>,
}

impl<T: PartialEq, E: Event<T>> View for EventBus<T, E> {
    type V = Map<T, Seq<SubscriberHandle>>;

    closed spec fn view(&self) -> Map<T, Seq<SubscriberHandle>> {
        self.channels.view()
    }
}

impl<T: PartialEq, E: Event<T>> EventBus<T, E> {
    pub closed spec fn wf(&self) -> bool {
        self.channels.wf()
    }

    pub fn new() -> (r: Self)
        ensures
            r.wf(),
            r@ == Map::<T, Seq<SubscriberHandle>>::empty(),
    {
        EventBus { channels: ChannelMap::new(), events: PhantomData }
    }

    /// Adds `subscriber` to the end of the channel of `to_category`, creating
    /// the channel when absent. A second subscription is not checked for: it
    /// makes the subscriber hear each event twice.
    pub fn subscribe(&mut self, subscriber: SubscriberHandle, to_category: T)
        requires
            old(self).wf(),
            obeys_concrete_eq::<T>(),
        ensures
            final(self).wf(),
            final(self)@ == subscribed(old(self)@, subscriber, to_category),
    {
        self.channels.subscribe(subscriber, to_category);
    }

    /// Removes the first entry for `subscriber` from the channel of
    /// `from_category`; an unresolvable entry met on the way has the channel
    /// cleared of all unresolvable entries.
    pub fn unsubscribe<S>(&mut self, subscribers: &Subscribers<S>, subscriber: SubscriberHandle, from_category: T)
        requires
            old(self).wf(),
            obeys_concrete_eq::<T>(),
        ensures
            final(self).wf(),
            final(self)@ == unsubscribed(old(self)@, subscriber, from_category, subscribers.liveness()),
    {
        let is_live = |h: &SubscriberHandle| -> (b: bool)
            ensures
                b == subscribers.resolves(*h),
            { subscribers.is_live(h) };
        self.channels.unsubscribe(subscriber, &from_category, is_live, Ghost(subscribers.liveness()));
    }

    /// The handles subscribed to `category`, in channel order, if it has a channel.
    pub fn subscribers_of(&self, category: &T) -> (r: Option<Vec<SubscriberHandle>>)
        requires
            self.wf(),
            obeys_concrete_eq::<T>(),
        ensures
            r is Some <==> self@.contains_key(*category),
            r matches Some(v) ==> v@ == self@[*category],
    {
        self.channels.subscribers_of(category)
    }

    /// Removes the whole channel of `from_category`.
    pub fn unsubscribe_all(&mut self, from_category: T)
        requires
            old(self).wf(),
            obeys_concrete_eq::<T>(),
        ensures
            final(self).wf(),
            final(self)@ == old(self)@.remove(from_category),
    {
        self.channels.remove(&from_category);
    }

    /// Hands `event` to the subscribers of its category, in channel order, and
    /// acts on their directives.
    pub fn dispatch_event<S: Subscriber<T, E>>(&mut self, event: &E, subscribers: &Subscribers<S>) -> (r: EventDispatchResult)
        requires
            old(self).wf(),
            obeys_concrete_eq::<T>(),
        ensures
            final(self).wf(),
            (final(self)@, r) == dispatched(
                old(self)@,
                event.category_spec(),
                subscribers.liveness(),
                answers(*subscribers, *event),
            ),
    {
        let category = event.category();
        let action = |h: &SubscriberHandle| -> (d: BusRequest)
            ensures
                d == reply_or_skip(subscribers.liveness(), answers(*subscribers, *event))(*h),
            {
                match subscribers.get(*h) {
                    Some(s) => s.on_event(event),
                    None => BusRequest::NoActionNeeded,
                }
            };
        let is_live = |h: &SubscriberHandle| -> (b: bool)
            ensures
                b == subscribers.resolves(*h),
            { subscribers.is_live(h) };
        let (r, Ghost(ds)) = self.channels.dispatch(&category, action, is_live, Ghost(subscribers.liveness()));
        proof {
            if old(self)@.contains_key(category) {
                let reply = reply_or_skip(subscribers.liveness(), answers(*subscribers, *event));
                let pass = run_with(old(self)@[category], 0, ds);
                assert forall|n: int| 0 <= n < ds.len() implies ds[n] == reply(#[trigger] pass.visited[n]) by {}
                lemma_run_with_replies(old(self)@[category], 0, ds, reply);
            }
        }
        r
    }
}

impl<T: PartialEq, E: Event<T>> Default for EventBus<T, E> {
    fn default() -> (r: Self)
        ensures
            r.wf(),
            r@ == Map::<T, Seq<SubscriberHandle>>::empty(),
    {
        Self::new()
    }
}

} // verus!
