//! The bus shared between threads, and the store of lock-guarded subscribers.
use std::marker::PhantomData;
use std::sync::{Arc, RwLock, RwLockReadGuard};
use vstd::prelude::*;
use vstd::laws_eq::obeys_concrete_eq;
use crate::messaging::bus::{
    dispatched_with, run_with, subscribed, unsubscribed, BusRequest, EventDispatchResult,
};
use crate::messaging::channels::ChannelMap;
use crate::messaging::event::TSEvent;
use crate::messaging::subscribe::{SubscriberHandle, TSSubscriber};

pub use self::TSEventBus as EventBus;

verus! {

/// std's `RwLock`, carried as an opaque value: each shared subscriber sits
/// behind one.
#[verifier::external_type_specification]
#[verifier::external_body]
#[verifier::reject_recursive_types(T)]
pub struct ExRwLock<T: ?Sized>(RwLock<T>);

/// std's `RwLockReadGuard`, carried as an opaque value while a subscriber is read.
#[verifier::external_type_specification]
#[verifier::external_body]
#[verifier::reject_recursive_types(T)]
pub struct ExRwLockReadGuard<'a, T: ?Sized>(RwLockReadGuard<'a, T>);

/// Relies on `RwLock::new`, which puts the value behind a fresh, unlocked lock;
/// nothing is claimed of the result.
pub assume_specification<T>[ RwLock::<T>::new ](t: T) -> RwLock<T>;

/// Relies on `RwLock::try_read`: a read guard when the lock can be had without
/// blocking, and nothing when it is held for writing or poisoned.
#[verifier::external_body]
fn try_read<S>(lock: &RwLock<S>) -> (r: Option<RwLockReadGuard<'_, S>>) {
    lock.try_read().ok()
}

/// Relies on `RwLockReadGuard`'s `Deref`: the value the read lock guards.
#[verifier::external_body]
fn guarded<'a, 'b, S>(guard: &'b RwLockReadGuard<'a, S>) -> &'b S {
    &**guard
}

/// Whether `(after, r)` is what a dispatch on `c` can leave and return, when each
/// live handle's subscriber answered something or could not be read, and each
/// unresolvable handle was skipped.
pub open spec fn may_dispatch<T, H>(
    before: Map<T, Seq<H>>,
    c: T,
    live: spec_fn(H) -> bool,
    after: Map<T, Seq<H>>,
    r: EventDispatchResult,
) -> bool {
    exists|ds: Seq<BusRequest>| #[trigger] dispatched_with(before, c, live, ds) == (after, r) && skips_stale(before, c, live, ds)
}

/// One directive per visit, and `NoActionNeeded` for each unresolvable handle visited.
pub open spec fn skips_stale<T, H>(m: Map<T, Seq<H>>, c: T, live: spec_fn(H) -> bool, ds: Seq<BusRequest>) -> bool {
    m.contains_key(c) ==> {
        let pass = run_with(m[c], 0, ds);
        &&& ds.len() == pass.visited.len()
        &&& forall|n: int| 0 <= n < ds.len() && !live(#[trigger] pass.visited[n]) ==> ds[n] == BusRequest::NoActionNeeded
    }
}

/// The store that owns subscribers shared between threads, each behind its own
/// read-write lock; buses hold only handles into it.
///
/// A slot is filled once and emptied at most once, and never filled again.
#[verifier::reject_recursive_types(S)]
pub struct SharedSubscribers<S> {
    slots: Vec<Option<Arc<RwLock<S>>>>,
}

impl<S> SharedSubscribers<S> {
    pub closed spec fn occupied(&self) -> Seq<bool> {
        self.slots@.map_values(|slot: Option<Arc<RwLock<S>>>| slot is Some)
    }

    /// Whether `h` still names a subscriber of this store.
    pub open spec fn resolves(&self, h: SubscriberHandle) -> bool {
        h.slot < self.occupied().len() && self.occupied()[h.slot as int]
    }

    /// `resolves`, as a predicate on handles.
    pub open spec fn liveness(&self) -> spec_fn(SubscriberHandle) -> bool {
        |h: SubscriberHandle| self.resolves(h)
    }

    pub fn new() -> (r: Self)
        ensures
            r.occupied() == Seq::<bool>::empty(),
    {
        let r = SharedSubscribers { slots: Vec::new() };
        assert(r.occupied() =~= Seq::<bool>::empty());
        r
    }

    /// Takes ownership of `subscriber` and returns a fresh handle to it.
    pub fn add(&mut self, subscriber: S) -> (h: SubscriberHandle)
        ensures
            final(self).occupied() == old(self).occupied().push(true),
            h.slot == old(self).occupied().len(),
    {
        let h = SubscriberHandle { slot: self.slots.len() };
        self.slots.push(Some(Arc::new(RwLock::new(subscriber))));
        assert(self.occupied() =~= old(self).occupied().push(true));
        h
    }

    /// Drops the store's hold on the subscriber `h` names; returns whether it held one.
    pub fn remove(&mut self, h: SubscriberHandle) -> (r: bool)
        ensures
            r == old(self).resolves(h),
            r ==> final(self).occupied() == old(self).occupied().update(h.slot as int, false),
            !r ==> final(self).occupied() == old(self).occupied(),
    {
        if h.slot < self.slots.len() && self.slots[h.slot].is_some() {
            let mut taken: Option<Arc<RwLock<S>>> = None;
            self.slots.set_and_swap(h.slot, &mut taken);
            assert(self.occupied() =~= old(self).occupied().update(h.slot as int, false));
            true
        } else {
            false
        }
    }

    /// Whether `h` still names a subscriber of this store.
    pub fn is_live(&self, h: &SubscriberHandle) -> (r: bool)
        ensures
            r == self.resolves(*h),
    {
        h.slot < self.slots.len() && self.slots[h.slot].is_some()
    }

    /// The lock around the subscriber `h` names, if it is still there.
    pub fn get(&self, h: SubscriberHandle) -> (r: Option<&Arc<RwLock<S>>>)
        ensures
            r is Some <==> self.resolves(h),
    {
        if h.slot < self.slots.len() {
            self.slots[h.slot].as_ref()
        } else {
            None
        }
    }
}

impl<S> Default for SharedSubscribers<S> {
    fn default() -> (r: Self)
        ensures
            r.occupied() == Seq::<bool>::empty(),
    {
        Self::new()
    }
}

/// Thread-shared bus: routes each event to the subscribers of its category.
///
/// Dispatch never blocks on a subscriber: one whose lock cannot be read at once
/// misses the event and is passed over as if it had answered `NoActionNeeded`.
pub struct TSEventBus<T, E> {
    channels: ChannelMap<T>,
    events: PhantomData<E>,
}

impl<T: PartialEq, E: TSEvent<T>> View for TSEventBus<T, E> {
    type V = Map<T, Seq<SubscriberHandle>>;

    closed spec fn view(&self) -> Map<T, Seq<SubscriberHandle>> {
        self.channels.view()
    }
}

impl<T: PartialEq, E: TSEvent<T>> TSEventBus<T, E> {
    pub closed spec fn wf(&self) -> bool {
        self.channels.wf()
    }

    pub fn new() -> (r: Self)
        ensures
            r.wf(),
            r@ == Map::<T, Seq<SubscriberHandle>>::empty(),
    {
        TSEventBus { channels: ChannelMap::new(), events: PhantomData }
    }

    /// Adds `subscriber` to the end of the channel of `to_category`, creating
    /// the channel when absent.
    pub fn subscribe(&mut self, subscriber: SubscriberHandle, to_category: T)
        requires
            old(self).wf(),
            obeys_concrete_eq::<T>(),
        ensures
            final(self).wf(),
            final(self)@ == subscribed(old(self)@, subscriber, to_category),
    {
        self.channels.subscribe(subscriber, to_category);
    }

    /// Removes the first entry for `subscriber` from the channel of
    /// `from_category`; an unresolvable entry met on the way has the channel
    /// cleared of all unresolvable entries.
    pub fn unsubscribe<S>(&mut self, subscribers: &SharedSubscribers<S>, subscriber: SubscriberHandle, from_category: T)
        requires
            old(self).wf(),
            obeys_concrete_eq::<T>(),
        ensures
            final(self).wf(),
            final(self)@ == unsubscribed(old(self)@, subscriber, from_category, subscribers.liveness()),
    {
        let is_live = |h: &SubscriberHandle| -> (b: bool)
            ensures
                b == subscribers.resolves(*h),
            { subscribers.is_live(h) };
        self.channels.unsubscribe(subscriber, &from_category, is_live, Ghost(subscribers.liveness()));
    }

    /// The handles subscribed to `category`, in channel order, if it has a channel.
    pub fn subscribers_of(&self, category: &T) -> (r: Option<Vec<SubscriberHandle>>)
        requires
            self.wf(),
            obeys_concrete_eq::<T>(),
        ensures
            r is Some <==> self@.contains_key(*category),
            r matches Some(v) ==> v@ == self@[*category],
    {
        self.channels.subscribers_of(category)
    }

    /// Removes the whole channel of `from_category`.
    pub fn unsubscribe_all(&mut self, from_category: T)
        requires
            old(self).wf(),
            obeys_concrete_eq::<T>(),
        ensures
            final(self).wf(),
            final(self)@ == old(self)@.remove(from_category),
    {
        self.channels.remove(&from_category);
    }

    /// Hands `event` to the subscribers of its category whose locks can be read
    /// at once, in channel order, and acts on their directives.
    pub fn dispatch_event<S: TSSubscriber<T, E>>(&mut self, event: &E, subscribers: &SharedSubscribers<S>) -> (r: EventDispatchResult)
        requires
            old(self).wf(),
            obeys_concrete_eq::<T>(),
        ensures
            final(self).wf(),
            may_dispatch(old(self)@, event.category_spec(), subscribers.liveness(), final(self)@, r),
    {
        let category = event.category();
        let action = |h: &SubscriberHandle| -> (d: BusRequest)
            ensures
                !subscribers.resolves(*h) ==> d == BusRequest::NoActionNeeded,
            {
                match subscribers.get(*h) {
                    Some(lock) => match try_read(&**lock) {
                        Some(guard) => guarded(&guard).on_event(event),
                        None => BusRequest::NoActionNeeded,
                    },
                    None => BusRequest::NoActionNeeded,
                }
            };
        let is_live = |h: &SubscriberHandle| -> (b: bool)
            ensures
                b == subscribers.resolves(*h),
            { subscribers.is_live(h) };
        let (r, Ghost(ds)) = self.channels.dispatch(&category, action, is_live, Ghost(subscribers.liveness()));
        proof {
            assert(dispatched_with(old(self)@, category, subscribers.liveness(), ds) == (self@, r));
        }
        r
    }
}

impl<T: PartialEq, E: TSEvent<T>> Default for TSEventBus<T, E> {
    fn default() -> (r: Self)
        ensures
            r.wf(),
            r@ == Map::<T, Seq<SubscriberHandle>>::empty(),
    {
        Self::new()
    }
}

} // verus!
