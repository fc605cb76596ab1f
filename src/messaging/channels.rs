//! The channel map every bus keeps: one ordered list of handles per category.
use vstd::prelude::*;
use vstd::laws_eq::obeys_concrete_eq;
use crate::messaging::bus::{
    dispatched_with, first_position, run_with, rest_of, scan_end, stale_seen, subscribed, swap_removed,
    unsubscribed, BusRequest, EventDispatchResult, PassOutcome, execute_bus_requests,
};
use crate::messaging::subscribe::SubscriberHandle;

verus! {

/// One category's ordered list of subscriber handles.
pub struct Channel<T> {
    pub category: T,
    pub subscribers: Vec<SubscriberHandle>,
}

/// The channels of a bus: at most one channel per category.
pub struct ChannelMap<T> {
    channels: Vec<Channel<T>>,
}

impl<T: PartialEq> ChannelMap<T> {
    /// No two channels share a category.
    pub closed spec fn wf(&self) -> bool {
        forall|i: int, j: int|
            0 <= i < j < self.channels@.len() ==> self.channels@[i].category != self.channels@[j].category
    }

    pub closed spec fn has(&self, c: T) -> bool {
        exists|i: int| 0 <= i < self.channels@.len() && self.channels@[i].category == c
    }

    pub closed spec fn position(&self, c: T) -> int {
        choose|i: int| 0 <= i < self.channels@.len() && self.channels@[i].category == c
    }

    /// Each category with a channel, mapped to that channel's handles.
    pub closed spec fn view(&self) -> Map<T, Seq<SubscriberHandle>> {
        Map::new(|c: T| self.has(c), |c: T| self.channels@[self.position(c)].subscribers@)
    }

    proof fn lemma_entry(&self, i: int)
        requires
            self.wf(),
            0 <= i < self.channels@.len(),
        ensures
            self.view().contains_key(self.channels@[i].category),
            self.view()[self.channels@[i].category] == self.channels@[i].subscribers@,
    {
        let c = self.channels@[i].category;
        assert(self.has(c));
        let j = self.position(c);
        assert(j == i);
    }

    pub fn new() -> (r: Self)
        ensures
            r.wf(),
            r.view() == Map::<T, Seq<SubscriberHandle>>::empty(),
    {
        let r = ChannelMap { channels: Vec::new() };
        assert(r.view() =~= Map::<T, Seq<SubscriberHandle>>::empty());
        r
    }

    /// The position of the channel of `c`, if there is one.
    fn find(&self, c: &T) -> (r: Option<usize>)
        requires
            self.wf(),
            obeys_concrete_eq::<T>(),
        ensures
            r is Some <==> self.view().contains_key(*c),
            r matches Some(i) ==> i < self.channels@.len() && self.channels@[i as int].category == *c,
    {
        proof {
            reveal(obeys_concrete_eq);
        }
        let mut i: usize = 0;
        while i < self.channels.len()
            invariant
                i <= self.channels@.len(),
                obeys_concrete_eq::<T>(),
                forall|k: int| 0 <= k < i ==> self.channels@[k].category != *c,
            decreases self.channels.len() - i,
        {
            proof {
                reveal(obeys_concrete_eq);
            }
            if self.channels[i].category == *c {
                proof {
                    assert(self.has(*c));
                }
                return Some(i);
            }
            i = i + 1;
        }
        proof {
            if self.has(*c) {
                let k = self.position(*c);
                assert(self.channels@[k].category == *c);
            }
        }
        None
    }

    /// Takes the channel at position `i` out of the map.
    fn take(&mut self, i: usize) -> (ch: Channel<T>)
        requires
            old(self).wf(),
            i < old(self).channels@.len(),
        ensures
            final(self).wf(),
            ch == old(self).channels@[i as int],
            final(self).view() == old(self).view().remove(ch.category),
    {
        let ghost before = *self;
        let ch = self.channels.swap_remove(i);
        proof {
            let last = before.channels@.len() - 1;
            assert forall|a: int| 0 <= a < self.channels@.len() implies self.channels@[a] == before.channels@[
                if a == i { last } else { a }
            ] by {}
            assert forall|c: T| #[trigger] self.view().contains_key(c) <==> before.view().remove(ch.category).contains_key(c) by {
                if self.has(c) {
                    let a = self.position(c);
                    let b = if a == i { last } else { a };
                    assert(before.channels@[b].category == c);
                    assert(b != i);
                }
                if before.has(c) && c != ch.category {
                    let b = before.position(c);
                    assert(b != i);
                    let a = if b == last { i as int } else { b };
                    assert(self.channels@[a].category == c);
                }
            }
            assert forall|c: T| #[trigger] self.view().contains_key(c) implies self.view()[c] == before.view()[c] by {
                let a = self.position(c);
                let b = if a == i { last } else { a };
                self.lemma_entry(a);
                before.lemma_entry(b);
            }
            assert(self.view() =~= before.view().remove(ch.category));
        }
        ch
    }

    /// Adds `ch` as the channel of its category, which has none.
    fn put(&mut self, ch: Channel<T>)
        requires
            old(self).wf(),
            !old(self).view().contains_key(ch.category),
        ensures
            final(self).wf(),
            final(self).view() == old(self).view().insert(ch.category, ch.subscribers@),
    {
        let ghost before = *self;
        let ghost c0 = ch.category;
        let ghost s0 = ch.subscribers@;
        self.channels.push(ch);
        proof {
            let n = before.channels@.len();
            assert forall|a: int| 0 <= a < n implies self.channels@[a].category != c0 by {
                if self.channels@[a].category == c0 {
                    assert(before.has(c0));
                }
            }
            assert forall|c: T| #[trigger] self.view().contains_key(c) <==> before.view().insert(c0, s0).contains_key(c) by {
                if self.has(c) {
                    let a = self.position(c);
                    if a < n {
                        assert(before.channels@[a].category == c);
                    }
                }
                if before.has(c) {
                    let b = before.position(c);
                    assert(self.channels@[b].category == c);
                }
                if c == c0 {
                    assert(self.channels@[n as int].category == c);
                }
            }
            assert forall|c: T| #[trigger] self.view().contains_key(c) implies self.view()[c] == before.view().insert(c0, s0)[c] by {
                let a = self.position(c);
                self.lemma_entry(a);
                if a < n {
                    before.lemma_entry(a);
                }
            }
            assert(self.view() =~= before.view().insert(c0, s0));
        }
    }
}

/// Whether an unresolvable handle stands below `pass.end` in what the pass left.
pub open spec fn stale_below<H>(pass: PassOutcome<H>, live: spec_fn(H) -> bool) -> bool {
    exists|k: int| 0 <= k < pass.end && !live(pass.remaining[k])
}

/// A pass visits an unresolvable handle exactly when one stands, after the pass,
/// among the entries below `end`: such a handle is skipped, never removed, and
/// the pass moves past it.
proof fn lemma_stale_seen_prefix<H>(list: Seq<H>, idx: nat, ds: Seq<BusRequest>, live: spec_fn(H) -> bool)
    requires
        idx <= list.len(),
        ds.len() == run_with(list, idx, ds).visited.len(),
        forall|n: int|
            0 <= n < ds.len() && !live(#[trigger] run_with(list, idx, ds).visited[n]) ==> ds[n]
                == BusRequest::NoActionNeeded,
    ensures
        run_with(list, idx, ds).end <= run_with(list, idx, ds).remaining.len(),
        (exists|k: int| 0 <= k < idx && !live(list[k])) || stale_seen(run_with(list, idx, ds), live)
            <==> stale_below(run_with(list, idx, ds), live),
    decreases 2 * list.len() - idx,
{
    let pass = run_with(list, idx, ds);
    if idx < list.len() {
        let h = list[idx as int];
        assert(pass.visited[0] == h);
        let d = ds[0];
        let tail = ds.drop_first();
        assert(rest_of(ds) == tail);
        if d != BusRequest::NoActionNeeded {
            assert(live(h));
        }
        match d {
            BusRequest::NoActionNeeded => {
                let rest = run_with(list, idx + 1, tail);
                assert(pass.visited == seq![h] + rest.visited);
                assert(pass.remaining == rest.remaining && pass.end == rest.end);
                if exists|k: int| 0 <= k < idx + 1 && !live(list[k]) {
                    let k = choose|k: int| 0 <= k < idx + 1 && !live(list[k]);
                    if k == idx {
                        assert(!live(h));
                    }
                }
                assert forall|n: int|
                    0 <= n < tail.len() && !live(#[trigger] rest.visited[n]) implies tail[n]
                        == BusRequest::NoActionNeeded by {
                    assert(rest.visited[n] == pass.visited[n + 1]);
                }
                lemma_stale_seen_prefix(list, idx + 1, tail, live);
                if stale_seen(rest, live) {
                    let k = choose|k: int| 0 <= k < rest.visited.len() && !live(rest.visited[k]);
                    assert(pass.visited[k + 1] == rest.visited[k]);
                }
                if stale_seen(pass, live) {
                    let k = choose|k: int| 0 <= k < pass.visited.len() && !live(pass.visited[k]);
                    if k > 0 {
                        assert(rest.visited[k - 1] == pass.visited[k]);
                    }
                }
                if !live(h) {
                    assert(pass.visited[0] == h);
                }
            },
            BusRequest::Unsubscribe => {
                let next = swap_removed(list, idx as int);
                let rest = run_with(next, idx, tail);
                assert(pass.visited == seq![h] + rest.visited);
                assert(pass.remaining == rest.remaining && pass.end == rest.end);
                assert forall|n: int|
                    0 <= n < tail.len() && !live(#[trigger] rest.visited[n]) implies tail[n]
                        == BusRequest::NoActionNeeded by {
                    assert(rest.visited[n] == pass.visited[n + 1]);
                }
                lemma_stale_seen_prefix(next, idx, tail, live);
                assert forall|k: int| 0 <= k < idx implies next[k] == list[k] by {}
                if stale_seen(rest, live) {
                    let k = choose|k: int| 0 <= k < rest.visited.len() && !live(rest.visited[k]);
                    assert(pass.visited[k + 1] == rest.visited[k]);
                }
                if stale_seen(pass, live) {
                    let k = choose|k: int| 0 <= k < pass.visited.len() && !live(pass.visited[k]);
                    assert(k > 0);
                    assert(rest.visited[k - 1] == pass.visited[k]);
                }
            },
            BusRequest::DoNotPropagate => {
                assert(pass.visited == seq![h]);
                assert(pass.remaining == list && pass.end == idx);
                assert(live(h) && !stale_seen(pass, live));
            },
            BusRequest::UnsubscribeAndDoNotPropagate => {
                assert(pass.visited == seq![h]);
                let next = swap_removed(list, idx as int);
                assert(pass.remaining == next && pass.end == idx);
                assert(live(h) && !stale_seen(pass, live));
                assert forall|k: int| 0 <= k < idx implies next[k] == list[k] by {}
                if stale_below(pass, live) {
                    let k = choose|k: int| 0 <= k < pass.end && !live(pass.remaining[k]);
                    assert(!live(list[k]));
                }
                if exists|k: int| 0 <= k < idx && !live(list[k]) {
                    let k = choose|k: int| 0 <= k < idx && !live(list[k]);
                    assert(!live(pass.remaining[k]));
                }
            },
        }
    }
}

/// Whether any of the first `end` entries of `list` fails to resolve.
fn any_stale<G>(list: &Vec<SubscriberHandle>, end: usize, is_live: &G, Ghost(live): Ghost<spec_fn(SubscriberHandle) -> bool>) -> (r: bool)
    where
        G: Fn(&SubscriberHandle) -> bool,
    requires
        end <= list@.len(),
        forall|h: SubscriberHandle| #[trigger] is_live.requires((&h,)),
        forall|h: SubscriberHandle, b: bool| is_live.ensures((&h,), b) ==> b == live(h),
    ensures
        r == exists|k: int| 0 <= k < end && !live(list@[k]),
{
    let mut k: usize = 0;
    while k < end
        invariant
            k <= end <= list@.len(),
            forall|h: SubscriberHandle| #[trigger] is_live.requires((&h,)),
            forall|h: SubscriberHandle, b: bool| is_live.ensures((&h,), b) ==> b == live(h),
            forall|j: int| 0 <= j < k ==> live(list@[j]),
        decreases end - k,
    {
        if !is_live(&list[k]) {
            return true;
        }
        k = k + 1;
    }
    false
}

/// The entries of `list` that resolve, in their order.
fn retain_live<G>(list: &Vec<SubscriberHandle>, is_live: &G, Ghost(live): Ghost<spec_fn(SubscriberHandle) -> bool>) -> (r: Vec<SubscriberHandle>)
    where
        G: Fn(&SubscriberHandle) -> bool,
    requires
        forall|h: SubscriberHandle| #[trigger] is_live.requires((&h,)),
        forall|h: SubscriberHandle, b: bool| is_live.ensures((&h,), b) ==> b == live(h),
    ensures
        r@ == list@.filter(live),
{
    let mut kept: Vec<SubscriberHandle> = Vec::new();
    let mut k: usize = 0;
    while k < list.len()
        invariant
            k <= list@.len(),
            forall|h: SubscriberHandle| #[trigger] is_live.requires((&h,)),
            forall|h: SubscriberHandle, b: bool| is_live.ensures((&h,), b) ==> b == live(h),
            kept@ == list@.take(k as int).filter(live),
        decreases list@.len() - k,
    {
        proof {
            reveal(Seq::filter);
            assert(list@.take(k + 1).drop_last() == list@.take(k as int));
        }
        if is_live(&list[k]) {
            kept.push(list[k]);
        }
        k = k + 1;
    }
    assert(list@.take(list@.len() as int) == list@);
    kept
}

/// Looks for the first live entry equal to `h`, noting on the way whether an
/// unresolvable entry came before it.
fn scan_for<G>(list: &Vec<SubscriberHandle>, h: SubscriberHandle, is_live: &G, Ghost(live): Ghost<spec_fn(SubscriberHandle) -> bool>) -> (r: (Option<usize>, bool))
    where
        G: Fn(&SubscriberHandle) -> bool,
    requires
        forall|x: SubscriberHandle| #[trigger] is_live.requires((&x,)),
        forall|x: SubscriberHandle, b: bool| is_live.ensures((&x,), b) ==> b == live(x),
    ensures
        r.0 is Some <==> live(h) && list@.contains(h),
        r.0 matches Some(p) ==> p == first_position(list@, h) && p < list@.len(),
        r.1 == exists|j: int| 0 <= j < scan_end(list@, h, live) && !live(list@[j]),
{
    let mut stale = false;
    let mut k: usize = 0;
    while k < list.len()
        invariant
            k <= list@.len(),
            forall|x: SubscriberHandle| #[trigger] is_live.requires((&x,)),
            forall|x: SubscriberHandle, b: bool| is_live.ensures((&x,), b) ==> b == live(x),
            forall|j: int| 0 <= j < k ==> !(live(list@[j]) && list@[j] == h),
            stale == exists|j: int| 0 <= j < k && !live(list@[j]),
        decreases list@.len() - k,
    {
        if is_live(&list[k]) {
            if list[k] == h {
                proof {
                    assert(list@.contains(h));
                    let f = first_position(list@, h);
                    assert(0 <= k < list@.len() && list@[k as int] == h && forall|j: int| 0 <= j < k ==> list@[j] != h);
                    assert(0 <= f < list@.len() && list@[f] == h && forall|j: int| 0 <= j < f ==> list@[j] != h);
                    assert(f == k);
                }
                return (Some(k), stale);
            }
        } else {
            stale = true;
        }
        k = k + 1;
    }
    proof {
        if live(h) && list@.contains(h) {
            let j = choose|j: int| 0 <= j < list@.len() && list@[j] == h;
            assert(!(live(list@[j]) && list@[j] == h));
        }
    }
    (None, stale)
}

impl<T: PartialEq> ChannelMap<T> {
    /// Removes the first live entry equal to `h` from the channel of `c`, then
    /// drops the unresolvable handles if the scan for it met one.
    pub fn unsubscribe<G>(
        &mut self,
        h: SubscriberHandle,
        c: &T,
        is_live: G,
        Ghost(live): Ghost<spec_fn(SubscriberHandle) -> bool>,
    )
        where
            G: Fn(&SubscriberHandle) -> bool,
        requires
            old(self).wf(),
            obeys_concrete_eq::<T>(),
            forall|x: SubscriberHandle| #[trigger] is_live.requires((&x,)),
            forall|x: SubscriberHandle, b: bool| is_live.ensures((&x,), b) ==> b == live(x),
        ensures
            final(self).wf(),
            final(self).view() == unsubscribed(old(self).view(), h, *c, live),
    {
        match self.find(c) {
            None => {},
            Some(i) => {
                let mut ch = self.take(i);
                let (found, stale) = scan_for(&ch.subscribers, h, &is_live, Ghost(live));
                match found {
                    Some(p) => {
                        ch.subscribers.swap_remove(p);
                    },
                    None => {},
                }
                if stale {
                    ch.subscribers = retain_live(&ch.subscribers, &is_live, Ghost(live));
                }
                self.put(ch);
                proof {
                    assert(self.view() =~= unsubscribed(old(self).view(), h, *c, live));
                }
            },
        }
    }

    /// A copy of the channel of `c`, if there is one.
    pub fn subscribers_of(&self, c: &T) -> (r: Option<Vec<SubscriberHandle>>)
        requires
            self.wf(),
            obeys_concrete_eq::<T>(),
        ensures
            r is Some <==> self.view().contains_key(*c),
            r matches Some(v) ==> v@ == self.view()[*c],
    {
        match self.find(c) {
            None => None,
            Some(i) => {
                proof {
                    self.lemma_entry(i as int);
                }
                let list = &self.channels[i].subscribers;
                let mut copy: Vec<SubscriberHandle> = Vec::new();
                let mut k: usize = 0;
                while k < list.len()
                    invariant
                        k <= list@.len(),
                        copy@ == list@.take(k as int),
                    decreases list@.len() - k,
                {
                    copy.push(list[k]);
                    k = k + 1;
                    assert(copy@ =~= list@.take(k as int));
                }
                assert(list@.take(list@.len() as int) =~= list@);
                Some(copy)
            },
        }
    }

    /// Appends `h` to the channel of `c`, creating the channel when absent.
    pub fn subscribe(&mut self, h: SubscriberHandle, c: T)
        requires
            old(self).wf(),
            obeys_concrete_eq::<T>(),
        ensures
            final(self).wf(),
            final(self).view() == subscribed(old(self).view(), h, c),
    {
        match self.find(&c) {
            Some(i) => {
                let mut ch = self.take(i);
                ch.subscribers.push(h);
                self.put(ch);
            },
            None => {
                let mut subscribers = Vec::new();
                subscribers.push(h);
                self.put(Channel { category: c, subscribers });
            },
        }
        proof {
            assert(self.view() =~= subscribed(old(self).view(), h, c));
        }
    }

    /// Drops the channel of `c`, if there is one.
    pub fn remove(&mut self, c: &T)
        requires
            old(self).wf(),
            obeys_concrete_eq::<T>(),
        ensures
            final(self).wf(),
            final(self).view() == old(self).view().remove(*c),
    {
        match self.find(c) {
            Some(i) => {
                let _ = self.take(i);
            },
            None => {
                assert(self.view() =~= old(self).view().remove(*c));
            },
        }
    }

    /// Runs one dispatch pass over the channel of `c`, with `action` giving each
    /// handle's directive, then drops the unresolvable handles if the pass met one.
    ///
    /// Returns the result and the directives `action` gave, one per visit.
    pub fn dispatch<F, G>(
        &mut self,
        c: &T,
        action: F,
        is_live: G,
        Ghost(live): Ghost<spec_fn(SubscriberHandle) -> bool>,
    ) -> (r: (EventDispatchResult, Ghost<Seq<BusRequest>>))
        where
            F: Fn(&SubscriberHandle) -> BusRequest,
            G: Fn(&SubscriberHandle) -> bool,
        requires
            old(self).wf(),
            obeys_concrete_eq::<T>(),
            forall|h: SubscriberHandle| #[trigger] action.requires((&h,)),
            forall|h: SubscriberHandle, d: BusRequest|
                action.ensures((&h,), d) && !live(h) ==> d == BusRequest::NoActionNeeded,
            forall|h: SubscriberHandle| #[trigger] is_live.requires((&h,)),
            forall|h: SubscriberHandle, b: bool| is_live.ensures((&h,), b) ==> b == live(h),
        ensures
            final(self).wf(),
            (final(self).view(), r.0) == dispatched_with(old(self).view(), *c, live, r.1@),
            old(self).view().contains_key(*c) ==> r.1@.len() == run_with(old(self).view()[*c], 0, r.1@).visited.len(),
            old(self).view().contains_key(*c) ==> forall|n: int|
                0 <= n < r.1@.len() ==> action.ensures(
                    (&#[trigger] run_with(old(self).view()[*c], 0, r.1@).visited[n],),
                    r.1@[n],
                ),
    {
        match self.find(c) {
            None => (EventDispatchResult::NotNeeded, Ghost(Seq::empty())),
            Some(i) => {
                let mut ch = self.take(i);
                let ghost before = ch.subscribers@;
                let (result, end, Ghost(ds)) = execute_bus_requests(&mut ch.subscribers, action);
                proof {
                    lemma_stale_seen_prefix(before, 0, ds, live);
                }
                if any_stale(&ch.subscribers, end, &is_live, Ghost(live)) {
                    ch.subscribers = retain_live(&ch.subscribers, &is_live, Ghost(live));
                }
                self.put(ch);
                proof {
                    assert(self.view() =~= dispatched_with(old(self).view(), *c, live, ds).0);
                }
                (result, Ghost(ds))
            },
        }
    }
}

} // verus!
