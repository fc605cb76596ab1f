//! The pass protocol that every bus runs, and the state each bus operation
//! leaves, stated over a bus's channels as a map from category to handles.
use vstd::prelude::*;

pub use crate::messaging::rc::EventBus;
pub use crate::messaging::sync::TSEventBus;

verus! {

/// The directive a subscriber hands back to the bus after handling an event.
#[derive(Debug, Clone, Copy, PartialEq, Eq, Hash, Structural)]
pub enum BusRequest {
    /// Continue with the next subscriber; the list is left as it is.
    NoActionNeeded,
    /// Remove this subscriber from the channel and continue.
    Unsubscribe,
    /// Halt the pass: no further subscriber sees this event.
    DoNotPropagate,
    /// Remove this subscriber from the channel and halt the pass.
    UnsubscribeAndDoNotPropagate,
}

/// The outcome of one dispatch.
#[derive(Debug, Clone, Copy, PartialEq, Eq, Hash, Structural)]
pub enum EventDispatchResult {
    /// A subscriber halted the pass before the end of the list.
    Stopped,
    /// Every subscriber of the channel was visited.
    Finished,
    /// No channel existed for the event's category.
    NotNeeded,
}

/// `s` with its entry at `i` replaced by its last entry, and the last slot dropped.
pub open spec fn swap_removed<H>(s: Seq<H>, i: int) -> Seq<H> {
    s.update(i, s.last()).drop_last()
}

/// What a pass over a subscriber list leaves behind.
pub struct PassOutcome<H> {
    /// The list after the pass.
    pub remaining: Seq<H>,
    /// The entries handed to the action, in the order they were handed over.
    pub visited: Seq<H>,
    /// Every entry of `remaining` below this position was visited and kept.
    pub end: nat,
    pub result: EventDispatchResult,
}

/// The pass protocol, run from position `idx` of `list`, where `reply` gives the
/// directive that the action returns for each entry.
pub open spec fn run_pass<H>(list: Seq<H>, idx: nat, reply: spec_fn(H) -> BusRequest) -> PassOutcome<H>
    decreases 2 * list.len() - idx,
{
    if idx >= list.len() {
        PassOutcome { remaining: list, visited: Seq::empty(), end: idx, result: EventDispatchResult::Finished }
    } else {
        let h = list[idx as int];
        match reply(h) {
            BusRequest::NoActionNeeded => {
                let rest = run_pass(list, idx + 1, reply);
                PassOutcome { visited: seq![h] + rest.visited, ..rest }
            },
            BusRequest::Unsubscribe => {
                let rest = run_pass(swap_removed(list, idx as int), idx, reply);
                PassOutcome { visited: seq![h] + rest.visited, ..rest }
            },
            BusRequest::DoNotPropagate => {
                PassOutcome { remaining: list, visited: seq![h], end: idx, result: EventDispatchResult::Stopped }
            },
            BusRequest::UnsubscribeAndDoNotPropagate => {
                PassOutcome {
                    remaining: swap_removed(list, idx as int),
                    visited: seq![h],
                    end: idx,
                    result: EventDispatchResult::Stopped,
                }
            },
        }
    }
}

/// `ds` without its first directive.
pub open spec fn rest_of(ds: Seq<BusRequest>) -> Seq<BusRequest> {
    if ds.len() > 0 {
        ds.drop_first()
    } else {
        ds
    }
}

/// The pass protocol run from position `idx` of `list`, where the action's
/// directives come from `ds`, one per visit, in order.
pub open spec fn run_with<H>(list: Seq<H>, idx: nat, ds: Seq<BusRequest>) -> PassOutcome<H>
    decreases 2 * list.len() - idx,
{
    if idx >= list.len() {
        PassOutcome { remaining: list, visited: Seq::empty(), end: idx, result: EventDispatchResult::Finished }
    } else {
        let h = list[idx as int];
        let d = if ds.len() > 0 { ds[0] } else { BusRequest::NoActionNeeded };
        match d {
            BusRequest::NoActionNeeded => {
                let rest = run_with(list, idx + 1, rest_of(ds));
                PassOutcome { visited: seq![h] + rest.visited, ..rest }
            },
            BusRequest::Unsubscribe => {
                let rest = run_with(swap_removed(list, idx as int), idx, rest_of(ds));
                PassOutcome { visited: seq![h] + rest.visited, ..rest }
            },
            BusRequest::DoNotPropagate => {
                PassOutcome { remaining: list, visited: seq![h], end: idx, result: EventDispatchResult::Stopped }
            },
            BusRequest::UnsubscribeAndDoNotPropagate => {
                PassOutcome {
                    remaining: swap_removed(list, idx as int),
                    visited: seq![h],
                    end: idx,
                    result: EventDispatchResult::Stopped,
                }
            },
        }
    }
}

/// Directives that are each what `reply` gives for the entry visited at that
/// turn drive the pass exactly as `reply` does.
pub proof fn lemma_run_with_replies<H>(list: Seq<H>, idx: nat, ds: Seq<BusRequest>, reply: spec_fn(H) -> BusRequest)
    requires
        ds.len() == run_with(list, idx, ds).visited.len(),
        forall|n: int| 0 <= n < ds.len() ==> ds[n] == reply(#[trigger] run_with(list, idx, ds).visited[n]),
    ensures
        run_with(list, idx, ds) == run_pass(list, idx, reply),
    decreases 2 * list.len() - idx,
{
    let pass = run_with(list, idx, ds);
    if idx < list.len() {
        let h = list[idx as int];
        assert(pass.visited[0] == h);
        assert(ds[0] == reply(h));
        let tail = ds.drop_first();
        assert(rest_of(ds) == tail);
        let next = match ds[0] {
            BusRequest::Unsubscribe => swap_removed(list, idx as int),
            _ => list,
        };
        let next_idx = match ds[0] {
            BusRequest::NoActionNeeded => idx + 1,
            _ => idx,
        };
        match ds[0] {
            BusRequest::NoActionNeeded | BusRequest::Unsubscribe => {
                let rest = run_with(next, next_idx, tail);
                assert(pass.visited == seq![h] + rest.visited);
                assert forall|n: int| 0 <= n < tail.len() implies tail[n] == reply(#[trigger] rest.visited[n]) by {
                    assert(rest.visited[n] == pass.visited[n + 1]);
                }
                lemma_run_with_replies(next, next_idx, tail, reply);
            },
            _ => {},
        }
    }
}

/// Runs `function` on the entries of `subscribers` and acts on each directive it
/// returns: an unsubscribed entry is swapped out for the last one, which is then
/// visited at the same position; a stop directive ends the pass.
///
/// Returns the result of the pass, the number of leading entries of the list
/// that were visited and kept, and the directives, one per visit.
pub(crate) fn execute_bus_requests<H, F>(
    subscribers: &mut Vec<H>,
    function: F,
) -> (r: (EventDispatchResult, usize, Ghost<Seq<BusRequest>>))
    where
        F: Fn(&H) -> BusRequest,
    requires
        forall|h: H| #[trigger] function.requires((&h,)),
    ensures
        final(subscribers)@ == run_with(old(subscribers)@, 0, r.2@).remaining,
        r.0 == run_with(old(subscribers)@, 0, r.2@).result,
        r.1 == run_with(old(subscribers)@, 0, r.2@).end,
        r.1 <= final(subscribers)@.len(),
        r.0 != EventDispatchResult::NotNeeded,
        r.2@.len() == run_with(old(subscribers)@, 0, r.2@).visited.len(),
        forall|n: int|
            0 <= n < r.2@.len() ==> function.ensures((&#[trigger] run_with(old(subscribers)@, 0, r.2@).visited[n],), r.2@[n]),
{
    let ghost start = subscribers@;
    let ghost mut visited: Seq<H> = Seq::empty();
    let ghost mut given: Seq<BusRequest> = Seq::empty();
    let mut idx: usize = 0;
    loop
        invariant
            idx <= subscribers.len(),
            start == old(subscribers)@,
            forall|h: H| #[trigger] function.requires((&h,)),
            visited.len() == given.len(),
            forall|n: int| 0 <= n < given.len() ==> function.ensures((&#[trigger] visited[n],), given[n]),
            forall|s: Seq<BusRequest>| {
                let whole = #[trigger] run_with(start, 0, given + s);
                let rest = run_with(subscribers@, idx as nat, s);
                &&& whole.remaining == rest.remaining
                &&& whole.end == rest.end
                &&& whole.result == rest.result
                &&& whole.visited == visited + rest.visited
            },
        decreases 2 * subscribers.len() - idx,
    {
        if idx < subscribers.len() {
            let ghost before = subscribers@;
            let ghost h = subscribers@[idx as int];
            let directive = function(&subscribers[idx]);
            proof {
                assert forall|s: Seq<BusRequest>| {
                    let whole = #[trigger] run_with(start, 0, given.push(directive) + s);
                    let rest = run_with(before, idx as nat, seq![directive] + s);
                    &&& whole.remaining == rest.remaining
                    &&& whole.end == rest.end
                    &&& whole.result == rest.result
                    &&& whole.visited == visited + rest.visited
                } by {
                    assert(given.push(directive) + s == given + (seq![directive] + s));
                }
                assert forall|s: Seq<BusRequest>| #[trigger] rest_of(seq![directive] + s) == s by {
                    assert((seq![directive] + s).drop_first() == s);
                }
                visited = visited.push(h);
                given = given.push(directive);
            }
            match directive {
                BusRequest::NoActionNeeded => {
                    idx = idx + 1;
                    proof {
                        assert forall|s: Seq<BusRequest>| {
                            let whole = #[trigger] run_with(start, 0, given + s);
                            let rest = run_with(subscribers@, idx as nat, s);
                            &&& whole.remaining == rest.remaining
                            &&& whole.end == rest.end
                            &&& whole.result == rest.result
                            &&& whole.visited == visited + rest.visited
                        } by {
                            assert(rest_of(seq![directive] + s) == s);
                        }
                    }
                },
                BusRequest::Unsubscribe => {
                    subscribers.swap_remove(idx);
                    proof {
                        assert forall|s: Seq<BusRequest>| {
                            let whole = #[trigger] run_with(start, 0, given + s);
                            let rest = run_with(subscribers@, idx as nat, s);
                            &&& whole.remaining == rest.remaining
                            &&& whole.end == rest.end
                            &&& whole.result == rest.result
                            &&& whole.visited == visited + rest.visited
                        } by {
                            assert(rest_of(seq![directive] + s) == s);
                        }
                    }
                },
                BusRequest::DoNotPropagate => {
                    proof {
                        assert(given + Seq::<BusRequest>::empty() == given);
                    }
                    return (EventDispatchResult::Stopped, idx, Ghost(given));
                },
                BusRequest::UnsubscribeAndDoNotPropagate => {
                    subscribers.swap_remove(idx);
                    proof {
                        assert(given + Seq::<BusRequest>::empty() == given);
                    }
                    return (EventDispatchResult::Stopped, idx, Ghost(given));
                },
            }
        } else {
            proof {
                assert(given + Seq::<BusRequest>::empty() == given);
            }
            return (EventDispatchResult::Finished, idx, Ghost(given));
        }
    }
}

/// Whether the pass handed an unresolvable handle to its action.
pub open spec fn stale_seen<H>(pass: PassOutcome<H>, live: spec_fn(H) -> bool) -> bool {
    exists|k: int| 0 <= k < pass.visited.len() && !live(pass.visited[k])
}

/// A channel after a pass: when the pass met an unresolvable handle, only the
/// resolvable ones stay.
pub open spec fn cleaned<H>(pass: PassOutcome<H>, live: spec_fn(H) -> bool) -> Seq<H> {
    if stale_seen(pass, live) {
        pass.remaining.filter(live)
    } else {
        pass.remaining
    }
}

/// The directive a handle yields when an event is dispatched: an unresolvable
/// handle is skipped, a live one answers through its subscriber.
pub open spec fn reply_or_skip<H>(live: spec_fn(H) -> bool, answer: spec_fn(H) -> BusRequest) -> spec_fn(H) -> BusRequest {
    |h: H| if live(h) { answer(h) } else { BusRequest::NoActionNeeded }
}

/// The channels after `h` is subscribed to `c`: appended to the channel of `c`,
/// which is created when absent.
pub open spec fn subscribed<T, H>(m: Map<T, Seq<H>>, h: H, c: T) -> Map<T, Seq<H>> {
    if m.contains_key(c) {
        m.insert(c, m[c].push(h))
    } else {
        m.insert(c, seq![h])
    }
}

/// The channels after a dispatch on category `c`, and the dispatch's result.
pub open spec fn dispatched<T, H>(
    m: Map<T, Seq<H>>,
    c: T,
    live: spec_fn(H) -> bool,
    answer: spec_fn(H) -> BusRequest,
) -> (Map<T, Seq<H>>, EventDispatchResult) {
    if m.contains_key(c) {
        let pass = run_pass(m[c], 0, reply_or_skip(live, answer));
        (m.insert(c, cleaned(pass, live)), pass.result)
    } else {
        (m, EventDispatchResult::NotNeeded)
    }
}

/// `dispatched`, with the action's directives given one per visit by `ds`.
pub open spec fn dispatched_with<T, H>(
    m: Map<T, Seq<H>>,
    c: T,
    live: spec_fn(H) -> bool,
    ds: Seq<BusRequest>,
) -> (Map<T, Seq<H>>, EventDispatchResult) {
    if m.contains_key(c) {
        let pass = run_with(m[c], 0, ds);
        (m.insert(c, cleaned(pass, live)), pass.result)
    } else {
        (m, EventDispatchResult::NotNeeded)
    }
}

/// The first position of `h` in `list` (meaningful when `list` holds `h`).
pub open spec fn first_position<H>(list: Seq<H>, h: H) -> int {
    choose|k: int| 0 <= k < list.len() && list[k] == h && forall|j: int| 0 <= j < k ==> list[j] != h
}

/// How far an unsubscription scans `list` looking for `h`: up to its first
/// position when `h` is live and present, else through the whole list.
pub open spec fn scan_end<H>(list: Seq<H>, h: H, live: spec_fn(H) -> bool) -> int {
    if live(h) && list.contains(h) {
        first_position(list, h)
    } else {
        list.len() as int
    }
}

/// A channel after `h` is unsubscribed from it: its first entry, if `h` is live,
/// is swapped out; when the scan met an unresolvable handle, only the
/// resolvable ones stay.
pub open spec fn unsubscribed_list<H>(list: Seq<H>, h: H, live: spec_fn(H) -> bool) -> Seq<H> {
    let removed = if live(h) && list.contains(h) {
        swap_removed(list, first_position(list, h))
    } else {
        list
    };
    if exists|j: int| 0 <= j < scan_end(list, h, live) && !live(list[j]) {
        removed.filter(live)
    } else {
        removed
    }
}

/// The channels after `h` is unsubscribed from `c`.
pub open spec fn unsubscribed<T, H>(m: Map<T, Seq<H>>, h: H, c: T, live: spec_fn(H) -> bool) -> Map<T, Seq<H>> {
    if m.contains_key(c) {
        m.insert(c, unsubscribed_list(m[c], h, live))
    } else {
        m
    }
}

} // verus!
