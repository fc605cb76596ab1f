//! Laws of dispatch, stated over the model that the buses' contracts use.
use vstd::prelude::*;
use crate::messaging::bus::{
    cleaned, dispatched, dispatched_with, reply_or_skip, rest_of, run_pass, run_with, stale_seen, swap_removed,
    BusRequest, EventDispatchResult,
};
use crate::messaging::sync::{may_dispatch, skips_stale};

verus! {

/// Every entry a pass visits, and every entry it leaves, comes from the list it
/// started on.
pub proof fn lemma_pass_stays_in_list<H>(list: Seq<H>, idx: nat, reply: spec_fn(H) -> BusRequest)
    ensures
        forall|k: int|
            0 <= k < run_pass(list, idx, reply).visited.len() ==> list.contains(
                #[trigger] run_pass(list, idx, reply).visited[k],
            ),
        forall|k: int|
            0 <= k < run_pass(list, idx, reply).remaining.len() ==> list.contains(
                #[trigger] run_pass(list, idx, reply).remaining[k],
            ),
    decreases 2 * list.len() - idx,
{
    let pass = run_pass(list, idx, reply);
    if idx < list.len() {
        let h = list[idx as int];
        assert(list.contains(h));
        match reply(h) {
            BusRequest::NoActionNeeded => {
                lemma_pass_stays_in_list(list, idx + 1, reply);
                let rest = run_pass(list, idx + 1, reply);
                assert forall|k: int| 0 <= k < pass.visited.len() implies list.contains(#[trigger] pass.visited[k]) by {
                    if k > 0 {
                        assert(pass.visited[k] == rest.visited[k - 1]);
                    }
                }
            },
            BusRequest::Unsubscribe => {
                let next = swap_removed(list, idx as int);
                lemma_pass_stays_in_list(next, idx, reply);
                let rest = run_pass(next, idx, reply);
                assert forall|x: H| next.contains(x) implies list.contains(x) by {
                    let j = choose|j: int| 0 <= j < next.len() && next[j] == x;
                    if j == idx {
                        assert(x == list[list.len() - 1]);
                    } else {
                        assert(x == list[j]);
                    }
                }
                assert forall|k: int| 0 <= k < pass.visited.len() implies list.contains(#[trigger] pass.visited[k]) by {
                    if k > 0 {
                        assert(pass.visited[k] == rest.visited[k - 1]);
                        assert(next.contains(rest.visited[k - 1]));
                    }
                }
                assert forall|k: int| 0 <= k < pass.remaining.len() implies list.contains(#[trigger] pass.remaining[k]) by {
                    assert(next.contains(rest.remaining[k]));
                }
            },
            BusRequest::DoNotPropagate => {},
            BusRequest::UnsubscribeAndDoNotPropagate => {
                let next = swap_removed(list, idx as int);
                assert forall|k: int| 0 <= k < pass.remaining.len() implies list.contains(#[trigger] pass.remaining[k]) by {
                    if k == idx {
                        assert(pass.remaining[k] == list[list.len() - 1]);
                    } else {
                        assert(pass.remaining[k] == list[k]);
                    }
                }
            },
        }
    }
}

/// A pass that runs to the end visits every entry from its starting position on.
pub proof fn lemma_finished_pass_visits_all<H>(list: Seq<H>, idx: nat, reply: spec_fn(H) -> BusRequest)
    requires
        run_pass(list, idx, reply).result == EventDispatchResult::Finished,
    ensures
        forall|k: int| idx <= k < list.len() ==> run_pass(list, idx, reply).visited.contains(#[trigger] list[k]),
    decreases 2 * list.len() - idx,
{
    let pass = run_pass(list, idx, reply);
    if idx < list.len() {
        let h = list[idx as int];
        assert(pass.visited[0] == h);
        match reply(h) {
            BusRequest::NoActionNeeded => {
                lemma_finished_pass_visits_all(list, idx + 1, reply);
                let rest = run_pass(list, idx + 1, reply);
                assert forall|k: int| idx <= k < list.len() implies pass.visited.contains(#[trigger] list[k]) by {
                    if k > idx {
                        let j = choose|j: int| 0 <= j < rest.visited.len() && rest.visited[j] == list[k];
                        assert(pass.visited[j + 1] == list[k]);
                    }
                }
            },
            BusRequest::Unsubscribe => {
                let next = swap_removed(list, idx as int);
                lemma_finished_pass_visits_all(next, idx, reply);
                let rest = run_pass(next, idx, reply);
                assert forall|k: int| idx <= k < list.len() implies pass.visited.contains(#[trigger] list[k]) by {
                    if k > idx {
                        let p = if k == list.len() - 1 { idx as int } else { k };
                        assert(next[p] == list[k]);
                        let j = choose|j: int| 0 <= j < rest.visited.len() && rest.visited[j] == next[p];
                        assert(pass.visited[j + 1] == list[k]);
                    }
                }
            },
            _ => {},
        }
    }
}

/// Routing: a dispatch on category `c` visits only handles subscribed to `c`,
/// and leaves every other category's channel as it was.
pub proof fn lemma_dispatch_routes_by_category<T, H>(
    m: Map<T, Seq<H>>,
    c: T,
    live: spec_fn(H) -> bool,
    answer: spec_fn(H) -> BusRequest,
)
    ensures
        m.contains_key(c) ==> forall|k: int|
            0 <= k < run_pass(m[c], 0, reply_or_skip(live, answer)).visited.len() ==> m[c].contains(
                #[trigger] run_pass(m[c], 0, reply_or_skip(live, answer)).visited[k],
            ),
        forall|other: T|
            other != c ==> (#[trigger] dispatched(m, c, live, answer).0.contains_key(other) <==> m.contains_key(other)),
        forall|other: T|
            other != c && m.contains_key(other) ==> #[trigger] dispatched(m, c, live, answer).0[other] == m[other],
{
    if m.contains_key(c) {
        lemma_pass_stays_in_list(m[c], 0, reply_or_skip(live, answer));
    }
}

/// Weak lifetime: a handle whose subscriber is gone is never answered for, and a
/// dispatch that runs to the end clears it out of the channel.
pub proof fn lemma_dropped_subscriber_is_cleared<T, H>(
    m: Map<T, Seq<H>>,
    c: T,
    live: spec_fn(H) -> bool,
    answer: spec_fn(H) -> BusRequest,
    h: H,
)
    requires
        m.contains_key(c),
        m[c].contains(h),
        !live(h),
        dispatched(m, c, live, answer).1 == EventDispatchResult::Finished,
    ensures
        reply_or_skip(live, answer)(h) == BusRequest::NoActionNeeded,
        dispatched(m, c, live, answer).0.contains_key(c),
        !dispatched(m, c, live, answer).0[c].contains(h),
{
    let reply = reply_or_skip(live, answer);
    let pass = run_pass(m[c], 0, reply);
    lemma_finished_pass_visits_all(m[c], 0, reply);
    let k = choose|k: int| 0 <= k < m[c].len() && m[c][k] == h;
    assert(pass.visited.contains(m[c][k]));
    let j = choose|j: int| 0 <= j < pass.visited.len() && pass.visited[j] == h;
    assert(stale_seen(pass, live));
    assert(cleaned(pass, live) == pass.remaining.filter(live));
    if pass.remaining.filter(live).contains(h) {
        pass.remaining.lemma_filter_contains_rev(live, h);
    }
}

/// Stop propagation: when the first of three live subscribers asks to stop, only
/// it is visited, the channel is untouched and the dispatch reports `Stopped`.
pub proof fn lemma_stop_propagation<T, H>(
    m: Map<T, Seq<H>>,
    c: T,
    live: spec_fn(H) -> bool,
    answer: spec_fn(H) -> BusRequest,
    a: H,
    b: H,
    d: H,
)
    requires
        m.contains_key(c),
        m[c] == seq![a, b, d],
        live(a),
        answer(a) == BusRequest::DoNotPropagate,
    ensures
        run_pass(m[c], 0, reply_or_skip(live, answer)).visited == seq![a],
        dispatched(m, c, live, answer) == (m, EventDispatchResult::Stopped),
{
    let pass = run_pass(m[c], 0, reply_or_skip(live, answer));
    assert(!stale_seen(pass, live));
    assert(m.insert(c, m[c]) =~= m);
}

/// Unsubscribing mid-dispatch: when the first of three live subscribers asks to
/// leave and the other two ask nothing, the last takes its place, both others
/// are visited in the same pass, and the channel keeps exactly those two.
pub proof fn lemma_unsubscribe_mid_dispatch<T, H>(
    m: Map<T, Seq<H>>,
    c: T,
    live: spec_fn(H) -> bool,
    answer: spec_fn(H) -> BusRequest,
    a: H,
    b: H,
    d: H,
)
    requires
        m.contains_key(c),
        m[c] == seq![a, b, d],
        live(a) && live(b) && live(d),
        answer(a) == BusRequest::Unsubscribe,
        answer(b) == BusRequest::NoActionNeeded,
        answer(d) == BusRequest::NoActionNeeded,
    ensures
        run_pass(m[c], 0, reply_or_skip(live, answer)).visited == seq![a, d, b],
        dispatched(m, c, live, answer) == (m.insert(c, seq![d, b]), EventDispatchResult::Finished),
{
    let reply = reply_or_skip(live, answer);
    let list = seq![a, b, d];
    let next = swap_removed(list, 0);
    assert(next == seq![d, b]);
    let at2 = run_pass(next, 2, reply);
    let at1 = run_pass(next, 1, reply);
    let at0 = run_pass(next, 0, reply);
    assert(at1.visited == seq![b]);
    assert(at0.visited == seq![d, b]);
    let pass = run_pass(list, 0, reply);
    assert(pass.visited == seq![a, d, b]);
    assert(!stale_seen(pass, live));
}

/// A finished pass: when three live subscribers ask nothing, each is visited
/// once, in order, the channel is untouched and the dispatch reports `Finished`.
pub proof fn lemma_all_visited_in_order<T, H>(
    m: Map<T, Seq<H>>,
    c: T,
    live: spec_fn(H) -> bool,
    answer: spec_fn(H) -> BusRequest,
    a: H,
    b: H,
    d: H,
)
    requires
        m.contains_key(c),
        m[c] == seq![a, b, d],
        live(a) && live(b) && live(d),
        answer(a) == BusRequest::NoActionNeeded,
        answer(b) == BusRequest::NoActionNeeded,
        answer(d) == BusRequest::NoActionNeeded,
    ensures
        run_pass(m[c], 0, reply_or_skip(live, answer)).visited == seq![a, b, d],
        dispatched(m, c, live, answer) == (m, EventDispatchResult::Finished),
{
    let reply = reply_or_skip(live, answer);
    let list = seq![a, b, d];
    let at3 = run_pass(list, 3, reply);
    let at2 = run_pass(list, 2, reply);
    let at1 = run_pass(list, 1, reply);
    let pass = run_pass(list, 0, reply);
    assert(at3.visited.len() == 0 && at3.remaining == list);
    assert(at2.visited =~= seq![d]);
    assert(at1.visited =~= seq![b, d]);
    assert(pass.visited =~= seq![a, b, d]);
    assert(pass.remaining == list && pass.result == EventDispatchResult::Finished);
    assert(!stale_seen(pass, live));
    assert(m.insert(c, m[c]) =~= m);
}

/// A category with no subscribers: with no channel the dispatch changes nothing
/// and reports `NotNeeded`; with an empty one it visits nothing, changes nothing
/// and reports `Finished`.
pub proof fn lemma_no_subscribers_no_op<T, H>(
    m: Map<T, Seq<H>>,
    c: T,
    live: spec_fn(H) -> bool,
    answer: spec_fn(H) -> BusRequest,
)
    ensures
        !m.contains_key(c) ==> dispatched(m, c, live, answer) == (m, EventDispatchResult::NotNeeded),
        m.contains_key(c) && m[c].len() == 0 ==> run_pass(m[c], 0, reply_or_skip(live, answer)).visited.len() == 0
            && dispatched(m, c, live, answer) == (m, EventDispatchResult::Finished),
{
    if m.contains_key(c) && m[c].len() == 0 {
        let pass = run_pass(m[c], 0, reply_or_skip(live, answer));
        assert(!stale_seen(pass, live));
        assert(m.insert(c, m[c]) =~= m);
    }
}

/// After every subscriber of a category is dropped from the bus, a dispatch on
/// it changes nothing and reports `NotNeeded`, whatever became of the
/// subscribers themselves.
pub proof fn lemma_unsubscribe_all_then_dispatch<T, H>(
    m: Map<T, Seq<H>>,
    c: T,
    live: spec_fn(H) -> bool,
    answer: spec_fn(H) -> BusRequest,
)
    ensures
        dispatched(m.remove(c), c, live, answer) == (m.remove(c), EventDispatchResult::NotNeeded),
{
}

/// On the thread-shared bus, whatever the subscribers answered and whichever
/// locks were busy: the other categories' channels stay as they were; with no
/// channel for `c` nothing changes and the result is `NotNeeded`; with one, the
/// channel stays and the pass reports `Finished` or `Stopped`.
pub proof fn lemma_shared_dispatch_outcomes<T, H>(
    before: Map<T, Seq<H>>,
    c: T,
    live: spec_fn(H) -> bool,
    after: Map<T, Seq<H>>,
    r: EventDispatchResult,
)
    requires
        may_dispatch(before, c, live, after, r),
    ensures
        forall|other: T| other != c ==> (#[trigger] after.contains_key(other) <==> before.contains_key(other)),
        forall|other: T| other != c && before.contains_key(other) ==> #[trigger] after[other] == before[other],
        !before.contains_key(c) ==> after == before && r == EventDispatchResult::NotNeeded,
        before.contains_key(c) ==> after.contains_key(c) && r != EventDispatchResult::NotNeeded,
{
    let ds = choose|ds: Seq<BusRequest>|
        #[trigger] dispatched_with(before, c, live, ds) == (after, r) && skips_stale(before, c, live, ds);
    if before.contains_key(c) {
        lemma_run_with_result(before[c], 0, ds);
    }
}

/// A pass only ever finishes or stops.
proof fn lemma_run_with_result<H>(list: Seq<H>, idx: nat, ds: Seq<BusRequest>)
    ensures
        run_with(list, idx, ds).result != EventDispatchResult::NotNeeded,
    decreases 2 * list.len() - idx,
{
    if idx < list.len() {
        let d = if ds.len() > 0 { ds[0] } else { BusRequest::NoActionNeeded };
        match d {
            BusRequest::NoActionNeeded => lemma_run_with_result(list, idx + 1, rest_of(ds)),
            BusRequest::Unsubscribe => lemma_run_with_result(
                swap_removed(list, idx as int),
                idx,
                rest_of(ds),
            ),
            _ => {},
        }
    }
}

} // verus!
