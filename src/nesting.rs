//! The mathematical model of a trace: how many spans are open after each
//! prefix, which entry each exit closes, and the table that reconstruction
//! must produce.
use vstd::prelude::*;
use crate::event::{is_enter, is_exit, EventData, TraceError, TraceEvent};

verus! {

/// How an event changes the number of open spans.
pub open spec fn step(e: TraceEvent) -> int {
    if is_enter(e) {
        1
    } else if is_exit(e) {
        -1
    } else {
        0
    }
}

/// The number of spans left open by the first `n` events (entries minus exits).
pub open spec fn open_after(events: Seq<TraceEvent>, n: int) -> int
    decreases n,
{
    if n <= 0 {
        0
    } else {
        open_after(events, n - 1) + step(events[n - 1])
    }
}

/// The first fault met when the events are read from index `i` on: a cached
/// event, an exit with no open span, or spans still open at the end.
pub open spec fn fault_from(events: Seq<TraceEvent>, i: nat) -> Option<TraceError>
    decreases events.len() - i,
{
    if i >= events.len() {
        if open_after(events, events.len() as int) == 0 {
            None
        } else {
            Some(TraceError::MalformedTrace)
        }
    } else if events[i as int] is CachedRule {
        Some(TraceError::UnsupportedEvent)
    } else if is_exit(events[i as int]) && open_after(events, i as int) == 0 {
        Some(TraceError::MalformedTrace)
    } else {
        fault_from(events, i + 1)
    }
}

/// The fault of a whole trace, if any.
pub open spec fn trace_fault(events: Seq<TraceEvent>) -> Option<TraceError> {
    fault_from(events, 0)
}

/// Every exit closes an open span, only entries and exits occur, and no span
/// is left open at the end.
pub open spec fn well_nested(events: Seq<TraceEvent>) -> bool {
    trace_fault(events) is None
}

/// The exit at `x` closes the entry at `e`: between them the span stays open,
/// and right after `x` the open count is back to what it was before `e`.
pub open spec fn is_pair(events: Seq<TraceEvent>, e: int, x: int) -> bool {
    &&& 0 <= e < x < events.len()
    &&& is_enter(events[e])
    &&& is_exit(events[x])
    &&& open_after(events, x + 1) == open_after(events, e)
    &&& forall|k: int| e < k <= x ==> #[trigger] open_after(events, k) > open_after(events, e)
}

/// The nesting level of the span that the event at `i` opens or closes.
pub open spec fn depth_at(events: Seq<TraceEvent>, i: int) -> int {
    if is_enter(events[i]) {
        open_after(events, i)
    } else {
        open_after(events, i + 1)
    }
}

/// The counterpart of the event at `i`: the exit of an entry, the entry of an exit.
pub open spec fn partner(events: Seq<TraceEvent>, i: int) -> int {
    if is_enter(events[i]) {
        choose|x: int| is_pair(events, i, x)
    } else {
        choose|e: int| is_pair(events, e, i)
    }
}

/// The record that reconstruction makes of the event at `i`.
pub open spec fn record_of(events: Seq<TraceEvent>, i: int) -> EventData {
    EventData {
        event: events[i],
        depth: depth_at(events, i) as usize,
        pair_index: partner(events, i) as usize,
    }
}

/// The reconstructed table of a trace: one record per event, in order.
pub open spec fn table_of(events: Seq<TraceEvent>) -> Seq<EventData> {
    Seq::new(events.len(), |i: int| record_of(events, i))
}

pub proof fn lemma_open_after_step(events: Seq<TraceEvent>, k: int)
    requires
        0 <= k,
    ensures
        open_after(events, k + 1) == open_after(events, k) + step(events[k]),
{
}

/// At most `n` spans are open after `n` events.
pub proof fn lemma_open_after_bound(events: Seq<TraceEvent>, n: int)
    requires
        0 <= n,
    ensures
        open_after(events, n) <= n,
    decreases n,
{
    if n > 0 {
        lemma_open_after_bound(events, n - 1);
    }
}

/// An entry is closed by one exit at most.
pub proof fn lemma_exit_unique(events: Seq<TraceEvent>, e: int, x1: int, x2: int)
    requires
        is_pair(events, e, x1),
        is_pair(events, e, x2),
    ensures
        x1 == x2,
{
    if x1 < x2 {
        assert(open_after(events, x1 + 1) > open_after(events, e));
    } else if x2 < x1 {
        assert(open_after(events, x2 + 1) > open_after(events, e));
    }
}

/// An exit closes one entry at most.
pub proof fn lemma_enter_unique(events: Seq<TraceEvent>, e1: int, e2: int, x: int)
    requires
        is_pair(events, e1, x),
        is_pair(events, e2, x),
    ensures
        e1 == e2,
{
    if e1 < e2 {
        assert(open_after(events, e2) > open_after(events, e1));
    } else if e2 < e1 {
        assert(open_after(events, e1) > open_after(events, e2));
    }
}

/// The partner of an event is the one it is paired with.
pub proof fn lemma_partner_is(events: Seq<TraceEvent>, i: int, p: int)
    requires
        (is_enter(events[i]) && is_pair(events, i, p)) || (is_exit(events[i]) && is_pair(
            events,
            p,
            i,
        )),
    ensures
        partner(events, i) == p,
{
    if is_enter(events[i]) {
        let x = choose|x: int| is_pair(events, i, x);
        lemma_exit_unique(events, i, x, p);
    } else {
        let e = choose|e: int| is_pair(events, e, i);
        lemma_enter_unique(events, e, p, i);
    }
}

proof fn lemma_fault_free_from(events: Seq<TraceEvent>, i: int)
    requires
        0 <= i <= events.len(),
        fault_from(events, i as nat) is None,
        open_after(events, i) >= 0,
    ensures
        open_after(events, events.len() as int) == 0,
        forall|k: int| i <= k <= events.len() ==> #[trigger] open_after(events, k) >= 0,
        forall|k: int|
            i <= k < events.len() ==> !(#[trigger] events[k] is CachedRule) && (is_exit(events[k])
                ==> open_after(events, k) > 0),
    decreases events.len() - i,
{
    if i < events.len() {
        lemma_open_after_step(events, i);
        lemma_fault_free_from(events, i + 1);
    }
}

/// In a well-nested trace the open count never goes negative, ends at zero,
/// every event is an entry or an exit, and every exit finds a span open.
pub proof fn lemma_well_nested_facts(events: Seq<TraceEvent>)
    requires
        well_nested(events),
    ensures
        open_after(events, events.len() as int) == 0,
        forall|k: int| 0 <= k <= events.len() ==> #[trigger] open_after(events, k) >= 0,
        forall|k: int|
            0 <= k < events.len() ==> !(#[trigger] events[k] is CachedRule) && (is_exit(events[k])
                ==> open_after(events, k) > 0),
{
    lemma_fault_free_from(events, 0);
}

proof fn lemma_closer_search(events: Seq<TraceEvent>, e: int, k: int)
    requires
        open_after(events, events.len() as int) == 0,
        open_after(events, e) >= 0,
        0 <= e < k <= events.len(),
        is_enter(events[e]),
        forall|m: int| e < m <= k ==> #[trigger] open_after(events, m) > open_after(events, e),
    ensures
        exists|x: int| is_pair(events, e, x),
    decreases events.len() - k,
{
    let b = open_after(events, e);
    if k == events.len() {
        assert(open_after(events, k) > b);
    } else {
        lemma_open_after_step(events, k);
        assert(open_after(events, k) > b);
        if open_after(events, k + 1) == b {
            assert(is_pair(events, e, k));
        } else {
            lemma_closer_search(events, e, k + 1);
        }
    }
}

/// In a well-nested trace every entry is closed by some exit.
pub proof fn lemma_closer_exists(events: Seq<TraceEvent>, e: int)
    requires
        well_nested(events),
        0 <= e < events.len(),
        is_enter(events[e]),
    ensures
        exists|x: int| is_pair(events, e, x),
{
    lemma_well_nested_facts(events);
    assert(open_after(events, e) >= 0);
    lemma_open_after_step(events, e);
    lemma_closer_search(events, e, e + 1);
}

proof fn lemma_opener_search(events: Seq<TraceEvent>, x: int, k: int)
    requires
        open_after(events, x + 1) >= 0,
        0 <= k < x < events.len(),
        is_exit(events[x]),
        forall|m: int| k < m <= x ==> #[trigger] open_after(events, m) > open_after(events, x + 1),
    ensures
        exists|e: int| is_pair(events, e, x),
    decreases k,
{
    let b = open_after(events, x + 1);
    lemma_open_after_step(events, k);
    assert(open_after(events, k + 1) > b);
    if open_after(events, k) == b {
        assert(is_pair(events, k, x));
    } else {
        assert(open_after(events, k) > b);
        if k > 0 {
            lemma_opener_search(events, x, k - 1);
        } else {
            assert(open_after(events, 0) == 0);
        }
    }
}

/// In a well-nested trace every exit closes some entry.
pub proof fn lemma_opener_exists(events: Seq<TraceEvent>, x: int)
    requires
        well_nested(events),
        0 <= x < events.len(),
        is_exit(events[x]),
    ensures
        exists|e: int| is_pair(events, e, x),
{
    lemma_well_nested_facts(events);
    lemma_open_after_step(events, x);
    assert(open_after(events, x) > 0);
    assert(open_after(events, x + 1) >= 0);
    assert(x > 0);
    lemma_opener_search(events, x, x - 1);
}

} // verus!
