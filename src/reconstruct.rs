//! Rebuilding the call tree of a flat trace as a table of linked records.
use vstd::prelude::*;
use crate::event::{is_enter, is_exit, EventData, TraceError, TraceEvent};
use crate::nesting::{
    fault_from, is_pair, lemma_closer_exists, lemma_enter_unique, lemma_exit_unique,
    lemma_open_after_step, lemma_partner_is, lemma_well_nested_facts, open_after, record_of,
    table_of, trace_fault, well_nested, depth_at,
};

verus! {

/// The span entered at `s` is open at nesting level `d` through the first `i` events.
spec fn open_entry(events: Seq<TraceEvent>, s: int, d: int, i: int) -> bool {
    &&& 0 <= s < i
    &&& is_enter(events[s])
    &&& open_after(events, s) == d
    &&& forall|k: int| s < k <= i ==> #[trigger] open_after(events, k) > d
}

/// What the first pass records as the link of the event at `j`: nothing for
/// an entry, the entry it closes for an exit.
spec fn backward_link(events: Seq<TraceEvent>, link: Option<usize>, j: int) -> bool {
    if is_enter(events[j]) {
        link is None
    } else {
        &&& is_exit(events[j])
        &&& link matches Some(p) && is_pair(events, p as int, j)
    }
}

/// Rebuilds the table of a trace: each event with the nesting level of its
/// span and the index of its counterpart.  Fails with the first fault of the
/// trace: a cached event, an exit with no open span, or spans left open.
pub fn reconstruct(trace: &[TraceEvent]) -> (r: Result<Vec<EventData>, TraceError>)
    ensures
        match r {
            Ok(records) => well_nested(trace@) && records@ == table_of(trace@),
            Err(e) => trace_fault(trace@) == Some(e),
        },
{
    let n = trace.len();
    let mut depth: usize = 0;
    let mut stack: Vec<usize> = Vec::new();
    let mut depths: Vec<usize> = Vec::new();
    let mut links: Vec<Option<usize>> = Vec::new();
    // Record depths and link each exit back to the entry it closes.
    let mut idx: usize = 0;
    while idx < n
        invariant
            n == trace@.len(),
            idx <= n,
            trace_fault(trace@) == fault_from(trace@, idx as nat),
            depth as int == open_after(trace@, idx as int),
            depth <= idx,
            stack@.len() == depth,
            depths@.len() == idx,
            links@.len() == idx,
            forall|d: int|
                0 <= d < stack@.len() ==> open_entry(trace@, #[trigger] stack@[d] as int, d, idx as int),
            forall|j: int| 0 <= j < idx ==> #[trigger] depths@[j] as int == depth_at(trace@, j),
            forall|j: int| 0 <= j < idx ==> backward_link(trace@, #[trigger] links@[j], j),
        decreases n - idx,
    {
        proof {
            lemma_open_after_step(trace@, idx as int);
        }
        match trace[idx] {
            TraceEvent::MatchStart { .. } => {
                depths.push(depth);
                links.push(None);
                stack.push(idx);
                depth = depth + 1;
            },
            TraceEvent::MatchEnd { .. } => {
                if depth == 0 {
                    return Err(TraceError::MalformedTrace);
                }
                depth = depth - 1;
                let top = stack.pop().unwrap();
                assert(open_entry(trace@, top as int, depth as int, idx as int));
                assert(is_pair(trace@, top as int, idx as int));
                depths.push(depth);
                links.push(Some(top));
            },
            TraceEvent::CachedRule { .. } => {
                return Err(TraceError::UnsupportedEvent);
            },
        }
        idx = idx + 1;
        assert forall|d: int| 0 <= d < stack@.len() implies open_entry(
            trace@,
            #[trigger] stack@[d] as int,
            d,
            idx as int,
        ) by {
            assert(open_after(trace@, idx as int) > d);
        }
    }
    if depth != 0 {
        return Err(TraceError::MalformedTrace);
    }
    proof {
        lemma_well_nested_facts(trace@);
    }
    // Link each entry forward to the exit that closes it.
    let mut j: usize = 0;
    while j < n
        invariant
            n == trace@.len(),
            j <= n,
            well_nested(trace@),
            links@.len() == n,
            forall|x: int|
                0 <= x < n && !is_enter(trace@[x]) ==> backward_link(trace@, #[trigger] links@[x], x),
            forall|e: int|
                0 <= e < n && is_enter(trace@[e]) ==> match #[trigger] links@[e] {
                    None => forall|x: int| 0 <= x < j ==> !is_pair(trace@, e, x),
                    Some(x) => x < j && is_pair(trace@, e, x as int),
                },
        decreases n - j,
    {
        if let Some(p) = links[j] {
            if p < j {
                if links[p].is_some() {
                    proof {
                        let x = links@[p as int]->Some_0;
                        lemma_exit_unique(trace@, p as int, x as int, j as int);
                    }
                    return Err(TraceError::PairingConflict);
                }
                links.set(p, Some(j));
                assert forall|e: int|
                    0 <= e < n && is_enter(trace@[e]) && links@[e] is None implies forall|x: int|
                    0 <= x < j + 1 ==> !is_pair(trace@, e, x) by {
                    if is_pair(trace@, e, j as int) {
                        lemma_enter_unique(trace@, e, p as int, j as int);
                    }
                }
            }
        }
        j = j + 1;
    }
    // Every link is now set: assemble the records.
    let mut out: Vec<EventData> = Vec::new();
    let mut k: usize = 0;
    while k < n
        invariant
            n == trace@.len(),
            k <= n,
            well_nested(trace@),
            links@.len() == n,
            depths@.len() == n,
            forall|j: int| 0 <= j < n ==> #[trigger] depths@[j] as int == depth_at(trace@, j),
            forall|x: int|
                0 <= x < n && !is_enter(trace@[x]) ==> backward_link(trace@, #[trigger] links@[x], x),
            forall|e: int|
                0 <= e < n && is_enter(trace@[e]) ==> match #[trigger] links@[e] {
                    None => forall|x: int| 0 <= x < n ==> !is_pair(trace@, e, x),
                    Some(x) => x < n && is_pair(trace@, e, x as int),
                },
            out@.len() == k,
            forall|i: int| 0 <= i < k ==> #[trigger] out@[i] == record_of(trace@, i),
        decreases n - k,
    {
        proof {
            if is_enter(trace@[k as int]) {
                lemma_closer_exists(trace@, k as int);
                if links@[k as int] is None {
                    let x = choose|x: int| is_pair(trace@, k as int, x);
                    assert(!is_pair(trace@, k as int, x));
                }
            }
        }
        let pair = links[k].unwrap();
        proof {
            lemma_partner_is(trace@, k as int, pair as int);
        }
        out.push(EventData { event: trace[k], depth: depths[k], pair_index: pair });
        k = k + 1;
    }
    assert(out@ =~= table_of(trace@));
    Ok(out)
}

} // verus!
