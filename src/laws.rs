//! What holds of every reconstructed table and of its rendering.
use vstd::prelude::*;
use crate::event::{is_enter, is_exit, EventData, TraceEvent};
use crate::nesting::{
    depth_at, is_pair, lemma_closer_exists, lemma_open_after_bound, lemma_open_after_step, lemma_opener_exists, lemma_partner_is,
    lemma_well_nested_facts, open_after, partner, table_of, well_nested,
};
use crate::render::{adjacent_leaf, render_from, rendered};

verus! {

/// The number of exit records from position `i` on.
pub open spec fn exits_from(records: Seq<EventData>, i: nat) -> nat
    decreases records.len() - i,
{
    if i >= records.len() {
        0
    } else {
        (if is_exit(records[i as int].event) {
            1nat
        } else {
            0nat
        }) + exits_from(records, i + 1)
    }
}

/// The number of entry records from position `i` on whose exit is not the next record.
pub open spec fn standalone_entries_from(records: Seq<EventData>, i: nat) -> nat
    decreases records.len() - i,
{
    if i >= records.len() {
        0
    } else {
        (if is_enter(records[i as int].event) && records[i as int].pair_index != i + 1 {
            1nat
        } else {
            0nat
        }) + standalone_entries_from(records, i + 1)
    }
}

/// The number of entry records from position `i` on whose exit is the next record.
pub open spec fn collapsed_leaves_from(records: Seq<EventData>, i: nat) -> nat
    decreases records.len() - i,
{
    if i >= records.len() {
        0
    } else {
        (if is_enter(records[i as int].event) && records[i as int].pair_index == i + 1 {
            1nat
        } else {
            0nat
        }) + collapsed_leaves_from(records, i + 1)
    }
}

/// The number of exit records of a table.
pub open spec fn exit_count(records: Seq<EventData>) -> nat {
    exits_from(records, 0)
}

/// The number of entry records whose exit is not the next record.
pub open spec fn standalone_entry_count(records: Seq<EventData>) -> nat {
    standalone_entries_from(records, 0)
}

/// The number of entry records whose exit is the next record.
pub open spec fn collapsed_leaf_count(records: Seq<EventData>) -> nat {
    collapsed_leaves_from(records, 0)
}

/// A table that the walk can cross: only entries and exits, and every entry
/// links forward inside the table, to an exit when it links to the next record.
pub open spec fn walkable(records: Seq<EventData>) -> bool {
    forall|i: int|
        0 <= i < records.len() ==> {
            &&& !(#[trigger] records[i].event is CachedRule)
            &&& is_enter(records[i].event) ==> {
                &&& i < records[i].pair_index < records.len()
                &&& records[i].pair_index == i + 1 ==> is_exit(records[i + 1].event)
            }
        }
}

proof fn lemma_record_pairs(events: Seq<TraceEvent>, i: int)
    requires
        well_nested(events),
        events.len() <= usize::MAX,
        0 <= i < events.len(),
    ensures
        table_of(events)[i].pair_index as int == partner(events, i),
        table_of(events)[i].depth as int == depth_at(events, i),
        is_enter(events[i]) ==> is_pair(events, i, partner(events, i)),
        is_exit(events[i]) ==> is_pair(events, partner(events, i), i),
        is_enter(events[i]) || is_exit(events[i]),
        0 <= partner(events, i) < events.len(),
        partner(events, partner(events, i)) == i,
{
    assert(!(events[i] is CachedRule) && open_after(events, i) >= 0 && open_after(events, i + 1)
        >= 0) by {
        lemma_well_nested_facts(events);
    }
    lemma_open_after_step(events, i);
    assert(open_after(events, i) <= i) by {
        lemma_open_after_bound(events, i);
    }
    if is_enter(events[i]) {
        lemma_closer_exists(events, i);
        let x = partner(events, i);
        lemma_partner_is(events, x, i);
    } else {
        lemma_opener_exists(events, i);
        let e = partner(events, i);
        lemma_partner_is(events, e, i);
    }
}

/// Pairing is complete and symmetric: in the table of a well-nested trace
/// every record links to a record of the table that links back to it, an
/// entry to the exit that closes it and an exit to the entry it closes.
pub proof fn lemma_pairing_complete(events: Seq<TraceEvent>)
    requires
        well_nested(events),
        events.len() <= usize::MAX,
    ensures
        forall|i: int|
            0 <= i < events.len() ==> {
                &&& #[trigger] table_of(events)[i].pair_index < events.len()
                &&& table_of(events)[table_of(events)[i].pair_index as int].pair_index == i
                &&& is_enter(events[i]) ==> is_pair(events, i, table_of(events)[i].pair_index as int)
                &&& is_exit(events[i]) ==> is_pair(events, table_of(events)[i].pair_index as int, i)
            },
{
    assert forall|i: int| 0 <= i < events.len() implies {
        &&& #[trigger] table_of(events)[i].pair_index < events.len()
        &&& table_of(events)[table_of(events)[i].pair_index as int].pair_index == i
        &&& is_enter(events[i]) ==> is_pair(events, i, table_of(events)[i].pair_index as int)
        &&& is_exit(events[i]) ==> is_pair(events, table_of(events)[i].pair_index as int, i)
    } by {
        lemma_record_pairs(events, i);
    }
}

/// Depth is symmetric: an entry and its exit carry the same depth.  The open
/// count is zero after the last event, the last record is an exit at depth
/// zero, and when the first entry is closed by the last event the open count
/// does not reach zero before the end.
pub proof fn lemma_depth_symmetry(events: Seq<TraceEvent>)
    requires
        well_nested(events),
        events.len() <= usize::MAX,
    ensures
        forall|e: int|
            0 <= e < events.len() && is_enter(events[e]) ==> #[trigger] table_of(events)[e].depth
                == table_of(events)[table_of(events)[e].pair_index as int].depth,
        open_after(events, events.len() as int) == 0,
        events.len() > 0 ==> is_exit(events.last()) && table_of(events).last().depth == 0,
        events.len() > 0 && table_of(events)[0].pair_index == events.len() - 1 ==> forall|k: int|
            0 < k < events.len() ==> #[trigger] open_after(events, k) > 0,
{
    let t = table_of(events);
    assert forall|e: int| 0 <= e < events.len() && is_enter(events[e]) implies #[trigger] table_of(
        events,
    )[e].depth == table_of(events)[table_of(events)[e].pair_index as int].depth by {
        lemma_record_pairs(events, e);
    }
    let n = events.len() as int;
    assert(open_after(events, n) == 0) by {
        lemma_well_nested_facts(events);
    }
    if n > 0 {
        lemma_record_pairs(events, n - 1);
        lemma_open_after_step(events, n - 1);
        assert(open_after(events, n - 1) >= 0 && !(events[n - 1] is CachedRule)) by {
            lemma_well_nested_facts(events);
        }
        if t[0].pair_index == n - 1 {
            lemma_record_pairs(events, 0);
            assert(open_after(events, 0) == 0);
        }
    }
}

proof fn lemma_walk_count(records: Seq<EventData>, i: nat)
    requires
        walkable(records),
        i <= records.len(),
    ensures
        render_from(records, i) is Ok,
        render_from(records, i)->Ok_0.len() == standalone_entries_from(records, i) + exits_from(
            records,
            i,
        ),
        render_from(records, i)->Ok_0.len() + collapsed_leaves_from(records, i) == records.len()
            - i,
    decreases records.len() - i,
{
    if i < records.len() {
        let r = records[i as int];
        assert(!(r.event is CachedRule));
        if adjacent_leaf(records, i as int) {
            lemma_walk_count(records, i + 2);
            assert(!(records[(i + 1) as int].event is CachedRule));
            assert(exits_from(records, i + 1) == 1 + exits_from(records, i + 2));
            assert(standalone_entries_from(records, i + 1) == standalone_entries_from(
                records,
                i + 2,
            ));
            assert(collapsed_leaves_from(records, i + 1) == collapsed_leaves_from(records, i + 2));
        } else {
            lemma_walk_count(records, i + 1);
        }
    }
}

/// Rendering the table of a well-nested trace succeeds, with one line for each
/// entry whose exit is not the next record and one for each exit: each
/// collapsed leaf gives one line, not two.
pub proof fn lemma_line_count(events: Seq<TraceEvent>)
    requires
        well_nested(events),
        events.len() <= usize::MAX,
    ensures
        rendered(table_of(events)) is Ok,
        rendered(table_of(events))->Ok_0.len() == standalone_entry_count(table_of(events))
            + exit_count(table_of(events)),
        rendered(table_of(events))->Ok_0.len() == events.len() - collapsed_leaf_count(
            table_of(events),
        ),
{
    let t = table_of(events);
    assert forall|i: int| 0 <= i < t.len() implies {
        &&& !(#[trigger] t[i].event is CachedRule)
        &&& is_enter(t[i].event) ==> {
            &&& i < t[i].pair_index < t.len()
            &&& t[i].pair_index == i + 1 ==> is_exit(t[i + 1].event)
        }
    } by {
        lemma_record_pairs(events, i);
    }
    lemma_walk_count(t, 0);
}

} // verus!
