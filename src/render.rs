//! Walking a reconstructed table into indented, status-tagged lines.
use vstd::prelude::*;
use crate::event::{
    is_enter, is_exit, name_of, status_of, DisplayLine, EventData, TraceError, TraceEvent,
};

verus! {

/// The line shown for a record: indented by its depth, labelled by its span's name.
pub open spec fn line_of(r: EventData) -> DisplayLine {
    DisplayLine {
        indent_level: r.depth,
        label: name_of(r.event),
        status: status_of(r.event)->Some_0,
    }
}

/// `prefix` followed by the lines of `rest`, or the error of `rest`.
pub open spec fn prepend(
    prefix: Seq<DisplayLine>,
    rest: Result<Seq<DisplayLine>, TraceError>,
) -> Result<Seq<DisplayLine>, TraceError> {
    match rest {
        Ok(lines) => Ok(prefix + lines),
        Err(e) => Err(e),
    }
}

/// The entry at `i` is a leaf: its exit is the very next record.
pub open spec fn adjacent_leaf(records: Seq<EventData>, i: int) -> bool {
    &&& is_enter(records[i].event)
    &&& records[i].pair_index == i + 1
    &&& i + 1 < records.len()
    &&& is_exit(records[i + 1].event)
}

/// The lines of the walk that starts at position `i`.  An entry whose exit
/// immediately follows is shown once, by its exit's line; any other entry
/// gets its own opened line, and so does every exit that the walk reaches.
pub open spec fn render_from(records: Seq<EventData>, i: nat) -> Result<
    Seq<DisplayLine>,
    TraceError,
>
    decreases records.len() - i,
{
    if i >= records.len() {
        Ok(Seq::empty())
    } else {
        let r = records[i as int];
        if r.event is CachedRule {
            Err(TraceError::UnsupportedEvent)
        } else if is_enter(r.event) && r.pair_index >= records.len() {
            Err(TraceError::TraversalBoundsViolation)
        } else if adjacent_leaf(records, i as int) {
            prepend(seq![line_of(records[(i + 1) as int])], render_from(records, i + 2))
        } else {
            prepend(seq![line_of(r)], render_from(records, i + 1))
        }
    }
}

/// The rendering of a whole table.
pub open spec fn rendered(records: Seq<EventData>) -> Result<Seq<DisplayLine>, TraceError> {
    render_from(records, 0)
}

/// Renders a reconstructed table, walking it from the first record with the
/// collapsing rule for leaf spans.  A cached event is refused, and so is an
/// entry whose link points past the end of the table.  `text` is the traced
/// source, carried for the presentation layer.
pub fn render(text: &str, records: &[EventData]) -> (r: Result<Vec<DisplayLine>, TraceError>)
    ensures
        match r {
            Ok(lines) => rendered(records@) == Ok::<Seq<DisplayLine>, TraceError>(lines@),
            Err(e) => rendered(records@) == Err::<Seq<DisplayLine>, TraceError>(e),
        },
{
    let n = records.len();
    let mut out: Vec<DisplayLine> = Vec::new();
    let mut idx: usize = 0;
    while idx < n
        invariant
            n == records@.len(),
            idx <= n,
            rendered(records@) == prepend(out@, render_from(records@, idx as nat)),
        decreases n - idx,
    {
        let rec = records[idx];
        let mut at: usize = idx;
        match rec.event {
            TraceEvent::MatchStart { .. } => {
                if rec.pair_index >= n {
                    return Err(TraceError::TraversalBoundsViolation);
                }
                if rec.pair_index == idx + 1 {
                    match records[idx + 1].event {
                        TraceEvent::MatchEnd { .. } => {
                            at = idx + 1;
                        },
                        _ => {},
                    }
                }
            },
            TraceEvent::MatchEnd { .. } => {},
            TraceEvent::CachedRule { .. } => {
                return Err(TraceError::UnsupportedEvent);
            },
        }
        let shown = records[at];
        let status = match shown.event.status() {
            Ok(s) => s,
            Err(e) => {
                return Err(e);
            },
        };
        let line = DisplayLine { indent_level: shown.depth, label: shown.event.rule_name(), status };
        proof {
            let rest = render_from(records@, (at + 1) as nat);
            assert(line == line_of(records@[at as int]));
            assert(render_from(records@, idx as nat) == prepend(seq![line], rest));
            match rest {
                Ok(s) => {
                    assert(out@.push(line) + s =~= out@ + (seq![line] + s));
                },
                Err(_) => {},
            }
        }
        out.push(line);
        idx = at + 1;
    }
    proof {
        assert(out@ + Seq::<DisplayLine>::empty() =~= out@);
    }
    Ok(out)
}

} // verus!
