//! The whole pipeline: reconstruct a trace, then render its table.
use vstd::prelude::*;
use crate::event::{DisplayLine, TraceError, TraceEvent};
use crate::laws::lemma_line_count;
use crate::nesting::{table_of, trace_fault, well_nested};
use crate::reconstruct::reconstruct;
use crate::render::{render, rendered};

verus! {

/// Reconstructs a trace and renders its table.  Succeeds exactly on
/// well-nested traces, with the rendering of their table; otherwise fails
/// with the trace's first fault.
pub fn investigate(text: &str, trace: &[TraceEvent]) -> (r: Result<Vec<DisplayLine>, TraceError>)
    ensures
        match r {
            Ok(lines) => well_nested(trace@) && rendered(table_of(trace@)) == Ok::<
                Seq<DisplayLine>,
                TraceError,
            >(lines@),
            Err(e) => trace_fault(trace@) == Some(e),
        },
{
    let records = match reconstruct(trace) {
        Ok(records) => records,
        Err(e) => {
            return Err(e);
        },
    };
    let count = records.len();
    proof {
        assert(trace@.len() == count);
        lemma_line_count(trace@);
    }
    render(text, records.as_slice())
}

} // verus!
