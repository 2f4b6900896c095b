use vstd::prelude::*;

verus! {

/// A byte offset into the traced source text.
#[derive(Copy, Clone, PartialEq, Eq, Debug)]
pub struct FilePos(pub usize);

/// One event of a flat trace.
#[derive(Copy, Clone, PartialEq, Eq, Debug)]
pub enum TraceEvent {
    /// A span named `rule_name` was entered at `start_pos`.
    MatchStart { rule_name: &'static str, start_pos: FilePos },
    /// The innermost open span was left; `end_pos` is `None` when it failed to match.
    MatchEnd { rule_name: &'static str, start_pos: FilePos, end_pos: Option<FilePos> },
    /// A result served from a cache; neither reconstruction nor rendering accepts it.
    CachedRule { rule_name: &'static str, start_pos: FilePos, end_pos: Option<FilePos> },
}

/// How a rendered line presents its span.
#[derive(Copy, Clone, PartialEq, Eq, Debug)]
pub enum Status {
    Opened,
    Matched,
    Failed,
}

/// Why a trace could not be reconstructed or rendered.
#[derive(Copy, Clone, PartialEq, Eq, Debug)]
pub enum TraceError {
    /// An exit with no open span, or spans still open at the end of the trace.
    MalformedTrace,
    /// An entry record was linked to two exits.
    PairingConflict,
    /// The walk over a table needed a record past its end.
    TraversalBoundsViolation,
    /// An event kind that this engine does not handle.
    UnsupportedEvent,
}

/// One record of a reconstructed table.
#[derive(Copy, Clone, PartialEq, Eq, Debug)]
pub struct EventData {
    pub event: TraceEvent,
    /// The nesting level of the span that the event opens or closes.
    pub depth: usize,
    /// The index of the counterpart record: an entry's exit, or an exit's entry.
    pub pair_index: usize,
}

/// A raw trace as collected from the matcher.
#[derive(Debug)]
pub struct TraceResult {
    pub events: Vec<TraceEvent>,
}

/// One line of the rendered trace.
#[derive(Copy, Clone, PartialEq, Eq, Debug)]
pub struct DisplayLine {
    pub indent_level: usize,
    pub label: &'static str,
    pub status: Status,
}

pub open spec fn is_enter(e: TraceEvent) -> bool {
    e is MatchStart
}

pub open spec fn is_exit(e: TraceEvent) -> bool {
    e is MatchEnd
}

/// The name carried by an event.
pub open spec fn name_of(e: TraceEvent) -> &'static str {
    match e {
        TraceEvent::MatchStart { rule_name, .. } => rule_name,
        TraceEvent::MatchEnd { rule_name, .. } => rule_name,
        TraceEvent::CachedRule { rule_name, .. } => rule_name,
    }
}

/// The status of a span event: an entry is opened, an exit with an end offset
/// matched, an exit without one failed.  A cached event has none.
pub open spec fn status_of(e: TraceEvent) -> Option<Status> {
    match e {
        TraceEvent::MatchStart { .. } => Some(Status::Opened),
        TraceEvent::MatchEnd { end_pos: Some(_), .. } => Some(Status::Matched),
        TraceEvent::MatchEnd { end_pos: None, .. } => Some(Status::Failed),
        TraceEvent::CachedRule { .. } => None,
    }
}

impl TraceEvent {
    /// The name of the span that this event belongs to.
    pub fn rule_name(&self) -> (r: &'static str)
        ensures
            r == name_of(*self),
    {
        match self {
            TraceEvent::MatchStart { rule_name, .. } => *rule_name,
            TraceEvent::MatchEnd { rule_name, .. } => *rule_name,
            TraceEvent::CachedRule { rule_name, .. } => *rule_name,
        }
    }

    /// The display status of this event; a cached event is refused.
    pub fn status(&self) -> (r: Result<Status, TraceError>)
        ensures
            match status_of(*self) {
                Some(s) => r == Ok::<Status, TraceError>(s),
                None => r == Err::<Status, TraceError>(TraceError::UnsupportedEvent),
            },
    {
        match self {
            TraceEvent::MatchStart { .. } => Ok(Status::Opened),
            TraceEvent::MatchEnd { end_pos: Some(_), .. } => Ok(Status::Matched),
            TraceEvent::MatchEnd { end_pos: None, .. } => Ok(Status::Failed),
            TraceEvent::CachedRule { .. } => Err(TraceError::UnsupportedEvent),
        }
    }
}

} // verus!
