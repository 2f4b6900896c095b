use forensics::{
    investigate, reconstruct, render, DisplayLine, EventData, FilePos, Status, TraceError,
    TraceEvent, TraceResult,
};

fn enter(name: &'static str, at: usize) -> TraceEvent {
    TraceEvent::MatchStart { rule_name: name, start_pos: FilePos(at) }
}

fn exit(name: &'static str, at: usize, end: Option<usize>) -> TraceEvent {
    TraceEvent::MatchEnd { rule_name: name, start_pos: FilePos(at), end_pos: end.map(FilePos) }
}

fn line(indent_level: usize, label: &'static str, status: Status) -> DisplayLine {
    DisplayLine { indent_level, label, status }
}

#[test]
fn leaf_child_collapses_under_its_parent() {
    let trace = vec![enter("A", 0), enter("B", 0), exit("B", 0, Some(1)), exit("A", 1, Some(5))];
    let records = reconstruct(&trace).unwrap();
    let depths: Vec<usize> = records.iter().map(|r| r.depth).collect();
    let pairs: Vec<usize> = records.iter().map(|r| r.pair_index).collect();
    assert_eq!(depths, vec![0, 1, 1, 0]);
    assert_eq!(pairs, vec![3, 2, 1, 0]);
    let lines = render("ab\ncde", &records).unwrap();
    assert_eq!(
        lines,
        vec![line(0, "A", Status::Opened), line(1, "B", Status::Matched), line(0, "A", Status::Matched)]
    );
}

#[test]
fn adjacent_failing_leaf_gives_one_line() {
    let trace = vec![enter("A", 0), exit("A", 0, None)];
    assert_eq!(investigate("", &trace).unwrap(), vec![line(0, "A", Status::Failed)]);
}

#[test]
fn failing_leaf_at_end_of_input() {
    let trace = vec![enter("A", 0), exit("A", 5, None)];
    let records = reconstruct(&trace).unwrap();
    assert_eq!(records[1].depth, 0);
    assert_eq!(render("hello", &records).unwrap(), vec![line(0, "A", Status::Failed)]);
}

#[test]
fn lone_exit_is_malformed() {
    let trace = vec![exit("A", 0, Some(0))];
    assert_eq!(reconstruct(&trace).unwrap_err(), TraceError::MalformedTrace);
    assert_eq!(investigate("", &trace).unwrap_err(), TraceError::MalformedTrace);
}

#[test]
fn dangling_entry_is_malformed() {
    let trace = vec![enter("A", 0), enter("B", 0), exit("B", 0, Some(1))];
    assert_eq!(reconstruct(&trace).unwrap_err(), TraceError::MalformedTrace);
}

#[test]
fn underflow_after_balanced_prefix_is_malformed() {
    let trace = vec![enter("A", 0), exit("A", 0, Some(1)), exit("B", 1, Some(2))];
    assert_eq!(reconstruct(&trace).unwrap_err(), TraceError::MalformedTrace);
}

#[test]
fn cached_event_is_refused() {
    let cached = TraceEvent::CachedRule { rule_name: "C", start_pos: FilePos(0), end_pos: None };
    let trace = vec![enter("A", 0), cached, exit("A", 0, None)];
    assert_eq!(reconstruct(&trace).unwrap_err(), TraceError::UnsupportedEvent);
    assert_eq!(cached.status(), Err(TraceError::UnsupportedEvent));
}

#[test]
fn first_fault_decides_the_error() {
    let cached = TraceEvent::CachedRule { rule_name: "C", start_pos: FilePos(0), end_pos: None };
    let late = vec![exit("A", 0, None), cached];
    assert_eq!(reconstruct(&late).unwrap_err(), TraceError::MalformedTrace);
    let early = vec![cached, exit("A", 0, None)];
    assert_eq!(reconstruct(&early).unwrap_err(), TraceError::UnsupportedEvent);
}

#[test]
fn link_past_the_table_is_a_bounds_violation() {
    let records = vec![EventData { event: enter("A", 0), depth: 0, pair_index: 4 }];
    assert_eq!(render("", &records).unwrap_err(), TraceError::TraversalBoundsViolation);
}

#[test]
fn cached_record_is_refused_by_render() {
    let cached = TraceEvent::CachedRule { rule_name: "C", start_pos: FilePos(0), end_pos: None };
    let records = vec![EventData { event: cached, depth: 0, pair_index: 0 }];
    assert_eq!(render("", &records).unwrap_err(), TraceError::UnsupportedEvent);
}

#[test]
fn empty_trace_renders_nothing() {
    let trace: Vec<TraceEvent> = Vec::new();
    assert!(reconstruct(&trace).unwrap().is_empty());
    assert!(investigate("", &trace).unwrap().is_empty());
}

#[test]
fn statuses_follow_the_event_kind() {
    assert_eq!(enter("A", 0).status(), Ok(Status::Opened));
    assert_eq!(exit("A", 0, Some(3)).status(), Ok(Status::Matched));
    assert_eq!(exit("A", 0, None).status(), Ok(Status::Failed));
    assert_eq!(exit("Rule", 0, None).rule_name(), "Rule");
}

#[test]
fn parent_with_failing_children_keeps_opened_line() {
    // A { B {} C { D {} } } with B and D failing leaves.
    let trace = vec![
        enter("A", 0),
        enter("B", 0),
        exit("B", 0, None),
        enter("C", 0),
        enter("D", 0),
        exit("D", 0, None),
        exit("C", 0, Some(2)),
        exit("A", 0, None),
    ];
    let records = reconstruct(&trace).unwrap();
    let depths: Vec<usize> = records.iter().map(|r| r.depth).collect();
    assert_eq!(depths, vec![0, 1, 1, 1, 2, 2, 1, 0]);
    let lines = investigate("", &trace).unwrap();
    assert_eq!(
        lines,
        vec![
            line(0, "A", Status::Opened),
            line(1, "B", Status::Failed),
            line(1, "C", Status::Opened),
            line(2, "D", Status::Failed),
            line(1, "C", Status::Matched),
            line(0, "A", Status::Failed),
        ]
    );
}

#[test]
fn pairing_is_symmetric() {
    let trace = vec![
        enter("A", 0),
        enter("B", 0),
        exit("B", 0, Some(1)),
        enter("C", 1),
        exit("C", 1, None),
        exit("A", 0, Some(1)),
        enter("E", 1),
        exit("E", 1, Some(2)),
    ];
    let records = reconstruct(&trace).unwrap();
    assert_eq!(records.len(), trace.len());
    for (i, r) in records.iter().enumerate() {
        assert_eq!(r.event, trace[i]);
        assert_eq!(records[r.pair_index].pair_index, i);
        assert_eq!(records[r.pair_index].depth, r.depth);
    }
    assert_eq!(records[0].pair_index, 5);
    assert_eq!(records[6].pair_index, 7);
}

#[test]
fn line_count_matches_non_adjacent_entries_plus_exits() {
    let trace = vec![
        enter("A", 0),
        enter("B", 0),
        exit("B", 0, Some(1)),
        enter("C", 1),
        enter("D", 1),
        exit("D", 1, None),
        exit("C", 1, Some(2)),
        exit("A", 0, Some(2)),
    ];
    let lines = investigate("", &trace).unwrap();
    // Entries A and C are not adjacent to their exits; four exits; B and D collapse.
    assert_eq!(lines.len(), 2 + 4);
    assert_eq!(lines.len(), trace.len() - 2);
}

#[test]
fn trace_result_holds_its_events() {
    let result = TraceResult { events: vec![enter("A", 0), exit("A", 0, None)] };
    assert_eq!(investigate("", &result.events).unwrap(), vec![line(0, "A", Status::Failed)]);
}
