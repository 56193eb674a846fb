use pimprobe::logs::{history_event, trace_rotates, HistoryEvent, LogStore, HISTORY_LIMIT, TRACE_BYTES};

fn event(id: &str, kind: &str, action: Option<&str>) -> HistoryEvent {
    HistoryEvent {
        id: Some(id.to_owned()),
        event: Some(kind.to_owned()),
        action: action.map(str::to_owned),
    }
}

#[test]
fn completed_run_and_work_zero_survive_reopening() {
    // The history file after a run that finished and was zeroed.
    let events = [
        event("run-1", "start", None),
        event("run-1", "finish", None),
        event("run-1", "action", Some("work_zero")),
    ];
    let mut store = LogStore::new();
    for (position, e) in events.iter().enumerate() {
        store.record(position, e);
    }
    let entries = store.history();
    assert_eq!(entries.len(), 1);
    assert_eq!(entries[0].id, "run-1");
    assert_eq!(entries[0].start, 0);
    assert_eq!(entries[0].finish, Some(1));
    assert_eq!(entries[0].actions, vec![2]);
    assert_eq!(entries[0].work_zero, Some(2));
}

#[test]
fn unfinished_run_appears_as_interrupted_after_restart() {
    let mut store = LogStore::new();
    store.record(0, &event("run-2", "start", None));
    let entries = store.history();
    assert_eq!(entries.len(), 1);
    assert_eq!(entries[0].finish, None);
}

#[test]
fn history_lists_newest_first_and_ignores_strangers() {
    let mut store = LogStore::new();
    store.record(0, &event("a", "start", None));
    store.record(1, &event("b", "start", None));
    store.record(2, &event("ghost", "finish", None));
    store.record(3, &HistoryEvent { id: None, event: Some("start".into()), action: None });
    store.record(4, &event("a", "trace", None));
    store.record(5, &event("a", "action", Some("move")));
    store.record(6, &event("a", "finish", None));
    store.record(7, &event("a", "finish", None));
    let entries = store.history();
    assert_eq!(entries.len(), 2);
    assert_eq!((entries[0].id.as_str(), entries[0].finish), ("b", None));
    assert_eq!(entries[1].id, "a");
    assert_eq!(entries[1].finish, Some(7));
    assert_eq!(entries[1].actions, vec![5]);
    assert_eq!(entries[1].work_zero, None);
}

#[test]
fn a_restarted_id_collects_later_events() {
    let mut store = LogStore::new();
    store.record(0, &event("r", "start", None));
    store.record(1, &event("r", "start", None));
    store.record(2, &event("r", "finish", None));
    let entries = store.history();
    assert_eq!((entries[0].start, entries[0].finish), (1, Some(2)));
    assert_eq!((entries[1].start, entries[1].finish), (0, None));
}

#[test]
fn history_keeps_the_newest_hundred_runs() {
    let mut store = LogStore::new();
    for i in 0..150 {
        store.record(i, &event(&format!("run-{i}"), "start", None));
    }
    let entries = store.history();
    assert_eq!(entries.len(), HISTORY_LIMIT);
    assert_eq!(entries[0].id, "run-149");
    assert_eq!(entries[99].id, "run-50");
}

#[test]
fn diagnostic_trace_rotates_when_the_line_would_not_fit() {
    assert!(!trace_rotates(0, 10));
    assert!(!trace_rotates(TRACE_BYTES - 11, 10));
    assert!(trace_rotates(TRACE_BYTES - 10, 10));
    assert!(trace_rotates(TRACE_BYTES, 0));
    assert!(trace_rotates(u64::MAX, u64::MAX));
}

#[test]
fn history_lines_are_read_for_their_event_fields() {
    let e = history_event(r#"{"schema":1,"event":"action","id":"r1","action":"work_zero","data":[1,2]}"#)
        .unwrap();
    assert_eq!(e.id.as_deref(), Some("r1"));
    assert_eq!(e.event.as_deref(), Some("action"));
    assert_eq!(e.action.as_deref(), Some("work_zero"));
    let e = history_event(r#"{"event":"start","id":7}"#).unwrap();
    assert_eq!(e.id, None);
    assert_eq!(e.event.as_deref(), Some("start"));
    assert_eq!(e.action, None);
    let e = history_event("[1,2]").unwrap();
    assert!(e.id.is_none() && e.event.is_none() && e.action.is_none());
    assert!(history_event("not json").is_none());
    assert!(history_event("").is_none());
    // The fields decide the fold as they do for events built by hand.
    let mut store = LogStore::new();
    for (i, line) in [
        r#"{"event":"start","id":"a"}"#,
        "garbage",
        r#"{"event":"finish","id":"a"}"#,
    ]
    .iter()
    .enumerate()
    {
        if let Some(e) = history_event(line) {
            store.record(i, &e);
        }
    }
    let runs = store.history();
    assert_eq!(runs.len(), 1);
    assert_eq!((runs[0].start, runs[0].finish), (0, Some(2)));
}
