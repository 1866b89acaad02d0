use launcher_core::legendary::{ChildEvent, CollectStep, OutputCollector, StopAction, StreamDrain, StreamTable};
use launcher_core::types::EventType;

#[test]
fn echo_stream_publishes_output_then_termination() {
    let mut table: StreamTable<u32> = StreamTable::new();
    table.insert("s1".to_string(), 1);
    let mut drain = StreamDrain::new("s1".to_string());
    let first = drain.on_event(&mut table, ChildEvent::Stdout(b"hi".to_vec())).unwrap();
    assert_eq!(first.stream_id, "s1");
    assert_eq!(first.event_type, EventType::Stdout);
    assert_eq!(first.data, "hi");
    assert!(!table.is_empty());
    let last = drain
        .on_event(&mut table, ChildEvent::Terminated { code: Some(0), signal: None })
        .unwrap();
    assert_eq!(last.event_type, EventType::Terminated);
    assert_eq!(last.code, Some(0));
    assert_eq!(last.signal, None);
    assert_eq!(last.data, "");
    assert!(table.is_empty());
    assert!(matches!(table.stop_legendary_stream("s1", false), StopAction::NotRunning));
}

#[test]
fn nothing_is_published_after_a_terminal_event() {
    let mut table: StreamTable<u32> = StreamTable::new();
    let mut drain = StreamDrain::new("x".to_string());
    let err = drain.on_event(&mut table, ChildEvent::Error("broken pipe".to_string())).unwrap();
    assert_eq!(err.event_type, EventType::Error);
    assert_eq!(err.data, "broken pipe");
    assert!(drain.on_event(&mut table, ChildEvent::Stdout(b"late".to_vec())).is_none());
    assert!(drain
        .on_event(&mut table, ChildEvent::Terminated { code: Some(1), signal: None })
        .is_none());
}

#[test]
fn stderr_chunks_and_other_events() {
    let mut table: StreamTable<u32> = StreamTable::new();
    let mut drain = StreamDrain::new("e".to_string());
    let ev = drain.on_event(&mut table, ChildEvent::Stderr(vec![b'o', 0xff, b'k'])).unwrap();
    assert_eq!(ev.event_type, EventType::Stderr);
    assert_eq!(ev.data, "o\u{fffd}k");
    assert!(drain.on_event(&mut table, ChildEvent::Other).is_none());
}

#[test]
fn cancel_of_unknown_stream_returns_not_running() {
    let mut table: StreamTable<u32> = StreamTable::new();
    table.insert("a".to_string(), 5);
    assert!(matches!(table.stop_legendary_stream("b", false), StopAction::NotRunning));
    assert!(!table.is_empty());
    assert!(matches!(table.stop_legendary_stream("a", false), StopAction::Kill(5)));
    assert!(table.is_empty());
}

#[test]
fn reused_stream_id_replaces_the_handle() {
    let mut table: StreamTable<u32> = StreamTable::new();
    table.insert("a".to_string(), 1);
    table.insert("a".to_string(), 2);
    assert_eq!(table.remove("a"), Some(2));
    assert_eq!(table.remove("a"), None);
}

#[test]
fn kill_all_sweeps_and_empties_the_table() {
    let mut table: StreamTable<u32> = StreamTable::new();
    table.insert("one".to_string(), 1);
    table.insert("two".to_string(), 2);
    let mut d1 = StreamDrain::new("one".to_string());
    let mut d2 = StreamDrain::new("two".to_string());
    assert!(matches!(
        table.stop_legendary_stream("", true),
        StopAction::KillAll { sweep: true }
    ));
    assert!(table.is_empty());
    let t1 = d1.on_event(&mut table, ChildEvent::Terminated { code: None, signal: Some(9) });
    let t2 = d2.on_event(&mut table, ChildEvent::Terminated { code: None, signal: Some(9) });
    assert_eq!(t1.unwrap().event_type, EventType::Terminated);
    assert_eq!(t2.unwrap().signal, Some(9));
    assert!(table.is_empty());
}

#[test]
fn kill_all_on_empty_table_needs_no_sweep() {
    let mut table: StreamTable<u32> = StreamTable::new();
    assert!(!table.kill_legendary_processes());
    table.insert("z".to_string(), 3);
    assert!(table.kill_legendary_processes());
    assert!(table.is_empty());
}

#[test]
fn collector_returns_trimmed_output_on_termination() {
    let mut c = OutputCollector::new();
    assert!(matches!(c.on_event(ChildEvent::Stdout(b"  hello\n".to_vec())), CollectStep::Pending));
    assert!(matches!(c.on_event(ChildEvent::Stdout(b"world  \n".to_vec())), CollectStep::Pending));
    assert!(matches!(c.on_event(ChildEvent::Stderr(b"\twarn\n".to_vec())), CollectStep::Pending));
    match c.on_event(ChildEvent::Terminated { code: Some(3), signal: None }) {
        CollectStep::Finished(out) => {
            assert_eq!(out.code, Some(3));
            assert_eq!(out.signal, None);
            assert_eq!(out.stdout, "hello\nworld");
            assert_eq!(out.stderr, "warn");
        }
        _ => panic!("expected the finished output"),
    }
}

#[test]
fn collector_discards_output_on_transport_error() {
    let mut c = OutputCollector::new();
    let _ = c.on_event(ChildEvent::Stdout(b"partial".to_vec()));
    match c.on_event(ChildEvent::Error("pipe closed".to_string())) {
        CollectStep::Failed(msg) => assert_eq!(msg, "pipe closed"),
        _ => panic!("expected a failure"),
    }
}

#[test]
fn collector_finish_without_termination() {
    let mut c = OutputCollector::new();
    let _ = c.on_event(ChildEvent::Stdout(b" done \n".to_vec()));
    let out = c.finish();
    assert_eq!(out.code, None);
    assert_eq!(out.signal, None);
    assert_eq!(out.stdout, "done");
    assert_eq!(out.stderr, "");
}
