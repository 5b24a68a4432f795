//! Unit tests for the pipeline's pieces: the bus and its lag policy, the
//! batch buffer, the processor chain, collector orchestration, storage
//! queries, the configuration and the error taxonomy.

use vigil_events::batch::WorkerBatch;
use vigil_events::bus::Bus;
use vigil_events::bus::RecvOutcome;
use vigil_events::chain::chain_step;
use vigil_events::chain::run_chain;
use vigil_events::chain::BuiltinProcessor;
use vigil_events::chain::ChainStep;
use vigil_events::collector::start_all;
use vigil_events::collector::stop_all;
use vigil_events::collector::EventCollector;
use vigil_events::collector::ManualCollector;
use vigil_events::event::Event;
use vigil_events::event::EventConfig;
use vigil_events::event::EventError;
use vigil_events::event::EventQuery;
use vigil_events::event::ProcessFilter;
use vigil_events::event::ProcessInfo;
use vigil_events::storage::EventStorage;
use vigil_events::storage::MemStorage;

fn ev_full(id: &str, event_type: &str, timestamp: u64, pid: i32, comm: &str) -> Event {
    Event {
        id: id.to_string(),
        timestamp,
        event_type: event_type.to_string(),
        process: ProcessInfo {
            pid,
            ppid: 1,
            uid: 500,
            gid: 500,
            comm: comm.to_string(),
            exe: "/usr/bin/probe".to_string(),
        },
        data: "{}".to_string(),
    }
}

fn ev(id: &str, event_type: &str, timestamp: u64) -> Event {
    ev_full(id, event_type, timestamp, 42, "probe")
}

fn empty_query() -> EventQuery {
    EventQuery {
        start_time: None,
        end_time: None,
        event_types: None,
        process_filter: None,
        limit: None,
    }
}

#[test]
fn bus_delivers_in_publish_order() {
    let mut bus = Bus::new(8);
    let mut sub = bus.subscribe();
    bus.publish(ev("a", "exec", 1));
    bus.publish(ev("b", "exec", 2));
    match bus.recv(&mut sub) {
        RecvOutcome::Received(e) => assert_eq!(e.id, "a"),
        other => panic!("unexpected {:?}", other),
    }
    match bus.recv(&mut sub) {
        RecvOutcome::Received(e) => assert_eq!(e.id, "b"),
        other => panic!("unexpected {:?}", other),
    }
    assert!(matches!(bus.recv(&mut sub), RecvOutcome::Empty));
    bus.close();
    assert!(matches!(bus.recv(&mut sub), RecvOutcome::Closed));
}

#[test]
fn bus_subscription_starts_after_history() {
    let mut bus = Bus::new(8);
    bus.publish(ev("before", "exec", 1));
    let mut sub = bus.subscribe();
    assert!(matches!(bus.recv(&mut sub), RecvOutcome::Empty));
    bus.publish(ev("after", "exec", 2));
    match bus.recv(&mut sub) {
        RecvOutcome::Received(e) => assert_eq!(e.id, "after"),
        other => panic!("unexpected {:?}", other),
    }
}

#[test]
fn bus_lags_a_slow_subscriber_instead_of_blocking_the_publisher() {
    // Capacity 2, three publishes while idle: the oldest unread event is
    // dropped for this subscriber and the loss is reported once.
    let mut bus = Bus::new(2);
    let mut sub = bus.subscribe();
    bus.publish(ev("e1", "exec", 1));
    bus.publish(ev("e2", "exec", 2));
    bus.publish(ev("e3", "exec", 3));
    match bus.recv(&mut sub) {
        RecvOutcome::Lagged(missed) => assert_eq!(missed, 1),
        other => panic!("unexpected {:?}", other),
    }
    match bus.recv(&mut sub) {
        RecvOutcome::Received(e) => assert_eq!(e.id, "e2"),
        other => panic!("unexpected {:?}", other),
    }
    match bus.recv(&mut sub) {
        RecvOutcome::Received(e) => assert_eq!(e.id, "e3"),
        other => panic!("unexpected {:?}", other),
    }
    assert!(matches!(bus.recv(&mut sub), RecvOutcome::Empty));
}

#[test]
fn batch_hands_back_a_full_batch_and_drains_the_rest() {
    let mut b = WorkerBatch::new(3);
    assert!(b.accept(ev("1", "exec", 1)).is_none());
    assert!(b.accept(ev("2", "exec", 2)).is_none());
    let flushed = b.accept(ev("3", "exec", 3)).expect("third accept fills the batch");
    let ids: Vec<String> = flushed.iter().map(|e| e.id.clone()).collect();
    assert_eq!(ids, vec!["1".to_string(), "2".to_string(), "3".to_string()]);

    assert!(b.accept(ev("4", "exec", 4)).is_none());
    let rest = b.drain();
    assert_eq!(rest.len(), 1);
    assert_eq!(rest[0].id, "4");
    assert!(b.drain().is_empty());
}

#[test]
fn chain_drop_halts_everything_later() {
    let procs = vec![
        BuiltinProcessor::DropType("noise".to_string()),
        BuiltinProcessor::Retag("never".to_string()),
    ];
    let (result, failures) = run_chain(&procs, ev("n", "noise", 1));
    assert!(result.is_none());
    assert_eq!(failures, 0);
}

#[test]
fn chain_second_stage_sees_the_transformed_event() {
    // The first stage renames "orig" away; the filter on "orig" therefore
    // never matches, which shows it observed the transformed event.
    let procs = vec![
        BuiltinProcessor::Retag("fresh".to_string()),
        BuiltinProcessor::DropType("orig".to_string()),
    ];
    let (result, failures) = run_chain(&procs, ev("a", "orig", 1));
    let out = result.expect("the event must survive");
    assert_eq!(out.event_type, "fresh");
    assert_eq!(failures, 0);
}

#[test]
fn chain_failure_continues_with_the_prior_value() {
    let procs = vec![
        BuiltinProcessor::Fail("boom".to_string()),
        BuiltinProcessor::Retag("t2".to_string()),
    ];
    let (result, failures) = run_chain(&procs, ev("a", "t1", 1));
    assert_eq!(result.expect("survives").event_type, "t2");
    assert_eq!(failures, 1);
}

#[test]
fn chain_step_decides_per_outcome() {
    let e = ev("a", "exec", 1);
    let e2 = ev("a", "renamed", 1);
    match chain_step(e.clone(), Ok(Some(e2))) {
        ChainStep::Continue(next) => assert_eq!(next.event_type, "renamed"),
        ChainStep::Halted => panic!("a transformed event continues"),
    }
    assert!(matches!(chain_step(e.clone(), Ok(None)), ChainStep::Halted));
    match chain_step(e, Err(EventError::ProcessingError("x".to_string()))) {
        ChainStep::Continue(next) => assert_eq!(next.event_type, "exec"),
        ChainStep::Halted => panic!("a failure is a no-op, not a drop"),
    }
}

#[test]
fn start_all_is_fail_fast() {
    let mut cs = vec![
        ManualCollector::new("first".to_string(), false, false),
        ManualCollector::new("second".to_string(), true, false),
        ManualCollector::new("third".to_string(), false, false),
    ];
    let r = start_all(&mut cs);
    match r {
        Err(EventError::CollectionError(_)) => {},
        other => panic!("unexpected {:?}", other),
    }
    assert!(cs[0].running);
    assert!(!cs[1].running);
    assert!(!cs[2].running);
}

#[test]
fn stop_all_continues_past_failures() {
    let mut cs = vec![
        ManualCollector::new("first".to_string(), false, false),
        ManualCollector::new("second".to_string(), false, true),
        ManualCollector::new("third".to_string(), false, false),
    ];
    assert!(start_all(&mut cs).is_ok());
    let errors = stop_all(&mut cs);
    assert_eq!(errors.len(), 1);
    assert!(!cs[0].running);
    assert!(cs[1].running);
    assert!(!cs[2].running);
}

#[test]
fn collector_names_are_kept() {
    let c = ManualCollector::new("kprobe".to_string(), false, false);
    assert_eq!(c.name(), "kprobe");
}

#[test]
fn query_filters_by_time_range() {
    let mut s = MemStorage::new();
    s.store(&ev("a", "exec", 10)).unwrap();
    s.store(&ev("b", "exec", 20)).unwrap();
    s.store(&ev("c", "exec", 30)).unwrap();
    let mut q = empty_query();
    q.start_time = Some(15);
    q.end_time = Some(25);
    let out = s.query(&q).unwrap();
    assert_eq!(out.len(), 1);
    assert_eq!(out[0].id, "b");
}

#[test]
fn query_filters_by_event_types() {
    let mut s = MemStorage::new();
    s.store(&ev("a", "file_open", 1)).unwrap();
    s.store(&ev("b", "process_exec", 2)).unwrap();
    s.store(&ev("c", "network_connect", 3)).unwrap();
    let mut q = empty_query();
    q.event_types = Some(vec!["process_exec".to_string(), "network_connect".to_string()]);
    let ids: Vec<String> = s.query(&q).unwrap().iter().map(|e| e.id.clone()).collect();
    assert_eq!(ids, vec!["b".to_string(), "c".to_string()]);
}

#[test]
fn query_filters_by_process_and_caps_at_limit() {
    let mut s = MemStorage::new();
    s.store(&ev_full("a", "exec", 1, 7, "sshd")).unwrap();
    s.store(&ev_full("b", "exec", 2, 8, "cron")).unwrap();
    s.store(&ev_full("c", "exec", 3, 7, "sshd")).unwrap();
    s.store(&ev_full("d", "exec", 4, 7, "sshd")).unwrap();

    let mut q = empty_query();
    q.process_filter = Some(ProcessFilter { pid: Some(7), comm: Some("sshd".to_string()), uid: None });
    q.limit = Some(2);
    let ids: Vec<String> = s.query(&q).unwrap().iter().map(|e| e.id.clone()).collect();
    assert_eq!(ids, vec!["a".to_string(), "c".to_string()]);
}

#[test]
fn default_config_values() {
    let c = EventConfig::default();
    assert_eq!(c.buffer_size, 10000);
    assert_eq!(c.batch_size, 100);
    assert_eq!(c.processor_parallelism, 4);
}

#[test]
fn error_variants_carry_their_detail() {
    let errors = vec![
        EventError::CollectionError("c".to_string()),
        EventError::ProcessingError("p".to_string()),
        EventError::StorageError("s".to_string()),
    ];
    for e in errors {
        match e {
            EventError::CollectionError(d) => assert_eq!(d, "c"),
            EventError::ProcessingError(d) => assert_eq!(d, "p"),
            EventError::StorageError(d) => assert_eq!(d, "s"),
        }
    }
}

#[test]
fn events_are_copied_not_shared() {
    // A clone is an independent, equal value.
    let original = ev("a", "exec", 1);
    let copy = original.clone();
    assert_eq!(copy, original);
}
