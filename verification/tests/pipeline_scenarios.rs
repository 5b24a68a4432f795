//! End-to-end scenarios driving the pipeline: publishing, worker steps,
//! batching, flushing, shutdown draining, filtering, lag, and live
//! subscriptions.

use std::time::SystemTime;
use std::time::UNIX_EPOCH;

use vigil_events::bus::RecvOutcome;
use vigil_events::chain::BuiltinProcessor;
use vigil_events::collector::ManualCollector;
use vigil_events::event::Event;
use vigil_events::event::EventConfig;
use vigil_events::event::EventQuery;
use vigil_events::event::ProcessInfo;
use vigil_events::pipeline::EventPipeline;
use vigil_events::pipeline::Notice;
use vigil_events::storage::MemStorage;
use vigil_events::storage::RejectingStorage;

fn proc_info() -> ProcessInfo {
    ProcessInfo {
        pid: 100,
        ppid: 1,
        uid: 0,
        gid: 0,
        comm: "agentd".to_string(),
        exe: "/usr/bin/agentd".to_string(),
    }
}

fn ev(id: &str, event_type: &str, timestamp: u64) -> Event {
    Event {
        id: id.to_string(),
        timestamp,
        event_type: event_type.to_string(),
        process: proc_info(),
        data: "{}".to_string(),
    }
}

fn all_events() -> EventQuery {
    EventQuery {
        start_time: None,
        end_time: None,
        event_types: None,
        process_filter: None,
        limit: None,
    }
}

fn config(buffer_size: usize, batch_size: usize, parallelism: usize) -> EventConfig {
    EventConfig { buffer_size, batch_size, processor_parallelism: parallelism }
}

fn one_collector() -> Vec<ManualCollector> {
    vec![ManualCollector::new("probe".to_string(), false, false)]
}

#[test]
fn test_event_pipeline() {
    let event = Event {
        id: "test-1".into(),
        timestamp: SystemTime::now().duration_since(UNIX_EPOCH).unwrap().as_nanos() as u64,
        event_type: "test".into(),
        process: ProcessInfo {
            pid: 1234,
            ppid: 1,
            uid: 1000,
            gid: 1000,
            comm: "test".into(),
            exe: "/bin/test".into(),
        },
        data: "{\"test\":true}".into(),
    };

    assert!(event.timestamp > 0);
}

#[test]
fn batch_of_two_flushes_and_shutdown_drains_remainder() {
    // buffer 10, batch 2, one worker, no-op chain, in-memory storage:
    // A and B are flushed once B is consumed; C only at shutdown drain.
    let mut p = EventPipeline::new(
        config(10, 2, 1),
        one_collector(),
        vec![BuiltinProcessor::Noop],
        MemStorage::new(),
    );
    p.start().unwrap();

    p.publish(ev("A", "exec", 1));
    p.publish(ev("B", "exec", 2));
    assert!(p.step_worker(0));
    assert!(p.step_worker(0));
    let stored: Vec<String> = p.query(&all_events()).unwrap().iter().map(|e| e.id.clone()).collect();
    assert_eq!(stored, vec!["A".to_string(), "B".to_string()]);

    p.publish(ev("C", "exec", 3));
    assert!(p.step_worker(0));
    let stored: Vec<String> = p.query(&all_events()).unwrap().iter().map(|e| e.id.clone()).collect();
    assert_eq!(stored, vec!["A".to_string(), "B".to_string()]);

    p.stop().unwrap();
    let stored: Vec<String> = p.query(&all_events()).unwrap().iter().map(|e| e.id.clone()).collect();
    assert_eq!(stored, vec!["A".to_string(), "B".to_string(), "C".to_string()]);
}

#[test]
fn noise_events_are_dropped_before_storage() {
    // A processor drops every "noise" event; only the "exec" event survives.
    let mut p = EventPipeline::new(
        config(10, 1, 1),
        one_collector(),
        vec![BuiltinProcessor::DropType("noise".to_string())],
        MemStorage::new(),
    );
    p.start().unwrap();
    p.publish(ev("n1", "noise", 1));
    p.publish(ev("x1", "exec", 2));
    p.stop().unwrap();

    let stored = p.query(&all_events()).unwrap();
    assert_eq!(stored.len(), 1);
    assert_eq!(stored[0].id, "x1");
    assert_eq!(stored[0].event_type, "exec");
}

#[test]
fn each_worker_traverses_the_chain_independently() {
    // Three workers, each with its own subscription: one published event is
    // processed once per worker, so storage receives three copies.
    let mut p = EventPipeline::new(
        config(10, 1, 3),
        one_collector(),
        vec![BuiltinProcessor::Noop],
        MemStorage::new(),
    );
    p.start().unwrap();
    p.publish(ev("A", "exec", 1));
    assert!(p.step_worker(0));
    assert!(p.step_worker(1));
    assert!(p.step_worker(2));
    p.stop().unwrap();

    let stored = p.query(&all_events()).unwrap();
    assert_eq!(stored.len(), 3);
    assert!(stored.iter().all(|e| e.id == "A"));
    assert!(p.notices().is_empty());
}

#[test]
fn subscriber_sees_no_history() {
    // Events republished before the subscribe call are never delivered.
    let mut p = EventPipeline::new(
        config(10, 1, 1),
        one_collector(),
        vec![BuiltinProcessor::Noop],
        MemStorage::new(),
    );
    p.start().unwrap();
    p.publish(ev("old", "exec", 1));
    assert!(p.step_worker(0));

    let mut sub = p.subscribe();
    assert!(matches!(p.poll(&mut sub), RecvOutcome::Empty));

    p.publish(ev("fresh", "exec", 2));
    assert!(p.step_worker(0));
    match p.poll(&mut sub) {
        RecvOutcome::Received(e) => assert_eq!(e.id, "fresh"),
        other => panic!("expected the fresh event, got {:?}", other),
    }
}

#[test]
fn lagging_worker_records_loss_and_reads_recent_window() {
    // Capacity 2: three publishes before the worker runs cost it the oldest.
    let mut p = EventPipeline::new(
        config(2, 1, 1),
        one_collector(),
        vec![BuiltinProcessor::Noop],
        MemStorage::new(),
    );
    p.start().unwrap();
    p.publish(ev("e1", "exec", 1));
    p.publish(ev("e2", "exec", 2));
    p.publish(ev("e3", "exec", 3));
    p.stop().unwrap();

    let stored: Vec<String> = p.query(&all_events()).unwrap().iter().map(|e| e.id.clone()).collect();
    assert_eq!(stored, vec!["e2".to_string(), "e3".to_string()]);
    assert!(p.notices().iter().any(|n| matches!(n, Notice::WorkerLagged(1))));
}

#[test]
fn failing_processor_is_a_no_op_and_is_recorded() {
    // The failing stage is skipped; the retag stage still runs.
    let mut p = EventPipeline::new(
        config(10, 1, 1),
        one_collector(),
        vec![
            BuiltinProcessor::Fail("boom".to_string()),
            BuiltinProcessor::Retag("tagged".to_string()),
        ],
        MemStorage::new(),
    );
    p.start().unwrap();
    p.publish(ev("A", "exec", 1));
    p.stop().unwrap();

    let stored = p.query(&all_events()).unwrap();
    assert_eq!(stored.len(), 1);
    assert_eq!(stored[0].event_type, "tagged");
    assert!(p.notices().iter().any(|n| matches!(n, Notice::ProcessorFailures(1))));
}

#[test]
fn retagged_events_reach_subscribers_with_the_new_tag() {
    // A worker republishes its chain result, not the raw event.
    let mut p = EventPipeline::new(
        config(10, 1, 1),
        one_collector(),
        vec![BuiltinProcessor::Retag("indexed".to_string())],
        MemStorage::new(),
    );
    p.start().unwrap();
    let mut sub = p.subscribe();
    p.publish(ev("A", "exec", 1));
    assert!(p.step_worker(0));
    match p.poll(&mut sub) {
        RecvOutcome::Received(e) => {
            assert_eq!(e.id, "A");
            assert_eq!(e.event_type, "indexed");
        },
        other => panic!("expected the retagged event, got {:?}", other),
    }
    p.stop().unwrap();
}

#[test]
fn start_failure_is_fail_fast_and_leaves_earlier_collectors_running() {
    let collectors = vec![
        ManualCollector::new("first".to_string(), false, false),
        ManualCollector::new("second".to_string(), true, false),
        ManualCollector::new("third".to_string(), false, false),
    ];
    let mut p = EventPipeline::new(
        config(10, 1, 1),
        collectors,
        vec![BuiltinProcessor::Noop],
        MemStorage::new(),
    );
    assert!(p.start().is_err());
}

#[test]
fn rejected_stores_are_recorded_not_fatal() {
    // A sink that rejects every write: the pipeline keeps running, the batch
    // is still handed over, and the failures are recorded in the sink.
    let mut p = EventPipeline::new(
        config(10, 2, 1),
        one_collector(),
        vec![BuiltinProcessor::Noop],
        RejectingStorage::new(),
    );
    p.start().unwrap();
    p.publish(ev("A", "exec", 1));
    p.publish(ev("B", "exec", 2));
    p.publish(ev("C", "exec", 3));
    p.stop().unwrap();

    assert!(p.query(&all_events()).unwrap().is_empty());
    // One full batch of two failed in flight, the drained remainder of one at
    // shutdown: two store-failure records, for three failed writes in all.
    let failed: usize = p
        .notices()
        .iter()
        .map(|n| match n {
            Notice::StoreFailures(f) => *f,
            _ => 0,
        })
        .sum();
    assert_eq!(failed, 3);
}
