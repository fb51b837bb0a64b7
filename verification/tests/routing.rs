//! Routing: the dispatch table, the broadcast feed, lagging subscribers
//! and plugins.

use std::cell::Cell;
use std::rc::Rc;

use agent_overlay::config::Config;
use agent_overlay::events::DownloadProgress;
use agent_overlay::router::{
    AppEvent, EventChannel, EventRouter, Plugin, PluginError, PluginManager, RecvOutcome,
};
use agent_overlay::store::EventStore;
use agent_overlay::watcher::{FileState, WatcherEvent};

fn new_router() -> EventRouter {
    let store = EventStore::in_memory().unwrap();
    EventRouter::new(store, Config::default())
}

#[test]
fn test_router_creation() {
    let router = new_router();

    // Should be able to subscribe
    let _rx = router.subscribe();
}

#[test]
fn test_end_to_end_lifecycle() {
    // Two lines appended to the log: the tailer sees two raw events, the
    // store ends with one completed row, and a subscriber receives the
    // two domain events in order.
    let mut st = FileState { last_position: 0, last_size: 0 };
    let content = "{\"type\":\"task_started\",\"task_id\":\"t1\",\"timestamp\":1000}\n\
                   {\"type\":\"task_complete\",\"task_id\":\"t1\",\"timestamp\":2500}\n";
    let size = content.len() as u64;
    let start = st.on_size(size).unwrap();
    assert_eq!(start, 0);
    let events = st.ingest(&content.as_bytes().to_vec(), size);
    assert_eq!(events.len(), 2);

    let mut router = new_router();
    let mut rx = router.subscribe();
    for e in events {
        router.process_watcher_event(WatcherEvent::TaskEvent(e));
    }

    let row = router.store.get_task("t1").unwrap().unwrap();
    assert_eq!(row.status, "completed");
    assert_eq!(row.duration_ms, Some(1500));

    match router.channel.recv(&mut rx) {
        RecvOutcome::Event(AppEvent::TaskStarted(e)) => {
            assert_eq!(e.task_id, "t1");
            assert_eq!(e.timestamp, 1000);
        }
        other => panic!("expected TaskStarted, got {}", outcome_name(&other)),
    }
    match router.channel.recv(&mut rx) {
        RecvOutcome::Event(AppEvent::TaskCompleted { task_id, timestamp }) => {
            assert_eq!(task_id, "t1");
            assert_eq!(timestamp, 2500);
        }
        other => panic!("expected TaskCompleted, got {}", outcome_name(&other)),
    }
    assert!(matches!(router.channel.recv(&mut rx), RecvOutcome::Empty));
}

fn outcome_name(r: &RecvOutcome) -> &'static str {
    match r {
        RecvOutcome::Event(_) => "Event",
        RecvOutcome::Lagged(_) => "Lagged",
        RecvOutcome::Closed => "Closed",
        RecvOutcome::Empty => "Empty",
    }
}

#[test]
fn test_store_failure_does_not_block_emission() {
    // A terminal event for a task that was never stored: the update is a
    // no-op, but the domain event still reaches subscribers.
    let mut router = new_router();
    let mut rx = router.subscribe();
    let e = agent_overlay::events::TaskEvent {
        event_type: "task_error".to_string(),
        task_id: "ghost".to_string(),
        tool: None,
        description: None,
        session_id: None,
        timestamp: 7,
        background: None,
        subagent_type: None,
        duration_ms: None,
    };
    router.process_watcher_event(WatcherEvent::TaskEvent(e));
    match router.channel.recv(&mut rx) {
        RecvOutcome::Event(AppEvent::TaskError { task_id, timestamp }) => {
            assert_eq!(task_id, "ghost");
            assert_eq!(timestamp, 7);
        }
        other => panic!("expected TaskError, got {}", outcome_name(&other)),
    }
}

#[test]
fn test_unknown_event_type_emits_nothing() {
    let mut router = new_router();
    let mut rx = router.subscribe();
    let e = agent_overlay::events::TaskEvent {
        event_type: "task_paused".to_string(),
        task_id: "t1".to_string(),
        tool: None,
        description: None,
        session_id: None,
        timestamp: 1,
        background: None,
        subagent_type: None,
        duration_ms: None,
    };
    router.process_watcher_event(WatcherEvent::TaskEvent(e));
    assert!(matches!(router.channel.recv(&mut rx), RecvOutcome::Empty));
}

#[test]
fn test_snapshots_are_forwarded() {
    let mut router = new_router();
    let mut rx = router.subscribe();
    router.process_watcher_event(WatcherEvent::TodosUpdated(Vec::new()));
    router.process_watcher_event(WatcherEvent::DownloadProgress(DownloadProgress {
        task_id: "dl".to_string(),
        percent_hundredths: 4250,
        speed: Some("2 MB/s".to_string()),
        eta: None,
        timestamp: 99,
    }));
    match router.channel.recv(&mut rx) {
        RecvOutcome::Event(AppEvent::TodosUpdated(ts)) => assert!(ts.is_empty()),
        other => panic!("expected TodosUpdated, got {}", outcome_name(&other)),
    }
    match router.channel.recv(&mut rx) {
        RecvOutcome::Event(AppEvent::DownloadProgress(p)) => {
            assert_eq!(p.task_id, "dl");
            assert_eq!(p.percent_hundredths, 4250);
        }
        other => panic!("expected DownloadProgress, got {}", outcome_name(&other)),
    }
}

#[test]
fn test_lagging_subscriber_sees_lag_count() {
    let mut chan = EventChannel::new(2);
    let mut rx = chan.subscribe();
    for i in 0..5u64 {
        chan.send(AppEvent::TaskCanceled { task_id: format!("t{}", i) });
    }
    // Three events were overwritten; the subscriber is told, then reads
    // the two retained ones in order.
    match chan.recv(&mut rx) {
        RecvOutcome::Lagged(n) => assert_eq!(n, 3),
        other => panic!("expected Lagged, got {}", outcome_name(&other)),
    }
    match chan.recv(&mut rx) {
        RecvOutcome::Event(AppEvent::TaskCanceled { task_id }) => assert_eq!(task_id, "t3"),
        other => panic!("expected Event, got {}", outcome_name(&other)),
    }
    match chan.recv(&mut rx) {
        RecvOutcome::Event(AppEvent::TaskCanceled { task_id }) => assert_eq!(task_id, "t4"),
        other => panic!("expected Event, got {}", outcome_name(&other)),
    }
    assert!(matches!(chan.recv(&mut rx), RecvOutcome::Empty));
}

#[test]
fn test_slow_subscriber_never_blocks_the_producer() {
    let mut chan = EventChannel::new(2);
    let mut rx = chan.subscribe();
    // A thousand sends while the subscriber reads nothing: every send
    // returns, and the subscriber then learns exactly how much it lost.
    for i in 0..1000u64 {
        chan.send(AppEvent::TaskCanceled { task_id: format!("t{}", i) });
    }
    match chan.recv(&mut rx) {
        RecvOutcome::Lagged(n) => assert_eq!(n, 998),
        other => panic!("expected Lagged, got {}", outcome_name(&other)),
    }
}

struct RecordingPlugin {
    fail_on_event: bool,
    seen: Rc<Cell<usize>>,
    shut_down: Rc<Cell<bool>>,
}

impl Plugin for RecordingPlugin {
    fn name(&self) -> &str {
        "recorder"
    }

    fn version(&self) -> &str {
        "1.0"
    }

    fn on_init(&mut self) -> Result<(), PluginError> {
        Ok(())
    }

    fn on_event(&self, _event: &AppEvent) -> Result<(), PluginError> {
        self.seen.set(self.seen.get() + 1);
        if self.fail_on_event {
            Err(PluginError::EventError("refused".to_string()))
        } else {
            Ok(())
        }
    }

    fn on_shutdown(&self) -> Result<(), PluginError> {
        self.shut_down.set(true);
        Ok(())
    }
}

#[test]
fn test_plugin_failure_is_isolated() {
    let mut router = new_router();
    let mut manager: PluginManager<RecordingPlugin> = PluginManager::new(&router);

    let seen_a = Rc::new(Cell::new(0));
    let down_a = Rc::new(Cell::new(false));
    let seen_b = Rc::new(Cell::new(0));
    let down_b = Rc::new(Cell::new(false));
    manager.register(RecordingPlugin {
        fail_on_event: true,
        seen: seen_a.clone(),
        shut_down: down_a.clone(),
    });
    manager.register(RecordingPlugin {
        fail_on_event: false,
        seen: seen_b.clone(),
        shut_down: down_b.clone(),
    });
    manager.init_all().unwrap();

    router.process_watcher_event(WatcherEvent::TodosUpdated(Vec::new()));
    router.process_watcher_event(WatcherEvent::TodosUpdated(Vec::new()));

    // The failing plugin never stops delivery to the other one.
    let closed = manager.run(&router.channel);
    assert!(!closed);
    assert_eq!(seen_a.get(), 2);
    assert_eq!(seen_b.get(), 2);
    assert!(!down_a.get());

    // A closed feed ends the run and shuts every plugin down.
    router.channel.close();
    let closed = manager.run(&router.channel);
    assert!(closed);
    assert!(down_a.get());
    assert!(down_b.get());
}
