//! The history store: lifecycle round trips, search, statistics,
//! sessions and retention.

use agent_overlay::store::{EventStore, StoredSession, StoredTask, StoreError};

fn task(id: &str, session: &str, tool: &str, desc: Option<&str>, status: &str, started: i64) -> StoredTask {
    StoredTask {
        id: id.to_string(),
        session_id: session.to_string(),
        tool: tool.to_string(),
        description: desc.map(|d| d.to_string()),
        status: status.to_string(),
        started_at: started,
        ended_at: None,
        duration_ms: None,
        is_background: false,
        subagent_type: None,
    }
}

#[test]
fn test_store_creation() {
    let store = EventStore::in_memory().unwrap();
    assert!(store.get_active_task_count().unwrap() == 0);
}

#[test]
fn test_task_lifecycle() {
    let mut store = EventStore::in_memory().unwrap();

    let t = task("task-1", "session-1", "Bash", Some("npm install"), "active", 1000);
    store.insert_task(&t).unwrap();
    assert_eq!(store.get_active_task_count().unwrap(), 1);

    store.update_task_status("task-1", "completed", 2000).unwrap();
    assert_eq!(store.get_active_task_count().unwrap(), 0);

    let retrieved = store.get_task("task-1").unwrap().unwrap();
    assert_eq!(retrieved.status, "completed");
    assert_eq!(retrieved.ended_at, Some(2000));
    assert_eq!(retrieved.duration_ms, Some(1000));
}

#[test]
fn test_search_tasks() {
    let mut store = EventStore::in_memory().unwrap();

    let mut t1 = task("task-1", "session-1", "Bash", Some("npm install lodash"), "completed", 1000);
    t1.ended_at = Some(2000);
    t1.duration_ms = Some(1000);
    store.insert_task(&t1).unwrap();

    let mut t2 = task("task-2", "session-1", "Bash", Some("cargo build"), "completed", 2000);
    t2.ended_at = Some(3000);
    t2.duration_ms = Some(1000);
    store.insert_task(&t2).unwrap();

    let results = store.search_tasks("npm", 10).unwrap();
    assert_eq!(results.len(), 1);
    assert_eq!(results[0].id, "task-1");

    let results = store.search_tasks("cargo", 10).unwrap();
    assert_eq!(results.len(), 1);
    assert_eq!(results[0].id, "task-2");
}

#[test]
fn test_search_is_case_insensitive_and_recent_first() {
    let mut store = EventStore::in_memory().unwrap();
    store.insert_task(&task("a", "s", "Bash", Some("NPM install one"), "active", 1000)).unwrap();
    store.insert_task(&task("b", "s", "Bash", Some("npm install two"), "active", 2000)).unwrap();
    store.insert_task(&task("c", "s", "Bash", Some("cargo build"), "active", 3000)).unwrap();
    store.insert_task(&task("d", "s", "npm", None, "active", 4000)).unwrap();

    // Only matching rows come back, the tool column counts too, the
    // match ignores ASCII case, and the newest row comes first.
    let results = store.search_tasks("npm", 10).unwrap();
    let ids: Vec<&str> = results.iter().map(|t| t.id.as_str()).collect();
    assert_eq!(ids, vec!["d", "b", "a"]);

    let results = store.search_tasks("NpM", 2).unwrap();
    let ids: Vec<&str> = results.iter().map(|t| t.id.as_str()).collect();
    assert_eq!(ids, vec!["d", "b"]);
}

#[test]
fn test_search_rejects_empty_query() {
    let store = EventStore::in_memory().unwrap();
    assert!(matches!(store.search_tasks("", 10), Err(StoreError::QueryError(_))));
    assert!(matches!(store.search_tasks("  --  ", 10), Err(StoreError::QueryError(_))));
}

#[test]
fn test_task_stats() {
    let mut store = EventStore::in_memory().unwrap();
    store.insert_task(&task("t1", "s", "Bash", Some("one"), "active", 1000)).unwrap();
    store.insert_task(&task("t2", "s", "Bash", Some("two"), "active", 2000)).unwrap();
    store.insert_task(&task("t3", "s", "Bash", Some("three"), "active", 3000)).unwrap();
    store.insert_task(&task("t4", "s", "Bash", Some("four"), "active", 4000)).unwrap();
    store.update_task_status("t1", "completed", 2500).unwrap();
    store.update_task_status("t2", "completed", 2600).unwrap();
    store.update_task_status("t3", "error", 3100).unwrap();

    let stats = store.get_task_stats().unwrap();
    assert_eq!(stats.total_tasks, 4);
    assert_eq!(stats.completed_tasks, 2);
    assert_eq!(stats.error_tasks, 1);
    assert_eq!(stats.duration_count, 3);
    assert_eq!(stats.duration_sum_ms, 1500 + 600 + 100);
    let avg = stats.duration_sum_ms as f64 / stats.duration_count as f64;
    assert!((avg - 2200.0 / 3.0).abs() < 1e-9);
}

#[test]
fn test_task_stats_without_durations() {
    let mut store = EventStore::in_memory().unwrap();
    store.insert_task(&task("t1", "s", "Bash", None, "active", 1000)).unwrap();
    let stats = store.get_task_stats().unwrap();
    assert_eq!(stats.total_tasks, 1);
    assert_eq!(stats.duration_count, 0);
    assert_eq!(stats.duration_sum_ms, 0);
}

#[test]
fn test_insert_duplicate_id_is_refused() {
    let mut store = EventStore::in_memory().unwrap();
    store.insert_task(&task("t1", "s", "Bash", None, "active", 1000)).unwrap();
    let res = store.insert_task(&task("t1", "s", "Bash", None, "active", 2000));
    assert!(matches!(res, Err(StoreError::QueryError(_))));
    // The first row is untouched.
    let row = store.get_task("t1").unwrap().unwrap();
    assert_eq!(row.started_at, 1000);
}

#[test]
fn test_insert_invalid_status_is_refused() {
    let mut store = EventStore::in_memory().unwrap();
    let res = store.insert_task(&task("t1", "s", "Bash", None, "running", 1000));
    assert!(matches!(res, Err(StoreError::QueryError(_))));
    assert!(store.get_task("t1").unwrap().is_none());
}

#[test]
fn test_update_missing_task_is_a_noop() {
    let mut store = EventStore::in_memory().unwrap();
    store.update_task_status("ghost", "completed", 2000).unwrap();
    assert!(store.get_task("ghost").unwrap().is_none());
}

#[test]
fn test_update_invalid_status_is_refused() {
    let mut store = EventStore::in_memory().unwrap();
    store.insert_task(&task("t1", "s", "Bash", None, "active", 1000)).unwrap();
    let res = store.update_task_status("t1", "finished", 2000);
    assert!(matches!(res, Err(StoreError::QueryError(_))));
    let row = store.get_task("t1").unwrap().unwrap();
    assert_eq!(row.status, "active");
}

#[test]
fn test_recent_tasks_order_and_limit() {
    let mut store = EventStore::in_memory().unwrap();
    store.insert_task(&task("a", "s", "Bash", None, "active", 1000)).unwrap();
    store.insert_task(&task("b", "s", "Bash", None, "active", 3000)).unwrap();
    store.insert_task(&task("c", "s", "Bash", None, "active", 2000)).unwrap();

    let recent = store.get_recent_tasks(2).unwrap();
    let ids: Vec<&str> = recent.iter().map(|t| t.id.as_str()).collect();
    assert_eq!(ids, vec!["b", "c"]);

    let all = store.get_recent_tasks(10).unwrap();
    let ids: Vec<&str> = all.iter().map(|t| t.id.as_str()).collect();
    assert_eq!(ids, vec!["b", "c", "a"]);
}

#[test]
fn test_tasks_by_session() {
    let mut store = EventStore::in_memory().unwrap();
    store.insert_task(&task("a", "s1", "Bash", None, "active", 1000)).unwrap();
    store.insert_task(&task("b", "s2", "Bash", None, "active", 2000)).unwrap();
    store.insert_task(&task("c", "s1", "Bash", None, "active", 3000)).unwrap();

    let rows = store.get_tasks_by_session("s1").unwrap();
    let ids: Vec<&str> = rows.iter().map(|t| t.id.as_str()).collect();
    assert_eq!(ids, vec!["c", "a"]);
}

#[test]
fn test_session_upsert_keeps_recorded_values() {
    let mut store = EventStore::in_memory().unwrap();
    store
        .upsert_session(&StoredSession {
            id: "s1".to_string(),
            started_at: 1000,
            ended_at: None,
            project_path: Some("/work".to_string()),
        })
        .unwrap();
    store
        .upsert_session(&StoredSession {
            id: "s1".to_string(),
            started_at: 9999,
            ended_at: Some(5000),
            project_path: None,
        })
        .unwrap();

    let s = store.get_session("s1").unwrap().unwrap();
    assert_eq!(s.started_at, 1000);
    assert_eq!(s.ended_at, Some(5000));
    assert_eq!(s.project_path.as_deref(), Some("/work"));
}

#[test]
fn test_insert_auto_creates_session() {
    let mut store = EventStore::in_memory().unwrap();
    store.insert_task(&task("t1", "s9", "Bash", None, "active", 1234)).unwrap();
    let s = store.get_session("s9").unwrap().unwrap();
    assert_eq!(s.started_at, 1234);
    assert_eq!(s.ended_at, None);
}

#[test]
fn test_cleanup_deletes_only_old_inactive_rows() {
    let mut store = EventStore::in_memory().unwrap();
    // Started at the epoch: decades older than any retention window.
    store.insert_task(&task("old-done", "s", "Bash", None, "active", 1000)).unwrap();
    store.update_task_status("old-done", "completed", 2000).unwrap();
    store.insert_task(&task("old-active", "s", "Bash", None, "active", 1500)).unwrap();

    let deleted = store.cleanup_old_tasks(30).unwrap();
    assert_eq!(deleted, 1);
    assert!(store.get_task("old-done").unwrap().is_none());
    assert!(store.get_task("old-active").unwrap().is_some());
}
