//! Tailing: incremental reads, truncation, deferral of partial lines,
//! and the session-id rule for snapshot file names.

use agent_overlay::watcher::{extract_session_id, FileState};

fn ingest_whole(st: &mut FileState, content: &str) -> Vec<agent_overlay::events::TaskEvent> {
    let size = content.len() as u64;
    match st.on_size(size) {
        Some(start) => {
            let chunk: Vec<u8> = content.as_bytes()[start as usize..].to_vec();
            st.ingest(&chunk, size)
        }
        None => Vec::new(),
    }
}

#[test]
fn test_read_new_events() {
    let mut st = FileState { last_position: 0, last_size: 0 };

    let first = "{\"type\":\"task_started\",\"task_id\":\"t1\",\"timestamp\":1000}\n";
    let events = ingest_whole(&mut st, first);
    assert_eq!(events.len(), 1);
    assert_eq!(events[0].task_id, "t1");

    let both = format!(
        "{}{}",
        first, "{\"type\":\"task_complete\",\"task_id\":\"t1\",\"timestamp\":2000}\n"
    );
    let events = ingest_whole(&mut st, &both);
    assert_eq!(events.len(), 1);
    assert_eq!(events[0].event_type, "task_complete");
}

#[test]
fn test_tail_twice_yields_nothing() {
    let mut st = FileState { last_position: 0, last_size: 0 };
    let content = "{\"type\":\"task_started\",\"task_id\":\"t1\",\"timestamp\":1000}\npartial tail";

    let events = ingest_whole(&mut st, content);
    assert_eq!(events.len(), 1);

    // No intervening write: the second observation of the same file
    // yields zero events, and the partial tail stays deferred.
    let events = ingest_whole(&mut st, content);
    assert_eq!(events.len(), 0);
    let events = ingest_whole(&mut st, content);
    assert_eq!(events.len(), 0);
}

#[test]
fn test_truncation_resets_offset() {
    let mut st = FileState { last_position: 0, last_size: 0 };
    let long = "{\"type\":\"task_started\",\"task_id\":\"t1\",\"timestamp\":1000}\n";
    let events = ingest_whole(&mut st, long);
    assert_eq!(events.len(), 1);
    assert!(st.last_position > 0);

    // The file shrank: the offset resets and the next read starts from
    // the beginning of the new content.
    let short = "{\"type\":\"task_started\",\"task_id\":\"t9\",\"timestamp\":5}\n";
    assert!((short.len() as u64) < st.last_size);
    let start = st.on_size(short.len() as u64).expect("a read after truncation");
    assert_eq!(start, 0);
    let chunk: Vec<u8> = short.as_bytes().to_vec();
    let events = st.ingest(&chunk, short.len() as u64);
    assert_eq!(events.len(), 1);
    assert_eq!(events[0].task_id, "t9");
}

#[test]
fn test_reappended_line_is_reported_again() {
    let line = "{\"type\":\"task_started\",\"task_id\":\"t1\",\"timestamp\":1000}\n";
    let mut st = FileState { last_position: 0, last_size: 0 };

    let first = ingest_whole(&mut st, line);
    assert_eq!(first.len(), 1);

    let doubled = format!("{}{}", line, line);
    let second = ingest_whole(&mut st, &doubled);
    assert_eq!(second.len(), 1);
    assert_eq!(second[0].task_id, first[0].task_id);
    assert_eq!(second[0].timestamp, first[0].timestamp);
}

#[test]
fn test_malformed_lines_are_skipped_individually() {
    let mut st = FileState { last_position: 0, last_size: 0 };
    let content = "{\"type\":\"task_started\",\"task_id\":\"t1\",\"timestamp\":1000}\n\
                   this is not json\n\
                   {\"type\":\"task_started\"}\n\
                   {\"type\":\"task_complete\",\"task_id\":\"t1\",\"timestamp\":2000}\n";
    let events = ingest_whole(&mut st, content);
    assert_eq!(events.len(), 2);
    assert_eq!(events[0].event_type, "task_started");
    assert_eq!(events[1].event_type, "task_complete");
}

#[test]
fn test_invalid_utf8_line_is_skipped() {
    let mut st = FileState { last_position: 0, last_size: 0 };
    let mut bytes: Vec<u8> = Vec::new();
    bytes.extend_from_slice(b"{\"type\":\"task_started\",\"task_id\":\"t1\",\"timestamp\":1000}\n");
    bytes.extend_from_slice(&[0xff, 0xfe, b'\n']);
    bytes.extend_from_slice(b"{\"type\":\"task_canceled\",\"task_id\":\"t1\",\"timestamp\":2000}\n");

    let size = bytes.len() as u64;
    let start = st.on_size(size).unwrap();
    assert_eq!(start, 0);
    let events = st.ingest(&bytes, size);
    assert_eq!(events.len(), 2);
    assert_eq!(events[1].event_type, "task_canceled");
}

#[test]
fn test_extract_session_id() {
    let path = "/tmp/abc123-agent-def456.json";
    assert_eq!(extract_session_id(path), "abc123");

    let path = "/tmp/session-id.json";
    assert_eq!(extract_session_id(path), "session-id");
}
