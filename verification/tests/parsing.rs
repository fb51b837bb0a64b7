//! Line and snapshot parsing, path handling and configuration defaults.

use agent_overlay::config::{get_config_path, Config};
use agent_overlay::events::parse_task_event;
use agent_overlay::strutil::{join_path, parent_dir};
use agent_overlay::watcher::{collect_global_todos, FileWatcher, TodoFile, WatchedPath, WatcherError};

#[test]
fn test_parse_full_event_line() {
    let line = "{\"type\":\"task_started\",\"task_id\":\"t1\",\"tool\":\"Bash\",\
                \"description\":\"npm install\",\"session_id\":\"s1\",\"timestamp\":1000,\
                \"background\":false,\"subagent_type\":null}";
    let e = parse_task_event(line).unwrap();
    assert_eq!(e.event_type, "task_started");
    assert_eq!(e.task_id, "t1");
    assert_eq!(e.tool.as_deref(), Some("Bash"));
    assert_eq!(e.description.as_deref(), Some("npm install"));
    assert_eq!(e.session_id.as_deref(), Some("s1"));
    assert_eq!(e.timestamp, 1000);
    assert_eq!(e.background, Some(false));
    assert_eq!(e.subagent_type, None);
    assert_eq!(e.duration_ms, None);
}

#[test]
fn test_parse_event_line_with_escapes_and_spacing() {
    let line = " { \"type\" : \"task_started\" , \"task_id\" : \"t\\\"1\\\\\" , \
                \"description\" : \"say \\\"hi\\\"\\n\" , \"timestamp\" : 42 } ";
    let e = parse_task_event(line).unwrap();
    assert_eq!(e.task_id, "t\"1\\");
    assert_eq!(e.description.as_deref(), Some("say \"hi\"\n"));
    assert_eq!(e.timestamp, 42);
}

#[test]
fn test_parse_event_line_requirements() {
    // timestamp is required.
    assert!(parse_task_event("{\"type\":\"task_started\",\"task_id\":\"t1\"}").is_none());
    // task_id is required for every type but session_stopped.
    assert!(parse_task_event("{\"type\":\"task_started\",\"timestamp\":1}").is_none());
    let e = parse_task_event("{\"type\":\"session_stopped\",\"timestamp\":1}").unwrap();
    assert_eq!(e.task_id, "");
    assert_eq!(e.session_id, None);
    // An unrecognized type still parses; the router decides what to do.
    let e = parse_task_event("{\"type\":\"task_paused\",\"task_id\":\"t\",\"timestamp\":1}")
        .unwrap();
    assert_eq!(e.event_type, "task_paused");
}

#[test]
fn test_parse_event_line_rejects_bad_numbers() {
    assert!(parse_task_event("{\"type\":\"a\",\"task_id\":\"t\",\"timestamp\":1.5}").is_none());
    assert!(parse_task_event("{\"type\":\"a\",\"task_id\":\"t\",\"timestamp\":-5}").is_none());
    assert!(parse_task_event("{\"type\":\"a\",\"task_id\":\"t\",\"timestamp\":007}").is_none());
    assert!(
        parse_task_event("{\"type\":\"a\",\"task_id\":\"t\",\"timestamp\":99999999999999999999}")
            .is_none()
    );
    let e = parse_task_event("{\"type\":\"a\",\"task_id\":\"t\",\"timestamp\":18446744073709551615}")
        .unwrap();
    assert_eq!(e.timestamp, u64::MAX);
}

#[test]
fn test_parse_event_line_rejects_wrong_shapes() {
    assert!(parse_task_event("").is_none());
    assert!(parse_task_event("[]").is_none());
    assert!(parse_task_event("{\"type\":\"a\",\"task_id\":7,\"timestamp\":1}").is_none());
    assert!(parse_task_event("{\"type\":\"a\",\"task_id\":\"t\",\"timestamp\":1} trailing")
        .is_none());
    // Values outside the flat scalar grammar make the line malformed.
    assert!(parse_task_event("{\"type\":\"a\",\"task_id\":\"t\",\"timestamp\":1,\"x\":{}}")
        .is_none());
}

#[test]
fn test_collect_global_todos() {
    let files = vec![
        TodoFile {
            path: "/tmp/abc123-agent-def456.json".to_string(),
            content: "[{\"content\":\"write tests\",\"status\":\"pending\",\
                      \"activeForm\":\"writing tests\"},\
                      {\"content\":\"old one\",\"status\":\"completed\",\"activeForm\":\"x\"}]"
                .to_string(),
        },
        TodoFile {
            path: "/tmp/notes.txt".to_string(),
            content: "[]".to_string(),
        },
        TodoFile {
            path: "/tmp/broken.json".to_string(),
            content: "not json at all".to_string(),
        },
        TodoFile {
            path: "/tmp/quiet.json".to_string(),
            content: "[{\"content\":\"done\",\"status\":\"completed\",\"activeForm\":\"x\"}]"
                .to_string(),
        },
    ];
    let todos = collect_global_todos(&files);
    assert_eq!(todos.len(), 1);
    assert_eq!(todos[0].content, "write tests");
    assert_eq!(todos[0].status, "pending");
    assert_eq!(todos[0].active_form, "writing tests");
    assert_eq!(todos[0].session_id, "abc123");
}

#[test]
fn test_path_helpers() {
    assert_eq!(join_path("/a", "b"), "/a/b");
    assert_eq!(join_path("/a/", "b"), "/a/b");
    assert_eq!(join_path("", "b"), "/b");
    assert_eq!(parent_dir("/a/b/c.txt"), "/a/b");
    assert_eq!(parent_dir("plain"), "plain");
}

#[test]
fn test_default_config() {
    let config = Config::default();
    assert_eq!(config.window.width, 320);
    assert_eq!(config.window.height, 400);
    assert!(config.window.always_on_top);
}

#[test]
fn test_config_defaults_and_paths() {
    let config = Config::default();
    assert_eq!(config.behavior.max_recent_tasks, 10);
    assert_eq!(config.behavior.file_watch_debounce_ms, 100);
    assert!(config.paths.events_file.ends_with("/.agent/progress-events.jsonl"));
    assert!(config.paths.todos_dir.ends_with("/.agent/todos"));
    assert!(config.paths.database_file.ends_with("/.agent/overlay-history.db"));
    assert!(get_config_path().ends_with("/.agent/overlay-config.toml"));
}

#[test]
fn test_file_watcher_paths() {
    let mut config = Config::default();
    config.paths.events_file = "/data/logs/progress-events.jsonl".to_string();
    config.paths.todos_dir = "/data/todos".to_string();
    let w = FileWatcher::new(&config);
    assert_eq!(w.events_path, "/data/logs/progress-events.jsonl");
    assert_eq!(w.todos_path, "/data/todos");
    assert_eq!(w.download_progress_path, "/data/logs/download-progress.json");
    assert_eq!(w.debounce_ms, 100);
}

#[test]
fn test_classify_changed_paths() {
    let mut config = Config::default();
    config.paths.events_file = "/data/logs/progress-events.jsonl".to_string();
    config.paths.todos_dir = "/data/todos".to_string();
    let w = FileWatcher::new(&config);
    assert_eq!(w.classify("/data/logs/progress-events.jsonl"), WatchedPath::EventsLog);
    assert_eq!(w.classify("/data/todos/s1.json"), WatchedPath::TodoSnapshot);
    assert_eq!(w.classify("/data/todos/notes.txt"), WatchedPath::Unrelated);
    assert_eq!(w.classify("/data/todos-other/s1.json"), WatchedPath::Unrelated);
    assert_eq!(w.classify("/data/logs/download-progress.json"), WatchedPath::ProgressDocument);
    assert_eq!(w.classify("/elsewhere"), WatchedPath::Unrelated);
}

#[test]
fn test_watcher_error_message() {
    let e = WatcherError::IoError("disk gone".to_string());
    assert_eq!(e.message(), "IO error: disk gone");
    let e = WatcherError::WatchError("no inotify".to_string());
    assert_eq!(e.message(), "Watch error: no inotify");
}
