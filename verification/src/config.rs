//! The configuration the pipeline consumes: resolved paths, behavior
//! knobs and shortcuts, with their defaults.  Loading and saving the
//! configuration file is the surrounding process's business; the library
//! only defines the values and where the defaults point.

use vstd::prelude::*;
use vstd::string::StringExecFns;

use crate::strutil::{ends_with, join_path, joined_path};

verus! {

/// Main window placement and look.
pub struct WindowConfig {
    pub width: u32,
    pub height: u32,
    pub position: String,
    pub always_on_top: bool,
    pub theme: String,
}

/// Behavior knobs of the pipeline and its surface.
pub struct BehaviorConfig {
    pub max_recent_tasks: usize,
    pub auto_hide: bool,
    pub auto_hide_delay_ms: u64,
    pub stale_task_threshold_ms: u64,
    pub notification_duration_ms: u64,
    pub file_watch_debounce_ms: u64,
}

/// Keyboard shortcuts.
pub struct ShortcutsConfig {
    pub toggle_visibility: String,
    pub clear_tasks: String,
    pub open_settings: String,
}

/// The resolved paths the pipeline watches and writes.
pub struct PathsConfig {
    pub events_file: String,
    pub todos_dir: String,
    pub database_file: String,
}

/// The whole configuration object.
pub struct Config {
    pub window: WindowConfig,
    pub behavior: BehaviorConfig,
    pub shortcuts: ShortcutsConfig,
    pub paths: PathsConfig,
}

/// What can go wrong around the configuration file.
#[derive(Debug)]
pub enum ConfigError {
    ReadError(String),
    WriteError(String),
    ParseError(String),
    SerializeError(String),
}

impl ConfigError {
    /// The error spelled out for a reader.
    pub fn message(&self) -> (r: String)
        ensures
            match self {
                ConfigError::ReadError(e) => r@ == "Failed to read config: "@ + e@,
                ConfigError::WriteError(e) => r@ == "Failed to write config: "@ + e@,
                ConfigError::ParseError(e) => r@ == "Failed to parse config: "@ + e@,
                ConfigError::SerializeError(e) => r@ == "Failed to serialize config: "@ + e@,
            },
    {
        let mut m = String::new();
        match self {
            ConfigError::ReadError(e) => {
                m.append("Failed to read config: ");
                m.append(e.as_str());
            },
            ConfigError::WriteError(e) => {
                m.append("Failed to write config: ");
                m.append(e.as_str());
            },
            ConfigError::ParseError(e) => {
                m.append("Failed to parse config: ");
                m.append(e.as_str());
            },
            ConfigError::SerializeError(e) => {
                m.append("Failed to serialize config: ");
                m.append(e.as_str());
            },
        }
        m
    }
}

pub fn default_width() -> (r: u32)
    ensures
        r == 320,
{
    320
}

pub fn default_height() -> (r: u32)
    ensures
        r == 400,
{
    400
}

pub fn default_position() -> (r: String)
    ensures
        r@ == "bottom-right"@,
{
    "bottom-right".to_owned()
}

pub fn default_true() -> (r: bool)
    ensures
        r,
{
    true
}

pub fn default_theme() -> (r: String)
    ensures
        r@ == "dark"@,
{
    "dark".to_owned()
}

pub fn default_max_recent_tasks() -> (r: usize)
    ensures
        r == 10,
{
    10
}

pub fn default_auto_hide_delay() -> (r: u64)
    ensures
        r == 3000,
{
    3000
}

pub fn default_stale_threshold() -> (r: u64)
    ensures
        r == 300000,
{
    300000
}

pub fn default_notification_duration() -> (r: u64)
    ensures
        r == 2000,
{
    2000
}

pub fn default_debounce() -> (r: u64)
    ensures
        r == 100,
{
    100
}

pub fn default_toggle_shortcut() -> (r: String)
    ensures
        r@ == "Ctrl+Shift+P"@,
{
    "Ctrl+Shift+P".to_owned()
}

pub fn default_clear_shortcut() -> (r: String)
    ensures
        r@ == "Ctrl+Shift+C"@,
{
    "Ctrl+Shift+C".to_owned()
}

pub fn default_settings_shortcut() -> (r: String)
    ensures
        r@ == "Ctrl+,"@,
{
    "Ctrl+,".to_owned()
}

/// Relies on `dirs::home_dir`: the user's home directory, where the
/// platform knows one.  Nothing can be promised of the value; every
/// caller works for any directory that comes back.
#[verifier::external_body]
fn home_dir_string() -> (r: Option<String>) {
    dirs::home_dir().map(|p| p.to_string_lossy().into_owned())
}

/// The directory all default paths live under: `.agent` in the home
/// directory, or under the current directory when no home is known.
pub fn get_agent_dir() -> (r: String)
    ensures
        exists|h: Seq<char>| r@ == joined_path(h, ".agent"@),
        ends_with(r@, "/.agent"@),
{
    let base: String = match home_dir_string() {
        Some(h) => h,
        None => ".".to_owned(),
    };
    let r = join_path(base.as_str(), ".agent");
    proof {
        reveal_strlit(".agent");
        reveal_strlit("/.agent");
        let ghost h = base@;
        assert(r@ == joined_path(h, ".agent"@));
        assert(r@.subrange(r@.len() - 7, r@.len() as int) =~= "/.agent"@);
    }
    r
}

/// Where the configuration file lives: `overlay-config.toml` in the
/// `.agent` directory.
pub fn get_config_path() -> (r: String)
    ensures
        exists|d: Seq<char>|
            ends_with(d, "/.agent"@) && r@ == joined_path(d, "overlay-config.toml"@),
{
    let d = get_agent_dir();
    let r = join_path(d.as_str(), "overlay-config.toml");
    proof {
        let ghost dv = d@;
        assert(ends_with(dv, "/.agent"@) && r@ == joined_path(dv, "overlay-config.toml"@));
    }
    r
}

pub fn default_events_file() -> (r: String)
    ensures
        exists|d: Seq<char>|
            ends_with(d, "/.agent"@) && r@ == joined_path(d, "progress-events.jsonl"@),
{
    let d = get_agent_dir();
    let r = join_path(d.as_str(), "progress-events.jsonl");
    proof {
        let ghost dv = d@;
        assert(ends_with(dv, "/.agent"@) && r@ == joined_path(dv, "progress-events.jsonl"@));
    }
    r
}

pub fn default_todos_dir() -> (r: String)
    ensures
        exists|d: Seq<char>| ends_with(d, "/.agent"@) && r@ == joined_path(d, "todos"@),
{
    let d = get_agent_dir();
    let r = join_path(d.as_str(), "todos");
    proof {
        let ghost dv = d@;
        assert(ends_with(dv, "/.agent"@) && r@ == joined_path(dv, "todos"@));
    }
    r
}

pub fn default_database_file() -> (r: String)
    ensures
        exists|d: Seq<char>|
            ends_with(d, "/.agent"@) && r@ == joined_path(d, "overlay-history.db"@),
{
    let d = get_agent_dir();
    let r = join_path(d.as_str(), "overlay-history.db");
    proof {
        let ghost dv = d@;
        assert(ends_with(dv, "/.agent"@) && r@ == joined_path(dv, "overlay-history.db"@));
    }
    r
}

impl Default for WindowConfig {
    /// The default window: 320 by 400, bottom right, always on top, dark.
    fn default() -> (r: Self)
        ensures
            r.width == 320,
            r.height == 400,
            r.position@ == "bottom-right"@,
            r.always_on_top,
            r.theme@ == "dark"@,
    {
        WindowConfig {
            width: default_width(),
            height: default_height(),
            position: default_position(),
            always_on_top: default_true(),
            theme: default_theme(),
        }
    }
}

impl Default for BehaviorConfig {
    /// The default behavior: ten recent tasks, no auto-hide, and the
    /// stock delays.
    fn default() -> (r: Self)
        ensures
            r.max_recent_tasks == 10,
            !r.auto_hide,
            r.auto_hide_delay_ms == 3000,
            r.stale_task_threshold_ms == 300000,
            r.notification_duration_ms == 2000,
            r.file_watch_debounce_ms == 100,
    {
        BehaviorConfig {
            max_recent_tasks: default_max_recent_tasks(),
            auto_hide: false,
            auto_hide_delay_ms: default_auto_hide_delay(),
            stale_task_threshold_ms: default_stale_threshold(),
            notification_duration_ms: default_notification_duration(),
            file_watch_debounce_ms: default_debounce(),
        }
    }
}

impl Default for ShortcutsConfig {
    /// The stock shortcuts.
    fn default() -> (r: Self)
        ensures
            r.toggle_visibility@ == "Ctrl+Shift+P"@,
            r.clear_tasks@ == "Ctrl+Shift+C"@,
            r.open_settings@ == "Ctrl+,"@,
    {
        ShortcutsConfig {
            toggle_visibility: default_toggle_shortcut(),
            clear_tasks: default_clear_shortcut(),
            open_settings: default_settings_shortcut(),
        }
    }
}

impl Default for PathsConfig {
    /// The default paths, all under the `.agent` directory.
    fn default() -> (r: Self)
        ensures
            exists|d: Seq<char>|
                ends_with(d, "/.agent"@) && r.events_file@ == joined_path(
                    d,
                    "progress-events.jsonl"@,
                ),
            exists|d: Seq<char>|
                ends_with(d, "/.agent"@) && r.todos_dir@ == joined_path(d, "todos"@),
            exists|d: Seq<char>|
                ends_with(d, "/.agent"@) && r.database_file@ == joined_path(
                    d,
                    "overlay-history.db"@,
                ),
    {
        PathsConfig {
            events_file: default_events_file(),
            todos_dir: default_todos_dir(),
            database_file: default_database_file(),
        }
    }
}

impl Default for Config {
    /// The whole default configuration, each part as its own default
    /// says.
    fn default() -> (r: Self)
        ensures
            r.window.width == 320,
            r.window.height == 400,
            r.window.always_on_top,
            r.behavior.max_recent_tasks == 10,
            r.behavior.file_watch_debounce_ms == 100,
    {
        Config {
            window: WindowConfig::default(),
            behavior: BehaviorConfig::default(),
            shortcuts: ShortcutsConfig::default(),
            paths: PathsConfig::default(),
        }
    }
}

impl Config {
    /// The resolved path of the event log.
    pub fn events_path(&self) -> (r: String)
        ensures
            r@ == self.paths.events_file@,
    {
        self.paths.events_file.clone()
    }

    /// The resolved path of the todos directory.
    pub fn todos_path(&self) -> (r: String)
        ensures
            r@ == self.paths.todos_dir@,
    {
        self.paths.todos_dir.clone()
    }

    /// The resolved path of the database file.
    pub fn database_path(&self) -> (r: String)
        ensures
            r@ == self.paths.database_file@,
    {
        self.paths.database_file.clone()
    }
}

} // verus!
