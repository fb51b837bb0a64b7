//! The event router: the single point turning raw watcher output into
//! durable store changes and a broadcast feed of domain events, and the
//! plugin manager that drains that feed.

use vstd::prelude::*;
use vstd::string::StringExecFns;

use crate::config::Config;
use crate::events::{
    clone_opt_string, DownloadProgress, DownloadProgressModel, GlobalTodoItem, TaskEvent,
    TaskEventModel,
};
use crate::store::{
    ensure_session, finished_task, insert_pos, inserted_task, task_index, valid_status,
    EventStore, StoredTask, StoredTaskModel, StoredSessionModel, StoreError, TaskStats,
};
use crate::events::GlobalTodoItemModel;
use crate::strutil::str_eq;
use crate::watcher::{global_todos_view, WatcherEvent, WatcherEventModel};

verus! {

/// A domain event, the only artifact subscribers ever see.
pub enum AppEvent {
    TaskStarted(TaskEvent),
    TaskCompleted { task_id: String, timestamp: u64 },
    TaskError { task_id: String, timestamp: u64 },
    TaskCanceled { task_id: String },
    SessionStopped { session_id: Option<String> },
    TodosUpdated(Vec<GlobalTodoItem>),
    DownloadProgress(DownloadProgress),
}

/// Mathematical model of an `AppEvent`.
pub enum AppEventModel {
    TaskStarted(TaskEventModel),
    TaskCompleted { task_id: Seq<char>, timestamp: u64 },
    TaskError { task_id: Seq<char>, timestamp: u64 },
    TaskCanceled { task_id: Seq<char> },
    SessionStopped { session_id: Option<Seq<char>> },
    TodosUpdated(Seq<GlobalTodoItemModel>),
    DownloadProgress(DownloadProgressModel),
}

impl View for AppEvent {
    type V = AppEventModel;

    open spec fn view(&self) -> AppEventModel {
        match self {
            AppEvent::TaskStarted(e) => AppEventModel::TaskStarted(e@),
            AppEvent::TaskCompleted { task_id, timestamp } => AppEventModel::TaskCompleted {
                task_id: task_id@,
                timestamp: *timestamp,
            },
            AppEvent::TaskError { task_id, timestamp } => AppEventModel::TaskError {
                task_id: task_id@,
                timestamp: *timestamp,
            },
            AppEvent::TaskCanceled { task_id } => AppEventModel::TaskCanceled {
                task_id: task_id@,
            },
            AppEvent::SessionStopped { session_id } => AppEventModel::SessionStopped {
                session_id: session_id.deep_view(),
            },
            AppEvent::TodosUpdated(ts) => AppEventModel::TodosUpdated(global_todos_view(ts@)),
            AppEvent::DownloadProgress(p) => AppEventModel::DownloadProgress(p@),
        }
    }
}

/// Copy a list of aggregate todo entries.
fn clone_todo_items(v: &Vec<GlobalTodoItem>) -> (r: Vec<GlobalTodoItem>)
    ensures
        r@ == v@,
{
    let mut r: Vec<GlobalTodoItem> = Vec::new();
    let mut i: usize = 0;
    while i < v.len()
        invariant
            i <= v@.len(),
            r@ == v@.take(i as int),
        decreases v@.len() - i,
    {
        r.push(v[i].clone());
        proof {
            assert(r@ =~= v@.take(i + 1));
        }
        i = i + 1;
    }
    proof {
        assert(v@.take(v@.len() as int) =~= v@);
    }
    r
}

impl Clone for AppEvent {
    fn clone(&self) -> (r: Self)
        ensures
            r@ == self@,
    {
        match self {
            AppEvent::TaskStarted(e) => AppEvent::TaskStarted(e.clone()),
            AppEvent::TaskCompleted { task_id, timestamp } => AppEvent::TaskCompleted {
                task_id: task_id.clone(),
                timestamp: *timestamp,
            },
            AppEvent::TaskError { task_id, timestamp } => AppEvent::TaskError {
                task_id: task_id.clone(),
                timestamp: *timestamp,
            },
            AppEvent::TaskCanceled { task_id } => AppEvent::TaskCanceled {
                task_id: task_id.clone(),
            },
            AppEvent::SessionStopped { session_id } => AppEvent::SessionStopped {
                session_id: clone_opt_string(session_id),
            },
            AppEvent::TodosUpdated(ts) => AppEvent::TodosUpdated(clone_todo_items(ts)),
            AppEvent::DownloadProgress(p) => AppEvent::DownloadProgress(p.clone()),
        }
    }
}

/// What one receive yields: the next event, a count of events the
/// subscriber was too slow for, the end of a closed feed, or nothing yet.
pub enum RecvOutcome {
    Event(AppEvent),
    Lagged(u64),
    Closed,
    Empty,
}

/// A bounded multi-subscriber broadcast: one producer appends, any number
/// of subscribers read at their own pace.  The producer never waits; a
/// subscriber that falls behind the buffer's capacity is told how much it
/// missed and resumes from the oldest retained event.
pub struct EventChannel {
    buffer: Vec<AppEvent>,
    start_seq: u64,
    capacity: usize,
    closed: bool,
    history: Ghost<Seq<AppEventModel>>,
}

/// One subscriber's cursor into the broadcast.
pub struct Subscriber {
    next_seq: u64,
}

impl Subscriber {
    /// The sequence number of the next event this subscriber will see.
    pub closed spec fn next(&self) -> int {
        self.next_seq as int
    }
}

impl EventChannel {
    /// Every event ever sent, in order.  The buffer retains only the
    /// newest `capacity` of them.
    pub closed spec fn history(&self) -> Seq<AppEventModel> {
        self.history@
    }

    /// The sequence number of the oldest event still retained.
    pub closed spec fn start(&self) -> int {
        self.start_seq as int
    }

    /// How many events the buffer retains at most.
    pub closed spec fn capacity(&self) -> int {
        self.capacity as int
    }

    /// Whether the feed was closed.
    pub closed spec fn is_closed(&self) -> bool {
        self.closed
    }

    /// The channel's invariant: the buffer holds exactly the retained
    /// tail of the history, no longer than the capacity.
    pub closed spec fn inv(&self) -> bool {
        &&& self.capacity > 0
        &&& self.start_seq + self.buffer@.len() == self.history@.len()
        &&& self.buffer@.len() <= self.capacity
        &&& self.history@.len() <= u64::MAX
        &&& forall|i: int|
            0 <= i < self.buffer@.len() ==> (#[trigger] self.buffer@[i])@ == self.history@[
                self.start_seq + i
            ]
    }

    /// A fresh broadcast that retains up to `capacity` events.
    pub fn new(capacity: usize) -> (r: EventChannel)
        requires
            capacity > 0,
        ensures
            r.inv(),
            r.history() == Seq::<AppEventModel>::empty(),
            r.capacity() == capacity,
            !r.is_closed(),
            r.start() == 0,
    {
        EventChannel {
            buffer: Vec::new(),
            start_seq: 0,
            capacity,
            closed: false,
            history: Ghost(Seq::<AppEventModel>::empty()),
        }
    }

    /// Append one event to the feed.  The producer never waits: when the
    /// buffer is full, the oldest retained event makes room and slow
    /// subscribers will see a lag count instead of it.
    pub fn send(&mut self, e: AppEvent)
        requires
            old(self).inv(),
            old(self).history().len() < u64::MAX,
        ensures
            final(self).inv(),
            final(self).history() == old(self).history() + seq![e@],
            final(self).capacity() == old(self).capacity(),
            final(self).is_closed() == old(self).is_closed(),
            final(self).start() == (if old(self).history().len() - old(self).start() < old(
                self,
            ).capacity() {
                old(self).start()
            } else {
                old(self).start() + 1
            }),
    {
        if self.buffer.len() >= self.capacity {
            self.buffer.remove(0);
            self.start_seq = self.start_seq + 1;
        }
        let ghost em = e@;
        self.buffer.push(e);
        proof {
            self.history@ = self.history@ + seq![em];
        }
    }

    /// Close the feed: subscribers that catch up are told it ended.
    pub fn close(&mut self)
        ensures
            final(self).inv() == old(self).inv(),
            final(self).history() == old(self).history(),
            final(self).capacity() == old(self).capacity(),
            final(self).start() == old(self).start(),
            final(self).is_closed(),
    {
        self.closed = true;
    }

    /// A new subscriber, positioned at the live end of the feed: it sees
    /// exactly the events sent after this call.
    pub fn subscribe(&self) -> (rx: Subscriber)
        requires
            self.inv(),
        ensures
            rx.next() == self.history().len(),
    {
        Subscriber { next_seq: self.start_seq + (self.buffer.len() as u64) }
    }

    /// One receive for this subscriber: the next event in send order; or
    /// how many events it missed, resuming at the oldest retained one; or
    /// word that the feed is closed; or nothing yet, never blocking.
    pub fn recv(&self, rx: &mut Subscriber) -> (r: RecvOutcome)
        requires
            self.inv(),
            old(rx).next() <= self.history().len(),
        ensures
            final(rx).next() <= self.history().len(),
            match r {
                RecvOutcome::Event(e) => {
                    &&& self.start() <= old(rx).next() < self.history().len()
                    &&& e@ == self.history()[old(rx).next()]
                    &&& final(rx).next() == old(rx).next() + 1
                },
                RecvOutcome::Lagged(n) => {
                    &&& old(rx).next() < self.start()
                    &&& n == self.start() - old(rx).next()
                    &&& final(rx).next() == self.start()
                },
                RecvOutcome::Closed => {
                    &&& self.is_closed()
                    &&& old(rx).next() == self.history().len()
                    &&& final(rx).next() == old(rx).next()
                },
                RecvOutcome::Empty => {
                    &&& !self.is_closed()
                    &&& old(rx).next() == self.history().len()
                    &&& final(rx).next() == old(rx).next()
                },
            },
    {
        if rx.next_seq < self.start_seq {
            let n = self.start_seq - rx.next_seq;
            rx.next_seq = self.start_seq;
            RecvOutcome::Lagged(n)
        } else {
            let offset = rx.next_seq - self.start_seq;
            if offset < self.buffer.len() as u64 {
                let e = self.buffer[offset as usize].clone();
                proof {
                    assert(self.buffer@[offset as int]@ == self.history@[old(rx).next()]);
                }
                rx.next_seq = rx.next_seq + 1;
                RecvOutcome::Event(e)
            } else {
                if self.closed {
                    RecvOutcome::Closed
                } else {
                    RecvOutcome::Empty
                }
            }
        }
    }
}

/// Law: a subscriber that fell behind the buffer's capacity is told, on
/// its very next receive, exactly how many events it missed — the feed
/// loses nothing silently, and the producer never waited for it.
pub proof fn lemma_lagged_subscriber(chan: EventChannel, rx: Subscriber)
    requires
        chan.inv(),
        rx.next() <= chan.history().len(),
        chan.history().len() - rx.next() > chan.capacity(),
    ensures
        rx.next() < chan.start(),
        chan.start() - rx.next() > 0,
{
}

/// The session id a task event files its task under, where none is given.
pub open spec fn or_unknown(s: Option<Seq<char>>) -> Seq<char> {
    match s {
        Some(v) => v,
        None => "unknown"@,
    }
}

/// The tool name recorded for a task event that names none.
pub open spec fn or_unknown_tool(s: Option<Seq<char>>) -> Seq<char> {
    match s {
        Some(v) => v,
        None => "Unknown"@,
    }
}

/// The task row a `task_started` event is stored as.
pub open spec fn task_row_of(e: TaskEventModel) -> StoredTaskModel {
    StoredTaskModel {
        id: e.task_id,
        session_id: or_unknown(e.session_id),
        tool: or_unknown_tool(e.tool),
        description: e.description,
        status: "active"@,
        started_at: e.timestamp as i64,
        ended_at: None,
        duration_ms: None,
        is_background: match e.background {
            Some(b) => b,
            None => false,
        },
        subagent_type: e.subagent_type,
    }
}

/// What inserting a row does to the stored tasks: a new row in start-time
/// order, or nothing when the id is taken or the status unacceptable.
pub open spec fn insert_task_effect(
    tasks: Seq<StoredTaskModel>,
    row: StoredTaskModel,
) -> Seq<StoredTaskModel> {
    if task_index(tasks, row.id) is None && valid_status(row.status) {
        tasks.insert(insert_pos(tasks, row.started_at), inserted_task(row))
    } else {
        tasks
    }
}

/// What bringing a row to a terminal status does to the stored tasks: the
/// row finished, or nothing when it is missing, the status unacceptable,
/// or the span too large to record.
pub open spec fn update_task_effect(
    tasks: Seq<StoredTaskModel>,
    id: Seq<char>,
    status: Seq<char>,
    ended: i64,
) -> Seq<StoredTaskModel> {
    match task_index(tasks, id) {
        Some(i) => {
            if valid_status(status) && i64::MIN <= ended - tasks[i].started_at <= i64::MAX {
                tasks.update(i, finished_task(tasks[i], status, ended))
            } else {
                tasks
            }
        },
        None => tasks,
    }
}

/// The store effect of one raw task event on the task rows, by its type:
/// `task_started` inserts an active row; the three terminal types finish
/// it; everything else changes nothing.
pub open spec fn routed_tasks(
    tasks: Seq<StoredTaskModel>,
    e: TaskEventModel,
) -> Seq<StoredTaskModel> {
    if e.event_type == "task_started"@ {
        insert_task_effect(tasks, task_row_of(e))
    } else if e.event_type == "task_complete"@ {
        update_task_effect(tasks, e.task_id, "completed"@, e.timestamp as i64)
    } else if e.event_type == "task_error"@ {
        update_task_effect(tasks, e.task_id, "error"@, e.timestamp as i64)
    } else if e.event_type == "task_canceled"@ {
        update_task_effect(tasks, e.task_id, "canceled"@, e.timestamp as i64)
    } else {
        tasks
    }
}

/// The store effect of one raw task event on the session rows: only
/// `task_started` touches them, auto-creating the missing session.
pub open spec fn routed_sessions(
    sessions: Seq<StoredSessionModel>,
    e: TaskEventModel,
) -> Seq<StoredSessionModel> {
    if e.event_type == "task_started"@ {
        ensure_session(sessions, or_unknown(e.session_id), e.timestamp as i64)
    } else {
        sessions
    }
}

/// The domain events one raw task event publishes: exactly one for each
/// recognized type, none for an unknown one.
pub open spec fn emitted_events(e: TaskEventModel) -> Seq<AppEventModel> {
    if e.event_type == "task_started"@ {
        seq![AppEventModel::TaskStarted(e)]
    } else if e.event_type == "task_complete"@ {
        seq![AppEventModel::TaskCompleted { task_id: e.task_id, timestamp: e.timestamp }]
    } else if e.event_type == "task_error"@ {
        seq![AppEventModel::TaskError { task_id: e.task_id, timestamp: e.timestamp }]
    } else if e.event_type == "task_canceled"@ {
        seq![AppEventModel::TaskCanceled { task_id: e.task_id }]
    } else if e.event_type == "session_stopped"@ {
        seq![AppEventModel::SessionStopped { session_id: e.session_id }]
    } else {
        Seq::<AppEventModel>::empty()
    }
}

/// The domain events one watcher event publishes: a task event's by the
/// dispatch table, a todo or progress snapshot forwarded as it is, and
/// nothing for a watch error.
pub open spec fn watcher_emits(w: WatcherEventModel) -> Seq<AppEventModel> {
    match w {
        WatcherEventModel::TaskEvent(e) => emitted_events(e),
        WatcherEventModel::TodosUpdated(ts) => seq![AppEventModel::TodosUpdated(ts)],
        WatcherEventModel::DownloadProgress(p) => seq![AppEventModel::DownloadProgress(p)],
        WatcherEventModel::Error(_) => Seq::<AppEventModel>::empty(),
    }
}

/// The router: it owns the store and the broadcast feed, persists each
/// raw event's side effect, and publishes the domain event even when
/// persistence failed.
pub struct EventRouter {
    /// The history store the routed side effects land in.
    pub store: EventStore,
    /// The broadcast feed of domain events.
    pub channel: EventChannel,
    /// The configuration the router was built with, kept for consumers.
    pub config: Config,
}

impl EventRouter {
    /// The router's invariant: its store's and its channel's.
    pub open spec fn inv(&self) -> bool {
        self.store.inv() && self.channel.inv()
    }

    /// A router over this store and configuration, with an empty feed.
    pub fn new(store: EventStore, config: Config) -> (r: EventRouter)
        requires
            store.inv(),
        ensures
            r.inv(),
            r.store.tasks() == store.tasks(),
            r.store.sessions() == store.sessions(),
            r.channel.history() == Seq::<AppEventModel>::empty(),
            !r.channel.is_closed(),
    {
        EventRouter { store, channel: EventChannel::new(256), config }
    }

    /// A new subscriber to the feed, seeing exactly the events published
    /// after this call.
    pub fn subscribe(&self) -> (rx: Subscriber)
        requires
            self.inv(),
        ensures
            rx.next() == self.channel.history().len(),
    {
        self.channel.subscribe()
    }

    /// Apply one raw task event: persist its side effect by the dispatch
    /// table — a persistence failure is swallowed — and publish its
    /// domain event in every case.
    fn handle_task_event(&mut self, event: TaskEvent)
        requires
            old(self).inv(),
            old(self).channel.history().len() < u64::MAX,
        ensures
            final(self).inv(),
            final(self).store.tasks() == routed_tasks(old(self).store.tasks(), event@),
            final(self).store.sessions() == routed_sessions(old(self).store.sessions(), event@),
            final(self).channel.history() == old(self).channel.history() + emitted_events(
                event@,
            ),
            final(self).channel.capacity() == old(self).channel.capacity(),
            final(self).channel.is_closed() == old(self).channel.is_closed(),
    {
        if str_eq(event.event_type.as_str(), "task_started") {
            let row = StoredTask {
                id: event.task_id.clone(),
                session_id: match &event.session_id {
                    Some(s) => s.clone(),
                    None => "unknown".to_owned(),
                },
                tool: match &event.tool {
                    Some(s) => s.clone(),
                    None => "Unknown".to_owned(),
                },
                description: clone_opt_string(&event.description),
                status: "active".to_owned(),
                started_at: #[verifier::truncate] (event.timestamp as i64),
                ended_at: None,
                duration_ms: None,
                is_background: match event.background {
                    Some(b) => b,
                    None => false,
                },
                subagent_type: clone_opt_string(&event.subagent_type),
            };
            proof {
                assert(row@ == task_row_of(event@));
            }
            let _ = self.store.insert_task(&row);
            self.channel.send(AppEvent::TaskStarted(event));
        } else if str_eq(event.event_type.as_str(), "task_complete") {
            let ended: i64 = #[verifier::truncate] (event.timestamp as i64);
            let _ = self.store.update_task_status(event.task_id.as_str(), "completed", ended);
            self.channel.send(
                AppEvent::TaskCompleted { task_id: event.task_id, timestamp: event.timestamp },
            );
        } else if str_eq(event.event_type.as_str(), "task_error") {
            let ended: i64 = #[verifier::truncate] (event.timestamp as i64);
            let _ = self.store.update_task_status(event.task_id.as_str(), "error", ended);
            self.channel.send(
                AppEvent::TaskError { task_id: event.task_id, timestamp: event.timestamp },
            );
        } else if str_eq(event.event_type.as_str(), "task_canceled") {
            let ended: i64 = #[verifier::truncate] (event.timestamp as i64);
            let _ = self.store.update_task_status(event.task_id.as_str(), "canceled", ended);
            self.channel.send(AppEvent::TaskCanceled { task_id: event.task_id });
        } else if str_eq(event.event_type.as_str(), "session_stopped") {
            self.channel.send(AppEvent::SessionStopped { session_id: event.session_id });
        } else {
            proof {
                assert(self.channel.history() =~= old(self).channel.history() + emitted_events(
                    event@,
                ));
            }
        }
    }

    /// Route one watcher event: a task event runs through the dispatch
    /// table, a todo or progress snapshot is forwarded as it is, and a
    /// watch error publishes nothing.
    pub fn process_watcher_event(&mut self, event: WatcherEvent)
        requires
            old(self).inv(),
            old(self).channel.history().len() < u64::MAX,
        ensures
            final(self).inv(),
            final(self).store.tasks() == (match event@ {
                WatcherEventModel::TaskEvent(e) => routed_tasks(old(self).store.tasks(), e),
                _ => old(self).store.tasks(),
            }),
            final(self).store.sessions() == (match event@ {
                WatcherEventModel::TaskEvent(e) => routed_sessions(old(self).store.sessions(), e),
                _ => old(self).store.sessions(),
            }),
            final(self).channel.history() == old(self).channel.history() + watcher_emits(event@),
            final(self).channel.capacity() == old(self).channel.capacity(),
            final(self).channel.is_closed() == old(self).channel.is_closed(),
    {
        match event {
            WatcherEvent::TaskEvent(e) => {
                self.handle_task_event(e);
            },
            WatcherEvent::TodosUpdated(ts) => {
                self.channel.send(AppEvent::TodosUpdated(ts));
            },
            WatcherEvent::DownloadProgress(p) => {
                self.channel.send(AppEvent::DownloadProgress(p));
            },
            WatcherEvent::Error(_) => {
                proof {
                    assert(self.channel.history() =~= old(self).channel.history() + watcher_emits(
                        event@,
                    ));
                }
            },
        }
    }

    /// Aggregate statistics of the store, as `EventStore::get_task_stats`
    /// gives them.
    pub fn get_stats(&self) -> (r: Result<TaskStats, StoreError>)
        requires
            self.inv(),
        ensures
            r matches Ok(s) && s.total_tasks == self.store.tasks().len() && s.completed_tasks
                as int == crate::store::count_status(self.store.tasks(), "completed"@)
                && s.error_tasks as int == crate::store::count_status(
                self.store.tasks(),
                "error"@,
            ) && s.duration_sum_ms as int == crate::store::duration_sum(self.store.tasks())
                && s.duration_count as int == crate::store::duration_count(self.store.tasks()),
    {
        self.store.get_task_stats()
    }

    /// Search the history, as `EventStore::search_tasks` does.
    pub fn search_tasks(&self, query: &str, limit: usize) -> (r: Result<
        Vec<StoredTask>,
        StoreError,
    >)
        requires
            self.inv(),
        ensures
            (if crate::store::tokenize(query@).len() == 0 {
                r matches Err(StoreError::QueryError(_))
            } else {
                r matches Ok(v) && crate::store::tasks_view(v@) == crate::store::select_search(
                    self.store.tasks(),
                    crate::store::tokenize(query@),
                    limit as int,
                )
            }),
    {
        self.store.search_tasks(query, limit)
    }

    /// Read recent history, as `EventStore::get_recent_tasks` does.
    pub fn get_recent_tasks(&self, limit: usize) -> (r: Result<Vec<StoredTask>, StoreError>)
        requires
            self.inv(),
        ensures
            r matches Ok(v) && crate::store::tasks_view(v@) == crate::store::select_recent(
                self.store.tasks(),
                limit as int,
            ),
    {
        self.store.get_recent_tasks(limit)
    }
}

/// What can go wrong inside a plugin, phase by phase.
#[derive(Debug)]
pub enum PluginError {
    InitError(String),
    EventError(String),
    ShutdownError(String),
}

impl PluginError {
    /// The error spelled out for a reader.
    pub fn message(&self) -> (r: String)
        ensures
            match self {
                PluginError::InitError(e) => r@ == "Plugin init error: "@ + e@,
                PluginError::EventError(e) => r@ == "Plugin event error: "@ + e@,
                PluginError::ShutdownError(e) => r@ == "Plugin shutdown error: "@ + e@,
            },
    {
        let mut m = String::new();
        match self {
            PluginError::InitError(e) => {
                m.append("Plugin init error: ");
                m.append(e.as_str());
            },
            PluginError::EventError(e) => {
                m.append("Plugin event error: ");
                m.append(e.as_str());
            },
            PluginError::ShutdownError(e) => {
                m.append("Plugin shutdown error: ");
                m.append(e.as_str());
            },
        }
        m
    }
}

/// A pluggable consumer of the domain event feed: initialized once,
/// handed each event, shut down once.
pub trait Plugin {
    /// The plugin's name.
    fn name(&self) -> &str;

    /// The plugin's version.
    fn version(&self) -> &str;

    /// Called once before any event.
    fn on_init(&mut self) -> Result<(), PluginError>;

    /// Called for each event.
    fn on_event(&self, event: &AppEvent) -> Result<(), PluginError>;

    /// Called once after the feed ends.
    fn on_shutdown(&self) -> Result<(), PluginError>;
}

/// Runs registered plugins over the domain event feed.  One plugin's
/// failure on one event is its own: it never stops delivery to the
/// others, and only a closed feed ends the run.
pub struct PluginManager<P: Plugin> {
    plugins: Vec<P>,
    rx: Subscriber,
}

impl<P: Plugin> PluginManager<P> {
    /// Where this manager stands in the feed.
    pub closed spec fn cursor(&self) -> int {
        self.rx.next()
    }

    /// How many plugins are registered.
    pub closed spec fn plugin_count(&self) -> int {
        self.plugins@.len() as int
    }

    /// A manager subscribed to the router's feed, with no plugins yet.
    pub fn new(router: &EventRouter) -> (r: PluginManager<P>)
        requires
            router.inv(),
        ensures
            r.cursor() == router.channel.history().len(),
            r.plugin_count() == 0,
    {
        PluginManager { plugins: Vec::new(), rx: router.subscribe() }
    }

    /// Register one more plugin.
    pub fn register(&mut self, plugin: P)
        ensures
            final(self).plugin_count() == old(self).plugin_count() + 1,
            final(self).cursor() == old(self).cursor(),
    {
        self.plugins.push(plugin);
    }

    /// Initialize every plugin, stopping at the first that refuses.
    pub fn init_all(&mut self) -> (r: Result<(), PluginError>)
        ensures
            final(self).plugin_count() == old(self).plugin_count(),
            final(self).cursor() == old(self).cursor(),
    {
        let mut i: usize = 0;
        while i < self.plugins.len()
            invariant
                i <= self.plugins@.len(),
                self.plugins@.len() == old(self).plugins@.len(),
                self.rx == old(self).rx,
            decreases self.plugins@.len() - i,
        {
            match self.plugins[i].on_init() {
                Ok(()) => {},
                Err(e) => {
                    return Err(e);
                },
            }
            i = i + 1;
        }
        Ok(())
    }

    /// Drain the feed: hand every pending event to every plugin — a
    /// plugin's error is skipped — and either catch up with the
    /// live end, or, when the feed is closed, shut every plugin down.
    /// The result says whether the feed ended.
    pub fn run(&mut self, chan: &EventChannel) -> (closed: bool)
        requires
            chan.inv(),
            old(self).cursor() <= chan.history().len(),
        ensures
            final(self).cursor() == chan.history().len(),
            final(self).plugin_count() == old(self).plugin_count(),
            closed == chan.is_closed(),
    {
        loop
            invariant
                chan.inv(),
                self.rx.next() <= chan.history().len(),
                self.plugins@.len() == old(self).plugins@.len(),
            decreases chan.history().len() - self.rx.next(),
        {
            match chan.recv(&mut self.rx) {
                RecvOutcome::Event(e) => {
                    let mut i: usize = 0;
                    while i < self.plugins.len()
                        invariant
                            i <= self.plugins@.len(),
                        decreases self.plugins@.len() - i,
                    {
                        let _ = self.plugins[i].on_event(&e);
                        i = i + 1;
                    }
                },
                RecvOutcome::Lagged(_) => {},
                RecvOutcome::Closed => {
                    let mut i: usize = 0;
                    while i < self.plugins.len()
                        invariant
                            i <= self.plugins@.len(),
                        decreases self.plugins@.len() - i,
                    {
                        let _ = self.plugins[i].on_shutdown();
                        i = i + 1;
                    }
                    return true;
                },
                RecvOutcome::Empty => {
                    return false;
                },
            }
        }
    }
}

} // verus!
