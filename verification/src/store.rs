//! The in-memory history store: durable state of sessions and tasks with
//! search and aggregation, every operation a short synchronous unit of
//! work with an exact contract.

use vstd::prelude::*;
use vstd::string::StringExecFns;

use crate::events::clone_opt_string;
use crate::strutil::str_eq;

verus! {

/// One persisted task row.
pub struct StoredTask {
    pub id: String,
    pub session_id: String,
    pub tool: String,
    pub description: Option<String>,
    pub status: String,
    pub started_at: i64,
    pub ended_at: Option<i64>,
    pub duration_ms: Option<i64>,
    pub is_background: bool,
    pub subagent_type: Option<String>,
}

/// Mathematical model of a `StoredTask`.
pub struct StoredTaskModel {
    pub id: Seq<char>,
    pub session_id: Seq<char>,
    pub tool: Seq<char>,
    pub description: Option<Seq<char>>,
    pub status: Seq<char>,
    pub started_at: i64,
    pub ended_at: Option<i64>,
    pub duration_ms: Option<i64>,
    pub is_background: bool,
    pub subagent_type: Option<Seq<char>>,
}

impl View for StoredTask {
    type V = StoredTaskModel;

    open spec fn view(&self) -> StoredTaskModel {
        StoredTaskModel {
            id: self.id@,
            session_id: self.session_id@,
            tool: self.tool@,
            description: self.description.deep_view(),
            status: self.status@,
            started_at: self.started_at,
            ended_at: self.ended_at,
            duration_ms: self.duration_ms,
            is_background: self.is_background,
            subagent_type: self.subagent_type.deep_view(),
        }
    }
}

impl Clone for StoredTask {
    fn clone(&self) -> (r: Self)
        ensures
            r == *self,
    {
        StoredTask {
            id: self.id.clone(),
            session_id: self.session_id.clone(),
            tool: self.tool.clone(),
            description: clone_opt_string(&self.description),
            status: self.status.clone(),
            started_at: self.started_at,
            ended_at: self.ended_at,
            duration_ms: self.duration_ms,
            is_background: self.is_background,
            subagent_type: clone_opt_string(&self.subagent_type),
        }
    }
}

/// One persisted session row.
pub struct StoredSession {
    pub id: String,
    pub started_at: i64,
    pub ended_at: Option<i64>,
    pub project_path: Option<String>,
}

/// Mathematical model of a `StoredSession`.
pub struct StoredSessionModel {
    pub id: Seq<char>,
    pub started_at: i64,
    pub ended_at: Option<i64>,
    pub project_path: Option<Seq<char>>,
}

impl View for StoredSession {
    type V = StoredSessionModel;

    open spec fn view(&self) -> StoredSessionModel {
        StoredSessionModel {
            id: self.id@,
            started_at: self.started_at,
            ended_at: self.ended_at,
            project_path: self.project_path.deep_view(),
        }
    }
}

impl Clone for StoredSession {
    fn clone(&self) -> (r: Self)
        ensures
            r == *self,
    {
        StoredSession {
            id: self.id.clone(),
            started_at: self.started_at,
            ended_at: self.ended_at,
            project_path: clone_opt_string(&self.project_path),
        }
    }
}

/// One persisted todo row, for snapshots a consumer chooses to persist.
pub struct StoredTodo {
    pub id: i64,
    pub session_id: String,
    pub content: String,
    pub active_form: Option<String>,
    pub status: String,
    pub created_at: i64,
    pub updated_at: i64,
}

impl Clone for StoredTodo {
    fn clone(&self) -> (r: Self)
        ensures
            r == *self,
    {
        StoredTodo {
            id: self.id,
            session_id: self.session_id.clone(),
            content: self.content.clone(),
            active_form: clone_opt_string(&self.active_form),
            status: self.status.clone(),
            created_at: self.created_at,
            updated_at: self.updated_at,
        }
    }
}

/// What can go wrong inside the store.
#[derive(Debug)]
pub enum StoreError {
    ConnectionError(String),
    SchemaError(String),
    QueryError(String),
    IoError(String),
    LockError,
}

impl StoreError {
    /// The error spelled out for a reader.
    pub fn message(&self) -> (r: String)
        ensures
            match self {
                StoreError::ConnectionError(e) => r@ == "Database connection error: "@ + e@,
                StoreError::SchemaError(e) => r@ == "Schema error: "@ + e@,
                StoreError::QueryError(e) => r@ == "Query error: "@ + e@,
                StoreError::IoError(e) => r@ == "IO error: "@ + e@,
                StoreError::LockError => r@ == "Failed to acquire database lock"@,
            },
    {
        let mut m = String::new();
        match self {
            StoreError::ConnectionError(e) => {
                m.append("Database connection error: ");
                m.append(e.as_str());
            },
            StoreError::SchemaError(e) => {
                m.append("Schema error: ");
                m.append(e.as_str());
            },
            StoreError::QueryError(e) => {
                m.append("Query error: ");
                m.append(e.as_str());
            },
            StoreError::IoError(e) => {
                m.append("IO error: ");
                m.append(e.as_str());
            },
            StoreError::LockError => {
                m.append("Failed to acquire database lock");
                proof {
                    assert(Seq::<char>::empty() + "Failed to acquire database lock"@
                        =~= "Failed to acquire database lock"@);
                }
            },
        }
        m
    }
}

/// The statuses a task row may carry.
pub open spec fn valid_status(s: Seq<char>) -> bool {
    s == "active"@ || s == "completed"@ || s == "error"@ || s == "canceled"@
}

/// Whether `s` is an accepted task status, decided exactly as
/// `valid_status` says.
pub fn status_accepted(s: &str) -> (r: bool)
    ensures
        r == valid_status(s@),
{
    str_eq(s, "active") || str_eq(s, "completed") || str_eq(s, "error") || str_eq(s, "canceled")
}

/// A well-formed task row: an accepted status, and a duration that is the
/// span from start to end whenever both are recorded.
pub open spec fn task_wf(t: StoredTaskModel) -> bool {
    &&& valid_status(t.status)
    &&& (t.ended_at is Some && t.duration_ms is Some ==> t.duration_ms->Some_0 as int
        == t.ended_at->Some_0 - t.started_at)
    &&& (t.ended_at is Some <==> t.duration_ms is Some)
}

/// The position of the task row with this id, if any.
pub open spec fn task_index_from(tasks: Seq<StoredTaskModel>, id: Seq<char>, i: int) -> Option<
    int,
>
    decreases tasks.len() - i,
{
    if i < 0 || i >= tasks.len() {
        None
    } else if tasks[i].id == id {
        Some(i)
    } else {
        task_index_from(tasks, id, i + 1)
    }
}

/// The position of the first task row with this id, if any.
pub open spec fn task_index(tasks: Seq<StoredTaskModel>, id: Seq<char>) -> Option<int> {
    task_index_from(tasks, id, 0)
}

/// The position of the session row with this id, if any.
pub open spec fn session_index_from(
    sessions: Seq<StoredSessionModel>,
    id: Seq<char>,
    i: int,
) -> Option<int>
    decreases sessions.len() - i,
{
    if i < 0 || i >= sessions.len() {
        None
    } else if sessions[i].id == id {
        Some(i)
    } else {
        session_index_from(sessions, id, i + 1)
    }
}

/// The position of the first session row with this id, if any.
pub open spec fn session_index(sessions: Seq<StoredSessionModel>, id: Seq<char>) -> Option<int> {
    session_index_from(sessions, id, 0)
}

/// The in-memory history store.
pub struct EventStore {
    tasks: Vec<StoredTask>,
    sessions: Vec<StoredSession>,
}

impl EventStore {
    /// The task rows, oldest start time first; rows that share a start
    /// time stay in insertion order.
    pub closed spec fn tasks(&self) -> Seq<StoredTaskModel> {
        self.tasks@.map_values(|t: StoredTask| t@)
    }

    /// The session rows, in insertion order.
    pub closed spec fn sessions(&self) -> Seq<StoredSessionModel> {
        self.sessions@.map_values(|s: StoredSession| s@)
    }

    /// The store's invariant: task ids and session ids are unique, every
    /// task row is well-formed and references an existing session, and
    /// the rows are ordered by start time.
    pub open spec fn inv(&self) -> bool {
        &&& forall|i: int, j: int|
            0 <= i < j < self.tasks().len() ==> self.tasks()[i].id != self.tasks()[j].id
        &&& forall|i: int, j: int|
            0 <= i < j < self.sessions().len() ==> self.sessions()[i].id
                != self.sessions()[j].id
        &&& forall|i: int| 0 <= i < self.tasks().len() ==> task_wf(#[trigger] self.tasks()[i])
        &&& forall|i: int|
            0 <= i < self.tasks().len() ==> session_index(
                self.sessions(),
                (#[trigger] self.tasks()[i]).session_id,
            ) is Some
        &&& forall|i: int, j: int|
            0 <= i < j < self.tasks().len() ==> self.tasks()[i].started_at
                <= self.tasks()[j].started_at
    }

    /// An empty store, held in memory alone.
    pub fn in_memory() -> (r: Result<EventStore, StoreError>)
        ensures
            r matches Ok(s) && s.inv() && s.tasks() == Seq::<StoredTaskModel>::empty()
                && s.sessions() == Seq::<StoredSessionModel>::empty(),
    {
        let s = EventStore { tasks: Vec::new(), sessions: Vec::new() };
        proof {
            assert(s.tasks() =~= Seq::<StoredTaskModel>::empty());
            assert(s.sessions() =~= Seq::<StoredSessionModel>::empty());
        }
        Ok(s)
    }

    /// Position of the task row with this id, as `task_index` says.
    fn find_task(&self, id: &str) -> (r: Option<usize>)
        ensures
            match r {
                Some(i) => task_index(self.tasks(), id@) == Some(i as int) && i
                    < self.tasks().len(),
                None => task_index(self.tasks(), id@) is None,
            },
    {
        let mut i: usize = 0;
        while i < self.tasks.len()
            invariant
                i <= self.tasks@.len(),
                task_index(self.tasks(), id@) == task_index_from(self.tasks(), id@, i as int),
            decreases self.tasks@.len() - i,
        {
            proof {
                assert(self.tasks()[i as int] == self.tasks@[i as int]@);
            }
            if str_eq(self.tasks[i].id.as_str(), id) {
                return Some(i);
            }
            i = i + 1;
        }
        None
    }

    /// Position of the session row with this id, as `session_index` says.
    fn find_session(&self, id: &str) -> (r: Option<usize>)
        ensures
            match r {
                Some(i) => session_index(self.sessions(), id@) == Some(i as int) && i
                    < self.sessions().len(),
                None => session_index(self.sessions(), id@) is None,
            },
    {
        let mut i: usize = 0;
        while i < self.sessions.len()
            invariant
                i <= self.sessions@.len(),
                session_index(self.sessions(), id@) == session_index_from(
                    self.sessions(),
                    id@,
                    i as int,
                ),
            decreases self.sessions@.len() - i,
        {
            proof {
                assert(self.sessions()[i as int] == self.sessions@[i as int]@);
            }
            if str_eq(self.sessions[i].id.as_str(), id) {
                return Some(i);
            }
            i = i + 1;
        }
        None
    }

    /// Insert a session row, or merge into the existing one: a recorded
    /// end time or project path is never overwritten with nothing.
    pub fn upsert_session(&mut self, session: &StoredSession) -> (r: Result<(), StoreError>)
        requires
            old(self).inv(),
        ensures
            final(self).inv(),
            r is Ok,
            final(self).tasks() == old(self).tasks(),
            match session_index(old(self).sessions(), session@.id) {
                Some(i) => final(self).sessions() == old(self).sessions().update(
                    i,
                    merge_session(old(self).sessions()[i], session@),
                ),
                None => final(self).sessions() == old(self).sessions().push(session@),
            },
    {
        match self.find_session(session.id.as_str()) {
            Some(i) => {
                let ghost old_sessions = self.sessions();
                let ghost merged = merge_session(self.sessions()[i as int], session@);
                let row = &mut self.sessions[i];
                if session.ended_at.is_some() {
                    row.ended_at = session.ended_at;
                }
                if session.project_path.is_some() {
                    row.project_path = clone_opt_string(&session.project_path);
                }
                proof {
                    assert(self.sessions() =~= old_sessions.update(i as int, merged));
                    assert(self.tasks() =~= old(self).tasks());
                    assert forall|a: int|
                        0 <= a < self.tasks().len() implies session_index(
                        self.sessions(),
                        (#[trigger] self.tasks()[a]).session_id,
                    ) is Some by {
                        lemma_session_index_update_keeps(
                            old_sessions,
                            i as int,
                            merged,
                            self.tasks()[a].session_id,
                        );
                    }
                }
                Ok(())
            },
            None => {
                let ghost old_sessions = self.sessions();
                self.sessions.push(session.clone());
                proof {
                    lemma_session_index_none(old_sessions, session@.id, 0);
                    assert(self.sessions() =~= old_sessions.push(session@));
                    assert(self.tasks() =~= old(self).tasks());
                    assert forall|a: int|
                        0 <= a < self.tasks().len() implies session_index(
                        self.sessions(),
                        (#[trigger] self.tasks()[a]).session_id,
                    ) is Some by {
                        lemma_session_index_push_keeps(
                            old_sessions,
                            session@,
                            self.tasks()[a].session_id,
                        );
                    }
                }
                Ok(())
            },
        }
    }

    /// Read the session row with this id, if there is one.
    pub fn get_session(&self, id: &str) -> (r: Result<Option<StoredSession>, StoreError>)
        requires
            self.inv(),
        ensures
            match r {
                Ok(found) => match session_index(self.sessions(), id@) {
                    Some(i) => found matches Some(s) && s@ == self.sessions()[i],
                    None => found is None,
                },
                Err(_) => false,
            },
    {
        match self.find_session(id) {
            Some(i) => Ok(Some(self.sessions[i].clone())),
            None => Ok(None),
        }
    }
}

/// The sessions after a task insert made sure its session exists: the
/// rows as they were, or with a minimal new row for the missing id.
pub open spec fn ensure_session(
    sessions: Seq<StoredSessionModel>,
    id: Seq<char>,
    started_at: i64,
) -> Seq<StoredSessionModel> {
    if session_index(sessions, id) is Some {
        sessions
    } else {
        sessions.push(
            StoredSessionModel { id, started_at, ended_at: None, project_path: None },
        )
    }
}

/// Where a row with this start time is inserted: after every row that
/// starts no later, so rows sharing a start time keep insertion order.
pub open spec fn insert_pos_from(tasks: Seq<StoredTaskModel>, v: i64, i: int) -> int
    decreases tasks.len() - i,
{
    if i < 0 || i >= tasks.len() {
        tasks.len() as int
    } else if tasks[i].started_at > v {
        i
    } else {
        insert_pos_from(tasks, v, i + 1)
    }
}

/// The insertion position for start time `v`, as `insert_pos_from` says
/// from the front.
pub open spec fn insert_pos(tasks: Seq<StoredTaskModel>, v: i64) -> int {
    insert_pos_from(tasks, v, 0)
}

proof fn lemma_insert_pos_props(tasks: Seq<StoredTaskModel>, v: i64, i: int)
    requires
        0 <= i <= tasks.len(),
    ensures
        i <= insert_pos_from(tasks, v, i) <= tasks.len(),
        forall|k: int| i <= k < insert_pos_from(tasks, v, i) ==> tasks[k].started_at <= v,
        insert_pos_from(tasks, v, i) < tasks.len() ==> tasks[insert_pos_from(
            tasks,
            v,
            i,
        )].started_at > v,
    decreases tasks.len() - i,
{
    if i < tasks.len() && !(tasks[i].started_at > v) {
        lemma_insert_pos_props(tasks, v, i + 1);
    }
}

proof fn lemma_task_index_none(tasks: Seq<StoredTaskModel>, id: Seq<char>, i: int)
    requires
        0 <= i,
        task_index_from(tasks, id, i) is None,
    ensures
        forall|k: int| i <= k < tasks.len() ==> (#[trigger] tasks[k]).id != id,
    decreases tasks.len() - i,
{
    if i < tasks.len() {
        lemma_task_index_none(tasks, id, i + 1);
    }
}

proof fn lemma_session_index_finds_push(
    sessions: Seq<StoredSessionModel>,
    row: StoredSessionModel,
    i: int,
)
    requires
        0 <= i <= sessions.len(),
    ensures
        session_index_from(sessions.push(row), row.id, i) is Some,
    decreases sessions.len() - i,
{
    if i < sessions.len() && sessions[i].id != row.id {
        lemma_session_index_finds_push(sessions, row, i + 1);
    } else if i == sessions.len() {
        assert(sessions.push(row)[i] == row);
    }
}

/// A freshly inserted task row: as handed in, but with no end time and no
/// duration yet.
pub open spec fn inserted_task(t: StoredTaskModel) -> StoredTaskModel {
    StoredTaskModel { ended_at: None, duration_ms: None, ..t }
}

/// A task row brought to a terminal status at `ended_at`, its duration
/// recomputed as the span from its start.
pub open spec fn finished_task(
    t: StoredTaskModel,
    status: Seq<char>,
    ended_at: i64,
) -> StoredTaskModel {
    StoredTaskModel {
        status,
        ended_at: Some(ended_at),
        duration_ms: Some((ended_at - t.started_at) as i64),
        ..t
    }
}

impl EventStore {
    /// Insert a new task row, creating a minimal session row first when
    /// the referenced session is missing.  The insert is refused — with
    /// the session row kept — when the id is already taken or the status
    /// is not an accepted one.
    pub fn insert_task(&mut self, task: &StoredTask) -> (r: Result<(), StoreError>)
        requires
            old(self).inv(),
        ensures
            final(self).inv(),
            final(self).sessions() == ensure_session(
                old(self).sessions(),
                task@.session_id,
                task@.started_at,
            ),
            (if task_index(old(self).tasks(), task@.id) is None && valid_status(task@.status) {
                r is Ok && final(self).tasks() == old(self).tasks().insert(
                    insert_pos(old(self).tasks(), task@.started_at),
                    inserted_task(task@),
                )
            } else {
                r matches Err(StoreError::QueryError(_)) && final(self).tasks() == old(
                    self,
                ).tasks()
            }),
    {
        let ghost sessions0 = self.sessions();
        match self.find_session(task.session_id.as_str()) {
            Some(_) => {},
            None => {
                let row = StoredSession {
                    id: task.session_id.clone(),
                    started_at: task.started_at,
                    ended_at: None,
                    project_path: None,
                };
                self.sessions.push(row);
                proof {
                    lemma_session_index_none(sessions0, task@.session_id, 0);
                    assert(self.sessions() =~= sessions0.push(
                        StoredSessionModel {
                            id: task@.session_id,
                            started_at: task@.started_at,
                            ended_at: None,
                            project_path: None,
                        },
                    ));
                    assert(self.tasks() =~= old(self).tasks());
                    assert forall|a: int|
                        0 <= a < self.tasks().len() implies session_index(
                        self.sessions(),
                        (#[trigger] self.tasks()[a]).session_id,
                    ) is Some by {
                        lemma_session_index_keeps(
                            sessions0,
                            self.sessions(),
                            self.tasks()[a].session_id,
                            0,
                        );
                    }
                }
            },
        }
        proof {
            assert(self.tasks() =~= old(self).tasks());
        }
        if !status_accepted(task.status.as_str()) {
            return Err(
                StoreError::QueryError("CHECK constraint failed: tasks.status".to_owned()),
            );
        }
        match self.find_task(task.id.as_str()) {
            Some(_) => Err(StoreError::QueryError("UNIQUE constraint failed: tasks.id".to_owned())),
            None => {
                let ghost tasks0 = self.tasks();
                let mut p: usize = 0;
                while p < self.tasks.len() && self.tasks[p].started_at <= task.started_at
                    invariant
                        p <= self.tasks@.len(),
                        self.tasks() == tasks0,
                        insert_pos(tasks0, task@.started_at) == insert_pos_from(
                            tasks0,
                            task@.started_at,
                            p as int,
                        ),
                    decreases self.tasks@.len() - p,
                {
                    proof {
                        assert(self.tasks()[p as int] == self.tasks@[p as int]@);
                    }
                    p = p + 1;
                }
                proof {
                    assert(insert_pos(tasks0, task@.started_at) == p);
                }
                let row = StoredTask {
                    id: task.id.clone(),
                    session_id: task.session_id.clone(),
                    tool: task.tool.clone(),
                    description: clone_opt_string(&task.description),
                    status: task.status.clone(),
                    started_at: task.started_at,
                    ended_at: None,
                    duration_ms: None,
                    is_background: task.is_background,
                    subagent_type: clone_opt_string(&task.subagent_type),
                };
                let ghost sessions1 = self.sessions();
                self.tasks.insert(p, row);
                proof {
                    let new_row = inserted_task(task@);
                    assert(self.tasks() =~= tasks0.insert(p as int, new_row));
                    lemma_insert_pos_props(tasks0, task@.started_at, 0);
                    lemma_task_index_none(tasks0, task@.id, 0);
                    assert(self.sessions() == sessions1);
                    let new_tasks = self.tasks();
                    assert forall|a: int|
                        0 <= a < new_tasks.len() implies task_wf(#[trigger] new_tasks[a])
                        && session_index(self.sessions(), new_tasks[a].session_id) is Some by {
                        if a < p {
                            assert(new_tasks[a] == tasks0[a]);
                        } else if a == p {
                            assert(new_tasks[a] == new_row);
                            if session_index(sessions0, task@.session_id) is Some {
                                lemma_session_index_keeps(
                                    sessions0,
                                    self.sessions(),
                                    task@.session_id,
                                    0,
                                );
                            } else {
                                lemma_session_index_finds_push(
                                    sessions0,
                                    StoredSessionModel {
                                        id: task@.session_id,
                                        started_at: task@.started_at,
                                        ended_at: None,
                                        project_path: None,
                                    },
                                    0,
                                );
                            }
                        } else {
                            assert(new_tasks[a] == tasks0[a - 1]);
                        }
                    }
                    assert forall|a: int, b: int|
                        0 <= a < b < new_tasks.len() implies new_tasks[a].id != new_tasks[b].id
                        && new_tasks[a].started_at <= new_tasks[b].started_at by {
                        let x = if a < p {
                            a
                        } else {
                            a - 1
                        };
                        let y = if b < p {
                            b
                        } else {
                            b - 1
                        };
                        if a != p && b != p {
                            assert(new_tasks[a] == tasks0[x]);
                            assert(new_tasks[b] == tasks0[y]);
                        } else if a == p {
                            assert(new_tasks[a] == new_row);
                            assert(new_tasks[b] == tasks0[y]);
                        } else {
                            assert(new_tasks[a] == tasks0[x]);
                            assert(new_tasks[b] == new_row);
                        }
                    }
                }
                Ok(())
            },
        }
    }

    /// Bring the task row with this id to a terminal status, recording
    /// its end time and recomputing its duration.  A missing row makes
    /// the call a no-op; a status outside the accepted set, or a span
    /// that does not fit, is refused with nothing changed.
    pub fn update_task_status(&mut self, task_id: &str, status: &str, ended_at: i64) -> (r:
        Result<(), StoreError>)
        requires
            old(self).inv(),
        ensures
            final(self).inv(),
            final(self).sessions() == old(self).sessions(),
            match task_index(old(self).tasks(), task_id@) {
                None => r is Ok && final(self).tasks() == old(self).tasks(),
                Some(i) => {
                    if valid_status(status@) && i64::MIN <= ended_at - old(
                        self,
                    ).tasks()[i].started_at <= i64::MAX {
                        &&& r is Ok
                        &&& final(self).tasks() == old(self).tasks().update(
                            i,
                            finished_task(old(self).tasks()[i], status@, ended_at),
                        )
                    } else {
                        &&& r matches Err(StoreError::QueryError(_))
                        &&& final(self).tasks() == old(self).tasks()
                    }
                },
            },
    {
        let i = match self.find_task(task_id) {
            Some(i) => i,
            None => {
                return Ok(());
            },
        };
        if !status_accepted(status) {
            return Err(
                StoreError::QueryError("CHECK constraint failed: tasks.status".to_owned()),
            );
        }
        let ghost tasks0 = self.tasks();
        let ghost i_spec = i as int;
        let started = self.tasks[i].started_at;
        proof {
            assert(self.tasks()[i_spec] == self.tasks@[i_spec]@);
        }
        let d = match ended_at.checked_sub(started) {
            Some(d) => d,
            None => {
                return Err(StoreError::QueryError("integer overflow".to_owned()));
            },
        };
        let row = &mut self.tasks[i];
        row.status = status.to_owned();
        row.ended_at = Some(ended_at);
        row.duration_ms = Some(d);
        proof {
            let updated = finished_task(tasks0[i_spec], status@, ended_at);
            assert(self.tasks() =~= tasks0.update(i_spec, updated));
            assert(self.sessions() =~= old(self).sessions());
            assert forall|a: int|
                0 <= a < self.tasks().len() implies task_wf(#[trigger] self.tasks()[a])
                && session_index(self.sessions(), self.tasks()[a].session_id) is Some by {
                if a != i_spec {
                    assert(self.tasks()[a] == tasks0[a]);
                } else {
                    assert(self.tasks()[a] == updated);
                }
            }
        }
        Ok(())
    }

    /// Read the task row with this id, if there is one.
    pub fn get_task(&self, id: &str) -> (r: Result<Option<StoredTask>, StoreError>)
        requires
            self.inv(),
        ensures
            match r {
                Ok(found) => match task_index(self.tasks(), id@) {
                    Some(i) => found matches Some(t) && t@ == self.tasks()[i],
                    None => found is None,
                },
                Err(_) => false,
            },
    {
        match self.find_task(id) {
            Some(i) => {
                proof {
                    assert(self.tasks()[i as int] == self.tasks@[i as int]@);
                }
                Ok(Some(self.tasks[i].clone()))
            },
            None => Ok(None),
        }
    }
}

/// The models of a vector of task rows, in order.
pub open spec fn tasks_view(ts: Seq<StoredTask>) -> Seq<StoredTaskModel> {
    ts.map_values(|t: StoredTask| t@)
}

/// The newest `limit` rows, newest first.
pub open spec fn select_recent(tasks: Seq<StoredTaskModel>, limit: int) -> Seq<StoredTaskModel>
    decreases tasks.len(),
{
    if tasks.len() == 0 || limit <= 0 {
        Seq::<StoredTaskModel>::empty()
    } else {
        seq![tasks.last()] + select_recent(tasks.drop_last(), limit - 1)
    }
}

/// Every row of the session, newest first.
pub open spec fn select_by_session(
    tasks: Seq<StoredTaskModel>,
    sid: Seq<char>,
) -> Seq<StoredTaskModel>
    decreases tasks.len(),
{
    if tasks.len() == 0 {
        Seq::<StoredTaskModel>::empty()
    } else {
        (if tasks.last().session_id == sid {
            seq![tasks.last()]
        } else {
            Seq::<StoredTaskModel>::empty()
        }) + select_by_session(tasks.drop_last(), sid)
    }
}

/// A character that can stand inside a search token: an ASCII letter or
/// digit; everything else separates tokens.
pub open spec fn is_token_char(c: char) -> bool {
    ('0' <= c <= '9') || ('a' <= c <= 'z') || ('A' <= c <= 'Z')
}

/// The character's code with an ASCII capital folded to its small form.
pub open spec fn lower_code(c: char) -> int {
    if 'A' <= c <= 'Z' {
        c as int + 32
    } else {
        c as int
    }
}

/// Two tokens that are the same word up to ASCII case.
pub open spec fn token_eq_ci(a: Seq<char>, b: Seq<char>) -> bool {
    a.len() == b.len() && forall|i: int| 0 <= i < a.len() ==> lower_code(a[i]) == lower_code(b[i])
}

/// The position just past the token that starts at `i`.
pub open spec fn token_end(s: Seq<char>, i: int) -> int
    decreases s.len() - i,
{
    if !(0 <= i < s.len()) || !is_token_char(s[i]) {
        i
    } else {
        token_end(s, i + 1)
    }
}

/// The tokens of `s` at or after `i`, in order.
pub open spec fn tokens_from(s: Seq<char>, i: int) -> Seq<Seq<char>>
    decreases s.len() - i,
{
    if !(0 <= i < s.len()) {
        Seq::<Seq<char>>::empty()
    } else if !is_token_char(s[i]) {
        tokens_from(s, i + 1)
    } else {
        let e = token_end(s, i);
        if i < e <= s.len() {
            seq![s.subrange(i, e)] + tokens_from(s, e)
        } else {
            Seq::<Seq<char>>::empty()
        }
    }
}

/// All tokens of `s`: its maximal runs of token characters.
pub open spec fn tokenize(s: Seq<char>) -> Seq<Seq<char>> {
    tokens_from(s, 0)
}

/// The searchable tokens of a task row: those of its description, then
/// those of its tool name.
pub open spec fn text_tokens(t: StoredTaskModel) -> Seq<Seq<char>> {
    (match t.description {
        Some(d) => tokenize(d),
        None => Seq::<Seq<char>>::empty(),
    }) + tokenize(t.tool)
}

/// Whether some searchable token is this word, up to ASCII case.
pub open spec fn token_matches(tok: Seq<char>, toks: Seq<Seq<char>>) -> bool {
    exists|k: int| 0 <= k < toks.len() && token_eq_ci(tok, toks[k])
}

/// Whether a row matches a query: every query token occurs among the
/// row's searchable tokens, case-insensitively.
pub open spec fn matches_query(q: Seq<Seq<char>>, t: StoredTaskModel) -> bool {
    forall|k: int| 0 <= k < q.len() ==> token_matches(#[trigger] q[k], text_tokens(t))
}

/// The newest `limit` rows matching the query, newest first.
pub open spec fn select_search(
    tasks: Seq<StoredTaskModel>,
    q: Seq<Seq<char>>,
    limit: int,
) -> Seq<StoredTaskModel>
    decreases tasks.len(),
{
    if tasks.len() == 0 || limit <= 0 {
        Seq::<StoredTaskModel>::empty()
    } else if matches_query(q, tasks.last()) {
        seq![tasks.last()] + select_search(tasks.drop_last(), q, limit - 1)
    } else {
        select_search(tasks.drop_last(), q, limit)
    }
}

/// How many rows carry this status.
pub open spec fn count_status(tasks: Seq<StoredTaskModel>, status: Seq<char>) -> int
    decreases tasks.len(),
{
    if tasks.len() == 0 {
        0
    } else {
        count_status(tasks.drop_last(), status) + (if tasks.last().status == status {
            1int
        } else {
            0int
        })
    }
}

/// How many rows have a recorded duration.
pub open spec fn duration_count(tasks: Seq<StoredTaskModel>) -> int
    decreases tasks.len(),
{
    if tasks.len() == 0 {
        0
    } else {
        duration_count(tasks.drop_last()) + (if tasks.last().duration_ms is Some {
            1int
        } else {
            0int
        })
    }
}

/// The sum of the recorded durations.
pub open spec fn duration_sum(tasks: Seq<StoredTaskModel>) -> int
    decreases tasks.len(),
{
    if tasks.len() == 0 {
        0
    } else {
        duration_sum(tasks.drop_last()) + (match tasks.last().duration_ms {
            Some(d) => d as int,
            None => 0int,
        })
    }
}

/// The rows kept by a retention pass: everything still active, and
/// everything that started at or after the cutoff.
pub open spec fn retained_tasks(tasks: Seq<StoredTaskModel>, cutoff: i64) -> Seq<StoredTaskModel>
    decreases tasks.len(),
{
    if tasks.len() == 0 {
        Seq::<StoredTaskModel>::empty()
    } else {
        (if tasks[0].started_at < cutoff && tasks[0].status != "active"@ {
            Seq::<StoredTaskModel>::empty()
        } else {
            seq![tasks[0]]
        }) + retained_tasks(tasks.drop_first(), cutoff)
    }
}

/// Aggregate statistics over the stored tasks.  The mean duration is
/// carried exactly, as the sum of the recorded durations over their
/// count; no duration was recorded when the count is zero.
#[derive(Clone, Copy, Debug)]
pub struct TaskStats {
    pub total_tasks: u64,
    pub completed_tasks: u64,
    pub error_tasks: u64,
    pub duration_sum_ms: i128,
    pub duration_count: u64,
}

/// The session row after an upsert finds an existing one: the new end
/// time and project path where they are present, the old values where
/// they are not, the existing start time always.
pub open spec fn merge_session(
    old_row: StoredSessionModel,
    new_row: StoredSessionModel,
) -> StoredSessionModel {
    StoredSessionModel {
        id: old_row.id,
        started_at: old_row.started_at,
        ended_at: if new_row.ended_at is Some {
            new_row.ended_at
        } else {
            old_row.ended_at
        },
        project_path: if new_row.project_path is Some {
            new_row.project_path
        } else {
            old_row.project_path
        },
    }
}

/// The character's code with an ASCII capital folded, as `lower_code`
/// says.
fn lower_exec(c: char) -> (r: u32)
    ensures
        r == lower_code(c),
{
    if 'A' <= c && c <= 'Z' {
        (c as u32) + 32
    } else {
        c as u32
    }
}

/// Whether `c` can stand inside a token, as `is_token_char` says.
fn token_char(c: char) -> (r: bool)
    ensures
        r == is_token_char(c),
{
    ('0' <= c && c <= '9') || ('a' <= c && c <= 'z') || ('A' <= c && c <= 'Z')
}

/// Whether two tokens are the same word up to ASCII case, as
/// `token_eq_ci` says.
fn token_ci_eq(a: &Vec<char>, b: &Vec<char>) -> (r: bool)
    ensures
        r == token_eq_ci(a@, b@),
{
    if a.len() != b.len() {
        return false;
    }
    let mut i: usize = 0;
    while i < a.len()
        invariant
            a@.len() == b@.len(),
            i <= a@.len(),
            forall|k: int| 0 <= k < i ==> lower_code(a@[k]) == lower_code(b@[k]),
        decreases a@.len() - i,
    {
        if lower_exec(a[i]) != lower_exec(b[i]) {
            return false;
        }
        i = i + 1;
    }
    true
}

/// The views of a vector of tokens, in order.
pub open spec fn tokens_views(ts: Seq<Vec<char>>) -> Seq<Seq<char>> {
    ts.map_values(|v: Vec<char>| v@)
}

/// The tokens of `s`, as `tokenize` says.
fn tokenize_str(s: &str) -> (r: Vec<Vec<char>>)
    ensures
        tokens_views(r@) == tokenize(s@),
{
    let cs = crate::strutil::chars_of(s);
    let n: usize = cs.len();
    let mut out: Vec<Vec<char>> = Vec::new();
    let mut i: usize = 0;
    proof {
        assert(tokens_views(out@) + tokens_from(cs@, 0) =~= tokens_from(cs@, 0));
    }
    while i < n
        invariant
            n == cs@.len(),
            cs@ == s@,
            i <= n,
            tokens_from(cs@, 0) == tokens_views(out@) + tokens_from(cs@, i as int),
        decreases n - i,
    {
        if !token_char(cs[i]) {
            i = i + 1;
        } else {
            let mut j: usize = i;
            while j < n && token_char(cs[j])
                invariant
                    n == cs@.len(),
                    i <= j <= n,
                    token_end(cs@, i as int) == token_end(cs@, j as int),
                decreases n - j,
            {
                j = j + 1;
            }
            proof {
                assert(token_end(cs@, i as int) == j);
            }
            let tok = crate::strutil::subvec(&cs, i, j);
            let ghost prev = tokens_views(out@);
            let ghost tv = tok@;
            out.push(tok);
            proof {
                assert(tokens_views(out@) =~= prev + seq![tv]);
                assert((prev + seq![tv]) + tokens_from(cs@, j as int) =~= prev + (seq![tv]
                    + tokens_from(cs@, j as int)));
            }
            i = j;
        }
    }
    proof {
        assert(tokens_views(out@) + Seq::<Seq<char>>::empty() =~= tokens_views(out@));
    }
    out
}

/// Whether the row matches every query token, as `matches_query` says.
fn task_matches(q: &Vec<Vec<char>>, t: &StoredTask) -> (r: bool)
    ensures
        r == matches_query(tokens_views(q@), t@),
{
    let mut toks: Vec<Vec<char>> = match &t.description {
        Some(d) => tokenize_str(d.as_str()),
        None => Vec::new(),
    };
    let mut tool_toks = tokenize_str(t.tool.as_str());
    proof {
        if t.description is None {
            assert(tokens_views(toks@) =~= Seq::<Seq<char>>::empty());
        }
    }
    let ghost desc_part = tokens_views(toks@);
    toks.append(&mut tool_toks);
    proof {
        assert(tokens_views(toks@) =~= text_tokens(t@));
    }
    let mut k: usize = 0;
    while k < q.len()
        invariant
            k <= q@.len(),
            tokens_views(toks@) == text_tokens(t@),
            forall|m: int|
                0 <= m < k ==> token_matches(#[trigger] tokens_views(q@)[m], text_tokens(t@)),
        decreases q@.len() - k,
    {
        let mut found: bool = false;
        let mut j: usize = 0;
        while j < toks.len() && !found
            invariant
                j <= toks@.len(),
                k < q@.len(),
                tokens_views(toks@) == text_tokens(t@),
                found ==> token_matches(tokens_views(q@)[k as int], text_tokens(t@)),
                !found ==> forall|m: int|
                    0 <= m < j ==> !token_eq_ci(
                        tokens_views(q@)[k as int],
                        #[trigger] text_tokens(t@)[m],
                    ),
            decreases toks@.len() - j,
        {
            if token_ci_eq(&q[k], &toks[j]) {
                found = true;
                proof {
                    assert(tokens_views(q@)[k as int] == q@[k as int]@);
                    assert(text_tokens(t@)[j as int] == toks@[j as int]@);
                }
                j = j + 1;
            } else {
                proof {
                    assert(tokens_views(q@)[k as int] == q@[k as int]@);
                    assert(text_tokens(t@)[j as int] == toks@[j as int]@);
                }
                j = j + 1;
            }
        }
        if !found {
            proof {
                assert(!token_matches(tokens_views(q@)[k as int], text_tokens(t@)));
            }
            return false;
        }
        k = k + 1;
    }
    true
}

/// Relies on `std::time::SystemTime::now`: the wall clock's milliseconds
/// since the Unix epoch, clamped into `i64` and never negative.
#[verifier::external_body]
fn now_ms() -> (r: i64)
    ensures
        r >= 0,
{
    match std::time::SystemTime::now().duration_since(std::time::UNIX_EPOCH) {
        Ok(d) => d.as_millis().min(i64::MAX as u128) as i64,
        Err(_) => 0,
    }
}

proof fn lemma_retained_props(tasks: Seq<StoredTaskModel>, cutoff: i64)
    requires
        forall|i: int, j: int| 0 <= i < j < tasks.len() ==> tasks[i].id != tasks[j].id,
        forall|i: int, j: int|
            0 <= i < j < tasks.len() ==> tasks[i].started_at <= tasks[j].started_at,
    ensures
        retained_tasks(tasks, cutoff).len() <= tasks.len(),
        forall|k: int|
            0 <= k < retained_tasks(tasks, cutoff).len() ==> exists|j: int|
                0 <= j < tasks.len() && #[trigger] retained_tasks(tasks, cutoff)[k] == tasks[j],
        forall|a: int, b: int|
            0 <= a < b < retained_tasks(tasks, cutoff).len() ==> retained_tasks(
                tasks,
                cutoff,
            )[a].id != retained_tasks(tasks, cutoff)[b].id && retained_tasks(
                tasks,
                cutoff,
            )[a].started_at <= retained_tasks(tasks, cutoff)[b].started_at,
    decreases tasks.len(),
{
    if tasks.len() > 0 {
        let rest = tasks.drop_first();
        lemma_retained_props(rest, cutoff);
        let r = retained_tasks(tasks, cutoff);
        let rr = retained_tasks(rest, cutoff);
        assert forall|k: int|
            0 <= k < r.len() implies exists|j: int|
            0 <= j < tasks.len() && #[trigger] r[k] == tasks[j] by {
            if tasks[0].started_at < cutoff && tasks[0].status != "active"@ {
                let j = choose|j: int| 0 <= j < rest.len() && rr[k] == rest[j];
                assert(r[k] == rest[j]);
                assert(rest[j] == tasks[j + 1]);
            } else {
                if k == 0 {
                    assert(r[0] == tasks[0]);
                } else {
                    let j = choose|j: int| 0 <= j < rest.len() && rr[k - 1] == rest[j];
                    assert(r[k] == rest[j]);
                    assert(rest[j] == tasks[j + 1]);
                }
            }
        }
        assert forall|a: int, b: int|
            0 <= a < b < r.len() implies r[a].id != r[b].id && r[a].started_at
            <= r[b].started_at by {
            if tasks[0].started_at < cutoff && tasks[0].status != "active"@ {
                assert(r[a] == rr[a] && r[b] == rr[b]);
            } else {
                if a == 0 {
                    assert(r[0] == tasks[0]);
                    let j = choose|j: int| 0 <= j < rest.len() && rr[b - 1] == rest[j];
                    assert(r[b] == rest[j]);
                    assert(rest[j] == tasks[j + 1]);
                } else {
                    assert(r[a] == rr[a - 1] && r[b] == rr[b - 1]);
                }
            }
        }
    }
}

impl EventStore {
    /// Read the newest `limit` task rows, newest first; rows sharing a
    /// start time come newest-inserted first.
    pub fn get_recent_tasks(&self, limit: usize) -> (r: Result<Vec<StoredTask>, StoreError>)
        requires
            self.inv(),
        ensures
            r matches Ok(v) && tasks_view(v@) == select_recent(self.tasks(), limit as int),
    {
        let mut out: Vec<StoredTask> = Vec::new();
        let mut idx: usize = self.tasks.len();
        proof {
            assert(self.tasks().take(idx as int) =~= self.tasks());
            assert(tasks_view(out@) + select_recent(self.tasks(), limit as int) =~= select_recent(
                self.tasks(),
                limit as int,
            ));
        }
        while idx > 0 && out.len() < limit
            invariant
                idx <= self.tasks@.len(),
                out@.len() <= limit,
                select_recent(self.tasks(), limit as int) == tasks_view(out@) + select_recent(
                    self.tasks().take(idx as int),
                    limit - out@.len(),
                ),
            decreases idx,
        {
            idx = idx - 1;
            proof {
                assert(self.tasks().take(idx + 1).last() == self.tasks()[idx as int]);
                assert(self.tasks().take(idx + 1).drop_last() =~= self.tasks().take(idx as int));
                assert(self.tasks()[idx as int] == self.tasks@[idx as int]@);
            }
            let ghost prev = tasks_view(out@);
            let t = self.tasks[idx].clone();
            let ghost tm = t@;
            out.push(t);
            proof {
                assert(tasks_view(out@) =~= prev + seq![tm]);
                assert((prev + seq![tm]) + select_recent(
                    self.tasks().take(idx as int),
                    limit - out@.len(),
                ) =~= prev + (seq![tm] + select_recent(
                    self.tasks().take(idx as int),
                    limit - out@.len(),
                )));
            }
        }
        proof {
            if idx == 0 {
                assert(self.tasks().take(0) =~= Seq::<StoredTaskModel>::empty());
            }
            assert(select_recent(self.tasks().take(idx as int), limit - out@.len()) =~= Seq::<
                StoredTaskModel,
            >::empty());
            assert(tasks_view(out@) + Seq::<StoredTaskModel>::empty() =~= tasks_view(out@));
        }
        Ok(out)
    }

    /// Read every task row of the session, newest first.
    pub fn get_tasks_by_session(&self, session_id: &str) -> (r: Result<
        Vec<StoredTask>,
        StoreError,
    >)
        requires
            self.inv(),
        ensures
            r matches Ok(v) && tasks_view(v@) == select_by_session(self.tasks(), session_id@),
    {
        let mut out: Vec<StoredTask> = Vec::new();
        let mut idx: usize = self.tasks.len();
        proof {
            assert(self.tasks().take(idx as int) =~= self.tasks());
            assert(tasks_view(out@) + select_by_session(self.tasks(), session_id@)
                =~= select_by_session(self.tasks(), session_id@));
        }
        while idx > 0
            invariant
                idx <= self.tasks@.len(),
                select_by_session(self.tasks(), session_id@) == tasks_view(out@)
                    + select_by_session(self.tasks().take(idx as int), session_id@),
            decreases idx,
        {
            idx = idx - 1;
            proof {
                assert(self.tasks().take(idx + 1).last() == self.tasks()[idx as int]);
                assert(self.tasks().take(idx + 1).drop_last() =~= self.tasks().take(idx as int));
                assert(self.tasks()[idx as int] == self.tasks@[idx as int]@);
            }
            let ghost prev = tasks_view(out@);
            if str_eq(self.tasks[idx].session_id.as_str(), session_id) {
                let t = self.tasks[idx].clone();
                let ghost tm = t@;
                out.push(t);
                proof {
                    assert(tasks_view(out@) =~= prev + seq![tm]);
                    assert((prev + seq![tm]) + select_by_session(
                        self.tasks().take(idx as int),
                        session_id@,
                    ) =~= prev + (seq![tm] + select_by_session(
                        self.tasks().take(idx as int),
                        session_id@,
                    )));
                }
            } else {
                proof {
                    assert(prev + (Seq::<StoredTaskModel>::empty() + select_by_session(
                        self.tasks().take(idx as int),
                        session_id@,
                    )) =~= prev + select_by_session(self.tasks().take(idx as int), session_id@));
                }
            }
        }
        proof {
            assert(self.tasks().take(0) =~= Seq::<StoredTaskModel>::empty());
            assert(tasks_view(out@) + Seq::<StoredTaskModel>::empty() =~= tasks_view(out@));
        }
        Ok(out)
    }

    /// Search the task rows: the newest `limit` rows whose description or
    /// tool carries every token of the query, case-insensitively, newest
    /// first.  A query without a single token is refused.
    pub fn search_tasks(&self, query: &str, limit: usize) -> (r: Result<
        Vec<StoredTask>,
        StoreError,
    >)
        requires
            self.inv(),
        ensures
            (if tokenize(query@).len() == 0 {
                r matches Err(StoreError::QueryError(_))
            } else {
                r matches Ok(v) && tasks_view(v@) == select_search(
                    self.tasks(),
                    tokenize(query@),
                    limit as int,
                )
            }),
    {
        let q = tokenize_str(query);
        let ghost qv = tokenize(query@);
        if q.len() == 0 {
            return Err(StoreError::QueryError("malformed MATCH expression".to_owned()));
        }
        let mut out: Vec<StoredTask> = Vec::new();
        let mut idx: usize = self.tasks.len();
        proof {
            assert(self.tasks().take(idx as int) =~= self.tasks());
            assert(tasks_view(out@) + select_search(self.tasks(), qv, limit as int)
                =~= select_search(self.tasks(), qv, limit as int));
        }
        while idx > 0 && out.len() < limit
            invariant
                idx <= self.tasks@.len(),
                out@.len() <= limit,
                qv == tokens_views(q@),
                select_search(self.tasks(), qv, limit as int) == tasks_view(out@) + select_search(
                    self.tasks().take(idx as int),
                    qv,
                    limit - out@.len(),
                ),
            decreases idx,
        {
            idx = idx - 1;
            proof {
                assert(self.tasks().take(idx + 1).last() == self.tasks()[idx as int]);
                assert(self.tasks().take(idx + 1).drop_last() =~= self.tasks().take(idx as int));
                assert(self.tasks()[idx as int] == self.tasks@[idx as int]@);
            }
            let ghost prev = tasks_view(out@);
            if task_matches(&q, &self.tasks[idx]) {
                let t = self.tasks[idx].clone();
                let ghost tm = t@;
                out.push(t);
                proof {
                    assert(tasks_view(out@) =~= prev + seq![tm]);
                    assert((prev + seq![tm]) + select_search(
                        self.tasks().take(idx as int),
                        qv,
                        limit - out@.len(),
                    ) =~= prev + (seq![tm] + select_search(
                        self.tasks().take(idx as int),
                        qv,
                        limit - out@.len(),
                    )));
                }
            }
        }
        proof {
            if idx == 0 {
                assert(self.tasks().take(0) =~= Seq::<StoredTaskModel>::empty());
            }
            assert(select_search(self.tasks().take(idx as int), qv, limit - out@.len()) =~= Seq::<
                StoredTaskModel,
            >::empty());
            assert(tasks_view(out@) + Seq::<StoredTaskModel>::empty() =~= tasks_view(out@));
        }
        Ok(out)
    }

    /// Count the rows still active.
    pub fn get_active_task_count(&self) -> (r: Result<u64, StoreError>)
        requires
            self.inv(),
        ensures
            r matches Ok(c) && c as int == count_status(self.tasks(), "active"@),
    {
        let mut count: u64 = 0;
        let mut idx: usize = self.tasks.len();
        proof {
            assert(self.tasks().take(idx as int) =~= self.tasks());
        }
        while idx > 0
            invariant
                idx <= self.tasks@.len(),
                self.tasks@.len() <= usize::MAX,
                count <= self.tasks@.len() - idx,
                count + count_status(self.tasks().take(idx as int), "active"@) == count_status(
                    self.tasks(),
                    "active"@,
                ),
            decreases idx,
        {
            idx = idx - 1;
            proof {
                assert(self.tasks().take(idx + 1).last() == self.tasks()[idx as int]);
                assert(self.tasks().take(idx + 1).drop_last() =~= self.tasks().take(idx as int));
                assert(self.tasks()[idx as int] == self.tasks@[idx as int]@);
            }
            if str_eq(self.tasks[idx].status.as_str(), "active") {
                count = count + 1;
            }
        }
        proof {
            assert(self.tasks().take(0) =~= Seq::<StoredTaskModel>::empty());
        }
        Ok(count)
    }

    /// Aggregate statistics: the row count, the counts by terminal
    /// status, and the sum and count of the recorded durations, which
    /// carry the mean exactly.
    pub fn get_task_stats(&self) -> (r: Result<TaskStats, StoreError>)
        requires
            self.inv(),
        ensures
            r matches Ok(s) && s.total_tasks == self.tasks().len() && s.completed_tasks as int
                == count_status(self.tasks(), "completed"@) && s.error_tasks as int
                == count_status(self.tasks(), "error"@) && s.duration_sum_ms as int
                == duration_sum(self.tasks()) && s.duration_count as int == duration_count(
                self.tasks(),
            ),
    {
        let total: u64 = self.tasks.len() as u64;
        let mut completed: u64 = 0;
        let mut errors: u64 = 0;
        let mut dcount: u64 = 0;
        let mut dsum: i128 = 0;
        let mut idx: usize = self.tasks.len();
        let ghost half = 0x8000_0000_0000_0000int;
        proof {
            assert(self.tasks().take(idx as int) =~= self.tasks());
        }
        while idx > 0
            invariant
                idx <= self.tasks@.len(),
                self.tasks@.len() <= usize::MAX,
                completed <= self.tasks@.len() - idx,
                errors <= self.tasks@.len() - idx,
                dcount <= self.tasks@.len() - idx,
                half == 0x8000_0000_0000_0000int,
                -((self.tasks@.len() - idx) * half) <= dsum as int <= (self.tasks@.len() - idx)
                    * half,
                completed + count_status(self.tasks().take(idx as int), "completed"@)
                    == count_status(self.tasks(), "completed"@),
                errors + count_status(self.tasks().take(idx as int), "error"@) == count_status(
                    self.tasks(),
                    "error"@,
                ),
                dcount + duration_count(self.tasks().take(idx as int)) == duration_count(
                    self.tasks(),
                ),
                dsum + duration_sum(self.tasks().take(idx as int)) == duration_sum(self.tasks()),
            decreases idx,
        {
            idx = idx - 1;
            proof {
                assert(self.tasks().take(idx + 1).last() == self.tasks()[idx as int]);
                assert(self.tasks().take(idx + 1).drop_last() =~= self.tasks().take(idx as int));
                assert(self.tasks()[idx as int] == self.tasks@[idx as int]@);
            }
            let ghost before = self.tasks@.len() - idx - 1;
            if str_eq(self.tasks[idx].status.as_str(), "completed") {
                completed = completed + 1;
            }
            if str_eq(self.tasks[idx].status.as_str(), "error") {
                errors = errors + 1;
            }
            match self.tasks[idx].duration_ms {
                Some(d) => {
                    dcount = dcount + 1;
                    proof {
                        assert((before + 1) * half == before * half + half) by (nonlinear_arith);
                        assert(before * half <= 0xFFFF_FFFF_FFFF_FFFFint * half) by (
                        nonlinear_arith)
                            requires
                                0 <= before <= 0xFFFF_FFFF_FFFF_FFFFint,
                                half > 0,
                        ;
                        assert(-(0xFFFF_FFFF_FFFF_FFFFint * half) <= -(before * half)) by (
                        nonlinear_arith)
                            requires
                                0 <= before <= 0xFFFF_FFFF_FFFF_FFFFint,
                                half > 0,
                        ;
                    }
                    dsum = dsum + (d as i128);
                },
                None => {},
            }
        }
        proof {
            assert(self.tasks().take(0) =~= Seq::<StoredTaskModel>::empty());
        }
        Ok(
            TaskStats {
                total_tasks: total,
                completed_tasks: completed,
                error_tasks: errors,
                duration_sum_ms: dsum,
                duration_count: dcount,
            },
        )
    }

    /// Delete every row that started before `cutoff_ms` and is no longer
    /// active; how many rows left.
    pub fn cleanup_tasks_before(&mut self, cutoff_ms: i64) -> (deleted: u64)
        requires
            old(self).inv(),
        ensures
            final(self).inv(),
            final(self).sessions() == old(self).sessions(),
            final(self).tasks() == retained_tasks(old(self).tasks(), cutoff_ms),
            deleted as int == old(self).tasks().len() - final(self).tasks().len(),
    {
        proof {
            reveal_strlit("active");
        }
        let ghost tasks0 = self.tasks();
        let mut kept: Vec<StoredTask> = Vec::new();
        let mut i: usize = 0;
        proof {
            assert(tasks0.skip(0) =~= tasks0);
            assert(tasks_view(kept@) + retained_tasks(tasks0, cutoff_ms) =~= retained_tasks(
                tasks0,
                cutoff_ms,
            ));
        }
        while i < self.tasks.len()
            invariant
                i <= self.tasks@.len(),
                tasks0 == self.tasks(),
                kept@.len() <= i,
                retained_tasks(tasks0, cutoff_ms) == tasks_view(kept@) + retained_tasks(
                    tasks0.skip(i as int),
                    cutoff_ms,
                ),
            decreases self.tasks@.len() - i,
        {
            proof {
                assert(tasks0.skip(i as int)[0] == tasks0[i as int]);
                assert(tasks0.skip(i as int).drop_first() =~= tasks0.skip(i + 1));
                assert(self.tasks()[i as int] == self.tasks@[i as int]@);
            }
            let ghost prev = tasks_view(kept@);
            let drop = self.tasks[i].started_at < cutoff_ms && !str_eq(
                self.tasks[i].status.as_str(),
                "active",
            );
            if !drop {
                let t = self.tasks[i].clone();
                let ghost tm = t@;
                kept.push(t);
                proof {
                    assert(tasks_view(kept@) =~= prev + seq![tm]);
                    assert((prev + seq![tm]) + retained_tasks(tasks0.skip(i + 1), cutoff_ms) =~=
                    prev + (seq![tm] + retained_tasks(tasks0.skip(i + 1), cutoff_ms)));
                }
            } else {
                proof {
                    assert(prev + (Seq::<StoredTaskModel>::empty() + retained_tasks(
                        tasks0.skip(i + 1),
                        cutoff_ms,
                    )) =~= prev + retained_tasks(tasks0.skip(i + 1), cutoff_ms));
                }
            }
            i = i + 1;
        }
        proof {
            assert(tasks0.skip(tasks0.len() as int) =~= Seq::<StoredTaskModel>::empty());
            assert(tasks_view(kept@) + Seq::<StoredTaskModel>::empty() =~= tasks_view(kept@));
        }
        let deleted: usize = self.tasks.len() - kept.len();
        self.tasks = kept;
        proof {
            assert(self.tasks() == retained_tasks(tasks0, cutoff_ms));
            assert(self.sessions() =~= old(self).sessions());
            lemma_retained_props(tasks0, cutoff_ms);
            let r = retained_tasks(tasks0, cutoff_ms);
            assert forall|k: int|
                0 <= k < r.len() implies task_wf(#[trigger] r[k]) && session_index(
                self.sessions(),
                r[k].session_id,
            ) is Some by {
                let j = choose|j: int| 0 <= j < tasks0.len() && r[k] == tasks0[j];
                assert(task_wf(tasks0[j]));
            }
        }
        deleted as u64
    }

    /// Delete every non-active row older than `days_to_keep` days, the
    /// age taken against the wall clock; how many rows left.  What was
    /// deleted is exact for the cutoff the clock gave: every surviving
    /// row is either active or started at or after it.
    pub fn cleanup_old_tasks(&mut self, days_to_keep: i64) -> (r: Result<u64, StoreError>)
        requires
            old(self).inv(),
            0 <= days_to_keep,
            days_to_keep * 86400000 <= i64::MAX,
        ensures
            final(self).inv(),
            final(self).sessions() == old(self).sessions(),
            r matches Ok(n) && exists|cutoff: i64|
                final(self).tasks() == retained_tasks(old(self).tasks(), cutoff) && n as int
                    == old(self).tasks().len() - final(self).tasks().len(),
    {
        let now = now_ms();
        let keep_ms = days_to_keep * 86400000;
        let cutoff = now - keep_ms;
        let deleted = self.cleanup_tasks_before(cutoff);
        proof {
            let c = cutoff;
            assert(final(self).tasks() == retained_tasks(old(self).tasks(), c));
        }
        Ok(deleted)
    }
}

proof fn lemma_task_index_insert_from(
    tasks: Seq<StoredTaskModel>,
    row: StoredTaskModel,
    p: int,
    i: int,
)
    requires
        0 <= i <= p <= tasks.len(),
        forall|k: int| 0 <= k < tasks.len() ==> (#[trigger] tasks[k]).id != row.id,
    ensures
        task_index_from(tasks.insert(p, row), row.id, i) == Some(p),
    decreases p - i,
{
    if i < p {
        assert(tasks.insert(p, row)[i] == tasks[i]);
        lemma_task_index_insert_from(tasks, row, p, i + 1);
    } else {
        assert(tasks.insert(p, row)[p] == row);
    }
}

/// Law: inserting a task and then bringing it to `completed` at `ended`
/// reads back as one row with status `completed`, end time `ended`, and
/// duration exactly `ended` minus its start — the round trip through
/// `insert_task`, `update_task_status` and `get_task`, written over the
/// effects their contracts name.
pub proof fn lemma_task_round_trip(tasks: Seq<StoredTaskModel>, t: StoredTaskModel, ended: i64)
    requires
        forall|k: int| 0 <= k < tasks.len() ==> (#[trigger] tasks[k]).id != t.id,
        i64::MIN <= ended - t.started_at <= i64::MAX,
    ensures
        ({
            let p = insert_pos(tasks, t.started_at);
            let tasks1 = tasks.insert(p, inserted_task(t));
            let tasks2 = tasks1.update(p, finished_task(tasks1[p], "completed"@, ended));
            &&& task_index(tasks1, t.id) == Some(p)
            &&& task_index(tasks2, t.id) == Some(p)
            &&& tasks2[p].id == t.id
            &&& tasks2[p].status == "completed"@
            &&& tasks2[p].ended_at == Some(ended)
            &&& tasks2[p].duration_ms == Some((ended - t.started_at) as i64)
        }),
{
    let p = insert_pos(tasks, t.started_at);
    lemma_insert_pos_props(tasks, t.started_at, 0);
    let row = inserted_task(t);
    let tasks1 = tasks.insert(p, row);
    lemma_task_index_insert_from(tasks, row, p, 0);
    let done = finished_task(tasks1[p], "completed"@, ended);
    let tasks2 = tasks1.update(p, done);
    assert(tasks2 =~= tasks.insert(p, done));
    lemma_task_index_insert_from(tasks, done, p, 0);
}

proof fn lemma_session_index_none(sessions: Seq<StoredSessionModel>, id: Seq<char>, i: int)
    requires
        0 <= i,
        session_index_from(sessions, id, i) is None,
    ensures
        forall|k: int| i <= k < sessions.len() ==> (#[trigger] sessions[k]).id != id,
    decreases sessions.len() - i,
{
    if i < sessions.len() {
        lemma_session_index_none(sessions, id, i + 1);
    }
}

proof fn lemma_session_index_keeps(
    sessions: Seq<StoredSessionModel>,
    updated: Seq<StoredSessionModel>,
    id: Seq<char>,
    i: int,
)
    requires
        0 <= i <= sessions.len(),
        updated.len() >= sessions.len(),
        forall|k: int| 0 <= k < sessions.len() ==> (#[trigger] updated[k]).id == sessions[k].id,
        session_index_from(sessions, id, i) is Some,
    ensures
        session_index_from(updated, id, i) is Some,
    decreases sessions.len() - i,
{
    if i < sessions.len() && sessions[i].id != id {
        lemma_session_index_keeps(sessions, updated, id, i + 1);
    }
}

proof fn lemma_session_index_update_keeps(
    sessions: Seq<StoredSessionModel>,
    at: int,
    row: StoredSessionModel,
    id: Seq<char>,
)
    requires
        0 <= at < sessions.len(),
        row.id == sessions[at].id,
        session_index(sessions, id) is Some,
    ensures
        session_index(sessions.update(at, row), id) is Some,
{
    lemma_session_index_keeps(sessions, sessions.update(at, row), id, 0);
}

proof fn lemma_session_index_push_keeps(
    sessions: Seq<StoredSessionModel>,
    row: StoredSessionModel,
    id: Seq<char>,
)
    requires
        session_index(sessions, id) is Some,
    ensures
        session_index(sessions.push(row), id) is Some,
{
    lemma_session_index_keeps(sessions, sessions.push(row), id, 0);
}

} // verus!
