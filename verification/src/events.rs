//! The structured events the pipeline works with, and their extraction
//! from parsed log lines and todo snapshots.

use vstd::prelude::*;

use crate::json::{
    lookup, lookup_member, members_view, parse_object_array_text, parse_object_str,
    parse_object_text, JsonMember, JsonScalar, JsonValue,
};
use crate::strutil::str_eq;

verus! {

/// One parsed line of the event log: a task lifecycle event as the
/// external agent process wrote it.
pub struct TaskEvent {
    pub event_type: String,
    pub task_id: String,
    pub tool: Option<String>,
    pub description: Option<String>,
    pub session_id: Option<String>,
    pub timestamp: u64,
    pub background: Option<bool>,
    pub subagent_type: Option<String>,
    pub duration_ms: Option<u64>,
}

/// Mathematical model of a `TaskEvent`.
pub struct TaskEventModel {
    pub event_type: Seq<char>,
    pub task_id: Seq<char>,
    pub tool: Option<Seq<char>>,
    pub description: Option<Seq<char>>,
    pub session_id: Option<Seq<char>>,
    pub timestamp: u64,
    pub background: Option<bool>,
    pub subagent_type: Option<Seq<char>>,
    pub duration_ms: Option<u64>,
}

impl View for TaskEvent {
    type V = TaskEventModel;

    open spec fn view(&self) -> TaskEventModel {
        TaskEventModel {
            event_type: self.event_type@,
            task_id: self.task_id@,
            tool: self.tool.deep_view(),
            description: self.description.deep_view(),
            session_id: self.session_id.deep_view(),
            timestamp: self.timestamp,
            background: self.background,
            subagent_type: self.subagent_type.deep_view(),
            duration_ms: self.duration_ms,
        }
    }
}

/// Copy an optional string.
pub fn clone_opt_string(s: &Option<String>) -> (r: Option<String>)
    ensures
        r == *s,
{
    match s {
        Some(v) => Some(v.clone()),
        None => None,
    }
}

impl Clone for TaskEvent {
    fn clone(&self) -> (r: Self)
        ensures
            r == *self,
    {
        TaskEvent {
            event_type: self.event_type.clone(),
            task_id: self.task_id.clone(),
            tool: clone_opt_string(&self.tool),
            description: clone_opt_string(&self.description),
            session_id: clone_opt_string(&self.session_id),
            timestamp: self.timestamp,
            background: self.background,
            subagent_type: clone_opt_string(&self.subagent_type),
            duration_ms: self.duration_ms,
        }
    }
}

/// One entry of a per-session todo snapshot file.
pub struct TodoItem {
    pub content: String,
    pub status: String,
    pub active_form: String,
}

/// Mathematical model of a `TodoItem`.
pub struct TodoItemModel {
    pub content: Seq<char>,
    pub status: Seq<char>,
    pub active_form: Seq<char>,
}

impl View for TodoItem {
    type V = TodoItemModel;

    open spec fn view(&self) -> TodoItemModel {
        TodoItemModel { content: self.content@, status: self.status@, active_form: self.active_form@ }
    }
}

impl Clone for TodoItem {
    fn clone(&self) -> (r: Self)
        ensures
            r == *self,
    {
        TodoItem {
            content: self.content.clone(),
            status: self.status.clone(),
            active_form: self.active_form.clone(),
        }
    }
}

/// A todo entry tagged with the session that owns it, one element of the
/// aggregate view over all snapshot files.
pub struct GlobalTodoItem {
    pub content: String,
    pub status: String,
    pub active_form: String,
    pub session_id: String,
}

/// Mathematical model of a `GlobalTodoItem`.
pub struct GlobalTodoItemModel {
    pub content: Seq<char>,
    pub status: Seq<char>,
    pub active_form: Seq<char>,
    pub session_id: Seq<char>,
}

impl View for GlobalTodoItem {
    type V = GlobalTodoItemModel;

    open spec fn view(&self) -> GlobalTodoItemModel {
        GlobalTodoItemModel {
            content: self.content@,
            status: self.status@,
            active_form: self.active_form@,
            session_id: self.session_id@,
        }
    }
}

impl Clone for GlobalTodoItem {
    fn clone(&self) -> (r: Self)
        ensures
            r == *self,
    {
        GlobalTodoItem {
            content: self.content.clone(),
            status: self.status.clone(),
            active_form: self.active_form.clone(),
            session_id: self.session_id.clone(),
        }
    }
}

/// A download progress report.  The document on disk carries `percent` as
/// a decimal number; the pipeline holds it in hundredths of a percent so
/// the value stays an integer.
pub struct DownloadProgress {
    pub task_id: String,
    pub percent_hundredths: u64,
    pub speed: Option<String>,
    pub eta: Option<String>,
    pub timestamp: u64,
}

/// Mathematical model of a `DownloadProgress`.
pub struct DownloadProgressModel {
    pub task_id: Seq<char>,
    pub percent_hundredths: u64,
    pub speed: Option<Seq<char>>,
    pub eta: Option<Seq<char>>,
    pub timestamp: u64,
}

impl View for DownloadProgress {
    type V = DownloadProgressModel;

    open spec fn view(&self) -> DownloadProgressModel {
        DownloadProgressModel {
            task_id: self.task_id@,
            percent_hundredths: self.percent_hundredths,
            speed: self.speed.deep_view(),
            eta: self.eta.deep_view(),
            timestamp: self.timestamp,
        }
    }
}

impl Clone for DownloadProgress {
    fn clone(&self) -> (r: Self)
        ensures
            r == *self,
    {
        DownloadProgress {
            task_id: self.task_id.clone(),
            percent_hundredths: self.percent_hundredths,
            speed: clone_opt_string(&self.speed),
            eta: clone_opt_string(&self.eta),
            timestamp: self.timestamp,
        }
    }
}

/// An optional string field of an object: the outer `None` means the
/// member is there but is neither a string nor null, which makes the
/// whole object malformed; a missing or null member is an absent field.
pub open spec fn str_field(ms: Seq<(Seq<char>, JsonValue)>, key: Seq<char>) -> Option<
    Option<Seq<char>>,
> {
    match lookup(ms, key) {
        None => Some(None),
        Some(JsonValue::VNull) => Some(None),
        Some(JsonValue::VStr(s)) => Some(Some(s)),
        Some(_) => None,
    }
}

/// An optional boolean field, read as `str_field` reads strings.
pub open spec fn bool_field(ms: Seq<(Seq<char>, JsonValue)>, key: Seq<char>) -> Option<
    Option<bool>,
> {
    match lookup(ms, key) {
        None => Some(None),
        Some(JsonValue::VNull) => Some(None),
        Some(JsonValue::VBool(b)) => Some(Some(b)),
        Some(_) => None,
    }
}

/// An optional unsigned integer field, read as `str_field` reads strings.
pub open spec fn int_field(ms: Seq<(Seq<char>, JsonValue)>, key: Seq<char>) -> Option<
    Option<u64>,
> {
    match lookup(ms, key) {
        None => Some(None),
        Some(JsonValue::VNull) => Some(None),
        Some(JsonValue::VInt(n)) => Some(Some(n)),
        Some(_) => None,
    }
}

/// The task event an object's members describe.  `type` and `timestamp`
/// are required; `task_id` is required for every type but
/// `session_stopped`, where it defaults to empty; the rest are optional.
pub open spec fn event_of_members(ms: Seq<(Seq<char>, JsonValue)>) -> Option<TaskEventModel> {
    match lookup(ms, "type"@) {
        Some(JsonValue::VStr(ty)) => match lookup(ms, "timestamp"@) {
            Some(JsonValue::VInt(ts)) => match (
                str_field(ms, "task_id"@),
                str_field(ms, "tool"@),
                str_field(ms, "description"@),
                str_field(ms, "session_id"@),
                bool_field(ms, "background"@),
                str_field(ms, "subagent_type"@),
                int_field(ms, "duration_ms"@),
            ) {
                (Some(tid), Some(tool), Some(desc), Some(sid), Some(bg), Some(sub), Some(dur)) => {
                    if tid is None && ty != "session_stopped"@ {
                        None
                    } else {
                        Some(
                            TaskEventModel {
                                event_type: ty,
                                task_id: if tid is Some {
                                    tid->Some_0
                                } else {
                                    Seq::<char>::empty()
                                },
                                tool,
                                description: desc,
                                session_id: sid,
                                timestamp: ts,
                                background: bg,
                                subagent_type: sub,
                                duration_ms: dur,
                            },
                        )
                    }
                },
                _ => None,
            },
            _ => None,
        },
        _ => None,
    }
}

/// String field of the parsed members, as `str_field` says.
fn get_str_field(ms: &Vec<JsonMember>, key: &str) -> (r: Option<Option<String>>)
    ensures
        match r {
            Some(v) => str_field(members_view(ms@), key@) == Some(v.deep_view()),
            None => str_field(members_view(ms@), key@) is None,
        },
{
    match lookup_member(ms, key) {
        None => Some(None),
        Some(JsonScalar::Null) => Some(None),
        Some(JsonScalar::Str(s)) => Some(Some(s.clone())),
        Some(_) => None,
    }
}

/// Boolean field of the parsed members, as `bool_field` says.
fn get_bool_field(ms: &Vec<JsonMember>, key: &str) -> (r: Option<Option<bool>>)
    ensures
        match r {
            Some(v) => bool_field(members_view(ms@), key@) == Some(v),
            None => bool_field(members_view(ms@), key@) is None,
        },
{
    match lookup_member(ms, key) {
        None => Some(None),
        Some(JsonScalar::Null) => Some(None),
        Some(JsonScalar::Bool(b)) => Some(Some(*b)),
        Some(_) => None,
    }
}

/// Integer field of the parsed members, as `int_field` says.
fn get_int_field(ms: &Vec<JsonMember>, key: &str) -> (r: Option<Option<u64>>)
    ensures
        match r {
            Some(v) => int_field(members_view(ms@), key@) == Some(v),
            None => int_field(members_view(ms@), key@) is None,
        },
{
    match lookup_member(ms, key) {
        None => Some(None),
        Some(JsonScalar::Null) => Some(None),
        Some(JsonScalar::Int(n)) => Some(Some(*n)),
        Some(_) => None,
    }
}

/// Build the task event of parsed members, as `event_of_members` says.
fn event_from_members(ms: &Vec<JsonMember>) -> (r: Option<TaskEvent>)
    ensures
        match r {
            Some(e) => event_of_members(members_view(ms@)) == Some(e@),
            None => event_of_members(members_view(ms@)) is None,
        },
{
    let event_type: String = match lookup_member(ms, "type") {
        Some(JsonScalar::Str(s)) => s.clone(),
        _ => {
            return None;
        },
    };
    let timestamp: u64 = match lookup_member(ms, "timestamp") {
        Some(JsonScalar::Int(n)) => *n,
        _ => {
            return None;
        },
    };
    let tid = match get_str_field(ms, "task_id") {
        Some(v) => v,
        None => {
            return None;
        },
    };
    let tool = match get_str_field(ms, "tool") {
        Some(v) => v,
        None => {
            return None;
        },
    };
    let description = match get_str_field(ms, "description") {
        Some(v) => v,
        None => {
            return None;
        },
    };
    let session_id = match get_str_field(ms, "session_id") {
        Some(v) => v,
        None => {
            return None;
        },
    };
    let background = match get_bool_field(ms, "background") {
        Some(v) => v,
        None => {
            return None;
        },
    };
    let subagent_type = match get_str_field(ms, "subagent_type") {
        Some(v) => v,
        None => {
            return None;
        },
    };
    let duration_ms = match get_int_field(ms, "duration_ms") {
        Some(v) => v,
        None => {
            return None;
        },
    };
    let task_id: String = match tid {
        Some(t) => t,
        None => {
            if str_eq(event_type.as_str(), "session_stopped") {
                String::new()
            } else {
                return None;
            }
        },
    };
    Some(
        TaskEvent {
            event_type,
            task_id,
            tool,
            description,
            session_id,
            timestamp,
            background,
            subagent_type,
            duration_ms,
        },
    )
}

/// The task event one log line describes, or nothing when the line is
/// outside the grammar or misses a required field.
pub open spec fn parse_event_line(s: Seq<char>) -> Option<TaskEventModel> {
    match parse_object_text(s) {
        Some(ms) => event_of_members(ms),
        None => None,
    }
}

/// Parse one log line into a task event, as `parse_event_line` says:
/// `None` exactly on malformed lines, which callers skip.
pub fn parse_task_event(s: &str) -> (r: Option<TaskEvent>)
    ensures
        match r {
            Some(e) => parse_event_line(s@) == Some(e@),
            None => parse_event_line(s@) is None,
        },
{
    match parse_object_str(s) {
        Some(ms) => event_from_members(&ms),
        None => None,
    }
}

/// The todo entry an object's members describe; all three fields are
/// required strings.
pub open spec fn todo_of_members(ms: Seq<(Seq<char>, JsonValue)>) -> Option<TodoItemModel> {
    match (lookup(ms, "content"@), lookup(ms, "status"@), lookup(ms, "activeForm"@)) {
        (
            Some(JsonValue::VStr(content)),
            Some(JsonValue::VStr(status)),
            Some(JsonValue::VStr(active_form)),
        ) => Some(TodoItemModel { content, status, active_form }),
        _ => None,
    }
}

/// The todo entries of a parsed array, all of which must be well-formed
/// for the snapshot to count.
pub open spec fn todos_of_elements(es: Seq<Seq<(Seq<char>, JsonValue)>>) -> Option<
    Seq<TodoItemModel>,
>
    decreases es.len(),
{
    if es.len() == 0 {
        Some(Seq::<TodoItemModel>::empty())
    } else {
        match todo_of_members(es[0]) {
            Some(t) => match todos_of_elements(es.drop_first()) {
                Some(rest) => Some(seq![t] + rest),
                None => None,
            },
            None => None,
        }
    }
}

/// The todo list a snapshot file's text describes.
pub open spec fn parse_todo_text(s: Seq<char>) -> Option<Seq<TodoItemModel>> {
    match parse_object_array_text(s) {
        Some(es) => todos_of_elements(es),
        None => None,
    }
}

/// The models of a vector of todo items, in order.
pub open spec fn todos_view(ts: Seq<TodoItem>) -> Seq<TodoItemModel> {
    ts.map_values(|t: TodoItem| t@)
}

/// Build the todo entry of parsed members, as `todo_of_members` says.
fn todo_from_members(ms: &Vec<JsonMember>) -> (r: Option<TodoItem>)
    ensures
        match r {
            Some(t) => todo_of_members(members_view(ms@)) == Some(t@),
            None => todo_of_members(members_view(ms@)) is None,
        },
{
    let content: String = match lookup_member(ms, "content") {
        Some(JsonScalar::Str(s)) => s.clone(),
        _ => {
            return None;
        },
    };
    let status: String = match lookup_member(ms, "status") {
        Some(JsonScalar::Str(s)) => s.clone(),
        _ => {
            return None;
        },
    };
    let active_form: String = match lookup_member(ms, "activeForm") {
        Some(JsonScalar::Str(s)) => s.clone(),
        _ => {
            return None;
        },
    };
    Some(TodoItem { content, status, active_form })
}

/// Parse one todo snapshot file into its entries, as `parse_todo_text`
/// says: `None` exactly on files outside the grammar, which callers skip
/// whole.
pub fn parse_todo_file(s: &str) -> (r: Option<Vec<TodoItem>>)
    ensures
        match r {
            Some(ts) => parse_todo_text(s@) == Some(todos_view(ts@)),
            None => parse_todo_text(s@) is None,
        },
{
    let es = match crate::json::parse_object_array_str(s) {
        Some(es) => es,
        None => {
            return None;
        },
    };
    let ghost evs = crate::json::elements_view(es@);
    let mut out: Vec<TodoItem> = Vec::new();
    let mut i: usize = 0;
    proof {
        assert(evs.skip(0) =~= evs);
        if todos_of_elements(evs) is Some {
            assert(todos_view(out@) + todos_of_elements(evs)->Some_0 =~= todos_of_elements(
                evs,
            )->Some_0);
        }
    }
    while i < es.len()
        invariant
            i <= es@.len(),
            evs == crate::json::elements_view(es@),
            parse_object_array_text(s@) == Some(evs),
            todos_of_elements(evs) == (match todos_of_elements(evs.skip(i as int)) {
                Some(rest) => Some::<Seq<TodoItemModel>>(todos_view(out@) + rest),
                None => None::<Seq<TodoItemModel>>,
            }),
        decreases es@.len() - i,
    {
        proof {
            assert(evs[i as int] == members_view(es@[i as int]@));
            assert(evs.skip(i as int)[0] == evs[i as int]);
            assert(evs.skip(i as int).drop_first() =~= evs.skip(i + 1));
            assert(todos_of_elements(evs.skip(i as int)) == (match todo_of_members(
                evs[i as int],
            ) {
                Some(t) => match todos_of_elements(evs.skip(i + 1)) {
                    Some(rest) => Some::<Seq<TodoItemModel>>(seq![t] + rest),
                    None => None::<Seq<TodoItemModel>>,
                },
                None => None::<Seq<TodoItemModel>>,
            }));
        }
        let t = match todo_from_members(&es[i]) {
            Some(t) => t,
            None => {
                return None;
            },
        };
        let ghost prev = todos_view(out@);
        let ghost tm = t@;
        out.push(t);
        proof {
            assert(todos_view(out@) =~= prev + seq![tm]);
            if todos_of_elements(evs.skip(i + 1)) is Some {
                let rest = todos_of_elements(evs.skip(i + 1))->Some_0;
                assert((prev + seq![tm]) + rest =~= prev + (seq![tm] + rest));
            }
        }
        i = i + 1;
    }
    proof {
        assert(evs.skip(es@.len() as int) =~= Seq::<Seq<(Seq<char>, JsonValue)>>::empty());
        if todos_of_elements(evs) is Some {
            assert(todos_view(out@) + Seq::<TodoItemModel>::empty() =~= todos_view(out@));
        }
    }
    Some(out)
}

} // verus!
