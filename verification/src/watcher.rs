//! Incremental tailing of the append-only event log, and the snapshot
//! scans of the todo directory.
//!
//! The tailer owns the `(offset, size)` bookkeeping per watched log.  The
//! surrounding process observes a change, reads the bytes from the offset
//! the tailer names to the end of the file, and hands them back; the
//! tailer consumes whole newline-terminated lines, defers a trailing
//! partial line to the next change, and never re-reads consumed bytes.

use vstd::prelude::*;
use vstd::string::StringExecFns;
use vstd::utf8::{decode_utf8, valid_utf8};

use crate::events::{
    parse_event_line, parse_task_event, parse_todo_text, GlobalTodoItem, GlobalTodoItemModel,
    TaskEvent, TaskEventModel, TodoItemModel,
};
use crate::strutil::{ends_with, file_name_start, find_from, str_eq};

verus! {

/// Relies on `String::from_utf8`: it returns `Ok` exactly on valid UTF-8
/// input, and the returned string holds the decoding of those bytes.
#[verifier::external_body]
fn string_from_utf8(v: Vec<u8>) -> (r: Option<String>)
    ensures
        r is Some <==> valid_utf8(v@),
        r is Some ==> r->Some_0@ == decode_utf8(v@),
{
    String::from_utf8(v).ok()
}

/// Offset bookkeeping for one tailed log file.
pub struct FileState {
    /// The position in the file up to which lines have been consumed.
    pub last_position: u64,
    /// The file size seen at the last observation, for spotting
    /// truncation.
    pub last_size: u64,
}

/// The models of a vector of task events, in order.
pub open spec fn events_view(es: Seq<TaskEvent>) -> Seq<TaskEventModel> {
    es.map_values(|e: TaskEvent| e@)
}

/// The first newline at or after `i`.
pub open spec fn first_nl_from(b: Seq<u8>, i: int) -> Option<int>
    decreases b.len() - i,
{
    if i < 0 || i >= b.len() {
        None
    } else if b[i] == 10 {
        Some(i)
    } else {
        first_nl_from(b, i + 1)
    }
}

proof fn lemma_first_nl_found(b: Seq<u8>, i: int, k: int)
    requires
        0 <= i <= k < b.len(),
        b[k] == 10,
        forall|t: int| i <= t < k ==> b[t] != 10,
    ensures
        first_nl_from(b, i) == Some(k),
    decreases k - i,
{
    if i < k {
        lemma_first_nl_found(b, i + 1, k);
    }
}

proof fn lemma_first_nl_none(b: Seq<u8>, i: int)
    requires
        0 <= i,
        forall|t: int| i <= t < b.len() ==> b[t] != 10,
    ensures
        first_nl_from(b, i) is None,
    decreases b.len() - i,
{
    if i < b.len() {
        lemma_first_nl_none(b, i + 1);
    }
}

/// The position after the last complete line at or after `i`: everything
/// up to and including the last newline is consumed, a trailing partial
/// line is not.
pub open spec fn consumed_from(b: Seq<u8>, i: int) -> int
    decreases b.len() - i,
{
    match first_nl_from(b, i) {
        Some(k) => {
            if i <= k < b.len() {
                consumed_from(b, k + 1)
            } else {
                i
            }
        },
        None => i,
    }
}

proof fn lemma_consumed_bounds(b: Seq<u8>, i: int)
    requires
        0 <= i <= b.len(),
    ensures
        i <= consumed_from(b, i) <= b.len(),
    decreases b.len() - i,
{
    match first_nl_from(b, i) {
        Some(k) => {
            if i <= k < b.len() {
                lemma_consumed_bounds(b, k + 1);
            }
        },
        None => {},
    }
}

proof fn lemma_first_nl_range(b: Seq<u8>, i: int)
    requires
        0 <= i,
    ensures
        first_nl_from(b, i) matches Some(k) ==> i <= k < b.len() && b[k] == 10,
    decreases b.len() - i,
{
    if i < b.len() && b[i] != 10 {
        lemma_first_nl_range(b, i + 1);
    }
}

proof fn lemma_no_nl_after_consumed(b: Seq<u8>, i: int)
    requires
        0 <= i <= b.len(),
    ensures
        forall|t: int| consumed_from(b, i) <= t < b.len() ==> b[t] != 10,
    decreases b.len() - i,
{
    lemma_first_nl_range(b, i);
    match first_nl_from(b, i) {
        Some(k) => {
            if i <= k < b.len() {
                lemma_no_nl_after_consumed(b, k + 1);
            }
        },
        None => {
            assert forall|t: int| consumed_from(b, i) <= t < b.len() implies b[t] != 10 by {
                if b[t] == 10 {
                    lemma_first_nl_at(b, i, t);
                }
            }
        },
    }
}

proof fn lemma_first_nl_at(b: Seq<u8>, i: int, t: int)
    requires
        0 <= i <= t < b.len(),
        b[t] == 10,
    ensures
        first_nl_from(b, i) is Some,
    decreases t - i,
{
    if i < t && b[i] != 10 {
        lemma_first_nl_at(b, i + 1, t);
    }
}

/// The events of one newline-terminated line: the parsed event of its
/// decoded text, or nothing when the bytes are not UTF-8 or the text is
/// not a well-formed event.
pub open spec fn line_events(line: Seq<u8>) -> Seq<TaskEventModel> {
    if valid_utf8(line) {
        match parse_event_line(decode_utf8(line)) {
            Some(e) => seq![e],
            None => Seq::<TaskEventModel>::empty(),
        }
    } else {
        Seq::<TaskEventModel>::empty()
    }
}

/// The events of all complete lines at or after `i`, in file order.
pub open spec fn events_from(b: Seq<u8>, i: int) -> Seq<TaskEventModel>
    decreases b.len() - i,
{
    match first_nl_from(b, i) {
        Some(k) => {
            if i <= k < b.len() {
                line_events(b.subrange(i, k)) + events_from(b, k + 1)
            } else {
                Seq::<TaskEventModel>::empty()
            }
        },
        None => Seq::<TaskEventModel>::empty(),
    }
}

/// The events of all complete lines of a freshly read chunk.
pub open spec fn chunk_events(b: Seq<u8>) -> Seq<TaskEventModel> {
    events_from(b, 0)
}

/// How many leading bytes of a freshly read chunk are consumed: up to and
/// including its last newline.
pub open spec fn chunk_consumed(b: Seq<u8>) -> int {
    consumed_from(b, 0)
}

/// Where a read must start for the observed size: at the beginning again
/// after truncation, else at the consumed position.
pub open spec fn tail_start(st: FileState, current_size: u64) -> u64 {
    if current_size < st.last_size {
        0
    } else {
        st.last_position
    }
}

impl FileState {
    /// Bookkeeping for a log whose current end is `initial_size`: tailing
    /// starts there, so pre-existing history is never replayed.
    pub fn start_at_end(initial_size: u64) -> (st: FileState)
        ensures
            st.last_position == initial_size,
            st.last_size == initial_size,
    {
        FileState { last_position: initial_size, last_size: initial_size }
    }

    /// Take note of the observed file size.  The result names the
    /// position from which the caller should read to end of file, and is
    /// `None` when there is nothing new to read.  A size below the last
    /// one means the file was truncated, and reading starts over at zero.
    pub fn on_size(&mut self, current_size: u64) -> (r: Option<u64>)
        ensures
            final(self).last_size == current_size,
            final(self).last_position == tail_start(*old(self), current_size),
            current_size < old(self).last_size ==> final(self).last_position == 0,
            r == (if tail_start(*old(self), current_size) < current_size {
                Some(tail_start(*old(self), current_size))
            } else {
                None::<u64>
            }),
    {
        if current_size < self.last_size {
            self.last_position = 0;
        }
        self.last_size = current_size;
        if current_size <= self.last_position {
            None
        } else {
            Some(self.last_position)
        }
    }

    /// Consume a chunk read from `last_position` to end of file: parse
    /// every complete line into its event, skip malformed lines, defer a
    /// trailing partial line, and advance the position past what was
    /// consumed.
    pub fn ingest(&mut self, chunk: &Vec<u8>, current_size: u64) -> (events: Vec<TaskEvent>)
        requires
            old(self).last_position + chunk@.len() == current_size,
        ensures
            final(self).last_position == old(self).last_position + chunk_consumed(chunk@),
            final(self).last_size == current_size,
            events_view(events@) == chunk_events(chunk@),
    {
        let n: usize = chunk.len();
        let mut events: Vec<TaskEvent> = Vec::new();
        let mut start: usize = 0;
        proof {
            assert(events_view(events@) + events_from(chunk@, 0) =~= events_from(chunk@, 0));
        }
        loop
            invariant
                n == chunk@.len(),
                start <= n,
                self.last_position == old(self).last_position,
                self.last_size == old(self).last_size,
                self.last_position + chunk@.len() == current_size,
                consumed_from(chunk@, 0) == consumed_from(chunk@, start as int),
                events_from(chunk@, 0) == events_view(events@) + events_from(
                    chunk@,
                    start as int,
                ),
            decreases n - start,
        {
            let mut j: usize = start;
            while j < n && chunk[j] != 10u8
                invariant
                    n == chunk@.len(),
                    start <= j <= n,
                    forall|t: int| start <= t < j ==> chunk@[t] != 10,
                decreases n - j,
            {
                j = j + 1;
            }
            if j >= n {
                proof {
                    lemma_first_nl_none(chunk@, start as int);
                    assert(consumed_from(chunk@, start as int) == start);
                    assert(events_from(chunk@, start as int) =~= Seq::<TaskEventModel>::empty());
                    assert(events_view(events@) + Seq::<TaskEventModel>::empty() =~= events_view(
                        events@,
                    ));
                }
                self.last_position = self.last_position + (start as u64);
                self.last_size = current_size;
                return events;
            }
            proof {
                lemma_first_nl_found(chunk@, start as int, j as int);
            }
            let mut line: Vec<u8> = Vec::new();
            let mut t: usize = start;
            while t < j
                invariant
                    n == chunk@.len(),
                    start <= t <= j <= n,
                    line@ == chunk@.subrange(start as int, t as int),
                decreases j - t,
            {
                line.push(chunk[t]);
                proof {
                    assert(line@ =~= chunk@.subrange(start as int, t + 1));
                }
                t = t + 1;
            }
            let ghost line_bytes = chunk@.subrange(start as int, j as int);
            let ghost prev = events_view(events@);
            match string_from_utf8(line) {
                Some(text) => {
                    match parse_task_event(text.as_str()) {
                        Some(e) => {
                            let ghost em = e@;
                            events.push(e);
                            proof {
                                assert(events_view(events@) =~= prev + seq![em]);
                                assert((prev + seq![em]) + events_from(chunk@, j + 1) =~= prev + (
                                seq![em] + events_from(chunk@, j + 1)));
                            }
                        },
                        None => {
                            proof {
                                assert(line_events(line_bytes) =~= Seq::<TaskEventModel>::empty());
                                assert(prev + (Seq::<TaskEventModel>::empty() + events_from(
                                    chunk@,
                                    j + 1,
                                )) =~= prev + events_from(chunk@, j + 1));
                            }
                        },
                    }
                },
                None => {
                    proof {
                        assert(line_events(line_bytes) =~= Seq::<TaskEventModel>::empty());
                        assert(prev + (Seq::<TaskEventModel>::empty() + events_from(chunk@, j + 1))
                            =~= prev + events_from(chunk@, j + 1));
                    }
                },
            }
            start = j + 1;
        }
    }
}

/// Law: tailing twice with no intervening writes yields zero events the
/// second time — a read that caught up consumes everything there was to
/// consume, and a trailing partial line stays deferred without being
/// reported.
pub proof fn lemma_tail_quiescent(st: FileState, file: Seq<u8>)
    requires
        file.len() <= u64::MAX,
    ensures
        tail_read_events(tail_next_state(st, file), file) == Seq::<TaskEventModel>::empty(),
{
    let size = file.len() as u64;
    let start = tail_start(st, size);
    let st1 = tail_next_state(st, file);
    if start < size {
        let rest = file.skip(start as int);
        lemma_consumed_bounds(rest, 0);
        let c = chunk_consumed(rest);
        assert(st1.last_position == start + c);
        if start as int + c < file.len() {
            let rest2 = file.skip(start as int + c);
            lemma_no_nl_after_consumed(rest, 0);
            assert forall|t: int| 0 <= t < rest2.len() implies rest2[t] != 10 by {
                assert(rest2[t] == rest[c + t]);
            }
            lemma_first_nl_none(rest2, 0);
            assert(events_from(rest2, 0) =~= Seq::<TaskEventModel>::empty());
        }
    }
}

/// The events one observation of the whole file yields: those of the
/// complete lines past the start position.
pub open spec fn tail_read_events(st: FileState, file: Seq<u8>) -> Seq<TaskEventModel> {
    let size = file.len() as u64;
    let start = tail_start(st, size);
    if start < size {
        chunk_events(file.skip(start as int))
    } else {
        Seq::<TaskEventModel>::empty()
    }
}

/// The bookkeeping state after one observation of the whole file.
pub open spec fn tail_next_state(st: FileState, file: Seq<u8>) -> FileState {
    let size = file.len() as u64;
    let start = tail_start(st, size);
    if start < size {
        FileState {
            last_position: (start + chunk_consumed(file.skip(start as int))) as u64,
            last_size: size,
        }
    } else {
        FileState { last_position: start, last_size: size }
    }
}

/// Law: what a caught-up tailer reads next depends on the appended bytes
/// alone, never on the history before them.
pub proof fn lemma_tail_append(st: FileState, file: Seq<u8>, appended: Seq<u8>)
    requires
        file.len() + appended.len() <= u64::MAX,
        st.last_position == file.len(),
        st.last_size <= file.len() + appended.len(),
    ensures
        tail_read_events(st, file + appended) == chunk_events(appended),
{
    let whole = file + appended;
    let size = whole.len() as u64;
    assert(tail_start(st, size) == st.last_position);
    if appended.len() > 0 {
        assert(whole.skip(file.len() as int) =~= appended);
    } else {
        assert(first_nl_from(appended, 0) is None);
    }
}

/// Law: appending one line to two caught-up tails — or to the same tail
/// twice — yields the same events each time.  A line identical to an
/// earlier one is reported again as a fresh event, never deduplicated.
pub proof fn lemma_reappend_duplicate(
    st1: FileState,
    f1: Seq<u8>,
    st2: FileState,
    f2: Seq<u8>,
    appended: Seq<u8>,
)
    requires
        f1.len() + appended.len() <= u64::MAX,
        f2.len() + appended.len() <= u64::MAX,
        st1.last_position == f1.len(),
        st1.last_size <= f1.len() + appended.len(),
        st2.last_position == f2.len(),
        st2.last_size <= f2.len() + appended.len(),
    ensures
        tail_read_events(st1, f1 + appended) == tail_read_events(st2, f2 + appended),
{
    lemma_tail_append(st1, f1, appended);
    lemma_tail_append(st2, f2, appended);
}

/// The file-name part of `path` with every trailing `.json` removed, as
/// `trim_end_matches` removes suffixes.
pub open spec fn trim_json_suffix(name: Seq<char>) -> Seq<char>
    decreases name.len(),
{
    if name.len() >= 5 && ends_with(name, ".json"@) {
        trim_json_suffix(name.take(name.len() - 5))
    } else {
        name
    }
}

/// The session id a snapshot file's path encodes: the file name up to a
/// `-agent-` marker, or the whole name without its `.json` suffix, or
/// `unknown` when the path has no file name at all.
pub open spec fn session_id_of(path: Seq<char>) -> Seq<char> {
    let start = file_name_start(path);
    let name = path.subrange(start, path.len() as int);
    if name.len() == 0 {
        "unknown"@
    } else {
        match find_from(name, "-agent-"@, 0) {
            Some(k) => name.take(k),
            None => trim_json_suffix(name),
        }
    }
}

/// Extract the owning session's id from a snapshot file's path, as
/// `session_id_of` says.
pub fn extract_session_id(path: &str) -> (r: String)
    ensures
        r@ == session_id_of(path@),
{
    proof {
        reveal_strlit("-agent-");
        reveal_strlit(".json");
    }
    let cs = crate::strutil::chars_of(path);
    let len: usize = cs.len();
    let start: usize = crate::strutil::find_file_name_start(&cs);
    proof {
        crate::strutil::lemma_file_name_start_bounds(path@);
    }
    let ghost name_spec = path@.subrange(start as int, path@.len() as int);
    if start == len {
        proof {
            assert(name_spec =~= Seq::<char>::empty());
        }
        return "unknown".to_owned();
    }
    let name = crate::strutil::subvec(&cs, start, len);
    let pat = crate::strutil::chars_of("-agent-");
    match crate::strutil::find_pattern_from(&name, &pat, 0) {
        Some(k) => {
            let s = vstd::string::StrSliceExecFns::substring_char(path, start, start + k);
            proof {
                assert(s@ =~= name_spec.take(k as int));
            }
            s.to_owned()
        },
        None => {
            let jp = crate::strutil::chars_of(".json");
            let mut end: usize = len - start;
            proof {
                assert(name@.take(end as int) =~= name@);
            }
            while crate::strutil::range_ends_with(&name, 0, end, &jp)
                invariant
                    end <= name@.len(),
                    name@ == name_spec,
                    jp@ == ".json"@,
                    jp@.len() == 5,
                    trim_json_suffix(name_spec) == trim_json_suffix(name_spec.take(end as int)),
                decreases end,
            {
                proof {
                    assert(name@.subrange(0, end as int) =~= name@.take(end as int));
                    assert(name@.take(end as int).take(end - 5) =~= name@.take(end - 5));
                }
                end = end - 5;
            }
            proof {
                assert(name@.subrange(0, end as int) =~= name@.take(end as int));
            }
            let s = vstd::string::StrSliceExecFns::substring_char(path, start, start + end);
            proof {
                assert(s@ =~= name_spec.take(end as int));
            }
            s.to_owned()
        },
    }
}

/// One todo snapshot file handed to the aggregation scan: its path and
/// its text.
pub struct TodoFile {
    pub path: String,
    pub content: String,
}

impl View for TodoFile {
    type V = (Seq<char>, Seq<char>);

    open spec fn view(&self) -> (Seq<char>, Seq<char>) {
        (self.path@, self.content@)
    }
}

/// The aggregate entries one snapshot's todo list contributes: every
/// entry not yet completed, tagged with the owning session.
pub open spec fn keep_active(ts: Seq<TodoItemModel>, sid: Seq<char>) -> Seq<GlobalTodoItemModel>
    decreases ts.len(),
{
    if ts.len() == 0 {
        Seq::<GlobalTodoItemModel>::empty()
    } else {
        (if ts[0].status != "completed"@ {
            seq![
                GlobalTodoItemModel {
                    content: ts[0].content,
                    status: ts[0].status,
                    active_form: ts[0].active_form,
                    session_id: sid,
                },
            ]
        } else {
            Seq::<GlobalTodoItemModel>::empty()
        }) + keep_active(ts.drop_first(), sid)
    }
}

/// The aggregate entries one file contributes: nothing unless its name
/// ends in `.json` and its text parses as a todo snapshot.
pub open spec fn file_todos(path: Seq<char>, content: Seq<char>) -> Seq<GlobalTodoItemModel> {
    if ends_with(path, ".json"@) {
        match parse_todo_text(content) {
            Some(ts) => keep_active(ts, session_id_of(path)),
            None => Seq::<GlobalTodoItemModel>::empty(),
        }
    } else {
        Seq::<GlobalTodoItemModel>::empty()
    }
}

/// The whole aggregate todo view over the given files, in their order.
pub open spec fn global_todos_of(files: Seq<(Seq<char>, Seq<char>)>) -> Seq<GlobalTodoItemModel>
    decreases files.len(),
{
    if files.len() == 0 {
        Seq::<GlobalTodoItemModel>::empty()
    } else {
        file_todos(files[0].0, files[0].1) + global_todos_of(files.drop_first())
    }
}

/// The models of a vector of aggregate todo entries, in order.
pub open spec fn global_todos_view(ts: Seq<GlobalTodoItem>) -> Seq<GlobalTodoItemModel> {
    ts.map_values(|t: GlobalTodoItem| t@)
}

/// The models of a vector of todo files, in order.
pub open spec fn todo_files_view(fs: Seq<TodoFile>) -> Seq<(Seq<char>, Seq<char>)> {
    fs.map_values(|f: TodoFile| f@)
}

/// Rebuild the aggregate todo view from the snapshot files, as
/// `global_todos_of` says: one complete snapshot replacing any prior
/// view, with nothing carried over incrementally.
pub fn collect_global_todos(files: &Vec<TodoFile>) -> (r: Vec<GlobalTodoItem>)
    ensures
        global_todos_view(r@) == global_todos_of(todo_files_view(files@)),
{
    proof {
        reveal_strlit(".json");
    }
    let ghost fv = todo_files_view(files@);
    let mut out: Vec<GlobalTodoItem> = Vec::new();
    let mut i: usize = 0;
    proof {
        assert(fv.skip(0) =~= fv);
        assert(global_todos_view(out@) + global_todos_of(fv) =~= global_todos_of(fv));
    }
    while i < files.len()
        invariant
            i <= files@.len(),
            fv == todo_files_view(files@),
            global_todos_of(fv) == global_todos_view(out@) + global_todos_of(
                fv.skip(i as int),
            ),
        decreases files@.len() - i,
    {
        proof {
            assert(fv[i as int] == files@[i as int]@);
            assert(fv.skip(i as int)[0] == fv[i as int]);
            assert(fv.skip(i as int).drop_first() =~= fv.skip(i + 1));
        }
        let ghost before = global_todos_view(out@);
        let f = &files[i];
        let pcs = crate::strutil::chars_of(f.path.as_str());
        let jp = crate::strutil::chars_of(".json");
        let is_json = crate::strutil::range_ends_with(&pcs, 0, pcs.len(), &jp);
        proof {
            assert(pcs@.subrange(0, pcs@.len() as int) =~= pcs@);
        }
        if is_json {
            match crate::events::parse_todo_file(f.content.as_str()) {
                Some(ts) => {
                    let sid = extract_session_id(f.path.as_str());
                    append_active(&mut out, &ts, &sid);
                    proof {
                        assert(global_todos_view(out@) == before + keep_active(
                            crate::events::todos_view(ts@),
                            sid@,
                        ));
                        assert((before + file_todos(fv[i as int].0, fv[i as int].1))
                            + global_todos_of(fv.skip(i + 1)) =~= before + (file_todos(
                            fv[i as int].0,
                            fv[i as int].1,
                        ) + global_todos_of(fv.skip(i + 1))));
                    }
                },
                None => {
                    proof {
                        assert(before + (Seq::<GlobalTodoItemModel>::empty() + global_todos_of(
                            fv.skip(i + 1),
                        )) =~= before + global_todos_of(fv.skip(i + 1)));
                    }
                },
            }
        } else {
            proof {
                assert(before + (Seq::<GlobalTodoItemModel>::empty() + global_todos_of(
                    fv.skip(i + 1),
                )) =~= before + global_todos_of(fv.skip(i + 1)));
            }
        }
        i = i + 1;
    }
    proof {
        assert(fv.skip(files@.len() as int) =~= Seq::<(Seq<char>, Seq<char>)>::empty());
        assert(global_todos_view(out@) + Seq::<GlobalTodoItemModel>::empty() =~= global_todos_view(
            out@,
        ));
    }
    out
}

/// Append the not-yet-completed entries of one snapshot to the aggregate,
/// tagged with the owning session, as `keep_active` says.
fn append_active(out: &mut Vec<GlobalTodoItem>, ts: &Vec<crate::events::TodoItem>, sid: &String)
    ensures
        global_todos_view(final(out)@) == global_todos_view(old(out)@) + keep_active(
            crate::events::todos_view(ts@),
            sid@,
        ),
{
    proof {
        reveal_strlit("completed");
    }
    let ghost tv = crate::events::todos_view(ts@);
    let ghost base = global_todos_view(old(out)@);
    let mut i: usize = 0;
    proof {
        assert(tv.skip(0) =~= tv);
    }
    while i < ts.len()
        invariant
            i <= ts@.len(),
            tv == crate::events::todos_view(ts@),
            base == global_todos_view(old(out)@),
            base + keep_active(tv, sid@) == global_todos_view(out@) + keep_active(
                tv.skip(i as int),
                sid@,
            ),
        decreases ts@.len() - i,
    {
        proof {
            assert(tv[i as int] == ts@[i as int]@);
            assert(tv.skip(i as int)[0] == tv[i as int]);
            assert(tv.skip(i as int).drop_first() =~= tv.skip(i + 1));
        }
        let ghost before = global_todos_view(out@);
        let t = &ts[i];
        if !str_eq(t.status.as_str(), "completed") {
            let g = GlobalTodoItem {
                content: t.content.clone(),
                status: t.status.clone(),
                active_form: t.active_form.clone(),
                session_id: sid.clone(),
            };
            let ghost gm = g@;
            out.push(g);
            proof {
                assert(global_todos_view(out@) =~= before + seq![gm]);
                assert((before + seq![gm]) + keep_active(tv.skip(i + 1), sid@) =~= before + (
                seq![gm] + keep_active(tv.skip(i + 1), sid@)));
            }
        } else {
            proof {
                assert(before + (Seq::<GlobalTodoItemModel>::empty() + keep_active(
                    tv.skip(i + 1),
                    sid@,
                )) =~= before + keep_active(tv.skip(i + 1), sid@));
            }
        }
        i = i + 1;
    }
    proof {
        assert(tv.skip(ts@.len() as int) =~= Seq::<TodoItemModel>::empty());
        assert(global_todos_view(out@) + Seq::<GlobalTodoItemModel>::empty() =~= global_todos_view(
            out@,
        ));
    }
}

/// What the watcher hands the router: one raw event per observed change.
pub enum WatcherEvent {
    TaskEvent(TaskEvent),
    TodosUpdated(Vec<GlobalTodoItem>),
    DownloadProgress(crate::events::DownloadProgress),
    Error(String),
}

/// Mathematical model of a `WatcherEvent`.
pub enum WatcherEventModel {
    TaskEvent(TaskEventModel),
    TodosUpdated(Seq<GlobalTodoItemModel>),
    DownloadProgress(crate::events::DownloadProgressModel),
    Error(Seq<char>),
}

impl View for WatcherEvent {
    type V = WatcherEventModel;

    open spec fn view(&self) -> WatcherEventModel {
        match self {
            WatcherEvent::TaskEvent(e) => WatcherEventModel::TaskEvent(e@),
            WatcherEvent::TodosUpdated(ts) => WatcherEventModel::TodosUpdated(
                global_todos_view(ts@),
            ),
            WatcherEvent::DownloadProgress(p) => WatcherEventModel::DownloadProgress(p@),
            WatcherEvent::Error(e) => WatcherEventModel::Error(e@),
        }
    }
}

/// What can go wrong while setting up or running the watch.
#[derive(Debug)]
pub enum WatcherError {
    IoError(String),
    WatchError(String),
}

impl WatcherError {
    /// The error spelled out for a reader.
    pub fn message(&self) -> (r: String)
        ensures
            match self {
                WatcherError::IoError(e) => r@ == "IO error: "@ + e@,
                WatcherError::WatchError(e) => r@ == "Watch error: "@ + e@,
            },
    {
        let mut m = String::new();
        match self {
            WatcherError::IoError(e) => {
                m.append("IO error: ");
                m.append(e.as_str());
            },
            WatcherError::WatchError(e) => {
                m.append("Watch error: ");
                m.append(e.as_str());
            },
        }
        m
    }
}

/// The paths one watcher observes, resolved from the configuration, and
/// the window within which bursts of change notifications coalesce.
pub struct FileWatcher {
    pub events_path: String,
    pub todos_path: String,
    pub download_progress_path: String,
    pub debounce_ms: u64,
}

impl FileWatcher {
    /// Resolve the watched paths: the event log and todo directory as
    /// configured, and the progress document beside the event log.
    pub fn new(config: &crate::config::Config) -> (r: FileWatcher)
        ensures
            r.events_path@ == config.paths.events_file@,
            r.todos_path@ == config.paths.todos_dir@,
            r.download_progress_path@ == crate::strutil::joined_path(
                crate::strutil::parent_of(config.paths.events_file@),
                "download-progress.json"@,
            ),
            r.debounce_ms == config.behavior.file_watch_debounce_ms,
    {
        let parent = crate::strutil::parent_dir(config.paths.events_file.as_str());
        FileWatcher {
            events_path: config.events_path(),
            todos_path: config.todos_path(),
            download_progress_path: crate::strutil::join_path(
                parent.as_str(),
                "download-progress.json",
            ),
            debounce_ms: config.behavior.file_watch_debounce_ms,
        }
    }
}

/// Which watched source a changed path belongs to.
#[derive(Clone, Copy, Debug, PartialEq, Eq, Structural)]
pub enum WatchedPath {
    EventsLog,
    TodoSnapshot,
    ProgressDocument,
    Unrelated,
}

/// The source a changed path names: the event log itself, a `.json` file
/// under the todo directory, the progress document, or none of them.
pub open spec fn path_class(w: FileWatcher, p: Seq<char>) -> WatchedPath {
    if p == w.events_path@ {
        WatchedPath::EventsLog
    } else if crate::strutil::in_directory(p, w.todos_path@) && ends_with(p, ".json"@) {
        WatchedPath::TodoSnapshot
    } else if p == w.download_progress_path@ {
        WatchedPath::ProgressDocument
    } else {
        WatchedPath::Unrelated
    }
}

impl FileWatcher {
    /// Decide which watched source a change notification names, as
    /// `path_class` says.
    pub fn classify(&self, path: &str) -> (r: WatchedPath)
        ensures
            r == path_class(*self, path@),
    {
        proof {
            reveal_strlit(".json");
        }
        if str_eq(path, self.events_path.as_str()) {
            return WatchedPath::EventsLog;
        }
        if crate::strutil::path_in_directory(path, self.todos_path.as_str()) {
            let pc = crate::strutil::chars_of(path);
            let jp = crate::strutil::chars_of(".json");
            let is_json = crate::strutil::range_ends_with(&pc, 0, pc.len(), &jp);
            proof {
                assert(pc@.subrange(0, pc@.len() as int) =~= pc@);
            }
            if is_json {
                return WatchedPath::TodoSnapshot;
            }
        }
        if str_eq(path, self.download_progress_path.as_str()) {
            return WatchedPath::ProgressDocument;
        }
        WatchedPath::Unrelated
    }
}

/// Law: one newline-terminated line is read as exactly its parsed event —
/// or as nothing when it is malformed.
pub proof fn lemma_single_line_events(line: Seq<u8>)
    requires
        forall|t: int| 0 <= t < line.len() ==> line[t] != 10,
    ensures
        chunk_events(line + seq![10u8]) == line_events(line),
{
    let b = line + seq![10u8];
    assert(b[line.len() as int] == 10);
    lemma_first_nl_found(b, 0, line.len() as int);
    assert(b.subrange(0, line.len() as int) =~= line);
    assert(first_nl_from(b, line.len() as int + 1) is None);
    assert(events_from(b, line.len() as int + 1) =~= Seq::<TaskEventModel>::empty());
    assert(line_events(line) + Seq::<TaskEventModel>::empty() =~= line_events(line));
}

} // verus!
