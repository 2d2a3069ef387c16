//! Tasks as they are stored: one file per task line, open tasks in the root
//! directory and done tasks in `done.txt.d`.  This module holds the
//! decisions of the store (which lines a file holds, how a line changes
//! when it is marked done or restored, where a file must go); reading and
//! writing the files is left to the caller.
use vstd::prelude::*;

use crate::parser::{is_date, is_date_seq, parse_task_line, spec_task};
use crate::dates::{decimal, decimal_chars};
use crate::paths::{
    components, extension, file_name, file_stem, has_parent, join, join_path, parent_is, parent_of,
    parent_text, path_eq, path_extension, path_file_name, path_file_stem, same_path,
};
use crate::query::then;
use crate::refresh::SnapshotIndex;
use crate::sorting::{lemma_map_multiset, sort_by, Orderer};
use crate::task::{tag_lookup, Task, TaskModel};
use crate::text::{int_order, lemma_lex_order_flip, lex_order, str_order, Order3};
use crate::text::{
    chars_have_at, chars_of, find_char, index_of, is_space, is_upper, join_by, join_chars,
    lines_of, owned, push_char, push_str, slice_of, split_lines, split_words, starts_with,
    string_of, trim, trim_chars, vecs_view, words,
};

verus! {

/// Where a task line lives: its file and its index among the file's lines.
#[derive(Debug, Clone, PartialEq, Eq)]
pub struct TaskId {
    pub path: String,
    pub line_index: usize,
}

pub ghost struct TaskIdModel {
    pub path: Seq<char>,
    pub line_index: int,
}

impl View for TaskId {
    type V = TaskIdModel;

    open spec fn view(&self) -> TaskIdModel {
        TaskIdModel { path: self.path@, line_index: self.line_index as int }
    }
}

impl TaskId {
    pub fn duplicate(&self) -> (r: TaskId)
        ensures
            r@ == self@,
    {
        TaskId { path: self.path.clone(), line_index: self.line_index }
    }
}

/// A task with its location.
#[derive(Debug, Clone, PartialEq, Eq)]
pub struct StoredTask {
    pub id: TaskId,
    pub task: Task,
}

pub ghost struct StoredModel {
    pub id: TaskIdModel,
    pub task: TaskModel,
}

impl View for StoredTask {
    type V = StoredModel;

    open spec fn view(&self) -> StoredModel {
        StoredModel { id: self.id@, task: self.task@ }
    }
}

pub open spec fn stored_view(v: Seq<StoredTask>) -> Seq<StoredModel> {
    v.map_values(|s: StoredTask| s@)
}

impl StoredTask {
    pub fn duplicate(&self) -> (r: StoredTask)
        ensures
            r@ == self@,
    {
        StoredTask { id: self.id.duplicate(), task: self.task.duplicate() }
    }
}

/// Stored tasks, duplicated.
pub fn duplicate_all(v: &[StoredTask]) -> (r: Vec<StoredTask>)
    ensures
        stored_view(r@) == stored_view(v@),
{
    let mut r: Vec<StoredTask> = Vec::new();
    let mut i: usize = 0;
    while i < v.len()
        invariant
            i <= v.len(),
            r.len() == i,
            forall|j: int| 0 <= j < i ==> r@[j]@ == v@[j]@,
        decreases v.len() - i,
    {
        r.push(v[i].duplicate());
        i = i + 1;
    }
    assert(stored_view(r@) =~= stored_view(v@));
    r
}

/// The open and done tasks of a store.
#[derive(Debug, Clone)]
pub struct Snapshot {
    pub open_tasks: Vec<StoredTask>,
    pub done_tasks: Vec<StoredTask>,
}

/// The kinds of failure of the store's operations.
#[derive(Debug, Clone, Copy, PartialEq, Eq, Structural)]
pub enum ErrorKind {
    InvalidInput,
    InvalidData,
    NotFound,
    AlreadyExists,
    IsADirectory,
    WouldBlock,
}

/// A failed store operation: its kind and a message.
#[derive(Debug, Clone, PartialEq, Eq)]
pub struct StoreError {
    pub kind: ErrorKind,
    pub message: String,
}

pub open spec fn is_error<T>(r: Result<T, StoreError>, kind: ErrorKind, message: Seq<char>) -> bool {
    r matches Err(e) && e.kind == kind && e.message@ == message
}

fn fail(kind: ErrorKind, message: &str) -> (r: StoreError)
    ensures
        r.kind == kind,
        r.message@ == message@,
{
    StoreError { kind, message: owned(message) }
}

// -- Task lines ---------------------------------------------------------------

pub open spec fn has_line_break(s: Seq<char>) -> bool {
    exists|i: int| 0 <= i < s.len() && (#[trigger] s[i] == '\n' || s[i] == '\r')
}

/// A task update must be one line and must not be blank.
pub fn ensure_single_task_input(raw: &str) -> (r: Result<(), StoreError>)
    ensures
        has_line_break(raw@) ==> is_error(r, ErrorKind::InvalidInput, "task updates must contain exactly one task line"@),
        !has_line_break(raw@) && trim(raw@).len() == 0 ==> is_error(r, ErrorKind::InvalidInput, "task updates must not be blank"@),
        !has_line_break(raw@) && trim(raw@).len() > 0 ==> r is Ok,
{
    let v = chars_of(raw);
    let mut i: usize = 0;
    while i < v.len()
        invariant
            i <= v.len(),
            v@ == raw@,
            forall|k: int| 0 <= k < i ==> !(#[trigger] v@[k] == '\n' || v@[k] == '\r'),
        decreases v.len() - i,
    {
        if v[i] == '\n' || v[i] == '\r' {
            return Err(fail(ErrorKind::InvalidInput, "task updates must contain exactly one task line"));
        }
        i = i + 1;
    }
    if trim_chars(&v).len() == 0 {
        return Err(fail(ErrorKind::InvalidInput, "task updates must not be blank"));
    }
    Ok(())
}

/// `s` without its trailing `\r` and `\n` characters.
pub open spec fn strip_line_end(s: Seq<char>) -> Seq<char>
    decreases s.len(),
{
    if s.len() > 0 && (s.last() == '\r' || s.last() == '\n') {
        strip_line_end(s.drop_last())
    } else {
        s
    }
}

/// The line followed by exactly one newline.
pub fn with_trailing_newline(raw: &str) -> (r: String)
    ensures
        r@ == strip_line_end(raw@).push('\n'),
{
    let v = chars_of(raw);
    let mut n = v.len();
    assert(v@.subrange(0, n as int) =~= v@);
    while n > 0 && (v[n - 1] == '\r' || v[n - 1] == '\n')
        invariant
            n <= v.len(),
            strip_line_end(v@.subrange(0, n as int)) == strip_line_end(v@),
        decreases n,
    {
        assert(v@.subrange(0, n as int).drop_last() =~= v@.subrange(0, n - 1));
        n = n - 1;
    }
    let mut out = slice_of(&v, 0, n);
    out.push('\n');
    string_of(&out)
}

/// The non-blank lines, each with its index among all lines.
pub open spec fn numbered_task_lines(lines: Seq<Seq<char>>) -> Seq<(int, Seq<char>)>
    decreases lines.len(),
{
    if lines.len() == 0 {
        seq![]
    } else {
        let rest = numbered_task_lines(lines.drop_last());
        if trim(lines.last()).len() == 0 {
            rest
        } else {
            rest.push(((lines.len() - 1) as int, lines.last()))
        }
    }
}

pub open spec fn numbered_view(v: Seq<(usize, String)>) -> Seq<(int, Seq<char>)> {
    v.map_values(|p: (usize, String)| (p.0 as int, p.1@))
}

/// The task lines of a file's content: its non-blank lines, with their
/// indexes among all lines.
pub fn task_lines(content: &str) -> (r: Vec<(usize, String)>)
    ensures
        numbered_view(r@) == numbered_task_lines(lines_of(content@)),
{
    let lines = split_lines(&chars_of(content));
    let ghost all = vecs_view(lines@);
    let mut r: Vec<(usize, String)> = Vec::new();
    let mut i: usize = 0;
    while i < lines.len()
        invariant
            i <= lines.len(),
            all == vecs_view(lines@),
            all == lines_of(content@),
            numbered_view(r@) == numbered_task_lines(all.subrange(0, i as int)),
        decreases lines.len() - i,
    {
        let ghost before = numbered_view(r@);
        assert(all.subrange(0, i + 1).drop_last() =~= all.subrange(0, i as int));
        assert(all.subrange(0, i + 1).last() == lines@[i as int]@);
        if trim_chars(&lines[i]).len() > 0 {
            r.push((i, string_of(&lines[i])));
            assert(numbered_view(r@) =~= before.push((i as int, lines@[i as int]@)));
        }
        i = i + 1;
    }
    assert(all.subrange(0, lines.len() as int) =~= all);
    r
}

/// The line at `index`, when it is a task line.
pub open spec fn task_line_at(content: Seq<char>, index: int) -> Option<Seq<char>> {
    let lines = lines_of(content);
    if 0 <= index < lines.len() && trim(lines[index]).len() > 0 {
        Some(lines[index])
    } else {
        None
    }
}

/// The task line at `line_index` of a file's content.
pub fn find_task_line(content: &str, line_index: usize) -> (r: Result<String, StoreError>)
    ensures
        match task_line_at(content@, line_index as int) {
            Some(l) => r matches Ok(x) && x@ == l,
            None => is_error(r, ErrorKind::NotFound, "task line index does not exist in source file"@),
        },
{
    let lines = split_lines(&chars_of(content));
    if line_index < lines.len() && trim_chars(&lines[line_index]).len() > 0 {
        assert(vecs_view(lines@)[line_index as int] == lines@[line_index as int]@);
        Ok(string_of(&lines[line_index]))
    } else {
        proof {
            if line_index < lines.len() {
                assert(vecs_view(lines@)[line_index as int] == lines@[line_index as int]@);
            }
        }
        Err(fail(ErrorKind::NotFound, "task line index does not exist in source file"))
    }
}

/// The index of the first non-blank line, or the number of lines.
pub open spec fn first_task_index(lines: Seq<Seq<char>>) -> int
    decreases lines.len(),
{
    if lines.len() == 0 {
        0
    } else if trim(lines[0]).len() > 0 {
        0
    } else {
        1 + first_task_index(lines.drop_first())
    }
}

proof fn lemma_first_task_index(lines: Seq<Seq<char>>, i: int)
    requires
        0 <= i <= lines.len(),
        forall|k: int| 0 <= k < i ==> trim(#[trigger] lines[k]).len() == 0,
        i == lines.len() || trim(lines[i]).len() > 0,
    ensures
        first_task_index(lines) == i,
    decreases i,
{
    if i > 0 {
        assert forall|k: int| 0 <= k < i - 1 implies trim(#[trigger] lines.drop_first()[k]).len() == 0 by {
            assert(lines.drop_first()[k] == lines[k + 1]);
        }
        lemma_first_task_index(lines.drop_first(), i - 1);
    }
}

/// The first task line of a file's content.
pub fn first_task_line(content: &str) -> (r: Result<String, StoreError>)
    ensures
        ({
            let lines = lines_of(content@);
            let i = first_task_index(lines);
            if i < lines.len() {
                r matches Ok(x) && x@ == lines[i]
            } else {
                is_error(r, ErrorKind::InvalidData, "task file was empty"@)
            }
        }),
{
    let lines = split_lines(&chars_of(content));
    let ghost all = vecs_view(lines@);
    let mut i: usize = 0;
    while i < lines.len()
        invariant
            i <= lines.len(),
            all == vecs_view(lines@),
            all == lines_of(content@),
            forall|k: int| 0 <= k < i ==> trim(#[trigger] all[k]).len() == 0,
        decreases lines.len() - i,
    {
        assert(all[i as int] == lines@[i as int]@);
        if trim_chars(&lines[i]).len() > 0 {
            proof {
                lemma_first_task_index(all, i as int);
            }
            return Ok(string_of(&lines[i]));
        }
        i = i + 1;
    }
    proof {
        lemma_first_task_index(all, i as int);
    }
    Err(fail(ErrorKind::InvalidData, "task file was empty"))
}

// -- Done and restored lines --------------------------------------------------

/// The line of a task marked done on `date`: `x <date> ` before the line
/// without its priority, and the priority kept as a `pri:` tag.
pub open spec fn done_line(raw: Seq<char>, date: Seq<char>) -> Seq<char> {
    let t = spec_task(raw);
    let rest = match t.priority {
        Some(_) => if raw.len() > 4 {
            raw.subrange(4, raw.len() as int)
        } else {
            raw.subrange(3, raw.len() as int)
        },
        None => raw,
    };
    "x "@ + date + " "@ + rest + match t.priority {
        Some(p) => " pri:"@ + seq![p],
        None => seq![],
    }
}

/// The line of a task marked done on `completion_date`.
pub fn format_done_line(raw: &str, completion_date: &str) -> (r: Result<String, StoreError>)
    ensures
        !is_date_seq(completion_date@) ==> is_error(r, ErrorKind::InvalidInput, "completion date must use YYYY-MM-DD format"@),
        is_date_seq(completion_date@) && spec_task(raw@).done ==> is_error(r, ErrorKind::InvalidInput, "cannot mark an already completed task as done"@),
        is_date_seq(completion_date@) && !spec_task(raw@).done ==> (r matches Ok(x) && x@ == done_line(raw@, completion_date@)),
{
    if !is_date(completion_date) {
        return Err(fail(ErrorKind::InvalidInput, "completion date must use YYYY-MM-DD format"));
    }
    let task = parse_task_line(raw);
    if task.done {
        return Err(fail(ErrorKind::InvalidInput, "cannot mark an already completed task as done"));
    }
    let v = chars_of(raw);
    let mut out = String::new();
    push_str(&mut out, "x ");
    push_str(&mut out, completion_date);
    push_str(&mut out, " ");
    match task.priority {
        Some(p) => {
            let from: usize = if v.len() > 4 { 4 } else { 3 };
            proof {
                assert(v@.len() >= 3);
            }
            push_str(&mut out, string_of(&slice_of(&v, from, v.len())).as_str());
            push_str(&mut out, " pri:");
            push_char(&mut out, p);
        },
        None => {
            push_str(&mut out, raw);
        },
    }
    proof {
        reveal_strlit("x ");
        reveal_strlit(" ");
        reveal_strlit(" pri:");
    }
    assert(out@ =~= done_line(raw@, completion_date@));
    Ok(out)
}

/// What follows `x <date> ` on a completed line, when the line has a space
/// after the date.
pub open spec fn completed_tail(raw: Seq<char>) -> Option<Seq<char>> {
    if starts_with(raw, "x "@) {
        let rem = raw.subrange(2, raw.len() as int);
        let sp = index_of(rem, ' ');
        let head = if rem.len() < 10 {
            rem
        } else {
            rem.subrange(0, 10)
        };
        if sp < rem.len() && is_date_seq(head) {
            Some(rem.subrange(sp + 1, rem.len() as int))
        } else {
            None
        }
    } else {
        None
    }
}

/// The characters that follow `x ` are ASCII up to the tenth (so that the
/// line can be cut there).
pub open spec fn cut_ok(raw: Seq<char>) -> bool {
    starts_with(raw, "x "@) ==> forall|i: int| 2 <= i < raw.len() && i < 12 ==> (#[trigger] raw[i] as int) < 128
}

/// What follows the completion marker and date of a completed line.
pub fn strip_completed_prefix(raw: &str) -> (r: Option<String>)
    requires
        cut_ok(raw@),
    ensures
        match completed_tail(raw@) {
            Some(t) => r matches Some(x) && x@ == t,
            None => r is None,
        },
{
    let v = chars_of(raw);
    if !chars_have_at(&v, 0, "x ") {
        return None;
    }
    proof {
        reveal_strlit("x ");
    }
    let rem = slice_of(&v, 2, v.len());
    let sp = find_char(&rem, 0, ' ');
    assert(rem@.subrange(0, rem.len() as int) =~= rem@);
    let head = if rem.len() < 10 {
        slice_of(&rem, 0, rem.len())
    } else {
        slice_of(&rem, 0, 10)
    };
    assert(rem@.subrange(0, rem.len() as int) =~= rem@);
    if sp < rem.len() && is_date(string_of(&head).as_str()) {
        Some(string_of(&slice_of(&rem, sp + 1, rem.len())))
    } else {
        None
    }
}

/// The words that are not `pri:` tags.
pub open spec fn without_pri(ws: Seq<Seq<char>>) -> Seq<Seq<char>>
    decreases ws.len(),
{
    if ws.len() == 0 {
        seq![]
    } else {
        let rest = without_pri(ws.drop_last());
        if starts_with(ws.last(), "pri:"@) {
            rest
        } else {
            rest.push(ws.last())
        }
    }
}

/// The line of a restored task: the completion marker and date dropped and,
/// when the line holds a one-letter uppercase `pri:` tag, that priority put
/// back in front (the line's words then joined by single spaces, without
/// their `pri:` tags).
pub open spec fn restored_line(raw: Seq<char>, tail: Seq<char>) -> Seq<char> {
    match tag_lookup(spec_task(raw).tags, "pri"@) {
        Some(v) => if v.len() == 1 && is_upper(v[0]) {
            seq!['('] + v + ") "@ + join_by(without_pri(words(tail)), ' ')
        } else {
            tail
        },
        None => tail,
    }
}

/// The line of a completed task once restored to open.
pub fn format_restored_line(raw: &str) -> (r: Result<String, StoreError>)
    ensures
        !spec_task(raw@).done ==> is_error(r, ErrorKind::InvalidInput, "cannot restore an open task"@),
        spec_task(raw@).done && completed_tail(raw@) is None ==> is_error(r, ErrorKind::InvalidData, "completed task line was missing completion metadata"@),
        spec_task(raw@).done && completed_tail(raw@) is Some ==> (r matches Ok(x) && x@ == restored_line(raw@, completed_tail(raw@)->0)),
{
    let task = parse_task_line(raw);
    if !task.done {
        return Err(fail(ErrorKind::InvalidInput, "cannot restore an open task"));
    }
    proof {
        reveal_strlit("x ");
        assert(raw@.subrange(0, 2) == "x "@);
        assert(crate::parser::is_date_seq(raw@.subrange(2, 12)));
        assert forall|i: int| 2 <= i < raw@.len() && i < 12 implies (#[trigger] raw@[i] as int) < 128 by {
            assert(raw@[i] == raw@.subrange(2, 12)[i - 2]);
        }
    }
    let stripped = match strip_completed_prefix(raw) {
        Some(s) => s,
        None => {
            return Err(fail(ErrorKind::InvalidData, "completed task line was missing completion metadata"));
        },
    };
    match task.tags.get("pri") {
        Some(v) => {
            let pv = chars_of(v.as_str());
            if pv.len() == 1 && crate::text::char_is_upper(pv[0]) {
                let ws = split_words(&chars_of(stripped.as_str()));
                let mut kept: Vec<Vec<char>> = Vec::new();
                let mut i: usize = 0;
                while i < ws.len()
                    invariant
                        i <= ws.len(),
                        vecs_view(kept@) == without_pri(vecs_view(ws@).subrange(0, i as int)),
                    decreases ws.len() - i,
                {
                    let ghost before = vecs_view(kept@);
                    assert(vecs_view(ws@).subrange(0, i + 1).drop_last() =~= vecs_view(ws@).subrange(0, i as int));
                    assert(vecs_view(ws@).subrange(0, i + 1).last() == ws@[i as int]@);
                    if !chars_have_at(&ws[i], 0, "pri:") {
                        kept.push(crate::paths::copy_chars(&ws[i]));
                        assert(vecs_view(kept@) =~= before.push(ws@[i as int]@));
                    }
                    i = i + 1;
                }
                assert(vecs_view(ws@).subrange(0, ws.len() as int) =~= vecs_view(ws@));
                let body = join_chars(&kept, ' ');
                let mut out = String::new();
                push_char(&mut out, '(');
                push_str(&mut out, v.as_str());
                push_str(&mut out, ") ");
                push_str(&mut out, string_of(&body).as_str());
                proof {
                    reveal_strlit(") ");
                }
                assert(out@ =~= restored_line(raw@, stripped@));
                Ok(out)
            } else {
                Ok(stripped)
            }
        },
        None => Ok(stripped),
    }
}

// -- The store's places ------------------------------------------------------

/// A task directory: open tasks in its root, done tasks in `done.txt.d`,
/// smart lists in `lists.d`.
pub struct TaskStore {
    root: String,
}

impl View for TaskStore {
    type V = Seq<char>;

    closed spec fn view(&self) -> Seq<char> {
        self.root@
    }
}

/// Where a task is expected to be.
#[derive(Debug, Clone, Copy, PartialEq, Eq, Structural)]
pub enum ExpectedLocation {
    Open,
    Done,
    Either,
}

pub open spec fn done_dir_of(root: Seq<char>) -> Seq<char> {
    join_path(root, "done.txt.d"@)
}

/// What `validate_task_id` decides for a task path.
pub open spec fn validated(root: Seq<char>, path: Seq<char>, expected: ExpectedLocation) -> Result<Seq<char>, (ErrorKind, Seq<char>)> {
    if components(path).len() == 0 {
        Err((ErrorKind::InvalidInput, "task path did not have a parent directory"@))
    } else if !(match expected {
        ExpectedLocation::Open => parent_is(path, root),
        ExpectedLocation::Done => parent_is(path, done_dir_of(root)),
        ExpectedLocation::Either => parent_is(path, root) || parent_is(path, done_dir_of(root)),
    }) {
        Err((ErrorKind::InvalidInput, "task id does not belong to this store or expected state"@))
    } else if extension(path) != Some("txt"@) {
        Err((ErrorKind::InvalidInput, "task ids must point to .txt task files"@))
    } else {
        Ok(path)
    }
}

/// A result of the store, against its model (an error by kind and message).
pub open spec fn agrees(r: Result<String, StoreError>, m: Result<Seq<char>, (ErrorKind, Seq<char>)>) -> bool {
    match m {
        Ok(v) => r matches Ok(x) && x@ == v,
        Err((k, msg)) => is_error(r, k, msg),
    }
}

/// The file name that line `index` of a task file is moved to when the file
/// is split: `<stem>-line-<index>.<extension>` beside it (line 0 keeps the
/// file).
pub open spec fn normalized(source: Seq<char>, index: int) -> Seq<char> {
    if index == 0 {
        source
    } else {
        let ext = match extension(source) {
            Some(e) => e,
            None => "txt"@,
        };
        join_path(
            parent_text(source),
            file_stem(source)->0 + "-line-"@ + decimal(index as nat) + "."@ + ext,
        )
    }
}

/// One file to write.
#[derive(Debug, Clone, PartialEq, Eq)]
pub struct PlannedWrite {
    pub destination: String,
    pub contents: String,
}

pub open spec fn writes_view(v: Seq<PlannedWrite>) -> Seq<(Seq<char>, Seq<char>)> {
    v.map_values(|w: PlannedWrite| (w.destination@, w.contents@))
}

/// How a task file with several task lines is split into one file per line.
#[derive(Debug, Clone, PartialEq, Eq)]
pub struct NormalizationPlan {
    pub source: String,
    pub target: String,
    pub writes: Vec<PlannedWrite>,
    pub remove_source: bool,
}

pub ghost struct PlanModel {
    pub source: Seq<char>,
    pub target: Seq<char>,
    pub writes: Seq<(Seq<char>, Seq<char>)>,
    pub remove_source: bool,
}

impl View for NormalizationPlan {
    type V = PlanModel;

    open spec fn view(&self) -> PlanModel {
        PlanModel {
            source: self.source@,
            target: self.target@,
            writes: writes_view(self.writes@),
            remove_source: self.remove_source,
        }
    }
}

/// The writes of a split: each task line to its own file.
pub open spec fn split_writes(source: Seq<char>, tasks: Seq<(int, Seq<char>)>) -> Seq<(Seq<char>, Seq<char>)> {
    tasks.map_values(|t: (int, Seq<char>)| (normalized(source, t.0), strip_line_end(t.1).push('\n')))
}

/// The plan for a task file: with one task line, nothing to do; with
/// several, one file per line, the source removed unless a line stays in it.
pub open spec fn normalization(source: Seq<char>, index: int, content: Seq<char>) -> Result<PlanModel, (ErrorKind, Seq<char>)> {
    let tasks = numbered_task_lines(lines_of(content));
    if tasks.len() == 0 {
        Err((ErrorKind::InvalidData, "task file did not contain any task lines"@))
    } else if task_line_at(content, index) is None {
        Err((ErrorKind::NotFound, "task line index does not exist in source file"@))
    } else if tasks.len() == 1 {
        Ok(PlanModel { source, target: source, writes: seq![], remove_source: false })
    } else if components(source).len() == 0 {
        Err((ErrorKind::InvalidInput, "task file did not have a parent directory"@))
    } else {
        let writes = split_writes(source, tasks);
        Ok(PlanModel {
            source,
            target: normalized(source, index),
            writes,
            remove_source: !(exists|k: int| 0 <= k < writes.len() && same_path(#[trigger] writes[k].0, source)),
        })
    }
}

impl TaskId {
    /// The file name of the task's file.
    pub fn file_name(&self) -> (r: String)
        requires
            file_name(self.path@) is Some,
        ensures
            r@ == file_name(self.path@)->0,
    {
        let n = path_file_name(&chars_of(self.path.as_str()));
        match n {
            Some(v) => string_of(&v),
            None => String::new(),
        }
    }
}

fn normalized_path(source: &str, line_index: usize) -> (r: Result<String, StoreError>)
    ensures
        line_index == 0 ==> (r matches Ok(x) && x@ == source@),
        line_index != 0 && components(source@).len() == 0 ==> is_error(r, ErrorKind::InvalidInput, "task file did not have a parent directory"@),
        line_index != 0 && components(source@).len() > 0 ==> (r matches Ok(x) && x@ == normalized(source@, line_index as int)),
{
    if line_index == 0 {
        return Ok(owned(source));
    }
    let sv = chars_of(source);
    let stem = match path_file_stem(&sv) {
        Some(s) => s,
        None => {
            return Err(fail(ErrorKind::InvalidInput, "task file did not have a parent directory"));
        },
    };
    let ext = match path_extension(&sv) {
        Some(e) => string_of(&e),
        None => owned("txt"),
    };
    let mut name = string_of(&stem);
    push_str(&mut name, "-line-");
    push_str(&mut name, string_of(&decimal_chars(line_index as u64)).as_str());
    push_str(&mut name, ".");
    push_str(&mut name, ext.as_str());
    let parent = parent_of(source);
    Ok(join(parent.as_str(), name.as_str()))
}

impl TaskStore {
    /// The store rooted at `root`.
    pub fn new(root: &str) -> (r: TaskStore)
        ensures
            r@ == root@,
    {
        TaskStore { root: owned(root) }
    }

    /// The root directory.
    pub fn root_dir(&self) -> (r: &str)
        ensures
            r@ == self@,
    {
        self.root.as_str()
    }

    /// The directory of done tasks.
    pub fn done_dir(&self) -> (r: String)
        ensures
            r@ == done_dir_of(self@),
    {
        join(self.root.as_str(), "done.txt.d")
    }

    /// The directory of smart lists.
    pub fn lists_dir(&self) -> (r: String)
        ensures
            r@ == join_path(self@, "lists.d"@),
    {
        join(self.root.as_str(), "lists.d")
    }

    /// The path of a task, checked against the store's directories and the
    /// state it is expected in.
    pub fn validate_task_id(&self, id: &TaskId, expected: ExpectedLocation) -> (r: Result<String, StoreError>)
        ensures
            agrees(r, validated(self@, id.path@, expected)),
    {
        let pv = chars_of(id.path.as_str());
        if crate::paths::path_components(&pv).len() == 0 {
            return Err(fail(ErrorKind::InvalidInput, "task path did not have a parent directory"));
        }
        let done = self.done_dir();
        let parent_ok = match expected {
            ExpectedLocation::Open => has_parent(id.path.as_str(), self.root.as_str()),
            ExpectedLocation::Done => has_parent(id.path.as_str(), done.as_str()),
            ExpectedLocation::Either => has_parent(id.path.as_str(), self.root.as_str()) || has_parent(id.path.as_str(), done.as_str()),
        };
        if !parent_ok {
            return Err(fail(ErrorKind::InvalidInput, "task id does not belong to this store or expected state"));
        }
        let is_txt = match path_extension(&pv) {
            Some(e) => crate::text::chars_eq_lit(&e, "txt"),
            None => false,
        };
        if !is_txt {
            return Err(fail(ErrorKind::InvalidInput, "task ids must point to .txt task files"));
        }
        Ok(id.path.clone())
    }

    /// The plan that splits a task file into one file per task line, with
    /// the file that line `line_index` ends up in.
    pub fn build_normalization_plan_from_content(&self, source: &str, line_index: usize, content: &str) -> (r: Result<NormalizationPlan, StoreError>)
        ensures
            match normalization(source@, line_index as int, content@) {
                Ok(p) => r matches Ok(x) && x@ == p,
                Err((k, m)) => r matches Err(e) && e.kind == k && e.message@ == m,
            },
    {
        let tasks = task_lines(content);
        if tasks.len() == 0 {
            return Err(fail(ErrorKind::InvalidData, "task file did not contain any task lines"));
        }
        match find_task_line(content, line_index) {
            Ok(_) => {},
            Err(e) => {
                return Err(e);
            },
        }
        if tasks.len() == 1 {
            let plan = NormalizationPlan { source: owned(source), target: owned(source), writes: Vec::new(), remove_source: false };
            assert(plan@.writes =~= Seq::<(Seq<char>, Seq<char>)>::empty());
            return Ok(plan);
        }
        let sv = chars_of(source);
        if crate::paths::path_components(&sv).len() == 0 {
            return Err(fail(ErrorKind::InvalidInput, "task file did not have a parent directory"));
        }
        let ghost tv = numbered_view(tasks@);
        let mut writes: Vec<PlannedWrite> = Vec::new();
        let mut target = owned(source);
        let mut reused = false;
        let mut i: usize = 0;
        while i < tasks.len()
            invariant
                i <= tasks.len(),
                tv == numbered_view(tasks@),
                components(source@).len() > 0,
                writes_view(writes@) == split_writes(source@, tv.subrange(0, i as int)),
                reused == exists|k: int| 0 <= k < i && same_path(#[trigger] split_writes(source@, tv)[k].0, source@),
                (exists|k: int| 0 <= k < i && tv[k].0 == line_index) ==> target@ == normalized(source@, line_index as int),
                !(exists|k: int| 0 <= k < i && tv[k].0 == line_index) ==> target@ == source@,
            decreases tasks.len() - i,
        {
            let ghost before = writes_view(writes@);
            let idx = tasks[i].0;
            let dest = match normalized_path(source, idx) {
                Ok(d) => d,
                Err(e) => {
                    return Err(e);
                },
            };
            assert(tv[i as int] == (idx as int, tasks@[i as int].1@));
            if path_eq(dest.as_str(), source) {
                reused = true;
            }
            if idx == line_index {
                target = dest.clone();
            }
            let contents = with_trailing_newline(tasks[i].1.as_str());
            let ghost dv = dest@;
            let ghost cv = contents@;
            assert(dv == normalized(source@, idx as int));
            assert(cv == strip_line_end(tv[i as int].1).push('\n'));
            writes.push(PlannedWrite { destination: dest, contents });
            proof {
                assert(writes_view(writes@) =~= before.push((dv, cv)));
                assert(tv.subrange(0, i + 1) =~= tv.subrange(0, i as int).push(tv[i as int]));
                assert(split_writes(source@, tv.subrange(0, i + 1)) =~= split_writes(source@, tv.subrange(0, i as int)).push((dv, cv)));
                assert(split_writes(source@, tv)[i as int] == split_writes(source@, tv.subrange(0, i + 1))[i as int]);
                if reused {
                    if !same_path(split_writes(source@, tv)[i as int].0, source@) {
                        let k = choose|k: int| 0 <= k < i && same_path(#[trigger] split_writes(source@, tv)[k].0, source@);
                    }
                }
                if exists|k: int| 0 <= k < i + 1 && tv[k].0 == line_index {
                    if idx != line_index {
                        let k = choose|k: int| 0 <= k < i + 1 && tv[k].0 == line_index;
                        assert(k < i);
                    }
                }
            }
            i = i + 1;
        }
        proof {
            assert(tv.subrange(0, tasks.len() as int) =~= tv);
            assert(task_line_at(content@, line_index as int) is Some);
            lemma_numbered_has(lines_of(content@), line_index as int);
        }
        Ok(NormalizationPlan { source: owned(source), target, writes, remove_source: !reused })
    }

    /// Where an edited task's file goes: into `done.txt.d` when the task is
    /// done, back into the root when it is open again, else where it is.
    pub fn edited_task_destination(&self, path: &str, is_done: bool) -> (r: Result<String, StoreError>)
        ensures
            components(path@).len() == 0 ==> is_error(r, ErrorKind::InvalidInput, "task file did not have a file name"@),
            components(path@).len() > 0 ==> (r matches Ok(x) && x@ == (if is_done {
                if parent_is(path@, done_dir_of(self@)) {
                    path@
                } else {
                    join_path(done_dir_of(self@), file_name(path@)->0)
                }
            } else if parent_is(path@, done_dir_of(self@)) {
                join_path(self@, file_name(path@)->0)
            } else {
                path@
            })),
    {
        let name = match path_file_name(&chars_of(path)) {
            Some(n) => string_of(&n),
            None => {
                return Err(fail(ErrorKind::InvalidInput, "task file did not have a file name"));
            },
        };
        let done = self.done_dir();
        let in_done = has_parent(path, done.as_str());
        if is_done {
            if in_done {
                Ok(owned(path))
            } else {
                Ok(join(done.as_str(), name.as_str()))
            }
        } else if in_done {
            Ok(join(self.root.as_str(), name.as_str()))
        } else {
            Ok(owned(path))
        }
    }
}

proof fn lemma_numbered_has(lines: Seq<Seq<char>>, index: int)
    requires
        0 <= index < lines.len(),
        trim(lines[index]).len() > 0,
    ensures
        exists|k: int| 0 <= k < numbered_task_lines(lines).len() && #[trigger] numbered_task_lines(lines)[k].0 == index,
    decreases lines.len(),
{
    let n = numbered_task_lines(lines);
    if index == lines.len() - 1 {
        assert(n[n.len() - 1].0 == index);
    } else {
        lemma_numbered_has(lines.drop_last(), index);
        let r = numbered_task_lines(lines.drop_last());
        let k = choose|k: int| 0 <= k < r.len() && #[trigger] r[k].0 == index;
        assert(n[k] == r[k]);
    }
}

// -- Loading ------------------------------------------------------------------

/// The tasks of one file: each task line, parsed, with its place.
pub open spec fn file_tasks(path: Seq<char>, content: Seq<char>) -> Seq<StoredModel> {
    numbered_task_lines(lines_of(content)).map_values(
        |t: (int, Seq<char>)| StoredModel { id: TaskIdModel { path, line_index: t.0 }, task: spec_task(t.1) },
    )
}

/// The tasks of the `.txt` files among `files` (path and content).
pub open spec fn files_tasks(files: Seq<(Seq<char>, Seq<char>)>) -> Seq<StoredModel>
    decreases files.len(),
{
    if files.len() == 0 {
        seq![]
    } else {
        let rest = files_tasks(files.drop_last());
        let f = files.last();
        if extension(f.0) == Some("txt"@) {
            rest + file_tasks(f.0, f.1)
        } else {
            rest
        }
    }
}

pub open spec fn files_view(v: Seq<(String, String)>) -> Seq<(Seq<char>, Seq<char>)> {
    v.map_values(|f: (String, String)| (f.0@, f.1@))
}

/// Task places ordered by path, then by line.
pub open spec fn id_order(a: TaskIdModel, b: TaskIdModel) -> Order3 {
    then(lex_order(a.path, b.path), int_order(a.line_index, b.line_index))
}

/// Orders stored tasks by their place.
pub struct IdOrderer;

impl Orderer<StoredTask> for IdOrderer {
    open spec fn spec_order(&self, a: StoredTask, b: StoredTask) -> Order3 {
        id_order(a.id@, b.id@)
    }

    proof fn lemma_flip(&self, a: StoredTask, b: StoredTask) {
        lemma_lex_order_flip(a.id.path@, b.id.path@);
    }

    fn order(&self, a: &StoredTask, b: &StoredTask) -> (r: Order3) {
        let o = str_order(a.id.path.as_str(), b.id.path.as_str());
        if o != Order3::Equal {
            o
        } else if a.id.line_index < b.id.line_index {
            Order3::Less
        } else if a.id.line_index == b.id.line_index {
            Order3::Equal
        } else {
            Order3::Greater
        }
    }
}

/// The tasks of the `.txt` files among `files` (path and content), ordered
/// by path and line.
pub fn load_tasks(files: &[(String, String)]) -> (r: Vec<StoredTask>)
    ensures
        stored_view(r@).to_multiset() == files_tasks(files_view(files@)).to_multiset(),
        forall|i: int| 0 <= i < r@.len() - 1 ==> id_order(r@[i].id@, #[trigger] r@[i + 1].id@) != Order3::Greater,
{
    let ghost fv = files_view(files@);
    let mut r: Vec<StoredTask> = Vec::new();
    let mut i: usize = 0;
    while i < files.len()
        invariant
            i <= files.len(),
            fv == files_view(files@),
            stored_view(r@) == files_tasks(fv.subrange(0, i as int)),
        decreases files.len() - i,
    {
        let ghost before = stored_view(r@);
        assert(fv.subrange(0, i + 1).drop_last() =~= fv.subrange(0, i as int));
        assert(fv.subrange(0, i + 1).last() == (files@[i as int].0@, files@[i as int].1@));
        let path = &files[i].0;
        let is_txt = match path_extension(&chars_of(path.as_str())) {
            Some(e) => crate::text::chars_eq_lit(&e, "txt"),
            None => false,
        };
        if is_txt {
            let lines = task_lines(files[i].1.as_str());
            let ghost nv = numbered_view(lines@);
            let ghost ft = file_tasks(path@, files@[i as int].1@);
            let mut k: usize = 0;
            while k < lines.len()
                invariant
                    k <= lines.len(),
                    nv == numbered_view(lines@),
                    ft == nv.map_values(|t: (int, Seq<char>)| StoredModel { id: TaskIdModel { path: path@, line_index: t.0 }, task: spec_task(t.1) }),
                    stored_view(r@) == before + ft.subrange(0, k as int),
                decreases lines.len() - k,
            {
                let ghost mid = stored_view(r@);
                let st = StoredTask {
                    id: TaskId { path: path.clone(), line_index: lines[k].0 },
                    task: parse_task_line(lines[k].1.as_str()),
                };
                assert(st@ == ft[k as int]);
                r.push(st);
                assert(stored_view(r@) =~= mid.push(ft[k as int]));
                assert(ft.subrange(0, k + 1) =~= ft.subrange(0, k as int).push(ft[k as int]));
                k = k + 1;
            }
            assert(ft.subrange(0, lines.len() as int) =~= ft);
        }
        i = i + 1;
    }
    assert(fv.subrange(0, files.len() as int) =~= fv);
    let ghost unsorted = r@;
    sort_by(&mut r, &IdOrderer);
    proof {
        lemma_map_multiset(r@, unsorted, |s: StoredTask| s@);
        assert forall|i: int| 0 <= i < r@.len() - 1 implies id_order(r@[i].id@, #[trigger] r@[i + 1].id@) != Order3::Greater by {
            assert(IdOrderer.spec_order(r@[i], r@[i + 1]) != Order3::Greater);
        }
    }
    r
}

// -- Moving a task between open and done --------------------------------------

/// The moves of a task file: its split, where the task's file goes, and the
/// contents it gets there (or why the task cannot move).
#[derive(Debug)]
pub struct MovePlan {
    pub normalization: NormalizationPlan,
    pub destination: String,
    pub update: Result<String, StoreError>,
}

/// The task line as it reads from its file once the file is split.
pub open spec fn line_after_split(plan: PlanModel, content: Seq<char>, index: int) -> Seq<char> {
    if plan.writes.len() == 0 {
        task_line_at(content, index)->0
    } else {
        strip_line_end(task_line_at(content, index)->0)
    }
}

impl TaskStore {
    /// The tasks of the store: open tasks from the root's files, done tasks
    /// from those of `done.txt.d` (each given as path and content).
    pub fn load_all(&self, open_files: &[(String, String)], done_files: &[(String, String)]) -> (r: Snapshot)
        ensures
            stored_view(r.open_tasks@).to_multiset() == files_tasks(files_view(open_files@)).to_multiset(),
            stored_view(r.done_tasks@).to_multiset() == files_tasks(files_view(done_files@)).to_multiset(),
            forall|i: int| 0 <= i < r.open_tasks@.len() - 1 ==> id_order(r.open_tasks@[i].id@, #[trigger] r.open_tasks@[i + 1].id@) != Order3::Greater,
            forall|i: int| 0 <= i < r.done_tasks@.len() - 1 ==> id_order(r.done_tasks@[i].id@, #[trigger] r.done_tasks@[i + 1].id@) != Order3::Greater,
    {
        Snapshot { open_tasks: load_tasks(open_files), done_tasks: load_tasks(done_files) }
    }

    /// The index of the whole store: the root's files and those of
    /// `done.txt.d`.
    pub fn snapshot_index(&self, root_index: &SnapshotIndex, done_index: &SnapshotIndex) -> (r: SnapshotIndex)
        ensures
            r@ == root_index@.union_prefer_right(done_index@),
    {
        root_index.merge(done_index)
    }

    /// Plans moving the task at `id` (whose file holds `content`) out of
    /// `from` into the other directory, its line rewritten by `to_done`'s
    /// formatting.
    fn plan_move(&self, id: &TaskId, content: &str, to_done: bool, completion_date: &str) -> (r: Result<MovePlan, StoreError>)
        ensures
            ({
                let from = if to_done { ExpectedLocation::Open } else { ExpectedLocation::Done };
                match validated(self@, id.path@, from) {
                    Err((k, m)) => is_error(r, k, m),
                    Ok(source) => match normalization(source, id.line_index as int, content@) {
                        Err((k, m)) => is_error(r, k, m),
                        Ok(plan) => match file_name(plan.target) {
                            None => is_error(r, ErrorKind::InvalidInput, "task file did not have a file name"@),
                            Some(name) => r matches Ok(mp) && mp.normalization@ == plan && mp.destination@ == join_path(
                                if to_done { done_dir_of(self@) } else { self@ },
                                name,
                            ) && (to_done ==> done_update(mp.update, line_after_split(plan, content@, id.line_index as int), completion_date@))
                              && (!to_done ==> restored_update(mp.update, line_after_split(plan, content@, id.line_index as int))),
                        },
                    },
                }
            }),
    {
        let from = if to_done { ExpectedLocation::Open } else { ExpectedLocation::Done };
        let source = match self.validate_task_id(id, from) {
            Ok(s) => s,
            Err(e) => return Err(e),
        };
        let plan = match self.build_normalization_plan_from_content(source.as_str(), id.line_index, content) {
            Ok(p) => p,
            Err(e) => return Err(e),
        };
        let name = match path_file_name(&chars_of(plan.target.as_str())) {
            Some(n) => string_of(&n),
            None => return Err(fail(ErrorKind::InvalidInput, "task file did not have a file name")),
        };
        let destination = if to_done {
            join(self.done_dir().as_str(), name.as_str())
        } else {
            join(self.root.as_str(), name.as_str())
        };
        let line = match find_task_line(content, id.line_index) {
            Ok(l) => l,
            Err(e) => return Err(e),
        };
        let line = if plan.writes.len() == 0 {
            line
        } else {
            let w = with_trailing_newline(line.as_str());
            let wv = chars_of(w.as_str());
            assert(wv@.subrange(0, wv.len() - 1) =~= strip_line_end(line@));
            string_of(&slice_of(&wv, 0, wv.len() - 1))
        };
        proof {
            assert(plan@.writes.len() == plan.writes.len());
        }
        let formatted = if to_done {
            format_done_line(line.as_str(), completion_date)
        } else {
            format_restored_line(line.as_str())
        };
        let update = match formatted {
            Ok(x) => Ok(with_trailing_newline(x.as_str())),
            Err(e) => Err(e),
        };
        Ok(MovePlan { normalization: plan, destination, update })
    }

    /// Plans marking the task at `id` done on `completion_date`, given the
    /// content of its file: the task's file moves into `done.txt.d` with its
    /// line marked done.
    pub fn plan_mark_done(&self, id: &TaskId, completion_date: &str, content: &str) -> (r: Result<MovePlan, StoreError>)
        ensures
            match validated(self@, id.path@, ExpectedLocation::Open) {
                Err((k, m)) => is_error(r, k, m),
                Ok(source) => match normalization(source, id.line_index as int, content@) {
                    Err((k, m)) => is_error(r, k, m),
                    Ok(plan) => match file_name(plan.target) {
                        None => is_error(r, ErrorKind::InvalidInput, "task file did not have a file name"@),
                        Some(name) => r matches Ok(mp) && mp.normalization@ == plan && mp.destination@ == join_path(done_dir_of(self@), name)
                            && done_update(mp.update, line_after_split(plan, content@, id.line_index as int), completion_date@),
                    },
                },
            },
    {
        self.plan_move(id, content, true, completion_date)
    }

    /// Plans marking done the open task whose file in the root is
    /// `file_name` (its first line), given that file's content.
    pub fn mark_done_by_name(&self, file_name: &str, completion_date: &str, content: &str) -> (r: Result<MovePlan, StoreError>)
        ensures
            ({
                let path = join_path(self@, file_name@);
                match validated(self@, path, ExpectedLocation::Open) {
                    Err((k, m)) => is_error(r, k, m),
                    Ok(source) => match normalization(source, 0, content@) {
                        Err((k, m)) => is_error(r, k, m),
                        Ok(plan) => match crate::paths::file_name(plan.target) {
                            None => is_error(r, ErrorKind::InvalidInput, "task file did not have a file name"@),
                            Some(name) => r matches Ok(mp) && mp.normalization@ == plan && mp.destination@ == join_path(done_dir_of(self@), name)
                                && done_update(mp.update, line_after_split(plan, content@, 0), completion_date@),
                        },
                    },
                }
            }),
    {
        let id = TaskId { path: join(self.root.as_str(), file_name), line_index: 0 };
        self.plan_mark_done(&id, completion_date, content)
    }

    /// Plans restoring the done task at `id` to open, given the content of
    /// its file: the task's file moves back into the root with its line
    /// restored.
    pub fn plan_restore(&self, id: &TaskId, content: &str) -> (r: Result<MovePlan, StoreError>)
        ensures
            match validated(self@, id.path@, ExpectedLocation::Done) {
                Err((k, m)) => is_error(r, k, m),
                Ok(source) => match normalization(source, id.line_index as int, content@) {
                    Err((k, m)) => is_error(r, k, m),
                    Ok(plan) => match file_name(plan.target) {
                        None => is_error(r, ErrorKind::InvalidInput, "task file did not have a file name"@),
                        Some(name) => r matches Ok(mp) && mp.normalization@ == plan && mp.destination@ == join_path(self@, name)
                            && restored_update(mp.update, line_after_split(plan, content@, id.line_index as int)),
                    },
                },
            },
    {
        self.plan_move(id, content, false, "")
    }
}

/// The contents of a line marked done on `date`, or why it cannot be.
/// Where an edited task's file goes (see `edited_task_destination`), when
/// the file has a name.
pub open spec fn edit_destination(root: Seq<char>, path: Seq<char>, is_done: bool) -> Option<Seq<char>> {
    if components(path).len() == 0 {
        None
    } else if is_done {
        if parent_is(path, done_dir_of(root)) {
            Some(path)
        } else {
            Some(join_path(done_dir_of(root), file_name(path)->0))
        }
    } else if parent_is(path, done_dir_of(root)) {
        Some(join_path(root, file_name(path)->0))
    } else {
        Some(path)
    }
}

/// What saving an edited task line does: report that the line changed on
/// disk, or split its file and write the line to its destination.
#[derive(Debug)]
pub enum EditSave {
    Conflict { external_raw: String },
    Save { normalization: NormalizationPlan, destination: String, contents: String },
}

impl TaskStore {
    /// Plans the save of an edited task line, given the current content of
    /// its file: a line that changed on disk since it was opened (and is
    /// not to be overwritten) is a conflict; otherwise the file is split
    /// and the line goes where `edit_destination` says, with one newline.
    pub fn plan_edit_save(
        &self,
        id: &TaskId,
        original_raw: &str,
        raw: &str,
        overwrite_conflict: bool,
        content: &str,
    ) -> (r: Result<EditSave, StoreError>)
        ensures
            has_line_break(raw@) ==> is_error(r, ErrorKind::InvalidInput, "task updates must contain exactly one task line"@),
            !has_line_break(raw@) && trim(raw@).len() == 0 ==> is_error(r, ErrorKind::InvalidInput, "task updates must not be blank"@),
            !has_line_break(raw@) && trim(raw@).len() > 0 ==> match validated(self@, id.path@, ExpectedLocation::Either) {
                Err((k, m)) => is_error(r, k, m),
                Ok(source) => match task_line_at(content@, id.line_index as int) {
                    None => is_error(r, ErrorKind::NotFound, "task line index does not exist in source file"@),
                    Some(current) => if !overwrite_conflict && current != original_raw@ {
                        r matches Ok(EditSave::Conflict { external_raw }) && external_raw@ == current
                    } else {
                        match normalization(source, id.line_index as int, content@) {
                            Err((k, m)) => is_error(r, k, m),
                            Ok(plan) => match edit_destination(self@, plan.target, spec_task(raw@).done) {
                                None => is_error(r, ErrorKind::InvalidInput, "task file did not have a file name"@),
                                Some(d) => r matches Ok(EditSave::Save { normalization, destination, contents })
                                    && normalization@ == plan && destination@ == d
                                    && contents@ == strip_line_end(raw@).push('\n'),
                            },
                        }
                    },
                },
            },
    {
        match ensure_single_task_input(raw) {
            Ok(()) => {},
            Err(e) => return Err(e),
        }
        let source = match self.validate_task_id(id, ExpectedLocation::Either) {
            Ok(s) => s,
            Err(e) => return Err(e),
        };
        let current = match find_task_line(content, id.line_index) {
            Ok(l) => l,
            Err(e) => return Err(e),
        };
        if !overwrite_conflict && !crate::text::str_eq(current.as_str(), original_raw) {
            return Ok(EditSave::Conflict { external_raw: current });
        }
        let plan = match self.build_normalization_plan_from_content(source.as_str(), id.line_index, content) {
            Ok(p) => p,
            Err(e) => return Err(e),
        };
        let done = parse_task_line(raw).done;
        let destination = match self.edited_task_destination(plan.target.as_str(), done) {
            Ok(d) => d,
            Err(e) => return Err(e),
        };
        Ok(EditSave::Save { normalization: plan, destination, contents: with_trailing_newline(raw) })
    }
}

pub open spec fn done_update(r: Result<String, StoreError>, raw: Seq<char>, date: Seq<char>) -> bool {
    &&& !is_date_seq(date) ==> is_error(r, ErrorKind::InvalidInput, "completion date must use YYYY-MM-DD format"@)
    &&& is_date_seq(date) && spec_task(raw).done ==> is_error(r, ErrorKind::InvalidInput, "cannot mark an already completed task as done"@)
    &&& is_date_seq(date) && !spec_task(raw).done ==> (r matches Ok(x) && x@ == strip_line_end(done_line(raw, date)).push('\n'))
}

/// The contents of a restored line, or why it cannot be restored.
pub open spec fn restored_update(r: Result<String, StoreError>, raw: Seq<char>) -> bool {
    &&& !spec_task(raw).done ==> is_error(r, ErrorKind::InvalidInput, "cannot restore an open task"@)
    &&& spec_task(raw).done && completed_tail(raw) is None ==> is_error(r, ErrorKind::InvalidData, "completed task line was missing completion metadata"@)
    &&& spec_task(raw).done && completed_tail(raw) is Some ==> (r matches Ok(x) && x@ == strip_line_end(restored_line(raw, completed_tail(raw)->0)).push('\n'))
}

/// A line marked done reads as a done task, completed on the given date.
pub proof fn law_done_line_is_done(raw: Seq<char>, date: Seq<char>)
    requires
        is_date_seq(date),
    ensures
        spec_task(done_line(raw, date)).done,
        spec_task(done_line(raw, date)).completion_date == Some(date),
{
    reveal_strlit("x ");
    reveal_strlit(" ");
    let d = done_line(raw, date);
    assert(d.subrange(0, 2) =~= seq!['x', ' ']);
    assert(d.subrange(2, 12) =~= date);
    assert(d[12] == ' ');
    assert(crate::parser::completed_prefix(d) == Some((date, 13int)));
}

/// Marking an open line done keeps the whole line after `x <date> `: a
/// line without a priority is kept as it is (its creation date and
/// description included); a line that opens with `(P) ` loses that prefix,
/// and the priority is kept as a trailing `pri:P` tag.
pub proof fn law_done_line_keeps_the_line(raw: Seq<char>, date: Seq<char>)
    requires
        !spec_task(raw).done,
    ensures
        spec_task(raw).priority is None ==> done_line(raw, date) == "x "@ + date + " "@ + raw,
        spec_task(raw).priority matches Some(p) ==> raw.len() >= 3 && raw.subrange(0, 3) == seq!['(', p, ')'],
        spec_task(raw).priority matches Some(p) ==> (raw.len() > 4 ==> raw[3] == ' '
            && done_line(raw, date) == "x "@ + date + " "@ + raw.subrange(4, raw.len() as int) + " pri:"@ + seq![p]),
{
    if let Some(p) = spec_task(raw).priority {
        assert(crate::parser::completed_prefix(raw) is None);
        assert(crate::parser::priority_prefix(raw) is Some);
        assert(raw.subrange(0, 3) =~= seq!['(', p, ')']);
    }
}

/// Restoring reads back what marking done wrote: the text after the
/// completion marker and date of a line marked done is the open line as it
/// was (for a line without a priority), and restoring that done line gives
/// the line back when it holds no `pri:` tag of one uppercase letter.
pub proof fn law_restore_reads_back_done_line(raw: Seq<char>, date: Seq<char>)
    requires
        is_date_seq(date),
        !spec_task(raw).done,
        spec_task(raw).priority is None,
    ensures
        completed_tail(done_line(raw, date)) == Some(raw),
        (match tag_lookup(spec_task(done_line(raw, date)).tags, "pri"@) {
            Some(v) => !(v.len() == 1 && is_upper(v[0])),
            None => true,
        }) ==> restored_line(done_line(raw, date), raw) == raw,
{
    reveal_strlit("x ");
    reveal_strlit(" ");
    let d = done_line(raw, date);
    assert(d =~= "x "@ + date + " "@ + raw);
    assert(starts_with(d, "x "@)) by {
        assert(d.subrange(0, 2) =~= "x "@);
    }
    let rem = d.subrange(2, d.len() as int);
    assert(rem =~= date + " "@ + raw);
    assert forall|k: int| 0 <= k < 10 implies rem[k] != ' ' by {
        assert(rem[k] == date[k]);
    }
    assert(rem[10] == ' ');
    crate::text::lemma_index_of_at(rem, ' ', 10);
    assert(rem.subrange(0, 10) =~= date);
    assert(rem.subrange(11, rem.len() as int) =~= raw);
}

/// Adding a line end to a line that already has exactly one changes nothing.
pub proof fn law_trailing_newline_idempotent(raw: Seq<char>)
    ensures
        strip_line_end(strip_line_end(raw).push('\n')).push('\n') == strip_line_end(raw).push('\n'),
{
    let x = strip_line_end(raw);
    lemma_strip_line_end_stable(raw);
    assert(x.push('\n').drop_last() =~= x);
    assert(x.push('\n').last() == '\n');
    assert(strip_line_end(x.push('\n')) == strip_line_end(x));
}

proof fn lemma_strip_line_end_stable(s: Seq<char>)
    ensures
        strip_line_end(s) == s <==> !(s.len() > 0 && (s.last() == '\r' || s.last() == '\n')),
        strip_line_end(strip_line_end(s)) == strip_line_end(s),
    decreases s.len(),
{
    if s.len() > 0 && (s.last() == '\r' || s.last() == '\n') {
        lemma_strip_line_end_stable(s.drop_last());
        lemma_strip_shorter(s.drop_last());
    }
}

proof fn lemma_strip_shorter(s: Seq<char>)
    ensures
        strip_line_end(s).len() <= s.len(),
    decreases s.len(),
{
    if s.len() > 0 && (s.last() == '\r' || s.last() == '\n') {
        lemma_strip_shorter(s.drop_last());
    }
}

} // verus!
