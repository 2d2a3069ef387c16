//! The task editor: a one-line text field with a cursor, and helper fields
//! for the `due`, `scheduled` and `starting` dates that edit the line's tags.
use vstd::prelude::*;

use crate::parser::{is_date, is_date_seq, parse_task_line, spec_task};
use crate::smartlist::eval::{resolvable, resolve_date_value, resolved_date};
use crate::smartlist::types::{opt_date_view, DateValueModel, Prefill, PrefillModel};
use crate::store::{TaskId, TaskIdModel};
use crate::task::tag_lookup;
use crate::text::{
    chars_have_at, chars_of, copy_opt_string, has_at, join_by, join_chars, opt_view, owned,
    push_char, push_str, slice_of, split_words, starts_with, string_of, strings_view, trim,
    trim_chars, vecs_view, words,
};

verus! {

#[derive(Debug, Clone, Copy, PartialEq, Eq, Structural)]
pub enum EditorMode {
    QuickEntry,
    Edit,
}

/// The task chosen for editing: its place, its line as shown, and its line
/// as read from the file.
#[derive(Debug, Clone, PartialEq, Eq)]
pub struct SelectedTask {
    pub id: TaskId,
    pub normalized_raw: String,
    pub original_raw: String,
}

pub ghost struct SelectedModel {
    pub id: TaskIdModel,
    pub normalized_raw: Seq<char>,
    pub original_raw: Seq<char>,
}

impl View for SelectedTask {
    type V = SelectedModel;

    open spec fn view(&self) -> SelectedModel {
        SelectedModel { id: self.id@, normalized_raw: self.normalized_raw@, original_raw: self.original_raw@ }
    }
}

impl SelectedTask {
    /// A selected task whose line reads as shown.
    pub fn new(id: TaskId, normalized_raw: &str) -> (r: SelectedTask)
        ensures
            r.id == id,
            r.normalized_raw@ == normalized_raw@,
            r.original_raw@ == normalized_raw@,
    {
        SelectedTask { id, normalized_raw: owned(normalized_raw), original_raw: owned(normalized_raw) }
    }

    /// A selected task whose line in the file differs from the one shown.
    pub fn with_original_raw(id: TaskId, normalized_raw: &str, original_raw: &str) -> (r: SelectedTask)
        ensures
            r.id == id,
            r.normalized_raw@ == normalized_raw@,
            r.original_raw@ == original_raw@,
    {
        SelectedTask { id, normalized_raw: owned(normalized_raw), original_raw: owned(original_raw) }
    }
}

/// The date helpers of the editor.
#[derive(Debug, Clone, Copy, PartialEq, Eq, Structural)]
pub enum EditorShortcut {
    Due,
    Scheduled,
    Starting,
}

pub open spec fn shortcut_key(s: EditorShortcut) -> Seq<char> {
    match s {
        EditorShortcut::Due => "due"@,
        EditorShortcut::Scheduled => "scheduled"@,
        EditorShortcut::Starting => "starting"@,
    }
}

impl EditorShortcut {
    fn tag_key(self) -> (r: &'static str)
        ensures
            r@ == shortcut_key(self),
    {
        match self {
            EditorShortcut::Due => "due",
            EditorShortcut::Scheduled => "scheduled",
            EditorShortcut::Starting => "starting",
        }
    }

    /// The helper's title.
    pub fn label(self) -> (r: &'static str)
        ensures
            self == EditorShortcut::Due ==> r@ == "Due"@,
            self == EditorShortcut::Scheduled ==> r@ == "Scheduled"@,
            self == EditorShortcut::Starting ==> r@ == "Starting"@,
    {
        match self {
            EditorShortcut::Due => "Due",
            EditorShortcut::Scheduled => "Scheduled",
            EditorShortcut::Starting => "Starting",
        }
    }
}

/// An open date helper: its input field with a cursor, and the error shown
/// for an input that is not a date.
#[derive(Debug, Clone, PartialEq, Eq)]
pub struct EditorShortcutState {
    pub shortcut: EditorShortcut,
    pub input: String,
    pub cursor_pos: usize,
    pub error: Option<String>,
}

pub ghost struct ShortcutModel {
    pub shortcut: EditorShortcut,
    pub input: Seq<char>,
    pub cursor_pos: int,
    pub error: Option<Seq<char>>,
}

impl View for EditorShortcutState {
    type V = ShortcutModel;

    open spec fn view(&self) -> ShortcutModel {
        ShortcutModel {
            shortcut: self.shortcut,
            input: self.input@,
            cursor_pos: self.cursor_pos as int,
            error: opt_view(self.error),
        }
    }
}

/// The editor of one task line.
#[derive(Debug, Clone, PartialEq, Eq)]
pub struct EditorState {
    pub mode: EditorMode,
    pub raw_line: String,
    pub cursor_pos: usize,
    pub original_raw: Option<String>,
    pub due: Option<String>,
    pub scheduled: Option<String>,
    pub starting: Option<String>,
    pub task_id: Option<TaskId>,
    pub shortcut: Option<EditorShortcutState>,
}

pub ghost struct EditorModel {
    pub mode: EditorMode,
    pub raw_line: Seq<char>,
    pub cursor_pos: int,
    pub original_raw: Option<Seq<char>>,
    pub due: Option<Seq<char>>,
    pub scheduled: Option<Seq<char>>,
    pub starting: Option<Seq<char>>,
    pub task_id: Option<TaskIdModel>,
    pub shortcut: Option<ShortcutModel>,
}

impl View for EditorState {
    type V = EditorModel;

    open spec fn view(&self) -> EditorModel {
        EditorModel {
            mode: self.mode,
            raw_line: self.raw_line@,
            cursor_pos: self.cursor_pos as int,
            original_raw: opt_view(self.original_raw),
            due: opt_view(self.due),
            scheduled: opt_view(self.scheduled),
            starting: opt_view(self.starting),
            task_id: match self.task_id {
                Some(t) => Some(t@),
                None => None,
            },
            shortcut: match self.shortcut {
                Some(s) => Some(s@),
                None => None,
            },
        }
    }
}

/// The editor with its raw line set to `raw`, its helpers read from it.
pub open spec fn with_raw(m: EditorModel, raw: Seq<char>) -> EditorModel {
    let tags = spec_task(raw).tags;
    EditorModel {
        raw_line: raw,
        due: tag_lookup(tags, "due"@),
        scheduled: tag_lookup(tags, "scheduled"@),
        starting: tag_lookup(tags, "starting"@),
        ..m
    }
}

/// Applying the open date helper: a blank input removes the tag, a date
/// sets it (closing the helper), anything else keeps the helper open with an
/// error.
pub open spec fn shortcut_applied(e: EditorModel) -> (EditorModel, Option<ShortcutApplyOutcome>) {
    match e.shortcut {
        None => (e, None),
        Some(s) => if trim(s.input).len() > 0 && !is_date_seq(s.input) {
            (
                with_helper(e, Some(helper_state(s.shortcut, s.input, s.cursor_pos, Some("Use YYYY-MM-DD for helper dates"@)))),
                Some(ShortcutApplyOutcome::Rejected(s.shortcut)),
            )
        } else {
            (
                with_raw(
                    with_helper(e, None),
                    upserted(e.raw_line, shortcut_key(s.shortcut), if trim(s.input).len() > 0 {
                        Some(s.input)
                    } else {
                        None
                    }),
                ),
                Some(ShortcutApplyOutcome::Applied(s.shortcut)),
            )
        },
    }
}

/// The editor with its cursor at `c`.
pub open spec fn at_cursor(m: EditorModel, c: int) -> EditorModel {
    EditorModel { cursor_pos: c, ..m }
}

/// The editor with its date helper set to `s`.
pub open spec fn with_helper(m: EditorModel, s: Option<ShortcutModel>) -> EditorModel {
    EditorModel { shortcut: s, ..m }
}

pub open spec fn helper_state(shortcut: EditorShortcut, input: Seq<char>, cursor_pos: int, error: Option<Seq<char>>) -> ShortcutModel {
    ShortcutModel { shortcut, input, cursor_pos, error }
}

/// A fresh editor's state before its helpers are read from its line.
pub open spec fn fresh_editor(mode: EditorMode, raw: Seq<char>, original_raw: Option<Seq<char>>, task_id: Option<TaskIdModel>) -> EditorModel {
    EditorModel {
        mode,
        raw_line: raw,
        cursor_pos: raw.len() as int,
        original_raw,
        due: None,
        scheduled: None,
        starting: None,
        task_id,
        shortcut: None,
    }
}

/// `v` inserted into `s` at character `pos` (at the end, when `pos` lies
/// beyond it).
pub open spec fn insert_at(s: Seq<char>, pos: int, v: Seq<char>) -> Seq<char> {
    let p = if pos < s.len() {
        pos
    } else {
        s.len() as int
    };
    s.subrange(0, p) + v + s.subrange(p, s.len() as int)
}

/// `s` without the character before `pos` (unchanged when `pos` lies
/// beyond its end).
pub open spec fn remove_before(s: Seq<char>, pos: int) -> Seq<char> {
    if 0 < pos <= s.len() {
        s.subrange(0, pos - 1) + s.subrange(pos, s.len() as int)
    } else {
        s
    }
}

/// The words of `raw` without the `key:` tags, and `key:value` at the end
/// when a value is given, joined by single spaces.
pub open spec fn upserted(raw: Seq<char>, key: Seq<char>, value: Option<Seq<char>>) -> Seq<char> {
    let kept = without_key(words(raw), key + ":"@);
    join_by(
        match value {
            Some(v) => kept.push(key + ":"@ + v),
            None => kept,
        },
        ' ',
    )
}

/// The words that do not start with `prefix`.
pub open spec fn without_key(ws: Seq<Seq<char>>, prefix: Seq<char>) -> Seq<Seq<char>>
    decreases ws.len(),
{
    if ws.len() == 0 {
        seq![]
    } else {
        let rest = without_key(ws.drop_last(), prefix);
        if starts_with(ws.last(), prefix) {
            rest
        } else {
            rest.push(ws.last())
        }
    }
}

fn insert_chars(s: &str, pos: usize, v: &str) -> (r: String)
    ensures
        r@ == insert_at(s@, pos as int, v@),
{
    let sv = chars_of(s);
    let p = if pos < sv.len() {
        pos
    } else {
        sv.len()
    };
    let mut out = slice_of(&sv, 0, p);
    let vv = chars_of(v);
    let mut i: usize = 0;
    let ghost head = out@;
    while i < vv.len()
        invariant
            i <= vv.len(),
            out@ == head + vv@.subrange(0, i as int),
        decreases vv.len() - i,
    {
        out.push(vv[i]);
        i = i + 1;
        assert(out@ =~= head + vv@.subrange(0, i as int));
    }
    let ghost mid = out@;
    let mut j = p;
    while j < sv.len()
        invariant
            p <= j <= sv.len(),
            out@ == mid + sv@.subrange(p as int, j as int),
        decreases sv.len() - j,
    {
        out.push(sv[j]);
        j = j + 1;
        assert(out@ =~= mid + sv@.subrange(p as int, j as int));
    }
    assert(vv@.subrange(0, vv.len() as int) =~= vv@);
    assert(out@ =~= insert_at(s@, pos as int, v@));
    string_of(&out)
}

fn remove_char_before(s: &str, pos: usize) -> (r: String)
    ensures
        r@ == remove_before(s@, pos as int),
{
    let sv = chars_of(s);
    if pos == 0 || pos > sv.len() {
        return owned(s);
    }
    let mut out = slice_of(&sv, 0, pos - 1);
    let ghost head = out@;
    let mut j = pos;
    while j < sv.len()
        invariant
            pos <= j <= sv.len(),
            out@ == head + sv@.subrange(pos as int, j as int),
        decreases sv.len() - j,
    {
        out.push(sv[j]);
        j = j + 1;
        assert(out@ =~= head + sv@.subrange(pos as int, j as int));
    }
    string_of(&out)
}

/// The line with its `key:` tags replaced by `key:value`, or removed.
pub fn upsert_tag(raw_line: &str, key: &str, value: Option<&str>) -> (r: String)
    ensures
        r@ == upserted(raw_line@, key@, match value {
            Some(v) => Some(v@),
            None => None,
        }),
{
    let mut prefix = owned(key);
    push_char(&mut prefix, ':');
    proof {
        reveal_strlit(":");
        assert(prefix@ =~= key@ + ":"@);
    }
    let pv = chars_of(prefix.as_str());
    let ws = split_words(&chars_of(raw_line));
    let mut kept: Vec<Vec<char>> = Vec::new();
    let mut i: usize = 0;
    while i < ws.len()
        invariant
            i <= ws.len(),
            pv@ == key@ + ":"@,
            vecs_view(kept@) == without_key(vecs_view(ws@).subrange(0, i as int), pv@),
        decreases ws.len() - i,
    {
        let ghost before = vecs_view(kept@);
        assert(vecs_view(ws@).subrange(0, i + 1).drop_last() =~= vecs_view(ws@).subrange(0, i as int));
        assert(vecs_view(ws@).subrange(0, i + 1).last() == ws@[i as int]@);
        if !starts_with_chars(&ws[i], &pv) {
            kept.push(crate::paths::copy_chars(&ws[i]));
            assert(vecs_view(kept@) =~= before.push(ws@[i as int]@));
        }
        i = i + 1;
    }
    assert(vecs_view(ws@).subrange(0, ws.len() as int) =~= vecs_view(ws@));
    proof {
        reveal_strlit(":");
    }
    if let Some(v) = value {
        let mut t = prefix.clone();
        push_str(&mut t, v);
        let ghost before = vecs_view(kept@);
        kept.push(chars_of(t.as_str()));
        assert(vecs_view(kept@) =~= before.push(key@ + ":"@ + v@));
    }
    string_of(&join_chars(&kept, ' '))
}

fn starts_with_chars(w: &Vec<char>, p: &Vec<char>) -> (r: bool)
    ensures
        r == starts_with(w@, p@),
{
    if p.len() > w.len() {
        return false;
    }
    let mut i: usize = 0;
    while i < p.len()
        invariant
            p.len() <= w.len(),
            i <= p.len(),
            forall|k: int| 0 <= k < i ==> w@[k] == p@[k],
        decreases p.len() - i,
    {
        if w[i] != p[i] {
            assert(w@.subrange(0, p.len() as int)[i as int] != p@[i as int]);
            return false;
        }
        i = i + 1;
    }
    assert(w@.subrange(0, p.len() as int) =~= p@);
    true
}

/// What an accepted or refused date helper gives.
#[derive(Debug, Clone, Copy, PartialEq, Eq, Structural)]
pub enum ShortcutApplyOutcome {
    Applied(EditorShortcut),
    Rejected(EditorShortcut),
}

impl EditorState {
    fn build(mode: EditorMode, raw_line: String, original_raw: Option<String>, task_id: Option<TaskId>) -> (r: EditorState)
        ensures
            r@ == with_raw(fresh_editor(mode, raw_line@, opt_view(original_raw), match task_id {
                Some(t) => Some(t@),
                None => None,
            }), raw_line@),
    {
        let cursor_pos = raw_line.as_str().unicode_len();
        let mut state = EditorState {
            mode,
            raw_line,
            cursor_pos,
            original_raw,
            due: None,
            scheduled: None,
            starting: None,
            task_id,
            shortcut: None,
        };
        state.refresh_helpers_from_raw();
        state
    }

    fn refresh_helpers_from_raw(&mut self)
        ensures
            final(self)@ == with_raw(old(self)@, old(self)@.raw_line),
    {
        let task = parse_task_line(self.raw_line.as_str());
        self.due = task.tags.get_owned("due");
        self.scheduled = task.tags.get_owned("scheduled");
        self.starting = task.tags.get_owned("starting");
    }

    fn set_metadata_tag(&mut self, key: &str, value: Option<&str>)
        ensures
            final(self)@ == with_raw(old(self)@, upserted(old(self)@.raw_line, key@, match value {
                Some(v) => Some(v@),
                None => None,
            })),
    {
        self.raw_line = upsert_tag(self.raw_line.as_str(), key, value);
        self.refresh_helpers_from_raw();
    }

    /// An empty quick-entry editor.
    pub fn quick_entry() -> (r: EditorState)
        ensures
            r@ == with_raw(fresh_editor(EditorMode::QuickEntry, seq![], None, None), seq![]),
    {
        Self::build(EditorMode::QuickEntry, String::new(), None, None)
    }

    /// An editor for a selected task, its cursor at the end of the line.
    pub fn edit(task: &SelectedTask) -> (r: EditorState)
        ensures
            r@ == with_raw(
                fresh_editor(EditorMode::Edit, task.normalized_raw@, Some(task.original_raw@), Some(task.id@)),
                task.normalized_raw@,
            ),
    {
        Self::build(
            EditorMode::Edit,
            task.normalized_raw.clone(),
            Some(task.original_raw.clone()),
            Some(task.id.duplicate()),
        )
    }

    /// Sets the line to a space and `suffix`, the cursor at the start.
    pub fn set_suffix(&mut self, suffix: &str)
        ensures
            final(self)@ == with_raw(at_cursor(old(self)@, 0), " "@ + suffix@),
    {
        let mut raw = owned(" ");
        push_str(&mut raw, suffix);
        self.raw_line = raw;
        self.cursor_pos = 0;
        self.refresh_helpers_from_raw();
    }

    /// Sets the line, the cursor at its end.
    pub fn set_raw_line(&mut self, raw_line: &str)
        ensures
            final(self)@ == with_raw(at_cursor(old(self)@, raw_line@.len() as int), raw_line@),
    {
        self.raw_line = owned(raw_line);
        self.cursor_pos = raw_line.unicode_len();
        self.refresh_helpers_from_raw();
    }

    /// Sets or removes the `due:` tag.
    pub fn set_due(&mut self, due: Option<&str>)
        ensures
            final(self)@ == with_raw(old(self)@, upserted(old(self)@.raw_line, "due"@, match due {
                Some(v) => Some(v@),
                None => None,
            })),
    {
        self.set_metadata_tag("due", due);
    }

    /// Sets or removes the `scheduled:` tag.
    pub fn set_scheduled(&mut self, scheduled: Option<&str>)
        ensures
            final(self)@ == with_raw(old(self)@, upserted(old(self)@.raw_line, "scheduled"@, match scheduled {
                Some(v) => Some(v@),
                None => None,
            })),
    {
        self.set_metadata_tag("scheduled", scheduled);
    }

    /// Sets or removes the `starting:` tag.
    pub fn set_starting(&mut self, starting: Option<&str>)
        ensures
            final(self)@ == with_raw(old(self)@, upserted(old(self)@.raw_line, "starting"@, match starting {
                Some(v) => Some(v@),
                None => None,
            })),
    {
        self.set_metadata_tag("starting", starting);
    }

    /// Inserts text at the cursor and moves the cursor past it.
    pub fn append_raw_char(&mut self, value: &str)
        requires
            old(self).cursor_pos + value@.len() <= usize::MAX,
        ensures
            final(self)@ == with_raw(
                at_cursor(old(self)@, old(self)@.cursor_pos + value@.len()),
                insert_at(old(self)@.raw_line, old(self)@.cursor_pos, value@),
            ),
    {
        self.raw_line = insert_chars(self.raw_line.as_str(), self.cursor_pos, value);
        self.cursor_pos = self.cursor_pos + value.unicode_len();
        self.refresh_helpers_from_raw();
    }

    /// Deletes the character before the cursor; `false` at the start of the
    /// line.
    pub fn backspace_raw(&mut self) -> (r: bool)
        ensures
            r == (old(self).cursor_pos > 0),
            !r ==> final(self)@ == old(self)@,
            r ==> final(self)@ == with_raw(
                at_cursor(old(self)@, old(self)@.cursor_pos - 1),
                remove_before(old(self)@.raw_line, old(self)@.cursor_pos),
            ),
    {
        if self.cursor_pos == 0 {
            return false;
        }
        self.raw_line = remove_char_before(self.raw_line.as_str(), self.cursor_pos);
        self.cursor_pos = self.cursor_pos - 1;
        self.refresh_helpers_from_raw();
        true
    }

    /// Moves the cursor one character left; `false` at the start.
    pub fn move_cursor_left(&mut self) -> (r: bool)
        ensures
            r == (old(self).cursor_pos > 0),
            final(self)@ == at_cursor(old(self)@, if r { old(self)@.cursor_pos - 1 } else { old(self)@.cursor_pos }),
    {
        if self.cursor_pos > 0 {
            self.cursor_pos = self.cursor_pos - 1;
            true
        } else {
            false
        }
    }

    /// Moves the cursor one character right; `false` at the end.
    pub fn move_cursor_right(&mut self) -> (r: bool)
        ensures
            r == (old(self)@.cursor_pos < old(self)@.raw_line.len()),
            final(self)@ == at_cursor(old(self)@, if r { old(self)@.cursor_pos + 1 } else { old(self)@.cursor_pos }),
    {
        if self.cursor_pos < self.raw_line.as_str().unicode_len() {
            self.cursor_pos = self.cursor_pos + 1;
            true
        } else {
            false
        }
    }

    /// Moves the cursor up one wrapped row of `wrap_width` characters (to
    /// the start from the first row); `false` when it cannot move.
    pub fn move_cursor_up(&mut self, wrap_width: usize) -> (r: bool)
        ensures
            ({
                let c = old(self)@.cursor_pos;
                let new_c = if wrap_width == 0 {
                    c
                } else if c >= wrap_width {
                    c - wrap_width
                } else {
                    0
                };
                &&& r == (wrap_width > 0 && c > 0)
                &&& final(self)@ == at_cursor(old(self)@, new_c)
            }),
    {
        if wrap_width == 0 {
            return false;
        }
        if self.cursor_pos >= wrap_width {
            self.cursor_pos = self.cursor_pos - wrap_width;
            true
        } else if self.cursor_pos > 0 {
            self.cursor_pos = 0;
            true
        } else {
            false
        }
    }

    /// Moves the cursor down one wrapped row of `wrap_width` characters (to
    /// the end from the last row); `false` when it cannot move.
    pub fn move_cursor_down(&mut self, wrap_width: usize) -> (r: bool)
        ensures
            ({
                let c = old(self)@.cursor_pos;
                let n = old(self)@.raw_line.len();
                let new_c = if wrap_width == 0 {
                    c
                } else if c + wrap_width <= n {
                    c + wrap_width
                } else if c < n {
                    n as int
                } else {
                    c
                };
                &&& r == (wrap_width > 0 && c < n)
                &&& final(self)@ == at_cursor(old(self)@, new_c)
            }),
            old(self)@.cursor_pos <= old(self)@.raw_line.len() ==> final(self)@.cursor_pos <= final(self)@.raw_line.len(),
    {
        if wrap_width == 0 {
            return false;
        }
        let n = self.raw_line.as_str().unicode_len();
        if self.cursor_pos < n && wrap_width <= n - self.cursor_pos {
            self.cursor_pos = self.cursor_pos + wrap_width;
            true
        } else if self.cursor_pos < n {
            self.cursor_pos = n;
            true
        } else {
            false
        }
    }

    /// Moves the cursor to the start of the line.
    pub fn move_cursor_home(&mut self)
        ensures
            final(self)@ == at_cursor(old(self)@, 0),
    {
        self.cursor_pos = 0;
    }

    /// Moves the cursor to the end of the line.
    pub fn move_cursor_end(&mut self)
        ensures
            final(self)@ == at_cursor(old(self)@, old(self)@.raw_line.len() as int),
    {
        self.cursor_pos = self.raw_line.as_str().unicode_len();
    }

    /// Opens a date helper on the current value of its tag.
    pub fn open_shortcut(&mut self, shortcut: EditorShortcut)
        ensures
            ({
                let cur = match shortcut {
                    EditorShortcut::Due => old(self)@.due,
                    EditorShortcut::Scheduled => old(self)@.scheduled,
                    EditorShortcut::Starting => old(self)@.starting,
                };
                let input = match cur {
                    Some(v) => v,
                    None => seq![],
                };
                final(self)@ == with_helper(old(self)@, Some(helper_state(shortcut, input, input.len() as int, None)))
            }),
    {
        let input = match shortcut {
            EditorShortcut::Due => copy_opt_string(&self.due),
            EditorShortcut::Scheduled => copy_opt_string(&self.scheduled),
            EditorShortcut::Starting => copy_opt_string(&self.starting),
        };
        let input = match input {
            Some(v) => v,
            None => String::new(),
        };
        let cursor_pos = input.as_str().unicode_len();
        self.shortcut = Some(EditorShortcutState { shortcut, input, cursor_pos, error: None });
    }

    /// Inserts text at the helper's cursor, clearing its error.
    pub fn append_shortcut_char(&mut self, value: &str)
        requires
            old(self).shortcut matches Some(s) ==> s.cursor_pos + value@.len() <= usize::MAX,
        ensures
            match old(self)@.shortcut {
                Some(s) => final(self)@ == with_helper(old(self)@, Some(helper_state(
                    s.shortcut,
                    insert_at(s.input, s.cursor_pos, value@),
                    s.cursor_pos + value@.len(),
                    None,
                ))),
                None => final(self)@ == old(self)@,
            },
    {
        if let Some(s) = &self.shortcut {
            let input = insert_chars(s.input.as_str(), s.cursor_pos, value);
            let cursor_pos = s.cursor_pos + value.unicode_len();
            self.shortcut = Some(EditorShortcutState { shortcut: s.shortcut, input, cursor_pos, error: None });
        }
    }

    /// Deletes the character before the helper's cursor; `false` without a
    /// helper or at the start of its input.
    pub fn backspace_shortcut(&mut self) -> (r: bool)
        ensures
            match old(self)@.shortcut {
                Some(s) => {
                    &&& r == (s.cursor_pos > 0)
                    &&& r ==> final(self)@ == with_helper(old(self)@, Some(helper_state(
                        s.shortcut,
                        remove_before(s.input, s.cursor_pos),
                        s.cursor_pos - 1,
                        None,
                    )))
                    &&& !r ==> final(self)@ == old(self)@
                },
                None => !r && final(self)@ == old(self)@,
            },
    {
        if let Some(s) = &self.shortcut {
            if s.cursor_pos == 0 {
                return false;
            }
            let input = remove_char_before(s.input.as_str(), s.cursor_pos);
            let cursor_pos = s.cursor_pos - 1;
            self.shortcut = Some(EditorShortcutState { shortcut: s.shortcut, input, cursor_pos, error: None });
            true
        } else {
            false
        }
    }

    /// Moves the helper's cursor left; `false` when it cannot move.
    pub fn move_shortcut_cursor_left(&mut self) -> (r: bool)
        ensures
            match old(self)@.shortcut {
                Some(s) => {
                    &&& r == (s.cursor_pos > 0)
                    &&& r ==> final(self)@ == with_helper(old(self)@, Some(helper_state(s.shortcut, s.input, s.cursor_pos - 1, s.error)))
                    &&& !r ==> final(self)@ == old(self)@
                },
                None => !r && final(self)@ == old(self)@,
            },
    {
        if let Some(s) = &self.shortcut {
            if s.cursor_pos > 0 {
                let input = s.input.clone();
                let error = copy_opt_string(&s.error);
                self.shortcut = Some(EditorShortcutState { shortcut: s.shortcut, input, cursor_pos: s.cursor_pos - 1, error });
                return true;
            }
        }
        false
    }

    /// Moves the helper's cursor right; `false` when it cannot move.
    pub fn move_shortcut_cursor_right(&mut self) -> (r: bool)
        ensures
            match old(self)@.shortcut {
                Some(s) => {
                    &&& r == (s.cursor_pos < s.input.len())
                    &&& r ==> final(self)@ == with_helper(old(self)@, Some(helper_state(s.shortcut, s.input, s.cursor_pos + 1, s.error)))
                    &&& !r ==> final(self)@ == old(self)@
                },
                None => !r && final(self)@ == old(self)@,
            },
    {
        if let Some(s) = &self.shortcut {
            if s.cursor_pos < s.input.as_str().unicode_len() {
                let input = s.input.clone();
                let error = copy_opt_string(&s.error);
                self.shortcut = Some(EditorShortcutState { shortcut: s.shortcut, input, cursor_pos: s.cursor_pos + 1, error });
                return true;
            }
        }
        false
    }

    /// Applies the open helper: a blank input removes the tag, a date sets
    /// it, and anything else keeps the helper open with an error.
    pub fn apply_shortcut(&mut self) -> (r: Option<ShortcutApplyOutcome>)
        ensures
            (final(self)@, r) == shortcut_applied(old(self)@),
    {
        let s = match self.shortcut.take() {
            Some(s) => s,
            None => return None,
        };
        let blank = trim_chars(&chars_of(s.input.as_str())).len() == 0;
        if !blank && !is_date(s.input.as_str()) {
            let kind = s.shortcut;
            self.shortcut = Some(EditorShortcutState {
                shortcut: s.shortcut,
                input: s.input,
                cursor_pos: s.cursor_pos,
                error: Some(owned("Use YYYY-MM-DD for helper dates")),
            });
            return Some(ShortcutApplyOutcome::Rejected(kind));
        }
        let key = s.shortcut.tag_key();
        if blank {
            self.set_metadata_tag(key, None);
        } else {
            self.set_metadata_tag(key, Some(s.input.as_str()));
        }
        Some(ShortcutApplyOutcome::Applied(s.shortcut))
    }

    /// Closes the open helper without applying it.
    pub fn cancel_shortcut(&mut self)
        ensures
            final(self)@ == with_helper(old(self)@, None),
    {
        self.shortcut = None;
    }
}

/// The items, each after the character `c`.
pub open spec fn marked(items: Seq<Seq<char>>, c: char) -> Seq<Seq<char>> {
    items.map_values(|x: Seq<char>| seq![c] + x)
}

/// `key:<date>` for a date value, when there is one.
pub open spec fn date_token(key: Seq<char>, v: Option<DateValueModel>, today: Seq<char>) -> Seq<Seq<char>> {
    match v {
        Some(d) => seq![key + ":"@ + resolved_date(d, today)],
        None => seq![],
    }
}

/// The tokens a prefill adds after the description: projects, contexts,
/// and the resolved dates.
pub open spec fn prefill_tokens(p: PrefillModel, today: Seq<char>) -> Seq<Seq<char>> {
    marked(p.projects, '+') + marked(p.contexts, '@') + date_token("due"@, p.due, today)
        + date_token("scheduled"@, p.scheduled, today) + date_token("starting"@, p.starting, today)
}

/// What a prefill puts before the cursor: the priority, if any.
pub open spec fn prefill_prefix(p: PrefillModel) -> Seq<char> {
    match p.priority {
        Some(c) => seq!['(', c, ')', ' '],
        None => seq![],
    }
}

/// What a prefill puts after the cursor.
pub open spec fn prefill_suffix(p: PrefillModel, today: Seq<char>) -> Seq<char> {
    let t = prefill_tokens(p, today);
    if t.len() == 0 {
        seq![]
    } else {
        seq![' '] + join_by(t, ' ')
    }
}

/// The prefill's dates can be resolved on `today`.
pub open spec fn prefill_resolvable(p: PrefillModel, today: Seq<char>) -> bool {
    &&& p.due matches Some(d) ==> resolvable(d, today)
    &&& p.scheduled matches Some(d) ==> resolvable(d, today)
    &&& p.starting matches Some(d) ==> resolvable(d, today)
}

fn push_marked(tokens: &mut Vec<Vec<char>>, items: &Vec<String>, c: char)
    ensures
        vecs_view(final(tokens)@) == vecs_view(old(tokens)@) + marked(strings_view(items@), c),
{
    let ghost start = vecs_view(tokens@);
    let mut i: usize = 0;
    while i < items.len()
        invariant
            i <= items.len(),
            vecs_view(tokens@) == start + marked(strings_view(items@), c).subrange(0, i as int),
        decreases items.len() - i,
    {
        let ghost before = vecs_view(tokens@);
        let mut t: Vec<char> = Vec::new();
        t.push(c);
        let w = chars_of(items[i].as_str());
        let mut k: usize = 0;
        while k < w.len()
            invariant
                k <= w.len(),
                t@ == seq![c] + w@.subrange(0, k as int),
            decreases w.len() - k,
        {
            t.push(w[k]);
            k = k + 1;
            assert(t@ =~= seq![c] + w@.subrange(0, k as int));
        }
        assert(w@.subrange(0, w.len() as int) =~= w@);
        let ghost tv = t@;
        tokens.push(t);
        assert(vecs_view(tokens@) =~= before.push(tv));
        assert(marked(strings_view(items@), c)[i as int] == seq![c] + items@[i as int]@);
        assert(vecs_view(tokens@) =~= start + marked(strings_view(items@), c).subrange(0, i + 1));
        i = i + 1;
    }
    assert(marked(strings_view(items@), c).subrange(0, items.len() as int) =~= marked(strings_view(items@), c));
}

fn push_date_token(tokens: &mut Vec<Vec<char>>, key: &str, v: &Option<crate::smartlist::types::DateValue>, today: &str)
    requires
        v matches Some(d) ==> resolvable(d@, today@),
    ensures
        vecs_view(final(tokens)@) == vecs_view(old(tokens)@) + date_token(key@, opt_date_view(*v), today@),
{
    if let Some(d) = v {
        let mut t = owned(key);
        push_char(&mut t, ':');
        push_str(&mut t, resolve_date_value(d, today).as_str());
        let ghost before = vecs_view(tokens@);
        proof {
            reveal_strlit(":");
        }
        assert(t@ =~= key@ + ":"@ + resolved_date(d@, today@));
        let tv = chars_of(t.as_str());
        tokens.push(tv);
        assert(vecs_view(tokens@) =~= before.push(t@));
        assert(vecs_view(tokens@) =~= before + date_token(key@, opt_date_view(*v), today@));
    } else {
        assert(vecs_view(tokens@) =~= vecs_view(tokens@) + date_token(key@, opt_date_view(*v), today@));
    }
}

impl EditorState {
    /// Seeds a quick entry with a smart list's defaults: the priority before
    /// the cursor, the projects, contexts and dates after it.
    pub fn apply_prefill(&mut self, prefill: &Prefill, today: &str)
        requires
            prefill_resolvable(prefill@, today@),
        ensures
            prefill@ == crate::smartlist::types::empty_prefill() ==> final(self)@ == old(self)@,
            prefill@ != crate::smartlist::types::empty_prefill() ==> final(self)@ == with_raw(
                at_cursor(old(self)@, prefill_prefix(prefill@).len() as int),
                prefill_prefix(prefill@) + prefill_suffix(prefill@, today@),
            ),
    {
        if prefill.is_empty() {
            return;
        }
        let mut prefix: Vec<char> = Vec::new();
        if let Some(p) = prefill.priority {
            prefix.push('(');
            prefix.push(p);
            prefix.push(')');
            prefix.push(' ');
        }
        assert(prefix@ =~= prefill_prefix(prefill@));
        let mut tokens: Vec<Vec<char>> = Vec::new();
        assert(vecs_view(tokens@) =~= Seq::<Seq<char>>::empty());
        push_marked(&mut tokens, &prefill.projects, '+');
        push_marked(&mut tokens, &prefill.contexts, '@');
        push_date_token(&mut tokens, "due", &prefill.due, today);
        push_date_token(&mut tokens, "scheduled", &prefill.scheduled, today);
        push_date_token(&mut tokens, "starting", &prefill.starting, today);
        assert(vecs_view(tokens@) =~= prefill_tokens(prefill@, today@));
        let mut line = prefix.clone();
        if tokens.len() > 0 {
            line.push(' ');
            let body = join_chars(&tokens, ' ');
            let ghost head = line@;
            let mut i: usize = 0;
            while i < body.len()
                invariant
                    i <= body.len(),
                    line@ == head + body@.subrange(0, i as int),
                decreases body.len() - i,
            {
                line.push(body[i]);
                i = i + 1;
                assert(line@ =~= head + body@.subrange(0, i as int));
            }
            assert(body@.subrange(0, body.len() as int) =~= body@);
        }
        assert(line@ =~= prefill_prefix(prefill@) + prefill_suffix(prefill@, today@));
        self.cursor_pos = prefix.len();
        self.raw_line = string_of(&line);
        self.refresh_helpers_from_raw();
    }
}

/// How a save conflict is resolved.
#[derive(Debug, Clone, Copy, PartialEq, Eq, Structural)]
pub enum ConflictChoice {
    ReloadExternal,
    OverwriteExternal,
    Cancel,
}

/// A save that found the task's line changed on disk.
#[derive(Debug, Clone, PartialEq, Eq)]
pub struct SaveConflictState {
    pub external_raw: String,
}

/// What the editor asks to save.
#[derive(Debug, Clone, PartialEq, Eq)]
pub enum EditorSaveRequest {
    Create { raw: String },
    Update { id: TaskId, original_raw: String, raw: String, overwrite_conflict: bool },
}

pub ghost enum SaveRequestModel {
    Create { raw: Seq<char> },
    Update { id: TaskIdModel, original_raw: Seq<char>, raw: Seq<char>, overwrite_conflict: bool },
}

impl View for EditorSaveRequest {
    type V = SaveRequestModel;

    open spec fn view(&self) -> SaveRequestModel {
        match self {
            EditorSaveRequest::Create { raw } => SaveRequestModel::Create { raw: raw@ },
            EditorSaveRequest::Update { id, original_raw, raw, overwrite_conflict } => SaveRequestModel::Update {
                id: id@,
                original_raw: original_raw@,
                raw: raw@,
                overwrite_conflict: *overwrite_conflict,
            },
        }
    }
}

/// What a save gives.
#[derive(Debug, Clone, PartialEq, Eq)]
pub enum EditorSaveResult {
    Saved,
    Conflict { external_raw: String },
}

/// Where the editor saves to: the task store, or a stand-in.  What a save
/// does is up to the implementation.
pub trait EditorSaveTarget {
    fn save_editor(&mut self, request: EditorSaveRequest) -> Result<EditorSaveResult, std::io::Error>;
}

/// Typing a character at the cursor and then deleting the character before
/// the cursor gives the line back: inserting it at `pos` and removing the
/// one before `pos + 1` restores the line.
pub proof fn law_backspace_undoes_typing(s: Seq<char>, pos: int, c: char)
    requires
        0 <= pos <= s.len(),
    ensures
        remove_before(insert_at(s, pos, seq![c]), pos + 1) == s,
{
    let t = insert_at(s, pos, seq![c]);
    assert(t.len() == s.len() + 1);
    assert(remove_before(t, pos + 1) =~= s);
}

/// Moving the cursor left and then right, within the line, returns it to
/// where it was.
pub proof fn law_left_then_right(m: EditorModel)
    requires
        0 < m.cursor_pos <= m.raw_line.len(),
    ensures
        at_cursor(at_cursor(m, m.cursor_pos - 1), m.cursor_pos - 1 + 1) == m,
{
}

} // verus!
