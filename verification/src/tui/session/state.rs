//! The interactive session: its state, how keys, actions and the mouse
//! change it, and what it asks of the caller that reads and writes files.
use vstd::prelude::*;

use crate::smartlist::eval::{tasks_are_evaluable, tasks_evaluable};
use crate::sorting::{lemma_map_multiset, sort_by, Orderer};

use crate::smartlist::types::{Direction, Directive, SmartList, SmartListModel};
use crate::text::{lemma_lex_order_flip, lex_order, opt_view, str_order};

use crate::store::{duplicate_all, stored_view, Snapshot, StoredModel, StoredTask};
use crate::text::{chars_of, copy_strings, owned, str_eq, string_of, strings_view, Order3};

use crate::smartlist::eval::{date_value_resolvable, group_by_directives, groups_of, groups_view, resolvable, sort_by_directives, sorted_by_directives, GroupModel, TaskGroup};
use crate::smartlist::types::{Condition, opt_date_view};
use crate::tui::editor::{prefill_resolvable, EditorState, SelectedModel, SelectedTask};
use crate::tui::app::{AppMode, AppModel, AppState, ViewerModel};
use crate::tui::editor::EditorModel;

use crate::text::lines_of;
use crate::parser::{parse_task_line, spec_task};
use crate::paths::{file_name, path_file_name};
use crate::task::{same_tags, TagMap, TaskModel};
use crate::store::{TaskId, TaskIdModel, TaskStore};
use crate::refresh::SnapshotIndex;
use crate::config::ConfigPaths;
use super::{
    ItemModel,
    SidebarItem,
    ViewOverrides,
    all_of,
    all_tasks,
    apply_search_filter,
    build_sidebar_items,
    effective_group,
    effective_group_directives,
    effective_sort,
    effective_sort_directives,
    filter_snapshot,
    in_default_order,
    indicator,
    is_sidebar,
    item_dates_ok,
    items_view,
    lemma_selectable_positions_bounds,
    lists_view,
    override_indicator,
    paths_view,
    search_matches,
    selectable,
    selectable_positions,
    selectable_sidebar_indices,
    shown_tasks,
    strings_eq,
};

mod actions;
mod keys;
mod moves;
mod requests;

pub use keys::{key_effect, lemma_picker_select};
pub use moves::{clamped_width, moved_by, moved_in_results, moved_to_edge, sidebar_moved, task_moved, width_bounds_ok};
pub use requests::{action_effect, picker_ok, refreshed_to, saved_target, RequestModel, SessionRequest};

verus! {

// -- The session ----------------------------------------------------------------

/// The tasks can be matched against the list's filter on `today`, and
/// every date of its prefill resolves.
pub open spec fn list_evaluable(l: SmartListModel, tasks: Seq<StoredModel>, today: Seq<char>) -> bool {
    tasks_evaluable(l.blocks, tasks, today) && prefill_resolvable(l.prefill, today)
}

pub open spec fn lists_evaluable(lists: Seq<SmartListModel>, tasks: Seq<StoredModel>, today: Seq<char>) -> bool {
    forall|i: int| 0 <= i < lists.len() ==> list_evaluable(#[trigger] lists[i], tasks, today)
}

fn opt_value_resolvable(v: &Option<crate::smartlist::types::DateValue>, today: &str) -> (r: bool)
    ensures
        r == (opt_date_view(*v) matches Some(d) ==> resolvable(d, today@)),
{
    match v {
        Some(d) => date_value_resolvable(d, today),
        None => true,
    }
}

/// Whether every list can match the snapshot's tasks on `today` (see
/// `lists_evaluable`).
pub fn all_lists_evaluable(lists: &[SmartList], snapshot: &Snapshot, today: &str) -> (r: bool)
    ensures
        r == lists_evaluable(lists_view(lists@), all_tasks(*snapshot), today@),
{
    let all = all_of(snapshot);
    let mut i: usize = 0;
    while i < lists.len()
        invariant
            i <= lists.len(),
            stored_view(all@) == all_tasks(*snapshot),
            forall|k: int| 0 <= k < i ==> list_evaluable(#[trigger] lists_view(lists@)[k], all_tasks(*snapshot), today@),
        decreases lists.len() - i,
    {
        let l = &lists[i];
        assert(lists_view(lists@)[i as int] == l@);
        let p = &l.prefill;
        if !(tasks_are_evaluable(l, all.as_slice(), today) && opt_value_resolvable(&p.due, today)
            && opt_value_resolvable(&p.scheduled, today) && opt_value_resolvable(&p.starting, today)) {
            assert(!list_evaluable(lists_view(lists@)[i as int], all_tasks(*snapshot), today@));
            return false;
        }
        i = i + 1;
    }
    true
}

/// What identifies a task apart from its place and its raw line: the parts
/// of its line.
pub struct LogicalTaskKey {
    pub priority: Option<char>,
    pub creation_date: Option<String>,
    pub description: String,
    pub projects: Vec<String>,
    pub contexts: Vec<String>,
    pub tags: TagMap,
}

pub ghost struct LogicalModel {
    pub priority: Option<char>,
    pub creation_date: Option<Seq<char>>,
    pub description: Seq<char>,
    pub projects: Seq<Seq<char>>,
    pub contexts: Seq<Seq<char>>,
    pub tags: Seq<(Seq<char>, Seq<char>)>,
}

impl View for LogicalTaskKey {
    type V = LogicalModel;

    open spec fn view(&self) -> LogicalModel {
        LogicalModel {
            priority: self.priority,
            creation_date: opt_view(self.creation_date),
            description: self.description@,
            projects: strings_view(self.projects@),
            contexts: strings_view(self.contexts@),
            tags: self.tags@,
        }
    }
}

pub open spec fn logical_of(t: TaskModel) -> LogicalModel {
    LogicalModel {
        priority: t.priority,
        creation_date: t.creation_date,
        description: t.description,
        projects: t.projects,
        contexts: t.contexts,
        tags: t.tags,
    }
}

/// The task has the key's parts (its tags taken as a map).
pub open spec fn logical_matches(k: LogicalModel, t: TaskModel) -> bool {
    &&& k.priority == t.priority
    &&& k.creation_date == t.creation_date
    &&& k.description == t.description
    &&& k.projects == t.projects
    &&& k.contexts == t.contexts
    &&& same_tags(k.tags, t.tags)
}

fn opt_string_eq(a: &Option<String>, b: &Option<String>) -> (r: bool)
    ensures
        r == (opt_view(*a) == opt_view(*b)),
{
    match (a, b) {
        (Some(x), Some(y)) => str_eq(x.as_str(), y.as_str()),
        (None, None) => true,
        _ => false,
    }
}

impl LogicalTaskKey {
    pub fn from_task(task: &crate::task::Task) -> (r: LogicalTaskKey)
        ensures
            r@ == logical_of(task@),
    {
        LogicalTaskKey {
            priority: task.priority,
            creation_date: crate::text::copy_opt_string(&task.creation_date),
            description: task.description.clone(),
            projects: copy_strings(&task.projects),
            contexts: copy_strings(&task.contexts),
            tags: task.tags.duplicate(),
        }
    }

    pub fn matches(&self, task: &crate::task::Task) -> (r: bool)
        ensures
            r == logical_matches(self@, task@),
    {
        self.priority == task.priority && opt_string_eq(&self.creation_date, &task.creation_date) && str_eq(
            self.description.as_str(),
            task.description.as_str(),
        ) && strings_eq(&self.projects, &task.projects) && strings_eq(&self.contexts, &task.contexts)
            && self.tags.same_as(&task.tags)
    }
}

/// What a selection should find again after the tasks are rebuilt: the
/// task's place, its file name, its raw line, its parts, and a position to
/// fall back on.
pub struct SelectionTarget {
    pub task_id: Option<TaskId>,
    pub file_name: Option<String>,
    pub raw: Option<String>,
    pub logical: Option<LogicalTaskKey>,
    pub fallback_index: Option<usize>,
}

pub ghost struct TargetModel {
    pub task_id: Option<TaskIdModel>,
    pub file_name: Option<Seq<char>>,
    pub raw: Option<Seq<char>>,
    pub logical: Option<LogicalModel>,
    pub fallback_index: Option<int>,
}

impl View for SelectionTarget {
    type V = TargetModel;

    open spec fn view(&self) -> TargetModel {
        TargetModel {
            task_id: match self.task_id {
                Some(id) => Some(id@),
                None => None,
            },
            file_name: opt_view(self.file_name),
            raw: opt_view(self.raw),
            logical: match self.logical {
                Some(k) => Some(k@),
                None => None,
            },
            fallback_index: match self.fallback_index {
                Some(i) => Some(i as int),
                None => None,
            },
        }
    }
}

pub open spec fn target_view(t: Option<SelectionTarget>) -> Option<TargetModel> {
    match t {
        Some(x) => Some(x@),
        None => None,
    }
}

/// The target for a stored task at an optional position.
pub open spec fn stored_target(s: StoredModel, index: Option<int>) -> TargetModel {
    TargetModel {
        task_id: Some(s.id),
        file_name: file_name(s.id.path),
        raw: Some(s.task.raw),
        logical: Some(logical_of(s.task)),
        fallback_index: index,
    }
}

/// The target for the task an editor holds: its place when it edits one,
/// and the parts of its line.
pub open spec fn editor_target(e: crate::tui::editor::EditorModel, index: Option<int>) -> TargetModel {
    TargetModel {
        task_id: e.task_id,
        file_name: match e.task_id {
            Some(id) => file_name(id.path),
            None => None,
        },
        raw: Some(e.raw_line),
        logical: Some(logical_of(spec_task(e.raw_line))),
        fallback_index: if e.task_id is Some {
            index
        } else {
            None
        },
    }
}

fn id_file_name(id: &TaskId) -> (r: Option<String>)
    ensures
        opt_view(r) == file_name(id.path@),
{
    match path_file_name(&chars_of(id.path.as_str())) {
        Some(v) => Some(crate::text::string_of(&v)),
        None => None,
    }
}

impl SelectionTarget {
    pub fn from_stored(stored: &StoredTask, index: Option<usize>) -> (r: SelectionTarget)
        ensures
            r@ == stored_target(stored@, match index {
                Some(i) => Some(i as int),
                None => None,
            }),
    {
        SelectionTarget {
            task_id: Some(stored.id.duplicate()),
            file_name: id_file_name(&stored.id),
            raw: Some(stored.task.raw.clone()),
            logical: Some(LogicalTaskKey::from_task(&stored.task)),
            fallback_index: index,
        }
    }

    pub fn from_editor(editor: &EditorState, fallback_index: Option<usize>) -> (r: SelectionTarget)
        ensures
            r@ == editor_target(editor@, match fallback_index {
                Some(i) => Some(i as int),
                None => None,
            }),
    {
        let parsed = parse_task_line(editor.raw_line.as_str());
        let (task_id, file_name) = match &editor.task_id {
            Some(id) => (Some(id.duplicate()), id_file_name(id)),
            None => (None, None),
        };
        SelectionTarget {
            task_id,
            file_name,
            raw: Some(editor.raw_line.clone()),
            logical: Some(LogicalTaskKey::from_task(&parsed)),
            fallback_index: if editor.task_id.is_some() {
                fallback_index
            } else {
                None
            },
        }
    }
}

pub open spec fn id_is(id: TaskIdModel) -> spec_fn(StoredModel) -> bool {
    |x: StoredModel| x.id == id
}

pub open spec fn name_is(n: Seq<char>) -> spec_fn(StoredModel) -> bool {
    |x: StoredModel| file_name(x.id.path) == Some(n)
}

pub open spec fn raw_is(r: Seq<char>) -> spec_fn(StoredModel) -> bool {
    |x: StoredModel| x.task.raw == r
}

pub open spec fn parts_match(k: LogicalModel) -> spec_fn(StoredModel) -> bool {
    |x: StoredModel| logical_matches(k, x.task)
}

/// The first position in `s` whose element satisfies `p`.
pub open spec fn first_where<T>(s: Seq<T>, p: spec_fn(T) -> bool) -> Option<int> {
    if exists|i: int| 0 <= i < s.len() && p(#[trigger] s[i]) {
        Some(choose|i: int| 0 <= i < s.len() && p(#[trigger] s[i]) && forall|j: int| 0 <= j < i ==> !p(#[trigger] s[j]))
    } else {
        None
    }
}

proof fn lemma_first_where<T>(s: Seq<T>, p: spec_fn(T) -> bool, i: int)
    requires
        0 <= i <= s.len(),
        forall|j: int| 0 <= j < i ==> !p(#[trigger] s[j]),
        i == s.len() || p(s[i]),
    ensures
        first_where(s, p) == (if i < s.len() {
            Some(i)
        } else {
            None::<int>
        }),
{
    if i < s.len() {
        assert(0 <= i < s.len() && p(s[i]) && forall|j: int| 0 <= j < i ==> !p(#[trigger] s[j]));
        let c = choose|c: int| 0 <= c < s.len() && p(#[trigger] s[c]) && forall|j: int| 0 <= j < c ==> !p(#[trigger] s[j]);
        if c < i {
            assert(!p(s[c]));
        }
        if i < c {
            assert(!p(s[i]));
        }
    }
}

pub open spec fn or_else(a: Option<int>, b: Option<int>) -> Option<int> {
    match a {
        Some(x) => Some(x),
        None => b,
    }
}

/// The position a target finds among the tasks: by place, then by file
/// name, raw line and parts, then the fallback position (kept within the
/// tasks), then the first task.
pub open spec fn target_position(v: Seq<StoredModel>, w: Option<TargetModel>) -> Option<int> {
    let by_id = match w {
        Some(t) => match t.task_id {
            Some(id) => first_where(v, id_is(id)),
            None => None,
        },
        None => None,
    };
    let by_name = match w {
        Some(t) => match t.file_name {
            Some(n) => first_where(v, name_is(n)),
            None => None,
        },
        None => None,
    };
    let by_raw = match w {
        Some(t) => match t.raw {
            Some(r) => first_where(v, raw_is(r)),
            None => None,
        },
        None => None,
    };
    let by_parts = match w {
        Some(t) => match t.logical {
            Some(k) => first_where(v, parts_match(k)),
            None => None,
        },
        None => None,
    };
    let by_index = match w {
        Some(t) => match t.fallback_index {
            Some(i) => if v.len() > 0 {
                Some(if i < v.len() - 1 {
                    i
                } else {
                    v.len() - 1
                })
            } else {
                None
            },
            None => None,
        },
        None => None,
    };
    or_else(
        by_id,
        or_else(by_name, or_else(by_raw, or_else(by_parts, or_else(by_index, if v.len() > 0 {
            Some(0)
        } else {
            None
        })))),
    )
}

/// What the application shows as selected for a position among the tasks.
pub open spec fn selection_of(v: Seq<StoredModel>, sel: Option<int>) -> Option<SelectedModel> {
    match sel {
        Some(i) => if 0 <= i < v.len() {
            Some(SelectedModel { id: v[i].id, normalized_raw: v[i].task.raw, original_raw: v[i].task.raw })
        } else {
            None
        },
        None => None,
    }
}

fn find_by_id(v: &Vec<StoredTask>, id: &TaskId) -> (r: Option<usize>)
    ensures
        match r {
            Some(i) => first_where(stored_view(v@), id_is(id@)) == Some(i as int),
            None => first_where(stored_view(v@), id_is(id@)) is None,
        },
{
    let ghost sv = stored_view(v@);
    let ghost p = id_is(id@);
    let mut i: usize = 0;
    while i < v.len()
        invariant
            i <= v.len(),
            sv == stored_view(v@),
            p == (id_is(id@)),
            forall|j: int| 0 <= j < i ==> !p(#[trigger] sv[j]),
        decreases v.len() - i,
    {
        if str_eq(v[i].id.path.as_str(), id.path.as_str()) && v[i].id.line_index == id.line_index {
            proof {
                lemma_first_where(sv, p, i as int);
            }
            return Some(i);
        }
        i = i + 1;
    }
    proof {
        lemma_first_where(sv, p, i as int);
    }
    None
}

fn find_by_name(v: &Vec<StoredTask>, name: &String) -> (r: Option<usize>)
    ensures
        match r {
            Some(i) => first_where(stored_view(v@), name_is(name@)) == Some(i as int),
            None => first_where(stored_view(v@), name_is(name@)) is None,
        },
{
    let ghost sv = stored_view(v@);
    let ghost p = name_is(name@);
    let mut i: usize = 0;
    while i < v.len()
        invariant
            i <= v.len(),
            sv == stored_view(v@),
            p == (name_is(name@)),
            forall|j: int| 0 <= j < i ==> !p(#[trigger] sv[j]),
        decreases v.len() - i,
    {
        let n = id_file_name(&v[i].id);
        let hit = match &n {
            Some(x) => str_eq(x.as_str(), name.as_str()),
            None => false,
        };
        if hit {
            proof {
                lemma_first_where(sv, p, i as int);
            }
            return Some(i);
        }
        i = i + 1;
    }
    proof {
        lemma_first_where(sv, p, i as int);
    }
    None
}

fn find_by_raw(v: &Vec<StoredTask>, raw: &String) -> (r: Option<usize>)
    ensures
        match r {
            Some(i) => first_where(stored_view(v@), raw_is(raw@)) == Some(i as int),
            None => first_where(stored_view(v@), raw_is(raw@)) is None,
        },
{
    let ghost sv = stored_view(v@);
    let ghost p = raw_is(raw@);
    let mut i: usize = 0;
    while i < v.len()
        invariant
            i <= v.len(),
            sv == stored_view(v@),
            p == (raw_is(raw@)),
            forall|j: int| 0 <= j < i ==> !p(#[trigger] sv[j]),
        decreases v.len() - i,
    {
        if str_eq(v[i].task.raw.as_str(), raw.as_str()) {
            proof {
                lemma_first_where(sv, p, i as int);
            }
            return Some(i);
        }
        i = i + 1;
    }
    proof {
        lemma_first_where(sv, p, i as int);
    }
    None
}

fn find_by_parts(v: &Vec<StoredTask>, key: &LogicalTaskKey) -> (r: Option<usize>)
    ensures
        match r {
            Some(i) => first_where(stored_view(v@), parts_match(key@)) == Some(i as int),
            None => first_where(stored_view(v@), parts_match(key@)) is None,
        },
{
    let ghost sv = stored_view(v@);
    let ghost p = parts_match(key@);
    let mut i: usize = 0;
    while i < v.len()
        invariant
            i <= v.len(),
            sv == stored_view(v@),
            p == (parts_match(key@)),
            forall|j: int| 0 <= j < i ==> !p(#[trigger] sv[j]),
        decreases v.len() - i,
    {
        if key.matches(&v[i].task) {
            proof {
                lemma_first_where(sv, p, i as int);
            }
            return Some(i);
        }
        i = i + 1;
    }
    proof {
        lemma_first_where(sv, p, i as int);
    }
    None
}

/// The position that a target finds among the tasks (see
/// `target_position`).
pub fn find_target(v: &Vec<StoredTask>, wanted: &Option<SelectionTarget>) -> (r: Option<usize>)
    ensures
        match r {
            Some(i) => target_position(stored_view(v@), target_view(*wanted)) == Some(i as int),
            None => target_position(stored_view(v@), target_view(*wanted)) is None,
        },
{
    let ghost sv = stored_view(v@);
    let by_id = match wanted {
        Some(t) => match &t.task_id {
            Some(id) => find_by_id(v, id),
            None => None,
        },
        None => None,
    };
    if by_id.is_some() {
        return by_id;
    }
    let by_name = match wanted {
        Some(t) => match &t.file_name {
            Some(n) => find_by_name(v, n),
            None => None,
        },
        None => None,
    };
    if by_name.is_some() {
        return by_name;
    }
    let by_raw = match wanted {
        Some(t) => match &t.raw {
            Some(x) => find_by_raw(v, x),
            None => None,
        },
        None => None,
    };
    if by_raw.is_some() {
        return by_raw;
    }
    let by_parts = match wanted {
        Some(t) => match &t.logical {
            Some(k) => find_by_parts(v, k),
            None => None,
        },
        None => None,
    };
    if by_parts.is_some() {
        return by_parts;
    }
    let by_index = match wanted {
        Some(t) => match t.fallback_index {
            Some(i) => if v.len() > 0 {
                Some(if i < v.len() - 1 {
                    i
                } else {
                    v.len() - 1
                })
            } else {
                None
            },
            None => None,
        },
        None => None,
    };
    if by_index.is_some() {
        return by_index;
    }
    if v.len() > 0 {
        Some(0)
    } else {
        None
    }
}

/// A duplicate of a sidebar item.
pub fn duplicate_item(item: &SidebarItem) -> (r: SidebarItem)
    ensures
        r@ == item@,
{
    match item {
        SidebarItem::SmartList(i) => SidebarItem::SmartList(*i),
        SidebarItem::GroupHeader(p) => SidebarItem::GroupHeader(copy_strings(p)),
        SidebarItem::Separator => SidebarItem::Separator,
        SidebarItem::ListsHeader => SidebarItem::ListsHeader,
        SidebarItem::ProjectsHeader => SidebarItem::ProjectsHeader,
        SidebarItem::Project(v) => SidebarItem::Project(v.clone()),
        SidebarItem::ContextsHeader => SidebarItem::ContextsHeader,
        SidebarItem::Context(v) => SidebarItem::Context(v.clone()),
    }
}

/// The smart list that a sidebar item selects, if any.
pub open spec fn active_list(active: ItemModel, lists: Seq<SmartListModel>) -> Option<SmartListModel> {
    match active {
        ItemModel::SmartList(i) => if 0 <= i < lists.len() {
            Some(lists[i])
        } else {
            None
        },
        _ => None,
    }
}

/// The interactive session: the application state, the loaded tasks and
/// smart lists, the sidebar, and the tasks the active sidebar item shows.
pub struct TuiSession {
    app: AppState,
    store: Option<TaskStore>,
    today: String,
    snapshot: Snapshot,
    smart_lists: Vec<SmartList>,
    sidebar_items: Vec<SidebarItem>,
    active_sidebar_item: SidebarItem,
    visible_tasks: Vec<StoredTask>,
    visible_groups: Vec<TaskGroup>,
    selected_task_index: Option<usize>,
    task_scroll_override: Option<u16>,
    fs_index: Option<SnapshotIndex>,
    view_overrides: ViewOverrides,
    collapsed_groups: Vec<Vec<String>>,
    editor_command: String,
    pending_external_edit: Option<String>,
    sidebar_width_pct: u8,
    sidebar_min_width_pct: u8,
    sidebar_max_width_pct: u8,
    sidebar_width: u16,
    paths: ConfigPaths,
    last_terminal_cols: u16,
    sidebar_cursor: usize,
}

pub ghost struct SessionModel {
    pub app: AppModel,
    pub store: Option<Seq<char>>,
    pub today: Seq<char>,
    pub snapshot: Snapshot,
    pub lists: Seq<SmartListModel>,
    pub sidebar: Seq<ItemModel>,
    pub active: ItemModel,
    pub visible: Seq<StoredModel>,
    pub groups: Seq<GroupModel>,
    pub selected: Option<int>,
    pub scroll: Option<int>,
    pub fs_index: Option<Map<Seq<char>, (u64, u64)>>,
    pub overrides: ViewOverrides,
    pub collapsed: Seq<Seq<Seq<char>>>,
    pub editor_command: Seq<char>,
    pub pending_edit: Option<Seq<char>>,
    pub width_pct: int,
    pub min_pct: int,
    pub max_pct: int,
    pub sidebar_width: int,
    pub paths: (Seq<char>, Seq<char>),
    pub last_cols: int,
    pub cursor: int,
}

impl View for TuiSession {
    type V = SessionModel;

    closed spec fn view(&self) -> SessionModel {
        SessionModel {
            app: self.app@,
            store: match self.store {
                Some(st) => Some(st@),
                None => None,
            },
            today: self.today@,
            snapshot: self.snapshot,
            lists: lists_view(self.smart_lists@),
            sidebar: items_view(self.sidebar_items@),
            active: self.active_sidebar_item@,
            visible: stored_view(self.visible_tasks@),
            groups: groups_view(self.visible_groups@),
            selected: match self.selected_task_index {
                Some(i) => Some(i as int),
                None => None,
            },
            scroll: match self.task_scroll_override {
                Some(v) => Some(v as int),
                None => None,
            },
            fs_index: match self.fs_index {
                Some(x) => Some(x@),
                None => None,
            },
            overrides: self.view_overrides,
            collapsed: paths_view(self.collapsed_groups@),
            editor_command: self.editor_command@,
            pending_edit: opt_view(self.pending_external_edit),
            width_pct: self.sidebar_width_pct as int,
            min_pct: self.sidebar_min_width_pct as int,
            max_pct: self.sidebar_max_width_pct as int,
            sidebar_width: self.sidebar_width as int,
            paths: (self.paths.root@, self.paths.config_file@),
            last_cols: self.last_terminal_cols as int,
            cursor: self.sidebar_cursor as int,
        }
    }
}

/// The selection of a session is synchronized: the application shows the
/// selected task as selected.
pub open spec fn synced(m: SessionModel) -> bool {
    m.app.selected_task == selection_of(m.visible, m.selected)
}

/// The state that the tasks shown depend on: every smart list can match
/// the snapshot's tasks on the session's day, and the selection is among
/// the tasks.
pub open spec fn session_ok(m: SessionModel) -> bool {
    &&& lists_evaluable(m.lists, all_tasks(m.snapshot), m.today)
    &&& m.selected matches Some(i) ==> 0 <= i < m.visible.len()
    &&& has_headers(m.groups) ==> m.visible == flatten(m.groups)
}

/// The selectable sidebar item under the cursor.
pub open spec fn cursor_item(m: SessionModel) -> Option<int> {
    let pos = selectable_positions(m.sidebar);
    if 0 <= m.cursor < pos.len() {
        Some(pos[m.cursor])
    } else {
        None
    }
}

impl TuiSession {
    pub open spec fn wf(&self) -> bool {
        session_ok(self@)
    }

    /// The session of the welcome screen: nothing loaded yet.
    pub fn welcome(today: &str, paths: ConfigPaths, editor_command: &str) -> (r: TuiSession)
        ensures
            r.wf(),
            r@.app == crate::tui::app::initial_app(AppMode::Welcome),
            r@.store is None,
            r@.today == today@,
            all_tasks(r@.snapshot) == Seq::<StoredModel>::empty(),
            r@.lists == Seq::<SmartListModel>::empty(),
            r@.sidebar == Seq::<ItemModel>::empty(),
            r@.active == ItemModel::SmartList(0),
            r@.visible == Seq::<StoredModel>::empty(),
            r@.groups == Seq::<GroupModel>::empty(),
            r@.selected is None,
            r@.scroll is None,
            r@.fs_index is None,
            r@.overrides == (ViewOverrides { sort: None, group: None, reversed: false }),
            r@.collapsed == Seq::<Seq<Seq<char>>>::empty(),
            r@.editor_command == editor_command@,
            r@.pending_edit is None,
            r@.width_pct == 20 && r@.min_pct == 0 && r@.max_pct == 50,
            r@.sidebar_width == 0,
            r@.paths == (paths.root@, paths.config_file@),
            r@.last_cols == 0,
            r@.cursor == 0,
    {
        let r = TuiSession {
            app: AppState::new(AppMode::Welcome),
            store: None,
            today: owned(today),
            snapshot: Snapshot { open_tasks: Vec::new(), done_tasks: Vec::new() },
            smart_lists: Vec::new(),
            sidebar_items: Vec::new(),
            active_sidebar_item: SidebarItem::SmartList(0),
            visible_tasks: Vec::new(),
            visible_groups: Vec::new(),
            selected_task_index: None,
            task_scroll_override: None,
            fs_index: None,
            view_overrides: ViewOverrides::new(),
            collapsed_groups: Vec::new(),
            editor_command: owned(editor_command),
            pending_external_edit: None,
            sidebar_width_pct: 20,
            sidebar_min_width_pct: 0,
            sidebar_max_width_pct: 50,
            sidebar_width: 0,
            paths,
            last_terminal_cols: 0,
            sidebar_cursor: 0,
        };
        assert(all_tasks(r@.snapshot) =~= Seq::<StoredModel>::empty());
        assert(r@.lists =~= Seq::<SmartListModel>::empty());
        assert(r@.sidebar =~= Seq::<ItemModel>::empty());
        assert(r@.visible =~= Seq::<StoredModel>::empty());
        assert(r@.groups =~= Seq::<GroupModel>::empty());
        assert(r@.collapsed =~= Seq::<Seq<Seq<char>>>::empty());
        r
    }

    /// The welcome session with its configuration under `/tmp/ttd-welcome`.
    pub fn welcome_default(today: &str, editor_command: &str) -> (r: TuiSession)
        ensures
            r.wf(),
            r@.app == crate::tui::app::initial_app(AppMode::Welcome),
            r@.store is None,
            r@.today == today@,
            r@.visible == Seq::<StoredModel>::empty(),
            r@.editor_command == editor_command@,
            r@.paths.0 == "/tmp/ttd-welcome"@,
    {
        TuiSession::welcome(today, ConfigPaths::from_root("/tmp/ttd-welcome"), editor_command)
    }

    pub fn sidebar_items(&self) -> (r: &[SidebarItem])
        ensures
            items_view(r@) == self@.sidebar,
    {
        self.sidebar_items.as_slice()
    }

    pub fn app(&self) -> (r: &AppState)
        ensures
            r@ == self@.app,
    {
        &self.app
    }

    pub fn active_sidebar_item(&self) -> (r: SidebarItem)
        ensures
            r@ == self@.active,
    {
        duplicate_item(&self.active_sidebar_item)
    }

    pub fn visible_tasks(&self) -> (r: &[StoredTask])
        ensures
            stored_view(r@) == self@.visible,
    {
        self.visible_tasks.as_slice()
    }

    pub fn visible_groups(&self) -> (r: &[TaskGroup])
        ensures
            groups_view(r@) == self@.groups,
    {
        self.visible_groups.as_slice()
    }

    pub fn smart_lists(&self) -> (r: &[SmartList])
        ensures
            lists_view(r@) == self@.lists,
    {
        self.smart_lists.as_slice()
    }

    /// The smart list that the active sidebar item selects, if any.
    pub fn smart_list_for_active(&self) -> (r: Option<&SmartList>)
        ensures
            match r {
                Some(l) => active_list(self@.active, self@.lists) == Some(l@),
                None => active_list(self@.active, self@.lists) is None,
            },
    {
        match &self.active_sidebar_item {
            SidebarItem::SmartList(index) => {
                if *index < self.smart_lists.len() {
                    Some(&self.smart_lists[*index])
                } else {
                    None
                }
            },
            _ => None,
        }
    }

    pub fn view_overrides(&self) -> (r: &ViewOverrides)
        ensures
            *r == self@.overrides,
    {
        &self.view_overrides
    }

    pub fn collapsed_groups(&self) -> (r: &[Vec<String>])
        ensures
            paths_view(r@) == self@.collapsed,
    {
        self.collapsed_groups.as_slice()
    }

    /// The indicator of the overrides in effect (see `indicator`).
    pub fn override_indicator(&self) -> (r: String)
        ensures
            r@ == indicator(
                self@.overrides,
                effective_sort(self@.overrides, active_list(self@.active, self@.lists)),
                effective_group(self@.overrides, active_list(self@.active, self@.lists)),
            ),
    {
        let sort = effective_sort_directives(&self.view_overrides, self.smart_list_for_active());
        let group = effective_group_directives(&self.view_overrides, self.smart_list_for_active());
        override_indicator(&self.view_overrides, &sort, &group)
    }

    /// The selected task, if any.
    pub fn selected_task(&self) -> (r: Option<&StoredTask>)
        ensures
            match r {
                Some(t) => self@.selected matches Some(i) && 0 <= i < self@.visible.len() && t@ == self@.visible[i],
                None => !(self@.selected matches Some(i) && 0 <= i < self@.visible.len()),
            },
    {
        match self.selected_task_index {
            Some(i) => if i < self.visible_tasks.len() {
                Some(&self.visible_tasks[i])
            } else {
                None
            },
            None => None,
        }
    }

    pub fn task_scroll_offset_override(&self) -> (r: Option<u16>)
        ensures
            match r {
                Some(v) => self@.scroll == Some(v as int),
                None => self@.scroll is None,
            },
    {
        self.task_scroll_override
    }

    /// The scroll offset of the task pane (0 unless set).
    pub fn task_scroll_offset(&self) -> (r: u16)
        ensures
            r == match self@.scroll {
                Some(v) => v,
                None => 0,
            },
    {
        match self.task_scroll_override {
            Some(v) => v,
            None => 0,
        }
    }

    /// The command that opens an external editor.
    pub fn editor_command(&self) -> (r: &str)
        ensures
            r@ == self@.editor_command,
    {
        self.editor_command.as_str()
    }

    /// The width of the sidebar, in columns.
    pub fn sidebar_width(&self) -> (r: u16)
        ensures
            r == self@.sidebar_width,
    {
        self.sidebar_width
    }

    /// The sidebar's share of the terminal, in percent.
    pub fn sidebar_width_pct(&self) -> (r: u8)
        ensures
            r as int == self@.width_pct,
    {
        self.sidebar_width_pct
    }

    /// The smallest share of the terminal the sidebar may take, in percent.
    pub fn sidebar_min_width_pct(&self) -> (r: u8)
        ensures
            r as int == self@.min_pct,
    {
        self.sidebar_min_width_pct
    }

    /// The largest share of the terminal the sidebar may take, in percent.
    pub fn sidebar_max_width_pct(&self) -> (r: u8)
        ensures
            r as int == self@.max_pct,
    {
        self.sidebar_max_width_pct
    }

    /// The task directory of the session's store, if it has one.
    pub fn store_root(&self) -> (r: Option<&str>)
        ensures
            match r {
                Some(root) => self@.store == Some(root@),
                None => self@.store is None,
            },
    {
        match &self.store {
            Some(st) => Some(st.root_dir()),
            None => None,
        }
    }

    /// The task directory's store, if the session has one.
    pub fn store(&self) -> (r: Option<&TaskStore>)
        ensures
            match r {
                Some(st) => self@.store == Some(st@),
                None => self@.store is None,
            },
    {
        self.store.as_ref()
    }

    /// Hands out the file that should be opened in an external editor, once.
    pub fn take_pending_external_edit(&mut self) -> (r: Option<String>)
        ensures
            opt_view(r) == old(self)@.pending_edit,
            final(self)@ == (SessionModel { pending_edit: None, ..old(self)@ }),
    {
        let r = self.pending_external_edit.take();
        r
    }

    /// Whether the session may reload from disk on its own: on the main
    /// screen, with a store, and with no editor, conflict or delete prompt
    /// open.
    pub fn can_auto_refresh(&self) -> (r: bool)
        ensures
            r == (self@.app.mode == AppMode::Main && self@.store is Some && self@.app.editor is None
                && self@.app.save_conflict is None && !self@.app.confirm_delete),
    {
        self.app.mode == AppMode::Main && self.store.is_some() && self.app.editor.is_none()
            && self.app.save_conflict.is_none() && !self.app.confirm_delete
    }

    /// Mouse scrolling over the sidebar changes nothing: the sidebar follows
    /// its cursor.
    pub fn apply_sidebar_scroll(&mut self, delta: isize)
        ensures
            final(self)@ == old(self)@,
    {
    }

    /// The sidebar position of the selectable item under the cursor.
    pub fn sidebar_cursor_index(&self) -> (r: Option<usize>)
        ensures
            match r {
                Some(i) => cursor_item(self@) == Some(i as int),
                None => cursor_item(self@) is None,
            },
    {
        let sel = selectable_sidebar_indices(self.sidebar_items.as_slice());
        if self.sidebar_cursor < sel.len() {
            Some(sel[self.sidebar_cursor])
        } else {
            None
        }
    }

    /// The selectable item under the sidebar cursor.
    pub fn sidebar_cursor_item(&self) -> (r: Option<SidebarItem>)
        ensures
            match r {
                Some(item) => cursor_item(self@) matches Some(i) && 0 <= i < self@.sidebar.len() && item@ == self@.sidebar[i],
                None => cursor_item(self@) is None,
            },
    {
        match self.sidebar_cursor_index() {
            Some(i) => {
                proof {
                    lemma_selectable_positions_bounds(self@.sidebar);
                }
                assert(self@.sidebar[i as int] == self.sidebar_items@[i as int]@);
                Some(duplicate_item(&self.sidebar_items[i]))
            },
            None => None,
        }
    }

    fn sync_selected_task(&mut self)
        ensures
            final(self)@ == (SessionModel {
                scroll: None,
                app: AppModel { selected_task: selection_of(old(self)@.visible, old(self)@.selected), ..old(self)@.app },
                ..old(self)@
            }),
    {
        self.task_scroll_override = None;
        let sel = match self.selected_task_index {
            Some(i) => if i < self.visible_tasks.len() {
                let st = &self.visible_tasks[i];
                Some(SelectedTask::with_original_raw(st.id.duplicate(), st.task.raw.as_str(), st.task.raw.as_str()))
            } else {
                None
            },
            None => None,
        };
        self.app.selected_task = sel;
    }

    /// The target that finds the selected task again.
    pub fn current_selection_target(&self) -> (r: Option<SelectionTarget>)
        ensures
            target_view(r) == match self@.selected {
                Some(i) => if 0 <= i < self@.visible.len() {
                    Some(stored_target(self@.visible[i], Some(i)))
                } else {
                    None
                },
                None => None,
            },
    {
        match self.selected_task_index {
            Some(i) => if i < self.visible_tasks.len() {
                Some(SelectionTarget::from_stored(&self.visible_tasks[i], Some(i)))
            } else {
                None
            },
            None => None,
        }
    }

    /// Selects the task that the target finds (see `target_position`).
    pub fn reselect_task(&mut self, wanted: Option<SelectionTarget>)
        requires
            old(self).wf(),
        ensures
            final(self).wf(),
            final(self)@ == (SessionModel {
                selected: target_position(old(self)@.visible, target_view(wanted)),
                scroll: None,
                app: AppModel {
                    selected_task: selection_of(old(self)@.visible, target_position(old(self)@.visible, target_view(wanted))),
                    ..old(self)@.app
                },
                ..old(self)@
            }),
    {
        let found = find_target(&self.visible_tasks, &wanted);
        proof {
            lemma_target_position_bounds(self@.visible, target_view(wanted));
        }
        self.selected_task_index = found;
        self.sync_selected_task();
    }
}

proof fn lemma_first_index_exists<T>(s: Seq<T>, p: spec_fn(T) -> bool, k: int)
    requires
        0 <= k <= s.len(),
        forall|j: int| 0 <= j < k ==> !p(#[trigger] s[j]),
        exists|i: int| k <= i < s.len() && p(#[trigger] s[i]),
    ensures
        exists|i: int| 0 <= i < s.len() && p(#[trigger] s[i]) && forall|j: int| 0 <= j < i ==> !p(#[trigger] s[j]),
    decreases s.len() - k,
{
    if p(s[k]) {
        assert(0 <= k < s.len() && p(s[k]) && forall|j: int| 0 <= j < k ==> !p(#[trigger] s[j]));
    } else {
        let i = choose|i: int| k <= i < s.len() && p(#[trigger] s[i]);
        assert(k + 1 <= i);
        lemma_first_index_exists(s, p, k + 1);
    }
}

proof fn lemma_first_where_bounds<T>(s: Seq<T>, p: spec_fn(T) -> bool)
    ensures
        first_where(s, p) matches Some(i) ==> 0 <= i < s.len(),
{
    if exists|i: int| 0 <= i < s.len() && p(#[trigger] s[i]) {
        lemma_first_index_exists(s, p, 0);
    }
}

pub proof fn lemma_target_position_bounds(v: Seq<StoredModel>, w: Option<TargetModel>)
    requires
        w matches Some(t) ==> (t.fallback_index matches Some(i) ==> i >= 0),
    ensures
        target_position(v, w) matches Some(i) ==> 0 <= i < v.len(),
{
    if let Some(t) = w {
        if let Some(id) = t.task_id {
            lemma_first_where_bounds(v, id_is(id));
        }
        if let Some(n) = t.file_name {
            lemma_first_where_bounds(v, name_is(n));
        }
        if let Some(r) = t.raw {
            lemma_first_where_bounds(v, raw_is(r));
        }
        if let Some(k) = t.logical {
            lemma_first_where_bounds(v, parts_match(k));
        }
    }
}

// -- Arranging the tasks shown ---------------------------------------------------

/// The groups show headers: there is more than one, or one with a label.
pub open spec fn has_headers(groups: Seq<GroupModel>) -> bool {
    groups.len() > 1 || (groups.len() == 1 && groups[0].label.len() > 0)
}

/// `tasks` are the `found` tasks sorted by the directives when there are
/// any, else reversed when asked, else as found.
pub open spec fn ordered_as(tasks: Seq<StoredModel>, found: Seq<StoredModel>, sort: Seq<Directive>, reversed: bool) -> bool {
    if sort.len() > 0 {
        tasks.to_multiset() == found.to_multiset() && sorted_by_directives(tasks, sort)
    } else if reversed {
        tasks == found.reverse()
    } else {
        tasks == found
    }
}

/// Each group of `groups` is the group of `grouped` at its place, its
/// tasks sorted by the directives.
pub open spec fn groups_sorted(groups: Seq<GroupModel>, grouped: Seq<GroupModel>, sort: Seq<Directive>) -> bool {
    &&& groups.len() == grouped.len()
    &&& forall|i: int|
        0 <= i < groups.len() ==> (#[trigger] groups[i]).label == grouped[i].label && groups[i].tasks.to_multiset()
            == grouped[i].tasks.to_multiset() && sorted_by_directives(groups[i].tasks, sort)
}

/// The order of two groups by their labels, reversed for `desc`.
pub open spec fn label_order(a: GroupModel, b: GroupModel, desc: bool) -> Order3 {
    if desc {
        lex_order(b.label, a.label)
    } else {
        lex_order(a.label, b.label)
    }
}

pub open spec fn labels_ordered(groups: Seq<GroupModel>, desc: bool) -> bool {
    forall|i: int| 0 <= i < groups.len() - 1 ==> label_order(groups[i], #[trigger] groups[i + 1], desc) != Order3::Greater
}

/// The groups after a sort that is in effect: each group's tasks sorted,
/// and, when sorting and grouping go by the same field, the groups ordered
/// by label in the sort's direction.
pub open spec fn regrouped(groups: Seq<GroupModel>, grouped: Seq<GroupModel>, sort: Seq<Directive>, group: Seq<Directive>) -> bool {
    if has_headers(grouped) && sort.len() > 0 {
        exists|sorted: Seq<GroupModel>|
            #[trigger] groups_sorted(sorted, grouped, sort) && if group.len() > 0 && sort[0].field == group[0].field {
                groups.to_multiset() == sorted.to_multiset() && labels_ordered(groups, sort[0].direction == Direction::Desc)
            } else {
                groups == sorted
            }
    } else {
        groups == grouped
    }
}

/// The tasks of the groups, one group after the other.
pub open spec fn flatten(groups: Seq<GroupModel>) -> Seq<StoredModel>
    decreases groups.len(),
{
    if groups.len() == 0 {
        seq![]
    } else {
        flatten(groups.drop_last()) + groups.last().tasks
    }
}

/// `visible` and `groups` are what the session shows: the active item's
/// tasks that the search finds, ordered by the sort in effect, grouped by
/// the grouping in effect; when there are headers, the tasks in the order
/// of the groups.
#[verifier::opaque]
pub open spec fn arranged_for(
    snapshot: Snapshot,
    active: ItemModel,
    today: Seq<char>,
    lists: Seq<SmartListModel>,
    query: Seq<char>,
    overrides: ViewOverrides,
    visible: Seq<StoredModel>,
    groups: Seq<GroupModel>,
) -> bool {
    let list = active_list(active, lists);
    let sort = effective_sort(overrides, list);
    let group = effective_group(overrides, list);
    exists|ordered: Seq<StoredModel>, tasks: Seq<StoredModel>, grouped: Seq<GroupModel>|
        #![trigger in_default_order(ordered, all_tasks(snapshot), today), groups_of(grouped, group, tasks)]
        {
            &&& in_default_order(ordered, all_tasks(snapshot), today)
            &&& ordered_as(tasks, search_matches(shown_tasks(snapshot, active, today, lists, ordered), query), sort, overrides.reversed)
            &&& groups_of(grouped, group, tasks)
            &&& regrouped(groups, grouped, sort, group)
            &&& visible == if has_headers(grouped) {
                flatten(groups)
            } else {
                tasks
            }
        }
}

pub open spec fn arranged(m: SessionModel, visible: Seq<StoredModel>, groups: Seq<GroupModel>) -> bool {
    arranged_for(m.snapshot, m.active, m.today, m.lists, m.app.search_query, m.overrides, visible, groups)
}

/// The session `n` is `o` with its tasks rebuilt: arranged anew, the first
/// one selected, the scroll reset.
#[verifier::opaque]
pub open spec fn tasks_rebuilt(o: SessionModel, n: SessionModel) -> bool {
    &&& arranged(o, n.visible, n.groups)
    &&& n.selected == if n.visible.len() > 0 {
        Some(0int)
    } else {
        None
    }
    &&& n == SessionModel {
        visible: n.visible,
        groups: n.groups,
        selected: n.selected,
        scroll: None,
        app: AppModel { selected_task: selection_of(n.visible, n.selected), ..o.app },
        ..o
    }
}

/// The session with the selection moved to what `w` finds.
pub open spec fn reselected(m: SessionModel, w: Option<TargetModel>) -> SessionModel {
    SessionModel {
        selected: target_position(m.visible, w),
        scroll: None,
        app: AppModel { selected_task: selection_of(m.visible, target_position(m.visible, w)), ..m.app },
        ..m
    }
}

/// The target that finds the selected task again.
pub open spec fn selected_target(m: SessionModel) -> Option<TargetModel> {
    match m.selected {
        Some(i) => if 0 <= i < m.visible.len() {
            Some(stored_target(m.visible[i], Some(i)))
        } else {
            None
        },
        None => None,
    }
}

/// `n` is `o` with its tasks rebuilt and the task that was selected
/// selected again.
#[verifier::opaque]
pub open spec fn view_refreshed(o: SessionModel, n: SessionModel) -> bool {
    exists|mid: SessionModel| #[trigger] tasks_rebuilt(o, mid) && n == reselected(mid, selected_target(o))
}

/// The viewer with `content` as its source and its scroll clamped to the
/// last of the new lines; unchanged when closed or when nothing was read.
pub open spec fn viewer_reloaded(v: Option<ViewerModel>, content: Option<Seq<char>>) -> Option<ViewerModel> {
    match (v, content) {
        (Some(v), Some(c)) => {
            let n = lines_of(c).len() as int;
            let top = if n > 0 { n - 1 } else { 0 };
            Some(ViewerModel { content: c, scroll_offset: if v.scroll_offset > top { top } else { v.scroll_offset }, ..v })
        },
        _ => v,
    }
}

/// Orders task groups by label, ascending or descending.
pub struct GroupOrderer {
    pub desc: bool,
}

impl Orderer<TaskGroup> for GroupOrderer {
    open spec fn spec_order(&self, a: TaskGroup, b: TaskGroup) -> Order3 {
        label_order(a@, b@, self.desc)
    }

    proof fn lemma_flip(&self, a: TaskGroup, b: TaskGroup) {
        lemma_lex_order_flip(a.label@, b.label@);
    }

    fn order(&self, a: &TaskGroup, b: &TaskGroup) -> (r: Order3) {
        if self.desc {
            str_order(b.label.as_str(), a.label.as_str())
        } else {
            str_order(a.label.as_str(), b.label.as_str())
        }
    }
}

fn reversed_tasks(v: &Vec<StoredTask>) -> (r: Vec<StoredTask>)
    ensures
        stored_view(r@) == stored_view(v@).reverse(),
{
    let mut r: Vec<StoredTask> = Vec::new();
    let mut i: usize = v.len();
    while i > 0
        invariant
            i <= v.len(),
            stored_view(r@) == stored_view(v@).subrange(i as int, v.len() as int).reverse(),
        decreases i,
    {
        i = i - 1;
        let ghost before = stored_view(r@);
        let t = v[i].duplicate();
        r.push(t);
        assert(stored_view(r@) =~= before.push(v@[i as int]@));
        assert(stored_view(r@) =~= stored_view(v@).subrange(i as int, v.len() as int).reverse());
    }
    assert(stored_view(v@).subrange(0, v.len() as int) =~= stored_view(v@));
    r
}

fn flatten_groups(groups: &Vec<TaskGroup>) -> (r: Vec<StoredTask>)
    ensures
        stored_view(r@) == flatten(groups_view(groups@)),
{
    let ghost gv = groups_view(groups@);
    let mut r: Vec<StoredTask> = Vec::new();
    let mut i: usize = 0;
    while i < groups.len()
        invariant
            i <= groups.len(),
            gv == groups_view(groups@),
            stored_view(r@) == flatten(gv.subrange(0, i as int)),
        decreases groups.len() - i,
    {
        let ts = &groups[i].tasks;
        let ghost base = stored_view(r@);
        let mut j: usize = 0;
        while j < ts.len()
            invariant
                j <= ts.len(),
                stored_view(r@) == base + stored_view(ts@).subrange(0, j as int),
            decreases ts.len() - j,
        {
            let ghost b2 = stored_view(r@);
            let t = ts[j].duplicate();
            r.push(t);
            assert(stored_view(r@) =~= b2.push(ts@[j as int]@));
            j = j + 1;
            assert(stored_view(r@) =~= base + stored_view(ts@).subrange(0, j as int));
        }
        assert(stored_view(ts@).subrange(0, ts.len() as int) =~= stored_view(ts@));
        assert(gv.subrange(0, i + 1).drop_last() =~= gv.subrange(0, i as int));
        assert(gv[i as int] == groups@[i as int]@);
        i = i + 1;
    }
    assert(gv.subrange(0, groups.len() as int) =~= gv);
    r
}

fn label_is_empty(s: &String) -> (r: bool)
    ensures
        r == (s@.len() == 0),
{
    s.as_str().unicode_len() == 0
}

/// The groups with each group's tasks sorted by the directives.
fn sort_within_groups(groups: &Vec<TaskGroup>, sort: &Vec<Directive>) -> (r: Vec<TaskGroup>)
    ensures
        groups_sorted(groups_view(r@), groups_view(groups@), sort@),
{
    let mut r: Vec<TaskGroup> = Vec::new();
    let mut i: usize = 0;
    while i < groups.len()
        invariant
            i <= groups.len(),
            r.len() == i,
            forall|k: int|
                0 <= k < i ==> (#[trigger] groups_view(r@)[k]).label == groups_view(groups@)[k].label
                    && groups_view(r@)[k].tasks.to_multiset() == groups_view(groups@)[k].tasks.to_multiset()
                    && sorted_by_directives(groups_view(r@)[k].tasks, sort@),
        decreases groups.len() - i,
    {
        let mut t = duplicate_all(groups[i].tasks.as_slice());
        sort_by_directives(&mut t, sort.as_slice());
        let ghost before = r@;
        let label = groups[i].label.clone();
        let g = TaskGroup { label, tasks: t };
        assert(g@.label == groups_view(groups@)[i as int].label);
        assert(g@.tasks.to_multiset() == groups_view(groups@)[i as int].tasks.to_multiset());
        r.push(g);
        assert(groups_view(r@)[i as int] == g@);
        assert forall|k: int|
            0 <= k < i + 1 implies (#[trigger] groups_view(r@)[k]).label == groups_view(groups@)[k].label
                && groups_view(r@)[k].tasks.to_multiset() == groups_view(groups@)[k].tasks.to_multiset()
                && sorted_by_directives(groups_view(r@)[k].tasks, sort@) by {
            if k < i {
                assert(r@[k] == before[k]);
                assert(groups_view(r@)[k] == groups_view(before)[k]);
            }
        }
        i = i + 1;
    }
    r
}

/// The tasks in the order that the sort in effect gives (see `ordered_as`).
fn order_tasks(tasks: Vec<StoredTask>, sort: &Vec<Directive>, reversed: bool) -> (r: Vec<StoredTask>)
    ensures
        ordered_as(stored_view(r@), stored_view(tasks@), sort@, reversed),
{
    let mut tasks = tasks;
    if sort.len() > 0 {
        sort_by_directives(&mut tasks, sort.as_slice());
        tasks
    } else if reversed {
        reversed_tasks(&tasks)
    } else {
        tasks
    }
}

/// The groups after the sort in effect (see `regrouped`).
fn regroup(grouped: Vec<TaskGroup>, sort: &Vec<Directive>, group: &Vec<Directive>) -> (r: Vec<TaskGroup>)
    ensures
        regrouped(groups_view(r@), groups_view(grouped@), sort@, group@),
{
    let ghost gv = groups_view(grouped@);
    let has_groups = grouped.len() > 1 || (grouped.len() == 1 && !label_is_empty(&grouped[0].label));
    assert(has_groups == has_headers(gv));
    if !(has_groups && sort.len() > 0) {
        return grouped;
    }
    let mut sorted = sort_within_groups(&grouped, sort);
    let ghost sv = groups_view(sorted@);
    if group.len() > 0 && sort[0].field == group[0].field {
        let o2 = GroupOrderer { desc: sort[0].direction == Direction::Desc };
        let ghost before = sorted@;
        sort_by(&mut sorted, &o2);
        proof {
            lemma_map_multiset(sorted@, before, |g: TaskGroup| g@);
            assert forall|i: int| 0 <= i < groups_view(sorted@).len() - 1 implies label_order(
                groups_view(sorted@)[i],
                #[trigger] groups_view(sorted@)[i + 1],
                sort@[0].direction == Direction::Desc,
            ) != Order3::Greater by {
                assert(o2.spec_order(sorted@[i], sorted@[i + 1]) != Order3::Greater);
            }
        }
    }
    assert(groups_sorted(sv, gv, sort@));
    sorted
}

/// The tasks and groups that a session shows (see `arranged`).
fn arrange(
    snapshot: &Snapshot,
    active: &SidebarItem,
    today: &str,
    lists: &[SmartList],
    query: &str,
    overrides: &ViewOverrides,
    list: Option<&SmartList>,
) -> (r: (Vec<StoredTask>, Vec<TaskGroup>))
    requires
        item_dates_ok(active@, lists_view(lists@), today@, *snapshot),
        match list {
            Some(l) => active_list(active@, lists_view(lists@)) == Some(l@),
            None => active_list(active@, lists_view(lists@)) is None,
        },
    ensures
        arranged_for(*snapshot, active@, today@, lists_view(lists@), query@, *overrides, stored_view(r.0@), groups_view(r.1@)),
        has_headers(groups_view(r.1@)) ==> stored_view(r.0@) == flatten(groups_view(r.1@)),
{
    let found = filter_snapshot(snapshot, active, today, lists);
    let ghost ordered = choose|ordered: Seq<StoredModel>|
        in_default_order(ordered, all_tasks(*snapshot), today@) && stored_view(found@) == shown_tasks(
            *snapshot,
            active@,
            today@,
            lists_view(lists@),
            ordered,
        );
    let searched = apply_search_filter(found, query);
    let sort = effective_sort_directives(overrides, list);
    let tasks = order_tasks(searched, &sort, overrides.reversed);
    let group = effective_group_directives(overrides, list);
    let grouped = group_by_directives(group.as_slice(), tasks.as_slice());
    let ghost gv = groups_view(grouped@);
    let has_groups = grouped.len() > 1 || (grouped.len() == 1 && !label_is_empty(&grouped[0].label));
    assert(has_groups == has_headers(gv));
    let groups = regroup(grouped, &sort, &group);
    let visible = if has_groups {
        flatten_groups(&groups)
    } else {
        tasks
    };
    proof {
        reveal(arranged_for);
        assert(in_default_order(ordered, all_tasks(*snapshot), today@));
        assert(groups_of(gv, group@, stored_view(tasks@)));
    }
    (visible, groups)
}

impl TuiSession {
    fn active_dates_ok(&self)
        requires
            self.wf(),
        ensures
            item_dates_ok(self@.active, self@.lists, self@.today, self@.snapshot),
    {
        proof {
            if let ItemModel::SmartList(i) = self@.active {
                if 0 <= i < self@.lists.len() {
                    assert(list_evaluable(self@.lists[i], all_tasks(self@.snapshot), self@.today));
                }
            }
        }
    }

    fn rebuild_visible_tasks(&mut self)
        requires
            old(self).wf(),
        ensures
            final(self).wf(),
            tasks_rebuilt(old(self)@, final(self)@),
    {
        self.active_dates_ok();
        let (visible, groups) = arrange(
            &self.snapshot,
            &self.active_sidebar_item,
            self.today.as_str(),
            self.smart_lists.as_slice(),
            self.app.search_query.as_str(),
            &self.view_overrides,
            self.smart_list_for_active(),
        );
        self.visible_tasks = visible;
        self.visible_groups = groups;
        self.selected_task_index = if self.visible_tasks.len() > 0 {
            Some(0)
        } else {
            None
        };
        self.sync_selected_task();
        proof {
            reveal(tasks_rebuilt);
        }
    }
}

// -- Rebuilding the sidebar, selecting and moving ------------------------------------

pub open spec fn selectable_pred() -> spec_fn(ItemModel) -> bool {
    |i: ItemModel| selectable(i)
}

/// The first selectable item, or the first smart list when there is none.
pub open spec fn first_selectable(items: Seq<ItemModel>) -> ItemModel {
    match first_where(items, selectable_pred()) {
        Some(k) => items[k],
        None => ItemModel::SmartList(0),
    }
}

/// The cursor kept within `n` selectable items.
pub open spec fn clamped_cursor(cursor: int, n: int) -> int {
    let max = if n > 0 {
        n - 1
    } else {
        0
    };
    if cursor > max {
        max
    } else {
        cursor
    }
}

/// `m` is `o` with its sidebar built anew: the active item kept when it is
/// still there, else the first selectable one; the cursor kept within the
/// selectable items.
pub open spec fn sidebar_rebuilt(o: SessionModel, m: SessionModel) -> bool {
    &&& is_sidebar(m.sidebar, o.lists, all_tasks(o.snapshot), o.collapsed)
    &&& m.active == if m.sidebar.contains(o.active) {
        o.active
    } else {
        first_selectable(m.sidebar)
    }
    &&& m.cursor == clamped_cursor(o.cursor, selectable_positions(m.sidebar).len() as int)
    &&& m == SessionModel { sidebar: m.sidebar, active: m.active, cursor: m.cursor, ..o }
}

/// `n` is `o` with its sidebar and then its tasks rebuilt.
#[verifier::opaque]
pub open spec fn session_rebuilt(o: SessionModel, n: SessionModel) -> bool {
    exists|mid: SessionModel| #[trigger] sidebar_rebuilt(o, mid) && tasks_rebuilt(mid, n)
}

/// `n` is `o` with its sidebar and its tasks rebuilt and the task that was
/// selected selected again.
#[verifier::opaque]
pub open spec fn all_refreshed(o: SessionModel, n: SessionModel) -> bool {
    exists|mid: SessionModel| #[trigger] session_rebuilt(o, mid) && n == reselected(mid, selected_target(o))
}

fn items_equal(a: &SidebarItem, b: &SidebarItem) -> (r: bool)
    ensures
        r == (a@ == b@),
{
    match (a, b) {
        (SidebarItem::SmartList(x), SidebarItem::SmartList(y)) => *x == *y,
        (SidebarItem::GroupHeader(x), SidebarItem::GroupHeader(y)) => strings_eq(x, y),
        (SidebarItem::Separator, SidebarItem::Separator) => true,
        (SidebarItem::ListsHeader, SidebarItem::ListsHeader) => true,
        (SidebarItem::ProjectsHeader, SidebarItem::ProjectsHeader) => true,
        (SidebarItem::Project(x), SidebarItem::Project(y)) => str_eq(x.as_str(), y.as_str()),
        (SidebarItem::ContextsHeader, SidebarItem::ContextsHeader) => true,
        (SidebarItem::Context(x), SidebarItem::Context(y)) => str_eq(x.as_str(), y.as_str()),
        _ => false,
    }
}

fn items_contain(items: &Vec<SidebarItem>, x: &SidebarItem) -> (r: bool)
    ensures
        r == items_view(items@).contains(x@),
{
    let mut i: usize = 0;
    while i < items.len()
        invariant
            i <= items.len(),
            forall|k: int| 0 <= k < i ==> items_view(items@)[k] != x@,
        decreases items.len() - i,
    {
        if items_equal(&items[i], x) {
            assert(items_view(items@)[i as int] == x@);
            return true;
        }
        i = i + 1;
    }
    false
}

fn first_selectable_item(items: &Vec<SidebarItem>) -> (r: SidebarItem)
    ensures
        r@ == first_selectable(items_view(items@)),
{
    let ghost iv = items_view(items@);
    let ghost p = selectable_pred();
    let mut i: usize = 0;
    while i < items.len()
        invariant
            i <= items.len(),
            iv == items_view(items@),
            p == selectable_pred(),
            forall|j: int| 0 <= j < i ==> !p(#[trigger] iv[j]),
        decreases items.len() - i,
    {
        let sel = match &items[i] {
            SidebarItem::ListsHeader | SidebarItem::ProjectsHeader | SidebarItem::ContextsHeader | SidebarItem::Separator => false,
            _ => true,
        };
        assert(sel == p(iv[i as int]));
        if sel {
            proof {
                lemma_first_where(iv, p, i as int);
            }
            return duplicate_item(&items[i]);
        }
        i = i + 1;
    }
    proof {
        lemma_first_where(iv, p, i as int);
    }
    SidebarItem::SmartList(0)
}

impl TuiSession {
    fn rebuild(&mut self)
        requires
            old(self).wf(),
        ensures
            final(self).wf(),
            session_rebuilt(old(self)@, final(self)@),
    {
        let ghost o = self@;
        self.sidebar_items = build_sidebar_items(
            self.smart_lists.as_slice(),
            &self.snapshot,
            self.collapsed_groups.as_slice(),
        );
        if !items_contain(&self.sidebar_items, &self.active_sidebar_item) {
            self.active_sidebar_item = first_selectable_item(&self.sidebar_items);
        }
        let n = selectable_sidebar_indices(self.sidebar_items.as_slice()).len();
        let max_cursor = if n > 0 {
            n - 1
        } else {
            0
        };
        if self.sidebar_cursor > max_cursor {
            self.sidebar_cursor = max_cursor;
        }
        let ghost mid = self@;
        assert(sidebar_rebuilt(o, mid));
        self.rebuild_visible_tasks();
        proof {
            reveal(session_rebuilt);
        }
    }

    /// Opens a session on loaded tasks and smart lists, and builds its
    /// sidebar and the tasks of its first item.
    pub fn open(
        store: TaskStore,
        snapshot: Snapshot,
        smart_lists: Vec<SmartList>,
        fs_index: SnapshotIndex,
        today: &str,
        sidebar_width_pct: u8,
        sidebar_min_width_pct: u8,
        sidebar_max_width_pct: u8,
        paths: ConfigPaths,
        editor_command: &str,
    ) -> (r: TuiSession)
        requires
            lists_evaluable(lists_view(smart_lists@), all_tasks(snapshot), today@),
        ensures
            r.wf(),
            session_rebuilt(
                SessionModel {
                    app: crate::tui::app::initial_app(AppMode::Main),
                    store: Some(store@),
                    today: today@,
                    snapshot,
                    lists: lists_view(smart_lists@),
                    sidebar: Seq::<ItemModel>::empty(),
                    active: ItemModel::SmartList(0),
                    visible: Seq::<StoredModel>::empty(),
                    groups: Seq::<GroupModel>::empty(),
                    selected: None,
                    scroll: None,
                    fs_index: Some(fs_index@),
                    overrides: ViewOverrides { sort: None, group: None, reversed: false },
                    collapsed: Seq::<Seq<Seq<char>>>::empty(),
                    editor_command: editor_command@,
                    pending_edit: None,
                    width_pct: sidebar_width_pct as int,
                    min_pct: sidebar_min_width_pct as int,
                    max_pct: sidebar_max_width_pct as int,
                    sidebar_width: 0,
                    paths: (paths.root@, paths.config_file@),
                    last_cols: 0,
                    cursor: 0,
                },
                r@,
            ),
    {
        let mut s = TuiSession {
            app: AppState::new(AppMode::Main),
            store: Some(store),
            today: owned(today),
            snapshot,
            smart_lists,
            sidebar_items: Vec::new(),
            active_sidebar_item: SidebarItem::SmartList(0),
            visible_tasks: Vec::new(),
            visible_groups: Vec::new(),
            selected_task_index: None,
            task_scroll_override: None,
            fs_index: Some(fs_index),
            view_overrides: ViewOverrides::new(),
            collapsed_groups: Vec::new(),
            editor_command: owned(editor_command),
            pending_external_edit: None,
            sidebar_width_pct,
            sidebar_min_width_pct,
            sidebar_max_width_pct,
            sidebar_width: 0,
            paths,
            last_terminal_cols: 0,
            sidebar_cursor: 0,
        };
        assert(s@.sidebar =~= Seq::<ItemModel>::empty());
        assert(s@.visible =~= Seq::<StoredModel>::empty());
        assert(s@.groups =~= Seq::<GroupModel>::empty());
        assert(s@.collapsed =~= Seq::<Seq<Seq<char>>>::empty());
        s.rebuild();
        s
    }

    /// Makes `item` the active sidebar item, drops the overrides and
    /// rebuilds the tasks.
    pub fn select_sidebar_item(&mut self, item: SidebarItem)
        requires
            old(self).wf(),
        ensures
            final(self).wf(),
            tasks_rebuilt(
                SessionModel {
                    active: item@,
                    overrides: ViewOverrides { sort: None, group: None, reversed: false },
                    ..old(self)@
                },
                final(self)@,
            ),
    {
        self.active_sidebar_item = item;
        self.view_overrides.clear();
        self.rebuild_visible_tasks();
    }

    /// Selects the item under the sidebar cursor, if any.
    pub fn activate_sidebar_cursor(&mut self)
        requires
            old(self).wf(),
        ensures
            final(self).wf(),
            match cursor_item(old(self)@) {
                Some(i) => tasks_rebuilt(
                    SessionModel {
                        active: old(self)@.sidebar[i],
                        overrides: ViewOverrides { sort: None, group: None, reversed: false },
                        ..old(self)@
                    },
                    final(self)@,
                ),
                None => final(self)@ == old(self)@,
            },
    {
        match self.sidebar_cursor_item() {
            Some(item) => self.select_sidebar_item(item),
            None => {},
        }
    }

    fn refresh_view(&mut self)
        requires
            old(self).wf(),
        ensures
            final(self).wf(),
            view_refreshed(old(self)@, final(self)@),
    {
        let ghost o = self@;
        let wanted = self.current_selection_target();
        self.rebuild_visible_tasks();
        let ghost mid = self@;
        self.reselect_task(wanted);
        proof {
            reveal(view_refreshed);
        }
        assert(tasks_rebuilt(o, mid) && self@ == reselected(mid, selected_target(o)));
    }

    fn refresh_all(&mut self)
        requires
            old(self).wf(),
        ensures
            final(self).wf(),
            all_refreshed(old(self)@, final(self)@),
    {
        let ghost o = self@;
        let wanted = self.current_selection_target();
        self.rebuild();
        let ghost mid = self@;
        self.reselect_task(wanted);
        proof {
            reveal(all_refreshed);
        }
        assert(session_rebuilt(o, mid) && self@ == reselected(mid, selected_target(o)));
    }

    /// After smart-list files were edited outside: takes the lists read
    /// again (kept only when a store is open) and the viewer's source read
    /// again (when the viewer is open and it could be read, its scroll
    /// clamped to the new lines), then rebuilds the sidebar and the tasks,
    /// keeping the selected task.
    pub fn reload_after_external_edit(&mut self, smart_lists: Option<Vec<SmartList>>, viewer_content: Option<String>)
        requires
            old(self).wf(),
            smart_lists matches Some(l) ==> lists_evaluable(lists_view(l@), all_tasks(old(self)@.snapshot), old(self)@.today),
        ensures
            final(self).wf(),
            all_refreshed(
                SessionModel {
                    lists: match (smart_lists, old(self)@.store) {
                        (Some(l), Some(_)) => lists_view(l@),
                        _ => old(self)@.lists,
                    },
                    app: AppModel {
                        list_viewer: viewer_reloaded(old(self)@.app.list_viewer, opt_view(viewer_content)),
                        ..old(self)@.app
                    },
                    ..old(self)@
                },
                final(self)@,
            ),
    {
        if self.store.is_some() {
            match smart_lists {
                Some(l) => {
                    self.smart_lists = l;
                },
                None => {},
            }
        }
        match viewer_content {
            Some(content) => {
                let viewer = self.app.list_viewer.take();
                match viewer {
                    Some(mut v) => {
                        v.content = content;
                        let n = v.line_count();
                        let top = if n > 0 { n - 1 } else { 0 };
                        if v.scroll_offset > top {
                            v.scroll_offset = top;
                        }
                        self.app.list_viewer = Some(v);
                    },
                    None => {},
                }
            },
            None => {},
        }
        self.refresh_all();
    }

    /// Sorts by `directive` instead of the list's sort, not reversed.
    pub fn set_sort_override(&mut self, directive: Directive)
        requires
            old(self).wf(),
        ensures
            final(self).wf(),
            view_refreshed(
                SessionModel {
                    overrides: ViewOverrides { sort: Some(directive), reversed: false, ..old(self)@.overrides },
                    ..old(self)@
                },
                final(self)@,
            ),
    {
        self.view_overrides.sort = Some(directive);
        self.view_overrides.reversed = false;
        self.refresh_view();
    }

    /// Groups by `directive` instead of the list's grouping.
    pub fn set_group_override(&mut self, directive: Directive)
        requires
            old(self).wf(),
        ensures
            final(self).wf(),
            view_refreshed(
                SessionModel { overrides: ViewOverrides { group: Some(directive), ..old(self)@.overrides }, ..old(self)@ },
                final(self)@,
            ),
    {
        self.view_overrides.group = Some(directive);
        self.refresh_view();
    }

    /// Goes back to the list's sort, not reversed.
    pub fn clear_sort_override(&mut self)
        requires
            old(self).wf(),
        ensures
            final(self).wf(),
            view_refreshed(
                SessionModel {
                    overrides: ViewOverrides { sort: None, reversed: false, ..old(self)@.overrides },
                    ..old(self)@
                },
                final(self)@,
            ),
    {
        self.view_overrides.sort = None;
        self.view_overrides.reversed = false;
        self.refresh_view();
    }

    /// Goes back to the list's grouping.
    pub fn clear_group_override(&mut self)
        requires
            old(self).wf(),
        ensures
            final(self).wf(),
            view_refreshed(
                SessionModel { overrides: ViewOverrides { group: None, ..old(self)@.overrides }, ..old(self)@ },
                final(self)@,
            ),
    {
        self.view_overrides.group = None;
        self.refresh_view();
    }

    /// Reverses the sort, or undoes the reversal.
    pub fn toggle_reverse_sort(&mut self)
        requires
            old(self).wf(),
        ensures
            final(self).wf(),
            view_refreshed(
                SessionModel {
                    overrides: ViewOverrides { reversed: !old(self)@.overrides.reversed, ..old(self)@.overrides },
                    ..old(self)@
                },
                final(self)@,
            ),
    {
        self.view_overrides.reversed = !self.view_overrides.reversed;
        self.refresh_view();
    }
}

} // verus!
