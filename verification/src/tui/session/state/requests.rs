//! What the session asks of the caller that reads and writes files, what it
//! does with the answer, and how keys and the mouse reach it.
use vstd::prelude::*;

use crate::smartlist::types::{Direction, Directive, SmartList, SmartListModel};
use crate::store::{stored_view, Snapshot, StoredModel};
use crate::text::str_eq;
use crate::tui::editor::EditorState;
use crate::tui::app::{AppMode, AppModel, ListViewerState, PickerKind, PickerModel, ViewerModel, ActionModel};
use crate::tui::editor::{ConflictChoice, EditorModel, with_raw, at_cursor, prefill_prefix, prefill_suffix};
use crate::smartlist::types::empty_prefill;
use crate::text::lines_of;
use crate::store::{TaskId, TaskIdModel};
use crate::refresh::SnapshotIndex;
use super::super::{ItemModel, ViewOverrides, all_of, all_tasks, contains_path, lists_view};
use super::{all_lists_evaluable, lists_evaluable, SelectionTarget, SessionModel, TargetModel, TuiSession, active_list, all_refreshed, cursor_item, editor_target, first_where, lemma_first_where, reselected, selected_target, session_rebuilt, stored_target, target_view, tasks_rebuilt, view_refreshed};
use super::moves::moved_in_results;

verus! {

// -- What the session asks of the outside, and what it does with the answer --------

/// Work that the session leaves to its caller because it reads or writes
/// files; the caller reports back through the methods named below.
pub enum SessionRequest {
    Nothing,
    /// Delete the task, then call `finish_delete` with the reloaded tasks.
    DeleteTask { id: TaskId, wanted: Option<SelectionTarget> },
    /// Save the editor into the store, then call `after_editor_save` with
    /// the editor as it was and the reloaded tasks.
    SaveEditor,
    /// Restore the task when it is done, mark it done today otherwise;
    /// then call `refresh_to_target` with the reloaded tasks.
    ToggleDone { id: TaskId, done: bool, wanted: Option<SelectionTarget> },
    /// Reload the tasks and call `refresh`.
    Refresh,
    /// Resolve the save conflict; when `after_conflict_resolved` says so,
    /// reload the tasks and call `refresh`.
    ResolveConflict(ConflictChoice),
    /// Read the smart list's source and call `show_list_viewer`.
    OpenListViewer { list_name: String, source_path: String },
    /// Check the directory, save the configuration that `welcome_config`
    /// gives, and open a session on it.
    OpenTaskDir(String),
}

pub ghost enum RequestModel {
    Nothing,
    DeleteTask { id: TaskIdModel, wanted: Option<TargetModel> },
    SaveEditor,
    ToggleDone { id: TaskIdModel, done: bool, wanted: Option<TargetModel> },
    Refresh,
    ResolveConflict(ConflictChoice),
    OpenListViewer { list_name: Seq<char>, source_path: Seq<char> },
    OpenTaskDir(Seq<char>),
}

impl View for SessionRequest {
    type V = RequestModel;

    open spec fn view(&self) -> RequestModel {
        match self {
            SessionRequest::Nothing => RequestModel::Nothing,
            SessionRequest::DeleteTask { id, wanted } => RequestModel::DeleteTask { id: id@, wanted: target_view(*wanted) },
            SessionRequest::SaveEditor => RequestModel::SaveEditor,
            SessionRequest::ToggleDone { id, done, wanted } => RequestModel::ToggleDone {
                id: id@,
                done: *done,
                wanted: target_view(*wanted),
            },
            SessionRequest::Refresh => RequestModel::Refresh,
            SessionRequest::ResolveConflict(c) => RequestModel::ResolveConflict(*c),
            SessionRequest::OpenListViewer { list_name, source_path } => RequestModel::OpenListViewer {
                list_name: list_name@,
                source_path: source_path@,
            },
            SessionRequest::OpenTaskDir(d) => RequestModel::OpenTaskDir(d@),
        }
    }
}

/// The selected task, when the selection is among the tasks.
pub open spec fn selected_stored(m: SessionModel) -> Option<StoredModel> {
    match m.selected {
        Some(i) => if 0 <= i < m.visible.len() {
            Some(m.visible[i])
        } else {
            None
        },
        None => None,
    }
}

/// The editor after a new task is started from the active sidebar item: a
/// smart list's prefill when it declares anything, else a project's or a
/// context's name after the cursor.
pub open spec fn seeded_editor(e: EditorModel, active: ItemModel, lists: Seq<SmartListModel>, today: Seq<char>) -> EditorModel {
    let prefill = match active {
        ItemModel::SmartList(_) => match active_list(active, lists) {
            Some(l) => Some(l.prefill),
            None => None,
        },
        _ => None,
    };
    let suffix = match active {
        ItemModel::Project(v) => Some(v),
        ItemModel::Context(v) => Some(v),
        _ => None,
    };
    if prefill is Some && prefill->0 != empty_prefill() {
        with_raw(at_cursor(e, prefill_prefix(prefill->0).len() as int), prefill_prefix(prefill->0) + prefill_suffix(prefill->0, today))
    } else if suffix is Some {
        with_raw(at_cursor(e, 0), " "@ + suffix->0)
    } else {
        e
    }
}

/// `c` without `p`.
pub open spec fn without_path(c: Seq<Seq<Seq<char>>>, p: Seq<Seq<char>>) -> Seq<Seq<Seq<char>>>
    decreases c.len(),
{
    if c.len() == 0 {
        seq![]
    } else if c.last() == p {
        without_path(c.drop_last(), p)
    } else {
        without_path(c.drop_last(), p).push(c.last())
    }
}

/// The collapsed groups with `p` collapsed or expanded.
pub open spec fn toggled_path(c: Seq<Seq<Seq<char>>>, p: Seq<Seq<char>>) -> Seq<Seq<Seq<char>>> {
    if contains_path(c, p) {
        without_path(c, p)
    } else {
        c.push(p)
    }
}

pub open spec fn scrolled_down(v: ViewerModel, h: int) -> ViewerModel {
    let n = lines_of(v.content).len() as int;
    let max_top = if n > h {
        n - h
    } else {
        0
    };
    ViewerModel { scroll_offset: if v.scroll_offset < max_top {
        v.scroll_offset + 1
    } else {
        v.scroll_offset
    }, ..v }
}

pub open spec fn scrolled_up(v: ViewerModel) -> ViewerModel {
    ViewerModel { scroll_offset: if v.scroll_offset > 0 {
        v.scroll_offset - 1
    } else {
        0
    }, ..v }
}

/// The picker can select: its position is among its fields.
pub open spec fn picker_ok(a: AppModel) -> bool {
    a.picker matches Some(p) ==> 0 <= p.selected_index < p.items.len()
}

/// The session with the picker's field as the sort (ascending, not
/// reversed) or the grouping, and the picker closed.
pub open spec fn picked(m: SessionModel, p: PickerModel) -> SessionModel {
    let d = Directive { field: p.items[p.selected_index], direction: Direction::Asc };
    SessionModel {
        app: AppModel { picker: None, ..m.app },
        overrides: match p.kind {
            PickerKind::Sort => ViewOverrides { sort: Some(d), reversed: false, ..m.overrides },
            PickerKind::Group => ViewOverrides { group: Some(d), ..m.overrides },
        },
        ..m
    }
}

/// What an action does to a session `o`: `n` is the session after it and
/// `r` the work it asks of the caller.
pub open spec fn action_effect(o: SessionModel, a: ActionModel, n: SessionModel, r: RequestModel) -> bool {
    match a {
        ActionModel::AppendToSearch(_) | ActionModel::BackspaceSearch | ActionModel::Cancel => if o.app.mode
            == AppMode::Main {
            all_refreshed(o, n) && r == RequestModel::Nothing
        } else {
            n == o && r == RequestModel::Nothing
        },
        ActionModel::NextSearchResult => n == moved_in_results(o, 1) && r == RequestModel::Nothing,
        ActionModel::PreviousSearchResult => n == moved_in_results(o, -1) && r == RequestModel::Nothing,
        ActionModel::OpenSelected => n == o && r == if o.app.confirm_delete && selected_stored(o) is Some {
            RequestModel::DeleteTask { id: selected_stored(o)->0.id, wanted: selected_target(o) }
        } else {
            RequestModel::Nothing
        },
        ActionModel::SubmitEditor => n == o && r == RequestModel::SaveEditor,
        ActionModel::ToggleDone => n == o && r == match selected_stored(o) {
            Some(t) => RequestModel::ToggleDone { id: t.id, done: t.task.done, wanted: selected_target(o) },
            None => RequestModel::Nothing,
        },
        ActionModel::Refresh => n == o && r == RequestModel::Refresh,
        ActionModel::ResolveConflict(c) => n == o && r == RequestModel::ResolveConflict(c),
        ActionModel::AddTask => r == RequestModel::Nothing && n == SessionModel {
            app: AppModel {
                editor: match o.app.editor {
                    Some(e) => Some(seeded_editor(e, o.active, o.lists, o.today)),
                    None => None,
                },
                ..o.app
            },
            ..o
        },
        ActionModel::PickerSelect => r == RequestModel::Nothing && match o.app.picker {
            Some(p) => view_refreshed(picked(o, p), n),
            None => n == o,
        },
        ActionModel::DeactivateSort => r == RequestModel::Nothing && if o.overrides.sort is Some || o.overrides.reversed {
            view_refreshed(SessionModel { overrides: ViewOverrides { sort: None, reversed: false, ..o.overrides }, ..o }, n)
        } else {
            n == o
        },
        ActionModel::DeactivateGroup => r == RequestModel::Nothing && if o.overrides.group is Some {
            view_refreshed(SessionModel { overrides: ViewOverrides { group: None, ..o.overrides }, ..o }, n)
        } else {
            n == o
        },
        ActionModel::ReverseSort => r == RequestModel::Nothing && view_refreshed(
            SessionModel { overrides: ViewOverrides { reversed: !o.overrides.reversed, ..o.overrides }, ..o },
            n,
        ),
        ActionModel::ToggleGroup => r == RequestModel::Nothing && match cursor_item(o) {
            Some(i) => match o.sidebar[i] {
                ItemModel::GroupHeader(p) => session_rebuilt(SessionModel { collapsed: toggled_path(o.collapsed, p), ..o }, n),
                item => tasks_rebuilt(
                    SessionModel { active: item, overrides: ViewOverrides { sort: None, group: None, reversed: false }, ..o },
                    n,
                ),
            },
            None => n == o,
        },
        ActionModel::OpenListViewer => n == o && r == match active_list(o.active, o.lists) {
            Some(l) => RequestModel::OpenListViewer { list_name: l.name, source_path: l.source_path },
            None => RequestModel::Nothing,
        },
        ActionModel::ScrollListViewer(d) => r == RequestModel::Nothing && n == SessionModel {
            app: AppModel {
                list_viewer: match o.app.list_viewer {
                    Some(v) => Some(if d > 0 {
                        scrolled_down(v, 20)
                    } else {
                        scrolled_up(v)
                    }),
                    None => None,
                },
                ..o.app
            },
            ..o
        },
        ActionModel::EditListExternally => r == RequestModel::Nothing && n == SessionModel {
            pending_edit: match o.app.list_viewer {
                Some(v) => Some(v.source_path),
                None => match active_list(o.active, o.lists) {
                    Some(l) => Some(l.source_path),
                    None => o.pending_edit,
                },
            },
            ..o
        },
        _ => n == o && r == RequestModel::Nothing,
    }
}


/// Whether a task with this place is among the snapshot's tasks.
pub fn snapshot_contains_task(snapshot: &Snapshot, wanted: &TaskId) -> (r: bool)
    ensures
        r == exists|k: int| 0 <= k < all_tasks(*snapshot).len() && (#[trigger] all_tasks(*snapshot)[k]).id == wanted@,
{
    let all = all_of(snapshot);
    let ghost av = stored_view(all@);
    let mut i: usize = 0;
    while i < all.len()
        invariant
            i <= all.len(),
            av == stored_view(all@),
            av == all_tasks(*snapshot),
            forall|k: int| 0 <= k < i ==> (#[trigger] av[k]).id != wanted@,
        decreases all.len() - i,
    {
        if str_eq(all[i].id.path.as_str(), wanted.path.as_str()) && all[i].id.line_index == wanted.line_index {
            assert(av[i as int].id == wanted@);
            return true;
        }
        assert(av[i as int].id != wanted@);
        i = i + 1;
    }
    false
}

pub open spec fn is_new_in(before: Snapshot) -> spec_fn(StoredModel) -> bool {
    |x: StoredModel| !exists|k: int| 0 <= k < all_tasks(before).len() && (#[trigger] all_tasks(before)[k]).id == x.id
}

/// The target of the first task of `after` whose place `before` does not
/// have.
pub open spec fn created_target(before: Snapshot, after: Snapshot, fallback: Option<int>) -> Option<TargetModel> {
    match first_where(all_tasks(after), is_new_in(before)) {
        Some(i) => Some(stored_target(all_tasks(after)[i], fallback)),
        None => None,
    }
}

/// The target for a task that a save created (see `created_target`).
pub fn created_task_target(before: &Snapshot, after: &Snapshot, fallback_index: Option<usize>) -> (r: Option<SelectionTarget>)
    ensures
        target_view(r) == created_target(*before, *after, match fallback_index {
            Some(i) => Some(i as int),
            None => None,
        }),
{
    let all = all_of(after);
    let ghost av = stored_view(all@);
    let ghost p = is_new_in(*before);
    let mut i: usize = 0;
    while i < all.len()
        invariant
            i <= all.len(),
            av == stored_view(all@),
            av == all_tasks(*after),
            p == is_new_in(*before),
            forall|j: int| 0 <= j < i ==> !p(#[trigger] av[j]),
        decreases all.len() - i,
    {
        if !snapshot_contains_task(before, &all[i].id) {
            proof {
                lemma_first_where(av, p, i as int);
            }
            return Some(SelectionTarget::from_stored(&all[i], fallback_index));
        }
        i = i + 1;
    }
    proof {
        lemma_first_where(av, p, i as int);
    }
    None
}

/// The target after an editor is saved: for a new task, the task the save
/// created when one can be found, else the editor's line; for an edited
/// task, the editor's place and line.
pub open spec fn saved_target(editor: Option<EditorModel>, before: Snapshot, after: Snapshot, selected: Option<int>) -> Option<TargetModel> {
    match editor {
        Some(e) => if e.task_id is None {
            match created_target(before, after, selected) {
                Some(t) => Some(t),
                None => Some(editor_target(e, selected)),
            }
        } else {
            Some(editor_target(e, selected))
        },
        None => None,
    }
}

/// `n` is `o` with its sidebar and tasks rebuilt and what `w` finds
/// selected.
#[verifier::opaque]
pub open spec fn refreshed_to(o: SessionModel, n: SessionModel, w: Option<TargetModel>) -> bool {
    exists|mid: SessionModel| #[trigger] session_rebuilt(o, mid) && n == reselected(mid, w)
}

impl TuiSession {
    /// Whether every smart list can match the tasks of `snapshot` on the
    /// session's day (what taking `snapshot` asks).
    pub fn can_take_snapshot(&self, snapshot: &Snapshot) -> (r: bool)
        ensures
            r == lists_evaluable(self@.lists, all_tasks(*snapshot), self@.today),
    {
        all_lists_evaluable(self.smart_lists(), snapshot, self.today.as_str())
    }

    /// Whether every list of `lists` can match the session's tasks on its
    /// day (what taking `lists` asks).
    pub fn can_take_lists(&self, lists: &[SmartList]) -> (r: bool)
        ensures
            r == lists_evaluable(lists_view(lists@), all_tasks(self@.snapshot), self@.today),
    {
        all_lists_evaluable(lists, &self.snapshot, self.today.as_str())
    }

    /// Takes reloaded tasks: rebuilds everything and selects the task that
    /// was selected again.
    pub fn refresh(&mut self, snapshot: Snapshot, fs_index: SnapshotIndex)
        requires
            old(self).wf(),
            lists_evaluable(old(self)@.lists, all_tasks(snapshot), old(self)@.today),
        ensures
            final(self).wf(),
            all_refreshed(SessionModel { snapshot, fs_index: Some(fs_index@), ..old(self)@ }, final(self)@),
    {
        self.snapshot = snapshot;
        self.fs_index = Some(fs_index);
        self.refresh_all();
    }

    /// Takes reloaded tasks: rebuilds everything and selects what `wanted`
    /// finds.
    pub fn refresh_to_target(&mut self, snapshot: Snapshot, fs_index: SnapshotIndex, wanted: Option<SelectionTarget>)
        requires
            old(self).wf(),
            lists_evaluable(old(self)@.lists, all_tasks(snapshot), old(self)@.today),
        ensures
            final(self).wf(),
            refreshed_to(SessionModel { snapshot, fs_index: Some(fs_index@), ..old(self)@ }, final(self)@, target_view(wanted)),
    {
        let ghost o = SessionModel { snapshot, fs_index: Some(fs_index@), ..self@ };
        self.snapshot = snapshot;
        self.fs_index = Some(fs_index);
        self.rebuild();
        let ghost mid = self@;
        self.reselect_task(wanted);
        proof {
            reveal(refreshed_to);
        }
        assert(session_rebuilt(o, mid) && self@ == reselected(mid, target_view(wanted)));
    }

    /// After a delete: the prompt closes and the reloaded tasks are taken.
    pub fn finish_delete(&mut self, snapshot: Snapshot, fs_index: SnapshotIndex, wanted: Option<SelectionTarget>)
        requires
            old(self).wf(),
            lists_evaluable(old(self)@.lists, all_tasks(snapshot), old(self)@.today),
        ensures
            final(self).wf(),
            refreshed_to(
                SessionModel {
                    app: AppModel { confirm_delete: false, ..old(self)@.app },
                    snapshot,
                    fs_index: Some(fs_index@),
                    ..old(self)@
                },
                final(self)@,
                target_view(wanted),
            ),
    {
        self.app.confirm_delete = false;
        self.refresh_to_target(snapshot, fs_index, wanted);
    }

    /// After an editor was saved without conflict: takes the reloaded tasks
    /// and selects the saved task (see `saved_target`).
    pub fn after_editor_save(&mut self, editor: Option<EditorState>, next: Snapshot)
        requires
            old(self).wf(),
            lists_evaluable(old(self)@.lists, all_tasks(next), old(self)@.today),
        ensures
            final(self).wf(),
            refreshed_to(
                SessionModel { snapshot: next, ..old(self)@ },
                final(self)@,
                saved_target(
                    match editor {
                        Some(e) => Some(e@),
                        None => None,
                    },
                    old(self)@.snapshot,
                    next,
                    old(self)@.selected,
                ),
            ),
    {
        let wanted = match &editor {
            Some(e) => if e.task_id.is_none() {
                match created_task_target(&self.snapshot, &next, self.selected_task_index) {
                    Some(t) => Some(t),
                    None => Some(SelectionTarget::from_editor(e, self.selected_task_index)),
                }
            } else {
                Some(SelectionTarget::from_editor(e, self.selected_task_index))
            },
            None => None,
        };
        let ghost o = SessionModel { snapshot: next, ..self@ };
        self.snapshot = next;
        self.rebuild();
        let ghost mid = self@;
        self.reselect_task(wanted);
        proof {
            reveal(refreshed_to);
        }
        assert(session_rebuilt(o, mid) && self@ == reselected(mid, target_view(wanted)));
    }

    /// Whether the tasks must be reloaded after a conflict was resolved:
    /// when the local draft overwrote the file and no conflict is left.
    pub fn after_conflict_resolved(&self, choice: ConflictChoice) -> (r: bool)
        ensures
            r == (choice == ConflictChoice::OverwriteExternal && self@.app.save_conflict is None),
    {
        choice == ConflictChoice::OverwriteExternal && self.app.save_conflict.is_none()
    }

    /// Opens the viewer on a smart list's source, at its top.
    pub fn show_list_viewer(&mut self, list_name: String, source_path: String, content: String)
        ensures
            final(self)@ == (SessionModel {
                app: AppModel {
                    list_viewer: Some(ViewerModel { list_name: list_name@, source_path: source_path@, content: content@, scroll_offset: 0 }),
                    ..old(self)@.app
                },
                ..old(self)@
            }),
    {
        self.app.list_viewer = Some(ListViewerState { list_name, source_path, content, scroll_offset: 0 });
    }

    /// Whether the files changed since the last load and the session may
    /// reload on its own.
    pub fn poll_refresh(&self, current: &SnapshotIndex) -> (r: bool)
        ensures
            r == (self@.app.mode == AppMode::Main && self@.store is Some && self@.app.editor is None
                && self@.app.save_conflict is None && !self@.app.confirm_delete && match self@.fs_index {
                Some(previous) => previous != current@,
                None => true,
            }),
    {
        if !self.can_auto_refresh() {
            return false;
        }
        match &self.fs_index {
            Some(previous) => previous.has_changes(current),
            None => true,
        }
    }

}

} // verus!
