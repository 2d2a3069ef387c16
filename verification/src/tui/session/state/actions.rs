//! The actions that keys ask of the session.
use vstd::prelude::*;

use crate::smartlist::types::{Direction, Directive, SmartList};
use crate::text::{copy_strings, strings_view};
use crate::tui::app::{AppAction, AppMode, AppModel, PickerKind};
use crate::smartlist::types::Prefill;
use super::super::{ItemModel, SidebarItem, ViewOverrides, all_tasks, is_collapsed, lists_view, paths_view, strings_eq};
use super::{SessionModel, TuiSession, active_list, all_refreshed, cursor_item, list_evaluable, selected_target, session_rebuilt, tasks_rebuilt, view_refreshed};
use super::requests::{RequestModel, SessionRequest, action_effect, picked, picker_ok, scrolled_down, scrolled_up, seeded_editor, selected_stored, toggled_path, without_path};

verus! {

fn without_path_exec(c: &Vec<Vec<String>>, p: &Vec<String>) -> (r: Vec<Vec<String>>)
    ensures
        paths_view(r@) == without_path(paths_view(c@), strings_view(p@)),
{
    let ghost cv = paths_view(c@);
    let mut r: Vec<Vec<String>> = Vec::new();
    let mut i: usize = 0;
    assert(paths_view(r@) =~= without_path(cv.subrange(0, 0), strings_view(p@)));
    while i < c.len()
        invariant
            i <= c.len(),
            cv == paths_view(c@),
            paths_view(r@) == without_path(cv.subrange(0, i as int), strings_view(p@)),
        decreases c.len() - i,
    {
        assert(cv.subrange(0, i + 1).drop_last() =~= cv.subrange(0, i as int));
        if !strings_eq(&c[i], p) {
            let ghost before = paths_view(r@);
            let x = copy_strings(&c[i]);
            r.push(x);
            assert(paths_view(r@) =~= before.push(cv[i as int]));
        }
        i = i + 1;
    }
    assert(cv.subrange(0, c.len() as int) =~= cv);
    r
}

impl TuiSession {
    fn add_task_defaults(&mut self)
        requires
            old(self).wf(),
        ensures
            final(self).wf(),
            final(self)@ == (SessionModel {
                app: AppModel {
                    editor: match old(self)@.app.editor {
                        Some(e) => Some(seeded_editor(e, old(self)@.active, old(self)@.lists, old(self)@.today)),
                        None => None,
                    },
                    ..old(self)@.app
                },
                ..old(self)@
            }),
    {
        let prefill: Option<&Prefill> = match &self.active_sidebar_item {
            SidebarItem::SmartList(i) => if *i < self.smart_lists.len() {
                assert(lists_view(self.smart_lists@)[*i as int] == self.smart_lists@[*i as int]@);
                Some(&self.smart_lists[*i].prefill)
            } else {
                None
            },
            _ => None,
        };
        let suffix: Option<&String> = match &self.active_sidebar_item {
            SidebarItem::Project(v) => Some(v),
            SidebarItem::Context(v) => Some(v),
            _ => None,
        };
        proof {
            if let ItemModel::SmartList(i) = self@.active {
                if 0 <= i < self@.lists.len() {
                    assert(list_evaluable(self@.lists[i], all_tasks(self@.snapshot), self@.today));
                }
            }
        }
        let today = self.today.as_str();
        match self.app.editor.as_mut() {
            Some(editor) => {
                let use_prefill = match prefill {
                    Some(p) => !p.is_empty(),
                    None => false,
                };
                if use_prefill {
                    editor.apply_prefill(prefill.unwrap(), today);
                } else {
                    match suffix {
                        Some(v) => editor.set_suffix(v.as_str()),
                        None => {},
                    }
                }
            },
            None => {},
        }
    }

    fn toggle_group_or_activate(&mut self)
        requires
            old(self).wf(),
        ensures
            final(self).wf(),
            match cursor_item(old(self)@) {
                Some(i) => match old(self)@.sidebar[i] {
                    ItemModel::GroupHeader(p) => session_rebuilt(
                        SessionModel { collapsed: toggled_path(old(self)@.collapsed, p), ..old(self)@ },
                        final(self)@,
                    ),
                    item => tasks_rebuilt(
                        SessionModel {
                            active: item,
                            overrides: ViewOverrides { sort: None, group: None, reversed: false },
                            ..old(self)@
                        },
                        final(self)@,
                    ),
                },
                None => final(self)@ == old(self)@,
            },
    {
        match self.sidebar_cursor_item() {
            Some(SidebarItem::GroupHeader(path)) => {
                if is_collapsed(self.collapsed_groups.as_slice(), &path) {
                    self.collapsed_groups = without_path_exec(&self.collapsed_groups, &path);
                } else {
                    let ghost before = paths_view(self.collapsed_groups@);
                    self.collapsed_groups.push(path);
                    assert(paths_view(self.collapsed_groups@) =~= before.push(strings_view(path@)));
                }
                self.rebuild();
            },
            Some(item) => self.select_sidebar_item(item),
            None => {},
        }
    }

    fn search_changed(&mut self)
        requires
            old(self).wf(),
        ensures
            final(self).wf(),
            if old(self)@.app.mode == AppMode::Main {
                all_refreshed(old(self)@, final(self)@)
            } else {
                final(self)@ == old(self)@
            },
    {
        if self.app.mode == AppMode::Main {
            self.refresh_all();
        }
    }

    fn delete_request(&self) -> (r: SessionRequest)
        ensures
            r@ == if self@.app.confirm_delete && selected_stored(self@) is Some {
                RequestModel::DeleteTask { id: selected_stored(self@)->0.id, wanted: selected_target(self@) }
            } else {
                RequestModel::Nothing
            },
    {
        if self.app.confirm_delete {
            let wanted = self.current_selection_target();
            match self.selected_task() {
                Some(t) => SessionRequest::DeleteTask { id: t.id.duplicate(), wanted },
                None => SessionRequest::Nothing,
            }
        } else {
            SessionRequest::Nothing
        }
    }

    fn toggle_request(&self) -> (r: SessionRequest)
        ensures
            r@ == match selected_stored(self@) {
                Some(t) => RequestModel::ToggleDone { id: t.id, done: t.task.done, wanted: selected_target(self@) },
                None => RequestModel::Nothing,
            },
    {
        let wanted = self.current_selection_target();
        match self.selected_task() {
            Some(t) => SessionRequest::ToggleDone { id: t.id.duplicate(), done: t.task.done, wanted },
            None => SessionRequest::Nothing,
        }
    }

    fn select_picked(&mut self)
        requires
            old(self).wf(),
            picker_ok(old(self)@.app),
        ensures
            final(self).wf(),
            match old(self)@.app.picker {
                Some(p) => view_refreshed(picked(old(self)@, p), final(self)@),
                None => final(self)@ == old(self)@,
            },
    {
        match self.app.picker.take() {
            Some(picker) => {
                let directive = Directive { field: *picker.selected_field(), direction: Direction::Asc };
                match picker.kind {
                    PickerKind::Sort => {
                        self.view_overrides.sort = Some(directive);
                        self.view_overrides.reversed = false;
                    },
                    PickerKind::Group => {
                        self.view_overrides.group = Some(directive);
                    },
                }
                self.refresh_view();
            },
            None => {},
        }
    }

    fn deactivate_sort(&mut self)
        requires
            old(self).wf(),
        ensures
            final(self).wf(),
            if old(self)@.overrides.sort is Some || old(self)@.overrides.reversed {
                view_refreshed(
                    SessionModel { overrides: ViewOverrides { sort: None, reversed: false, ..old(self)@.overrides }, ..old(self)@ },
                    final(self)@,
                )
            } else {
                final(self)@ == old(self)@
            },
    {
        if self.view_overrides.has_sort_override() {
            self.clear_sort_override();
        }
    }

    fn deactivate_group(&mut self)
        requires
            old(self).wf(),
        ensures
            final(self).wf(),
            if old(self)@.overrides.group is Some {
                view_refreshed(
                    SessionModel { overrides: ViewOverrides { group: None, ..old(self)@.overrides }, ..old(self)@ },
                    final(self)@,
                )
            } else {
                final(self)@ == old(self)@
            },
    {
        if self.view_overrides.has_group_override() {
            self.clear_group_override();
        }
    }

    fn viewer_request(&self) -> (r: SessionRequest)
        ensures
            r@ == match active_list(self@.active, self@.lists) {
                Some(l) => RequestModel::OpenListViewer { list_name: l.name, source_path: l.source_path },
                None => RequestModel::Nothing,
            },
    {
        match self.smart_list_for_active() {
            Some(l) => SessionRequest::OpenListViewer { list_name: l.name.clone(), source_path: l.source_path.clone() },
            None => SessionRequest::Nothing,
        }
    }

    fn scroll_viewer(&mut self, delta: isize)
        requires
            old(self).wf(),
        ensures
            final(self).wf(),
            final(self)@ == (SessionModel {
                app: AppModel {
                    list_viewer: match old(self)@.app.list_viewer {
                        Some(v) => Some(if delta > 0 {
                            scrolled_down(v, 20)
                        } else {
                            scrolled_up(v)
                        }),
                        None => None,
                    },
                    ..old(self)@.app
                },
                ..old(self)@
            }),
    {
        match self.app.list_viewer.as_mut() {
            Some(viewer) => {
                if delta > 0 {
                    viewer.scroll_down(20);
                } else {
                    viewer.scroll_up();
                }
            },
            None => {},
        }
    }

    fn edit_externally(&mut self)
        requires
            old(self).wf(),
        ensures
            final(self).wf(),
            final(self)@ == (SessionModel {
                pending_edit: match old(self)@.app.list_viewer {
                    Some(v) => Some(v.source_path),
                    None => match active_list(old(self)@.active, old(self)@.lists) {
                        Some(l) => Some(l.source_path),
                        None => old(self)@.pending_edit,
                    },
                },
                ..old(self)@
            }),
    {
        let path = match &self.app.list_viewer {
            Some(v) => Some(v.source_path.clone()),
            None => match self.smart_list_for_active() {
                Some(l) => Some(l.source_path.clone()),
                None => None,
            },
        };
        if path.is_some() {
            self.pending_external_edit = path;
        }
    }

    /// Carries out an action of the application state on the session (see
    /// `action_effect`); what needs the files is returned to the caller.
    #[verifier::rlimit(100)]
    #[verifier::spinoff_prover]
    pub fn apply_action(&mut self, action: AppAction) -> (r: SessionRequest)
        requires
            old(self).wf(),
            action is PickerSelect ==> picker_ok(old(self)@.app),
        ensures
            final(self).wf(),
            action_effect(old(self)@, action@, final(self)@, r@),
    {
        match action {
            AppAction::AppendToSearch(_) | AppAction::BackspaceSearch | AppAction::Cancel => {
                self.search_changed();
                SessionRequest::Nothing
            },
            AppAction::NextSearchResult => {
                self.move_search_result(1);
                SessionRequest::Nothing
            },
            AppAction::PreviousSearchResult => {
                self.move_search_result(-1);
                SessionRequest::Nothing
            },
            AppAction::OpenSelected => self.delete_request(),
            AppAction::SubmitEditor => SessionRequest::SaveEditor,
            AppAction::ToggleDone => self.toggle_request(),
            AppAction::Refresh => SessionRequest::Refresh,
            AppAction::ResolveConflict(choice) => SessionRequest::ResolveConflict(choice),
            AppAction::AddTask => {
                self.add_task_defaults();
                SessionRequest::Nothing
            },
            AppAction::PickerSelect => {
                self.select_picked();
                SessionRequest::Nothing
            },
            AppAction::DeactivateSort => {
                self.deactivate_sort();
                SessionRequest::Nothing
            },
            AppAction::DeactivateGroup => {
                self.deactivate_group();
                SessionRequest::Nothing
            },
            AppAction::ReverseSort => {
                self.toggle_reverse_sort();
                SessionRequest::Nothing
            },
            AppAction::ToggleGroup => {
                self.toggle_group_or_activate();
                SessionRequest::Nothing
            },
            AppAction::OpenListViewer => self.viewer_request(),
            AppAction::ScrollListViewer(delta) => {
                self.scroll_viewer(delta);
                SessionRequest::Nothing
            },
            AppAction::EditListExternally => {
                self.edit_externally();
                SessionRequest::Nothing
            },
            _ => SessionRequest::Nothing,
        }
    }
}

} // verus!
