//! The application state and what each key does to it.
use vstd::prelude::*;

use super::editor::{
    remove_before, insert_at, at_cursor, helper_state, shortcut_applied, with_helper, with_raw,
    fresh_editor, ConflictChoice, EditorModel, EditorSaveRequest, EditorSaveResult,
    EditorSaveTarget, EditorShortcut, EditorState, SaveConflictState, SelectedModel, SelectedTask,
    ShortcutApplyOutcome,
};
use super::events::{normalize_key, normalized_key};
use crate::smartlist::types::Field;
use crate::text::{chars_of, lines_of, opt_view, owned, push_str, split_lines, str_eq_lit, string_of, trim, trim_chars};

verus! {

#[derive(Debug, Clone, Copy, PartialEq, Eq, Structural)]
pub enum PickerKind {
    Sort,
    Group,
}

/// The sort or group field picker.
#[derive(Debug, Clone)]
pub struct PickerState {
    pub kind: PickerKind,
    pub items: Vec<Field>,
    pub selected_index: usize,
}

pub ghost struct PickerModel {
    pub kind: PickerKind,
    pub items: Seq<Field>,
    pub selected_index: int,
}

impl View for PickerState {
    type V = PickerModel;

    open spec fn view(&self) -> PickerModel {
        PickerModel { kind: self.kind, items: self.items@, selected_index: self.selected_index as int }
    }
}

/// The fields offered by the picker.
pub open spec fn picker_fields() -> Seq<Field> {
    seq![Field::Priority, Field::Due, Field::Scheduled, Field::Starting, Field::CreationDate]
}

pub open spec fn new_picker(kind: PickerKind) -> PickerModel {
    PickerModel { kind, items: picker_fields(), selected_index: 0 }
}

impl PickerState {
    /// A picker on its first field.
    pub fn new(kind: PickerKind) -> (r: PickerState)
        ensures
            r@ == new_picker(kind),
    {
        let mut items: Vec<Field> = Vec::new();
        items.push(Field::Priority);
        items.push(Field::Due);
        items.push(Field::Scheduled);
        items.push(Field::Starting);
        items.push(Field::CreationDate);
        let r = PickerState { kind, items, selected_index: 0 };
        assert(r@.items =~= picker_fields());
        r
    }

    /// Selects the next field, if any.
    pub fn move_down(&mut self)
        requires
            old(self).items.len() > 0,
        ensures
            final(self)@ == (PickerModel {
                selected_index: if old(self)@.selected_index < old(self)@.items.len() - 1 {
                    old(self)@.selected_index + 1
                } else {
                    old(self)@.selected_index
                },
                ..old(self)@
            }),
            old(self)@.selected_index < old(self)@.items.len() ==> final(self)@.selected_index < final(self)@.items.len(),
    {
        if self.selected_index < self.items.len() - 1 {
            self.selected_index = self.selected_index + 1;
        }
    }

    /// Selects the previous field, if any.
    pub fn move_up(&mut self)
        ensures
            final(self)@ == (PickerModel {
                selected_index: if old(self)@.selected_index > 0 {
                    old(self)@.selected_index - 1
                } else {
                    0
                },
                ..old(self)@
            }),
    {
        if self.selected_index > 0 {
            self.selected_index = self.selected_index - 1;
        }
    }

    /// The selected field.
    pub fn selected_field(&self) -> (r: &Field)
        requires
            self.selected_index < self.items.len(),
        ensures
            *r == self.items@[self.selected_index as int],
    {
        &self.items[self.selected_index]
    }
}

#[derive(Debug, Clone, Copy, PartialEq, Eq, Structural)]
pub enum AppMode {
    Welcome,
    Main,
}

#[derive(Debug, Clone, Copy, PartialEq, Eq, Structural)]
pub enum FocusArea {
    Sidebar,
    TaskList,
}

/// What a key asks the session to do.
#[derive(Debug, Clone, PartialEq, Eq)]
pub enum AppAction {
    Quit,
    MoveDown,
    MoveUp,
    MoveTop,
    MoveBottom,
    FocusNext,
    FocusPrev,
    OpenSelected,
    AddTask,
    EditTask,
    ToggleDone,
    Refresh,
    ConfirmDelete,
    EnterSearch,
    AppendToSearch(String),
    BackspaceSearch,
    NextSearchResult,
    PreviousSearchResult,
    Cancel,
    AppendToInput(String),
    BackspaceInput,
    SubmitWelcomePath(String),
    AppendToEditor(String),
    BackspaceEditor,
    OpenEditorShortcut(EditorShortcut),
    AppendToEditorShortcut(String),
    BackspaceEditorShortcut,
    ApplyEditorShortcut(EditorShortcut),
    RejectEditorShortcut(EditorShortcut),
    SubmitEditor,
    ResolveConflict(ConflictChoice),
    OpenSortPicker,
    OpenGroupPicker,
    DeactivateSort,
    DeactivateGroup,
    ReverseSort,
    PickerSelect,
    ToggleGroup,
    OpenListViewer,
    CloseListViewer,
    ScrollListViewer(isize),
    EditListExternally,
}

pub ghost enum ActionModel {
    Quit,
    MoveDown,
    MoveUp,
    MoveTop,
    MoveBottom,
    FocusNext,
    FocusPrev,
    OpenSelected,
    AddTask,
    EditTask,
    ToggleDone,
    Refresh,
    ConfirmDelete,
    EnterSearch,
    AppendToSearch(Seq<char>),
    BackspaceSearch,
    NextSearchResult,
    PreviousSearchResult,
    Cancel,
    AppendToInput(Seq<char>),
    BackspaceInput,
    SubmitWelcomePath(Seq<char>),
    AppendToEditor(Seq<char>),
    BackspaceEditor,
    OpenEditorShortcut(EditorShortcut),
    AppendToEditorShortcut(Seq<char>),
    BackspaceEditorShortcut,
    ApplyEditorShortcut(EditorShortcut),
    RejectEditorShortcut(EditorShortcut),
    SubmitEditor,
    ResolveConflict(ConflictChoice),
    OpenSortPicker,
    OpenGroupPicker,
    DeactivateSort,
    DeactivateGroup,
    ReverseSort,
    PickerSelect,
    ToggleGroup,
    OpenListViewer,
    CloseListViewer,
    ScrollListViewer(int),
    EditListExternally,
}

impl View for AppAction {
    type V = ActionModel;

    open spec fn view(&self) -> ActionModel {
        match self {
            AppAction::Quit => ActionModel::Quit,
            AppAction::MoveDown => ActionModel::MoveDown,
            AppAction::MoveUp => ActionModel::MoveUp,
            AppAction::MoveTop => ActionModel::MoveTop,
            AppAction::MoveBottom => ActionModel::MoveBottom,
            AppAction::FocusNext => ActionModel::FocusNext,
            AppAction::FocusPrev => ActionModel::FocusPrev,
            AppAction::OpenSelected => ActionModel::OpenSelected,
            AppAction::AddTask => ActionModel::AddTask,
            AppAction::EditTask => ActionModel::EditTask,
            AppAction::ToggleDone => ActionModel::ToggleDone,
            AppAction::Refresh => ActionModel::Refresh,
            AppAction::ConfirmDelete => ActionModel::ConfirmDelete,
            AppAction::EnterSearch => ActionModel::EnterSearch,
            AppAction::AppendToSearch(s) => ActionModel::AppendToSearch(s@),
            AppAction::BackspaceSearch => ActionModel::BackspaceSearch,
            AppAction::NextSearchResult => ActionModel::NextSearchResult,
            AppAction::PreviousSearchResult => ActionModel::PreviousSearchResult,
            AppAction::Cancel => ActionModel::Cancel,
            AppAction::AppendToInput(s) => ActionModel::AppendToInput(s@),
            AppAction::BackspaceInput => ActionModel::BackspaceInput,
            AppAction::SubmitWelcomePath(s) => ActionModel::SubmitWelcomePath(s@),
            AppAction::AppendToEditor(s) => ActionModel::AppendToEditor(s@),
            AppAction::BackspaceEditor => ActionModel::BackspaceEditor,
            AppAction::OpenEditorShortcut(x) => ActionModel::OpenEditorShortcut(*x),
            AppAction::AppendToEditorShortcut(s) => ActionModel::AppendToEditorShortcut(s@),
            AppAction::BackspaceEditorShortcut => ActionModel::BackspaceEditorShortcut,
            AppAction::ApplyEditorShortcut(x) => ActionModel::ApplyEditorShortcut(*x),
            AppAction::RejectEditorShortcut(x) => ActionModel::RejectEditorShortcut(*x),
            AppAction::SubmitEditor => ActionModel::SubmitEditor,
            AppAction::ResolveConflict(c) => ActionModel::ResolveConflict(*c),
            AppAction::OpenSortPicker => ActionModel::OpenSortPicker,
            AppAction::OpenGroupPicker => ActionModel::OpenGroupPicker,
            AppAction::DeactivateSort => ActionModel::DeactivateSort,
            AppAction::DeactivateGroup => ActionModel::DeactivateGroup,
            AppAction::ReverseSort => ActionModel::ReverseSort,
            AppAction::PickerSelect => ActionModel::PickerSelect,
            AppAction::ToggleGroup => ActionModel::ToggleGroup,
            AppAction::OpenListViewer => ActionModel::OpenListViewer,
            AppAction::CloseListViewer => ActionModel::CloseListViewer,
            AppAction::ScrollListViewer(d) => ActionModel::ScrollListViewer(*d as int),
            AppAction::EditListExternally => ActionModel::EditListExternally,
        }
    }
}

pub open spec fn action_view(a: Option<AppAction>) -> Option<ActionModel> {
    match a {
        Some(x) => Some(x@),
        None => None,
    }
}

/// The viewer of a smart list's source.
#[derive(Debug, Clone, PartialEq, Eq)]
pub struct ListViewerState {
    pub list_name: String,
    pub source_path: String,
    pub content: String,
    pub scroll_offset: usize,
}

pub ghost struct ViewerModel {
    pub list_name: Seq<char>,
    pub source_path: Seq<char>,
    pub content: Seq<char>,
    pub scroll_offset: int,
}

impl View for ListViewerState {
    type V = ViewerModel;

    open spec fn view(&self) -> ViewerModel {
        ViewerModel {
            list_name: self.list_name@,
            source_path: self.source_path@,
            content: self.content@,
            scroll_offset: self.scroll_offset as int,
        }
    }
}

impl ListViewerState {
    /// The number of lines of the content.
    pub fn line_count(&self) -> (r: usize)
        ensures
            r == lines_of(self.content@).len(),
    {
        split_lines(&chars_of(self.content.as_str())).len()
    }

    /// Scrolls down one line, unless the last lines already fill the
    /// viewport.
    pub fn scroll_down(&mut self, viewport_height: usize)
        ensures
            ({
                let h = if viewport_height > 0 { viewport_height as int } else { 1 };
                let n = lines_of(old(self)@.content).len() as int;
                let max_top = if n > h { n - h } else { 0 };
                final(self)@ == (ViewerModel {
                    scroll_offset: if old(self)@.scroll_offset < max_top {
                        old(self)@.scroll_offset + 1
                    } else {
                        old(self)@.scroll_offset
                    },
                    ..old(self)@
                })
            }),
            ({
                let h = if viewport_height > 0 { viewport_height as int } else { 1 };
                let n = lines_of(old(self)@.content).len() as int;
                let max_top = if n > h { n - h } else { 0 };
                old(self)@.scroll_offset <= max_top ==> final(self)@.scroll_offset <= max_top
            }),
    {
        let h = if viewport_height > 0 { viewport_height } else { 1 };
        let n = self.line_count();
        let max_top = if n > h { n - h } else { 0 };
        if self.scroll_offset < max_top {
            self.scroll_offset = self.scroll_offset + 1;
        }
    }

    /// Scrolls up one line, if possible.
    pub fn scroll_up(&mut self)
        ensures
            final(self)@ == (ViewerModel {
                scroll_offset: if old(self)@.scroll_offset > 0 {
                    old(self)@.scroll_offset - 1
                } else {
                    0
                },
                ..old(self)@
            }),
    {
        if self.scroll_offset > 0 {
            self.scroll_offset = self.scroll_offset - 1;
        }
    }
}

/// The state of the application's screens.
pub struct AppState {
    pub mode: AppMode,
    pub focus: FocusArea,
    pub search_active: bool,
    pub search_query: String,
    pub confirm_delete: bool,
    pub welcome_input: String,
    pub selected_task: Option<SelectedTask>,
    pub editor: Option<EditorState>,
    pub save_conflict: Option<SaveConflictState>,
    pub should_quit: bool,
    pub picker: Option<PickerState>,
    pub list_viewer: Option<ListViewerState>,
}

pub ghost struct AppModel {
    pub mode: AppMode,
    pub focus: FocusArea,
    pub search_active: bool,
    pub search_query: Seq<char>,
    pub confirm_delete: bool,
    pub welcome_input: Seq<char>,
    pub selected_task: Option<SelectedModel>,
    pub editor: Option<EditorModel>,
    pub save_conflict: Option<Seq<char>>,
    pub should_quit: bool,
    pub picker: Option<PickerModel>,
    pub list_viewer: Option<ViewerModel>,
}

impl View for AppState {
    type V = AppModel;

    open spec fn view(&self) -> AppModel {
        AppModel {
            mode: self.mode,
            focus: self.focus,
            search_active: self.search_active,
            search_query: self.search_query@,
            confirm_delete: self.confirm_delete,
            welcome_input: self.welcome_input@,
            selected_task: match self.selected_task {
                Some(t) => Some(t@),
                None => None,
            },
            editor: match self.editor {
                Some(e) => Some(e@),
                None => None,
            },
            save_conflict: match self.save_conflict {
                Some(c) => Some(c.external_raw@),
                None => None,
            },
            should_quit: self.should_quit,
            picker: match self.picker {
                Some(p) => Some(p@),
                None => None,
            },
            list_viewer: match self.list_viewer {
                Some(v) => Some(v@),
                None => None,
            },
        }
    }
}

/// A new state: focus on the sidebar, nothing open.
pub open spec fn initial_app(mode: AppMode) -> AppModel {
    AppModel {
        mode,
        focus: FocusArea::Sidebar,
        search_active: false,
        search_query: seq![],
        confirm_delete: false,
        welcome_input: seq![],
        selected_task: None,
        editor: None,
        save_conflict: None,
        should_quit: false,
        picker: None,
        list_viewer: None,
    }
}

/// The state after a key, and the action the key asks for.
pub ghost struct Step {
    pub app: AppModel,
    pub action: Option<ActionModel>,
}

pub open spec fn step(app: AppModel, action: Option<ActionModel>) -> Step {
    Step { app, action }
}

/// A key that types its text: a single character.
pub open spec fn is_text(k: Seq<char>) -> bool {
    k.len() == 1
}

pub open spec fn toggled(f: FocusArea) -> FocusArea {
    match f {
        FocusArea::Sidebar => FocusArea::TaskList,
        FocusArea::TaskList => FocusArea::Sidebar,
    }
}

pub open spec fn with_editor(m: AppModel, e: Option<EditorModel>) -> AppModel {
    AppModel { editor: e, ..m }
}

/// The width of the editor's text, in characters, for moving up and down.
pub open spec fn editor_inner_width() -> int {
    66
}

/// A key on the welcome screen: it edits the task directory's path.
pub open spec fn welcome_step(m: AppModel, k: Seq<char>) -> Step {
    if k == "enter"@ {
        step(m, Some(ActionModel::SubmitWelcomePath(m.welcome_input)))
    } else if k == "backspace"@ {
        if m.welcome_input.len() > 0 {
            step(AppModel { welcome_input: m.welcome_input.drop_last(), ..m }, Some(ActionModel::BackspaceInput))
        } else {
            step(m, None)
        }
    } else if is_text(k) {
        step(AppModel { welcome_input: m.welcome_input + k, ..m }, Some(ActionModel::AppendToInput(k)))
    } else {
        step(m, None)
    }
}

/// The date helper opened on its tag's value.
pub open spec fn helper_opened(e: EditorModel, s: EditorShortcut) -> EditorModel {
    let cur = match s {
        EditorShortcut::Due => e.due,
        EditorShortcut::Scheduled => e.scheduled,
        EditorShortcut::Starting => e.starting,
    };
    let input = match cur {
        Some(v) => v,
        None => seq![],
    };
    with_helper(e, Some(helper_state(s, input, input.len() as int, None)))
}

/// The cursor after moving up one wrapped row.
pub open spec fn cursor_up(c: int, w: int) -> int {
    if c >= w {
        c - w
    } else {
        0
    }
}

/// The cursor after moving down one wrapped row of a line of `n`
/// characters.
pub open spec fn cursor_down(c: int, w: int, n: int) -> int {
    if c + w <= n {
        c + w
    } else if c < n {
        n
    } else {
        c
    }
}

/// A key in the editor while a date helper is open.
pub open spec fn helper_step(m: AppModel, e: EditorModel, k: Seq<char>) -> Step {
    let s = e.shortcut->0;
    if k == "esc"@ {
        step(with_editor(m, Some(with_helper(e, None))), Some(ActionModel::Cancel))
    } else if k == "enter"@ {
        let (e2, o) = shortcut_applied(e);
        step(with_editor(m, Some(e2)), match o {
            Some(ShortcutApplyOutcome::Applied(x)) => Some(ActionModel::ApplyEditorShortcut(x)),
            Some(ShortcutApplyOutcome::Rejected(x)) => Some(ActionModel::RejectEditorShortcut(x)),
            None => None,
        })
    } else if k == "backspace"@ {
        if s.cursor_pos > 0 {
            step(
                with_editor(m, Some(with_helper(e, Some(helper_state(s.shortcut, remove_before(s.input, s.cursor_pos), s.cursor_pos - 1, None))))),
                Some(ActionModel::BackspaceEditorShortcut),
            )
        } else {
            step(m, None)
        }
    } else if k == "left"@ {
        if s.cursor_pos > 0 {
            step(with_editor(m, Some(with_helper(e, Some(helper_state(s.shortcut, s.input, s.cursor_pos - 1, s.error))))), None)
        } else {
            step(m, None)
        }
    } else if k == "right"@ {
        if s.cursor_pos < s.input.len() {
            step(with_editor(m, Some(with_helper(e, Some(helper_state(s.shortcut, s.input, s.cursor_pos + 1, s.error))))), None)
        } else {
            step(m, None)
        }
    } else if is_text(k) {
        step(
            with_editor(m, Some(with_helper(e, Some(helper_state(s.shortcut, insert_at(s.input, s.cursor_pos, k), s.cursor_pos + k.len(), None))))),
            Some(ActionModel::AppendToEditorShortcut(k)),
        )
    } else {
        step(m, None)
    }
}

/// A key in the editor's line.
pub open spec fn line_step(m: AppModel, e: EditorModel, k: Seq<char>) -> Step {
    let c = e.cursor_pos;
    let n = e.raw_line.len() as int;
    if k == "esc"@ {
        step(with_editor(m, None), Some(ActionModel::Cancel))
    } else if k == "enter"@ {
        if trim(e.raw_line).len() == 0 {
            step(with_editor(m, None), Some(ActionModel::Cancel))
        } else {
            step(m, Some(ActionModel::SubmitEditor))
        }
    } else if k == "backspace"@ {
        if c > 0 {
            step(with_editor(m, Some(with_raw(at_cursor(e, c - 1), remove_before(e.raw_line, c)))), Some(ActionModel::BackspaceEditor))
        } else {
            step(m, None)
        }
    } else if k == "left"@ {
        step(with_editor(m, Some(at_cursor(e, if c > 0 { c - 1 } else { c }))), None)
    } else if k == "right"@ {
        step(with_editor(m, Some(at_cursor(e, if c < n { c + 1 } else { c }))), None)
    } else if k == "up"@ {
        step(with_editor(m, Some(at_cursor(e, cursor_up(c, editor_inner_width())))), None)
    } else if k == "down"@ {
        step(with_editor(m, Some(at_cursor(e, cursor_down(c, editor_inner_width(), n)))), None)
    } else if k == "home"@ {
        step(with_editor(m, Some(at_cursor(e, 0))), None)
    } else if k == "end"@ {
        step(with_editor(m, Some(at_cursor(e, n))), None)
    } else if k == "ctrl+d"@ {
        step(with_editor(m, Some(helper_opened(e, EditorShortcut::Due))), Some(ActionModel::OpenEditorShortcut(EditorShortcut::Due)))
    } else if k == "ctrl+s"@ {
        step(with_editor(m, Some(helper_opened(e, EditorShortcut::Scheduled))), Some(ActionModel::OpenEditorShortcut(EditorShortcut::Scheduled)))
    } else if k == "ctrl+t"@ {
        step(with_editor(m, Some(helper_opened(e, EditorShortcut::Starting))), Some(ActionModel::OpenEditorShortcut(EditorShortcut::Starting)))
    } else if is_text(k) {
        step(with_editor(m, Some(with_raw(at_cursor(e, c + k.len()), insert_at(e.raw_line, c, k)))), Some(ActionModel::AppendToEditor(k)))
    } else {
        step(m, None)
    }
}

/// A key while a save conflict waits for a choice.
pub open spec fn conflict_step(m: AppModel, k: Seq<char>) -> Step {
    if k == "r"@ {
        step(m, Some(ActionModel::ResolveConflict(ConflictChoice::ReloadExternal)))
    } else if k == "o"@ {
        step(m, Some(ActionModel::ResolveConflict(ConflictChoice::OverwriteExternal)))
    } else if k == "c"@ || k == "esc"@ {
        step(m, Some(ActionModel::ResolveConflict(ConflictChoice::Cancel)))
    } else {
        step(m, None)
    }
}

/// A key while the list viewer is open.
pub open spec fn viewer_step(m: AppModel, k: Seq<char>) -> Step {
    if k == "j"@ || k == "down"@ {
        step(m, Some(ActionModel::ScrollListViewer(1)))
    } else if k == "k"@ || k == "up"@ {
        step(m, Some(ActionModel::ScrollListViewer(-1)))
    } else if k == "esc"@ || k == "q"@ {
        step(AppModel { list_viewer: None, ..m }, Some(ActionModel::CloseListViewer))
    } else if k == "e"@ {
        step(m, Some(ActionModel::EditListExternally))
    } else {
        step(m, None)
    }
}

/// A key while the field picker is open.
pub open spec fn picker_step(m: AppModel, k: Seq<char>) -> Step {
    let p = m.picker->0;
    if k == "j"@ || k == "down"@ {
        step(AppModel {
            picker: Some(PickerModel {
                selected_index: if p.selected_index < p.items.len() - 1 {
                    p.selected_index + 1
                } else {
                    p.selected_index
                },
                ..p
            }),
            ..m
        }, None)
    } else if k == "k"@ || k == "up"@ {
        step(AppModel {
            picker: Some(PickerModel {
                selected_index: if p.selected_index > 0 {
                    p.selected_index - 1
                } else {
                    0
                },
                ..p
            }),
            ..m
        }, None)
    } else if k == "enter"@ {
        step(m, Some(ActionModel::PickerSelect))
    } else if k == "esc"@ {
        step(AppModel { picker: None, ..m }, Some(ActionModel::Cancel))
    } else {
        step(m, None)
    }
}

/// A key while a delete waits for confirmation.
pub open spec fn confirm_step(m: AppModel, k: Seq<char>) -> Step {
    if k == "enter"@ {
        step(m, Some(ActionModel::OpenSelected))
    } else if k == "esc"@ {
        step(AppModel { confirm_delete: false, ..m }, Some(ActionModel::Cancel))
    } else {
        step(m, None)
    }
}

/// A key while the search line is open.
pub open spec fn search_step(m: AppModel, k: Seq<char>) -> Step {
    if k == "esc"@ {
        step(AppModel { search_active: false, ..m }, Some(ActionModel::Cancel))
    } else if k == "backspace"@ {
        step(AppModel {
            search_query: if m.search_query.len() > 0 {
                m.search_query.drop_last()
            } else {
                m.search_query
            },
            ..m
        }, Some(ActionModel::BackspaceSearch))
    } else if is_text(k) {
        step(AppModel { search_query: m.search_query + k, ..m }, Some(ActionModel::AppendToSearch(k)))
    } else {
        step(m, None)
    }
}

/// A key on the main screen with nothing open.
pub open spec fn browse_step(m: AppModel, k: Seq<char>) -> Step {
    if k == "s"@ {
        step(AppModel { picker: Some(new_picker(PickerKind::Sort)), ..m }, Some(ActionModel::OpenSortPicker))
    } else if k == "S"@ {
        step(m, Some(ActionModel::DeactivateSort))
    } else if k == "o"@ {
        step(AppModel { picker: Some(new_picker(PickerKind::Group)), ..m }, Some(ActionModel::OpenGroupPicker))
    } else if k == "O"@ {
        step(m, Some(ActionModel::DeactivateGroup))
    } else if k == "r"@ {
        step(m, Some(ActionModel::ReverseSort))
    } else if k == "q"@ {
        step(AppModel { should_quit: true, ..m }, Some(ActionModel::Quit))
    } else if k == "tab"@ {
        step(AppModel { focus: toggled(m.focus), ..m }, Some(ActionModel::FocusNext))
    } else if k == "h"@ || k == "left"@ {
        step(AppModel { focus: toggled(m.focus), ..m }, Some(ActionModel::FocusPrev))
    } else if k == "l"@ || k == "right"@ {
        step(AppModel { focus: toggled(m.focus), ..m }, Some(ActionModel::FocusNext))
    } else if k == "/"@ {
        step(AppModel { search_active: true, search_query: seq![], ..m }, Some(ActionModel::EnterSearch))
    } else if k == "j"@ || k == "down"@ {
        step(m, Some(ActionModel::MoveDown))
    } else if k == "k"@ || k == "up"@ {
        step(m, Some(ActionModel::MoveUp))
    } else if k == "gg"@ {
        step(m, Some(ActionModel::MoveTop))
    } else if k == "G"@ {
        step(m, Some(ActionModel::MoveBottom))
    } else if k == "enter"@ {
        step(m, Some(ActionModel::OpenSelected))
    } else if k == "a"@ {
        step(with_editor(m, Some(with_raw(fresh_editor(super::editor::EditorMode::QuickEntry, seq![], None, None), seq![]))), Some(ActionModel::AddTask))
    } else if k == "e"@ {
        match m.focus {
            FocusArea::TaskList => match m.selected_task {
                Some(t) => step(
                    with_editor(m, Some(with_raw(fresh_editor(super::editor::EditorMode::Edit, t.normalized_raw, Some(t.original_raw), Some(t.id)), t.normalized_raw))),
                    Some(ActionModel::EditTask),
                ),
                None => step(m, None),
            },
            FocusArea::Sidebar => step(m, Some(ActionModel::OpenListViewer)),
        }
    } else if k == "x"@ {
        step(m, Some(ActionModel::ToggleDone))
    } else if k == "D"@ {
        step(AppModel { confirm_delete: true, ..m }, Some(ActionModel::ConfirmDelete))
    } else if k == "R"@ {
        step(m, Some(ActionModel::Refresh))
    } else if k == " "@ {
        step(m, Some(ActionModel::ToggleGroup))
    } else if k == "n"@ {
        step(m, Some(ActionModel::NextSearchResult))
    } else if k == "N"@ {
        step(m, Some(ActionModel::PreviousSearchResult))
    } else {
        step(m, None)
    }
}

/// A key on the main screen: the open prompt, editor, viewer or picker
/// takes it first.
pub open spec fn main_step(m: AppModel, k: Seq<char>) -> Step {
    if m.save_conflict is Some {
        conflict_step(m, k)
    } else if m.editor is Some {
        if m.editor->0.shortcut is Some {
            helper_step(m, m.editor->0, k)
        } else {
            line_step(m, m.editor->0, k)
        }
    } else if m.list_viewer is Some {
        viewer_step(m, k)
    } else if m.picker is Some {
        picker_step(m, k)
    } else if m.confirm_delete {
        confirm_step(m, k)
    } else if m.search_active {
        search_step(m, k)
    } else {
        browse_step(m, k)
    }
}

/// What a key does.
#[verifier::opaque]
pub open spec fn key_step(m: AppModel, key: Seq<char>) -> Step {
    let k = normalized_key(key);
    match m.mode {
        AppMode::Welcome => welcome_step(m, k),
        AppMode::Main => main_step(m, k),
    }
}

/// The limits within which keys can be handled: cursors below the largest
/// index, and a picker with fields.
pub open spec fn keys_ok(m: AppModel) -> bool {
    &&& m.editor matches Some(e) ==> e.cursor_pos < usize::MAX && (e.shortcut matches Some(s) ==> s.cursor_pos < usize::MAX)
    &&& m.picker matches Some(p) ==> p.items.len() > 0
}

fn is_text_input(key: &str) -> (r: bool)
    ensures
        r == is_text(key@),
{
    key.unicode_len() == 1
}

fn without_last(s: &String) -> (r: String)
    ensures
        r@ == (if s@.len() > 0 {
            s@.drop_last()
        } else {
            s@
        }),
{
    let v = chars_of(s.as_str());
    if v.len() > 0 {
        string_of(&crate::text::slice_of(&v, 0, v.len() - 1))
    } else {
        s.clone()
    }
}

impl AppState {
    /// A new state in `mode`.
    pub fn new(mode: AppMode) -> (r: AppState)
        ensures
            r@ == initial_app(mode),
    {
        AppState {
            mode,
            focus: FocusArea::Sidebar,
            search_active: false,
            search_query: String::new(),
            confirm_delete: false,
            welcome_input: String::new(),
            selected_task: None,
            editor: None,
            save_conflict: None,
            should_quit: false,
            picker: None,
            list_viewer: None,
        }
    }

    /// Handles a key: updates the state and returns the action the key asks
    /// for (see `key_step`).
    pub fn handle_key(&mut self, key: &str) -> (r: Option<AppAction>)
        requires
            keys_ok(old(self)@),
        ensures
            final(self)@ == key_step(old(self)@, key@).app,
            action_view(r) == key_step(old(self)@, key@).action,
    {
        proof {
            reveal(key_step);
        }
        let key = normalize_key(key);
        match self.mode {
            AppMode::Welcome => self.handle_welcome_key(key),
            AppMode::Main => self.handle_main_key(key),
        }
    }

    fn handle_welcome_key(&mut self, key: &str) -> (r: Option<AppAction>)
        ensures
            final(self)@ == welcome_step(old(self)@, key@).app,
            action_view(r) == welcome_step(old(self)@, key@).action,
    {
        if str_eq_lit(key, "enter") {
            Some(AppAction::SubmitWelcomePath(self.welcome_input.clone()))
        } else if str_eq_lit(key, "backspace") {
            if self.welcome_input.as_str().unicode_len() > 0 {
                self.welcome_input = without_last(&self.welcome_input);
                Some(AppAction::BackspaceInput)
            } else {
                None
            }
        } else if is_text_input(key) {
            push_str(&mut self.welcome_input, key);
            Some(AppAction::AppendToInput(owned(key)))
        } else {
            None
        }
    }

    fn handle_main_key(&mut self, key: &str) -> (r: Option<AppAction>)
        requires
            keys_ok(old(self)@),
        ensures
            final(self)@ == main_step(old(self)@, key@).app,
            action_view(r) == main_step(old(self)@, key@).action,
    {
        if self.save_conflict.is_some() {
            return self.handle_conflict_key(key);
        }
        if self.editor.is_some() {
            return self.handle_editor_key(key);
        }
        if self.list_viewer.is_some() {
            return self.handle_list_viewer_key(key);
        }
        if self.picker.is_some() {
            return self.handle_picker_key(key);
        }
        if self.confirm_delete {
            if str_eq_lit(key, "enter") {
                return Some(AppAction::OpenSelected);
            } else if str_eq_lit(key, "esc") {
                self.confirm_delete = false;
                return Some(AppAction::Cancel);
            } else {
                return None;
            }
        }
        if self.search_active {
            if str_eq_lit(key, "esc") {
                self.search_active = false;
                return Some(AppAction::Cancel);
            } else if str_eq_lit(key, "backspace") {
                self.search_query = without_last(&self.search_query);
                return Some(AppAction::BackspaceSearch);
            } else if is_text_input(key) {
                push_str(&mut self.search_query, key);
                return Some(AppAction::AppendToSearch(owned(key)));
            } else {
                return None;
            }
        }
        self.handle_browse_key(key)
    }

    fn handle_browse_key(&mut self, key: &str) -> (r: Option<AppAction>)
        ensures
            final(self)@ == browse_step(old(self)@, key@).app,
            action_view(r) == browse_step(old(self)@, key@).action,
    {
        if str_eq_lit(key, "s") {
            self.picker = Some(PickerState::new(PickerKind::Sort));
            Some(AppAction::OpenSortPicker)
        } else if str_eq_lit(key, "S") {
            Some(AppAction::DeactivateSort)
        } else if str_eq_lit(key, "o") {
            self.picker = Some(PickerState::new(PickerKind::Group));
            Some(AppAction::OpenGroupPicker)
        } else if str_eq_lit(key, "O") {
            Some(AppAction::DeactivateGroup)
        } else if str_eq_lit(key, "r") {
            Some(AppAction::ReverseSort)
        } else if str_eq_lit(key, "q") {
            self.should_quit = true;
            Some(AppAction::Quit)
        } else if str_eq_lit(key, "tab") {
            self.focus = toggle_focus(self.focus);
            Some(AppAction::FocusNext)
        } else if str_eq_lit(key, "h") || str_eq_lit(key, "left") {
            self.focus = toggle_focus(self.focus);
            Some(AppAction::FocusPrev)
        } else if str_eq_lit(key, "l") || str_eq_lit(key, "right") {
            self.focus = toggle_focus(self.focus);
            Some(AppAction::FocusNext)
        } else if str_eq_lit(key, "/") {
            self.search_active = true;
            self.search_query = String::new();
            Some(AppAction::EnterSearch)
        } else if str_eq_lit(key, "j") || str_eq_lit(key, "down") {
            Some(AppAction::MoveDown)
        } else if str_eq_lit(key, "k") || str_eq_lit(key, "up") {
            Some(AppAction::MoveUp)
        } else if str_eq_lit(key, "gg") {
            Some(AppAction::MoveTop)
        } else if str_eq_lit(key, "G") {
            Some(AppAction::MoveBottom)
        } else if str_eq_lit(key, "enter") {
            Some(AppAction::OpenSelected)
        } else if str_eq_lit(key, "a") {
            self.editor = Some(EditorState::quick_entry());
            Some(AppAction::AddTask)
        } else if str_eq_lit(key, "e") {
            match self.focus {
                FocusArea::TaskList => {
                    match &self.selected_task {
                        Some(t) => {
                            self.editor = Some(EditorState::edit(t));
                            Some(AppAction::EditTask)
                        },
                        None => None,
                    }
                },
                FocusArea::Sidebar => Some(AppAction::OpenListViewer),
            }
        } else if str_eq_lit(key, "x") {
            Some(AppAction::ToggleDone)
        } else if str_eq_lit(key, "D") {
            self.confirm_delete = true;
            Some(AppAction::ConfirmDelete)
        } else if str_eq_lit(key, "R") {
            Some(AppAction::Refresh)
        } else if str_eq_lit(key, " ") {
            Some(AppAction::ToggleGroup)
        } else if str_eq_lit(key, "n") {
            Some(AppAction::NextSearchResult)
        } else if str_eq_lit(key, "N") {
            Some(AppAction::PreviousSearchResult)
        } else {
            None
        }
    }

    fn handle_editor_key(&mut self, key: &str) -> (r: Option<AppAction>)
        requires
            old(self).editor is Some,
            keys_ok(old(self)@),
        ensures
            final(self)@ == (if old(self)@.editor->0.shortcut is Some {
                helper_step(old(self)@, old(self)@.editor->0, key@)
            } else {
                line_step(old(self)@, old(self)@.editor->0, key@)
            }).app,
            action_view(r) == (if old(self)@.editor->0.shortcut is Some {
                helper_step(old(self)@, old(self)@.editor->0, key@)
            } else {
                line_step(old(self)@, old(self)@.editor->0, key@)
            }).action,
    {
        let mut editor = match self.editor.take() {
            Some(e) => e,
            None => return None,
        };
        if editor.shortcut.is_some() {
            let r = if str_eq_lit(key, "esc") {
                editor.cancel_shortcut();
                Some(AppAction::Cancel)
            } else if str_eq_lit(key, "enter") {
                match editor.apply_shortcut() {
                    Some(ShortcutApplyOutcome::Applied(x)) => Some(AppAction::ApplyEditorShortcut(x)),
                    Some(ShortcutApplyOutcome::Rejected(x)) => Some(AppAction::RejectEditorShortcut(x)),
                    None => None,
                }
            } else if str_eq_lit(key, "backspace") {
                if editor.backspace_shortcut() {
                    Some(AppAction::BackspaceEditorShortcut)
                } else {
                    None
                }
            } else if str_eq_lit(key, "left") {
                editor.move_shortcut_cursor_left();
                None
            } else if str_eq_lit(key, "right") {
                editor.move_shortcut_cursor_right();
                None
            } else if is_text_input(key) {
                editor.append_shortcut_char(key);
                Some(AppAction::AppendToEditorShortcut(owned(key)))
            } else {
                None
            };
            self.editor = Some(editor);
            return r;
        }
        if str_eq_lit(key, "esc") {
            return Some(AppAction::Cancel);
        }
        let r = if str_eq_lit(key, "enter") {
            if trim_chars(&chars_of(editor.raw_line.as_str())).len() == 0 {
                return Some(AppAction::Cancel);
            }
            Some(AppAction::SubmitEditor)
        } else if str_eq_lit(key, "backspace") {
            if editor.backspace_raw() {
                Some(AppAction::BackspaceEditor)
            } else {
                None
            }
        } else if str_eq_lit(key, "left") {
            editor.move_cursor_left();
            None
        } else if str_eq_lit(key, "right") {
            editor.move_cursor_right();
            None
        } else if str_eq_lit(key, "up") {
            editor.move_cursor_up(66);
            None
        } else if str_eq_lit(key, "down") {
            editor.move_cursor_down(66);
            None
        } else if str_eq_lit(key, "home") {
            editor.move_cursor_home();
            None
        } else if str_eq_lit(key, "end") {
            editor.move_cursor_end();
            None
        } else if str_eq_lit(key, "ctrl+d") {
            editor.open_shortcut(EditorShortcut::Due);
            Some(AppAction::OpenEditorShortcut(EditorShortcut::Due))
        } else if str_eq_lit(key, "ctrl+s") {
            editor.open_shortcut(EditorShortcut::Scheduled);
            Some(AppAction::OpenEditorShortcut(EditorShortcut::Scheduled))
        } else if str_eq_lit(key, "ctrl+t") {
            editor.open_shortcut(EditorShortcut::Starting);
            Some(AppAction::OpenEditorShortcut(EditorShortcut::Starting))
        } else if is_text_input(key) {
            editor.append_raw_char(key);
            Some(AppAction::AppendToEditor(owned(key)))
        } else {
            None
        };
        self.editor = Some(editor);
        r
    }

    fn handle_picker_key(&mut self, key: &str) -> (r: Option<AppAction>)
        requires
            old(self).picker is Some,
            keys_ok(old(self)@),
        ensures
            final(self)@ == picker_step(old(self)@, key@).app,
            action_view(r) == picker_step(old(self)@, key@).action,
    {
        let mut picker = match self.picker.take() {
            Some(p) => p,
            None => return None,
        };
        if str_eq_lit(key, "j") || str_eq_lit(key, "down") {
            picker.move_down();
            self.picker = Some(picker);
            None
        } else if str_eq_lit(key, "k") || str_eq_lit(key, "up") {
            picker.move_up();
            self.picker = Some(picker);
            None
        } else if str_eq_lit(key, "enter") {
            self.picker = Some(picker);
            Some(AppAction::PickerSelect)
        } else if str_eq_lit(key, "esc") {
            Some(AppAction::Cancel)
        } else {
            self.picker = Some(picker);
            None
        }
    }

    fn handle_list_viewer_key(&mut self, key: &str) -> (r: Option<AppAction>)
        ensures
            final(self)@ == viewer_step(old(self)@, key@).app,
            action_view(r) == viewer_step(old(self)@, key@).action,
    {
        if str_eq_lit(key, "j") || str_eq_lit(key, "down") {
            Some(AppAction::ScrollListViewer(1))
        } else if str_eq_lit(key, "k") || str_eq_lit(key, "up") {
            Some(AppAction::ScrollListViewer(-1))
        } else if str_eq_lit(key, "esc") || str_eq_lit(key, "q") {
            self.list_viewer = None;
            Some(AppAction::CloseListViewer)
        } else if str_eq_lit(key, "e") {
            Some(AppAction::EditListExternally)
        } else {
            None
        }
    }

    fn handle_conflict_key(&mut self, key: &str) -> (r: Option<AppAction>)
        ensures
            final(self)@ == conflict_step(old(self)@, key@).app,
            action_view(r) == conflict_step(old(self)@, key@).action,
    {
        if str_eq_lit(key, "r") {
            Some(AppAction::ResolveConflict(ConflictChoice::ReloadExternal))
        } else if str_eq_lit(key, "o") {
            Some(AppAction::ResolveConflict(ConflictChoice::OverwriteExternal))
        } else if str_eq_lit(key, "c") || str_eq_lit(key, "esc") {
            Some(AppAction::ResolveConflict(ConflictChoice::Cancel))
        } else {
            None
        }
    }
}

fn toggle_focus(focus: FocusArea) -> (r: FocusArea)
    ensures
        r == toggled(focus),
{
    match focus {
        FocusArea::Sidebar => FocusArea::TaskList,
        FocusArea::TaskList => FocusArea::Sidebar,
    }
}

pub ghost enum SaveResultModel {
    Saved,
    Conflict(Seq<char>),
}

pub open spec fn save_result_view(r: EditorSaveResult) -> SaveResultModel {
    match r {
        EditorSaveResult::Saved => SaveResultModel::Saved,
        EditorSaveResult::Conflict { external_raw } => SaveResultModel::Conflict(external_raw@),
    }
}

/// The request that saving the editor's line makes: an update of the task
/// it edits, or a new task.
pub open spec fn save_request_of(e: EditorModel) -> super::editor::SaveRequestModel {
    if e.task_id is Some && e.original_raw is Some {
        super::editor::SaveRequestModel::Update {
            id: e.task_id->0,
            original_raw: e.original_raw->0,
            raw: e.raw_line,
            overwrite_conflict: false,
        }
    } else {
        super::editor::SaveRequestModel::Create { raw: e.raw_line }
    }
}

/// The state after a save: a saved line closes the editor and any
/// conflict; a conflict is kept for the user to resolve.
pub open spec fn after_save(m: AppModel, r: SaveResultModel) -> AppModel {
    match r {
        SaveResultModel::Saved => AppModel { editor: None, save_conflict: None, ..m },
        SaveResultModel::Conflict(x) => AppModel { save_conflict: Some(x), ..m },
    }
}

/// The state after resolving a conflict without saving (`None` when the
/// choice is to overwrite, which saves).
pub open spec fn resolved_without_save(m: AppModel, choice: ConflictChoice) -> Option<AppModel> {
    let x = m.save_conflict->0;
    match choice {
        ConflictChoice::Cancel => Some(AppModel { save_conflict: None, ..m }),
        ConflictChoice::ReloadExternal => Some(AppModel {
            save_conflict: None,
            editor: match m.editor {
                Some(e) => Some(super::editor::EditorModel {
                    original_raw: Some(x),
                    ..with_raw(at_cursor(e, x.len() as int), x)
                }),
                None => None,
            },
            ..m
        }),
        ConflictChoice::OverwriteExternal => if m.editor is None || m.editor->0.task_id is None {
            Some(AppModel { save_conflict: None, ..m })
        } else {
            None
        },
    }
}

/// The request that overwriting the file's line makes.
pub open spec fn overwrite_request_of(e: EditorModel, external: Seq<char>) -> super::editor::SaveRequestModel {
    super::editor::SaveRequestModel::Update {
        id: e.task_id->0,
        original_raw: match e.original_raw {
            Some(o) => o,
            None => external,
        },
        raw: e.raw_line,
        overwrite_conflict: true,
    }
}

impl AppState {
    /// The request that saving the editor makes, if an editor is open.
    pub fn save_request(&self) -> (r: Option<EditorSaveRequest>)
        ensures
            match self@.editor {
                Some(e) => r matches Some(q) && q@ == save_request_of(e),
                None => r is None,
            },
    {
        match &self.editor {
            None => None,
            Some(editor) => match (&editor.task_id, &editor.original_raw) {
                (Some(id), Some(original_raw)) => Some(EditorSaveRequest::Update {
                    id: id.duplicate(),
                    original_raw: original_raw.clone(),
                    raw: editor.raw_line.clone(),
                    overwrite_conflict: false,
                }),
                _ => Some(EditorSaveRequest::Create { raw: editor.raw_line.clone() }),
            },
        }
    }

    /// Records what a save gave.
    pub fn apply_save_result(&mut self, result: EditorSaveResult)
        ensures
            final(self)@ == after_save(old(self)@, save_result_view(result)),
    {
        match result {
            EditorSaveResult::Saved => {
                self.editor = None;
                self.save_conflict = None;
            },
            EditorSaveResult::Conflict { external_raw } => {
                self.save_conflict = Some(SaveConflictState { external_raw });
            },
        }
    }

    /// Saves the editor's line through `target`: with no editor open,
    /// nothing happens; a failed save leaves the state as it was; otherwise
    /// the state is `after_save` of what the save gave.
    pub fn save_editor<T: EditorSaveTarget>(&mut self, target: &mut T) -> (r: Result<(), std::io::Error>)
        ensures
            old(self)@.editor is None ==> (r is Ok && final(self)@ == old(self)@),
            old(self)@.editor is Some && r is Err ==> final(self)@ == old(self)@,
            old(self)@.editor is Some && r is Ok ==> exists|x: SaveResultModel| final(self)@ == #[trigger] after_save(old(self)@, x),
    {
        let request = match self.save_request() {
            Some(q) => q,
            None => return Ok(()),
        };
        match target.save_editor(request) {
            Ok(result) => {
                let ghost x = save_result_view(result);
                self.apply_save_result(result);
                assert(self@ == after_save(old(self)@, x));
                Ok(())
            },
            Err(e) => Err(e),
        }
    }

    /// The request that overwriting the line on disk makes: the draft of an
    /// editor on a stored task, over the line it was opened with (or the
    /// line on disk), with the conflict overridden; `None` without a
    /// conflict or without an editor on a stored task.
    pub fn overwrite_request(&self) -> (r: Option<EditorSaveRequest>)
        ensures
            match (self@.save_conflict, self@.editor) {
                (Some(c), Some(e)) => if e.task_id is Some {
                    r matches Some(q) && q@ == overwrite_request_of(e, c)
                } else {
                    r is None
                },
                _ => r is None,
            },
    {
        let external = match &self.save_conflict {
            Some(c) => c.external_raw.clone(),
            None => return None,
        };
        match &self.editor {
            None => None,
            Some(e) => match &e.task_id {
                None => None,
                Some(id) => Some(EditorSaveRequest::Update {
                    id: id.duplicate(),
                    original_raw: match &e.original_raw {
                        Some(o) => o.clone(),
                        None => external,
                    },
                    raw: e.raw_line.clone(),
                    overwrite_conflict: true,
                }),
            },
        }
    }

    /// Resolves a save conflict: cancelling keeps the draft, reloading
    /// replaces the draft with the line on disk, and overwriting hands
    /// `overwrite_request`'s request to `target` (a failed save leaves the
    /// state as it was; without an editor on a stored task the conflict is
    /// dropped).
    pub fn resolve_save_conflict<T: EditorSaveTarget>(&mut self, choice: ConflictChoice, target: &mut T) -> (r: Result<(), std::io::Error>)
        ensures
            old(self)@.save_conflict is None ==> (r is Ok && final(self)@ == old(self)@),
            old(self)@.save_conflict is Some && resolved_without_save(old(self)@, choice) is Some ==> (r is Ok && final(self)@ == resolved_without_save(old(self)@, choice)->0),
            old(self)@.save_conflict is Some && resolved_without_save(old(self)@, choice) is None && r is Err ==> final(self)@ == old(self)@,
            old(self)@.save_conflict is Some && resolved_without_save(old(self)@, choice) is None && r is Ok ==> exists|x: SaveResultModel| final(self)@ == #[trigger] after_save(old(self)@, x),
    {
        let external = match &self.save_conflict {
            Some(c) => c.external_raw.clone(),
            None => return Ok(()),
        };
        match choice {
            ConflictChoice::Cancel => {
                self.save_conflict = None;
                Ok(())
            },
            ConflictChoice::ReloadExternal => {
                let editor = self.editor.take();
                match editor {
                    Some(mut e) => {
                        e.set_raw_line(external.as_str());
                        e.original_raw = Some(external);
                        self.editor = Some(e);
                    },
                    None => {},
                }
                self.save_conflict = None;
                Ok(())
            },
            ConflictChoice::OverwriteExternal => {
                let request = self.overwrite_request();
                let request = match request {
                    Some(q) => q,
                    None => {
                        self.save_conflict = None;
                        return Ok(());
                    },
                };
                match target.save_editor(request) {
                    Ok(result) => {
                        let ghost x = save_result_view(result);
                        self.apply_save_result(result);
                        assert(self@ == after_save(old(self)@, x));
                        Ok(())
                    },
                    Err(e) => Err(e),
                }
            },
        }
    }
}


/// In the main screen, `q` quits exactly when nothing is open: no conflict,
/// editor, list viewer, picker, delete confirmation or search; and quitting
/// marks the state to quit.
pub proof fn law_q_quits_only_when_browsing(m: AppModel)
    requires
        m.mode == AppMode::Main,
    ensures
        (key_step(m, "q"@).action == Some(ActionModel::Quit)) <==> (m.save_conflict is None && m.editor is None
            && m.list_viewer is None && m.picker is None && !m.confirm_delete && !m.search_active),
        key_step(m, "q"@).action == Some(ActionModel::Quit) ==> key_step(m, "q"@).app.should_quit,
{
    reveal(key_step);
    reveal_strlit("q");
    reveal_strlit("return");
    reveal_strlit("escape");
    reveal_strlit("bs");
    reveal_strlit("del");
    reveal_strlit(" ");
    reveal_strlit("/");
    reveal_strlit("D");
    reveal_strlit("G");
    reveal_strlit("N");
    reveal_strlit("O");
    reveal_strlit("R");
    reveal_strlit("S");
    reveal_strlit("a");
    reveal_strlit("backspace");
    reveal_strlit("c");
    reveal_strlit("ctrl+d");
    reveal_strlit("ctrl+s");
    reveal_strlit("ctrl+t");
    reveal_strlit("down");
    reveal_strlit("e");
    reveal_strlit("end");
    reveal_strlit("enter");
    reveal_strlit("esc");
    reveal_strlit("gg");
    reveal_strlit("h");
    reveal_strlit("home");
    reveal_strlit("j");
    reveal_strlit("k");
    reveal_strlit("l");
    reveal_strlit("left");
    reveal_strlit("n");
    reveal_strlit("o");
    reveal_strlit("r");
    reveal_strlit("right");
    reveal_strlit("s");
    reveal_strlit("tab");
    reveal_strlit("up");
    reveal_strlit("x");
    let q = "q"@;
    assert(crate::tui::events::normalized_key(q) == q) by {
        reveal_strlit("q");
        reveal_strlit("return");
        reveal_strlit("escape");
        reveal_strlit("bs");
        reveal_strlit("del");
    }
    assert(m.save_conflict is Some ==> conflict_step(m, q).action != Some(ActionModel::Quit));
    assert(m.editor is Some && m.editor->0.shortcut is Some ==> helper_step(m, m.editor->0, q).action != Some(ActionModel::Quit));
    assert(m.editor is Some ==> line_step(m, m.editor->0, q).action != Some(ActionModel::Quit));
    assert(m.list_viewer is Some ==> viewer_step(m, q).action != Some(ActionModel::Quit));
    assert(m.picker is Some ==> picker_step(m, q).action != Some(ActionModel::Quit));
    assert(confirm_step(m, q).action != Some(ActionModel::Quit));
    assert(search_step(m, q).action != Some(ActionModel::Quit));
    assert(q != "s"@ && q != "S"@ && q != "o"@ && q != "O"@ && q != "r"@) by {
        assert(q[0] != "s"@[0] && q[0] != "S"@[0] && q[0] != "o"@[0] && q[0] != "O"@[0] && q[0] != "r"@[0]);
    }
    assert(browse_step(m, q).action == Some(ActionModel::Quit));
}

} // verus!
