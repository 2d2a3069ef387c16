//! The parts of the session that meet the caller: the welcome screen's
//! submitted directory, the editing click, and the settings to save.
use vstd::prelude::*;

use super::state::{action_effect, has_headers, key_effect, picker_ok, RequestModel, SessionModel, SessionRequest, TuiSession};
use crate::smartlist::eval::GroupModel;
use crate::store::{stored_view, StoredModel};
use crate::tui::spans::{lines_colorable, task_line_pieces, task_rows, visual_line_count_for_task};
use crate::tui::layout::{counts_view, first_span, groups_shape, holds_row, pane_spans, task_at_row};
use crate::config::{default_config, AppConfig, ConfigModel};
use crate::text::{chars_of, owned, string_of, trim, trim_chars};
use crate::tui::app::{key_step, keys_ok, ActionModel, AppMode};
use crate::tui::events::{normalize_key, normalized_key};

verus! {

/// The rows that each of the tasks takes in a pane `width` columns wide.
pub open spec fn visible_rows(v: Seq<StoredModel>, width: u16) -> Seq<int> {
    Seq::new(v.len(), |k: int| task_rows(v[k].task, width))
}

/// What a key does when the welcome screen's directory can be submitted:
/// a submitted path, trimmed, is handed to the caller to open (nothing
/// happens for a blank one); any other key as `key_effect` says.
pub open spec fn key_effect_with_paths(o: SessionModel, key: Seq<char>, n: SessionModel, r: RequestModel) -> bool {
    match key_step(o.app, key).action {
        Some(ActionModel::SubmitWelcomePath(p)) => n == o && r == if trim(p).len() == 0 {
            RequestModel::Nothing
        } else {
            RequestModel::OpenTaskDir(trim(p))
        },
        _ => key_effect(o, key, n, r),
    }
}

/// What the editing click does: the application state takes the `e` key,
/// and the action it asks for goes to the session.
pub open spec fn edit_click_effect(o: SessionModel, n: SessionModel, r: RequestModel) -> bool {
    let st = key_step(o.app, "e"@);
    let m = SessionModel { app: st.app, ..o };
    match st.action {
        None => n == m && r == RequestModel::Nothing,
        Some(a) => action_effect(m, a, n, r),
    }
}

/// The settings saved when a task directory is chosen on the welcome
/// screen: the directory and the session's sidebar shares.
pub open spec fn welcome_settings(m: SessionModel, task_dir: Seq<char>) -> ConfigModel {
    ConfigModel {
        sidebar_width: m.width_pct as u8,
        sidebar_min_width: m.min_pct as u8,
        sidebar_max_width: m.max_pct as u8,
        ..default_config(task_dir)
    }
}

/// The settings saved after the sidebar was resized: the session's task
/// directory and editor, and the sidebar's share of the terminal's
/// columns when they are known.
pub open spec fn sidebar_settings(m: SessionModel, cols: Option<u16>) -> ConfigModel {
    ConfigModel {
        task_dir: match m.store {
            Some(root) => root,
            None => seq![],
        },
        editor: Some(m.editor_command),
        sidebar_width: match cols {
            Some(c) => if c > 0 {
                ((m.sidebar_width * 100 / (c as int)) as u8)
            } else {
                m.width_pct as u8
            },
            None => m.width_pct as u8,
        },
        sidebar_min_width: m.min_pct as u8,
        sidebar_max_width: m.max_pct as u8,
        ..default_config(seq![])
    }
}

proof fn lemma_welcome_enter(m: crate::tui::app::AppModel, key: Seq<char>)
    requires
        m.mode == AppMode::Welcome,
        normalized_key(key) == "enter"@,
    ensures
        key_step(m, key).action == Some(ActionModel::SubmitWelcomePath(m.welcome_input)),
        key_step(m, key).app == m,
{
    reveal(key_step);
}

proof fn lemma_not_submitted(m: crate::tui::app::AppModel, key: Seq<char>)
    requires
        !(m.mode == AppMode::Welcome && normalized_key(key) == "enter"@),
    ensures
        !(key_step(m, key).action matches Some(ActionModel::SubmitWelcomePath(_))),
{
    reveal(key_step);
}

/// The shape of the groups: whether each has a label, and its number of
/// tasks.
pub open spec fn group_shape_of(groups: Seq<GroupModel>) -> Seq<(bool, int)> {
    groups.map_values(|g: GroupModel| (g.label.len() > 0, g.tasks.len() as int))
}

/// The row of the task pane where the tasks begin: below the search line
/// and a blank row while a search is active or has a query.
pub open spec fn tasks_base(m: SessionModel) -> int {
    if m.app.search_active || m.app.search_query.len() > 0 {
        2
    } else {
        0
    }
}

/// The spans of the pane's tasks for tasks of `counts` rows each: in
/// groups when the groups show headers.
pub open spec fn session_spans(m: SessionModel, counts: Seq<int>) -> Seq<(int, int)> {
    pane_spans(tasks_base(m), has_headers(m.groups), group_shape_of(m.groups), counts)
}

impl TuiSession {
    /// Handles a key, handing a directory submitted on the welcome screen to
    /// the caller (see `key_effect_with_paths`).
    #[verifier::rlimit(100)]
    #[verifier::spinoff_prover]
    pub fn dispatch_key_with_paths(&mut self, key: &str) -> (r: SessionRequest)
        requires
            old(self).wf(),
            keys_ok(old(self)@.app),
            picker_ok(old(self)@.app),
        ensures
            final(self).wf(),
            key_effect_with_paths(old(self)@, key@, final(self)@, r@),
    {
        let ghost o = self@;
        let welcome = self.app().mode == AppMode::Welcome;
        let enter = crate::text::str_eq_lit(normalize_key(key), "enter");
        assert(enter == (normalized_key(key@) == "enter"@));
        let input = chars_of(self.app().welcome_input.as_str());
        let r = self.dispatch_key(key);
        if welcome && enter {
            proof {
                lemma_welcome_enter(o.app, key@);
            }
            let t = trim_chars(&input);
            if t.len() == 0 {
                SessionRequest::Nothing
            } else {
                SessionRequest::OpenTaskDir(string_of(&t))
            }
        } else {
            proof {
                lemma_not_submitted(o.app, key@);
            }
            r
        }
    }

    /// The click that edits the selected task: the `e` key's action.
    #[verifier::rlimit(100)]
    #[verifier::spinoff_prover]
    pub fn dispatch_mouse_task_edit(&mut self) -> (r: SessionRequest)
        requires
            old(self).wf(),
            keys_ok(old(self)@.app),
            picker_ok(old(self)@.app),
        ensures
            final(self).wf(),
            edit_click_effect(old(self)@, final(self)@, r@),
    {
        let ghost o = self@;
        proof {
            super::state::lemma_picker_select(o.app, "e"@);
        }
        let action = self.app_mut().handle_key("e");
        match action {
            Some(a) => self.apply_action(a),
            None => SessionRequest::Nothing,
        }
    }

    /// The settings to save for a task directory chosen on the welcome
    /// screen.
    pub fn welcome_config(&self, task_dir: &str) -> (r: AppConfig)
        ensures
            r@ == welcome_settings(self@, task_dir@),
    {
        let mut c = AppConfig::new(task_dir);
        c.sidebar_width = self.sidebar_width_pct();
        c.sidebar_min_width = self.sidebar_min_width_pct();
        c.sidebar_max_width = self.sidebar_max_width_pct();
        c
    }

    /// The settings to save after the sidebar was resized, for a terminal
    /// of `terminal_cols` columns when its size is known.
    pub fn sidebar_config(&self, terminal_cols: Option<u16>) -> (r: AppConfig)
        ensures
            r@ == sidebar_settings(self@, terminal_cols),
    {
        let mut c = AppConfig::new("");
        proof {
            reveal_strlit("");
        }
        c.task_dir = match self.store_root() {
            Some(root) => owned(root),
            None => String::new(),
        };
        c.editor = Some(owned(self.editor_command()));
        let w = self.sidebar_width() as u32;
        c.sidebar_width = match terminal_cols {
            Some(cols) => if cols > 0 {
                assert(w * 100 <= 65535 * 100) by (nonlinear_arith)
                    requires
                        w <= 65535,
                ;
                ((w * 100) / (cols as u32)) as u8
            } else {
                self.sidebar_width_pct()
            },
            None => self.sidebar_width_pct(),
        };
        c.sidebar_min_width = self.sidebar_min_width_pct();
        c.sidebar_max_width = self.sidebar_max_width_pct();
        c
    }

    /// The task shown at row `visual_row` of the task pane, scrolled by
    /// its offset, for tasks taking `line_counts` rows each (see
    /// `session_spans`).
    pub fn task_index_for_line_counts(&self, visual_row: usize, line_counts: &[usize]) -> (r: Option<usize>)
        requires
            line_counts@.len() == self@.visible.len(),
        ensures
            self@.visible.len() == 0 ==> r is None,
            self@.visible.len() > 0 ==> match r {
                Some(k) => first_span(
                    session_spans(self@, counts_view(line_counts@)),
                    holds_row(visual_row + match self@.scroll {
                        Some(v) => v,
                        None => 0,
                    }),
                ) == Some(k as int),
                None => first_span(
                    session_spans(self@, counts_view(line_counts@)),
                    holds_row(visual_row + match self@.scroll {
                        Some(v) => v,
                        None => 0,
                    }),
                ) is None,
            },
    {
        if self.visible_tasks().len() == 0 {
            return None;
        }
        let row = visual_row as u128 + self.task_scroll_offset() as u128;
        let base: usize = if self.app().search_active || self.app().search_query.as_str().unicode_len() > 0 {
            2
        } else {
            0
        };
        let groups = self.visible_groups();
        let headers = groups.len() > 1 || (groups.len() == 1 && groups[0].label.as_str().unicode_len() > 0);
        let mut shape: Vec<(bool, usize)> = Vec::new();
        let mut i: usize = 0;
        while i < groups.len()
            invariant
                i <= groups.len(),
                shape.len() == i,
                forall|k: int|
                    0 <= k < i ==> (#[trigger] groups_shape(shape@)[k]) == group_shape_of(
                        crate::smartlist::eval::groups_view(groups@),
                    )[k],
            decreases groups.len() - i,
        {
            let ghost before = shape@;
            let item = (groups[i].label.as_str().unicode_len() > 0, groups[i].tasks.len());
            shape.push(item);
            proof {
                let gv = crate::smartlist::eval::groups_view(groups@);
                assert(gv[i as int] == groups@[i as int]@);
                assert(groups_shape(shape@)[i as int] == group_shape_of(gv)[i as int]);
                assert forall|k: int| 0 <= k < i + 1 implies (#[trigger] groups_shape(shape@)[k]) == group_shape_of(gv)[k] by {
                    if k < i {
                        assert(shape@[k] == before[k]);
                        assert(groups_shape(shape@)[k] == groups_shape(before)[k]);
                    }
                }
            }
            i = i + 1;
        }
        proof {
            assert(groups_shape(shape@) =~= group_shape_of(self@.groups));
            assert(headers == has_headers(self@.groups));
        }
        task_at_row(row, base, headers, shape.as_slice(), line_counts)
    }

    /// The task shown at row `visual_row` of a task pane
    /// `task_pane_inner_width` columns wide, scrolled by its offset: each
    /// task takes the rows of its lines wrapped at that width (see
    /// `visible_rows`).
    pub fn task_index_for_visual_row(&self, visual_row: usize, task_pane_inner_width: u16) -> (r: Option<usize>)
        requires
            forall|k: int|
                0 <= k < self@.visible.len() ==> lines_colorable(
                    task_line_pieces(#[trigger] self@.visible[k].task, false, task_pane_inner_width as int),
                ),
        ensures
            self@.visible.len() == 0 ==> r is None,
            self@.visible.len() > 0 ==> match r {
                Some(k) => first_span(
                    session_spans(self@, visible_rows(self@.visible, task_pane_inner_width)),
                    holds_row(visual_row + match self@.scroll {
                        Some(v) => v,
                        None => 0,
                    }),
                ) == Some(k as int),
                None => first_span(
                    session_spans(self@, visible_rows(self@.visible, task_pane_inner_width)),
                    holds_row(visual_row + match self@.scroll {
                        Some(v) => v,
                        None => 0,
                    }),
                ) is None,
            },
    {
        let tasks = self.visible_tasks();
        let ghost rows = visible_rows(self@.visible, task_pane_inner_width);
        let mut counts: Vec<usize> = Vec::new();
        let mut k: usize = 0;
        while k < tasks.len()
            invariant
                k <= tasks.len(),
                stored_view(tasks@) == self@.visible,
                rows == visible_rows(self@.visible, task_pane_inner_width),
                forall|j: int|
                    0 <= j < self@.visible.len() ==> lines_colorable(
                        task_line_pieces(#[trigger] self@.visible[j].task, false, task_pane_inner_width as int),
                    ),
                counts_view(counts@) == rows.subrange(0, k as int),
            decreases tasks.len() - k,
        {
            assert(self@.visible[k as int].task == tasks@[k as int].task@);
            let c = visual_line_count_for_task(&tasks[k].task, task_pane_inner_width);
            let ghost before = counts@;
            counts.push(c);
            assert(counts_view(counts@) =~= counts_view(before).push(c as int));
            assert(rows.subrange(0, k + 1) =~= rows.subrange(0, k as int).push(rows[k as int]));
            k = k + 1;
        }
        assert(counts_view(counts@) =~= rows);
        self.task_index_for_line_counts(visual_row, counts.as_slice())
    }
}

} // verus!
