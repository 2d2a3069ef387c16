//! Moving the selection, the mouse, scrolling and the sidebar's width.
use vstd::prelude::*;

use crate::tui::app::{AppModel, FocusArea};
use super::super::{ViewOverrides, selectable, selectable_positions, selectable_sidebar_indices};
use super::{SessionModel, TuiSession, cursor_item, duplicate_item, first_where, lemma_first_where, selection_of, tasks_rebuilt};

verus! {

// -- Moving the selection, the mouse, scrolling and widths ------------------------

pub open spec fn clamp_to(v: int, lo: int, hi: int) -> int {
    if v < lo {
        lo
    } else if v > hi {
        hi
    } else {
        v
    }
}

/// The session with `i` selected and the application told so.
pub open spec fn with_selection(m: SessionModel, sel: Option<int>) -> SessionModel {
    SessionModel {
        selected: sel,
        scroll: None,
        app: AppModel { selected_task: selection_of(m.visible, sel), ..m.app },
        ..m
    }
}

/// The sidebar cursor moved by `delta`, within the selectable items.
pub open spec fn sidebar_moved(m: SessionModel, delta: int) -> SessionModel {
    let n = selectable_positions(m.sidebar).len() as int;
    if n == 0 {
        m
    } else {
        SessionModel { cursor: clamp_to(m.cursor + delta, 0, n - 1), ..m }
    }
}

/// The task selection moved by `delta`, within the tasks.
pub open spec fn task_moved(m: SessionModel, delta: int) -> SessionModel {
    if m.visible.len() == 0 {
        with_selection(m, None)
    } else {
        let current = match m.selected {
            Some(i) => i,
            None => 0,
        };
        with_selection(m, Some(clamp_to(current + delta, 0, m.visible.len() - 1)))
    }
}

/// `n` is `o` after moving the focused cursor by `delta`: in the sidebar,
/// the cursor moves within the selectable items and the item under it
/// becomes active; in the task list, the selection moves within the tasks.
pub open spec fn moved_by(o: SessionModel, delta: int, n: SessionModel) -> bool {
    match o.app.focus {
        FocusArea::Sidebar => {
            let c = sidebar_moved(o, delta);
            match cursor_item(c) {
                Some(i) => tasks_rebuilt(
                    SessionModel { active: c.sidebar[i], overrides: ViewOverrides { sort: None, group: None, reversed: false }, ..c },
                    n,
                ),
                None => n == c,
            }
        },
        FocusArea::TaskList => n == task_moved(o, delta),
    }
}

/// The session after moving the focused cursor to the first (`top`) or
/// the last item.
pub open spec fn moved_to_edge(m: SessionModel, top: bool) -> SessionModel {
    match m.app.focus {
        FocusArea::Sidebar => {
            let n = selectable_positions(m.sidebar).len() as int;
            if n == 0 {
                m
            } else {
                SessionModel { cursor: if top {
                    0
                } else {
                    n - 1
                }, ..m }
            }
        },
        FocusArea::TaskList => if m.visible.len() == 0 {
            with_selection(m, None)
        } else {
            with_selection(m, Some(if top {
                0
            } else {
                m.visible.len() - 1
            }))
        },
    }
}

/// The session after stepping through the search results by `delta`,
/// wrapping around; nothing changes without a query or without results.
pub open spec fn moved_in_results(m: SessionModel, delta: int) -> SessionModel {
    if m.app.search_query.len() == 0 || m.visible.len() == 0 {
        m
    } else {
        let current = match m.selected {
            Some(i) => i,
            None => 0,
        };
        with_selection(m, Some((current + delta) % (m.visible.len() as int)))
    }
}

pub open spec fn int_is(v: int) -> spec_fn(int) -> bool {
    |x: int| x == v
}

/// The sidebar width for a given width in columns: kept between the
/// minimum and the maximum share of the terminal (the maximum at least one
/// column).
pub open spec fn clamped_width(width: int, cols: int, min_pct: int, max_pct: int) -> int {
    let min = ((cols * min_pct / 100) as u16) as int;
    let max = ((cols * max_pct / 100) as u16) as int;
    let max = if max > 1 {
        max
    } else {
        1
    };
    clamp_to(width, min, max)
}

/// The sidebar width can be kept within its bounds for a terminal of
/// `cols` columns: the minimum does not exceed the maximum.
pub open spec fn width_bounds_ok(cols: int, min_pct: int, max_pct: int) -> bool {
    let min = ((cols * min_pct / 100) as u16) as int;
    let max = ((cols * max_pct / 100) as u16) as int;
    min <= if max > 1 {
        max
    } else {
        1
    }
}

fn bounded_width(width: u16, cols: u16, min_pct: u8, max_pct: u8) -> (r: u16)
    requires
        width_bounds_ok(cols as int, min_pct as int, max_pct as int),
    ensures
        r as int == clamped_width(width as int, cols as int, min_pct as int, max_pct as int),
{
    let c = cols as u32;
    assert(c * (min_pct as u32) <= 65535 * 255) by (nonlinear_arith)
        requires
            c <= 65535,
            min_pct <= 255,
    ;
    assert(c * (max_pct as u32) <= 65535 * 255) by (nonlinear_arith)
        requires
            c <= 65535,
            max_pct <= 255,
    ;
    let min = (c * (min_pct as u32) / 100) as u16;
    let max = (c * (max_pct as u32) / 100) as u16;
    let max = if max > 1 {
        max
    } else {
        1
    };
    if width < min {
        min
    } else if width > max {
        max
    } else {
        width
    }
}

proof fn lemma_neg_mod(x: int, len: int)
    requires
        len > 0,
        x < 0,
    ensures
        x % len == (if (-x) % len == 0 {
            0
        } else {
            len - (-x) % len
        }),
{
    let y = -x;
    let q = y / len;
    let m = y % len;
    vstd::arithmetic::div_mod::lemma_fundamental_div_mod(y, len);
    assert(y == len * q + m);
    assert(0 <= m < len);
    if m == 0 {
        assert(x == (-q) * len + 0) by (nonlinear_arith)
            requires
                y == len * q + m,
                m == 0,
                x == -y,
        ;
        vstd::arithmetic::div_mod::lemma_fundamental_div_mod_converse(x, len, -q, 0);
    } else {
        assert(x == (-q - 1) * len + (len - m)) by (nonlinear_arith)
            requires
                y == len * q + m,
                x == -y,
        ;
        vstd::arithmetic::div_mod::lemma_fundamental_div_mod_converse(x, len, -q - 1, len - m);
    }
}

fn position_in(v: &Vec<usize>, x: usize) -> (r: Option<usize>)
    ensures
        match r {
            Some(k) => first_where(v@.map_values(|i: usize| i as int), int_is(x as int)) == Some(k as int),
            None => first_where(v@.map_values(|i: usize| i as int), int_is(x as int)) is None,
        },
{
    let ghost sp = v@.map_values(|i: usize| i as int);
    let ghost p = int_is(x as int);
    let mut k: usize = 0;
    while k < v.len()
        invariant
            k <= v.len(),
            sp == v@.map_values(|i: usize| i as int),
            p == int_is(x as int),
            forall|j: int| 0 <= j < k ==> !p(#[trigger] sp[j]),
        decreases v.len() - k,
    {
        assert(sp[k as int] == v@[k as int] as int);
        if v[k] == x {
            proof {
                lemma_first_where(sp, p, k as int);
            }
            return Some(k);
        }
        k = k + 1;
    }
    proof {
        lemma_first_where(sp, p, k as int);
    }
    None
}

impl TuiSession {
    fn move_sidebar(&mut self, delta: isize)
        requires
            old(self).wf(),
        ensures
            final(self).wf(),
            match cursor_item(sidebar_moved(old(self)@, delta as int)) {
                Some(i) => tasks_rebuilt(
                    SessionModel {
                        active: sidebar_moved(old(self)@, delta as int).sidebar[i],
                        overrides: ViewOverrides { sort: None, group: None, reversed: false },
                        ..sidebar_moved(old(self)@, delta as int)
                    },
                    final(self)@,
                ),
                None => final(self)@ == sidebar_moved(old(self)@, delta as int),
            },
    {
        let n = selectable_sidebar_indices(self.sidebar_items.as_slice()).len();
        if n == 0 {
            return;
        }
        let c = self.sidebar_cursor as i128 + delta as i128;
        let hi = (n - 1) as i128;
        let next = if c < 0 {
            0
        } else if c > hi {
            hi
        } else {
            c
        };
        self.sidebar_cursor = next as usize;
        self.activate_sidebar_cursor();
    }

    fn move_task_list(&mut self, delta: isize)
        requires
            old(self).wf(),
        ensures
            final(self).wf(),
            final(self)@ == task_moved(old(self)@, delta as int),
    {
        if self.visible_tasks.len() == 0 {
            self.selected_task_index = None;
            self.sync_selected_task();
            return;
        }
        let current = match self.selected_task_index {
            Some(i) => i,
            None => 0,
        };
        let c = current as i128 + delta as i128;
        let hi = (self.visible_tasks.len() - 1) as i128;
        let next = if c < 0 {
            0
        } else if c > hi {
            hi
        } else {
            c
        };
        self.selected_task_index = Some(next as usize);
        self.sync_selected_task();
    }

    /// Moves the focused cursor by `delta` (see `moved_by`).
    pub fn move_selection(&mut self, delta: isize)
        requires
            old(self).wf(),
        ensures
            final(self).wf(),
            moved_by(old(self)@, delta as int, final(self)@),
    {
        match self.app.focus {
            FocusArea::Sidebar => self.move_sidebar(delta),
            FocusArea::TaskList => self.move_task_list(delta),
        }
    }

    /// Moves the focused cursor to the first or the last item.
    pub fn move_to_edge(&mut self, top: bool)
        requires
            old(self).wf(),
        ensures
            final(self).wf(),
            final(self)@ == moved_to_edge(old(self)@, top),
    {
        match self.app.focus {
            FocusArea::Sidebar => {
                let n = selectable_sidebar_indices(self.sidebar_items.as_slice()).len();
                if n == 0 {
                    return;
                }
                if top {
                    self.sidebar_cursor = 0;
                } else {
                    self.sidebar_cursor = n - 1;
                }
            },
            FocusArea::TaskList => {
                if self.visible_tasks.len() == 0 {
                    self.selected_task_index = None;
                } else {
                    self.selected_task_index = Some(
                        if top {
                            0
                        } else {
                            self.visible_tasks.len() - 1
                        },
                    );
                }
                self.sync_selected_task();
            },
        }
    }

    /// Steps through the search results, wrapping around.
    pub fn move_search_result(&mut self, delta: isize)
        requires
            old(self).wf(),
        ensures
            final(self).wf(),
            final(self)@ == moved_in_results(old(self)@, delta as int),
    {
        if self.app.search_query.as_str().unicode_len() == 0 || self.visible_tasks.len() == 0 {
            return;
        }
        let len = self.visible_tasks.len() as i128;
        let current = match self.selected_task_index {
            Some(i) => i,
            None => 0,
        };
        let x = current as i128 + delta as i128;
        let next: i128 = if x >= 0 {
            x % len
        } else {
            let m = (-x) % len;
            if m == 0 {
                0
            } else {
                len - m
            }
        };
        proof {
            if x < 0 {
                lemma_neg_mod(x as int, len as int);
            }
        }
        self.selected_task_index = Some(next as usize);
        self.sync_selected_task();
    }

    /// Selects the sidebar item at `sidebar_index` as a mouse click does:
    /// the focus goes to the sidebar, the cursor to the item when it can be
    /// selected, and the item becomes active.
    pub fn dispatch_mouse_sidebar(&mut self, sidebar_index: usize)
        requires
            old(self).wf(),
        ensures
            final(self).wf(),
            sidebar_index >= old(self)@.sidebar.len() ==> final(self)@ == old(self)@,
            sidebar_index < old(self)@.sidebar.len() ==> tasks_rebuilt(
                SessionModel {
                    app: AppModel { focus: FocusArea::Sidebar, ..old(self)@.app },
                    cursor: match first_where(selectable_positions(old(self)@.sidebar), int_is(sidebar_index as int)) {
                        Some(p) => p,
                        None => old(self)@.cursor,
                    },
                    active: old(self)@.sidebar[sidebar_index as int],
                    overrides: ViewOverrides { sort: None, group: None, reversed: false },
                    ..old(self)@
                },
                final(self)@,
            ),
    {
        if sidebar_index >= self.sidebar_items.len() {
            return;
        }
        let item = duplicate_item(&self.sidebar_items[sidebar_index]);
        assert(item@ == self@.sidebar[sidebar_index as int]);
        self.app.focus = FocusArea::Sidebar;
        let sel = selectable_sidebar_indices(self.sidebar_items.as_slice());
        match position_in(&sel, sidebar_index) {
            Some(k) => {
                self.sidebar_cursor = k;
            },
            None => {},
        }
        self.select_sidebar_item(item);
    }

    /// Selects the task at `task_index` as a mouse click does: the focus
    /// goes to the task list; the scroll stays where it is.
    pub fn dispatch_mouse_task_select(&mut self, task_index: usize)
        requires
            old(self).wf(),
        ensures
            final(self).wf(),
            task_index >= old(self)@.visible.len() ==> final(self)@ == old(self)@,
            task_index < old(self)@.visible.len() ==> final(self)@ == (SessionModel {
                selected: Some(task_index as int),
                app: AppModel {
                    focus: FocusArea::TaskList,
                    selected_task: selection_of(old(self)@.visible, Some(task_index as int)),
                    ..old(self)@.app
                },
                ..old(self)@
            }),
    {
        if task_index < self.visible_tasks.len() {
            self.app.focus = FocusArea::TaskList;
            self.selected_task_index = Some(task_index);
            let scroll = self.task_scroll_override;
            self.sync_selected_task();
            self.task_scroll_override = scroll;
        }
    }

    /// Scrolls the task pane by `delta` lines, within the lines that do not
    /// fit the pane.
    pub fn apply_task_scroll(&mut self, delta: isize, visual_line_count: usize, pane_height: usize)
        requires
            visual_line_count - pane_height <= isize::MAX,
            isize::MIN <= (match old(self)@.scroll {
                Some(v) => v,
                None => 0,
            }) + delta <= isize::MAX,
        ensures
            final(self)@ == (SessionModel {
                scroll: Some(
                    (clamp_to(
                        (match old(self)@.scroll {
                            Some(v) => v,
                            None => 0,
                        }) + delta,
                        0,
                        if visual_line_count > pane_height {
                            visual_line_count - pane_height
                        } else {
                            0
                        },
                    ) as u16) as int,
                ),
                ..old(self)@
            }),
    {
        let max_offset = if visual_line_count > pane_height {
            visual_line_count - pane_height
        } else {
            0
        };
        let current = match self.task_scroll_override {
            Some(v) => v,
            None => 0,
        };
        let c = current as isize + delta;
        let hi = max_offset as isize;
        let next = if c < 0 {
            0
        } else if c > hi {
            hi
        } else {
            c
        };
        self.task_scroll_override = Some(next as u16);
    }

    /// Sets the sidebar width from its share of a terminal of
    /// `terminal_cols` columns, within its bounds.
    pub fn init_sidebar_width(&mut self, terminal_cols: u16)
        requires
            width_bounds_ok(terminal_cols as int, old(self)@.min_pct, old(self)@.max_pct),
        ensures
            final(self)@ == (SessionModel {
                sidebar_width: clamped_width(
                    ((terminal_cols as int * old(self)@.width_pct / 100) as u16) as int,
                    terminal_cols as int,
                    old(self)@.min_pct,
                    old(self)@.max_pct,
                ),
                ..old(self)@
            }),
    {
        let c = terminal_cols as u32;
        assert(c * (self.sidebar_width_pct as u32) <= 65535 * 255) by (nonlinear_arith)
            requires
                c <= 65535,
                self.sidebar_width_pct <= 255,
        ;
        let width = (c * (self.sidebar_width_pct as u32) / 100) as u16;
        self.sidebar_width = bounded_width(width, terminal_cols, self.sidebar_min_width_pct, self.sidebar_max_width_pct);
    }

    /// Sets the sidebar width to `width` columns, within its bounds.
    pub fn apply_sidebar_width(&mut self, width: u16, terminal_cols: u16)
        requires
            width_bounds_ok(terminal_cols as int, old(self)@.min_pct, old(self)@.max_pct),
        ensures
            final(self)@ == (SessionModel {
                sidebar_width: clamped_width(width as int, terminal_cols as int, old(self)@.min_pct, old(self)@.max_pct),
                ..old(self)@
            }),
    {
        self.sidebar_width = bounded_width(width, terminal_cols, self.sidebar_min_width_pct, self.sidebar_max_width_pct);
    }

    /// Whether the sidebar's bounds for a terminal of `terminal_cols`
    /// columns are in order (see `width_bounds_ok`).
    pub fn sidebar_bounds_ok(&self, terminal_cols: u16) -> (r: bool)
        ensures
            r == width_bounds_ok(terminal_cols as int, self@.min_pct, self@.max_pct),
    {
        let c = terminal_cols as u32;
        let min_pct = self.sidebar_min_width_pct;
        let max_pct = self.sidebar_max_width_pct;
        assert(c * (min_pct as u32) <= 65535 * 255) by (nonlinear_arith)
            requires
                c <= 65535,
                min_pct <= 255,
        ;
        assert(c * (max_pct as u32) <= 65535 * 255) by (nonlinear_arith)
            requires
                c <= 65535,
                max_pct <= 255,
        ;
        let min = (c * (min_pct as u32) / 100) as u16;
        let max = (c * (max_pct as u32) / 100) as u16;
        min <= if max > 1 { max } else { 1 }
    }

    /// Recomputes the sidebar width when the terminal's width changed.
    pub fn maybe_handle_resize(&mut self, terminal_cols: u16)
        requires
            width_bounds_ok(terminal_cols as int, old(self)@.min_pct, old(self)@.max_pct),
        ensures
            terminal_cols as int == old(self)@.last_cols ==> final(self)@ == old(self)@,
            terminal_cols as int != old(self)@.last_cols ==> final(self)@ == (SessionModel {
                sidebar_width: clamped_width(
                    ((terminal_cols as int * old(self)@.width_pct / 100) as u16) as int,
                    terminal_cols as int,
                    old(self)@.min_pct,
                    old(self)@.max_pct,
                ),
                last_cols: terminal_cols as int,
                ..old(self)@
            }),
    {
        if terminal_cols != self.last_terminal_cols {
            self.init_sidebar_width(terminal_cols);
            self.last_terminal_cols = terminal_cols;
        }
    }
}

} // verus!
