//! The session's view logic: which tasks the sidebar's selection shows, in
//! which order, with which overrides, and what the sidebar lists.
use vstd::prelude::*;

use crate::query::{lemma_task_order_flip, task_order};
use crate::smartlist::eval::{task_evaluable, tasks_evaluable, filter_only, has_done_filter, select_matching, blocks_have_done_filter};
use crate::sorting::{lemma_map_multiset, sort_by, Orderer};
use crate::smartlist::eval::{field_display_name, field_name};
use crate::smartlist::types::{Direction, Directive, SmartList, SmartListModel};
use crate::text::{lemma_lex_order_equal, lemma_lex_order_flip, lex_order, opt_view, str_order};
use crate::smartlist::eval::lemma_lex_order_trans;
use crate::store::{duplicate_all, stored_view, Snapshot, StoredModel, StoredTask};
use crate::text::{
    chars_include, chars_of, copy_strings, has_substring, lowercase, owned, push_str, str_eq, string_of,
    strings_view, to_lower, Order3,
};

use crate::smartlist::eval::{date_value_resolvable, group_by_directives, groups_of, groups_view, resolvable, sort_by_directives, sorted_by_directives, GroupModel, TaskGroup};
use crate::smartlist::types::{Condition, opt_date_view};
use crate::tui::editor::{prefill_resolvable, EditorState, SelectedModel, SelectedTask};
use crate::tui::app::{AppAction, AppMode, AppModel, AppState, FocusArea, ListViewerState, PickerKind, PickerModel, ViewerModel, ActionModel, key_step, keys_ok};
use crate::tui::editor::{ConflictChoice, EditorModel, with_raw, at_cursor, prefill_prefix, prefill_suffix};
use crate::smartlist::types::{empty_prefill, Prefill};
use crate::text::lines_of;
use crate::parser::{parse_task_line, spec_task};
use crate::paths::{file_name, path_file_name};
use crate::task::{same_tags, TagMap, TaskModel};
use crate::store::{TaskId, TaskIdModel, TaskStore};
use crate::refresh::SnapshotIndex;
use crate::config::ConfigPaths;

pub mod pane;
pub mod state;

pub use state::{LogicalTaskKey, SelectionTarget, SessionRequest, TuiSession};

verus! {

/// Sort and group choices that override the smart list's own.
#[derive(Debug, Clone, Copy, PartialEq, Eq, Structural)]
pub struct ViewOverrides {
    pub sort: Option<Directive>,
    pub group: Option<Directive>,
    pub reversed: bool,
}

impl ViewOverrides {
    /// No overrides.
    pub fn new() -> (r: ViewOverrides)
        ensures
            r == (ViewOverrides { sort: None, group: None, reversed: false }),
    {
        ViewOverrides { sort: None, group: None, reversed: false }
    }

    /// Drops all overrides.
    pub fn clear(&mut self)
        ensures
            *final(self) == (ViewOverrides { sort: None, group: None, reversed: false }),
    {
        self.sort = None;
        self.group = None;
        self.reversed = false;
    }

    /// Whether the sort is overridden or reversed.
    pub fn has_sort_override(&self) -> (r: bool)
        ensures
            r == (self.sort is Some || self.reversed),
    {
        self.sort.is_some() || self.reversed
    }

    /// Whether the grouping is overridden.
    pub fn has_group_override(&self) -> (r: bool)
        ensures
            r == (self.group is Some),
    {
        self.group.is_some()
    }
}

/// One entry of the sidebar.
#[derive(Debug, Clone, PartialEq, Eq)]
pub enum SidebarItem {
    SmartList(usize),
    GroupHeader(Vec<String>),
    Separator,
    ListsHeader,
    ProjectsHeader,
    Project(String),
    ContextsHeader,
    Context(String),
}

pub ghost enum ItemModel {
    SmartList(int),
    GroupHeader(Seq<Seq<char>>),
    Separator,
    ListsHeader,
    ProjectsHeader,
    Project(Seq<char>),
    ContextsHeader,
    Context(Seq<char>),
}

impl View for SidebarItem {
    type V = ItemModel;

    open spec fn view(&self) -> ItemModel {
        match self {
            SidebarItem::SmartList(i) => ItemModel::SmartList(*i as int),
            SidebarItem::GroupHeader(p) => ItemModel::GroupHeader(strings_view(p@)),
            SidebarItem::Separator => ItemModel::Separator,
            SidebarItem::ListsHeader => ItemModel::ListsHeader,
            SidebarItem::ProjectsHeader => ItemModel::ProjectsHeader,
            SidebarItem::Project(v) => ItemModel::Project(v@),
            SidebarItem::ContextsHeader => ItemModel::ContextsHeader,
            SidebarItem::Context(v) => ItemModel::Context(v@),
        }
    }
}

pub open spec fn items_view(v: Seq<SidebarItem>) -> Seq<ItemModel> {
    v.map_values(|i: SidebarItem| i@)
}

/// Headers and separators cannot be selected.
pub open spec fn selectable(i: ItemModel) -> bool {
    !(i is ListsHeader || i is ProjectsHeader || i is ContextsHeader || i is Separator)
}

/// The positions of the selectable items, in order.
pub open spec fn selectable_positions(items: Seq<ItemModel>) -> Seq<int>
    decreases items.len(),
{
    if items.len() == 0 {
        seq![]
    } else {
        let rest = selectable_positions(items.drop_last());
        if selectable(items.last()) {
            rest.push(items.len() - 1)
        } else {
            rest
        }
    }
}

pub proof fn lemma_selectable_positions_bounds(items: Seq<ItemModel>)
    ensures
        forall|k: int| 0 <= k < selectable_positions(items).len() ==> 0 <= #[trigger] selectable_positions(items)[k] < items.len(),
        forall|k: int| 0 <= k < selectable_positions(items).len() ==> selectable(items[#[trigger] selectable_positions(items)[k]]),
        selectable_positions(items).len() <= items.len(),
    decreases items.len(),
{
    if items.len() > 0 {
        lemma_selectable_positions_bounds(items.drop_last());
        let rest = selectable_positions(items.drop_last());
        assert forall|k: int| 0 <= k < rest.len() implies selectable(items[#[trigger] rest[k]]) by {
            assert(items[rest[k]] == items.drop_last()[rest[k]]);
        }
    }
}

/// The positions of the sidebar's selectable items.
pub fn selectable_sidebar_indices(items: &[SidebarItem]) -> (r: Vec<usize>)
    ensures
        r@.map_values(|i: usize| i as int) == selectable_positions(items_view(items@)),
{
    let ghost all = items_view(items@);
    let mut r: Vec<usize> = Vec::new();
    let mut i: usize = 0;
    while i < items.len()
        invariant
            i <= items.len(),
            all == items_view(items@),
            r@.map_values(|i: usize| i as int) == selectable_positions(all.subrange(0, i as int)),
        decreases items.len() - i,
    {
        let ghost before = r@;
        assert(all.subrange(0, i + 1).drop_last() =~= all.subrange(0, i as int));
        assert(all.subrange(0, i + 1).last() == items@[i as int]@);
        let keep = match &items[i] {
            SidebarItem::ListsHeader | SidebarItem::ProjectsHeader | SidebarItem::ContextsHeader
            | SidebarItem::Separator => false,
            _ => true,
        };
        if keep {
            r.push(i);
            assert(r@.map_values(|i: usize| i as int) =~= before.map_values(|i: usize| i as int).push(i as int));
        }
        i = i + 1;
    }
    assert(all.subrange(0, items.len() as int) =~= all);
    r
}

/// The sort directives in effect: the override, else the smart list's; when
/// reversed, the first directive's direction flips.
pub open spec fn effective_sort(o: ViewOverrides, list: Option<SmartListModel>) -> Seq<Directive> {
    let base = match o.sort {
        Some(d) => seq![d],
        None => match list {
            Some(l) => l.sort_directives,
            None => seq![],
        },
    };
    if o.reversed && base.len() > 0 {
        base.update(0, Directive { field: base[0].field, direction: flipped(base[0].direction) })
    } else {
        base
    }
}

pub open spec fn flipped(d: Direction) -> Direction {
    match d {
        Direction::Asc => Direction::Desc,
        Direction::Desc => Direction::Asc,
    }
}

/// The group directives in effect: the override, else the smart list's.
pub open spec fn effective_group(o: ViewOverrides, list: Option<SmartListModel>) -> Seq<Directive> {
    match o.group {
        Some(d) => seq![d],
        None => match list {
            Some(l) => l.group_directives,
            None => seq![],
        },
    }
}

/// The sort directives in effect for a smart list (or none).
pub fn effective_sort_directives(o: &ViewOverrides, list: Option<&SmartList>) -> (r: Vec<Directive>)
    ensures
        r@ == effective_sort(*o, match list {
            Some(l) => Some(l@),
            None => None,
        }),
{
    let mut base: Vec<Directive> = Vec::new();
    match o.sort {
        Some(d) => base.push(d),
        None => match list {
            Some(l) => {
                let mut i: usize = 0;
                while i < l.sort_directives.len()
                    invariant
                        i <= l.sort_directives.len(),
                        base@ == l.sort_directives@.subrange(0, i as int),
                    decreases l.sort_directives.len() - i,
                {
                    base.push(l.sort_directives[i]);
                    i = i + 1;
                    assert(base@ =~= l.sort_directives@.subrange(0, i as int));
                }
                assert(l.sort_directives@.subrange(0, l.sort_directives.len() as int) =~= l.sort_directives@);
            },
            None => {},
        },
    }
    assert(o.sort is Some ==> base@ =~= seq![o.sort->0]);
    assert(o.sort is None && list is None ==> base@ =~= Seq::<Directive>::empty());
    if o.reversed && base.len() > 0 {
        let first = base[0];
        let d = match first.direction {
            Direction::Asc => Direction::Desc,
            Direction::Desc => Direction::Asc,
        };
        base.set(0, Directive { field: first.field, direction: d });
    }
    base
}

/// The group directives in effect for a smart list (or none).
pub fn effective_group_directives(o: &ViewOverrides, list: Option<&SmartList>) -> (r: Vec<Directive>)
    ensures
        r@ == effective_group(*o, match list {
            Some(l) => Some(l@),
            None => None,
        }),
{
    let mut base: Vec<Directive> = Vec::new();
    match o.group {
        Some(d) => {
            base.push(d);
            assert(base@ =~= seq![d]);
        },
        None => match list {
            Some(l) => {
                let mut i: usize = 0;
                while i < l.group_directives.len()
                    invariant
                        i <= l.group_directives.len(),
                        base@ == l.group_directives@.subrange(0, i as int),
                    decreases l.group_directives.len() - i,
                {
                    base.push(l.group_directives[i]);
                    i = i + 1;
                    assert(base@ =~= l.group_directives@.subrange(0, i as int));
                }
                assert(l.group_directives@.subrange(0, l.group_directives.len() as int) =~= l.group_directives@);
            },
            None => {
                assert(base@ =~= Seq::<Directive>::empty());
            },
        },
    }
    base
}

/// The title suffix that shows the active overrides: `[sort: <field> ↑]` or
/// `↓` for the first sort directive when the sort is overridden, and
/// `[group: <field>]` when the grouping is, after a space.
pub open spec fn indicator(o: ViewOverrides, sort: Seq<Directive>, group: Seq<Directive>) -> Seq<char> {
    let s: Seq<Seq<char>> = if (o.sort is Some || o.reversed) && sort.len() > 0 {
        seq!["[sort: "@ + field_name(sort[0].field) + " "@ + (if sort[0].direction == Direction::Asc {
            "↑"@
        } else {
            "↓"@
        }) + "]"@]
    } else {
        seq![]
    };
    let g: Seq<Seq<char>> = if o.group is Some && group.len() > 0 {
        seq!["[group: "@ + field_name(group[0].field) + "]"@]
    } else {
        seq![]
    };
    let parts = s + g;
    if parts.len() == 0 {
        seq![]
    } else {
        " "@ + crate::text::join_seq(parts, " "@)
    }
}

/// The indicator of the active overrides (see `indicator`).
pub fn override_indicator(o: &ViewOverrides, sort: &Vec<Directive>, group: &Vec<Directive>) -> (r: String)
    ensures
        r@ == indicator(*o, sort@, group@),
{
    let mut parts: Vec<String> = Vec::new();
    if o.has_sort_override() && sort.len() > 0 {
        let d = sort[0];
        let mut t = owned("[sort: ");
        push_str(&mut t, field_display_name(&d.field));
        push_str(&mut t, " ");
        push_str(&mut t, if d.direction == Direction::Asc { "↑" } else { "↓" });
        push_str(&mut t, "]");
        parts.push(t);
    }
    let ghost s = strings_view(parts@);
    if o.has_group_override() && group.len() > 0 {
        let d = group[0];
        let mut t = owned("[group: ");
        push_str(&mut t, field_display_name(&d.field));
        push_str(&mut t, "]");
        parts.push(t);
    }
    assert(strings_view(parts@) =~= (if (o.sort is Some || o.reversed) && sort@.len() > 0 {
        seq!["[sort: "@ + field_name(sort@[0].field) + " "@ + (if sort@[0].direction == Direction::Asc {
            "↑"@
        } else {
            "↓"@
        }) + "]"@]
    } else {
        Seq::<Seq<char>>::empty()
    }) + (if o.group is Some && group@.len() > 0 {
        seq!["[group: "@ + field_name(group@[0].field) + "]"@]
    } else {
        Seq::<Seq<char>>::empty()
    }));
    if parts.len() == 0 {
        String::new()
    } else {
        let mut r = owned(" ");
        push_str(&mut r, crate::text::join_strings(&parts, " ").as_str());
        r
    }
}

/// The tasks whose raw line contains the query, ignoring case (all of them
/// for an empty query).
pub open spec fn search_matches(tasks: Seq<StoredModel>, query: Seq<char>) -> Seq<StoredModel>
    decreases tasks.len(),
{
    if query.len() == 0 {
        tasks
    } else if tasks.len() == 0 {
        seq![]
    } else {
        let rest = search_matches(tasks.drop_last(), query);
        if has_substring(lowercase(tasks.last().task.raw), lowercase(query)) {
            rest.push(tasks.last())
        } else {
            rest
        }
    }
}

/// The tasks that the search query finds (see `search_matches`).
pub fn apply_search_filter(tasks: Vec<StoredTask>, query: &str) -> (r: Vec<StoredTask>)
    ensures
        stored_view(r@) == search_matches(stored_view(tasks@), query@),
{
    if query.unicode_len() == 0 {
        return tasks;
    }
    let q = chars_of(to_lower(query).as_str());
    let ghost all = stored_view(tasks@);
    let mut r: Vec<StoredTask> = Vec::new();
    let mut i: usize = 0;
    while i < tasks.len()
        invariant
            i <= tasks.len(),
            query@.len() > 0,
            all == stored_view(tasks@),
            q@ == lowercase(query@),
            stored_view(r@) == search_matches(all.subrange(0, i as int), query@),
        decreases tasks.len() - i,
    {
        let ghost before = stored_view(r@);
        assert(all.subrange(0, i + 1).drop_last() =~= all.subrange(0, i as int));
        assert(all.subrange(0, i + 1).last() == tasks@[i as int]@);
        let raw = chars_of(to_lower(tasks[i].task.raw.as_str()).as_str());
        if chars_include(&raw, &q) {
            r.push(tasks[i].duplicate());
            assert(stored_view(r@) =~= before.push(tasks@[i as int]@));
        }
        i = i + 1;
    }
    assert(all.subrange(0, tasks.len() as int) =~= all);
    r
}

/// `n` copies of two spaces.
pub open spec fn indent(n: nat) -> Seq<char>
    decreases n,
{
    if n == 0 {
        seq![]
    } else {
        indent((n - 1) as nat) + "  "@
    }
}

fn make_indent(n: usize) -> (r: String)
    ensures
        r@ == indent(n as nat),
{
    let mut r = String::new();
    let mut i: usize = 0;
    while i < n
        invariant
            i <= n,
            r@ == indent(i as nat),
        decreases n - i,
    {
        push_str(&mut r, "  ");
        i = i + 1;
    }
    r
}

pub open spec fn contains_path(collapsed: Seq<Seq<Seq<char>>>, p: Seq<Seq<char>>) -> bool {
    exists|i: int| 0 <= i < collapsed.len() && #[trigger] collapsed[i] == p
}

pub open spec fn paths_view(v: Seq<Vec<String>>) -> Seq<Seq<Seq<char>>> {
    v.map_values(|p: Vec<String>| strings_view(p@))
}

pub open spec fn lists_view(v: Seq<SmartList>) -> Seq<SmartListModel> {
    v.map_values(|l: SmartList| l@)
}

/// The label of a sidebar item.
pub open spec fn item_label(item: ItemModel, lists: Seq<SmartListModel>, collapsed: Seq<Seq<Seq<char>>>) -> Seq<char> {
    match item {
        ItemModel::SmartList(i) => if 0 <= i < lists.len() {
            let l = lists[i];
            indent(l.group_path.len()) + (match l.icon {
                Some(c) => c,
                None => "◆"@,
            }) + " "@ + l.name
        } else {
            "?"@
        },
        ItemModel::GroupHeader(p) => indent(if p.len() > 0 {
            (p.len() - 1) as nat
        } else {
            0
        }) + (if contains_path(collapsed, p) {
            "▶"@
        } else {
            "▼"@
        }) + " "@ + (if p.len() > 0 {
            p.last()
        } else {
            "Group"@
        }),
        ItemModel::Separator => "──────────────────────"@,
        ItemModel::ListsHeader => "LISTS"@,
        ItemModel::ProjectsHeader => "PROJECTS"@,
        ItemModel::Project(v) => "  "@ + v,
        ItemModel::ContextsHeader => "CONTEXTS"@,
        ItemModel::Context(v) => "  "@ + v,
    }
}

fn strings_eq(a: &Vec<String>, b: &Vec<String>) -> (r: bool)
    ensures
        r == (strings_view(a@) == strings_view(b@)),
{
    if a.len() != b.len() {
        assert(strings_view(a@).len() != strings_view(b@).len());
        return false;
    }
    let mut i: usize = 0;
    while i < a.len()
        invariant
            i <= a.len(),
            a.len() == b.len(),
            forall|k: int| 0 <= k < i ==> a@[k]@ == b@[k]@,
        decreases a.len() - i,
    {
        if !str_eq(a[i].as_str(), b[i].as_str()) {
            assert(strings_view(a@)[i as int] != strings_view(b@)[i as int]);
            return false;
        }
        i = i + 1;
    }
    assert(strings_view(a@) =~= strings_view(b@));
    true
}

/// Whether a group path is among the collapsed ones.
pub fn is_collapsed(collapsed: &[Vec<String>], p: &Vec<String>) -> (r: bool)
    ensures
        r == contains_path(paths_view(collapsed@), strings_view(p@)),
{
    let mut i: usize = 0;
    while i < collapsed.len()
        invariant
            i <= collapsed.len(),
            forall|k: int| 0 <= k < i ==> paths_view(collapsed@)[k] != strings_view(p@),
        decreases collapsed.len() - i,
    {
        if strings_eq(&collapsed[i], p) {
            assert(paths_view(collapsed@)[i as int] == strings_view(p@));
            return true;
        }
        i = i + 1;
    }
    false
}

/// The label of a sidebar item (see `item_label`).
pub fn sidebar_label(item: &SidebarItem, smart_lists: &[SmartList], collapsed_groups: &[Vec<String>]) -> (r: String)
    ensures
        r@ == item_label(item@, lists_view(smart_lists@), paths_view(collapsed_groups@)),
{
    match item {
        SidebarItem::SmartList(index) => {
            if *index < smart_lists.len() {
                let l = &smart_lists[*index];
                let mut r = make_indent(l.group_path.len());
                match &l.icon {
                    Some(c) => push_str(&mut r, c.as_str()),
                    None => push_str(&mut r, "◆"),
                }
                push_str(&mut r, " ");
                push_str(&mut r, l.name.as_str());
                assert(lists_view(smart_lists@)[*index as int] == l@);
                r
            } else {
                owned("?")
            }
        },
        SidebarItem::GroupHeader(path) => {
            let depth = if path.len() > 0 { path.len() - 1 } else { 0 };
            let mut r = make_indent(depth);
            if is_collapsed(collapsed_groups, path) {
                push_str(&mut r, "▶");
            } else {
                push_str(&mut r, "▼");
            }
            push_str(&mut r, " ");
            if path.len() > 0 {
                push_str(&mut r, path[path.len() - 1].as_str());
            } else {
                push_str(&mut r, "Group");
            }
            r
        },
        SidebarItem::Separator => owned("──────────────────────"),
        SidebarItem::ListsHeader => owned("LISTS"),
        SidebarItem::ProjectsHeader => owned("PROJECTS"),
        SidebarItem::Project(v) => {
            let mut r = owned("  ");
            push_str(&mut r, v.as_str());
            r
        },
        SidebarItem::ContextsHeader => owned("CONTEXTS"),
        SidebarItem::Context(v) => {
            let mut r = owned("  ");
            push_str(&mut r, v.as_str());
            r
        },
    }
}

/// The title of the task pane for a sidebar item.
pub open spec fn filter_title(item: ItemModel, lists: Seq<SmartListModel>) -> Seq<char> {
    match item {
        ItemModel::SmartList(i) => if 0 <= i < lists.len() {
            lists[i].name
        } else {
            "Unknown"@
        },
        ItemModel::GroupHeader(p) => if p.len() > 0 {
            p.last()
        } else {
            "Group"@
        },
        ItemModel::Project(v) => v,
        ItemModel::Context(v) => v,
        ItemModel::ListsHeader => "Lists"@,
        ItemModel::ProjectsHeader => "Projects"@,
        ItemModel::ContextsHeader => "Contexts"@,
        ItemModel::Separator => "Filters"@,
    }
}

/// The title of the task pane (see `filter_title`).
pub fn active_filter_title(item: &SidebarItem, smart_lists: &[SmartList]) -> (r: String)
    ensures
        r@ == filter_title(item@, lists_view(smart_lists@)),
{
    match item {
        SidebarItem::SmartList(index) => if *index < smart_lists.len() {
            assert(lists_view(smart_lists@)[*index as int] == smart_lists@[*index as int]@);
            smart_lists[*index].name.clone()
        } else {
            owned("Unknown")
        },
        SidebarItem::GroupHeader(path) => if path.len() > 0 {
            path[path.len() - 1].clone()
        } else {
            owned("Group")
        },
        SidebarItem::Project(v) => v.clone(),
        SidebarItem::Context(v) => v.clone(),
        SidebarItem::ListsHeader => owned("Lists"),
        SidebarItem::ProjectsHeader => owned("Projects"),
        SidebarItem::ContextsHeader => owned("Contexts"),
        SidebarItem::Separator => owned("Filters"),
    }
}

/// Orders stored tasks by the default task order on `today`.
pub struct StoredTaskOrderer<'a> {
    pub today: &'a str,
}

impl<'a> Orderer<StoredTask> for StoredTaskOrderer<'a> {
    open spec fn spec_order(&self, a: StoredTask, b: StoredTask) -> Order3 {
        task_order(a.task@, b.task@, self.today@)
    }

    proof fn lemma_flip(&self, a: StoredTask, b: StoredTask) {
        lemma_task_order_flip(a.task@, b.task@, self.today@);
    }

    fn order(&self, a: &StoredTask, b: &StoredTask) -> (r: Order3) {
        crate::query::compare_tasks(&a.task, &b.task, self.today)
    }
}

/// All tasks of a snapshot: open, then done.
pub open spec fn all_tasks(s: Snapshot) -> Seq<StoredModel> {
    stored_view(s.open_tasks@) + stored_view(s.done_tasks@)
}

/// `o` holds the tasks of `all` in the default order on `today`.
pub open spec fn in_default_order(o: Seq<StoredModel>, all: Seq<StoredModel>, today: Seq<char>) -> bool {
    &&& o.to_multiset() == all.to_multiset()
    &&& forall|i: int| 0 <= i < o.len() - 1 ==> task_order(o[i].task, #[trigger] o[i + 1].task, today) != Order3::Greater
}

fn all_of(snapshot: &Snapshot) -> (r: Vec<StoredTask>)
    ensures
        stored_view(r@) == all_tasks(*snapshot),
{
    let mut r = duplicate_all(snapshot.open_tasks.as_slice());
    let d = duplicate_all(snapshot.done_tasks.as_slice());
    let ghost head = stored_view(r@);
    let mut i: usize = 0;
    while i < d.len()
        invariant
            i <= d.len(),
            stored_view(r@) == head + stored_view(d@).subrange(0, i as int),
        decreases d.len() - i,
    {
        let ghost before = stored_view(r@);
        r.push(d[i].duplicate());
        assert(stored_view(r@) =~= before.push(d@[i as int]@));
        i = i + 1;
        assert(stored_view(r@) =~= head + stored_view(d@).subrange(0, i as int));
    }
    assert(stored_view(d@).subrange(0, d.len() as int) =~= stored_view(d@));
    r
}

/// All tasks of the snapshot in the default order on `today`.
pub fn ordered_tasks(snapshot: &Snapshot, today: &str) -> (r: Vec<StoredTask>)
    ensures
        in_default_order(stored_view(r@), all_tasks(*snapshot), today@),
{
    let mut tasks = all_of(snapshot);
    let ghost unsorted = tasks@;
    let o = StoredTaskOrderer { today };
    sort_by(&mut tasks, &o);
    proof {
        lemma_map_multiset(tasks@, unsorted, |s: StoredTask| s@);
        assert forall|i: int| 0 <= i < stored_view(tasks@).len() - 1 implies task_order(
            stored_view(tasks@)[i].task,
            #[trigger] stored_view(tasks@)[i + 1].task,
            today@,
        ) != Order3::Greater by {
            assert(o.spec_order(tasks@[i], tasks@[i + 1]) != Order3::Greater);
        }
    }
    tasks
}

/// The name of a project or context item without its `+` or `@` mark.
pub open spec fn unmarked(v: Seq<char>, mark: char) -> Seq<char> {
    if v.len() > 0 && v[0] == mark {
        v.drop_first()
    } else {
        v
    }
}

/// The tasks of `s` that list `name` among `projects` (or, with
/// `contexts`, among their contexts).
pub open spec fn tagged_with(s: Seq<StoredModel>, name: Seq<char>, contexts: bool) -> Seq<StoredModel>
    decreases s.len(),
{
    if s.len() == 0 {
        seq![]
    } else {
        let rest = tagged_with(s.drop_last(), name, contexts);
        let items = if contexts {
            s.last().task.contexts
        } else {
            s.last().task.projects
        };
        if items.contains(name) {
            rest.push(s.last())
        } else {
            rest
        }
    }
}

fn strings_contain(items: &Vec<String>, name: &Vec<char>) -> (r: bool)
    ensures
        r == strings_view(items@).contains(name@),
{
    let mut i: usize = 0;
    while i < items.len()
        invariant
            i <= items.len(),
            forall|k: int| 0 <= k < i ==> strings_view(items@)[k] != name@,
        decreases items.len() - i,
    {
        if crate::text::chars_eq(&chars_of(items[i].as_str()), name) {
            assert(strings_view(items@)[i as int] == name@);
            return true;
        }
        i = i + 1;
    }
    false
}

fn keep_tagged(tasks: &Vec<StoredTask>, name: &Vec<char>, contexts: bool) -> (r: Vec<StoredTask>)
    ensures
        stored_view(r@) == tagged_with(stored_view(tasks@), name@, contexts),
{
    let ghost all = stored_view(tasks@);
    let mut r: Vec<StoredTask> = Vec::new();
    let mut i: usize = 0;
    while i < tasks.len()
        invariant
            i <= tasks.len(),
            all == stored_view(tasks@),
            stored_view(r@) == tagged_with(all.subrange(0, i as int), name@, contexts),
        decreases tasks.len() - i,
    {
        let ghost before = stored_view(r@);
        assert(all.subrange(0, i + 1).drop_last() =~= all.subrange(0, i as int));
        assert(all.subrange(0, i + 1).last() == tasks@[i as int]@);
        let found = if contexts {
            strings_contain(&tasks[i].task.contexts, name)
        } else {
            strings_contain(&tasks[i].task.projects, name)
        };
        if found {
            r.push(tasks[i].duplicate());
            assert(stored_view(r@) =~= before.push(tasks@[i as int]@));
        }
        i = i + 1;
    }
    assert(all.subrange(0, tasks.len() as int) =~= all);
    r
}

fn without_mark(v: &String, mark: char) -> (r: Vec<char>)
    ensures
        r@ == unmarked(v@, mark),
{
    let c = chars_of(v.as_str());
    if c.len() > 0 && c[0] == mark {
        let r = crate::text::slice_of(&c, 1, c.len());
        assert(r@ =~= c@.drop_first());
        r
    } else {
        c
    }
}

/// Whether a smart list needs the done tasks too: when it filters on done.
pub fn needs_done_tasks(list: &SmartList) -> (r: bool)
    ensures
        r == blocks_have_done_filter(list@.blocks),
{
    has_done_filter(list)
}

/// The snapshot's tasks can be matched on `today` against the list that
/// `item` selects.
pub open spec fn item_dates_ok(item: ItemModel, lists: Seq<SmartListModel>, today: Seq<char>, s: Snapshot) -> bool {
    match item {
        ItemModel::SmartList(i) => 0 <= i < lists.len() ==> tasks_evaluable(lists[i].blocks, all_tasks(s), today),
        _ => true,
    }
}

/// The tasks that a sidebar item shows, before search and sorting: a smart
/// list's matches (none when the list failed to parse), a project's or a
/// context's tasks in the default order, and nothing for headers.
pub open spec fn shown_tasks(
    s: Snapshot,
    item: ItemModel,
    today: Seq<char>,
    lists: Seq<SmartListModel>,
    ordered: Seq<StoredModel>,
) -> Seq<StoredModel> {
    match item {
        ItemModel::SmartList(i) => if 0 <= i < lists.len() {
            if lists[i].parse_error is Some {
                seq![]
            } else {
                select_matching(lists[i].blocks, if blocks_have_done_filter(lists[i].blocks) {
                    all_tasks(s)
                } else {
                    stored_view(s.open_tasks@)
                }, today)
            }
        } else {
            seq![]
        },
        ItemModel::Project(p) => tagged_with(ordered, unmarked(p, '+'), false),
        ItemModel::Context(c) => tagged_with(ordered, unmarked(c, '@'), true),
        _ => seq![],
    }
}

/// The tasks that a sidebar item shows (see `shown_tasks`; `ordered` stands
/// for the snapshot's tasks in the default order).
pub fn filter_snapshot(snapshot: &Snapshot, active: &SidebarItem, today: &str, smart_lists: &[SmartList]) -> (r: Vec<StoredTask>)
    requires
        item_dates_ok(active@, lists_view(smart_lists@), today@, *snapshot),
    ensures
        exists|ordered: Seq<StoredModel>| #![trigger in_default_order(ordered, all_tasks(*snapshot), today@)]
            in_default_order(ordered, all_tasks(*snapshot), today@) && stored_view(r@) == shown_tasks(
                *snapshot,
                active@,
                today@,
                lists_view(smart_lists@),
                ordered,
            ),
{
    let ghost dummy = all_tasks(*snapshot);
    match active {
        SidebarItem::SmartList(index) => {
            let o = ordered_tasks(snapshot, today);
            let ghost ov = stored_view(o@);
            if *index < smart_lists.len() {
                let l = &smart_lists[*index];
                assert(lists_view(smart_lists@)[*index as int] == l@);
                if l.parse_error.is_some() {
                    let r: Vec<StoredTask> = Vec::new();
                    assert(stored_view(r@) =~= Seq::<StoredModel>::empty());
                    return r;
                }
                let all = if needs_done_tasks(l) {
                    all_of(snapshot)
                } else {
                    let open = duplicate_all(snapshot.open_tasks.as_slice());
                    proof {
                        let whole = all_tasks(*snapshot);
                        assert forall|k: int| 0 <= k < stored_view(open@).len() implies task_evaluable(
                            l@.blocks,
                            #[trigger] stored_view(open@)[k].task,
                            today@,
                        ) by {
                            assert(whole[k] == stored_view(open@)[k]);
                        }
                    }
                    open
                };
                filter_only(l, all.as_slice(), today)
            } else {
                let r: Vec<StoredTask> = Vec::new();
                assert(stored_view(r@) =~= Seq::<StoredModel>::empty());
                r
            }
        },
        SidebarItem::Project(p) => {
            let o = ordered_tasks(snapshot, today);
            keep_tagged(&o, &without_mark(p, '+'), false)
        },
        SidebarItem::Context(c) => {
            let o = ordered_tasks(snapshot, today);
            keep_tagged(&o, &without_mark(c, '@'), true)
        },
        _ => {
            let o = ordered_tasks(snapshot, today);
            let r: Vec<StoredTask> = Vec::new();
            assert(stored_view(r@) =~= Seq::<StoredModel>::empty());
            r
        },
    }
}

// -- Sorted sets of names and of group paths ----------------------------------

/// Strictly ascending names.
pub open spec fn names_ascending(s: Seq<Seq<char>>) -> bool {
    forall|i: int, j: int| 0 <= i < j < s.len() ==> lex_order(#[trigger] s[i], #[trigger] s[j]) == Order3::Less
}

/// Adds a name to a strictly ascending list of names, keeping it so.
fn insert_name(v: &mut Vec<String>, x: String)
    requires
        names_ascending(strings_view(old(v)@)),
    ensures
        names_ascending(strings_view(final(v)@)),
        forall|y: Seq<char>| strings_view(final(v)@).contains(y) <==> (strings_view(old(v)@).contains(y) || y == x@),
{
    let ghost s0 = strings_view(v@);
    let mut p: usize = 0;
    while p < v.len() && str_order(v[p].as_str(), x.as_str()) == Order3::Less
        invariant
            p <= v.len(),
            s0 == strings_view(v@),
            forall|a: int| 0 <= a < p ==> lex_order(#[trigger] s0[a], x@) == Order3::Less,
        decreases v.len() - p,
    {
        assert(s0[p as int] == v@[p as int]@);
        p = p + 1;
    }
    if p < v.len() && str_eq(v[p].as_str(), x.as_str()) {
        assert(s0[p as int] == x@);
        return;
    }
    let ghost xv = x@;
    proof {
        if p < v.len() {
            assert(s0[p as int] == v@[p as int]@);
            lemma_lex_order_equal(s0[p as int], xv);
            lemma_lex_order_flip(s0[p as int], xv);
        }
        assert forall|m: int| p <= m < s0.len() implies lex_order(xv, #[trigger] s0[m]) == Order3::Less by {
            if m > p {
                lemma_lex_order_trans(xv, s0[p as int], s0[m]);
            }
        }
    }
    v.insert(p, x);
    proof {
        let s1 = strings_view(v@);
        assert(s1 =~= s0.insert(p as int, xv));
        assert forall|i: int, j: int| 0 <= i < j < s1.len() implies lex_order(#[trigger] s1[i], #[trigger] s1[j]) == Order3::Less by {
            if j < p {
            } else if j == p {
            } else if i < p {
                lemma_lex_order_trans(s0[i], xv, s0[j - 1]);
            } else if i == p {
            } else {
                assert(s1[i] == s0[i - 1] && s1[j] == s0[j - 1]);
            }
        }
        assert forall|y: Seq<char>| s1.contains(y) <==> (s0.contains(y) || y == xv) by {
            if s0.contains(y) {
                let k = choose|k: int| 0 <= k < s0.len() && s0[k] == y;
                if k < p {
                    assert(s1[k] == y);
                } else {
                    assert(s1[k + 1] == y);
                }
            }
            if y == xv {
                assert(s1[p as int] == y);
            }
            if s1.contains(y) {
                let k = choose|k: int| 0 <= k < s1.len() && s1[k] == y;
                if k < p {
                    assert(s0[k] == y);
                } else if k > p {
                    assert(s0[k - 1] == y);
                }
            }
        }
    }
}

/// Group paths ordered element by element, a path before its extensions.
pub open spec fn path_order(a: Seq<Seq<char>>, b: Seq<Seq<char>>) -> Order3
    decreases a.len(),
{
    if a.len() == 0 {
        if b.len() == 0 {
            Order3::Equal
        } else {
            Order3::Less
        }
    } else if b.len() == 0 {
        Order3::Greater
    } else if lex_order(a[0], b[0]) != Order3::Equal {
        lex_order(a[0], b[0])
    } else {
        path_order(a.drop_first(), b.drop_first())
    }
}

pub proof fn lemma_path_order_flip(a: Seq<Seq<char>>, b: Seq<Seq<char>>)
    ensures
        path_order(b, a) == path_order(a, b).flip(),
    decreases a.len(),
{
    if a.len() > 0 && b.len() > 0 {
        lemma_lex_order_flip(a[0], b[0]);
        lemma_path_order_flip(a.drop_first(), b.drop_first());
    }
}

proof fn lemma_path_order_equal(a: Seq<Seq<char>>, b: Seq<Seq<char>>)
    ensures
        (path_order(a, b) == Order3::Equal) == (a == b),
    decreases a.len(),
{
    if a.len() > 0 && b.len() > 0 {
        lemma_lex_order_equal(a[0], b[0]);
        lemma_path_order_equal(a.drop_first(), b.drop_first());
        if a[0] == b[0] && a.drop_first() == b.drop_first() {
            assert(a =~= seq![a[0]] + a.drop_first());
            assert(b =~= seq![b[0]] + b.drop_first());
        }
        if a == b {
            assert(a.drop_first() =~= b.drop_first());
        }
    } else if a.len() == 0 && b.len() == 0 {
        assert(a =~= b);
    }
}

proof fn lemma_path_order_trans(a: Seq<Seq<char>>, b: Seq<Seq<char>>, c: Seq<Seq<char>>)
    requires
        path_order(a, b) == Order3::Less,
        path_order(b, c) == Order3::Less,
    ensures
        path_order(a, c) == Order3::Less,
    decreases a.len(),
{
    if a.len() > 0 && b.len() > 0 && c.len() > 0 {
        lemma_lex_order_equal(a[0], b[0]);
        lemma_lex_order_equal(b[0], c[0]);
        lemma_lex_order_equal(a[0], c[0]);
        if lex_order(a[0], b[0]) == Order3::Less && lex_order(b[0], c[0]) == Order3::Less {
            lemma_lex_order_trans(a[0], b[0], c[0]);
        } else if lex_order(a[0], b[0]) == Order3::Equal && lex_order(b[0], c[0]) == Order3::Equal {
            lemma_path_order_trans(a.drop_first(), b.drop_first(), c.drop_first());
        }
    }
}

/// Strictly ascending group paths.
pub open spec fn paths_ascending(s: Seq<Seq<Seq<char>>>) -> bool {
    forall|i: int, j: int| 0 <= i < j < s.len() ==> path_order(#[trigger] s[i], #[trigger] s[j]) == Order3::Less
}

pub fn compare_paths(a: &Vec<String>, b: &Vec<String>) -> (r: Order3)
    ensures
        r == path_order(strings_view(a@), strings_view(b@)),
{
    let ghost av = strings_view(a@);
    let ghost bv = strings_view(b@);
    let mut i: usize = 0;
    assert(av.skip(0) =~= av);
    assert(bv.skip(0) =~= bv);
    while i < a.len() && i < b.len()
        invariant
            i <= a.len(),
            i <= b.len(),
            av == strings_view(a@),
            bv == strings_view(b@),
            path_order(av, bv) == path_order(av.skip(i as int), bv.skip(i as int)),
        decreases a.len() - i,
    {
        let o = str_order(a[i].as_str(), b[i].as_str());
        assert(av.skip(i as int)[0] == a@[i as int]@);
        assert(bv.skip(i as int)[0] == b@[i as int]@);
        if o != Order3::Equal {
            return o;
        }
        assert(av.skip(i as int).drop_first() =~= av.skip(i + 1));
        assert(bv.skip(i as int).drop_first() =~= bv.skip(i + 1));
        i = i + 1;
    }
    if i == a.len() {
        if i == b.len() {
            Order3::Equal
        } else {
            Order3::Less
        }
    } else {
        Order3::Greater
    }
}

/// Adds a group path to a strictly ascending list of paths, keeping it so.
fn insert_path(v: &mut Vec<Vec<String>>, x: Vec<String>)
    requires
        paths_ascending(paths_view(old(v)@)),
    ensures
        paths_ascending(paths_view(final(v)@)),
        forall|y: Seq<Seq<char>>| paths_view(final(v)@).contains(y) <==> (paths_view(old(v)@).contains(y) || y == strings_view(x@)),
{
    let ghost s0 = paths_view(v@);
    let ghost xv = strings_view(x@);
    let mut p: usize = 0;
    while p < v.len() && compare_paths(&v[p], &x) == Order3::Less
        invariant
            p <= v.len(),
            s0 == paths_view(v@),
            xv == strings_view(x@),
            forall|a: int| 0 <= a < p ==> path_order(#[trigger] s0[a], xv) == Order3::Less,
        decreases v.len() - p,
    {
        assert(s0[p as int] == strings_view(v@[p as int]@));
        p = p + 1;
    }
    if p < v.len() && compare_paths(&v[p], &x) == Order3::Equal {
        proof {
            assert(s0[p as int] == strings_view(v@[p as int]@));
            lemma_path_order_equal(s0[p as int], xv);
        }
        return;
    }
    proof {
        if p < v.len() {
            assert(s0[p as int] == strings_view(v@[p as int]@));
            lemma_path_order_equal(s0[p as int], xv);
            lemma_path_order_flip(s0[p as int], xv);
        }
        assert forall|m: int| p <= m < s0.len() implies path_order(xv, #[trigger] s0[m]) == Order3::Less by {
            if m > p {
                lemma_path_order_trans(xv, s0[p as int], s0[m]);
            }
        }
    }
    v.insert(p, x);
    proof {
        let s1 = paths_view(v@);
        assert(s1 =~= s0.insert(p as int, xv));
        assert forall|i: int, j: int| 0 <= i < j < s1.len() implies path_order(#[trigger] s1[i], #[trigger] s1[j]) == Order3::Less by {
            if j < p {
            } else if j == p {
            } else if i < p {
                lemma_path_order_trans(s0[i], xv, s0[j - 1]);
            } else if i == p {
            } else {
                assert(s1[i] == s0[i - 1] && s1[j] == s0[j - 1]);
            }
        }
        assert forall|y: Seq<Seq<char>>| s1.contains(y) <==> (s0.contains(y) || y == xv) by {
            if s0.contains(y) {
                let k = choose|k: int| 0 <= k < s0.len() && s0[k] == y;
                if k < p {
                    assert(s1[k] == y);
                } else {
                    assert(s1[k + 1] == y);
                }
            }
            if y == xv {
                assert(s1[p as int] == y);
            }
            if s1.contains(y) {
                let k = choose|k: int| 0 <= k < s1.len() && s1[k] == y;
                if k < p {
                    assert(s0[k] == y);
                } else if k > p {
                    assert(s0[k - 1] == y);
                }
            }
        }
    }
}

// -- The sidebar --------------------------------------------------------------

/// The lists without a group, in order.
pub open spec fn root_lists(lists: Seq<SmartListModel>) -> Seq<ItemModel>
    decreases lists.len(),
{
    if lists.len() == 0 {
        seq![]
    } else {
        let r = root_lists(lists.drop_last());
        if lists.last().group_path.len() == 0 {
            r.push(ItemModel::SmartList(lists.len() - 1))
        } else {
            r
        }
    }
}

/// The lists whose group is exactly `p`, in order.
pub open spec fn lists_in(lists: Seq<SmartListModel>, p: Seq<Seq<char>>) -> Seq<ItemModel>
    decreases lists.len(),
{
    if lists.len() == 0 {
        seq![]
    } else {
        let r = lists_in(lists.drop_last(), p);
        if lists.last().group_path == p {
            r.push(ItemModel::SmartList(lists.len() - 1))
        } else {
            r
        }
    }
}

/// `y` is a non-empty prefix of the list's group path.
pub open spec fn group_prefix_of(l: SmartListModel, y: Seq<Seq<char>>) -> bool {
    0 < y.len() <= l.group_path.len() && l.group_path.subrange(0, y.len() as int) == y
}

/// `y` is a non-empty prefix of some list's group path.
pub open spec fn is_group_prefix(lists: Seq<SmartListModel>, y: Seq<Seq<char>>) -> bool {
    exists|i: int| 0 <= i < lists.len() && group_prefix_of(#[trigger] lists[i], y)
}

/// Some proper ancestor of the group is collapsed.
pub open spec fn ancestor_collapsed(p: Seq<Seq<char>>, collapsed: Seq<Seq<Seq<char>>>) -> bool {
    exists|d: int| 1 <= d < p.len() && contains_path(collapsed, #[trigger] p.subrange(0, d))
}

/// The group section: each group not hidden by a collapsed ancestor, with
/// its lists unless it is collapsed itself.
pub open spec fn group_entries(lists: Seq<SmartListModel>, prefixes: Seq<Seq<Seq<char>>>, collapsed: Seq<Seq<Seq<char>>>) -> Seq<ItemModel>
    decreases prefixes.len(),
{
    if prefixes.len() == 0 {
        seq![]
    } else {
        let r = group_entries(lists, prefixes.drop_last(), collapsed);
        let p = prefixes.last();
        if ancestor_collapsed(p, collapsed) {
            r
        } else if contains_path(collapsed, p) {
            r.push(ItemModel::GroupHeader(p))
        } else {
            r.push(ItemModel::GroupHeader(p)) + lists_in(lists, p)
        }
    }
}

/// The projects (or, with `contexts`, the contexts) of a task.
pub open spec fn names_of(t: StoredModel, contexts: bool) -> Seq<Seq<char>> {
    if contexts {
        t.task.contexts
    } else {
        t.task.projects
    }
}

/// The character that marks a project (`+`) or a context (`@`).
pub open spec fn mark_of(contexts: bool) -> char {
    if contexts {
        '@'
    } else {
        '+'
    }
}

/// `n` is the mark followed by a project (or, with `contexts`, a context)
/// of one of the tasks.
pub open spec fn is_marked_name(all: Seq<StoredModel>, n: Seq<char>, contexts: bool) -> bool {
    exists|i: int, j: int|
        0 <= i < all.len() && 0 <= j < names_of(all[i], contexts).len() && n == seq![mark_of(contexts)]
            + #[trigger] names_of(all[i], contexts)[j]
}

pub open spec fn project_items(v: Seq<Seq<char>>) -> Seq<ItemModel> {
    v.map_values(|n: Seq<char>| ItemModel::Project(n))
}

pub open spec fn context_items(v: Seq<Seq<char>>) -> Seq<ItemModel> {
    v.map_values(|n: Seq<char>| ItemModel::Context(n))
}

/// The sidebar for given sorted group paths, projects and contexts.
pub open spec fn sidebar_of(
    lists: Seq<SmartListModel>,
    prefixes: Seq<Seq<Seq<char>>>,
    projects: Seq<Seq<char>>,
    contexts: Seq<Seq<char>>,
    collapsed: Seq<Seq<Seq<char>>>,
) -> Seq<ItemModel> {
    let head = root_lists(lists) + if prefixes.len() > 0 {
        seq![ItemModel::Separator, ItemModel::ListsHeader] + group_entries(lists, prefixes, collapsed)
    } else {
        seq![]
    };
    head + (if head.len() > 0 {
        seq![ItemModel::Separator]
    } else {
        seq![]
    }) + seq![ItemModel::ProjectsHeader] + project_items(projects) + seq![ItemModel::Separator, ItemModel::ContextsHeader]
        + context_items(contexts)
}

/// The sidebar: the lists without a group; then, when there are groups,
/// every group path (ascending) with its lists, as far as collapsing shows
/// them; then the projects and the contexts of all tasks, each distinct and
/// ascending.
pub open spec fn is_sidebar(
    items: Seq<ItemModel>,
    lists: Seq<SmartListModel>,
    all: Seq<StoredModel>,
    collapsed: Seq<Seq<Seq<char>>>,
) -> bool {
    exists|prefixes: Seq<Seq<Seq<char>>>, projects: Seq<Seq<char>>, contexts: Seq<Seq<char>>|
        #![trigger sidebar_of(lists, prefixes, projects, contexts, collapsed)]
        {
            &&& paths_ascending(prefixes)
            &&& (forall|y: Seq<Seq<char>>| prefixes.contains(y) <==> is_group_prefix(lists, y))
            &&& names_ascending(projects)
            &&& (forall|y: Seq<char>| projects.contains(y) <==> is_marked_name(all, y, false))
            &&& names_ascending(contexts)
            &&& (forall|y: Seq<char>| contexts.contains(y) <==> is_marked_name(all, y, true))
            &&& items == sidebar_of(lists, prefixes, projects, contexts, collapsed)
        }
}

fn prefix_of(p: &Vec<String>, d: usize) -> (r: Vec<String>)
    requires
        d <= p.len(),
    ensures
        strings_view(r@) == strings_view(p@).subrange(0, d as int),
{
    let mut r: Vec<String> = Vec::new();
    let mut i: usize = 0;
    while i < d
        invariant
            i <= d <= p.len(),
            r.len() == i,
            forall|j: int| 0 <= j < i ==> r@[j]@ == p@[j]@,
        decreases d - i,
    {
        r.push(p[i].clone());
        i = i + 1;
    }
    assert(strings_view(r@) =~= strings_view(p@).subrange(0, d as int));
    r
}

fn collect_prefixes(lists: &[SmartList]) -> (r: Vec<Vec<String>>)
    ensures
        paths_ascending(paths_view(r@)),
        forall|y: Seq<Seq<char>>| paths_view(r@).contains(y) <==> is_group_prefix(lists_view(lists@), y),
{
    let ghost lv = lists_view(lists@);
    let mut r: Vec<Vec<String>> = Vec::new();
    let mut i: usize = 0;
    while i < lists.len()
        invariant
            i <= lists.len(),
            lv == lists_view(lists@),
            paths_ascending(paths_view(r@)),
            forall|y: Seq<Seq<char>>| paths_view(r@).contains(y) <==> exists|k: int| 0 <= k < i && group_prefix_of(#[trigger] lv[k], y),
        decreases lists.len() - i,
    {
        let gp = &lists[i].group_path;
        assert(lv[i as int].group_path == strings_view(gp@));
        let mut d: usize = 0;
        while d < gp.len()
            invariant
                d <= gp.len(),
                i < lists.len(),
                lv == lists_view(lists@),
                gp == lists@[i as int].group_path,
                lv[i as int].group_path == strings_view(gp@),
                paths_ascending(paths_view(r@)),
                forall|y: Seq<Seq<char>>| paths_view(r@).contains(y) <==> ((exists|k: int| 0 <= k < i && group_prefix_of(#[trigger] lv[k], y))
                    || (0 < y.len() <= d && strings_view(gp@).subrange(0, y.len() as int) == y)),
            decreases gp.len() - d,
        {
            let x = prefix_of(gp, d + 1);
            insert_path(&mut r, x);
            d = d + 1;
        }
        proof {
            assert forall|y: Seq<Seq<char>>| paths_view(r@).contains(y) <==> exists|k: int| 0 <= k < i + 1 && group_prefix_of(#[trigger] lv[k], y) by {
                if group_prefix_of(lv[i as int], y) {
                    assert(0 < y.len() <= d);
                }
            }
        }
        i = i + 1;
    }
    r
}

/// The marked projects (or contexts) of the tasks, distinct and ascending.
fn collect_names(all: &Vec<StoredTask>, contexts: bool) -> (r: Vec<String>)
    ensures
        names_ascending(strings_view(r@)),
        forall|y: Seq<char>| strings_view(r@).contains(y) <==> is_marked_name(stored_view(all@), y, contexts),
{
    let ghost av = stored_view(all@);
    let mark = if contexts { '@' } else { '+' };
    let mut r: Vec<String> = Vec::new();
    let mut i: usize = 0;
    while i < all.len()
        invariant
            i <= all.len(),
            av == stored_view(all@),
            mark == mark_of(contexts),
            names_ascending(strings_view(r@)),
            forall|y: Seq<char>| strings_view(r@).contains(y) <==> is_marked_name(av.subrange(0, i as int), y, contexts),
        decreases all.len() - i,
    {
        let names = if contexts {
            &all[i].task.contexts
        } else {
            &all[i].task.projects
        };
        let ghost nv = strings_view(names@);
        assert(nv == names_of(av[i as int], contexts));
        let mut j: usize = 0;
        while j < names.len()
            invariant
                j <= names.len(),
                i < all.len(),
                av == stored_view(all@),
                mark == mark_of(contexts),
                nv == strings_view(names@),
                nv == names_of(av[i as int], contexts),
                names_ascending(strings_view(r@)),
                forall|y: Seq<char>| strings_view(r@).contains(y) <==> (is_marked_name(av.subrange(0, i as int), y, contexts)
                    || exists|k: int| 0 <= k < j && y == seq![mark] + #[trigger] nv[k]),
            decreases names.len() - j,
        {
            let mut t = String::new();
            crate::text::push_char(&mut t, mark);
            push_str(&mut t, names[j].as_str());
            let ghost tv = t@;
            assert(tv == seq![mark] + nv[j as int]);
            insert_name(&mut r, t);
            proof {
                assert forall|y: Seq<char>| strings_view(r@).contains(y) <==> (is_marked_name(av.subrange(0, i as int), y, contexts)
                    || exists|k: int| 0 <= k < j + 1 && y == seq![mark] + #[trigger] nv[k]) by {
                    if y == tv {
                        assert(y == seq![mark] + nv[j as int]);
                    }
                    if exists|k: int| 0 <= k < j + 1 && y == seq![mark] + #[trigger] nv[k] {
                        let k = choose|k: int| 0 <= k < j + 1 && y == seq![mark] + #[trigger] nv[k];
                        if k < j {
                        } else {
                            assert(y == tv);
                        }
                    }
                }
            }
            j = j + 1;
        }
        proof {
            let sub = av.subrange(0, i as int);
            let sub1 = av.subrange(0, i + 1);
            assert forall|y: Seq<char>| strings_view(r@).contains(y) <==> is_marked_name(sub1, y, contexts) by {
                if is_marked_name(sub1, y, contexts) {
                    let (a, b) = choose|a: int, b: int|
                        0 <= a < sub1.len() && 0 <= b < names_of(sub1[a], contexts).len() && y == seq![mark_of(contexts)]
                            + #[trigger] names_of(sub1[a], contexts)[b];
                    if a < i {
                        assert(sub[a] == sub1[a]);
                        assert(is_marked_name(sub, y, contexts));
                    } else {
                        assert(sub1[a] == av[i as int]);
                        assert(y == seq![mark] + nv[b]);
                    }
                }
                if is_marked_name(sub, y, contexts) {
                    let (a, b) = choose|a: int, b: int|
                        0 <= a < sub.len() && 0 <= b < names_of(sub[a], contexts).len() && y == seq![mark_of(contexts)]
                            + #[trigger] names_of(sub[a], contexts)[b];
                    assert(sub1[a] == sub[a]);
                    assert(is_marked_name(sub1, y, contexts));
                }
                if exists|k: int| 0 <= k < nv.len() && y == seq![mark] + #[trigger] nv[k] {
                    let k = choose|k: int| 0 <= k < nv.len() && y == seq![mark] + #[trigger] nv[k];
                    assert(sub1[i as int] == av[i as int]);
                    assert(is_marked_name(sub1, y, contexts));
                }
            }
        }
        i = i + 1;
    }
    assert(av.subrange(0, all.len() as int) =~= av);
    r
}

fn push_item(items: &mut Vec<SidebarItem>, it: SidebarItem)
    ensures
        items_view(final(items)@) == items_view(old(items)@).push(it@),
{
    items.push(it);
    assert(items_view(items@) =~= items_view(old(items)@).push(it@));
}

fn push_root_lists(items: &mut Vec<SidebarItem>, lists: &[SmartList])
    ensures
        items_view(final(items)@) == items_view(old(items)@) + root_lists(lists_view(lists@)),
{
    let ghost base = items_view(items@);
    let ghost lv = lists_view(lists@);
    let mut i: usize = 0;
    while i < lists.len()
        invariant
            i <= lists.len(),
            lv == lists_view(lists@),
            items_view(items@) == base + root_lists(lv.subrange(0, i as int)),
        decreases lists.len() - i,
    {
        assert(lv[i as int].group_path.len() == lists@[i as int].group_path@.len());
        if lists[i].group_path.len() == 0 {
            push_item(items, SidebarItem::SmartList(i));
        }
        assert(lv.subrange(0, i + 1).drop_last() =~= lv.subrange(0, i as int));
        i = i + 1;
        assert(items_view(items@) =~= base + root_lists(lv.subrange(0, i as int)));
    }
    assert(lv.subrange(0, lists.len() as int) =~= lv);
}

fn push_lists_in(items: &mut Vec<SidebarItem>, lists: &[SmartList], p: &Vec<String>)
    ensures
        items_view(final(items)@) == items_view(old(items)@) + lists_in(lists_view(lists@), strings_view(p@)),
{
    let ghost base = items_view(items@);
    let ghost lv = lists_view(lists@);
    let ghost pv = strings_view(p@);
    let mut i: usize = 0;
    while i < lists.len()
        invariant
            i <= lists.len(),
            lv == lists_view(lists@),
            pv == strings_view(p@),
            items_view(items@) == base + lists_in(lv.subrange(0, i as int), pv),
        decreases lists.len() - i,
    {
        if strings_eq(&lists[i].group_path, p) {
            push_item(items, SidebarItem::SmartList(i));
        }
        assert(lv.subrange(0, i + 1).drop_last() =~= lv.subrange(0, i as int));
        i = i + 1;
        assert(items_view(items@) =~= base + lists_in(lv.subrange(0, i as int), pv));
    }
    assert(lv.subrange(0, lists.len() as int) =~= lv);
}

fn has_collapsed_ancestor(p: &Vec<String>, collapsed: &[Vec<String>]) -> (r: bool)
    ensures
        r == ancestor_collapsed(strings_view(p@), paths_view(collapsed@)),
{
    let ghost pv = strings_view(p@);
    let ghost cv = paths_view(collapsed@);
    if p.len() == 0 {
        return false;
    }
    let mut d: usize = 1;
    while d < p.len()
        invariant
            1 <= d <= p.len(),
            pv == strings_view(p@),
            cv == paths_view(collapsed@),
            forall|e: int| 1 <= e < d ==> !contains_path(cv, #[trigger] pv.subrange(0, e)),
        decreases p.len() - d,
    {
        let x = prefix_of(p, d);
        if is_collapsed(collapsed, &x) {
            assert(contains_path(cv, pv.subrange(0, d as int)));
            return true;
        }
        d = d + 1;
    }
    false
}

fn push_group_entries(items: &mut Vec<SidebarItem>, lists: &[SmartList], prefixes: &Vec<Vec<String>>, collapsed: &[Vec<String>])
    ensures
        items_view(final(items)@) == items_view(old(items)@) + group_entries(
            lists_view(lists@),
            paths_view(prefixes@),
            paths_view(collapsed@),
        ),
{
    let ghost base = items_view(items@);
    let ghost lv = lists_view(lists@);
    let ghost xv = paths_view(prefixes@);
    let ghost cv = paths_view(collapsed@);
    let mut k: usize = 0;
    while k < prefixes.len()
        invariant
            k <= prefixes.len(),
            lv == lists_view(lists@),
            xv == paths_view(prefixes@),
            cv == paths_view(collapsed@),
            items_view(items@) == base + group_entries(lv, xv.subrange(0, k as int), cv),
        decreases prefixes.len() - k,
    {
        let p = &prefixes[k];
        let ghost before = items_view(items@);
        if !has_collapsed_ancestor(p, collapsed) {
            push_item(items, SidebarItem::GroupHeader(copy_strings(p)));
            if !is_collapsed(collapsed, p) {
                push_lists_in(items, lists, p);
            }
        }
        assert(xv.subrange(0, k + 1).drop_last() =~= xv.subrange(0, k as int));
        assert(xv.subrange(0, k + 1).last() == strings_view(p@));
        k = k + 1;
        assert(items_view(items@) =~= base + group_entries(lv, xv.subrange(0, k as int), cv));
    }
    assert(xv.subrange(0, prefixes.len() as int) =~= xv);
}

fn push_names(items: &mut Vec<SidebarItem>, names: &Vec<String>, contexts: bool)
    ensures
        items_view(final(items)@) == items_view(old(items)@) + (if contexts {
            context_items(strings_view(names@))
        } else {
            project_items(strings_view(names@))
        }),
{
    let ghost base = items_view(items@);
    let ghost nv = strings_view(names@);
    let mut i: usize = 0;
    while i < names.len()
        invariant
            i <= names.len(),
            nv == strings_view(names@),
            items_view(items@) == base + (if contexts {
                context_items(nv.subrange(0, i as int))
            } else {
                project_items(nv.subrange(0, i as int))
            }),
        decreases names.len() - i,
    {
        let n = names[i].clone();
        if contexts {
            push_item(items, SidebarItem::Context(n));
        } else {
            push_item(items, SidebarItem::Project(n));
        }
        i = i + 1;
        assert(items_view(items@) =~= base + (if contexts {
            context_items(nv.subrange(0, i as int))
        } else {
            project_items(nv.subrange(0, i as int))
        }));
    }
    assert(nv.subrange(0, names.len() as int) =~= nv);
}

/// Builds the sidebar (see `is_sidebar`).
pub fn build_sidebar_items(smart_lists: &[SmartList], snapshot: &Snapshot, collapsed: &[Vec<String>]) -> (r: Vec<SidebarItem>)
    ensures
        is_sidebar(items_view(r@), lists_view(smart_lists@), all_tasks(*snapshot), paths_view(collapsed@)),
{
    let ghost lv = lists_view(smart_lists@);
    let ghost cv = paths_view(collapsed@);
    let mut items: Vec<SidebarItem> = Vec::new();
    assert(items_view(items@) =~= seq![]);
    push_root_lists(&mut items, smart_lists);
    let prefixes = collect_prefixes(smart_lists);
    if prefixes.len() > 0 {
        push_item(&mut items, SidebarItem::Separator);
        push_item(&mut items, SidebarItem::ListsHeader);
        push_group_entries(&mut items, smart_lists, &prefixes, collapsed);
    }
    let ghost head = items_view(items@);
    let ghost xv = paths_view(prefixes@);
    assert(head =~= root_lists(lv) + if xv.len() > 0 {
        seq![ItemModel::Separator, ItemModel::ListsHeader] + group_entries(lv, xv, cv)
    } else {
        seq![]
    });
    if items.len() > 0 {
        push_item(&mut items, SidebarItem::Separator);
    }
    push_item(&mut items, SidebarItem::ProjectsHeader);
    let all = all_of(snapshot);
    let projects = collect_names(&all, false);
    let contexts = collect_names(&all, true);
    push_names(&mut items, &projects, false);
    push_item(&mut items, SidebarItem::Separator);
    push_item(&mut items, SidebarItem::ContextsHeader);
    push_names(&mut items, &contexts, true);
    proof {
        let pv = strings_view(projects@);
        let qv = strings_view(contexts@);
        assert(items_view(items@) =~= sidebar_of(lv, xv, pv, qv, cv));
    }
    items
}

} // verus!
