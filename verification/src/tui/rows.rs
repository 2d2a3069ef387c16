//! The rows of the task pane: the search line, then the tasks' lines, one
//! after the other with a rule between two tasks, or in groups under their
//! labels with a blank row between two tasks of a group.
use vstd::prelude::*;

use crate::smartlist::eval::{groups_view, GroupModel, TaskGroup};
use crate::text::owned;

verus! {

/// One row of the task pane.
#[derive(Debug, Clone, PartialEq, Eq)]
pub enum PaneRow {
    /// `Search: ` and the query.
    Search(String),
    Blank,
    /// `Parse error: ` and the error of the active smart list.
    ParseError(String),
    /// The active item shows no task.
    NoTasks,
    /// The rule before a group's label, but the first group's.
    GroupRule,
    GroupLabel(String),
    /// The rule between two tasks that are not grouped.
    TaskRule,
    /// A line of a task: the task's position among the tasks shown, and the
    /// line's position among its lines.
    TaskLine(usize, usize),
}

pub ghost enum RowModel {
    Search(Seq<char>),
    Blank,
    ParseError(Seq<char>),
    NoTasks,
    GroupRule,
    GroupLabel(Seq<char>),
    TaskRule,
    TaskLine(int, int),
}

impl View for PaneRow {
    type V = RowModel;

    open spec fn view(&self) -> RowModel {
        match self {
            PaneRow::Search(q) => RowModel::Search(q@),
            PaneRow::Blank => RowModel::Blank,
            PaneRow::ParseError(e) => RowModel::ParseError(e@),
            PaneRow::NoTasks => RowModel::NoTasks,
            PaneRow::GroupRule => RowModel::GroupRule,
            PaneRow::GroupLabel(l) => RowModel::GroupLabel(l@),
            PaneRow::TaskRule => RowModel::TaskRule,
            PaneRow::TaskLine(t, l) => RowModel::TaskLine(*t as int, *l as int),
        }
    }
}

pub open spec fn rows_view(v: Seq<PaneRow>) -> Seq<RowModel> {
    v.map_values(|r: PaneRow| r@)
}

/// The `n` lines of task `t`.
pub open spec fn task_rows(t: int, n: int) -> Seq<RowModel> {
    Seq::new(n as nat, |l: int| RowModel::TaskLine(t, l))
}

/// Tasks of `counts` lines each, numbered from `t0`, with `sep` between two.
pub open spec fn flat_rows(counts: Seq<int>, t0: int, sep: RowModel) -> Seq<RowModel>
    decreases counts.len(),
{
    if counts.len() == 0 {
        seq![]
    } else {
        flat_rows(counts.drop_last(), t0, sep) + (if counts.len() > 1 {
            seq![sep]
        } else {
            seq![]
        }) + task_rows(t0 + counts.len() - 1, counts.last())
    }
}

/// Groups of `(label, number of tasks)` over tasks of `counts` lines: each
/// labelled group under its label, with a rule before the label of any
/// group but the first; the tasks of a group a blank row apart. Gives the
/// rows and the number of tasks they take.
pub open spec fn grouped_rows(groups: Seq<(Seq<char>, int)>, counts: Seq<int>) -> (Seq<RowModel>, int)
    decreases groups.len(),
{
    if groups.len() == 0 {
        (seq![], 0)
    } else {
        let (rows, used) = grouped_rows(groups.drop_last(), counts);
        let g = groups.last();
        let left = counts.len() - used;
        let k = if g.1 < 0 {
            0
        } else if g.1 > left {
            left
        } else {
            g.1
        };
        let head = if g.0.len() > 0 {
            (if groups.len() > 1 {
                seq![RowModel::GroupRule]
            } else {
                seq![]
            }) + seq![RowModel::GroupLabel(g.0)]
        } else {
            seq![]
        };
        (rows + head + flat_rows(counts.subrange(used, used + k), used, RowModel::Blank), used + k)
    }
}

/// Whether the pane shows group labels: with more than one group, or with
/// one labelled group.
pub open spec fn shows_labels(groups: Seq<(Seq<char>, int)>) -> bool {
    groups.len() > 1 || (groups.len() == 1 && groups[0].0.len() > 0)
}

/// The rows of the pane: the search line and a blank row while searching,
/// then the tasks (grouped when `shows_labels`), or the active list's
/// parse error, or `NoTasks`.
pub open spec fn pane_rows(
    query: Seq<char>,
    search_active: bool,
    parse_error: Option<Seq<char>>,
    groups: Seq<(Seq<char>, int)>,
    counts: Seq<int>,
) -> Seq<RowModel> {
    let head = if query.len() > 0 {
        seq![RowModel::Search(query), RowModel::Blank]
    } else if search_active {
        seq![RowModel::Search(seq![]), RowModel::Blank]
    } else {
        seq![]
    };
    head + if counts.len() == 0 {
        match parse_error {
            Some(e) => seq![RowModel::ParseError(e)],
            None => seq![RowModel::NoTasks],
        }
    } else if shows_labels(groups) {
        grouped_rows(groups, counts).0
    } else {
        flat_rows(counts, 0, RowModel::TaskRule)
    }
}

pub open spec fn shape_of(groups: Seq<GroupModel>) -> Seq<(Seq<char>, int)> {
    groups.map_values(|g: GroupModel| (g.label, g.tasks.len() as int))
}

pub open spec fn counts_of(v: Seq<usize>) -> Seq<int> {
    v.map_values(|c: usize| c as int)
}

fn push_task_rows(out: &mut Vec<PaneRow>, t: usize, n: usize)
    ensures
        rows_view(final(out)@) == rows_view(old(out)@) + task_rows(t as int, n as int),
{
    let ghost before = rows_view(out@);
    let mut l: usize = 0;
    while l < n
        invariant
            l <= n,
            rows_view(out@) == before + task_rows(t as int, l as int),
        decreases n - l,
    {
        let ghost mid = rows_view(out@);
        out.push(PaneRow::TaskLine(t, l));
        assert(rows_view(out@) =~= mid.push(RowModel::TaskLine(t as int, l as int)));
        assert(task_rows(t as int, l + 1) =~= task_rows(t as int, l as int).push(RowModel::TaskLine(t as int, l as int)));
        assert(rows_view(out@) =~= before + task_rows(t as int, l + 1));
        l = l + 1;
    }
}

/// Appends tasks `from..to` of `counts`, `sep` between two.
fn push_flat(out: &mut Vec<PaneRow>, counts: &[usize], from: usize, to: usize, sep: &PaneRow)
    requires
        from <= to <= counts@.len(),
    ensures
        rows_view(final(out)@) == rows_view(old(out)@) + flat_rows(counts_of(counts@).subrange(from as int, to as int), from as int, sep@),
{
    let ghost before = rows_view(out@);
    let ghost cv = counts_of(counts@);
    let mut i: usize = from;
    assert(cv.subrange(from as int, from as int) =~= Seq::<int>::empty());
    assert(before + flat_rows(cv.subrange(from as int, from as int), from as int, sep@) =~= before);
    while i < to
        invariant
            from <= i <= to <= counts@.len(),
            cv == counts_of(counts@),
            rows_view(out@) == before + flat_rows(cv.subrange(from as int, i as int), from as int, sep@),
        decreases to - i,
    {
        let ghost mid = rows_view(out@);
        let ghost s = cv.subrange(from as int, i + 1);
        assert(s.drop_last() =~= cv.subrange(from as int, i as int));
        if i > from {
            let r = match sep {
                PaneRow::Search(q) => PaneRow::Search(q.clone()),
                PaneRow::Blank => PaneRow::Blank,
                PaneRow::ParseError(e) => PaneRow::ParseError(e.clone()),
                PaneRow::NoTasks => PaneRow::NoTasks,
                PaneRow::GroupRule => PaneRow::GroupRule,
                PaneRow::GroupLabel(l) => PaneRow::GroupLabel(l.clone()),
                PaneRow::TaskRule => PaneRow::TaskRule,
                PaneRow::TaskLine(a, b) => PaneRow::TaskLine(*a, *b),
            };
            out.push(r);
            assert(rows_view(out@) =~= mid + seq![sep@]);
        }
        let ghost mid2 = rows_view(out@);
        push_task_rows(out, i, counts[i]);
        assert(rows_view(out@) =~= before + flat_rows(cv.subrange(from as int, i + 1), from as int, sep@)) by {
            assert(s.last() == counts[i as int] as int);
            assert(s.len() > 1 <==> i > from);
        }
        i = i + 1;
    }
}

/// The rows of the task pane (see `pane_rows`) for the tasks' groups and
/// the number of lines of each task, in the order they are shown.
pub fn task_pane_rows(
    query: &str,
    search_active: bool,
    parse_error: Option<&String>,
    groups: &[TaskGroup],
    counts: &[usize],
) -> (r: Vec<PaneRow>)
    ensures
        rows_view(r@) == pane_rows(
            query@,
            search_active,
            match parse_error {
                Some(e) => Some(e@),
                None => None,
            },
            shape_of(groups_view(groups@)),
            counts_of(counts@),
        ),
{
    let ghost shape = shape_of(groups_view(groups@));
    let ghost cv = counts_of(counts@);
    let mut out: Vec<PaneRow> = Vec::new();
    if query.unicode_len() > 0 {
        out.push(PaneRow::Search(owned(query)));
        out.push(PaneRow::Blank);
    } else if search_active {
        out.push(PaneRow::Search(String::new()));
        out.push(PaneRow::Blank);
    }
    let ghost head = rows_view(out@);
    assert(head =~= (if query@.len() > 0 {
        seq![RowModel::Search(query@), RowModel::Blank]
    } else if search_active {
        seq![RowModel::Search(seq![]), RowModel::Blank]
    } else {
        seq![]
    }));
    if counts.len() == 0 {
        match parse_error {
            Some(e) => out.push(PaneRow::ParseError(e.clone())),
            None => out.push(PaneRow::NoTasks),
        }
        return out;
    }
    let labelled = groups.len() > 1 || (groups.len() == 1 && groups[0].label.unicode_len() > 0);
    assert(labelled == shows_labels(shape)) by {
        if groups.len() == 1 {
            assert(shape[0].0 == groups@[0].label@);
        }
    }
    assert(cv.subrange(0, counts.len() as int) =~= cv);
    if !labelled {
        push_flat(&mut out, counts, 0, counts.len(), &PaneRow::TaskRule);
        return out;
    }
    let mut used: usize = 0;
    let mut g: usize = 0;
    assert(shape.subrange(0, 0) =~= Seq::<(Seq<char>, int)>::empty());
    while g < groups.len()
        invariant
            g <= groups.len(),
            shape == shape_of(groups_view(groups@)),
            cv == counts_of(counts@),
            used <= counts.len(),
            grouped_rows(shape.subrange(0, g as int), cv).1 == used,
            rows_view(out@) == head + grouped_rows(shape.subrange(0, g as int), cv).0,
        decreases groups.len() - g,
    {
        let ghost sub = shape.subrange(0, g + 1);
        assert(sub.drop_last() =~= shape.subrange(0, g as int));
        assert(sub.last() == (groups@[g as int].label@, groups@[g as int].tasks@.len() as int));
        let ghost mid = rows_view(out@);
        let n = groups[g].tasks.len();
        let left = counts.len() - used;
        let k = if n > left { left } else { n };
        if groups[g].label.unicode_len() > 0 {
            if g > 0 {
                out.push(PaneRow::GroupRule);
            }
            out.push(PaneRow::GroupLabel(groups[g].label.clone()));
        }
        assert(rows_view(out@) =~= mid + (if sub.last().0.len() > 0 {
            (if sub.len() > 1 {
                seq![RowModel::GroupRule]
            } else {
                seq![]
            }) + seq![RowModel::GroupLabel(sub.last().0)]
        } else {
            seq![]
        }));
        push_flat(&mut out, counts, used, used + k, &PaneRow::Blank);
        used = used + k;
        g = g + 1;
    }
    assert(shape.subrange(0, groups.len() as int) =~= shape);
    out
}

pub open spec fn is_line_of(r: RowModel, t: int) -> bool {
    r matches RowModel::TaskLine(u, _) && u == t
}

/// The rows from the first to the last line of task `t`.
pub fn task_row_range(rows: &[PaneRow], t: usize) -> (r: Option<(usize, usize)>)
    ensures
        match r {
            Some((first, end)) => 0 <= first < end <= rows@.len() && is_line_of(rows@[first as int]@, t as int)
                && is_line_of(rows@[end - 1]@, t as int)
                && (forall|j: int| 0 <= j < first ==> !is_line_of(#[trigger] rows@[j]@, t as int))
                && (forall|j: int| end <= j < rows@.len() ==> !is_line_of(#[trigger] rows@[j]@, t as int)),
            None => forall|j: int| 0 <= j < rows@.len() ==> !is_line_of(#[trigger] rows@[j]@, t as int),
        },
{
    let mut first: Option<usize> = None;
    let mut last: usize = 0;
    let mut i: usize = 0;
    while i < rows.len()
        invariant
            i <= rows.len(),
            match first {
                Some(f) => f <= last < i && is_line_of(rows@[f as int]@, t as int) && is_line_of(rows@[last as int]@, t as int)
                    && (forall|j: int| 0 <= j < f ==> !is_line_of(#[trigger] rows@[j]@, t as int))
                    && (forall|j: int| last < j < i ==> !is_line_of(#[trigger] rows@[j]@, t as int)),
                None => forall|j: int| 0 <= j < i ==> !is_line_of(#[trigger] rows@[j]@, t as int),
            },
        decreases rows.len() - i,
    {
        let hit = match &rows[i] {
            PaneRow::TaskLine(u, _) => *u == t,
            _ => false,
        };
        if hit {
            if first.is_none() {
                first = Some(i);
            }
            last = i;
        }
        i = i + 1;
    }
    match first {
        Some(f) => Some((f, last + 1)),
        None => None,
    }
}

} // verus!
