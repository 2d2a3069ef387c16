//! Where things stand in the task pane: which task a row of the pane
//! shows, and how far the pane scrolls to show the selected task.
use vstd::prelude::*;

use crate::tui::spans::{colored_lines_view, paragraph_line_count, wrapped_row_count, ColoredSpan};
use crate::tui::widgets::TokenColor;

verus! {

/// The rows that tasks take, each from its first row to its end (the row
/// after its last): tasks of `counts` rows each from row `start`, with a
/// blank row between two tasks.
#[verifier::opaque]
pub open spec fn flat_spans(counts: Seq<int>, start: int) -> Seq<(int, int)>
    decreases counts.len(),
{
    if counts.len() == 0 {
        seq![]
    } else {
        seq![(start, start + counts[0])] + flat_spans(counts.drop_first(), start + counts[0] + 1)
    }
}

/// The rows that grouped tasks take: before each labelled group its header
/// row, and before the header of any group but the first a blank row;
/// groups are `(labelled, number of tasks)`, their tasks taking the rows
/// of `counts` in order.
#[verifier::opaque]
pub open spec fn group_spans(groups: Seq<(bool, int)>, counts: Seq<int>, start: int, first: bool) -> Seq<(int, int)>
    decreases groups.len(),
{
    if groups.len() == 0 {
        seq![]
    } else {
        let n = group_size(groups[0], counts.len() as int);
        let s = group_start(groups[0], start, first);
        let fl = flat_spans(counts.take(n), s);
        fl + group_spans(groups.drop_first(), counts.skip(n), spans_end(fl, s), false)
    }
}

/// The number of tasks of a group, within the `avail` counts left.
pub open spec fn group_size(g: (bool, int), avail: int) -> int {
    if g.1 < 0 {
        0
    } else if g.1 > avail {
        avail
    } else {
        g.1
    }
}

/// The row of a group's first task: after its header, and after a blank
/// row before the header of any group but the first.
pub open spec fn group_start(g: (bool, int), start: int, first: bool) -> int {
    if g.0 {
        start + (if first {
            0int
        } else {
            1int
        }) + 1
    } else {
        start
    }
}

/// The row after the last of the spans, or `s` when there are none.
pub open spec fn spans_end(spans: Seq<(int, int)>, s: int) -> int {
    if spans.len() > 0 {
        spans.last().1
    } else {
        s
    }
}

pub open spec fn holds_row(row: int) -> spec_fn((int, int)) -> bool {
    |sp: (int, int)| sp.0 <= row < sp.1
}

/// The first position of `s` whose element satisfies `p`.
#[verifier::opaque]
pub open spec fn first_span(s: Seq<(int, int)>, p: spec_fn((int, int)) -> bool) -> Option<int> {
    if exists|i: int| 0 <= i < s.len() && p(#[trigger] s[i]) {
        Some(choose|i: int| 0 <= i < s.len() && p(#[trigger] s[i]) && forall|j: int| 0 <= j < i ==> !p(#[trigger] s[j]))
    } else {
        None
    }
}

pub open spec fn counts_view(v: Seq<usize>) -> Seq<int> {
    v.map_values(|c: usize| c as int)
}

pub open spec fn groups_shape(v: Seq<(bool, usize)>) -> Seq<(bool, int)> {
    v.map_values(|g: (bool, usize)| (g.0, g.1 as int))
}

/// The spans of the pane's tasks, beginning at row `base`: in groups when
/// `headers`, else one after the other.
pub open spec fn pane_spans(base: int, headers: bool, groups: Seq<(bool, int)>, counts: Seq<int>) -> Seq<(int, int)> {
    if headers {
        group_spans(groups, counts, base, true)
    } else {
        flat_spans(counts, base)
    }
}

/// The scroll offset that shows the selected rows `[start, end)` in a pane
/// of `height` rows: the current offset when they are all in view, their
/// first row when they are above it, else the offset that ends the pane
/// with their last row.
pub open spec fn scroll_for(start: int, end: int, height: int, current: int) -> int {
    if start >= current && end <= current + height {
        current
    } else if start < current {
        start
    } else if end > height {
        end - height
    } else {
        0
    }
}

/// The scroll offset of the task pane: 0 without a selection (or without
/// room to show one); otherwise `scroll_for` of the selected rows, as a
/// 16-bit number.
pub open spec fn pane_scroll(rows: Option<(usize, usize)>, inner_width: u16, pane_height: usize, previous: Option<u16>) -> int {
    match rows {
        Some((start, end)) => if inner_width == 0 || pane_height == 0 {
            0
        } else {
            (scroll_for(start as int, end as int, pane_height as int, match previous {
                Some(v) => v as int,
                None => 0,
            }) as u16) as int
        },
        None => 0,
    }
}

/// The rows `[start, end)` that the selected lines `first..=last` take
/// when the lines are wrapped at `width`; none without a selection, in a
/// pane without width or height, or when `last` is past the lines.
pub open spec fn selected_rows(
    lines: Seq<Seq<(Seq<char>, TokenColor)>>,
    first: Option<usize>,
    last: Option<usize>,
    width: u16,
    height: usize,
) -> Option<(usize, usize)> {
    match first {
        None => None,
        Some(f) => {
            let l = match last {
                Some(l) => l,
                None => f,
            };
            if width == 0 || height == 0 || l >= lines.len() {
                None
            } else {
                Some((
                    if f > 0 {
                        wrapped_row_count(lines.subrange(0, f as int), width)
                    } else {
                        0
                    },
                    wrapped_row_count(lines.subrange(0, l + 1), width),
                ))
            }
        },
    }
}

/// The scroll offset of the task pane whose lines are `lines` when the
/// lines `first..=last` are selected (see `selected_rows` and
/// `pane_scroll`).
pub fn compute_scroll_offset_with_previous(
    lines: &[Vec<ColoredSpan>],
    selected_first_line: Option<usize>,
    selected_last_line: Option<usize>,
    inner_width: u16,
    pane_height: usize,
    previous_offset: Option<u16>,
) -> (r: u16)
    requires
        selected_first_line matches Some(f) ==> (f <= lines@.len() || inner_width == 0 || pane_height == 0
            || (match selected_last_line {
            Some(l) => l,
            None => f,
        }) >= lines@.len()),
    ensures
        r as int == pane_scroll(
            selected_rows(colored_lines_view(lines@), selected_first_line, selected_last_line, inner_width, pane_height),
            inner_width,
            pane_height,
            previous_offset,
        ),
{
    let ghost v = colored_lines_view(lines@);
    let rows = match selected_first_line {
        None => None,
        Some(first) => {
            let last = match selected_last_line {
                Some(l) => l,
                None => first,
            };
            if inner_width == 0 || pane_height == 0 || last >= lines.len() {
                None
            } else {
                let start = if first > 0 {
                    let head = vstd::slice::slice_subrange(lines, 0, first);
                    assert(colored_lines_view(head@) =~= v.subrange(0, first as int));
                    paragraph_line_count(head, inner_width)
                } else {
                    0
                };
                let upto = vstd::slice::slice_subrange(lines, 0, last + 1);
                assert(colored_lines_view(upto@) =~= v.subrange(0, last + 1));
                Some((start, paragraph_line_count(upto, inner_width)))
            }
        },
    };
    scroll_offset_for(rows, inner_width, pane_height, previous_offset)
}

/// The scroll offset of the task pane whose lines are `lines` when the
/// line `selected` is selected, with no offset before.
pub fn compute_scroll_offset(lines: &[Vec<ColoredSpan>], selected_line_index: Option<usize>, inner_width: u16, pane_height: usize) -> (r: u16)
    ensures
        r as int == pane_scroll(
            selected_rows(colored_lines_view(lines@), selected_line_index, selected_line_index, inner_width, pane_height),
            inner_width,
            pane_height,
            None,
        ),
{
    compute_scroll_offset_with_previous(lines, selected_line_index, selected_line_index, inner_width, pane_height, None)
}

/// The scroll offset of the task pane for the selected rows `[start, end)`
/// (see `pane_scroll`).
pub fn scroll_offset_for(rows: Option<(usize, usize)>, inner_width: u16, pane_height: usize, previous_offset: Option<u16>) -> (r: u16)
    ensures
        r as int == pane_scroll(rows, inner_width, pane_height, previous_offset),
{
    let (start, end) = match rows {
        Some(x) => x,
        None => return 0,
    };
    if inner_width == 0 || pane_height == 0 {
        return 0;
    }
    let current: usize = match previous_offset {
        Some(v) => v as usize,
        None => 0,
    };
    if start >= current && (end as u128) <= (current as u128) + (pane_height as u128) {
        return current as u16;
    }
    if start < current {
        return start as u16;
    }
    if end > pane_height {
        (end - pane_height) as u16
    } else {
        0
    }
}

proof fn lemma_first_span(s: Seq<(int, int)>, p: spec_fn((int, int)) -> bool, i: int)
    requires
        0 <= i <= s.len(),
        forall|j: int| 0 <= j < i ==> !p(#[trigger] s[j]),
        i == s.len() || p(s[i]),
    ensures
        first_span(s, p) == (if i < s.len() {
            Some(i)
        } else {
            None::<int>
        }),
{
    reveal(first_span);
    if i < s.len() {
        assert(0 <= i < s.len() && p(s[i]) && forall|j: int| 0 <= j < i ==> !p(#[trigger] s[j]));
        let c = choose|c: int| 0 <= c < s.len() && p(#[trigger] s[c]) && forall|j: int| 0 <= j < c ==> !p(#[trigger] s[j]);
        if c < i {
            assert(!p(s[c]));
        }
        if i < c {
            assert(!p(s[i]));
        }
    }
}

proof fn lemma_first_exists(s: Seq<(int, int)>, p: spec_fn((int, int)) -> bool, k: int)
    requires
        0 <= k <= s.len(),
        forall|j: int| 0 <= j < k ==> !p(#[trigger] s[j]),
        exists|i: int| k <= i < s.len() && p(#[trigger] s[i]),
    ensures
        exists|i: int| 0 <= i < s.len() && p(#[trigger] s[i]) && forall|j: int| 0 <= j < i ==> !p(#[trigger] s[j]),
    decreases s.len() - k,
{
    if p(s[k]) {
        assert(0 <= k < s.len() && p(s[k]) && forall|j: int| 0 <= j < k ==> !p(#[trigger] s[j]));
    } else {
        let i = choose|i: int| k <= i < s.len() && p(#[trigger] s[i]);
        assert(k + 1 <= i);
        lemma_first_exists(s, p, k + 1);
    }
}

proof fn lemma_first_span_facts(s: Seq<(int, int)>, p: spec_fn((int, int)) -> bool)
    ensures
        first_span(s, p) matches Some(m) ==> 0 <= m < s.len() && p(s[m]) && forall|j: int| 0 <= j < m ==> !p(#[trigger] s[j]),
        first_span(s, p) is None ==> forall|j: int| 0 <= j < s.len() ==> !p(#[trigger] s[j]),
{
    reveal(first_span);
    if exists|i: int| 0 <= i < s.len() && p(#[trigger] s[i]) {
        lemma_first_exists(s, p, 0);
    }
}

/// Every task of `flat_spans(counts, start)` begins at `start` or later,
/// and ends no earlier than it begins.
proof fn lemma_flat_spans(counts: Seq<int>, start: int)
    requires
        forall|k: int| 0 <= k < counts.len() ==> counts[k] >= 0,
    ensures
        flat_spans(counts, start).len() == counts.len(),
        forall|k: int| 0 <= k < counts.len() ==> start <= (#[trigger] flat_spans(counts, start)[k]).0 <= flat_spans(counts, start)[k].1,
        counts.len() > 0 ==> flat_spans(counts, start).last().1 >= start,
    decreases counts.len(),
{
    reveal(flat_spans);
    if counts.len() > 0 {
        let rest = counts.drop_first();
        lemma_flat_spans(rest, start + counts[0] + 1);
        let f = flat_spans(counts, start);
        assert forall|k: int| 0 <= k < counts.len() implies start <= (#[trigger] f[k]).0 <= f[k].1 by {
            if k > 0 {
                assert(f[k] == flat_spans(rest, start + counts[0] + 1)[k - 1]);
            }
        }
    }
}

proof fn lemma_flat_spans_step(counts: Seq<int>, i: int, n: int, cur: int)
    requires
        0 <= i < n <= counts.len(),
    ensures
        flat_spans(counts.subrange(i, n), cur) == seq![(cur, cur + counts[i])] + flat_spans(
            counts.subrange(i + 1, n),
            cur + counts[i] + 1,
        ),
{
    reveal(flat_spans);
    assert(counts.subrange(i, n).drop_first() =~= counts.subrange(i + 1, n));
}

/// Every task of `group_spans` begins at `start` or later.
proof fn lemma_group_spans(groups: Seq<(bool, int)>, counts: Seq<int>, start: int, first: bool)
    requires
        forall|k: int| 0 <= k < counts.len() ==> counts[k] >= 0,
    ensures
        forall|k: int| 0 <= k < group_spans(groups, counts, start, first).len() ==> start <= (#[trigger] group_spans(
            groups,
            counts,
            start,
            first,
        )[k]).0,
    decreases groups.len(),
{
    reveal(group_spans);
    if groups.len() > 0 {
        let n = group_size(groups[0], counts.len() as int);
        let s = group_start(groups[0], start, first);
        let fl = flat_spans(counts.take(n), s);
        lemma_flat_spans(counts.take(n), s);
        lemma_group_spans(groups.drop_first(), counts.skip(n), spans_end(fl, s), false);
        let all = group_spans(groups, counts, start, first);
        assert forall|k: int| 0 <= k < all.len() implies start <= (#[trigger] all[k]).0 by {
            if k >= fl.len() {
                assert(all[k] == group_spans(groups.drop_first(), counts.skip(n), spans_end(fl, s), false)[k - fl.len()]);
            }
        }
    }
}

proof fn lemma_group_unfold(groups: Seq<(bool, int)>, counts: Seq<int>, start: int, first: bool)
    requires
        groups.len() > 0,
    ensures
        group_spans(groups, counts, start, first) == flat_spans(
            counts.take(group_size(groups[0], counts.len() as int)),
            group_start(groups[0], start, first),
        ) + group_spans(
            groups.drop_first(),
            counts.skip(group_size(groups[0], counts.len() as int)),
            spans_end(
                flat_spans(counts.take(group_size(groups[0], counts.len() as int)), group_start(groups[0], start, first)),
                group_start(groups[0], start, first),
            ),
            false,
        ),
{
    reveal(group_spans);
}

proof fn lemma_group_empty(counts: Seq<int>, start: int, first: bool)
    ensures
        group_spans(Seq::<(bool, int)>::empty(), counts, start, first) == Seq::<(int, int)>::empty(),
{
    reveal(group_spans);
}

/// No span of `total` holds the row when none of the first `done` does,
/// the rest is `fl` then `later`, none of `fl` holds it, and (when
/// `all_later`) `later` all begin after it.
proof fn lemma_none_holds(total: Seq<(int, int)>, done: int, fl: Seq<(int, int)>, later: Seq<(int, int)>, row: int, all_later: bool)
    requires
        0 <= done <= total.len(),
        forall|j: int| 0 <= j < done ==> !holds_row(row)(#[trigger] total[j]),
        total.subrange(done, total.len() as int) == fl + later,
        forall|j: int| 0 <= j < fl.len() ==> !holds_row(row)(#[trigger] fl[j]),
        all_later ==> forall|j: int| 0 <= j < later.len() ==> row < (#[trigger] later[j]).0,
    ensures
        forall|j: int| 0 <= j < done + fl.len() ==> !holds_row(row)(#[trigger] total[j]),
        all_later ==> forall|j: int| 0 <= j < total.len() ==> !holds_row(row)(#[trigger] total[j]),
{
    assert((fl + later).len() == total.len() - done);
    assert forall|j: int| 0 <= j < total.len() && (j < done + fl.len() || all_later) implies !holds_row(row)(#[trigger] total[j]) by {
        if j >= done {
            assert(total[j] == total.subrange(done, total.len() as int)[j - done]);
            if j - done < fl.len() {
                assert(total[j] == fl[j - done]);
            } else {
                assert(total[j] == later[j - done - fl.len()]);
            }
        }
    }
}

proof fn lemma_nothing_before(total: Seq<(int, int)>, start: int, row: int)
    requires
        row < start,
        forall|k: int| 0 <= k < total.len() ==> start <= (#[trigger] total[k]).0,
    ensures
        first_span(total, holds_row(row)) is None,
{
    assert forall|j: int| 0 <= j < total.len() implies !holds_row(row)(#[trigger] total[j]) by {
        assert(start <= total[j].0);
    }
    lemma_first_span(total, holds_row(row), total.len() as int);
}

/// Scans the tasks `from..to` of the counts, the first beginning at row
/// `start`, for the row `rem` rows below it: the position of the task that
/// holds it; else how many rows below the last task's end it is, or
/// `Err(None)` when it falls on a blank row between two tasks.
#[verifier::rlimit(50)]
fn scan_tasks(counts: &[usize], from: usize, to: usize, rem: u128, Ghost(start): Ghost<int>) -> (r: Result<usize, Option<u128>>)
    requires
        from <= to <= counts.len(),
    ensures
        ({
            let cs = counts_view(counts@).subrange(from as int, to as int);
            let spans = flat_spans(cs, start);
            match r {
                Ok(k) => from <= k < to && first_span(spans, holds_row(start + rem)) == Some(k - from),
                Err(Some(left)) => first_span(spans, holds_row(start + rem)) is None && (if from < to {
                    start + rem == spans.last().1 + left as int
                } else {
                    left == rem
                }),
                Err(None) => first_span(spans, holds_row(start + rem)) is None && from < to && start + rem
                    < spans.last().1,
            }
        }),
{
    let ghost cv = counts_view(counts@);
    let ghost cs = cv.subrange(from as int, to as int);
    let ghost total = flat_spans(cs, start);
    let ghost p = holds_row(start + rem);
    proof {
        lemma_flat_spans(cs, start);
        assert(cs.subrange(0, cs.len() as int) =~= cs);
        assert(total.subrange(0, total.len() as int) =~= total);
    }
    let mut i: usize = from;
    let mut left: u128 = rem;
    let ghost mut cur: int = start;
    while i < to
        invariant
            from <= i <= to <= counts.len(),
            cv == counts_view(counts@),
            cs == cv.subrange(from as int, to as int),
            total == flat_spans(cs, start),
            p == holds_row(start + rem),
            total.len() == cs.len(),
            forall|k: int| 0 <= k < cs.len() ==> cs[k] >= 0,
            cur + left == start + rem,
            start <= cur,
            i == from ==> cur == start,
            i > from ==> cur == total[i - from - 1].1,
            forall|j: int| 0 <= j < i - from ==> !p(#[trigger] total[j]),
            total.subrange(i - from, total.len() as int) == flat_spans(
                cs.subrange(i - from, cs.len() as int),
                if i > from {
                    cur + 1
                } else {
                    start
                },
            ),
        decreases to - i,
    {
        let ghost k: int = (i - from) as int;
        let ghost next: int = if i > from {
            cur + 1
        } else {
            start
        };
        if i > from {
            if left == 0 {
                proof {
                    let rest = cs.subrange(k, cs.len() as int);
                    lemma_flat_spans(rest, next);
                    assert forall|j: int| 0 <= j < total.len() implies !p(#[trigger] total[j]) by {
                        if j >= k {
                            assert(total[j] == total.subrange(k, total.len() as int)[j - k]);
                            assert(total[j] == flat_spans(rest, next)[j - k]);
                        }
                    }
                    lemma_first_span(total, p, total.len() as int);
                    assert(total.last() == flat_spans(rest, next).last());
                }
                return Err(None);
            }
            left = left - 1;
            proof {
                cur = cur + 1;
            }
        }
        let c = counts[i];
        proof {
            assert(total.subrange(k, total.len() as int) == flat_spans(cs.subrange(k, cs.len() as int), cur));
            lemma_flat_spans_step(cs, k, cs.len() as int, cur);
            assert(cs[k] == c as int);
            assert(total[k] == total.subrange(k, total.len() as int)[0]);
            assert(total[k] == (cur, cur + c));
        }
        if left < c as u128 {
            proof {
                assert(p(total[k]));
                lemma_first_span(total, p, k);
            }
            return Ok(i);
        }
        assert(!p(total[k]));
        left = left - c as u128;
        proof {
            cur = cur + c;
            assert(total.subrange(k + 1, total.len() as int) =~= total.subrange(k, total.len() as int).drop_first());
        }
        i = i + 1;
    }
    proof {
        lemma_first_span(total, p, total.len() as int);
        if from < to {
            assert(total.last() == total[total.len() - 1]);
        }
    }
    Err(Some(left))
}

#[verifier::rlimit(50)]
fn scan_groups(groups: &[(bool, usize)], counts: &[usize], rem: u128, Ghost(base): Ghost<int>) -> (r: Option<usize>)
    ensures
        match r {
            Some(k) => first_span(group_spans(groups_shape(groups@), counts_view(counts@), base, true), holds_row(base + rem))
                == Some(k as int),
            None => first_span(group_spans(groups_shape(groups@), counts_view(counts@), base, true), holds_row(base + rem)) is None,
        },
{
    let ghost gs = groups_shape(groups@);
    let ghost cv = counts_view(counts@);
    let ghost total = group_spans(gs, cv, base, true);
    let ghost row = base + rem;
    let ghost p = holds_row(row);
    let mut g: usize = 0;
    let mut consumed: usize = 0;
    let mut left: u128 = rem;
    let ghost mut cur: int = base;
    proof {
        assert(gs.subrange(0, gs.len() as int) =~= gs);
        assert(cv.skip(0) =~= cv);
        assert(total.subrange(0, total.len() as int) =~= total);
    }
    while g < groups.len()
        invariant
            g <= groups.len(),
            consumed <= counts.len(),
            gs == groups_shape(groups@),
            cv == counts_view(counts@),
            total == group_spans(gs, cv, base, true),
            row == base + rem,
            p == holds_row(row),
            cur + left == row,
            consumed <= total.len(),
            forall|j: int| 0 <= j < consumed ==> !p(#[trigger] total[j]),
            total.subrange(consumed as int, total.len() as int) == group_spans(
                gs.subrange(g as int, gs.len() as int),
                cv.skip(consumed as int),
                cur,
                g == 0,
            ),
        decreases groups.len() - g,
    {
        let ghost rg = gs.subrange(g as int, gs.len() as int);
        let ghost rc = cv.skip(consumed as int);
        let (labelled, size) = groups[g];
        let avail = counts.len() - consumed;
        let n = if size > avail {
            avail
        } else {
            size
        };
        let h: u128 = if labelled {
            if g == 0 {
                1
            } else {
                2
            }
        } else {
            0
        };
        let ghost s = cur + h;
        let ghost fl = flat_spans(rc.take(n as int), s);
        let ghost later = group_spans(rg.drop_first(), rc.skip(n as int), spans_end(fl, s), false);
        proof {
            assert(rg[0] == gs[g as int]);
            assert(group_size(rg[0], rc.len() as int) == n as int);
            assert(group_start(rg[0], cur, g == 0) == s);
            assert(rg.drop_first() =~= gs.subrange(g + 1, gs.len() as int));
            assert(rc.take(n as int) =~= cv.subrange(consumed as int, consumed + n));
            assert(rc.skip(n as int) =~= cv.skip(consumed + n));
            lemma_group_unfold(rg, rc, cur, g == 0);
            assert(total.subrange(consumed as int, total.len() as int) == fl + later);
            lemma_flat_spans(rc.take(n as int), s);
            lemma_group_spans(rg.drop_first(), rc.skip(n as int), spans_end(fl, s), false);
        }
        if left < h {
            proof {
                assert forall|j: int| 0 <= j < fl.len() implies !p(#[trigger] fl[j]) by {}
                assert forall|j: int| 0 <= j < later.len() implies row < (#[trigger] later[j]).0 by {}
                lemma_none_holds(total, consumed as int, fl, later, row, true);
                lemma_first_span(total, p, total.len() as int);
            }
            return None;
        }
        left = left - h;
        let res = scan_tasks(counts, consumed, consumed + n, left, Ghost(s));
        proof {
            lemma_first_span_facts(fl, p);
        }
        match res {
            Ok(k) => {
                proof {
                    let m = k - consumed;
                    assert(fl.len() == n);
                    assert(fl.subrange(0, m) + (fl.subrange(m, fl.len() as int) + later) =~= fl + later);
                    lemma_none_holds(total, consumed as int, fl.subrange(0, m), fl.subrange(m, fl.len() as int) + later, row, false);
                    assert(total[k as int] == total.subrange(consumed as int, total.len() as int)[m]);
                    assert(total[k as int] == fl[m]);
                    lemma_first_span(total, p, k as int);
                }
                return Some(k);
            },
            Err(None) => {
                proof {
                    lemma_none_holds(total, consumed as int, fl, later, row, true);
                    lemma_first_span(total, p, total.len() as int);
                }
                return None;
            },
            Err(Some(l)) => {
                proof {
                    lemma_none_holds(total, consumed as int, fl, later, row, false);
                    assert(total.subrange(consumed + n, total.len() as int) =~= (fl + later).subrange(
                        fl.len() as int,
                        (fl + later).len() as int,
                    ));
                    assert((fl + later).subrange(fl.len() as int, (fl + later).len() as int) =~= later);
                    cur = spans_end(fl, s);
                }
                left = l;
                consumed = consumed + n;
                g = g + 1;
            },
        }
    }
    proof {
        assert(gs.subrange(g as int, gs.len() as int) =~= Seq::<(bool, int)>::empty());
        lemma_group_empty(cv.skip(consumed as int), cur, g == 0);
        assert(total.subrange(consumed as int, total.len() as int).len() == 0);
        lemma_first_span(total, p, consumed as int);
    }
    None
}

/// The task that holds row `row` of the pane (see `pane_spans`).
#[verifier::rlimit(50)]
pub fn task_at_row(row: u128, base: usize, headers: bool, groups: &[(bool, usize)], counts: &[usize]) -> (r: Option<usize>)
    ensures
        match r {
            Some(k) => first_span(pane_spans(base as int, headers, groups_shape(groups@), counts_view(counts@)), holds_row(row as int))
                == Some(k as int),
            None => first_span(pane_spans(base as int, headers, groups_shape(groups@), counts_view(counts@)), holds_row(row as int))
                is None,
        },
{
    let ghost cv = counts_view(counts@);
    if row < base as u128 {
        proof {
            if headers {
                let total = group_spans(groups_shape(groups@), cv, base as int, true);
                lemma_group_spans(groups_shape(groups@), cv, base as int, true);
                lemma_nothing_before(total, base as int, row as int);
            } else {
                let total = flat_spans(cv, base as int);
                lemma_flat_spans(cv, base as int);
                lemma_nothing_before(total, base as int, row as int);
            }
        }
        return None;
    }
    let rem = row - base as u128;
    if !headers {
        let res = scan_tasks(counts, 0, counts.len(), rem, Ghost(base as int));
        proof {
            assert(cv.subrange(0, counts.len() as int) =~= cv);
        }
        return match res {
            Ok(k) => Some(k),
            Err(_) => None,
        };
    }
    scan_groups(groups, counts, rem, Ghost(base as int))
}

} // verus!
