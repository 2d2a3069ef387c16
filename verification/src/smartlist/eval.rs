//! Evaluating a smart list over the stored tasks: which tasks match its
//! filter blocks, in which order they come, and how they are grouped.
use vstd::prelude::*;

use super::types::{
    blocks_view, conditions_view, AnchorModel, CompareOp, Condition, ConditionModel, DateAnchor,
    DateField, DateValue, DateValueModel, Direction, Directive, Field, FilterBlock, PriorityOp, SmartList,
    SmartListModel, TextField, TextOp,
};
use crate::dates::{
    as_u32, civil_from_julian, civil_of, julian_day, julian_day_of, julian_in_range,
    push_signed_padded, push_zero_padded, signed_padded, zero_padded,
};
use crate::numbers::{
    all_digits, chars_parse_i32, chars_parse_u32, digits_value, lemma_digits_value_bound,
    parse_i32, parse_nat, parse_u32, pow10, sign_and_digits,
};
use crate::query::{date_order, lemma_date_order_flip};
use crate::sorting::{lemma_map_multiset, order_of, sort_by, stable_arrangement, Orderer};
use crate::store::{duplicate_all, stored_view, StoredModel, StoredTask};
use crate::task::{tag_lookup, Task, TaskModel};
use crate::text::{
    lemma_lex_order_equal, lemma_lex_order_flip, opt_view, owned, push_str, strings_view, chars_include, chars_of, has_substring, lex_order, lowercase, slice_of, str_eq, str_order,
    string_of, to_lower, Order3,
};

verus! {

// -- Date arithmetic ----------------------------------------------------------

/// The first `n` characters exist and are ASCII, so that byte offsets and
/// character offsets agree on them.
pub open spec fn ascii_prefix(s: Seq<char>, n: int) -> bool {
    s.len() >= n && forall|i: int| 0 <= i < n ==> (#[trigger] s[i] as int) < 128
}

/// The year, month and day of a `YYYY-MM-DD` string, read from the
/// characters `0..4`, `5..7` and `8..10`; a field that does not parse counts
/// as year 0, month 1 or day 1.
pub open spec fn date_fields(s: Seq<char>) -> (int, int, int) {
    (
        match parse_i32(s.subrange(0, 4)) {
            Some(v) => v,
            None => 0,
        },
        match parse_u32(s.subrange(5, 7)) {
            Some(v) => v,
            None => 1,
        },
        match parse_u32(s.subrange(8, 10)) {
            Some(v) => v,
            None => 1,
        },
    )
}

/// The Julian day number of the date that `s` starts with.
pub open spec fn date_julian(s: Seq<char>) -> int {
    julian_day(date_fields(s).0, date_fields(s).1, date_fields(s).2)
}

/// `s` can be shifted by `days` within 32-bit arithmetic.
pub open spec fn shift_ok(s: Seq<char>, days: int) -> bool {
    ascii_prefix(s, 10) && julian_in_range(date_julian(s) + days)
}

/// The date `days` days after the date that `s` starts with, written as
/// `YYYY-MM-DD` (the year zero-padded to four places, with its sign).
pub open spec fn shifted_date(s: Seq<char>, days: int) -> Seq<char> {
    let c = civil_from_julian(date_julian(s) + days);
    signed_padded(c.0, 4) + seq!['-'] + zero_padded(as_u32(c.1) as nat, 2) + seq!['-']
        + zero_padded(as_u32(c.2) as nat, 2)
}

proof fn lemma_year_field(s: Seq<char>)
    requires
        s.len() == 4,
    ensures
        parse_i32(s) matches Some(v) ==> -999 <= v <= 9999,
{
    match sign_and_digits(s, true) {
        Some((neg, body)) => {
            lemma_digits_value_bound(body);
            assert(pow10(4) == 10000) by {
                reveal_with_fuel(pow10, 5);
            }
            assert(pow10(3) == 1000) by {
                reveal_with_fuel(pow10, 4);
            }
        },
        None => {},
    }
}

proof fn lemma_small_field(s: Seq<char>)
    requires
        s.len() == 2,
    ensures
        parse_u32(s) matches Some(v) ==> 0 <= v < 100,
{
    match sign_and_digits(s, false) {
        Some((neg, body)) => {
            lemma_digits_value_bound(body);
            assert(pow10(2) == 100) by {
                reveal_with_fuel(pow10, 3);
            }
            assert(pow10(1) == 10) by {
                reveal_with_fuel(pow10, 2);
            }
        },
        None => {},
    }
}

/// The year, month and day fields of `v`, as `date_fields` reads them.
fn read_date_fields(v: &Vec<char>) -> (r: (i32, u32, u32))
    requires
        v.len() >= 10,
    ensures
        r.0 == date_fields(v@).0,
        r.1 == date_fields(v@).1,
        r.2 == date_fields(v@).2,
        -999 <= r.0 <= 9999,
        r.1 < 100,
        r.2 < 100,
{
    proof {
        lemma_year_field(v@.subrange(0, 4));
        lemma_small_field(v@.subrange(5, 7));
        lemma_small_field(v@.subrange(8, 10));
    }
    let y = match chars_parse_i32(&slice_of(v, 0, 4)) {
        Some(y) => y,
        None => 0,
    };
    let m = match chars_parse_u32(&slice_of(v, 5, 7)) {
        Some(m) => m,
        None => 1,
    };
    let d = match chars_parse_u32(&slice_of(v, 8, 10)) {
        Some(d) => d,
        None => 1,
    };
    (y, m, d)
}

/// The date `days` days after the `YYYY-MM-DD` date that `date_str` starts
/// with.
pub fn add_days_to_date(date_str: &str, days: i32) -> (r: String)
    requires
        shift_ok(date_str@, days as int),
    ensures
        r@ == shifted_date(date_str@, days as int),
{
    let v = chars_of(date_str);
    let (y, m, d) = read_date_fields(&v);
    let j = julian_day_of(y, m, d) + (days as i64);
    let (yy, mm, dd) = civil_of(j);
    let mut out: Vec<char> = Vec::new();
    push_signed_padded(&mut out, yy, 4);
    out.push('-');
    push_zero_padded(&mut out, mm as u64, 2);
    out.push('-');
    push_zero_padded(&mut out, dd as u64, 2);
    let ghost c = civil_from_julian(date_julian(date_str@) + days);
    assert(out@ =~= shifted_date(date_str@, days as int));
    string_of(&out)
}

/// The anchor of a date value: `today`, or its literal date.
pub open spec fn anchor_date(v: DateValueModel, today: Seq<char>) -> Seq<char> {
    match v.anchor {
        AnchorModel::Today => today,
        AnchorModel::Date(d) => d,
    }
}

/// A date value can be resolved against `today`.
pub open spec fn resolvable(v: DateValueModel, today: Seq<char>) -> bool {
    shift_ok(anchor_date(v, today), v.offset)
}

/// The date a date value stands for on `today`.
pub open spec fn resolved_date(v: DateValueModel, today: Seq<char>) -> Seq<char> {
    shifted_date(anchor_date(v, today), v.offset)
}

/// Whether a date value can be resolved on `today` (see `resolvable`).
pub fn date_value_resolvable(value: &DateValue, today: &str) -> (r: bool)
    ensures
        r == resolvable(value@, today@),
{
    let anchor = match &value.anchor {
        DateAnchor::Today => today,
        DateAnchor::Date(d) => d.as_str(),
    };
    let v = chars_of(anchor);
    assert(v@ == anchor_date(value@, today@));
    if v.len() < 10 {
        return false;
    }
    let mut i: usize = 0;
    while i < 10
        invariant
            i <= 10 <= v.len(),
            v@ == anchor_date(value@, today@),
            forall|k: int| 0 <= k < i ==> (#[trigger] v@[k] as int) < 128,
        decreases 10 - i,
    {
        if v[i] >= '\u{80}' {
            assert(!((v@[i as int] as int) < 128));
            assert(!ascii_prefix(v@, 10));
            return false;
        }
        i = i + 1;
    }
    let (y, m, d) = read_date_fields(&v);
    let j = julian_day_of(y, m, d) + (value.offset as i64);
    -536870912 <= j + 32044 && j + 32044 <= 536870911
}

/// The concrete `YYYY-MM-DD` date of a date value, relative to `today`.
pub fn resolve_date_value(value: &DateValue, today: &str) -> (r: String)
    requires
        resolvable(value@, today@),
    ensures
        r@ == resolved_date(value@, today@),
{
    match &value.anchor {
        DateAnchor::Today => add_days_to_date(today, value.offset),
        DateAnchor::Date(d) => add_days_to_date(d.as_str(), value.offset),
    }
}

// -- Condition evaluation -----------------------------------------------------

/// The value of a date field of a task.
pub open spec fn date_field_value(t: TaskModel, f: DateField) -> Option<Seq<char>> {
    match f {
        DateField::Due => tag_lookup(t.tags, "due"@),
        DateField::Scheduled => tag_lookup(t.tags, "scheduled"@),
        DateField::Starting => tag_lookup(t.tags, "starting"@),
        DateField::Updated => tag_lookup(t.tags, "updated"@),
        DateField::CreationDate => t.creation_date,
    }
}

/// Whether a task has a value for a field.
pub open spec fn field_present(t: TaskModel, f: Field) -> bool {
    match f {
        Field::Due => tag_lookup(t.tags, "due"@) is Some,
        Field::Scheduled => tag_lookup(t.tags, "scheduled"@) is Some,
        Field::Starting => tag_lookup(t.tags, "starting"@) is Some,
        Field::Updated => tag_lookup(t.tags, "updated"@) is Some,
        Field::CreationDate => t.creation_date is Some,
        Field::Priority => t.priority is Some,
        Field::Project => t.projects.len() > 0,
        Field::Context => t.contexts.len() > 0,
        Field::Description => t.description.len() > 0,
        Field::Done => t.done,
    }
}

/// Some string of `items` contains `needle` once lowercased.
pub open spec fn any_includes(items: Seq<Seq<char>>, needle: Seq<char>) -> bool {
    exists|i: int| 0 <= i < items.len() && has_substring(lowercase(#[trigger] items[i]), needle)
}

/// Whether a text field of a task contains `text`, ignoring case.
pub open spec fn text_found(t: TaskModel, f: TextField, text: Seq<char>) -> bool {
    let needle = lowercase(text);
    match f {
        TextField::Project => any_includes(t.projects, needle),
        TextField::Context => any_includes(t.contexts, needle),
        TextField::Description => has_substring(lowercase(t.description), needle),
    }
}

/// Whether one condition holds of a task on `today`.
pub open spec fn condition_holds(c: ConditionModel, t: TaskModel, today: Seq<char>) -> bool {
    match c {
        ConditionModel::DoneFilter { done } => t.done == done,
        ConditionModel::Existence { field, present } => field_present(t, field) == present,
        ConditionModel::DateComparison { field, op, value } => match date_field_value(t, field) {
            Some(d) => {
                let o = lex_order(d, resolved_date(value, today));
                match op {
                    CompareOp::Eq => d == resolved_date(value, today),
                    CompareOp::Lt => o == Order3::Less,
                    CompareOp::Lte => o != Order3::Greater,
                    CompareOp::Gt => o == Order3::Greater,
                    CompareOp::Gte => o != Order3::Less,
                }
            },
            None => false,
        },
        ConditionModel::PriorityComparison { op, letter } => match t.priority {
            Some(p) => match op {
                PriorityOp::Eq => p == letter,
                PriorityOp::Above => (p as int) < (letter as int),
                PriorityOp::Below => (p as int) > (letter as int),
            },
            None => false,
        },
        ConditionModel::TextMatch { field, op, text } => match op {
            TextOp::Includes => text_found(t, field, text),
            TextOp::Excludes => !text_found(t, field, text),
        },
    }
}

/// A condition can be evaluated on a task: a date comparison resolves its
/// date value only when the task has the compared field.
pub open spec fn condition_evaluable(c: ConditionModel, t: TaskModel, today: Seq<char>) -> bool {
    match c {
        ConditionModel::DateComparison { field, value, .. } => date_field_value(t, field) is Some
            ==> resolvable(value, today),
        _ => true,
    }
}

/// A task can be matched against the blocks: done tasks are skipped without
/// looking at the conditions when no block filters on done.
pub open spec fn task_evaluable(blocks: Seq<Seq<ConditionModel>>, t: TaskModel, today: Seq<char>) -> bool {
    (!t.done || blocks_have_done_filter(blocks)) ==> forall|i: int, j: int|
        0 <= i < blocks.len() && 0 <= j < blocks[i].len() ==> condition_evaluable(
            #[trigger] blocks[i][j],
            t,
            today,
        )
}

/// Every task of `s` can be matched against the blocks.
pub open spec fn tasks_evaluable(blocks: Seq<Seq<ConditionModel>>, s: Seq<StoredModel>, today: Seq<char>) -> bool {
    forall|k: int| 0 <= k < s.len() ==> task_evaluable(blocks, #[trigger] s[k].task, today)
}

fn tag_value<'a>(task: &'a Task, key: &str) -> (r: Option<&'a String>)
    ensures
        match r {
            Some(v) => tag_lookup(task@.tags, key@) == Some(v@),
            None => tag_lookup(task@.tags, key@) is None,
        },
{
    task.tags.get(key)
}

fn date_field_of<'a>(task: &'a Task, field: DateField) -> (r: Option<&'a String>)
    ensures
        match r {
            Some(v) => date_field_value(task@, field) == Some(v@),
            None => date_field_value(task@, field) is None,
        },
{
    match field {
        DateField::Due => tag_value(task, "due"),
        DateField::Scheduled => tag_value(task, "scheduled"),
        DateField::Starting => tag_value(task, "starting"),
        DateField::Updated => tag_value(task, "updated"),
        DateField::CreationDate => match &task.creation_date {
            Some(d) => Some(d),
            None => None,
        },
    }
}

fn field_is_present(task: &Task, field: Field) -> (r: bool)
    ensures
        r == field_present(task@, field),
{
    match field {
        Field::Due => task.tags.contains_key("due"),
        Field::Scheduled => task.tags.contains_key("scheduled"),
        Field::Starting => task.tags.contains_key("starting"),
        Field::Updated => task.tags.contains_key("updated"),
        Field::CreationDate => task.creation_date.is_some(),
        Field::Priority => task.priority.is_some(),
        Field::Project => task.projects.len() > 0,
        Field::Context => task.contexts.len() > 0,
        Field::Description => task.description.as_str().unicode_len() > 0,
        Field::Done => task.done,
    }
}

/// Whether some string of `items` contains `needle` once lowercased.
fn some_includes(items: &Vec<String>, needle: &Vec<char>) -> (r: bool)
    ensures
        r == any_includes(strings_view(items@), needle@),
{
    let ghost v = strings_view(items@);
    let mut i: usize = 0;
    while i < items.len()
        invariant
            i <= items.len(),
            v == strings_view(items@),
            forall|k: int| 0 <= k < i ==> !has_substring(lowercase(#[trigger] v[k]), needle@),
        decreases items.len() - i,
    {
        let lower = to_lower(items[i].as_str());
        if chars_include(&chars_of(lower.as_str()), needle) {
            assert(has_substring(lowercase(v[i as int]), needle@));
            return true;
        }
        i = i + 1;
    }
    false
}

fn text_is_found(task: &Task, field: TextField, text: &String) -> (r: bool)
    ensures
        r == text_found(task@, field, text@),
{
    let needle = chars_of(to_lower(text.as_str()).as_str());
    match field {
        TextField::Project => some_includes(&task.projects, &needle),
        TextField::Context => some_includes(&task.contexts, &needle),
        TextField::Description => chars_include(
            &chars_of(to_lower(task.description.as_str()).as_str()),
            &needle,
        ),
    }
}

fn eval_condition(cond: &Condition, task: &Task, today: &str) -> (r: bool)
    requires
        condition_evaluable(cond@, task@, today@),
    ensures
        r == condition_holds(cond@, task@, today@),
{
    match cond {
        Condition::DoneFilter { done } => task.done == *done,
        Condition::Existence { field, present } => field_is_present(task, *field) == *present,
        Condition::DateComparison { field, op, value } => {
            let task_date = match date_field_of(task, *field) {
                Some(d) => d,
                None => return false,
            };
            let target = resolve_date_value(value, today);
            let o = str_order(task_date.as_str(), target.as_str());
            match op {
                CompareOp::Eq => str_eq(task_date.as_str(), target.as_str()),
                CompareOp::Lt => o == Order3::Less,
                CompareOp::Lte => o != Order3::Greater,
                CompareOp::Gt => o == Order3::Greater,
                CompareOp::Gte => o != Order3::Less,
            }
        },
        Condition::PriorityComparison { op, letter } => {
            let p = match task.priority {
                Some(p) => p,
                None => return false,
            };
            match op {
                PriorityOp::Eq => p == *letter,
                PriorityOp::Above => p < *letter,
                PriorityOp::Below => p > *letter,
            }
        },
        Condition::TextMatch { field, op, text } => {
            let found = text_is_found(task, *field, text);
            match op {
                TextOp::Includes => found,
                TextOp::Excludes => !found,
            }
        },
    }
}

// -- Matching -----------------------------------------------------------------

/// All conditions of a block hold.
pub open spec fn block_holds(b: Seq<ConditionModel>, t: TaskModel, today: Seq<char>) -> bool {
    forall|j: int| 0 <= j < b.len() ==> condition_holds(#[trigger] b[j], t, today)
}

/// Some block states a done filter.
pub open spec fn blocks_have_done_filter(blocks: Seq<Seq<ConditionModel>>) -> bool {
    exists|i: int, j: int|
        0 <= i < blocks.len() && 0 <= j < blocks[i].len() && #[trigger] blocks[i][j] is DoneFilter
}

/// A task matches a list when some block holds of it (the blocks are OR'd,
/// the conditions of a block AND'd); without a done filter in the list, done
/// tasks never match.
pub open spec fn list_matches(blocks: Seq<Seq<ConditionModel>>, t: TaskModel, today: Seq<char>) -> bool {
    &&& (!t.done || blocks_have_done_filter(blocks))
    &&& exists|i: int| 0 <= i < blocks.len() && block_holds(#[trigger] blocks[i], t, today)
}

/// The tasks of `s` that match, in their order.
pub open spec fn select_matching(
    blocks: Seq<Seq<ConditionModel>>,
    s: Seq<StoredModel>,
    today: Seq<char>,
) -> Seq<StoredModel>
    decreases s.len(),
{
    if s.len() == 0 {
        seq![]
    } else {
        let rest = select_matching(blocks, s.drop_last(), today);
        if list_matches(blocks, s.last().task, today) {
            rest.push(s.last())
        } else {
            rest
        }
    }
}

/// Whether any block of the list holds a done filter.
pub fn has_done_filter(list: &SmartList) -> (r: bool)
    ensures
        r == blocks_have_done_filter(list@.blocks),
{
    let ghost blocks = list@.blocks;
    let mut i: usize = 0;
    while i < list.blocks.len()
        invariant
            i <= list.blocks.len(),
            blocks == list@.blocks,
            blocks.len() == list.blocks.len(),
            forall|a: int, b: int|
                0 <= a < i && 0 <= b < blocks[a].len() ==> !(#[trigger] blocks[a][b] is DoneFilter),
        decreases list.blocks.len() - i,
    {
        let conds = &list.blocks[i].conditions;
        assert(blocks[i as int] == conditions_view(conds@));
        let mut j: usize = 0;
        while j < conds.len()
            invariant
                i < list.blocks.len(),
                j <= conds.len(),
                blocks == list@.blocks,
                conds == list.blocks@[i as int].conditions,
                blocks[i as int] == conditions_view(conds@),
                forall|b: int| 0 <= b < j ==> !(#[trigger] blocks[i as int][b] is DoneFilter),
            decreases conds.len() - j,
        {
            if let Condition::DoneFilter { .. } = &conds[j] {
                assert(blocks[i as int][j as int] is DoneFilter);
                return true;
            }
            j = j + 1;
        }
        i = i + 1;
    }
    false
}

fn block_matches(block: &FilterBlock, task: &Task, today: &str) -> (r: bool)
    requires
        forall|j: int| 0 <= j < block@.len() ==> condition_evaluable(#[trigger] block@[j], task@, today@),
    ensures
        r == block_holds(block@, task@, today@),
{
    let mut j: usize = 0;
    while j < block.conditions.len()
        invariant
            j <= block.conditions.len(),
            block@ == conditions_view(block.conditions@),
            forall|k: int| 0 <= k < block@.len() ==> condition_evaluable(#[trigger] block@[k], task@, today@),
            forall|k: int| 0 <= k < j ==> condition_holds(#[trigger] block@[k], task@, today@),
        decreases block.conditions.len() - j,
    {
        assert(block@[j as int] == block.conditions@[j as int]@);
        if !eval_condition(&block.conditions[j], task, today) {
            return false;
        }
        j = j + 1;
    }
    true
}

fn task_matches(list: &SmartList, implied_not_done: bool, task: &Task, today: &str) -> (r: bool)
    requires
        implied_not_done == !blocks_have_done_filter(list@.blocks),
        task_evaluable(list@.blocks, task@, today@),
    ensures
        r == list_matches(list@.blocks, task@, today@),
{
    if implied_not_done && task.done {
        return false;
    }
    let ghost blocks = list@.blocks;
    let mut i: usize = 0;
    while i < list.blocks.len()
        invariant
            i <= list.blocks.len(),
            blocks == list@.blocks,
            blocks.len() == list.blocks.len(),
            task_evaluable(blocks, task@, today@),
            implied_not_done == !blocks_have_done_filter(blocks),
            !(implied_not_done && task.done),
            forall|k: int| 0 <= k < i ==> !block_holds(#[trigger] blocks[k], task@, today@),
        decreases list.blocks.len() - i,
    {
        assert(blocks[i as int] == list.blocks@[i as int]@);
        assert forall|j: int| 0 <= j < list.blocks@[i as int]@.len() implies condition_evaluable(
            #[trigger] list.blocks@[i as int]@[j],
            task@,
            today@,
        ) by {
            assert(blocks[i as int][j] == list.blocks@[i as int]@[j]);
        }
        if block_matches(&list.blocks[i], task, today) {
            return true;
        }
        i = i + 1;
    }
    false
}

fn task_is_evaluable(list: &SmartList, has_done: bool, task: &Task, today: &str) -> (r: bool)
    requires
        has_done == blocks_have_done_filter(list@.blocks),
    ensures
        r == task_evaluable(list@.blocks, task@, today@),
{
    if task.done && !has_done {
        return true;
    }
    let ghost blocks = list@.blocks;
    let mut i: usize = 0;
    while i < list.blocks.len()
        invariant
            i <= list.blocks.len(),
            blocks == list@.blocks,
            blocks.len() == list.blocks.len(),
            has_done == blocks_have_done_filter(blocks),
            !(task.done && !has_done),
            forall|a: int, b: int|
                0 <= a < i && 0 <= b < blocks[a].len() ==> condition_evaluable(#[trigger] blocks[a][b], task@, today@),
        decreases list.blocks.len() - i,
    {
        let conds = &list.blocks[i].conditions;
        assert(blocks[i as int] == conditions_view(conds@));
        let mut j: usize = 0;
        while j < conds.len()
            invariant
                i < list.blocks.len(),
                j <= conds.len(),
                blocks == list@.blocks,
                conds == list.blocks@[i as int].conditions,
                blocks[i as int] == conditions_view(conds@),
                has_done == blocks_have_done_filter(blocks),
                !(task.done && !has_done),
                forall|b: int| 0 <= b < j ==> condition_evaluable(#[trigger] blocks[i as int][b], task@, today@),
            decreases conds.len() - j,
        {
            assert(blocks[i as int][j as int] == conds@[j as int]@);
            if let Condition::DateComparison { field, value, .. } = &conds[j] {
                if date_field_of(task, *field).is_some() && !date_value_resolvable(value, today) {
                    assert(!condition_evaluable(blocks[i as int][j as int], task@, today@));
                    return false;
                }
            }
            j = j + 1;
        }
        i = i + 1;
    }
    true
}

/// Whether every task can be matched against the list (see
/// `tasks_evaluable`).
pub fn tasks_are_evaluable(list: &SmartList, tasks: &[StoredTask], today: &str) -> (r: bool)
    ensures
        r == tasks_evaluable(list@.blocks, stored_view(tasks@), today@),
{
    let has_done = has_done_filter(list);
    let ghost all = stored_view(tasks@);
    let mut k: usize = 0;
    while k < tasks.len()
        invariant
            k <= tasks.len(),
            all == stored_view(tasks@),
            has_done == blocks_have_done_filter(list@.blocks),
            forall|m: int| 0 <= m < k ==> task_evaluable(list@.blocks, #[trigger] all[m].task, today@),
        decreases tasks.len() - k,
    {
        assert(all[k as int].task == tasks@[k as int].task@);
        if !task_is_evaluable(list, has_done, &tasks[k].task, today) {
            return false;
        }
        k = k + 1;
    }
    true
}

/// The tasks that match the list's filter blocks, in their order.
pub fn filter_only(list: &SmartList, tasks: &[StoredTask], today: &str) -> (r: Vec<StoredTask>)
    requires
        tasks_evaluable(list@.blocks, stored_view(tasks@), today@),
    ensures
        stored_view(r@) == select_matching(list@.blocks, stored_view(tasks@), today@),
{
    let mut r: Vec<StoredTask> = Vec::new();
    if list.blocks.len() == 0 {
        proof {
            lemma_select_nothing(list@.blocks, stored_view(tasks@), today@);
        }
        assert(stored_view(r@) =~= Seq::<StoredModel>::empty());
        return r;
    }
    let implied_not_done = !has_done_filter(list);
    let ghost all = stored_view(tasks@);
    let mut i: usize = 0;
    while i < tasks.len()
        invariant
            i <= tasks.len(),
            all == stored_view(tasks@),
            implied_not_done == !blocks_have_done_filter(list@.blocks),
            tasks_evaluable(list@.blocks, all, today@),
            stored_view(r@) == select_matching(list@.blocks, all.subrange(0, i as int), today@),
        decreases tasks.len() - i,
    {
        let ghost before = r@;
        assert(all.subrange(0, i + 1).drop_last() =~= all.subrange(0, i as int));
        assert(all[i as int].task == tasks@[i as int].task@);
        if task_matches(list, implied_not_done, &tasks[i].task, today) {
            r.push(tasks[i].duplicate());
            assert(stored_view(r@) =~= stored_view(before).push(tasks@[i as int]@));
        }
        i = i + 1;
    }
    assert(all.subrange(0, tasks.len() as int) =~= all);
    r
}

proof fn lemma_select_nothing(
    blocks: Seq<Seq<ConditionModel>>,
    s: Seq<StoredModel>,
    today: Seq<char>,
)
    requires
        blocks.len() == 0,
    ensures
        select_matching(blocks, s, today) == Seq::<StoredModel>::empty(),
    decreases s.len(),
{
    if s.len() > 0 {
        lemma_select_nothing(blocks, s.drop_last(), today);
    }
}

// -- Sorting ------------------------------------------------------------------

/// The value a task is sorted by for a field; done tasks sort as `"1"`,
/// open ones as `"0"`.
pub open spec fn sort_key(t: TaskModel, f: Field) -> Option<Seq<char>> {
    match f {
        Field::Due => tag_lookup(t.tags, "due"@),
        Field::Scheduled => tag_lookup(t.tags, "scheduled"@),
        Field::Starting => tag_lookup(t.tags, "starting"@),
        Field::Updated => tag_lookup(t.tags, "updated"@),
        Field::CreationDate => t.creation_date,
        Field::Priority => match t.priority {
            Some(c) => Some(seq![c]),
            None => None,
        },
        Field::Project => if t.projects.len() > 0 {
            Some(t.projects[0])
        } else {
            None
        },
        Field::Context => if t.contexts.len() > 0 {
            Some(t.contexts[0])
        } else {
            None
        },
        Field::Description => Some(t.description),
        Field::Done => Some(if t.done {
            seq!['1']
        } else {
            seq!['0']
        }),
    }
}

/// The order of two tasks under sort directives: the first directive that
/// tells them apart decides; tasks with a value come before tasks without
/// one, and a descending directive reverses its comparison.
pub open spec fn directive_order(dirs: Seq<Directive>, a: TaskModel, b: TaskModel) -> Order3
    decreases dirs.len(),
{
    if dirs.len() == 0 {
        Order3::Equal
    } else {
        let o = date_order(sort_key(a, dirs[0].field), sort_key(b, dirs[0].field));
        let o = if dirs[0].direction == Direction::Desc {
            o.flip()
        } else {
            o
        };
        if o != Order3::Equal {
            o
        } else {
            directive_order(dirs.drop_first(), a, b)
        }
    }
}

pub proof fn lemma_directive_order_flip(dirs: Seq<Directive>, a: TaskModel, b: TaskModel)
    ensures
        directive_order(dirs, b, a) == directive_order(dirs, a, b).flip(),
    decreases dirs.len(),
{
    if dirs.len() > 0 {
        lemma_date_order_flip(sort_key(a, dirs[0].field), sort_key(b, dirs[0].field));
        lemma_directive_order_flip(dirs.drop_first(), a, b);
    }
}

/// Adjacent tasks are in directive order.
pub open spec fn sorted_by_directives(s: Seq<StoredModel>, dirs: Seq<Directive>) -> bool {
    forall|i: int|
        0 <= i < s.len() - 1 ==> directive_order(dirs, s[i].task, #[trigger] s[i + 1].task)
            != Order3::Greater
}

fn sort_key_of(task: &Task, field: Field) -> (r: Option<String>)
    ensures
        match r {
            Some(v) => sort_key(task@, field) == Some(v@),
            None => sort_key(task@, field) is None,
        },
{
    match field {
        Field::Due => task.tags.get_owned("due"),
        Field::Scheduled => task.tags.get_owned("scheduled"),
        Field::Starting => task.tags.get_owned("starting"),
        Field::Updated => task.tags.get_owned("updated"),
        Field::CreationDate => crate::text::copy_opt_string(&task.creation_date),
        Field::Priority => match task.priority {
            Some(c) => {
                let mut s = String::new();
                crate::text::push_char(&mut s, c);
                Some(s)
            },
            None => None,
        },
        Field::Project => if task.projects.len() > 0 {
            Some(task.projects[0].clone())
        } else {
            None
        },
        Field::Context => if task.contexts.len() > 0 {
            Some(task.contexts[0].clone())
        } else {
            None
        },
        Field::Description => Some(task.description.clone()),
        Field::Done => {
            let mut s = String::new();
            crate::text::push_char(&mut s, if task.done { '1' } else { '0' });
            Some(s)
        },
    }
}

fn compare_by_directives(a: &Task, b: &Task, directives: &[Directive]) -> (r: Order3)
    ensures
        r == directive_order(directives@, a@, b@),
{
    let mut i: usize = 0;
    assert(directives@.skip(0) =~= directives@);
    while i < directives.len()
        invariant
            i <= directives.len(),
            directive_order(directives@, a@, b@) == directive_order(directives@.skip(i as int), a@, b@),
        decreases directives.len() - i,
    {
        let d = directives[i];
        assert(directives@.skip(i as int)[0] == d);
        assert(directives@.skip(i as int).drop_first() =~= directives@.skip(i + 1));
        let ka = sort_key_of(a, d.field);
        let kb = sort_key_of(b, d.field);
        let o = match (&ka, &kb) {
            (Some(x), Some(y)) => str_order(x.as_str(), y.as_str()),
            (Some(_), None) => Order3::Less,
            (None, Some(_)) => Order3::Greater,
            (None, None) => Order3::Equal,
        };
        let o = if d.direction == Direction::Desc {
            o.reverse()
        } else {
            o
        };
        if o != Order3::Equal {
            return o;
        }
        i = i + 1;
    }
    Order3::Equal
}

/// Orders stored tasks by a list of sort directives.
pub struct DirectiveOrderer<'a> {
    pub directives: &'a [Directive],
}

impl<'a> Orderer<StoredTask> for DirectiveOrderer<'a> {
    open spec fn spec_order(&self, a: StoredTask, b: StoredTask) -> Order3 {
        directive_order(self.directives@, a.task@, b.task@)
    }

    proof fn lemma_flip(&self, a: StoredTask, b: StoredTask) {
        lemma_directive_order_flip(self.directives@, a.task@, b.task@);
    }

    fn order(&self, a: &StoredTask, b: &StoredTask) -> (r: Order3) {
        compare_by_directives(&a.task, &b.task, self.directives)
    }
}

/// The directive order of two stored tasks, as a function.
pub open spec fn stored_directive_order(dirs: Seq<Directive>) -> spec_fn(StoredModel, StoredModel) -> Order3 {
    |a: StoredModel, b: StoredModel| directive_order(dirs, a.task, b.task)
}

/// Sorts tasks by the directives (the first directive takes precedence);
/// the tasks themselves are kept, only their order changes, and tasks that
/// tie on every directive keep their order.
pub fn sort_by_directives(tasks: &mut Vec<StoredTask>, directives: &[Directive])
    ensures
        sorted_by_directives(stored_view(final(tasks)@), directives@),
        final(tasks)@.to_multiset() == old(tasks)@.to_multiset(),
        stored_view(final(tasks)@).to_multiset() == stored_view(old(tasks)@).to_multiset(),
        exists|idx: Seq<int>| #[trigger] stable_arrangement(
            stored_view(final(tasks)@),
            stored_view(old(tasks)@),
            stored_directive_order(directives@),
            idx,
        ),
{
    let o = DirectiveOrderer { directives };
    sort_by(tasks, &o);
    proof {
        lemma_map_multiset(final(tasks)@, old(tasks)@, |s: StoredTask| s@);
        assert forall|i: int| 0 <= i < stored_view(final(tasks)@).len() - 1 implies directive_order(
            directives@,
            stored_view(final(tasks)@)[i].task,
            #[trigger] stored_view(final(tasks)@)[i + 1].task,
        ) != Order3::Greater by {
            assert(o.spec_order(final(tasks)@[i], final(tasks)@[i + 1]) != Order3::Greater);
        }
        let idx = choose|idx: Seq<int>| #[trigger] stable_arrangement(final(tasks)@, old(tasks)@, order_of(&o), idx);
        let out = stored_view(final(tasks)@);
        let inp = stored_view(old(tasks)@);
        let ord = stored_directive_order(directives@);
        assert forall|k: int| 0 <= k < out.len() implies 0 <= #[trigger] idx[k] < inp.len() && out[k] == inp[idx[k]] by {
            assert(final(tasks)@[k] == old(tasks)@[idx[k]]);
        }
        assert forall|k1: int, k2: int|
            #![trigger idx[k1], idx[k2]]
            0 <= k1 < k2 < out.len() && ord(out[k1], out[k2]) == Order3::Equal implies idx[k1] < idx[k2] by {
            assert(order_of(&o)(final(tasks)@[k1], final(tasks)@[k2]) == ord(out[k1], out[k2]));
        }
        assert(stable_arrangement(out, inp, ord, idx));
    }
}

/// The tasks that match the list, sorted by its sort directives.
pub fn evaluate(list: &SmartList, tasks: &[StoredTask], today: &str) -> (r: Vec<StoredTask>)
    requires
        tasks_evaluable(list@.blocks, stored_view(tasks@), today@),
    ensures
        stored_view(r@).to_multiset() == select_matching(
            list@.blocks,
            stored_view(tasks@),
            today@,
        ).to_multiset(),
        sorted_by_directives(stored_view(r@), list@.sort_directives),
        exists|idx: Seq<int>| #[trigger] stable_arrangement(
            stored_view(r@),
            select_matching(list@.blocks, stored_view(tasks@), today@),
            stored_directive_order(list@.sort_directives),
            idx,
        ),
{
    let mut matched = filter_only(list, tasks, today);
    sort_by_directives(&mut matched, list.sort_directives.as_slice());
    matched
}

// -- Grouping -----------------------------------------------------------------

/// A labelled group of tasks.
#[derive(Debug, Clone)]
pub struct TaskGroup {
    pub label: String,
    pub tasks: Vec<StoredTask>,
}

pub ghost struct GroupModel {
    pub label: Seq<char>,
    pub tasks: Seq<StoredModel>,
}

impl View for TaskGroup {
    type V = GroupModel;

    open spec fn view(&self) -> GroupModel {
        GroupModel { label: self.label@, tasks: stored_view(self.tasks@) }
    }
}

pub open spec fn groups_view(v: Seq<TaskGroup>) -> Seq<GroupModel> {
    v.map_values(|g: TaskGroup| g@)
}

/// The lowercase name of a field, as shown to the user.
pub open spec fn field_name(f: Field) -> Seq<char> {
    match f {
        Field::Due => "due"@,
        Field::Scheduled => "scheduled"@,
        Field::Starting => "starting"@,
        Field::Updated => "updated"@,
        Field::CreationDate => "creation date"@,
        Field::Priority => "priority"@,
        Field::Project => "project"@,
        Field::Context => "context"@,
        Field::Description => "description"@,
        Field::Done => "done"@,
    }
}

/// The display name of a field.
pub fn field_display_name(field: &Field) -> (r: &'static str)
    ensures
        r@ == field_name(*field),
{
    match field {
        Field::Due => "due",
        Field::Scheduled => "scheduled",
        Field::Starting => "starting",
        Field::Updated => "updated",
        Field::CreationDate => "creation date",
        Field::Priority => "priority",
        Field::Project => "project",
        Field::Context => "context",
        Field::Description => "description",
        Field::Done => "done",
    }
}

/// `s` with its first character uppercased, for a first character that is
/// ASCII.
pub open spec fn capitalized(s: Seq<char>) -> Seq<char> {
    if s.len() == 0 {
        s
    } else if 'a' <= s[0] && s[0] <= 'z' {
        s.update(0, ((s[0] as int) - 32) as char)
    } else {
        s
    }
}

fn capitalize(s: &str) -> (r: String)
    ensures
        r@ == capitalized(s@),
{
    let mut v = chars_of(s);
    if v.len() > 0 && 'a' <= v[0] && v[0] <= 'z' {
        let c = v[0];
        let u = (((c as u32) - 32) as u8) as char;
        assert(u == ((c as int) - 32) as char);
        v.set(0, u);
    }
    string_of(&v)
}

/// The value a task is grouped by for a field: as for sorting, but done
/// status reads `Done` or `Not done`.
pub open spec fn group_key(t: TaskModel, f: Field) -> Option<Seq<char>> {
    match f {
        Field::Done => Some(if t.done {
            "Done"@
        } else {
            "Not done"@
        }),
        _ => sort_key(t, f),
    }
}

/// The tasks of `s` whose group key is `k`, in their order.
pub open spec fn with_key(s: Seq<StoredModel>, f: Field, k: Option<Seq<char>>) -> Seq<StoredModel>
    decreases s.len(),
{
    if s.len() == 0 {
        seq![]
    } else {
        let rest = with_key(s.drop_last(), f, k);
        if group_key(s.last().task, f) == k {
            rest.push(s.last())
        } else {
            rest
        }
    }
}

/// `keys` are the distinct values present in `tasks` for field `f`, in
/// ascending (or, with `desc`, descending) order.
pub open spec fn keys_of(keys: Seq<Seq<char>>, tasks: Seq<StoredModel>, f: Field, desc: bool) -> bool {
    &&& forall|i: int, j: int|
        0 <= i < j < keys.len() ==> lex_order(#[trigger] keys[i], #[trigger] keys[j]) == (if desc {
            Order3::Greater
        } else {
            Order3::Less
        })
    &&& forall|i: int| 0 <= i < keys.len() ==> with_key(tasks, f, Some(#[trigger] keys[i])).len() > 0
    &&& forall|t: int|
        0 <= t < tasks.len() && group_key(tasks[t].task, f) is Some ==> exists|i: int|
            0 <= i < keys.len() && Some(#[trigger] keys[i]) == group_key(tasks[t].task, f)
}

pub open spec fn is_desc(d: Directive) -> bool {
    d.direction == Direction::Desc
}

/// The labelled group of the tasks whose value for `f` is `key`.
pub open spec fn value_group(tasks: Seq<StoredModel>, f: Field, key: Seq<char>) -> GroupModel {
    GroupModel {
        label: capitalized(field_name(f)) + ": "@ + key,
        tasks: with_key(tasks, f, Some(key)),
    }
}

/// The groups of `tasks` under the directives: without a directive, one
/// unlabelled group of all tasks; otherwise one group per distinct value of
/// the first directive's field, in its direction, followed by a `No <field>`
/// group of the tasks without a value when there are any.
pub open spec fn groups_of(groups: Seq<GroupModel>, dirs: Seq<Directive>, tasks: Seq<StoredModel>) -> bool {
    if dirs.len() == 0 {
        groups == seq![GroupModel { label: seq![], tasks }]
    } else {
        let f = dirs[0].field;
        let rest = with_key(tasks, f, None);
        let n = if rest.len() > 0 {
            groups.len() - 1
        } else {
            groups.len() as int
        };
        &&& n >= 0
        &&& rest.len() > 0 ==> groups.last() == GroupModel { label: "No "@ + field_name(f), tasks: rest }
        &&& exists|keys: Seq<Seq<char>>|
            #![trigger keys_of(keys, tasks, f, is_desc(dirs[0]))]
            keys.len() == n && keys_of(keys, tasks, f, is_desc(dirs[0]))
                && forall|i: int| 0 <= i < n ==> groups[i] == value_group(tasks, f, #[trigger] keys[i])
    }
}

/// `lex_order` is transitive on `Less`.
pub proof fn lemma_lex_order_trans(a: Seq<char>, b: Seq<char>, c: Seq<char>)
    requires
        lex_order(a, b) == Order3::Less,
        lex_order(b, c) == Order3::Less,
    ensures
        lex_order(a, c) == Order3::Less,
    decreases a.len(),
{
    if a.len() > 0 && b.len() > 0 && c.len() > 0 && a[0] == b[0] && b[0] == c[0] {
        lemma_lex_order_trans(a.drop_first(), b.drop_first(), c.drop_first());
    }
}

proof fn lemma_with_key_absent(s: Seq<StoredModel>, f: Field, k: Option<Seq<char>>)
    requires
        forall|t: int| 0 <= t < s.len() ==> group_key(#[trigger] s[t].task, f) != k,
    ensures
        with_key(s, f, k) == Seq::<StoredModel>::empty(),
    decreases s.len(),
{
    if s.len() > 0 {
        assert forall|t: int| 0 <= t < s.drop_last().len() implies group_key(
            #[trigger] s.drop_last()[t].task,
            f,
        ) != k by {
            assert(s.drop_last()[t] == s[t]);
        }
        lemma_with_key_absent(s.drop_last(), f, k);
        assert(group_key(s[s.len() - 1].task, f) != k);
    }
}

fn group_key_of(task: &Task, field: Field) -> (r: Option<String>)
    ensures
        opt_view(r) == group_key(task@, field),
{
    match field {
        Field::Done => Some(owned(if task.done { "Done" } else { "Not done" })),
        _ => sort_key_of(task, field),
    }
}

pub open spec fn buckets_view(v: Seq<Vec<StoredTask>>) -> Seq<Seq<StoredModel>> {
    v.map_values(|b: Vec<StoredTask>| stored_view(b@))
}

/// The state of grouping after the first tasks `s`: the distinct keys seen,
/// ascending, the tasks of each key, and the tasks without a key.
pub open spec fn buckets_inv(
    keys: Seq<Seq<char>>,
    buckets: Seq<Seq<StoredModel>>,
    none: Seq<StoredModel>,
    s: Seq<StoredModel>,
    f: Field,
) -> bool {
    &&& keys.len() == buckets.len()
    &&& keys_of(keys, s, f, false)
    &&& forall|a: int| 0 <= a < keys.len() ==> buckets[a] == with_key(s, f, Some(#[trigger] keys[a]))
    &&& none == with_key(s, f, None)
}

proof fn lemma_keys_distinct(keys: Seq<Seq<char>>, a: int, b: int)
    requires
        forall|i: int, j: int| 0 <= i < j < keys.len() ==> lex_order(#[trigger] keys[i], #[trigger] keys[j]) == Order3::Less,
        0 <= a < keys.len(),
        0 <= b < keys.len(),
        a != b,
    ensures
        keys[a] != keys[b],
{
    if a < b {
        lemma_lex_order_equal(keys[a], keys[b]);
    } else {
        lemma_lex_order_equal(keys[b], keys[a]);
    }
}

proof fn lemma_add_none(
    kv: Seq<Seq<char>>,
    bv: Seq<Seq<StoredModel>>,
    nv: Seq<StoredModel>,
    s: Seq<StoredModel>,
    x: StoredModel,
    f: Field,
)
    requires
        buckets_inv(kv, bv, nv, s, f),
        group_key(x.task, f) is None,
    ensures
        buckets_inv(kv, bv, nv.push(x), s.push(x), f),
{
    let s2 = s.push(x);
    assert(s2.drop_last() =~= s);
    assert forall|t: int| 0 <= t < s2.len() && group_key(s2[t].task, f) is Some implies exists|i: int|
        0 <= i < kv.len() && Some(#[trigger] kv[i]) == group_key(s2[t].task, f) by {
        assert(s2[t] == s[t]);
    }
    assert forall|a: int| 0 <= a < kv.len() implies with_key(s2, f, Some(#[trigger] kv[a])).len() > 0 by {
        assert(with_key(s2, f, Some(kv[a])) == with_key(s, f, Some(kv[a])));
    }
}

proof fn lemma_add_existing(
    kv: Seq<Seq<char>>,
    bv: Seq<Seq<StoredModel>>,
    nv: Seq<StoredModel>,
    s: Seq<StoredModel>,
    x: StoredModel,
    f: Field,
    p: int,
)
    requires
        buckets_inv(kv, bv, nv, s, f),
        0 <= p < kv.len(),
        group_key(x.task, f) == Some(kv[p]),
    ensures
        buckets_inv(kv, bv.update(p, bv[p].push(x)), nv, s.push(x), f),
{
    let s2 = s.push(x);
    assert(s2.drop_last() =~= s);
    let bv2 = bv.update(p, bv[p].push(x));
    assert forall|a: int| 0 <= a < kv.len() implies bv2[a] == with_key(s2, f, Some(#[trigger] kv[a])) by {
        if a != p {
            lemma_keys_distinct(kv, a, p);
        }
    }
    assert forall|a: int| 0 <= a < kv.len() implies with_key(s2, f, Some(#[trigger] kv[a])).len() > 0 by {
        if a != p {
            lemma_keys_distinct(kv, a, p);
        }
    }
    assert forall|t: int| 0 <= t < s2.len() && group_key(s2[t].task, f) is Some implies exists|i: int|
        0 <= i < kv.len() && Some(#[trigger] kv[i]) == group_key(s2[t].task, f) by {
        if t < s.len() {
            assert(s2[t] == s[t]);
        } else {
            assert(Some(kv[p]) == group_key(s2[t].task, f));
        }
    }
}

proof fn lemma_add_new(
    kv: Seq<Seq<char>>,
    bv: Seq<Seq<StoredModel>>,
    nv: Seq<StoredModel>,
    s: Seq<StoredModel>,
    x: StoredModel,
    f: Field,
    p: int,
    k: Seq<char>,
)
    requires
        buckets_inv(kv, bv, nv, s, f),
        0 <= p <= kv.len(),
        group_key(x.task, f) == Some(k),
        forall|a: int| 0 <= a < p ==> lex_order(#[trigger] kv[a], k) == Order3::Less,
        p < kv.len() ==> lex_order(kv[p], k) != Order3::Less && kv[p] != k,
    ensures
        buckets_inv(kv.insert(p, k), bv.insert(p, seq![x]), nv, s.push(x), f),
{
    let s2 = s.push(x);
    assert(s2.drop_last() =~= s);
    if p < kv.len() {
        lemma_lex_order_equal(kv[p], k);
        lemma_lex_order_flip(kv[p], k);
    }
    assert forall|m: int| p <= m < kv.len() implies lex_order(k, #[trigger] kv[m]) == Order3::Less by {
        if m > p {
            lemma_lex_order_trans(k, kv[p], kv[m]);
        }
    }
    assert forall|t: int| 0 <= t < s.len() implies group_key(#[trigger] s[t].task, f) != Some(k) by {
        if group_key(s[t].task, f) == Some(k) {
            let i = choose|i: int| 0 <= i < kv.len() && Some(#[trigger] kv[i]) == group_key(s[t].task, f);
            if i < p {
                lemma_lex_order_equal(kv[i], k);
            } else {
                lemma_lex_order_equal(k, kv[i]);
            }
        }
    }
    lemma_with_key_absent(s, f, Some(k));
    assert(with_key(s2, f, Some(k)) =~= seq![x]);
    let kv2 = kv.insert(p, k);
    let bv2 = bv.insert(p, seq![x]);
    assert forall|i: int, j: int| 0 <= i < j < kv2.len() implies lex_order(#[trigger] kv2[i], #[trigger] kv2[j]) == Order3::Less by {
        if j < p {
        } else if j == p {
        } else if i < p {
            lemma_lex_order_trans(kv[i], k, kv[j - 1]);
        } else if i == p {
        } else {
            assert(kv2[i] == kv[i - 1] && kv2[j] == kv[j - 1]);
        }
    }
    assert forall|a: int| 0 <= a < kv2.len() implies bv2[a] == with_key(s2, f, Some(#[trigger] kv2[a])) && with_key(s2, f, Some(kv2[a])).len() > 0 by {
        if a < p {
            lemma_keys_distinct(kv2, a, p);
        } else if a > p {
            lemma_keys_distinct(kv2, a, p);
            assert(kv2[a] == kv[a - 1]);
        }
    }
    assert forall|t: int| 0 <= t < s2.len() && group_key(s2[t].task, f) is Some implies exists|i: int|
        0 <= i < kv2.len() && Some(#[trigger] kv2[i]) == group_key(s2[t].task, f) by {
        if t < s.len() {
            assert(s2[t] == s[t]);
            let i = choose|i: int| 0 <= i < kv.len() && Some(#[trigger] kv[i]) == group_key(s[t].task, f);
            if i < p {
                assert(kv2[i] == kv[i]);
            } else {
                assert(kv2[i + 1] == kv[i]);
            }
        } else {
            assert(Some(kv2[p]) == group_key(s2[t].task, f));
        }
    }
}

/// Adds one task to the grouping state.
fn add_to_buckets(
    keys: &mut Vec<String>,
    buckets: &mut Vec<Vec<StoredTask>>,
    none: &mut Vec<StoredTask>,
    st: &StoredTask,
    field: Field,
    Ghost(s): Ghost<Seq<StoredModel>>,
)
    requires
        buckets_inv(strings_view(old(keys)@), buckets_view(old(buckets)@), stored_view(old(none)@), s, field),
    ensures
        buckets_inv(strings_view(final(keys)@), buckets_view(final(buckets)@), stored_view(final(none)@), s.push(st@), field),
{
    let ghost kv0 = strings_view(keys@);
    let ghost b0 = buckets_view(buckets@);
    let ghost n0 = stored_view(none@);
    match group_key_of(&st.task, field) {
        None => {
            none.push(st.duplicate());
            proof {
                assert(stored_view(none@) =~= n0.push(st@));
                lemma_add_none(kv0, b0, n0, s, st@, field);
            }
        },
        Some(k) => {
            let mut p: usize = 0;
            while p < keys.len() && str_order(keys[p].as_str(), k.as_str()) == Order3::Less
                invariant
                    p <= keys.len(),
                    kv0 == strings_view(keys@),
                    forall|a: int| 0 <= a < p ==> lex_order(#[trigger] kv0[a], k@) == Order3::Less,
                decreases keys.len() - p,
            {
                assert(kv0[p as int] == keys@[p as int]@);
                p = p + 1;
            }
            if p < keys.len() && str_eq(keys[p].as_str(), k.as_str()) {
                let ghost old_buckets = buckets@;
                let mut b = buckets.remove(p);
                let ghost bb = b@;
                b.push(st.duplicate());
                proof {
                    assert(stored_view(b@) =~= stored_view(bb).push(st@));
                    assert(stored_view(bb) == b0[p as int]);
                }
                buckets.insert(p, b);
                proof {
                    assert(buckets@ =~= old_buckets.update(p as int, b));
                    assert(kv0[p as int] == k@);
                    assert(buckets_view(buckets@) =~= b0.update(p as int, b0[p as int].push(st@)));
                    lemma_add_existing(kv0, b0, n0, s, st@, field, p as int);
                }
            } else {
                let ghost kk = k@;
                proof {
                    if p < keys.len() {
                        assert(kv0[p as int] == keys@[p as int]@);
                    }
                }
                let mut b: Vec<StoredTask> = Vec::new();
                b.push(st.duplicate());
                keys.insert(p, k);
                buckets.insert(p, b);
                proof {
                    assert(stored_view(b@) =~= seq![st@]);
                    assert(strings_view(keys@) =~= kv0.insert(p as int, kk));
                    assert(buckets_view(buckets@) =~= b0.insert(p as int, seq![st@]));
                    lemma_add_new(kv0, b0, n0, s, st@, field, p as int, kk);
                }
            }
        },
    }
}

proof fn lemma_keys_reversed(kv: Seq<Seq<char>>, s: Seq<StoredModel>, f: Field)
    requires
        keys_of(kv, s, f, false),
    ensures
        keys_of(kv.reverse(), s, f, true),
{
    let rv = kv.reverse();
    assert forall|i: int, j: int| 0 <= i < j < rv.len() implies lex_order(#[trigger] rv[i], #[trigger] rv[j]) == Order3::Greater by {
        let n = kv.len() as int;
        assert(rv[i] == kv[n - 1 - i] && rv[j] == kv[n - 1 - j]);
        lemma_lex_order_flip(kv[n - 1 - j], kv[n - 1 - i]);
    }
    assert forall|i: int| 0 <= i < rv.len() implies with_key(s, f, Some(#[trigger] rv[i])).len() > 0 by {
        assert(rv[i] == kv[kv.len() - 1 - i]);
    }
    assert forall|t: int| 0 <= t < s.len() && group_key(s[t].task, f) is Some implies exists|i: int|
        0 <= i < rv.len() && Some(#[trigger] rv[i]) == group_key(s[t].task, f) by {
        let i = choose|i: int| 0 <= i < kv.len() && Some(#[trigger] kv[i]) == group_key(s[t].task, f);
        assert(rv[kv.len() - 1 - i] == kv[i]);
    }
}

/// Groups tasks by the first group directive (see `groups_of`).
pub fn group_by_directives(directives: &[Directive], tasks: &[StoredTask]) -> (r: Vec<TaskGroup>)
    ensures
        groups_of(groups_view(r@), directives@, stored_view(tasks@)),
{
    let mut r: Vec<TaskGroup> = Vec::new();
    if directives.len() == 0 {
        r.push(TaskGroup { label: String::new(), tasks: duplicate_all(tasks) });
        assert(groups_view(r@) =~= seq![GroupModel { label: seq![], tasks: stored_view(tasks@) }]);
        return r;
    }
    let d = directives[0];
    let field = d.field;
    let desc = d.direction == Direction::Desc;
    let ghost all = stored_view(tasks@);
    let mut keys: Vec<String> = Vec::new();
    let mut buckets: Vec<Vec<StoredTask>> = Vec::new();
    let mut none: Vec<StoredTask> = Vec::new();
    proof {
        assert(strings_view(keys@) =~= Seq::<Seq<char>>::empty());
        assert(buckets_view(buckets@) =~= Seq::<Seq<StoredModel>>::empty());
        assert(stored_view(none@) =~= Seq::<StoredModel>::empty());
        assert(all.subrange(0, 0) =~= Seq::<StoredModel>::empty());
    }
    let mut i: usize = 0;
    while i < tasks.len()
        invariant
            i <= tasks.len(),
            all == stored_view(tasks@),
            buckets_inv(strings_view(keys@), buckets_view(buckets@), stored_view(none@), all.subrange(0, i as int), field),
        decreases tasks.len() - i,
    {
        assert(all.subrange(0, i + 1) =~= all.subrange(0, i as int).push(tasks@[i as int]@));
        add_to_buckets(&mut keys, &mut buckets, &mut none, &tasks[i], field, Ghost(all.subrange(0, i as int)));
        i = i + 1;
    }
    assert(all.subrange(0, tasks.len() as int) =~= all);
    let ghost kv = strings_view(keys@);
    let ghost out = if desc { kv.reverse() } else { kv };
    proof {
        if desc {
            lemma_keys_reversed(kv, all, field);
        }
    }
    let mut prefix = capitalize(field_display_name(&field));
    push_str(&mut prefix, ": ");
    let n = keys.len();
    let mut j: usize = 0;
    while j < n
        invariant
            j <= n,
            n == keys.len(),
            n == buckets.len(),
            kv == strings_view(keys@),
            out == (if desc { kv.reverse() } else { kv }),
            buckets_inv(kv, buckets_view(buckets@), stored_view(none@), all, field),
            prefix@ == capitalized(field_name(field)) + ": "@,
            r.len() == j,
            forall|m: int| 0 <= m < j ==> #[trigger] groups_view(r@)[m] == value_group(all, field, out[m]),
        decreases n - j,
    {
        let idx = if desc { n - 1 - j } else { j };
        let mut label = prefix.clone();
        push_str(&mut label, keys[idx].as_str());
        let ghost before = r@;
        r.push(TaskGroup { label, tasks: duplicate_all(buckets[idx].as_slice()) });
        proof {
            assert(buckets_view(buckets@)[idx as int] == stored_view(buckets@[idx as int]@));
            assert(out[j as int] == kv[idx as int]);
            assert forall|m: int| 0 <= m < j + 1 implies #[trigger] groups_view(r@)[m] == value_group(all, field, out[m]) by {
                if m < j {
                    assert(groups_view(r@)[m] == groups_view(before)[m]);
                }
            }
        }
        j = j + 1;
    }
    if none.len() > 0 {
        let mut label = owned("No ");
        push_str(&mut label, field_display_name(&field));
        let ghost before = r@;
        r.push(TaskGroup { label, tasks: none });
        proof {
            assert forall|m: int| 0 <= m < n implies #[trigger] groups_view(r@)[m] == value_group(all, field, out[m]) by {
                assert(groups_view(r@)[m] == groups_view(before)[m]);
            }
        }
    }
    proof {
        assert(out.len() == n);
        assert(keys_of(out, all, field, is_desc(directives@[0])));
    }
    r
}

/// The groups of the tasks under the list's group directives.
pub fn group(list: &SmartList, tasks: &[StoredTask]) -> (r: Vec<TaskGroup>)
    ensures
        groups_of(groups_view(r@), list@.group_directives, stored_view(tasks@)),
{
    group_by_directives(list.group_directives.as_slice(), tasks)
}

// -- Laws -----------------------------------------------------------------------

/// How the date comparisons relate, for a task's date field and a date value:
/// `=` holds exactly when the task's date is the resolved date; `<=` is `<`
/// or `=`, `>=` is `>` or `=`; `<` and `>` never both hold; and, when the
/// task has the field, `>=` holds exactly when `<` does not and `<=`
/// exactly when `>` does not.  Without the field no comparison holds.
pub proof fn law_date_comparisons(field: DateField, value: DateValueModel, t: TaskModel, today: Seq<char>)
    ensures
        ({
            let holds = |op: CompareOp| condition_holds(ConditionModel::DateComparison { field, op, value }, t, today);
            &&& holds(CompareOp::Eq) == (date_field_value(t, field) == Some(resolved_date(value, today)))
            &&& holds(CompareOp::Lte) == (holds(CompareOp::Lt) || holds(CompareOp::Eq))
            &&& holds(CompareOp::Gte) == (holds(CompareOp::Gt) || holds(CompareOp::Eq))
            &&& !(holds(CompareOp::Lt) && holds(CompareOp::Gt))
            &&& date_field_value(t, field) is Some ==> holds(CompareOp::Gte) == !holds(CompareOp::Lt)
            &&& date_field_value(t, field) is Some ==> holds(CompareOp::Lte) == !holds(CompareOp::Gt)
            &&& date_field_value(t, field) is None ==> !holds(CompareOp::Eq) && !holds(CompareOp::Lt)
                && !holds(CompareOp::Lte) && !holds(CompareOp::Gt) && !holds(CompareOp::Gte)
        }),
{
    if let Some(d) = date_field_value(t, field) {
        lemma_lex_order_equal(d, resolved_date(value, today));
    }
}

/// A task's sort and group key for projects (contexts) is its first project
/// (context) in the order of its line; a task without one has no key.
pub proof fn law_first_project_and_context_key(t: TaskModel)
    ensures
        t.projects.len() > 0 ==> sort_key(t, Field::Project) == Some(t.projects[0])
            && group_key(t, Field::Project) == Some(t.projects[0]),
        t.projects.len() == 0 ==> sort_key(t, Field::Project) is None && group_key(t, Field::Project) is None,
        t.contexts.len() > 0 ==> sort_key(t, Field::Context) == Some(t.contexts[0])
            && group_key(t, Field::Context) == Some(t.contexts[0]),
        t.contexts.len() == 0 ==> sort_key(t, Field::Context) is None && group_key(t, Field::Context) is None,
{
}

/// Sorting by project, ascending: two tasks with projects compare as their
/// first projects do, and a task with a project comes before one without.
pub proof fn law_sort_by_first_project(a: TaskModel, b: TaskModel)
    ensures
        a.projects.len() > 0 && b.projects.len() > 0 ==> directive_order(
            seq![Directive { field: Field::Project, direction: Direction::Asc }],
            a,
            b,
        ) == lex_order(a.projects[0], b.projects[0]),
        a.projects.len() > 0 && b.projects.len() == 0 ==> directive_order(
            seq![Directive { field: Field::Project, direction: Direction::Asc }],
            a,
            b,
        ) == Order3::Less,
{
    let dirs = seq![Directive { field: Field::Project, direction: Direction::Asc }];
    assert(dirs.drop_first() =~= Seq::<Directive>::empty());
    assert(directive_order(dirs.drop_first(), a, b) == Order3::Equal);
}

/// A task's date that comes lexicographically before (after) the resolved
/// date satisfies `<` and `<=` (`>` and `>=`) and not the others.
pub proof fn law_date_comparison_direction(field: DateField, value: DateValueModel, t: TaskModel, today: Seq<char>)
    ensures
        ({
            let holds = |op: CompareOp| condition_holds(ConditionModel::DateComparison { field, op, value }, t, today);
            &&& date_field_value(t, field) matches Some(d) ==> (lex_order(d, resolved_date(value, today)) == Order3::Less
                ==> holds(CompareOp::Lt) && holds(CompareOp::Lte) && !holds(CompareOp::Gt) && !holds(CompareOp::Gte)
                && !holds(CompareOp::Eq))
            &&& date_field_value(t, field) matches Some(d) ==> (lex_order(d, resolved_date(value, today)) == Order3::Greater
                ==> holds(CompareOp::Gt) && holds(CompareOp::Gte) && !holds(CompareOp::Lt) && !holds(CompareOp::Lte)
                && !holds(CompareOp::Eq))
        }),
{
    if let Some(d) = date_field_value(t, field) {
        lemma_lex_order_equal(d, resolved_date(value, today));
    }
}

/// Priority conditions: `priority = X` holds of a task with priority `X`
/// only; `priority above X` of a priority letter before `X` (A is above B)
/// and `priority below X` of one after it; a task without a priority
/// satisfies none of them.
pub proof fn law_priority_conditions(letter: char, t: TaskModel, today: Seq<char>)
    ensures
        ({
            let holds = |op: PriorityOp| condition_holds(ConditionModel::PriorityComparison { op, letter }, t, today);
            &&& holds(PriorityOp::Eq) == (t.priority == Some(letter))
            &&& holds(PriorityOp::Above) == (t.priority matches Some(p) && (p as int) < (letter as int))
            &&& holds(PriorityOp::Below) == (t.priority matches Some(p) && (p as int) > (letter as int))
            &&& t.priority is Some ==> (holds(PriorityOp::Eq) || holds(PriorityOp::Above) || holds(PriorityOp::Below))
            &&& !(holds(PriorityOp::Above) && holds(PriorityOp::Below))
        }),
{
}

/// Text conditions: `excludes` holds exactly when `includes` does not; the
/// done filter selects by done state; an existence condition and its
/// negation never both hold, and one of them always does; none of these
/// depend on the day.
pub proof fn law_text_existence_done_conditions(
    field: TextField,
    text: Seq<char>,
    f: Field,
    t: TaskModel,
    today: Seq<char>,
    other_day: Seq<char>,
)
    ensures
        condition_holds(ConditionModel::TextMatch { field, op: TextOp::Excludes, text }, t, today)
            == !condition_holds(ConditionModel::TextMatch { field, op: TextOp::Includes, text }, t, today),
        condition_holds(ConditionModel::TextMatch { field, op: TextOp::Includes, text }, t, today)
            == condition_holds(ConditionModel::TextMatch { field, op: TextOp::Includes, text }, t, other_day),
        condition_holds(ConditionModel::DoneFilter { done: true }, t, today) == t.done,
        condition_holds(ConditionModel::DoneFilter { done: false }, t, today) == !t.done,
        condition_holds(ConditionModel::Existence { field: f, present: true }, t, today)
            != condition_holds(ConditionModel::Existence { field: f, present: false }, t, today),
        condition_holds(ConditionModel::Existence { field: Field::Priority, present: true }, t, today) == t.priority is Some,
        condition_holds(ConditionModel::Existence { field: Field::Project, present: true }, t, today) == (t.projects.len() > 0),
        condition_holds(ConditionModel::Existence { field: Field::Context, present: true }, t, today) == (t.contexts.len() > 0),
        condition_holds(ConditionModel::Existence { field: Field::Due, present: true }, t, today)
            == date_field_value(t, DateField::Due) is Some,
        condition_holds(ConditionModel::Existence { field: Field::Done, present: true }, t, today) == t.done,
{
}

/// A list matches a task exactly when some block has all its conditions
/// hold of it, except that a done task never matches a list without a done
/// filter: blocks are OR'd, the conditions of a block AND'd.
pub proof fn law_blocks_or_conditions_and(blocks: Seq<Seq<ConditionModel>>, t: TaskModel, today: Seq<char>, i: int)
    requires
        0 <= i < blocks.len(),
    ensures
        (forall|j: int| 0 <= j < blocks[i].len() ==> condition_holds(#[trigger] blocks[i][j], t, today))
            && (!t.done || blocks_have_done_filter(blocks)) ==> list_matches(blocks, t, today),
        t.done && !blocks_have_done_filter(blocks) ==> !list_matches(blocks, t, today),
{
    if (forall|j: int| 0 <= j < blocks[i].len() ==> condition_holds(#[trigger] blocks[i][j], t, today)) {
        assert(block_holds(blocks[i], t, today));
    }
}

/// One sort directive on a field: ascending puts a task with a value before
/// one without and compares two values lexicographically; descending
/// reverses the comparison of ascending, so tasks without a value come
/// first.
pub proof fn law_sort_directive_direction(f: Field, a: TaskModel, b: TaskModel)
    ensures
        directive_order(seq![Directive { field: f, direction: Direction::Desc }], a, b) == directive_order(
            seq![Directive { field: f, direction: Direction::Asc }],
            a,
            b,
        ).flip(),
        sort_key(a, f) is Some && sort_key(b, f) is None ==> directive_order(
            seq![Directive { field: f, direction: Direction::Asc }],
            a,
            b,
        ) == Order3::Less,
        sort_key(a, f) matches Some(x) ==> (sort_key(b, f) matches Some(y) ==> directive_order(
            seq![Directive { field: f, direction: Direction::Asc }],
            a,
            b,
        ) == lex_order(x, y)),
{
    let up = seq![Directive { field: f, direction: Direction::Asc }];
    let down = seq![Directive { field: f, direction: Direction::Desc }];
    assert(up.drop_first() =~= Seq::<Directive>::empty());
    assert(down.drop_first() =~= Seq::<Directive>::empty());
    assert(directive_order(up.drop_first(), a, b) == Order3::Equal);
    assert(directive_order(down.drop_first(), a, b) == Order3::Equal);
}

/// Grouping one task with projects by project gives one group, labelled
/// `Project: ` and the task's first project, holding that task.
pub proof fn law_group_by_project_of_one_task(groups: Seq<GroupModel>, dir: Directive, s: StoredModel)
    requires
        dir.field == Field::Project,
        s.task.projects.len() > 0,
        groups_of(groups, seq![dir], seq![s]),
    ensures
        groups == seq![GroupModel { label: "Project: "@ + s.task.projects[0], tasks: seq![s] }],
{
    let tasks = seq![s];
    let f = Field::Project;
    let dirs = seq![dir];
    let k0 = s.task.projects[0];
    assert(tasks.drop_last() =~= Seq::<StoredModel>::empty());
    assert(tasks.last() == s);
    assert(group_key(s.task, f) == Some(k0));
    assert(with_key(tasks.drop_last(), f, None) == Seq::<StoredModel>::empty());
    assert(with_key(tasks, f, None) == Seq::<StoredModel>::empty());
    let n = groups.len() as int;
    let keys = choose|keys: Seq<Seq<char>>|
        #![trigger keys_of(keys, tasks, f, is_desc(dirs[0]))]
        keys.len() == n && keys_of(keys, tasks, f, is_desc(dirs[0]))
            && forall|i: int| 0 <= i < n ==> groups[i] == value_group(tasks, f, #[trigger] keys[i]);
    assert(keys_of(keys, tasks, f, is_desc(dirs[0])));
    assert(tasks[0] == s);
    assert(exists|i: int| 0 <= i < keys.len() && Some(#[trigger] keys[i]) == group_key(tasks[0].task, f));
    assert forall|i: int| 0 <= i < keys.len() implies #[trigger] keys[i] == k0 by {
        assert(with_key(tasks, f, Some(keys[i])).len() > 0);
        if keys[i] != k0 {
            assert(with_key(tasks.drop_last(), f, Some(keys[i])) == Seq::<StoredModel>::empty());
            assert(with_key(tasks, f, Some(keys[i])) == Seq::<StoredModel>::empty());
        }
    }
    if keys.len() >= 2 {
        lemma_lex_order_equal(keys[0], keys[1]);
        assert(lex_order(keys[0], keys[1]) != Order3::Equal);
    }
    assert(keys.len() == 1);
    assert(with_key(tasks.drop_last(), f, Some(k0)) == Seq::<StoredModel>::empty());
    assert(with_key(tasks, f, Some(k0)) =~= tasks);
    reveal_strlit("project");
    reveal_strlit("Project: ");
    reveal_strlit(": ");
    assert(field_name(f) == "project"@);
    assert(capitalized("project"@) =~= seq!['P', 'r', 'o', 'j', 'e', 'c', 't']);
    assert(capitalized(field_name(f)) + ": "@ =~= "Project: "@);
    assert(groups[0] == value_group(tasks, f, keys[0]));
    assert(groups =~= seq![GroupModel { label: "Project: "@ + k0, tasks: seq![s] }]);
}

} // verus!
