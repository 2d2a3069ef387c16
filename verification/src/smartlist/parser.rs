//! The smart-list grammar, line by line.
//!
//! A date value is `today` or `YYYY-MM-DD`, optionally followed by `+ N`
//! or `- N` (spaces optional).  A condition is `done`, `not done`,
//! `has FIELD`, `no FIELD`, `DATEFIELD OP DATEVALUE`,
//! `priority (=|above|below) LETTER` or `TEXTFIELD (includes|excludes) TEXT`.
//! Directives are `sort by FIELD [asc|desc]` and `group by FIELD [asc|desc]`;
//! prefill lines are `prefill FIELD VALUE`.
use vstd::prelude::*;

use crate::numbers::{chars_parse_i32, chars_parse_nat_capped, parse_nat, parse_i32};
use crate::paths::{file_stem, parent_below, path_file_stem, relative_parent};
use crate::parser::{chars_are_date, is_date_seq};
use crate::smartlist::types::{
    AnchorModel, CompareOp, Condition, ConditionModel, DateAnchor, DateField, DateValue,
    DateValueModel, Direction, Directive, Field, FilterBlock, Prefill, PrefillModel, PriorityOp,
    SmartList, SmartListModel, TextField, TextOp,
};
use crate::text::{
    after_lit, char_is_upper, chars_eq_lit, chars_have_at, chars_of, find_char, has_at, index_of,
    is_upper, lines_of, lit_len, slice_of, split_lines, starts_with, string_of, trim, trim_chars,
    trim_range, trim_start, trim_start_from, vecs_view,
};

verus! {

// ---------------------------------------------------------------------------
// Specification
// ---------------------------------------------------------------------------

pub open spec fn anchor_and_rest(v: Seq<char>) -> Option<(AnchorModel, Seq<char>)> {
    if starts_with(v, "today"@) {
        Some((AnchorModel::Today, after_lit(v, "today"@)))
    } else if v.len() >= 10 && is_date_seq(v.subrange(0, 10)) {
        Some((AnchorModel::Date(v.subrange(0, 10)), v.subrange(10, v.len() as int)))
    } else {
        None
    }
}

/// A date value: an anchor and an optional signed offset in days.  An
/// offset whose negation does not fit an `i32` is not accepted.
pub open spec fn spec_date_value(value: Seq<char>) -> Option<DateValueModel> {
    match anchor_and_rest(trim(value)) {
        Some((anchor, rest0)) => {
            let rest = trim_start(rest0);
            if rest.len() == 0 {
                Some(DateValueModel { anchor, offset: 0 })
            } else if rest[0] == '+' || rest[0] == '-' {
                match parse_i32(trim(rest.drop_first())) {
                    Some(n) => {
                        let o = if rest[0] == '+' {
                            n
                        } else {
                            -n
                        };
                        if i32::MIN <= o <= i32::MAX {
                            Some(DateValueModel { anchor, offset: o })
                        } else {
                            None
                        }
                    },
                    None => None,
                }
            } else {
                None
            }
        },
        None => None,
    }
}

pub open spec fn spec_date_field(s: Seq<char>) -> Option<DateField> {
    if s == "due"@ {
        Some(DateField::Due)
    } else if s == "scheduled"@ {
        Some(DateField::Scheduled)
    } else if s == "starting"@ {
        Some(DateField::Starting)
    } else if s == "updated"@ {
        Some(DateField::Updated)
    } else if s == "creation_date"@ {
        Some(DateField::CreationDate)
    } else {
        None
    }
}

pub open spec fn spec_field(s: Seq<char>) -> Option<Field> {
    if s == "due"@ {
        Some(Field::Due)
    } else if s == "scheduled"@ {
        Some(Field::Scheduled)
    } else if s == "starting"@ {
        Some(Field::Starting)
    } else if s == "updated"@ {
        Some(Field::Updated)
    } else if s == "creation_date"@ {
        Some(Field::CreationDate)
    } else if s == "priority"@ {
        Some(Field::Priority)
    } else if s == "project"@ {
        Some(Field::Project)
    } else if s == "context"@ {
        Some(Field::Context)
    } else if s == "description"@ {
        Some(Field::Description)
    } else if s == "done"@ {
        Some(Field::Done)
    } else {
        None
    }
}

pub open spec fn spec_text_field(s: Seq<char>) -> Option<TextField> {
    if s == "project"@ {
        Some(TextField::Project)
    } else if s == "context"@ {
        Some(TextField::Context)
    } else if s == "description"@ {
        Some(TextField::Description)
    } else {
        None
    }
}

pub open spec fn spec_compare_op(s: Seq<char>) -> Option<CompareOp> {
    if s == "="@ {
        Some(CompareOp::Eq)
    } else if s == "<"@ {
        Some(CompareOp::Lt)
    } else if s == "<="@ {
        Some(CompareOp::Lte)
    } else if s == ">"@ {
        Some(CompareOp::Gt)
    } else if s == ">="@ {
        Some(CompareOp::Gte)
    } else {
        None
    }
}

pub open spec fn spec_priority_op(s: Seq<char>) -> Option<PriorityOp> {
    if s == "="@ {
        Some(PriorityOp::Eq)
    } else if s == "above"@ {
        Some(PriorityOp::Above)
    } else if s == "below"@ {
        Some(PriorityOp::Below)
    } else {
        None
    }
}

pub open spec fn spec_text_op(s: Seq<char>) -> Option<TextOp> {
    if s == "includes"@ {
        Some(TextOp::Includes)
    } else if s == "excludes"@ {
        Some(TextOp::Excludes)
    } else {
        None
    }
}

/// A condition from its three space-separated parts.
pub open spec fn condition_from_parts(p0: Seq<char>, p1: Seq<char>, p2: Seq<char>) -> Option<ConditionModel> {
    match (spec_date_field(p0), spec_compare_op(p1), spec_date_value(p2)) {
        (Some(field), Some(op), Some(value)) => Some(ConditionModel::DateComparison { field, op, value }),
        _ => {
            let letter = trim(p2);
            if p0 == "priority"@ && spec_priority_op(p1) is Some && letter.len() == 1 && is_upper(letter[0]) {
                Some(ConditionModel::PriorityComparison { op: spec_priority_op(p1)->0, letter: letter[0] })
            } else {
                match (spec_text_field(p0), spec_text_op(p1)) {
                    (Some(field), Some(op)) => Some(ConditionModel::TextMatch { field, op, text: p2 }),
                    _ => None,
                }
            }
        },
    }
}

/// A condition line.
pub open spec fn spec_condition(line: Seq<char>) -> Option<ConditionModel> {
    let l = trim(line);
    if l == "done"@ {
        Some(ConditionModel::DoneFilter { done: true })
    } else if l == "not done"@ {
        Some(ConditionModel::DoneFilter { done: false })
    } else if starts_with(l, "has "@) {
        match spec_field(trim(after_lit(l, "has "@))) {
            Some(field) => Some(ConditionModel::Existence { field, present: true }),
            None => None,
        }
    } else if starts_with(l, "no "@) {
        match spec_field(trim(after_lit(l, "no "@))) {
            Some(field) => Some(ConditionModel::Existence { field, present: false }),
            None => None,
        }
    } else {
        let i1 = index_of(l, ' ');
        let r1 = l.subrange(i1 + 1, l.len() as int);
        let i2 = index_of(r1, ' ');
        if i1 >= l.len() || i2 >= r1.len() {
            None
        } else {
            condition_from_parts(l.subrange(0, i1), r1.subrange(0, i2), r1.subrange(i2 + 1, r1.len() as int))
        }
    }
}

/// A `sort by` (true) or `group by` (false) line.
pub open spec fn spec_directive(line: Seq<char>) -> Option<(bool, Directive)> {
    let l = trim(line);
    let head: Option<(bool, Seq<char>)> = if starts_with(l, "sort by "@) {
        Some((true, after_lit(l, "sort by "@)))
    } else if starts_with(l, "group by "@) {
        Some((false, after_lit(l, "group by "@)))
    } else {
        None
    };
    match head {
        Some((is_sort, rest)) => {
            let i = index_of(rest, ' ');
            let direction = if i < rest.len() && trim(rest.subrange(i + 1, rest.len() as int)) == "desc"@ {
                Direction::Desc
            } else {
                Direction::Asc
            };
            match spec_field(rest.subrange(0, i)) {
                Some(field) => Some((is_sort, Directive { field, direction })),
                None => None,
            }
        },
        None => None,
    }
}

pub ghost enum PrefillLineModel {
    Project(Seq<char>),
    Context(Seq<char>),
    Priority(char),
    Due(DateValueModel),
    Scheduled(DateValueModel),
    Starting(DateValueModel),
}

/// A `prefill FIELD VALUE` line.
pub open spec fn spec_prefill_line(line: Seq<char>) -> Option<PrefillLineModel> {
    let l = trim(line);
    if !starts_with(l, "prefill "@) {
        None
    } else {
        let rest = after_lit(l, "prefill "@);
        let i = index_of(rest, ' ');
        let field = trim(rest.subrange(0, i));
        let value = trim(rest.subrange(i + 1, rest.len() as int));
        if i >= rest.len() || value.len() == 0 {
            None
        } else if field == "project"@ {
            Some(PrefillLineModel::Project(value))
        } else if field == "context"@ {
            Some(PrefillLineModel::Context(value))
        } else if field == "priority"@ {
            if value.len() == 1 && is_upper(value[0]) {
                Some(PrefillLineModel::Priority(value[0]))
            } else {
                None
            }
        } else if field == "due"@ {
            match spec_date_value(value) {
                Some(d) => Some(PrefillLineModel::Due(d)),
                None => None,
            }
        } else if field == "scheduled"@ {
            match spec_date_value(value) {
                Some(d) => Some(PrefillLineModel::Scheduled(d)),
                None => None,
            }
        } else if field == "starting"@ {
            match spec_date_value(value) {
                Some(d) => Some(PrefillLineModel::Starting(d)),
                None => None,
            }
        } else {
            None
        }
    }
}

/// Projects and contexts accumulate; scalar fields keep the first value.
pub open spec fn spec_apply_prefill(p: PrefillModel, l: PrefillLineModel) -> PrefillModel {
    match l {
        PrefillLineModel::Project(v) => PrefillModel { projects: p.projects.push(v), ..p },
        PrefillLineModel::Context(v) => PrefillModel { contexts: p.contexts.push(v), ..p },
        PrefillLineModel::Priority(c) => if p.priority is None {
            PrefillModel { priority: Some(c), ..p }
        } else {
            p
        },
        PrefillLineModel::Due(d) => if p.due is None {
            PrefillModel { due: Some(d), ..p }
        } else {
            p
        },
        PrefillLineModel::Scheduled(d) => if p.scheduled is None {
            PrefillModel { scheduled: Some(d), ..p }
        } else {
            p
        },
        PrefillLineModel::Starting(d) => if p.starting is None {
            PrefillModel { starting: Some(d), ..p }
        } else {
            p
        },
    }
}

// ---------------------------------------------------------------------------
// Implementation
// ---------------------------------------------------------------------------

/// Whether `v` is a `YYYY-MM-DD` literal.
fn is_date_literal(v: &Vec<char>) -> (r: bool)
    ensures
        r == is_date_seq(v@),
{
    if v.len() != 10 {
        return false;
    }
    assert(v@.subrange(0, 10) =~= v@);
    chars_are_date(v, 0)
}

/// Parses a date value.
fn parse_date_value(value: &Vec<char>) -> (r: Option<DateValue>)
    ensures
        match spec_date_value(value@) {
            Some(d) => r is Some && r->0@ == d,
            None => r is None,
        },
{
    let v = trim_chars(value);
    let anchor: DateAnchor;
    let rest: Vec<char>;
    if chars_have_at(&v, 0, "today") {
        anchor = DateAnchor::Today;
        let n = lit_len("today");
        rest = trim_start_from(&v, n);
    } else if v.len() >= 10 && chars_are_date(&v, 0) {
        anchor = DateAnchor::Date(string_of(&slice_of(&v, 0, 10)));
        rest = trim_start_from(&v, 10);
    } else {
        return None;
    }
    let ghost am = match anchor_and_rest(v@) {
        Some((a, _)) => a,
        None => AnchorModel::Today,
    };
    assert(match anchor_and_rest(v@) {
        Some((a, r0)) => rest@ == trim_start(r0) && a == am,
        None => false,
    });
    if rest.len() == 0 {
        return Some(DateValue { anchor, offset: 0 });
    }
    let sign = rest[0];
    if sign != '+' && sign != '-' {
        return None;
    }
    let num = trim_range(&rest, 1, rest.len());
    assert(rest@.subrange(1, rest@.len() as int) =~= rest@.drop_first());
    match chars_parse_i32(&num) {
        Some(n) => {
            if sign == '+' {
                Some(DateValue { anchor, offset: n })
            } else if n == i32::MIN {
                None
            } else {
                Some(DateValue { anchor, offset: -n })
            }
        },
        None => None,
    }
}

fn parse_date_field(s: &Vec<char>) -> (r: Option<DateField>)
    ensures
        r == spec_date_field(s@),
{
    if chars_eq_lit(s, "due") {
        Some(DateField::Due)
    } else if chars_eq_lit(s, "scheduled") {
        Some(DateField::Scheduled)
    } else if chars_eq_lit(s, "starting") {
        Some(DateField::Starting)
    } else if chars_eq_lit(s, "updated") {
        Some(DateField::Updated)
    } else if chars_eq_lit(s, "creation_date") {
        Some(DateField::CreationDate)
    } else {
        None
    }
}

fn field_of_chars(s: &Vec<char>) -> (r: Option<Field>)
    ensures
        r == spec_field(s@),
{
    if chars_eq_lit(s, "due") {
        Some(Field::Due)
    } else if chars_eq_lit(s, "scheduled") {
        Some(Field::Scheduled)
    } else if chars_eq_lit(s, "starting") {
        Some(Field::Starting)
    } else if chars_eq_lit(s, "updated") {
        Some(Field::Updated)
    } else if chars_eq_lit(s, "creation_date") {
        Some(Field::CreationDate)
    } else if chars_eq_lit(s, "priority") {
        Some(Field::Priority)
    } else if chars_eq_lit(s, "project") {
        Some(Field::Project)
    } else if chars_eq_lit(s, "context") {
        Some(Field::Context)
    } else if chars_eq_lit(s, "description") {
        Some(Field::Description)
    } else if chars_eq_lit(s, "done") {
        Some(Field::Done)
    } else {
        None
    }
}

/// The field that a name denotes.
pub fn parse_field(s: &str) -> (r: Option<Field>)
    ensures
        r == spec_field(s@),
{
    let v = chars_of(s);
    field_of_chars(&v)
}

fn parse_text_field(s: &Vec<char>) -> (r: Option<TextField>)
    ensures
        r == spec_text_field(s@),
{
    if chars_eq_lit(s, "project") {
        Some(TextField::Project)
    } else if chars_eq_lit(s, "context") {
        Some(TextField::Context)
    } else if chars_eq_lit(s, "description") {
        Some(TextField::Description)
    } else {
        None
    }
}

fn parse_compare_op(s: &Vec<char>) -> (r: Option<CompareOp>)
    ensures
        r == spec_compare_op(s@),
{
    if chars_eq_lit(s, "=") {
        Some(CompareOp::Eq)
    } else if chars_eq_lit(s, "<") {
        Some(CompareOp::Lt)
    } else if chars_eq_lit(s, "<=") {
        Some(CompareOp::Lte)
    } else if chars_eq_lit(s, ">") {
        Some(CompareOp::Gt)
    } else if chars_eq_lit(s, ">=") {
        Some(CompareOp::Gte)
    } else {
        None
    }
}

fn parse_priority_op(s: &Vec<char>) -> (r: Option<PriorityOp>)
    ensures
        r == spec_priority_op(s@),
{
    if chars_eq_lit(s, "=") {
        Some(PriorityOp::Eq)
    } else if chars_eq_lit(s, "above") {
        Some(PriorityOp::Above)
    } else if chars_eq_lit(s, "below") {
        Some(PriorityOp::Below)
    } else {
        None
    }
}

fn parse_text_op(s: &Vec<char>) -> (r: Option<TextOp>)
    ensures
        r == spec_text_op(s@),
{
    if chars_eq_lit(s, "includes") {
        Some(TextOp::Includes)
    } else if chars_eq_lit(s, "excludes") {
        Some(TextOp::Excludes)
    } else {
        None
    }
}

fn condition_of_parts(p0: &Vec<char>, p1: &Vec<char>, p2: &Vec<char>) -> (r: Option<Condition>)
    ensures
        match condition_from_parts(p0@, p1@, p2@) {
            Some(c) => r is Some && r->0@ == c,
            None => r is None,
        },
{
    let f = parse_date_field(p0);
    let o = parse_compare_op(p1);
    if f.is_some() && o.is_some() {
        match parse_date_value(p2) {
            Some(value) => {
                return Some(Condition::DateComparison { field: f.unwrap(), op: o.unwrap(), value });
            },
            None => {},
        }
    }
    let letter = trim_chars(p2);
    let pop = parse_priority_op(p1);
    if chars_eq_lit(p0, "priority") && pop.is_some() && letter.len() == 1 && char_is_upper(letter[0]) {
        return Some(Condition::PriorityComparison { op: pop.unwrap(), letter: letter[0] });
    }
    let tf = parse_text_field(p0);
    let top = parse_text_op(p1);
    if tf.is_some() && top.is_some() {
        return Some(Condition::TextMatch { field: tf.unwrap(), op: top.unwrap(), text: string_of(p2) });
    }
    None
}

/// Parses a condition line.
fn parse_condition(line: &Vec<char>) -> (r: Option<Condition>)
    ensures
        match spec_condition(line@) {
            Some(c) => r is Some && r->0@ == c,
            None => r is None,
        },
{
    let l = trim_chars(line);
    if chars_eq_lit(&l, "done") {
        return Some(Condition::DoneFilter { done: true });
    }
    if chars_eq_lit(&l, "not done") {
        return Some(Condition::DoneFilter { done: false });
    }
    if chars_have_at(&l, 0, "has ") {
        let rest = trim_range(&l, lit_len("has "), l.len());
        return match field_of_chars(&rest) {
            Some(field) => Some(Condition::Existence { field, present: true }),
            None => None,
        };
    }
    if chars_have_at(&l, 0, "no ") {
        let rest = trim_range(&l, lit_len("no "), l.len());
        return match field_of_chars(&rest) {
            Some(field) => Some(Condition::Existence { field, present: false }),
            None => None,
        };
    }
    let i1 = find_char(&l, 0, ' ');
    assert(l@.subrange(0, l@.len() as int) =~= l@);
    if i1 >= l.len() {
        return None;
    }
    let i2 = find_char(&l, i1 + 1, ' ');
    let ghost r1 = l@.subrange(i1 + 1, l@.len() as int);
    if i2 >= l.len() {
        return None;
    }
    let p0 = slice_of(&l, 0, i1);
    let p1 = slice_of(&l, i1 + 1, i2);
    let p2 = slice_of(&l, i2 + 1, l.len());
    assert(p1@ =~= r1.subrange(0, i2 - (i1 + 1)));
    assert(p2@ =~= r1.subrange(i2 - (i1 + 1) + 1, r1.len() as int));
    condition_of_parts(&p0, &p1, &p2)
}

/// Parses a `sort by` / `group by` line; `true` marks a sort directive.
fn parse_directive(line: &Vec<char>) -> (r: Option<(bool, Directive)>)
    ensures
        r == spec_directive(line@),
{
    let l = trim_chars(line);
    let is_sort: bool;
    let start: usize;
    if chars_have_at(&l, 0, "sort by ") {
        is_sort = true;
        start = lit_len("sort by ");
    } else if chars_have_at(&l, 0, "group by ") {
        is_sort = false;
        start = lit_len("group by ");
    } else {
        return None;
    }
    let ghost rest = l@.subrange(start as int, l@.len() as int);
    let i = find_char(&l, start, ' ');
    let field_str = slice_of(&l, start, i);
    assert(field_str@ =~= rest.subrange(0, i - start));
    let mut direction = Direction::Asc;
    if i < l.len() {
        let d = trim_range(&l, i + 1, l.len());
        assert(l@.subrange(i + 1, l@.len() as int) =~= rest.subrange(i - start + 1, rest.len() as int));
        if chars_eq_lit(&d, "desc") {
            direction = Direction::Desc;
        }
    }
    match field_of_chars(&field_str) {
        Some(field) => Some((is_sort, Directive { field, direction })),
        None => None,
    }
}

/// A parsed prefill line.
pub enum PrefillLine {
    Project(String),
    Context(String),
    Priority(char),
    Due(DateValue),
    Scheduled(DateValue),
    Starting(DateValue),
}

impl View for PrefillLine {
    type V = PrefillLineModel;

    open spec fn view(&self) -> PrefillLineModel {
        match self {
            PrefillLine::Project(v) => PrefillLineModel::Project(v@),
            PrefillLine::Context(v) => PrefillLineModel::Context(v@),
            PrefillLine::Priority(c) => PrefillLineModel::Priority(*c),
            PrefillLine::Due(d) => PrefillLineModel::Due(d@),
            PrefillLine::Scheduled(d) => PrefillLineModel::Scheduled(d@),
            PrefillLine::Starting(d) => PrefillLineModel::Starting(d@),
        }
    }
}

/// Parses a `prefill FIELD VALUE` line.
fn parse_prefill_line(line: &Vec<char>) -> (r: Option<PrefillLine>)
    ensures
        match spec_prefill_line(line@) {
            Some(p) => r is Some && r->0@ == p,
            None => r is None,
        },
{
    let l = trim_chars(line);
    if !chars_have_at(&l, 0, "prefill ") {
        return None;
    }
    let start = lit_len("prefill ");
    let ghost rest = l@.subrange(start as int, l@.len() as int);
    let i = find_char(&l, start, ' ');
    if i >= l.len() {
        return None;
    }
    let field = trim_range(&l, start, i);
    let value = trim_range(&l, i + 1, l.len());
    assert(l@.subrange(start as int, i as int) =~= rest.subrange(0, i - start));
    assert(l@.subrange(i + 1, l@.len() as int) =~= rest.subrange(i - start + 1, rest.len() as int));
    if value.len() == 0 {
        return None;
    }
    if chars_eq_lit(&field, "project") {
        Some(PrefillLine::Project(string_of(&value)))
    } else if chars_eq_lit(&field, "context") {
        Some(PrefillLine::Context(string_of(&value)))
    } else if chars_eq_lit(&field, "priority") {
        if value.len() == 1 && char_is_upper(value[0]) {
            Some(PrefillLine::Priority(value[0]))
        } else {
            None
        }
    } else if chars_eq_lit(&field, "due") {
        match parse_date_value(&value) {
            Some(d) => Some(PrefillLine::Due(d)),
            None => None,
        }
    } else if chars_eq_lit(&field, "scheduled") {
        match parse_date_value(&value) {
            Some(d) => Some(PrefillLine::Scheduled(d)),
            None => None,
        }
    } else if chars_eq_lit(&field, "starting") {
        match parse_date_value(&value) {
            Some(d) => Some(PrefillLine::Starting(d)),
            None => None,
        }
    } else {
        None
    }
}

/// Adds one prefill declaration.
fn apply_prefill(prefill: &mut Prefill, line: PrefillLine)
    ensures
        final(prefill)@ == spec_apply_prefill(old(prefill)@, line@),
{
    let ghost p0 = prefill@;
    match line {
        PrefillLine::Project(v) => {
            prefill.projects.push(v);
            assert(prefill@.projects =~= p0.projects.push(line@->Project_0));
        },
        PrefillLine::Context(v) => {
            prefill.contexts.push(v);
            assert(prefill@.contexts =~= p0.contexts.push(line@->Context_0));
        },
        PrefillLine::Priority(c) => {
            if prefill.priority.is_none() {
                prefill.priority = Some(c);
            }
        },
        PrefillLine::Due(v) => {
            if prefill.due.is_none() {
                prefill.due = Some(v);
            }
        },
        PrefillLine::Scheduled(v) => {
            if prefill.scheduled.is_none() {
                prefill.scheduled = Some(v);
            }
        },
        PrefillLine::Starting(v) => {
            if prefill.starting.is_none() {
                prefill.starting = Some(v);
            }
        },
    }
}

} // verus!

verus! {

// ---------------------------------------------------------------------------
// Whole files
// ---------------------------------------------------------------------------

/// `"\r\n"` replaced by `"\n"`.
pub open spec fn unify_newlines(s: Seq<char>) -> Seq<char>
    decreases s.len(),
{
    if s.len() == 0 {
        s
    } else if s.len() >= 2 && s[0] == '\r' && s[1] == '\n' {
        seq!['\n'] + unify_newlines(s.subrange(2, s.len() as int))
    } else {
        seq![s[0]] + unify_newlines(s.drop_first())
    }
}

/// Lines joined with `'\n'`.
pub open spec fn join_lines(lines: Seq<Seq<char>>) -> Seq<char>
    decreases lines.len(),
{
    if lines.len() == 0 {
        seq![]
    } else if lines.len() == 1 {
        lines[0]
    } else {
        join_lines(lines.drop_last()) + seq!['\n'] + lines.last()
    }
}

pub open spec fn is_dash_line(l: Seq<char>) -> bool {
    trim(l) == "---"@
}

/// The first index at or after `from` of a `---` line.
pub open spec fn dash_from(lines: Seq<Seq<char>>, from: int) -> Option<int>
    decreases lines.len() - from,
{
    if from < 0 || from >= lines.len() {
        None
    } else if is_dash_line(lines[from]) {
        Some(from)
    } else {
        dash_from(lines, from + 1)
    }
}

pub ghost struct Front {
    pub name: Option<Seq<char>>,
    pub icon: Option<Seq<char>>,
    pub description: Option<Seq<char>>,
}

/// A frontmatter line `key: value`; later declarations win.
pub open spec fn front_step(f: Front, l: Seq<char>) -> Front {
    let c = index_of(l, ':');
    if c >= l.len() {
        f
    } else {
        let key = trim(l.subrange(0, c));
        let value = trim(l.subrange(c + 1, l.len() as int));
        if key == "name"@ {
            Front { name: Some(value), ..f }
        } else if key == "icon"@ {
            Front { icon: Some(value), ..f }
        } else if key == "description"@ {
            Front { description: Some(value), ..f }
        } else {
            f
        }
    }
}

pub open spec fn front_fold(f: Front, lines: Seq<Seq<char>>) -> Front
    decreases lines.len(),
{
    if lines.len() == 0 {
        f
    } else {
        front_fold(front_step(f, lines[0]), lines.drop_first())
    }
}

pub ghost struct BodyState {
    pub blocks: Seq<Seq<ConditionModel>>,
    pub current: Seq<ConditionModel>,
    pub sorts: Seq<Directive>,
    pub groups: Seq<Directive>,
    pub prefill: PrefillModel,
}

/// The finished blocks, with the current one if it has conditions.
pub open spec fn closed_blocks(st: BodyState) -> Seq<Seq<ConditionModel>> {
    if st.current.len() == 0 {
        st.blocks
    } else {
        st.blocks.push(st.current)
    }
}

/// One body line: `OR` starts a new block; comments and blank lines are
/// skipped; directives and prefill lines are collected; other lines that
/// parse as conditions join the current block; the rest is dropped.
pub open spec fn body_step(st: BodyState, line: Seq<char>) -> BodyState {
    let t = trim(line);
    if t == "OR"@ {
        BodyState { blocks: closed_blocks(st), current: seq![], ..st }
    } else if t.len() == 0 || t[0] == '#' {
        st
    } else if starts_with(t, "sort by "@) || starts_with(t, "group by "@) {
        match spec_directive(t) {
            Some((true, d)) => BodyState { sorts: st.sorts.push(d), ..st },
            Some((false, d)) => BodyState { groups: st.groups.push(d), ..st },
            None => st,
        }
    } else if starts_with(t, "prefill "@) {
        match spec_prefill_line(t) {
            Some(p) => BodyState { prefill: spec_apply_prefill(st.prefill, p), ..st },
            None => st,
        }
    } else {
        match spec_condition(t) {
            Some(c) => BodyState { current: st.current.push(c), ..st },
            None => st,
        }
    }
}

pub open spec fn body_fold(st: BodyState, lines: Seq<Seq<char>>) -> BodyState
    decreases lines.len(),
{
    if lines.len() == 0 {
        st
    } else {
        body_fold(body_step(st, lines[0]), lines.drop_first())
    }
}

pub open spec fn empty_body() -> BodyState {
    BodyState {
        blocks: seq![],
        current: seq![],
        sorts: seq![],
        groups: seq![],
        prefill: crate::smartlist::types::empty_prefill(),
    }
}

/// The first index of `pat` in `s`.
pub open spec fn find_lit(s: Seq<char>, pat: Seq<char>) -> Option<int>
    decreases s.len(),
{
    if crate::text::has_at(s, 0, pat) {
        Some(0)
    } else if s.len() == 0 {
        None
    } else {
        match find_lit(s.drop_first(), pat) {
            Some(i) => Some(i + 1),
            None => None,
        }
    }
}

pub proof fn lemma_find_lit(s: Seq<char>, pat: Seq<char>)
    ensures
        match find_lit(s, pat) {
            Some(i) => 0 <= i && i + pat.len() <= s.len() && crate::text::has_at(s, i, pat)
                && forall|k: int| 0 <= k < i ==> !crate::text::has_at(s, k, pat),
            None => forall|k: int| 0 <= k <= s.len() ==> !crate::text::has_at(s, k, pat),
        },
    decreases s.len(),
{
    if crate::text::has_at(s, 0, pat) {
    } else if s.len() == 0 {
    } else {
        lemma_find_lit(s.drop_first(), pat);
        let t = s.drop_first();
        assert forall|k: int| 1 <= k <= s.len() && crate::text::has_at(s, k, pat) implies crate::text::has_at(t, k - 1, pat) by {
            assert(t.subrange(k - 1, k - 1 + pat.len()) =~= s.subrange(k, k + pat.len()));
        }
        assert forall|k: int| 0 <= k <= t.len() && crate::text::has_at(t, k, pat) implies crate::text::has_at(s, k + 1, pat) by {
            assert(t.subrange(k, k + pat.len()) =~= s.subrange(k + 1, k + 1 + pat.len()));
        }
    }
}

/// Every occurrence of the non-empty `pat`, left to right, replaced by `val`.
pub open spec fn replace_all(s: Seq<char>, pat: Seq<char>, val: Seq<char>) -> Seq<char>
    decreases s.len(),
{
    if s.len() == 0 || pat.len() == 0 {
        s
    } else if crate::text::has_at(s, 0, pat) {
        val + replace_all(s.subrange(pat.len() as int, s.len() as int), pat, val)
    } else {
        seq![s[0]] + replace_all(s.drop_first(), pat, val)
    }
}

/// Each `{{dir:N}}`, left to right, replaced by the directory `N` levels
/// above the list's own; `None` when `N` is not a number or climbs out of
/// the lists directory.  An opening without a closing `}}` ends the
/// replacement.
pub open spec fn subst_dir_n(s: Seq<char>, comps: Seq<Seq<char>>) -> Option<Seq<char>>
    decreases s.len(),
{
    match find_lit(s, "{{dir:"@) {
        None => Some(s),
        Some(i) => {
            proof {
                lemma_find_lit(s, "{{dir:"@);
                reveal_strlit("{{dir:");
            }
            let rest = s.subrange(i + "{{dir:"@.len(), s.len() as int);
            proof {
                lemma_find_lit(rest, "}}"@);
                reveal_strlit("}}");
            }
            match find_lit(rest, "}}"@) {
                None => Some(s),
                Some(j) => match crate::numbers::parse_nat(rest.subrange(0, j)) {
                    None => None,
                    Some(n) => if n >= comps.len() {
                        None
                    } else {
                        match subst_dir_n(rest.subrange(j + "}}"@.len(), rest.len() as int), comps) {
                            None => None,
                            Some(t) => Some(s.subrange(0, i) + comps[comps.len() - 1 - n] + t),
                        }
                    },
                },
            }
        },
    }
}

/// The body with its template variables resolved, or `None` when one of
/// them escapes the lists directory (or the list lies outside it).
pub open spec fn resolve_templates(body: Seq<char>, comps: Option<Seq<Seq<char>>>) -> Option<Seq<char>> {
    match comps {
        None => None,
        Some(c) => if find_lit(body, "{{dir"@) is None {
            Some(body)
        } else {
            match subst_dir_n(body, c) {
                None => None,
                Some(r) => if find_lit(r, "{{dir}}"@) is Some {
                    if c.len() == 0 {
                        None
                    } else {
                        Some(replace_all(r, "{{dir}}"@, c.last()))
                    }
                } else {
                    Some(r)
                },
            }
        },
    }
}

} // verus!

verus! {

pub open spec fn no_front() -> Front {
    Front { name: None, icon: None, description: None }
}

/// The smart list that a `.list` file describes.
pub open spec fn spec_parse_list(content: Seq<char>, source: Seq<char>, dir: Seq<char>) -> SmartListModel {
    let lines = lines_of(unify_newlines(content));
    let default_name = match file_stem(source) {
        Some(s) => s,
        None => seq![],
    };
    let comps = relative_parent(source, dir);
    let group_path = match comps {
        Some(c) => c,
        None => seq![],
    };
    let first = dash_from(lines, 0);
    let second = match first {
        Some(a) => dash_from(lines, a + 1),
        None => None,
    };
    let (parse_error, name, icon, description, body) = match (first, second) {
        (Some(a), Some(b)) => {
            let f = front_fold(no_front(), lines.subrange(a + 1, b));
            (
                None::<Seq<char>>,
                match f.name {
                    Some(n) => n,
                    None => default_name,
                },
                f.icon,
                f.description,
                join_lines(lines.subrange(b + 1, lines.len() as int)),
            )
        },
        _ => (Some("missing frontmatter delimiters"@), default_name, None, None, join_lines(lines)),
    };
    match resolve_templates(body, comps) {
        None => SmartListModel {
            name,
            icon,
            description,
            group_path,
            source_path: source,
            parse_error: Some("template variable escapes lists.d boundary"@),
            blocks: seq![],
            sort_directives: seq![],
            group_directives: seq![],
            prefill: crate::smartlist::types::empty_prefill(),
        },
        Some(resolved) => {
            let st = body_fold(empty_body(), lines_of(resolved));
            SmartListModel {
                name,
                icon,
                description,
                group_path,
                source_path: source,
                parse_error,
                blocks: closed_blocks(st),
                sort_directives: st.sorts,
                group_directives: st.groups,
                prefill: st.prefill,
            }
        },
    }
}

} // verus!

verus! {

proof fn lemma_has_at_shift(v: Seq<char>, from: int, k: int, pat: Seq<char>)
    requires
        0 <= from <= k,
        from <= v.len(),
    ensures
        has_at(v, k, pat) == has_at(v.subrange(from, v.len() as int), k - from, pat),
{
    let t = v.subrange(from, v.len() as int);
    if k + pat.len() <= v.len() {
        assert(t.subrange(k - from, k - from + pat.len()) =~= v.subrange(k, k + pat.len()));
    }
}

/// The first occurrence of `pat` in `v[from..]`, as an index into `v`.
fn find_lit_from(v: &Vec<char>, from: usize, pat: &str) -> (r: Option<usize>)
    requires
        from <= v.len(),
    ensures
        match find_lit(v@.subrange(from as int, v.len() as int), pat@) {
            Some(i) => r == Some((from + i) as usize),
            None => r is None,
        },
{
    let ghost t = v@.subrange(from as int, v.len() as int);
    proof {
        lemma_find_lit(t, pat@);
    }
    let mut k = from;
    while k < v.len()
        invariant
            from <= k <= v.len(),
            t == v@.subrange(from as int, v.len() as int),
            forall|j: int| from <= j < k ==> !has_at(v@, j, pat@),
        decreases v.len() - k,
    {
        if chars_have_at(v, k, pat) {
            proof {
                lemma_has_at_shift(v@, from as int, k as int, pat@);
                lemma_find_lit(t, pat@);
                match find_lit(t, pat@) {
                    Some(i) => {
                        if i < k - from {
                            lemma_has_at_shift(v@, from as int, from + i, pat@);
                        }
                    },
                    None => {},
                }
            }
            return Some(k);
        }
        k = k + 1;
    }
    if chars_have_at(v, k, pat) {
        proof {
            lemma_has_at_shift(v@, from as int, k as int, pat@);
            lemma_find_lit(t, pat@);
            match find_lit(t, pat@) {
                Some(i) => {
                    if i < k - from {
                        lemma_has_at_shift(v@, from as int, from + i, pat@);
                    }
                },
                None => {},
            }
        }
        return Some(k);
    }
    proof {
        match find_lit(t, pat@) {
            Some(i) => {
                lemma_has_at_shift(v@, from as int, from + i, pat@);
            },
            None => {},
        }
    }
    None
}

/// `"\r\n"` replaced by `"\n"`.
fn unify_newlines_chars(v: &Vec<char>) -> (r: Vec<char>)
    ensures
        r@ == unify_newlines(v@),
{
    let n = v.len();
    let mut out: Vec<char> = Vec::new();
    let mut i: usize = 0;
    assert(v@.subrange(0, n as int) =~= v@);
    while i < n
        invariant
            n == v.len(),
            i <= n,
            out@ + unify_newlines(v@.subrange(i as int, n as int)) == unify_newlines(v@),
        decreases n - i,
    {
        let ghost t = v@.subrange(i as int, n as int);
        let ghost before = out@;
        if v[i] == '\r' && i + 1 < n && v[i + 1] == '\n' {
            out.push('\n');
            assert(t.subrange(2, t.len() as int) =~= v@.subrange(i + 2, n as int));
            assert(before + unify_newlines(t) =~= out@ + unify_newlines(v@.subrange(i + 2, n as int)));
            i = i + 2;
        } else {
            out.push(v[i]);
            assert(t.drop_first() =~= v@.subrange(i + 1, n as int));
            assert(before + unify_newlines(t) =~= out@ + unify_newlines(v@.subrange(i + 1, n as int)));
            i = i + 1;
        }
    }
    assert(v@.subrange(n as int, n as int) =~= Seq::<char>::empty());
    assert(out@ + unify_newlines(v@.subrange(n as int, n as int)) =~= out@);
    out
}

/// `lines[lo..hi]` joined with `'\n'`.
fn join_lines_range(lines: &Vec<Vec<char>>, lo: usize, hi: usize) -> (r: Vec<char>)
    requires
        lo <= hi <= lines.len(),
    ensures
        r@ == join_lines(vecs_view(lines@).subrange(lo as int, hi as int)),
{
    let ghost all = vecs_view(lines@);
    let mut r: Vec<char> = Vec::new();
    let mut i = lo;
    while i < hi
        invariant
            lo <= i <= hi <= lines.len(),
            all == vecs_view(lines@),
            r@ == join_lines(all.subrange(lo as int, i as int)),
        decreases hi - i,
    {
        let ghost before = r@;
        if i > lo {
            r.push('\n');
        }
        let l = &lines[i];
        let mut k: usize = 0;
        let ghost mid = r@;
        while k < l.len()
            invariant
                k <= l.len(),
                r@ == mid + l@.subrange(0, k as int),
            decreases l.len() - k,
        {
            r.push(l[k]);
            k = k + 1;
            assert(r@ =~= mid + l@.subrange(0, k as int));
        }
        proof {
            assert(l@.subrange(0, l@.len() as int) =~= l@);
            let s = all.subrange(lo as int, i + 1);
            assert(s.drop_last() =~= all.subrange(lo as int, i as int));
            assert(s.last() == l@);
            if i == lo {
                assert(r@ =~= s[0]);
            } else {
                assert(r@ =~= join_lines(s.drop_last()) + seq!['\n'] + s.last());
            }
        }
        i = i + 1;
    }
    r
}

proof fn lemma_dash_from_bounds(lines: Seq<Seq<char>>, from: int)
    ensures
        match dash_from(lines, from) {
            Some(i) => from <= i < lines.len(),
            None => true,
        },
    decreases lines.len() - from,
{
    if from >= 0 && from < lines.len() && !is_dash_line(lines[from]) {
        lemma_dash_from_bounds(lines, from + 1);
    }
}

/// The first `---` line at or after `from`.
fn find_dash(lines: &Vec<Vec<char>>, from: usize) -> (r: Option<usize>)
    ensures
        match dash_from(vecs_view(lines@), from as int) {
            Some(i) => from <= i < lines.len() && r == Some(i as usize),
            None => r is None,
        },
        match r {
            Some(i) => from <= i < lines.len(),
            None => true,
        },
{
    let ghost all = vecs_view(lines@);
    proof {
        lemma_dash_from_bounds(all, from as int);
    }
    let mut i = from;
    while i < lines.len()
        invariant
            from <= i,
            all == vecs_view(lines@),
            dash_from(all, i as int) == dash_from(all, from as int),
            all.len() == lines.len(),
        decreases lines.len() - i,
    {
        let t = trim_chars(&lines[i]);
        if chars_eq_lit(&t, "---") {
            return Some(i);
        }
        i = i + 1;
    }
    None
}

/// The frontmatter being read.
struct FrontAcc {
    name: Option<Vec<char>>,
    icon: Option<Vec<char>>,
    description: Option<Vec<char>>,
}

spec fn opt_chars(o: Option<Vec<char>>) -> Option<Seq<char>> {
    match o {
        Some(v) => Some(v@),
        None => None,
    }
}

impl FrontAcc {
    spec fn model(&self) -> Front {
        Front {
            name: opt_chars(self.name),
            icon: opt_chars(self.icon),
            description: opt_chars(self.description),
        }
    }

    #[verifier::rlimit(60)]
    fn step(&mut self, l: &Vec<char>)
        ensures
            final(self).model() == front_step(old(self).model(), l@),
    {
        let c = find_char(l, 0, ':');
        assert(l@.subrange(0, l@.len() as int) =~= l@);
        if c >= l.len() {
            return;
        }
        let key = trim_range(l, 0, c);
        let value = trim_range(l, c + 1, l.len());
        if chars_eq_lit(&key, "name") {
            self.name = Some(value);
        } else if chars_eq_lit(&key, "icon") {
            self.icon = Some(value);
        } else if chars_eq_lit(&key, "description") {
            self.description = Some(value);
        }
    }
}

/// The body being read.
struct BodyAcc {
    blocks: Vec<FilterBlock>,
    current: Vec<Condition>,
    sorts: Vec<Directive>,
    groups: Vec<Directive>,
    prefill: Prefill,
}

impl BodyAcc {
    spec fn model(&self) -> BodyState {
        BodyState {
            blocks: crate::smartlist::types::blocks_view(self.blocks@),
            current: crate::smartlist::types::conditions_view(self.current@),
            sorts: self.sorts@,
            groups: self.groups@,
            prefill: self.prefill@,
        }
    }

    /// Closes the current block.
    fn close(&mut self)
        ensures
            final(self).model() == (BodyState {
                blocks: closed_blocks(old(self).model()),
                current: seq![],
                ..old(self).model()
            }),
    {
        let ghost m0 = self.model();
        let mut cur: Vec<Condition> = Vec::new();
        std::mem::swap(&mut cur, &mut self.current);
        if cur.len() > 0 {
            self.blocks.push(FilterBlock { conditions: cur });
            assert(self.model().blocks =~= m0.blocks.push(m0.current));
        }
        assert(self.model().current =~= Seq::<ConditionModel>::empty());
    }

    #[verifier::rlimit(60)]
    fn step(&mut self, line: &Vec<char>)
        ensures
            final(self).model() == body_step(old(self).model(), line@),
    {
        let ghost m0 = self.model();
        let t = trim_chars(line);
        if chars_eq_lit(&t, "OR") {
            self.close();
            return;
        }
        if t.len() == 0 || t[0] == '#' {
            return;
        }
        let is_sort_line = chars_have_at(&t, 0, "sort by ");
        let is_group_line = chars_have_at(&t, 0, "group by ");
        if is_sort_line || is_group_line {
            assert(trim(t@) == t@) by {
                crate::text::lemma_trim_idempotent(line@);
            }
            match parse_directive(&t) {
                Some((is_sort, d)) => {
                    if is_sort {
                        self.sorts.push(d);
                    } else {
                        self.groups.push(d);
                    }
                },
                None => {},
            }
            return;
        }
        if chars_have_at(&t, 0, "prefill ") {
            match parse_prefill_line(&t) {
                Some(p) => {
                    apply_prefill(&mut self.prefill, p);
                },
                None => {},
            }
            return;
        }
        match parse_condition(&t) {
            Some(c) => {
                self.current.push(c);
                assert(self.model().current =~= m0.current.push(c@));
            },
            None => {},
        }
    }
}

/// Each `{{dir:N}}` of `v[from..]` resolved.
fn subst_dir_n_from(v: &Vec<char>, from: usize, comps: &Vec<Vec<char>>) -> (r: Option<Vec<char>>)
    requires
        from <= v.len(),
    ensures
        match subst_dir_n(v@.subrange(from as int, v.len() as int), vecs_view(comps@)) {
            Some(s) => r is Some && r->0@ == s,
            None => r is None,
        },
    decreases v.len() - from,
{
    let ghost s = v@.subrange(from as int, v.len() as int);
    proof {
        reveal_strlit("{{dir:");
        reveal_strlit("}}");
        lemma_find_lit(s, "{{dir:"@);
    }
    match find_lit_from(v, from, "{{dir:") {
        None => Some(slice_of(v, from, v.len())),
        Some(i) => {
            let open_len = lit_len("{{dir:");
            let start = i + open_len;
            let ghost rest = s.subrange(i - from + 6, s.len() as int);
            assert(rest =~= v@.subrange(start as int, v.len() as int));
            proof {
                lemma_find_lit(rest, "}}"@);
            }
            match find_lit_from(v, start, "}}") {
                None => Some(slice_of(v, from, v.len())),
                Some(j) => {
                    let num = slice_of(v, start, j);
                    assert(num@ =~= rest.subrange(0, j - start));
                    assert(find_lit(s, "{{dir:"@) == Some(i - from));
                    assert(find_lit(rest, "}}"@) == Some(j - start));
                    let cap: u64 = usize::MAX as u64;
                    assert(cap == usize::MAX);
                    match chars_parse_nat_capped(&num, cap) {
                        None => None,
                        Some(n) => {
                            let ghost x = parse_nat(num@)->0;
                            assert(parse_nat(num@) == Some(x));
                            if n >= comps.len() as u64 {
                                assert(x >= comps.len());
                                return None;
                            }
                            assert(x < comps.len());
                            let after = j + 2;
                            assert(rest.subrange(j - start + 2, rest.len() as int) =~= v@.subrange(after as int, v.len() as int));
                            match subst_dir_n_from(v, after, comps) {
                                None => None,
                                Some(t) => {
                                    let mut out = slice_of(v, from, i);
                                    let idx = comps.len() - 1 - (n as usize);
                                    let value = &comps[idx];
                                    let mut k: usize = 0;
                                    let ghost o0 = out@;
                                    while k < value.len()
                                        invariant
                                            k <= value.len(),
                                            out@ == o0 + value@.subrange(0, k as int),
                                        decreases value.len() - k,
                                    {
                                        out.push(value[k]);
                                        k = k + 1;
                                        assert(out@ =~= o0 + value@.subrange(0, k as int));
                                    }
                                    let ghost o1 = out@;
                                    let mut k2: usize = 0;
                                    while k2 < t.len()
                                        invariant
                                            k2 <= t.len(),
                                            out@ == o1 + t@.subrange(0, k2 as int),
                                        decreases t.len() - k2,
                                    {
                                        out.push(t[k2]);
                                        k2 = k2 + 1;
                                        assert(out@ =~= o1 + t@.subrange(0, k2 as int));
                                    }
                                    proof {
                                        assert(value@.subrange(0, value@.len() as int) =~= value@);
                                        assert(t@.subrange(0, t@.len() as int) =~= t@);
                                        assert(vecs_view(comps@)[idx as int] == value@);
                                        assert(o0 =~= s.subrange(0, i - from));
                                    }
                                    Some(out)
                                },
                            }
                        },
                    }
                },
            }
        },
    }
}

/// Every `pat` in `v` replaced by `val`.
fn replace_all_chars(v: &Vec<char>, pat: &str, val: &Vec<char>) -> (r: Vec<char>)
    ensures
        r@ == replace_all(v@, pat@, val@),
{
    let n = v.len();
    let plen = lit_len(pat);
    let mut out: Vec<char> = Vec::new();
    let mut i: usize = 0;
    assert(v@.subrange(0, n as int) =~= v@);
    if plen == 0 {
        assert(replace_all(v@, pat@, val@) == v@);
        return slice_of(v, 0, n);
    }
    while i < n
        invariant
            n == v.len(),
            plen == pat@.len(),
            plen > 0,
            i <= n,
            out@ + replace_all(v@.subrange(i as int, n as int), pat@, val@) == replace_all(v@, pat@, val@),
        decreases n - i,
    {
        let ghost t = v@.subrange(i as int, n as int);
        let ghost before = out@;
        if chars_have_at(v, i, pat) {
            proof {
                lemma_has_at_shift(v@, i as int, i as int, pat@);
            }
            let mut k: usize = 0;
            while k < val.len()
                invariant
                    k <= val.len(),
                    out@ == before + val@.subrange(0, k as int),
                decreases val.len() - k,
            {
                out.push(val[k]);
                k = k + 1;
                assert(out@ =~= before + val@.subrange(0, k as int));
            }
            assert(val@.subrange(0, val@.len() as int) =~= val@);
            assert(t.subrange(plen as int, t.len() as int) =~= v@.subrange(i + plen, n as int));
            assert(before + replace_all(t, pat@, val@) =~= out@ + replace_all(v@.subrange(i + plen, n as int), pat@, val@));
            i = i + plen;
        } else {
            proof {
                lemma_has_at_shift(v@, i as int, i as int, pat@);
            }
            out.push(v[i]);
            assert(t.drop_first() =~= v@.subrange(i + 1, n as int));
            assert(before + replace_all(t, pat@, val@) =~= out@ + replace_all(v@.subrange(i + 1, n as int), pat@, val@));
            i = i + 1;
        }
    }
    assert(v@.subrange(n as int, n as int) =~= Seq::<char>::empty());
    assert(out@ + replace_all(v@.subrange(n as int, n as int), pat@, val@) =~= out@);
    out
}

/// The body with its template variables resolved.
fn resolve_template_variables(body: &Vec<char>, comps: &Option<Vec<Vec<char>>>) -> (r: Option<Vec<char>>)
    ensures
        match resolve_templates(body@, match comps { Some(c) => Some(vecs_view(c@)), None => None }) {
            Some(s) => r is Some && r->0@ == s,
            None => r is None,
        },
{
    let c = match comps {
        Some(c) => c,
        None => {
            return None;
        },
    };
    assert(body@.subrange(0, body@.len() as int) =~= body@);
    if find_lit_from(body, 0, "{{dir").is_none() {
        return Some(slice_of(body, 0, body.len()));
    }
    match subst_dir_n_from(body, 0, c) {
        None => None,
        Some(r) => {
            assert(r@.subrange(0, r@.len() as int) =~= r@);
            if find_lit_from(&r, 0, "{{dir}}").is_some() {
                if c.len() == 0 {
                    None
                } else {
                    Some(replace_all_chars(&r, "{{dir}}", &c[c.len() - 1]))
                }
            } else {
                Some(r)
            }
        },
    }
}

} // verus!

verus! {

fn opt_string_of(o: Option<Vec<char>>) -> (r: Option<String>)
    ensures
        crate::text::opt_view(r) == opt_chars(o),
{
    match o {
        Some(v) => Some(string_of(&v)),
        None => None,
    }
}

fn strings_of(v: &Vec<Vec<char>>) -> (r: Vec<String>)
    ensures
        crate::text::strings_view(r@) == vecs_view(v@),
{
    let mut r: Vec<String> = Vec::new();
    let mut i: usize = 0;
    while i < v.len()
        invariant
            i <= v.len(),
            r.len() == i,
            forall|j: int| 0 <= j < i ==> r@[j]@ == v@[j]@,
        decreases v.len() - i,
    {
        r.push(string_of(&v[i]));
        i = i + 1;
    }
    assert(crate::text::strings_view(r@) =~= vecs_view(v@));
    r
}

/// Parses the content of a `.list` file found at `source_path` below
/// `lists_dir`.
pub fn parse_list(content: &str, source_path: &str, lists_dir: &str) -> (r: SmartList)
    ensures
        r@ == spec_parse_list(content@, source_path@, lists_dir@),
{
    let raw = chars_of(content);
    let unified = unify_newlines_chars(&raw);
    let lines = split_lines(&unified);
    let ghost ls = vecs_view(lines@);
    let source = chars_of(source_path);
    let dir = chars_of(lists_dir);
    let default_name: Vec<char> = match path_file_stem(&source) {
        Some(s) => s,
        None => Vec::new(),
    };
    assert(default_name@ == match file_stem(source@) {
        Some(s) => s,
        None => Seq::<char>::empty(),
    });
    let comps = parent_below(&source, &dir);
    let group_path: Vec<String> = match &comps {
        Some(c) => strings_of(c),
        None => Vec::new(),
    };
    assert(crate::text::strings_view(group_path@) =~= match relative_parent(source@, dir@) {
        Some(c) => c,
        None => Seq::<Seq<char>>::empty(),
    });

    let first = find_dash(&lines, 0);
    let second = match first {
        Some(a) => find_dash(&lines, a + 1),
        None => None,
    };
    assert(match first {
        Some(a) => match dash_from(ls, a + 1) {
            Some(b) => second == Some(b as usize),
            None => second is None,
        },
        None => second is None,
    });
    let parse_error: Option<String>;
    let name: Vec<char>;
    let icon: Option<Vec<char>>;
    let description: Option<Vec<char>>;
    let body: Vec<char>;
    if first.is_some() && second.is_some() {
        let a = first.unwrap();
        let b = second.unwrap();
        proof {
            if a + 1 <= b {
            }
        }
        let mut front = FrontAcc { name: None, icon: None, description: None };
        let mut i = a + 1;
        assert(b < lines.len());
        while i < b
            invariant
                a + 1 <= i <= b < lines.len(),
                ls == vecs_view(lines@),
                front_fold(front.model(), ls.subrange(i as int, b as int)) == front_fold(
                    no_front(),
                    ls.subrange(a + 1, b as int),
                ),
            decreases b - i,
        {
            let ghost rest = ls.subrange(i as int, b as int);
            front.step(&lines[i]);
            assert(rest.drop_first() =~= ls.subrange(i + 1, b as int));
            assert(rest[0] == lines@[i as int]@);
            i = i + 1;
        }
        assert(ls.subrange(b as int, b as int) =~= Seq::<Seq<char>>::empty());
        let ghost f = front_fold(no_front(), ls.subrange(a + 1, b as int));
        assert(front.model() == f);
        parse_error = None;
        name = match front.name {
            Some(n) => n,
            None => default_name,
        };
        icon = front.icon;
        description = front.description;
        body = join_lines_range(&lines, b + 1, lines.len());
        assert(opt_chars(icon) == f.icon);
        assert(opt_chars(description) == f.description);
        assert(name@ == match f.name {
            Some(n) => n,
            None => default_name@,
        });
    } else {
        let mut err = String::new();
        crate::text::push_str(&mut err, "missing frontmatter delimiters");
        assert(err@ =~= "missing frontmatter delimiters"@);
        parse_error = Some(err);
        name = default_name;
        icon = None;
        description = None;
        body = join_lines_range(&lines, 0, lines.len());
        assert(ls.subrange(0, ls.len() as int) =~= ls);
    }
    let ghost vcomps = match &comps {
        Some(c) => Some(vecs_view(c@)),
        None => None,
    };
    assert(vcomps == relative_parent(source@, dir@));
    assert(ls == lines_of(unify_newlines(content@)));
    proof {
        let lines_s = lines_of(unify_newlines(content@));
        let default_s = match file_stem(source_path@) {
            Some(s) => s,
            None => seq![],
        };
        let first_s = dash_from(lines_s, 0);
        let second_s = match first_s {
            Some(a) => dash_from(lines_s, a + 1),
            None => None,
        };
        match (first_s, second_s) {
            (Some(a), Some(b)) => {
                let f = front_fold(no_front(), lines_s.subrange(a + 1, b));
                assert(first == Some(a as usize));
                assert(second == Some(b as usize));
                assert(crate::text::opt_view(parse_error) == None::<Seq<char>>);
                assert(name@ == match f.name {
                    Some(n) => n,
                    None => default_s,
                });
                assert(opt_chars(icon) == f.icon);
                assert(opt_chars(description) == f.description);
                assert(body@ == join_lines(lines_s.subrange(b + 1, lines_s.len() as int)));
            },
            _ => {
                assert(crate::text::opt_view(parse_error) == Some("missing frontmatter delimiters"@));
                assert(name@ == default_s);
                assert(body@ == join_lines(lines_s));
            },
        }
    }
    match resolve_template_variables(&body, &comps) {
        None => {
            let mut err = String::new();
            crate::text::push_str(&mut err, "template variable escapes lists.d boundary");
            assert(err@ =~= "template variable escapes lists.d boundary"@);
            let r = SmartList {
                name: string_of(&name),
                icon: opt_string_of(icon),
                description: opt_string_of(description),
                group_path,
                source_path: string_of(&source),
                parse_error: Some(err),
                blocks: Vec::new(),
                sort_directives: Vec::new(),
                group_directives: Vec::new(),
                prefill: Prefill::new(),
            };
            assert(r@.blocks =~= Seq::<Seq<ConditionModel>>::empty());
            assert(r@.sort_directives =~= Seq::<Directive>::empty());
            assert(r@.group_directives =~= Seq::<Directive>::empty());
            r
        },
        Some(resolved) => {
            let body_lines = split_lines(&resolved);
            let ghost bl = vecs_view(body_lines@);
            let mut acc = BodyAcc {
                blocks: Vec::new(),
                current: Vec::new(),
                sorts: Vec::new(),
                groups: Vec::new(),
                prefill: Prefill::new(),
            };
            assert(acc.model() =~= empty_body()) by {
                assert(acc.model().blocks =~= empty_body().blocks);
                assert(acc.model().current =~= empty_body().current);
                assert(acc.model().sorts =~= empty_body().sorts);
                assert(acc.model().groups =~= empty_body().groups);
            }
            let mut i: usize = 0;
            assert(bl.subrange(0, bl.len() as int) =~= bl);
            while i < body_lines.len()
                invariant
                    i <= body_lines.len(),
                    bl == vecs_view(body_lines@),
                    body_fold(acc.model(), bl.subrange(i as int, bl.len() as int)) == body_fold(
                        empty_body(),
                        bl,
                    ),
                decreases body_lines.len() - i,
            {
                let ghost rest = bl.subrange(i as int, bl.len() as int);
                acc.step(&body_lines[i]);
                assert(rest.drop_first() =~= bl.subrange(i + 1, bl.len() as int));
                assert(rest[0] == body_lines@[i as int]@);
                i = i + 1;
            }
            assert(bl.subrange(bl.len() as int, bl.len() as int) =~= Seq::<Seq<char>>::empty());
            acc.close();
            SmartList {
                name: string_of(&name),
                icon: opt_string_of(icon),
                description: opt_string_of(description),
                group_path,
                source_path: string_of(&source),
                parse_error,
                blocks: acc.blocks,
                sort_directives: acc.sorts,
                group_directives: acc.groups,
                prefill: acc.prefill,
            }
        },
    }
}

} // verus!
