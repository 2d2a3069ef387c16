//! The default order of tasks.
use vstd::prelude::*;

use crate::sorting::{sort_by, Orderer};
use crate::task::{tag_lookup, Task, TaskModel};
use crate::text::{int_order, lemma_lex_order_equal, lemma_lex_order_flip, lex_order, str_order, Order3};

verus! {

/// `a`, unless it is `Equal`; then `b`.
pub open spec fn then(a: Order3, b: Order3) -> Order3 {
    if a == Order3::Equal {
        b
    } else {
        a
    }
}

/// Present values first; two values by `f`.
pub open spec fn opt_order<A>(a: Option<A>, b: Option<A>, f: spec_fn(A, A) -> Order3) -> Order3 {
    match (a, b) {
        (Some(x), Some(y)) => f(x, y),
        (Some(_), None) => Order3::Less,
        (None, Some(_)) => Order3::Greater,
        (None, None) => Order3::Equal,
    }
}

/// Open tasks before done tasks.
pub open spec fn done_order(a: TaskModel, b: TaskModel) -> Order3 {
    match (a.done, b.done) {
        (false, true) => Order3::Less,
        (true, false) => Order3::Greater,
        _ => Order3::Equal,
    }
}

/// Among done tasks, the latest completion first, tasks without one last.
pub open spec fn completion_order(a: TaskModel, b: TaskModel) -> Order3 {
    if a.done && b.done {
        opt_order(a.completion_date, b.completion_date, |x: Seq<char>, y: Seq<char>| lex_order(y, x))
    } else {
        Order3::Equal
    }
}

/// A task is actionable unless its `starting` date lies after `today`.
pub open spec fn actionable(t: TaskModel, today: Seq<char>) -> bool {
    match tag_lookup(t.tags, "starting"@) {
        Some(s) => lex_order(s, today) != Order3::Greater,
        None => true,
    }
}

pub open spec fn actionable_rank(t: TaskModel, today: Seq<char>) -> int {
    if actionable(t, today) {
        0
    } else {
        1
    }
}

pub open spec fn date_order(a: Option<Seq<char>>, b: Option<Seq<char>>) -> Order3 {
    opt_order(a, b, |x: Seq<char>, y: Seq<char>| lex_order(x, y))
}

pub open spec fn priority_order(a: Option<char>, b: Option<char>) -> Order3 {
    opt_order(a, b, |x: char, y: char| int_order(x as int, y as int))
}

/// The default task order: open before done, latest completion first,
/// actionable first, then priority, due date, scheduled date and creation
/// date (present values first), and finally the raw line.
pub open spec fn task_order(a: TaskModel, b: TaskModel, today: Seq<char>) -> Order3 {
    then(done_order(a, b),
    then(completion_order(a, b),
    then(int_order(actionable_rank(a, today), actionable_rank(b, today)),
    then(priority_order(a.priority, b.priority),
    then(date_order(tag_lookup(a.tags, "due"@), tag_lookup(b.tags, "due"@)),
    then(date_order(tag_lookup(a.tags, "scheduled"@), tag_lookup(b.tags, "scheduled"@)),
    then(date_order(a.creation_date, b.creation_date),
    lex_order(a.raw, b.raw))))))))
}

pub proof fn lemma_date_order_flip(a: Option<Seq<char>>, b: Option<Seq<char>>)
    ensures
        date_order(b, a) == date_order(a, b).flip(),
{
    if a is Some && b is Some {
        lemma_lex_order_flip(a->0, b->0);
    }
}

/// Swapping two tasks flips their order.
pub proof fn lemma_task_order_flip(a: TaskModel, b: TaskModel, today: Seq<char>)
    ensures
        task_order(b, a, today) == task_order(a, b, today).flip(),
{
    lemma_lex_order_flip(a.raw, b.raw);
    lemma_date_order_flip(a.creation_date, b.creation_date);
    lemma_date_order_flip(tag_lookup(a.tags, "due"@), tag_lookup(b.tags, "due"@));
    lemma_date_order_flip(tag_lookup(a.tags, "scheduled"@), tag_lookup(b.tags, "scheduled"@));
    if a.done && b.done && a.completion_date is Some && b.completion_date is Some {
        lemma_lex_order_flip(a.completion_date->0, b.completion_date->0);
    }
}

fn opt_date_order(a: Option<&String>, b: Option<&String>) -> (r: Order3)
    ensures
        r == date_order(
            match a { Some(x) => Some(x@), None => None },
            match b { Some(x) => Some(x@), None => None },
        ),
{
    match (a, b) {
        (Some(x), Some(y)) => str_order(x.as_str(), y.as_str()),
        (Some(_), None) => Order3::Less,
        (None, Some(_)) => Order3::Greater,
        (None, None) => Order3::Equal,
    }
}

fn is_actionable(task: &Task, today: &str) -> (r: bool)
    ensures
        r == actionable(task@, today@),
{
    match task.tags.get("starting") {
        Some(s) => str_order(s.as_str(), today) != Order3::Greater,
        None => true,
    }
}

fn compare_done_status(left: &Task, right: &Task) -> (r: Order3)
    ensures
        r == done_order(left@, right@),
{
    match (left.done, right.done) {
        (false, true) => Order3::Less,
        (true, false) => Order3::Greater,
        _ => Order3::Equal,
    }
}

fn compare_done_completion_date(left: &Task, right: &Task) -> (r: Order3)
    ensures
        r == completion_order(left@, right@),
{
    if left.done && right.done {
        match (&left.completion_date, &right.completion_date) {
            (Some(l), Some(r)) => str_order(r.as_str(), l.as_str()),
            (Some(_), None) => Order3::Less,
            (None, Some(_)) => Order3::Greater,
            (None, None) => Order3::Equal,
        }
    } else {
        Order3::Equal
    }
}

fn compare_priority(left: Option<char>, right: Option<char>) -> (r: Order3)
    ensures
        r == priority_order(left, right),
{
    match (left, right) {
        (Some(l), Some(r)) => if l < r {
            Order3::Less
        } else if l == r {
            Order3::Equal
        } else {
            Order3::Greater
        },
        (Some(_), None) => Order3::Less,
        (None, Some(_)) => Order3::Greater,
        (None, None) => Order3::Equal,
    }
}

/// Compares two tasks in the default order.
pub fn compare_tasks(left: &Task, right: &Task, today: &str) -> (r: Order3)
    ensures
        r == task_order(left@, right@, today@),
{
    let c = compare_done_status(left, right);
    if c != Order3::Equal {
        return c;
    }
    let c = compare_done_completion_date(left, right);
    if c != Order3::Equal {
        return c;
    }
    let la: u8 = if is_actionable(left, today) { 0 } else { 1 };
    let ra: u8 = if is_actionable(right, today) { 0 } else { 1 };
    if la != ra {
        return if la < ra {
            Order3::Less
        } else {
            Order3::Greater
        };
    }
    let c = compare_priority(left.priority, right.priority);
    if c != Order3::Equal {
        return c;
    }
    let c = opt_date_order(left.tags.get("due"), right.tags.get("due"));
    if c != Order3::Equal {
        return c;
    }
    let c = opt_date_order(left.tags.get("scheduled"), right.tags.get("scheduled"));
    if c != Order3::Equal {
        return c;
    }
    let c = opt_date_order(left.creation_date.as_ref(), right.creation_date.as_ref());
    if c != Order3::Equal {
        return c;
    }
    str_order(left.raw.as_str(), right.raw.as_str())
}

/// The default task order relative to a given day.
pub struct TaskOrderer<'a> {
    pub today: &'a str,
}

impl<'a> Orderer<Task> for TaskOrderer<'a> {
    open spec fn spec_order(&self, a: Task, b: Task) -> Order3 {
        task_order(a@, b@, self.today@)
    }

    proof fn lemma_flip(&self, a: Task, b: Task) {
        lemma_task_order_flip(a@, b@, self.today@);
    }

    fn order(&self, a: &Task, b: &Task) -> (r: Order3) {
        compare_tasks(a, b, self.today)
    }
}

/// Sorts tasks into the default order (stable).
pub fn sort_tasks(tasks: &mut Vec<Task>, today: &str)
    ensures
        final(tasks)@.len() == old(tasks)@.len(),
        final(tasks)@.to_multiset() == old(tasks)@.to_multiset(),
        forall|i: int|
            0 <= i < final(tasks)@.len() - 1 ==> task_order(
                final(tasks)@[i]@,
                #[trigger] final(tasks)@[i + 1]@,
                today@,
            ) != Order3::Greater,
{
    let o = TaskOrderer { today };
    sort_by(tasks, &o);
}

/// Two tasks agree on every key of the default order before priority:
/// both open or both done (done ones with the same completion date), and
/// both actionable or both not.
pub open spec fn same_status(a: TaskModel, b: TaskModel, today: Seq<char>) -> bool {
    &&& a.done == b.done
    &&& a.done ==> a.completion_date == b.completion_date
    &&& actionable(a, today) == actionable(b, today)
}

/// `x` comes before `y` as an optional date key: both present and `x`
/// lexicographically smaller, or only `x` present.
pub open spec fn key_before(x: Option<Seq<char>>, y: Option<Seq<char>>) -> bool {
    match (x, y) {
        (Some(u), Some(v)) => lex_order(u, v) == Order3::Less,
        (Some(_), None) => true,
        _ => false,
    }
}

/// The default order, key by key: an open task comes before a done one;
/// among done tasks the later completion (or one at all) comes first; an
/// actionable task before one that is not; then the higher priority (a
/// priority at all), the earlier due date, the earlier scheduled date and
/// the earlier creation date (a date at all first), each deciding when the
/// keys before it agree; tasks that agree on all of them follow their raw
/// lines.
pub proof fn law_default_order_keys(a: TaskModel, b: TaskModel, today: Seq<char>)
    ensures
        !a.done && b.done ==> task_order(a, b, today) == Order3::Less,
        a.done && b.done && a.completion_date is Some && b.completion_date is Some
            && key_before(b.completion_date, a.completion_date)
            ==> task_order(a, b, today) == Order3::Less,
        a.done && b.done && a.completion_date is Some && b.completion_date is None
            ==> task_order(a, b, today) == Order3::Less,
        a.done == b.done && (a.done ==> a.completion_date == b.completion_date) && actionable(a, today)
            && !actionable(b, today) ==> task_order(a, b, today) == Order3::Less,
        same_status(a, b, today) && (match (a.priority, b.priority) {
            (Some(p), Some(q)) => (p as int) < (q as int),
            (Some(_), None) => true,
            _ => false,
        }) ==> task_order(a, b, today) == Order3::Less,
        same_status(a, b, today) && a.priority == b.priority
            && key_before(tag_lookup(a.tags, "due"@), tag_lookup(b.tags, "due"@))
            ==> task_order(a, b, today) == Order3::Less,
        same_status(a, b, today) && a.priority == b.priority
            && tag_lookup(a.tags, "due"@) == tag_lookup(b.tags, "due"@)
            && key_before(tag_lookup(a.tags, "scheduled"@), tag_lookup(b.tags, "scheduled"@))
            ==> task_order(a, b, today) == Order3::Less,
        same_status(a, b, today) && a.priority == b.priority
            && tag_lookup(a.tags, "due"@) == tag_lookup(b.tags, "due"@)
            && tag_lookup(a.tags, "scheduled"@) == tag_lookup(b.tags, "scheduled"@)
            && key_before(a.creation_date, b.creation_date)
            ==> task_order(a, b, today) == Order3::Less,
        same_status(a, b, today) && a.priority == b.priority
            && tag_lookup(a.tags, "due"@) == tag_lookup(b.tags, "due"@)
            && tag_lookup(a.tags, "scheduled"@) == tag_lookup(b.tags, "scheduled"@)
            && a.creation_date == b.creation_date
            ==> task_order(a, b, today) == lex_order(a.raw, b.raw),
{
    if let Some(c) = a.completion_date {
        lemma_lex_order_equal(c, c);
        if let Some(d) = b.completion_date {
            lemma_lex_order_flip(c, d);
        }
    }
    if let Some(x) = tag_lookup(a.tags, "due"@) {
        lemma_lex_order_equal(x, x);
    }
    if let Some(x) = tag_lookup(a.tags, "scheduled"@) {
        lemma_lex_order_equal(x, x);
    }
    if let Some(x) = a.creation_date {
        lemma_lex_order_equal(x, x);
    }
}

} // verus!
