//! The task record: one line of a todo.txt file, split into its parts.
use vstd::prelude::*;

use crate::text::{chars_eq, chars_of, copy_opt_string, copy_strings, opt_view, strings_view};

verus! {

/// The `key:value` tags of a task, in the order in which they first occur.
/// No key occurs twice.
#[derive(Debug, Clone, PartialEq, Eq)]
pub struct TagMap {
    pub entries: Vec<(String, String)>,
}

pub open spec fn pair_view(p: (String, String)) -> (Seq<char>, Seq<char>) {
    (p.0@, p.1@)
}

/// The value stored under `key` in a list of tag entries, if any.
pub open spec fn tag_lookup(entries: Seq<(Seq<char>, Seq<char>)>, key: Seq<char>) -> Option<Seq<char>>
    decreases entries.len(),
{
    if entries.len() == 0 {
        None
    } else if entries[0].0 == key {
        Some(entries[0].1)
    } else {
        tag_lookup(entries.drop_first(), key)
    }
}

/// No key occurs twice.
pub open spec fn keys_distinct(entries: Seq<(Seq<char>, Seq<char>)>) -> bool {
    forall|i: int, j: int|
        0 <= i < entries.len() && 0 <= j < entries.len() && i != j ==> entries[i].0 != entries[j].0
}

impl View for TagMap {
    type V = Seq<(Seq<char>, Seq<char>)>;

    open spec fn view(&self) -> Seq<(Seq<char>, Seq<char>)> {
        self.entries@.map_values(|p: (String, String)| pair_view(p))
    }
}

pub proof fn lemma_tag_lookup_found(entries: Seq<(Seq<char>, Seq<char>)>, key: Seq<char>, i: int)
    requires
        0 <= i < entries.len(),
        entries[i].0 == key,
        forall|j: int| 0 <= j < i ==> entries[j].0 != key,
    ensures
        tag_lookup(entries, key) == Some(entries[i].1),
    decreases i,
{
    if i > 0 {
        lemma_tag_lookup_found(entries.drop_first(), key, i - 1);
    }
}

pub proof fn lemma_tag_lookup_absent(entries: Seq<(Seq<char>, Seq<char>)>, key: Seq<char>)
    requires
        forall|j: int| 0 <= j < entries.len() ==> entries[j].0 != key,
    ensures
        tag_lookup(entries, key) is None,
    decreases entries.len(),
{
    if entries.len() > 0 {
        lemma_tag_lookup_absent(entries.drop_first(), key);
    }
}

pub proof fn lemma_tag_lookup_push(
    entries: Seq<(Seq<char>, Seq<char>)>,
    k: Seq<char>,
    v: Seq<char>,
    key: Seq<char>,
)
    ensures
        tag_lookup(entries.push((k, v)), key) == (match tag_lookup(entries, key) {
            Some(x) => Some(x),
            None => if k == key {
                Some(v)
            } else {
                None
            },
        }),
    decreases entries.len(),
{
    if entries.len() > 0 {
        assert(entries.push((k, v)).drop_first() =~= entries.drop_first().push((k, v)));
        lemma_tag_lookup_push(entries.drop_first(), k, v, key);
    } else {
        assert(entries.push((k, v)).drop_first() =~= entries);
    }
}

/// A key that the lookup finds occurs among the entries.
pub proof fn lemma_tag_lookup_some(entries: Seq<(Seq<char>, Seq<char>)>, key: Seq<char>)
    requires
        tag_lookup(entries, key) is Some,
    ensures
        exists|i: int| 0 <= i < entries.len() && (#[trigger] entries[i]).0 == key,
    decreases entries.len(),
{
    if entries[0].0 != key {
        lemma_tag_lookup_some(entries.drop_first(), key);
        let i = choose|i: int| 0 <= i < entries.drop_first().len() && (#[trigger] entries.drop_first()[i]).0 == key;
        assert(entries[i + 1] == entries.drop_first()[i]);
    }
}

/// Two tag lists give every key the same value, as two maps that are equal.
pub open spec fn same_tags(a: Seq<(Seq<char>, Seq<char>)>, b: Seq<(Seq<char>, Seq<char>)>) -> bool {
    forall|k: Seq<char>| #[trigger] tag_lookup(a, k) == tag_lookup(b, k)
}

impl TagMap {
    pub fn new() -> (r: TagMap)
        ensures
            r@ == Seq::<(Seq<char>, Seq<char>)>::empty(),
    {
        let r = TagMap { entries: Vec::new() };
        assert(r@ =~= Seq::<(Seq<char>, Seq<char>)>::empty());
        r
    }

    /// The value stored under `key`.
    pub fn get(&self, key: &str) -> (r: Option<&String>)
        ensures
            match r {
                Some(v) => tag_lookup(self@, key@) == Some(v@),
                None => tag_lookup(self@, key@) is None,
            },
    {
        let k = chars_of(key);
        let mut i: usize = 0;
        while i < self.entries.len()
            invariant
                i <= self.entries.len(),
                k@ == key@,
                forall|j: int| 0 <= j < i ==> self@[j].0 != key@,
            decreases self.entries.len() - i,
        {
            let e = chars_of(self.entries[i].0.as_str());
            if chars_eq(&e, &k) {
                proof {
                    lemma_tag_lookup_found(self@, key@, i as int);
                }
                return Some(&self.entries[i].1);
            }
            i = i + 1;
        }
        proof {
            lemma_tag_lookup_absent(self@, key@);
        }
        None
    }

    /// Whether a value is stored under `key`.
    pub fn contains_key(&self, key: &str) -> (r: bool)
        ensures
            r == (tag_lookup(self@, key@) is Some),
    {
        match self.get(key) {
            Some(_) => true,
            None => false,
        }
    }

    /// A copy of the value stored under `key`.
    pub fn get_owned(&self, key: &str) -> (r: Option<String>)
        ensures
            opt_view(r) == tag_lookup(self@, key@),
    {
        match self.get(key) {
            Some(v) => Some(v.clone()),
            None => None,
        }
    }

    /// The number of tags.
    pub fn len(&self) -> (r: usize)
        ensures
            r == self@.len(),
    {
        self.entries.len()
    }

    /// Whether both maps give every key the same value.
    pub fn same_as(&self, other: &TagMap) -> (r: bool)
        ensures
            r == same_tags(self@, other@),
    {
        let mut i: usize = 0;
        while i < self.entries.len()
            invariant
                i <= self.entries.len(),
                forall|j: int| 0 <= j < i ==> tag_lookup(self@, #[trigger] self@[j].0) == tag_lookup(other@, self@[j].0),
            decreases self.entries.len() - i,
        {
            let k = self.entries[i].0.as_str();
            let x = self.get_owned(k);
            let y = other.get_owned(k);
            let same = match (&x, &y) {
                (Some(a), Some(b)) => crate::text::str_eq(a.as_str(), b.as_str()),
                (None, None) => true,
                _ => false,
            };
            if !same {
                assert(tag_lookup(self@, self@[i as int].0) != tag_lookup(other@, self@[i as int].0));
                return false;
            }
            i = i + 1;
        }
        let mut j: usize = 0;
        while j < other.entries.len()
            invariant
                j <= other.entries.len(),
                forall|m: int| 0 <= m < self@.len() ==> tag_lookup(self@, #[trigger] self@[m].0) == tag_lookup(other@, self@[m].0),
                forall|m: int| 0 <= m < j ==> tag_lookup(self@, #[trigger] other@[m].0) == tag_lookup(other@, other@[m].0),
            decreases other.entries.len() - j,
        {
            let k = other.entries[j].0.as_str();
            let x = self.get_owned(k);
            let y = other.get_owned(k);
            let same = match (&x, &y) {
                (Some(a), Some(b)) => crate::text::str_eq(a.as_str(), b.as_str()),
                (None, None) => true,
                _ => false,
            };
            if !same {
                assert(tag_lookup(self@, other@[j as int].0) != tag_lookup(other@, other@[j as int].0));
                return false;
            }
            j = j + 1;
        }
        assert forall|k: Seq<char>| #[trigger] tag_lookup(self@, k) == tag_lookup(other@, k) by {
            if tag_lookup(self@, k) is Some {
                lemma_tag_lookup_some(self@, k);
                let m = choose|m: int| 0 <= m < self@.len() && (#[trigger] self@[m]).0 == k;
                assert(tag_lookup(self@, self@[m].0) == tag_lookup(other@, self@[m].0));
            } else if tag_lookup(other@, k) is Some {
                lemma_tag_lookup_some(other@, k);
                let m = choose|m: int| 0 <= m < other@.len() && (#[trigger] other@[m]).0 == k;
                assert(tag_lookup(self@, other@[m].0) == tag_lookup(other@, other@[m].0));
            }
        }
        true
    }

    /// This map, duplicated.
    pub fn duplicate(&self) -> (r: TagMap)
        ensures
            r@ == self@,
    {
        let mut entries: Vec<(String, String)> = Vec::new();
        let mut i: usize = 0;
        while i < self.entries.len()
            invariant
                i <= self.entries.len(),
                entries.len() == i,
                forall|j: int| 0 <= j < i ==> pair_view(entries@[j]) == pair_view(self.entries@[j]),
            decreases self.entries.len() - i,
        {
            let k = self.entries[i].0.clone();
            let v = self.entries[i].1.clone();
            entries.push((k, v));
            i = i + 1;
        }
        let r = TagMap { entries };
        assert(r@ =~= self@);
        r
    }
}

/// One task line, split into its parts.
#[derive(Debug, Clone, PartialEq, Eq)]
pub struct Task {
    pub done: bool,
    pub completion_date: Option<String>,
    pub priority: Option<char>,
    pub creation_date: Option<String>,
    pub description: String,
    pub projects: Vec<String>,
    pub contexts: Vec<String>,
    pub tags: TagMap,
    pub raw: String,
}

/// The mathematical content of a task.
pub ghost struct TaskModel {
    pub done: bool,
    pub completion_date: Option<Seq<char>>,
    pub priority: Option<char>,
    pub creation_date: Option<Seq<char>>,
    pub description: Seq<char>,
    pub projects: Seq<Seq<char>>,
    pub contexts: Seq<Seq<char>>,
    pub tags: Seq<(Seq<char>, Seq<char>)>,
    pub raw: Seq<char>,
}

impl View for Task {
    type V = TaskModel;

    open spec fn view(&self) -> TaskModel {
        TaskModel {
            done: self.done,
            completion_date: opt_view(self.completion_date),
            priority: self.priority,
            creation_date: opt_view(self.creation_date),
            description: self.description@,
            projects: strings_view(self.projects@),
            contexts: strings_view(self.contexts@),
            tags: self.tags@,
            raw: self.raw@,
        }
    }
}

impl Task {
    /// A duplicate of the task.
    pub fn duplicate(&self) -> (r: Task)
        ensures
            r@ == self@,
    {
        Task {
            done: self.done,
            completion_date: copy_opt_string(&self.completion_date),
            priority: self.priority,
            creation_date: copy_opt_string(&self.creation_date),
            description: self.description.clone(),
            projects: copy_strings(&self.projects),
            contexts: copy_strings(&self.contexts),
            tags: self.tags.duplicate(),
            raw: self.raw.clone(),
        }
    }
}

} // verus!
