//! Parsing and formatting of todo.txt task lines.
//!
//! A line is `[x COMPLETION [CREATION]] | [(P)] [CREATION]` followed by the
//! description.  Inside the description, whitespace-separated words that
//! start with `+` name projects, words that start with `@` name contexts,
//! and `key:value` words are tags; the first occurrence of a key decides,
//! and the date keys `due`, `scheduled`, `starting` and `updated` only
//! accept a `YYYY-MM-DD` value.
use vstd::prelude::*;

use crate::task::{Task, TagMap, TaskModel, pair_view, keys_distinct};
use crate::text::{
    char_is_digit, char_is_upper, char_is_ws, chars_eq, chars_eq_lit, chars_have_at, chars_of,
    has_at, is_digit, is_upper, is_ws, opt_view, push_char, push_str, starts_with, string_of,
    string_of_range, strings_view,
};

verus! {

// ---------------------------------------------------------------------------
// Specification
// ---------------------------------------------------------------------------

/// `YYYY-MM-DD`: ten characters, digits except for dashes at positions 4 and 7.
pub open spec fn is_date_seq(s: Seq<char>) -> bool {
    s.len() == 10 && forall|i: int|
        0 <= i < 10 ==> (if i == 4 || i == 7 {
            s[i] == '-'
        } else {
            is_digit(s[i])
        })
}

/// A date at `start`, followed by the end of the line or a space: the date and
/// the position after it (and after the space).
pub open spec fn date_at(s: Seq<char>, start: int) -> Option<(Seq<char>, int)> {
    if 0 <= start && start + 10 <= s.len() && is_date_seq(s.subrange(start, start + 10)) {
        if s.len() == start + 10 {
            Some((s.subrange(start, start + 10), start + 10))
        } else if s[start + 10] == ' ' {
            Some((s.subrange(start, start + 10), start + 11))
        } else {
            None
        }
    } else {
        None
    }
}

/// `x DATE` at the start of a line.
pub open spec fn completed_prefix(s: Seq<char>) -> Option<(Seq<char>, int)> {
    if starts_with(s, seq!['x', ' ']) {
        date_at(s, 2)
    } else {
        None
    }
}

/// `(P)` with an uppercase ASCII letter, at the start of a line, followed by
/// the end of the line or a space.
pub open spec fn priority_prefix(s: Seq<char>) -> Option<(char, int)> {
    if s.len() >= 3 && s[0] == '(' && s[2] == ')' && is_upper(s[1]) {
        if s.len() == 3 {
            Some((s[1], 3))
        } else if s[3] == ' ' {
            Some((s[1], 4))
        } else {
            None
        }
    } else {
        None
    }
}

/// What precedes the description of a line.
pub ghost struct Header {
    pub done: bool,
    pub completion_date: Option<Seq<char>>,
    pub priority: Option<char>,
    pub creation_date: Option<Seq<char>>,
    pub start: int,
}

pub open spec fn creation_after(s: Seq<char>, pos: int) -> (Option<Seq<char>>, int) {
    match date_at(s, pos) {
        Some((d, next)) => (Some(d), next),
        None => (None, pos),
    }
}

pub open spec fn header(s: Seq<char>) -> Header {
    match completed_prefix(s) {
        Some((done_date, next)) => {
            let (creation, start) = creation_after(s, next);
            Header {
                done: true,
                completion_date: Some(done_date),
                priority: None,
                creation_date: creation,
                start,
            }
        },
        None => {
            let (priority, pos) = match priority_prefix(s) {
                Some((p, next)) => (Some(p), next),
                None => (None, 0int),
            };
            let (creation, start) = creation_after(s, pos);
            Header { done: false, completion_date: None, priority, creation_date: creation, start }
        },
    }
}

/// The index of the first whitespace character of `s`, or its length.
pub open spec fn first_ws(s: Seq<char>) -> int
    decreases s.len(),
{
    if s.len() == 0 {
        0
    } else if is_ws(s[0]) {
        0
    } else {
        1 + first_ws(s.drop_first())
    }
}

/// The index of the first `:` of `s`, or its length.
pub open spec fn first_colon(s: Seq<char>) -> int
    decreases s.len(),
{
    if s.len() == 0 {
        0
    } else if s[0] == ':' {
        0
    } else {
        1 + first_colon(s.drop_first())
    }
}

/// `key:value` split at the first colon, with both sides non-empty.
pub open spec fn split_tag(w: Seq<char>) -> Option<(Seq<char>, Seq<char>)> {
    let c = first_colon(w);
    if c < w.len() && c > 0 && c + 1 < w.len() {
        Some((w.subrange(0, c), w.subrange(c + 1, w.len() as int)))
    } else {
        None
    }
}

pub open spec fn opt_pair_view(r: Option<(String, String)>) -> Option<(Seq<char>, Seq<char>)> {
    match r {
        Some(p) => Some(pair_view(p)),
        None => None,
    }
}

/// Date keys accept only a `YYYY-MM-DD` value.
pub open spec fn tag_valid(k: Seq<char>, v: Seq<char>) -> bool {
    (k == "due"@ || k == "scheduled"@ || k == "starting"@ || k == "updated"@) ==> is_date_seq(v)
}

/// The metadata gathered from the words of a description so far.
pub ghost struct Meta {
    pub projects: Seq<Seq<char>>,
    pub contexts: Seq<Seq<char>>,
    pub tags: Seq<(Seq<char>, Seq<char>)>,
    pub seen: Seq<Seq<char>>,
}

pub open spec fn empty_meta() -> Meta {
    Meta { projects: seq![], contexts: seq![], tags: seq![], seen: seq![] }
}

/// What one word adds: a project, a context, or (for the first word with a
/// given key) a tag.
pub open spec fn meta_step(m: Meta, w: Seq<char>) -> Meta {
    if w.len() > 0 && w[0] == '+' {
        if w.len() > 1 {
            Meta { projects: m.projects.push(w.drop_first()), ..m }
        } else {
            m
        }
    } else if w.len() > 0 && w[0] == '@' {
        if w.len() > 1 {
            Meta { contexts: m.contexts.push(w.drop_first()), ..m }
        } else {
            m
        }
    } else {
        match split_tag(w) {
            Some((k, v)) => if m.seen.contains(k) {
                m
            } else if tag_valid(k, v) {
                Meta { tags: m.tags.push((k, v)), seen: m.seen.push(k), ..m }
            } else {
                Meta { seen: m.seen.push(k), ..m }
            },
            None => m,
        }
    }
}

/// Processes the whitespace-separated words of `s` from left to right.
pub open spec fn scan_words(m: Meta, s: Seq<char>) -> Meta
    decreases s.len(),
{
    let e = first_ws(s);
    proof {
        lemma_first_ws_bounds(s);
    }
    if e >= s.len() {
        meta_step(m, s)
    } else {
        scan_words(meta_step(m, s.subrange(0, e)), s.subrange(e + 1, s.len() as int))
    }
}

/// The task that a line describes.
pub open spec fn spec_task(s: Seq<char>) -> TaskModel {
    let h = header(s);
    let d = s.subrange(h.start, s.len() as int);
    let m = scan_words(empty_meta(), d);
    TaskModel {
        done: h.done,
        completion_date: h.completion_date,
        priority: h.priority,
        creation_date: h.creation_date,
        description: d,
        projects: m.projects,
        contexts: m.contexts,
        tags: m.tags,
        raw: s,
    }
}

/// The parts of a task's header, joined by single spaces.
pub open spec fn header_parts(t: TaskModel) -> Seq<Seq<char>> {
    let lead: Seq<Seq<char>> = if t.done {
        match t.completion_date {
            Some(c) => seq![seq!['x'], c],
            None => seq![seq!['x']],
        }
    } else {
        match t.priority {
            Some(p) => seq![seq!['(', p, ')']],
            None => seq![],
        }
    };
    match t.creation_date {
        Some(c) => lead.push(c),
        None => lead,
    }
}

pub open spec fn join_space(parts: Seq<Seq<char>>) -> Seq<char>
    decreases parts.len(),
{
    if parts.len() == 0 {
        seq![]
    } else if parts.len() == 1 {
        parts[0]
    } else {
        join_space(parts.drop_last()) + seq![' '] + parts.last()
    }
}

/// The line that `format_task` writes for a task.
pub open spec fn spec_format(t: TaskModel) -> Seq<char> {
    let parts = header_parts(t);
    if t.description.len() == 0 {
        join_space(parts)
    } else if parts.len() == 0 {
        t.description
    } else {
        join_space(parts) + seq![' '] + t.description
    }
}

// ---------------------------------------------------------------------------
// Lemmas
// ---------------------------------------------------------------------------

pub proof fn lemma_first_ws_bounds(s: Seq<char>)
    ensures
        0 <= first_ws(s) <= s.len(),
    decreases s.len(),
{
    if s.len() > 0 {
        lemma_first_ws_bounds(s.drop_first());
    }
}

proof fn lemma_first_ws(s: Seq<char>, e: int)
    requires
        0 <= e <= s.len(),
        forall|k: int| 0 <= k < e ==> !is_ws(s[k]),
        e == s.len() || is_ws(s[e]),
    ensures
        first_ws(s) == e,
    decreases e,
{
    if e > 0 {
        lemma_first_ws(s.drop_first(), e - 1);
    }
}

proof fn lemma_first_colon(s: Seq<char>, e: int)
    requires
        0 <= e <= s.len(),
        forall|k: int| 0 <= k < e ==> s[k] != ':',
        e == s.len() || s[e] == ':',
    ensures
        first_colon(s) == e,
    decreases e,
{
    if e > 0 {
        lemma_first_colon(s.drop_first(), e - 1);
    }
}

// ---------------------------------------------------------------------------
// Implementation
// ---------------------------------------------------------------------------

/// Whether `token` is a `YYYY-MM-DD` date.
pub fn is_date(token: &str) -> (r: bool)
    ensures
        r == is_date_seq(token@),
{
    let v = chars_of(token);
    if v.len() != 10 {
        return false;
    }
    assert(v@.subrange(0, 10) =~= v@);
    chars_are_date(&v, 0)
}

/// Whether `v[start..start + 10]` is a `YYYY-MM-DD` date.
pub fn chars_are_date(v: &Vec<char>, start: usize) -> (r: bool)
    ensures
        r == (start + 10 <= v.len() && is_date_seq(v@.subrange(start as int, start + 10))),
{
    if start > v.len() || v.len() - start < 10 {
        return false;
    }
    let ghost d = v@.subrange(start as int, start + 10);
    let mut i: usize = 0;
    while i < 10
        invariant
            start + 10 <= v.len(),
            d == v@.subrange(start as int, start + 10),
            i <= 10,
            forall|j: int|
                0 <= j < i ==> (if j == 4 || j == 7 {
                    d[j] == '-'
                } else {
                    is_digit(d[j])
                }),
        decreases 10 - i,
    {
        let c = v[start + i];
        assert(d[i as int] == c);
        if i == 4 || i == 7 {
            if c != '-' {
                return false;
            }
        } else if !char_is_digit(c) {
            return false;
        }
        i = i + 1;
    }
    true
}

/// A date at `start` followed by the end or a space.
fn consume_date(v: &Vec<char>, start: usize) -> (r: Option<usize>)
    ensures
        match date_at(v@, start as int) {
            Some((_, next)) => r == Some(next as usize),
            None => r is None,
        },
{
    if !chars_are_date(v, start) {
        return None;
    }
    if v.len() == start + 10 {
        return Some(start + 10);
    }
    if v[start + 10] == ' ' {
        return Some(start + 11);
    }
    None
}

/// `x DATE ` at the start of the line.
fn consume_completed_prefix(v: &Vec<char>) -> (r: Option<usize>)
    ensures
        match completed_prefix(v@) {
            Some((_, next)) => r == Some(next as usize),
            None => r is None,
        },
{
    if !chars_have_at(v, 0, "x ") {
        proof {
            reveal_strlit("x ");
        }
        assert(!starts_with(v@, seq!['x', ' '])) by {
            reveal_strlit("x ");
            assert("x "@ =~= seq!['x', ' ']);
        }
        return None;
    }
    assert(starts_with(v@, seq!['x', ' '])) by {
        reveal_strlit("x ");
        assert("x "@ =~= seq!['x', ' ']);
    }
    consume_date(v, 2)
}

/// `(P)` at the start of the line.
fn consume_priority(v: &Vec<char>) -> (r: Option<(char, usize)>)
    ensures
        match priority_prefix(v@) {
            Some((p, next)) => r == Some((p, next as usize)),
            None => r is None,
        },
{
    if v.len() < 3 || v[0] != '(' || v[2] != ')' || !char_is_upper(v[1]) {
        return None;
    }
    if v.len() == 3 {
        return Some((v[1], 3));
    }
    if v[3] == ' ' {
        return Some((v[1], 4));
    }
    None
}

/// The end of the word that starts at `start`: the first whitespace at or
/// after it, or the end of the text.
fn find_token_end(v: &Vec<char>, start: usize) -> (r: usize)
    requires
        start <= v.len(),
    ensures
        start <= r <= v.len(),
        r - start == first_ws(v@.subrange(start as int, v.len() as int)),
{
    let mut i = start;
    while i < v.len() && !char_is_ws(v[i])
        invariant
            start <= i <= v.len(),
            forall|k: int| start <= k < i ==> !is_ws(v@[k]),
        decreases v.len() - i,
    {
        i = i + 1;
    }
    proof {
        lemma_first_ws(v@.subrange(start as int, v.len() as int), i - start);
    }
    i
}

/// `key:value` split at the first colon, both sides non-empty.
fn split_tag_token(w: &Vec<char>) -> (r: Option<(String, String)>)
    ensures
        opt_pair_view(r) == split_tag(w@),
{
    let mut c: usize = 0;
    while c < w.len() && w[c] != ':'
        invariant
            c <= w.len(),
            forall|k: int| 0 <= k < c ==> w@[k] != ':',
        decreases w.len() - c,
    {
        c = c + 1;
    }
    proof {
        lemma_first_colon(w@, c as int);
    }
    if c < w.len() && c > 0 && c + 1 < w.len() {
        Some((string_of_range(w, 0, c), string_of_range(w, c + 1, w.len())))
    } else {
        None
    }
}

/// Date keys accept only a `YYYY-MM-DD` value.
fn tag_value_is_valid(key: &str, value: &str) -> (r: bool)
    ensures
        r == tag_valid(key@, value@),
{
    let k = chars_of(key);
    if chars_eq_lit(&k, "due") || chars_eq_lit(&k, "scheduled") || chars_eq_lit(&k, "starting")
        || chars_eq_lit(&k, "updated") {
        is_date(value)
    } else {
        true
    }
}

/// The metadata being gathered from a description.
struct MetaAcc {
    projects: Vec<String>,
    contexts: Vec<String>,
    tags: Vec<(String, String)>,
    seen: Vec<Vec<char>>,
}

impl MetaAcc {
    spec fn model(&self) -> Meta {
        Meta {
            projects: strings_view(self.projects@),
            contexts: strings_view(self.contexts@),
            tags: self.tags@.map_values(|p: (String, String)| pair_view(p)),
            seen: self.seen@.map_values(|v: Vec<char>| v@),
        }
    }

    spec fn inv(&self) -> bool {
        &&& keys_distinct(self.model().tags)
        &&& forall|i: int| 0 <= i < self.tags.len() ==> self.model().seen.contains(#[trigger] self.tags@[i].0@)
    }

    /// Whether `key` was already seen.
    fn has_seen(&self, key: &Vec<char>) -> (r: bool)
        ensures
            r == self.model().seen.contains(key@),
    {
        let mut i: usize = 0;
        while i < self.seen.len()
            invariant
                i <= self.seen.len(),
                forall|j: int| 0 <= j < i ==> self.seen@[j]@ != key@,
            decreases self.seen.len() - i,
        {
            if chars_eq(&self.seen[i], key) {
                assert(self.seen@.map_values(|v: Vec<char>| v@)[i as int] == key@);
                return true;
            }
            i = i + 1;
        }
        assert(!self.seen@.map_values(|v: Vec<char>| v@).contains(key@));
        false
    }

    /// Adds what one word contributes.
    fn step(&mut self, w: &Vec<char>)
        requires
            old(self).inv(),
        ensures
            final(self).inv(),
            final(self).model() == meta_step(old(self).model(), w@),
    {
        let ghost m0 = self.model();
        if w.len() > 0 && w[0] == '+' {
            if w.len() > 1 {
                let p = string_of_range(w, 1, w.len());
                self.projects.push(p);
                assert(w@.subrange(1, w@.len() as int) =~= w@.drop_first());
                assert(self.model().projects =~= m0.projects.push(w@.drop_first()));
                assert(self.model().tags =~= m0.tags);
                assert(self.model().seen =~= m0.seen);
            }
        } else if w.len() > 0 && w[0] == '@' {
            if w.len() > 1 {
                let c = string_of_range(w, 1, w.len());
                self.contexts.push(c);
                assert(w@.subrange(1, w@.len() as int) =~= w@.drop_first());
                assert(self.model().contexts =~= m0.contexts.push(w@.drop_first()));
                assert(self.model().tags =~= m0.tags);
                assert(self.model().seen =~= m0.seen);
            }
        } else {
            match split_tag_token(w) {
                Some((key, value)) => {
                    let kc = chars_of(key.as_str());
                    if self.has_seen(&kc) {
                    } else {
                        let valid = tag_value_is_valid(key.as_str(), value.as_str());
                        let ghost old_tags = self.tags@;
                        self.seen.push(kc);
                        assert(self.model().seen =~= m0.seen.push(key@));
                        if valid {
                            self.tags.push((key, value));
                            assert(self.model().tags =~= m0.tags.push(pair_view((key, value))));
                        } else {
                            assert(self.model().tags =~= m0.tags);
                        }
                        assert(forall|i: int| 0 <= i < self.tags.len() ==> self.model().seen.contains(#[trigger] self.tags@[i].0@)) by {
                            assert forall|i: int| 0 <= i < self.tags.len() implies self.model().seen.contains(#[trigger] self.tags@[i].0@) by {
                                if i < old_tags.len() {
                                    assert(old(self).model().seen.contains(old_tags[i].0@));
                                    let k = choose|k: int| 0 <= k < m0.seen.len() && m0.seen[k] == old_tags[i].0@;
                                    assert(self.model().seen[k] == old_tags[i].0@);
                                } else {
                                    assert(self.model().seen[m0.seen.len() as int] == key@);
                                }
                            }
                        }
                        assert(keys_distinct(self.model().tags)) by {
                            assert forall|i: int, j: int|
                                0 <= i < self.model().tags.len() && 0 <= j < self.model().tags.len() && i != j
                                implies self.model().tags[i].0 != self.model().tags[j].0 by {
                                if i < old_tags.len() && j < old_tags.len() {
                                    assert(old(self).model().tags[i] == self.model().tags[i]);
                                    assert(old(self).model().tags[j] == self.model().tags[j]);
                                } else if i < old_tags.len() {
                                    assert(old(self).model().seen.contains(old_tags[i].0@));
                                } else {
                                    assert(old(self).model().seen.contains(old_tags[j].0@));
                                }
                            }
                        }
                    }
                },
                None => {},
            }
        }
    }
}

/// Projects, contexts and tags of a description.
fn extract_description_metadata(d: &Vec<char>) -> (r: (Vec<String>, Vec<String>, TagMap))
    ensures
        strings_view(r.0@) == scan_words(empty_meta(), d@).projects,
        strings_view(r.1@) == scan_words(empty_meta(), d@).contexts,
        r.2@ == scan_words(empty_meta(), d@).tags,
        keys_distinct(r.2@),
{
    let mut acc = MetaAcc {
        projects: Vec::new(),
        contexts: Vec::new(),
        tags: Vec::new(),
        seen: Vec::new(),
    };
    assert(acc.model() =~= empty_meta()) by {
        assert(acc.model().projects =~= empty_meta().projects);
        assert(acc.model().contexts =~= empty_meta().contexts);
        assert(acc.model().tags =~= empty_meta().tags);
        assert(acc.model().seen =~= empty_meta().seen);
    }
    let n = d.len();
    let mut i: usize = 0;
    assert(d@.subrange(0, n as int) =~= d@);
    loop
        invariant_except_break
            scan_words(acc.model(), d@.subrange(i as int, n as int)) == scan_words(empty_meta(), d@),
        invariant
            n == d.len(),
            i <= n,
            acc.inv(),
        ensures
            acc.inv(),
            acc.model() == scan_words(empty_meta(), d@),
        decreases n - i,
    {
        let e = find_token_end(d, i);
        let ghost t = d@.subrange(i as int, n as int);
        proof {
            lemma_first_ws_bounds(t);
        }
        let word = slice_chars(d, i, e);
        assert(word@ =~= t.subrange(0, e - i));
        acc.step(&word);
        if e == n {
            assert(t.subrange(0, e - i) =~= t);
            break;
        }
        assert(t.subrange(e - i + 1, t.len() as int) =~= d@.subrange(e + 1, n as int));
        i = e + 1;
    }
    (acc.projects, acc.contexts, TagMap { entries: acc.tags })
}

/// The characters `v[lo..hi]`.
fn slice_chars(v: &Vec<char>, lo: usize, hi: usize) -> (r: Vec<char>)
    requires
        lo <= hi <= v.len(),
    ensures
        r@ == v@.subrange(lo as int, hi as int),
{
    let mut r: Vec<char> = Vec::new();
    let mut i = lo;
    while i < hi
        invariant
            lo <= i <= hi <= v.len(),
            r@ == v@.subrange(lo as int, i as int),
        decreases hi - i,
    {
        r.push(v[i]);
        i = i + 1;
        assert(r@ =~= v@.subrange(lo as int, i as int));
    }
    r
}

/// Parses one task line.
pub fn parse_task_line(raw: &str) -> (t: Task)
    ensures
        t@ == spec_task(raw@),
        keys_distinct(t.tags@),
{
    let v = chars_of(raw);
    let mut done = false;
    let mut completion_date: Option<String> = None;
    let mut priority: Option<char> = None;
    let mut creation_date: Option<String> = None;
    let mut description_start: usize = 0;

    match consume_completed_prefix(&v) {
        Some(next) => {
            done = true;
            completion_date = Some(string_of_range(&v, 2, 12));
            description_start = next;
            match consume_date(&v, description_start) {
                Some(next2) => {
                    creation_date = Some(string_of_range(&v, description_start, description_start + 10));
                    description_start = next2;
                },
                None => {},
            }
        },
        None => {
            match consume_priority(&v) {
                Some((p, next)) => {
                    priority = Some(p);
                    description_start = next;
                },
                None => {},
            }
            match consume_date(&v, description_start) {
                Some(next2) => {
                    creation_date = Some(string_of_range(&v, description_start, description_start + 10));
                    description_start = next2;
                },
                None => {},
            }
        },
    }
    let d = slice_chars(&v, description_start, v.len());
    let description = string_of(&d);
    let (projects, contexts, tags) = extract_description_metadata(&d);
    let t = Task {
        done,
        completion_date,
        priority,
        creation_date,
        description,
        projects,
        contexts,
        tags,
        raw: string_of(&v),
    };
    assert(t@.completion_date == spec_task(raw@).completion_date);
    assert(t@.creation_date == spec_task(raw@).creation_date);
    t
}

/// Joins strings with single spaces.
fn join_with_spaces(parts: &Vec<String>) -> (r: String)
    ensures
        r@ == join_space(strings_view(parts@)),
{
    let mut r = String::new();
    let mut i: usize = 0;
    while i < parts.len()
        invariant
            i <= parts.len(),
            r@ == join_space(strings_view(parts@).subrange(0, i as int)),
        decreases parts.len() - i,
    {
        let ghost before = r@;
        if i > 0 {
            push_char(&mut r, ' ');
        }
        push_str(&mut r, parts[i].as_str());
        proof {
            let s = strings_view(parts@).subrange(0, i + 1);
            assert(s.drop_last() =~= strings_view(parts@).subrange(0, i as int));
            if i == 0 {
                assert(r@ =~= s[0]);
            } else {
                assert(r@ =~= join_space(s.drop_last()) + seq![' '] + s.last());
            }
        }
        i = i + 1;
    }
    assert(strings_view(parts@).subrange(0, parts.len() as int) =~= strings_view(parts@));
    r
}

/// Writes a task back as a line.
pub fn format_task(task: &Task) -> (r: String)
    ensures
        r@ == spec_format(task@),
{
    let mut parts: Vec<String> = Vec::new();
    if task.done {
        let mut x = String::new();
        push_char(&mut x, 'x');
        assert(x@ =~= seq!['x']);
        parts.push(x);
        match &task.completion_date {
            Some(c) => parts.push(c.clone()),
            None => {},
        }
    } else {
        match task.priority {
            Some(p) => {
                let mut s = String::new();
                push_char(&mut s, '(');
                push_char(&mut s, p);
                push_char(&mut s, ')');
                assert(s@ =~= seq!['(', p, ')']);
                parts.push(s);
            },
            None => {},
        }
    }
    match &task.creation_date {
        Some(c) => parts.push(c.clone()),
        None => {},
    }
    assert(strings_view(parts@) =~= header_parts(task@));
    let joined = join_with_spaces(&parts);
    if task.description.as_str().is_empty() {
        return joined;
    }
    if parts.len() == 0 {
        return task.description.clone();
    }
    let mut r = joined;
    push_char(&mut r, ' ');
    push_str(&mut r, task.description.as_str());
    r
}

} // verus!

verus! {

proof fn lemma_join_space_small(a: Seq<char>, b: Seq<char>, c: Seq<char>)
    ensures
        join_space(seq![a]) == a,
        join_space(seq![a, b]) == a + seq![' '] + b,
        join_space(seq![a, b, c]) == a + seq![' '] + b + seq![' '] + c,
{
    assert(seq![a, b].drop_last() =~= seq![a]);
    assert(seq![a, b, c].drop_last() =~= seq![a, b]);
    assert(seq![a].drop_last() =~= Seq::<Seq<char>>::empty());
    assert(join_space(seq![a]) == a);
    assert(seq![a, b].last() == b);
    assert(join_space(seq![a, b]) == join_space(seq![a]) + seq![' '] + b);
    assert(seq![a, b, c].last() == c);
}

/// Formatting a parsed line gives the line back, except for a line whose
/// header is followed by a single trailing space and nothing else.
pub proof fn law_format_parse_roundtrip(s: Seq<char>)
    requires
        s.len() == 0 || s.last() != ' ' || spec_task(s).description.len() > 0,
    ensures
        spec_format(spec_task(s)) == s,
{
    let t = spec_task(s);
    let h = header(s);
    let parts = header_parts(t);
    let d = t.description;
    match completed_prefix(s) {
        Some((c1, n1)) => {
            lemma_join_space_small(seq!['x'], c1, c1);
            match date_at(s, n1) {
                Some((c2, n2)) => {
                    lemma_join_space_small(seq!['x'], c1, c2);
                    assert(parts =~= seq![seq!['x'], c1, c2]);
                    if d.len() == 0 {
                        assert(s =~= seq!['x'] + seq![' '] + c1 + seq![' '] + c2);
                    } else {
                        assert(s =~= seq!['x'] + seq![' '] + c1 + seq![' '] + c2 + seq![' '] + d);
                    }
                },
                None => {
                    assert(parts =~= seq![seq!['x'], c1]);
                    if d.len() == 0 {
                        assert(s =~= seq!['x'] + seq![' '] + c1);
                    } else {
                        assert(s =~= seq!['x'] + seq![' '] + c1 + seq![' '] + d);
                    }
                },
            }
        },
        None => {
            match priority_prefix(s) {
                Some((p, n1)) => {
                    let pp = seq!['(', p, ')'];
                    lemma_join_space_small(pp, pp, pp);
                    match date_at(s, n1) {
                        Some((c2, n2)) => {
                            lemma_join_space_small(pp, c2, c2);
                            assert(parts =~= seq![pp, c2]);
                            if d.len() == 0 {
                                assert(s =~= pp + seq![' '] + c2);
                            } else {
                                assert(s =~= pp + seq![' '] + c2 + seq![' '] + d);
                            }
                        },
                        None => {
                            assert(parts =~= seq![pp]);
                            if d.len() == 0 {
                                assert(s =~= pp);
                            } else {
                                assert(s =~= pp + seq![' '] + d);
                            }
                        },
                    }
                },
                None => {
                    match date_at(s, 0) {
                        Some((c2, n2)) => {
                            lemma_join_space_small(c2, c2, c2);
                            assert(parts =~= seq![c2]);
                            if d.len() == 0 {
                                assert(s =~= c2);
                            } else {
                                assert(s =~= c2 + seq![' '] + d);
                            }
                        },
                        None => {
                            assert(parts =~= Seq::<Seq<char>>::empty());
                            assert(d =~= s);
                            if d.len() == 0 {
                                assert(s =~= Seq::<char>::empty());
                            }
                        },
                    }
                },
            }
        },
    }
}

} // verus!
