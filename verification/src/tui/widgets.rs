//! What the widgets show: the help bar's hints, the text of a task line,
//! and the color of each word of a task.
use vstd::prelude::*;

use super::app::{AppModel, AppState};
use crate::numbers::{digit_value, pow10};
use crate::parser::spec_task;
use crate::task::{tag_lookup, Task, TaskModel};
use crate::text::{
    byte_len, byte_len_upto, chars_have_at, chars_of, find_char, index_of, is_digit, is_upper,
    join_seq, join_strings, lemma_byte_len_nonneg, owned, push_str, slice_of, split_words,
    starts_with, string_of, strings_view, vecs_view, words,
};

verus! {

/// The hints of the help bar, by what is open.
pub open spec fn help_entries(m: AppModel) -> Seq<(Seq<char>, Seq<char>)> {
    if m.save_conflict is Some {
        seq![("r"@, "reload"@), ("o"@, "overwrite"@), ("c"@, "cancel"@)]
    } else if m.list_viewer is Some {
        seq![("j/k"@, "scroll"@), ("e"@, "edit externally"@), ("esc"@, "close"@)]
    } else if m.picker is Some {
        seq![("j/k"@, "nav"@), ("enter"@, "select"@), ("esc"@, "cancel"@)]
    } else if m.editor is Some && m.editor->0.shortcut is Some {
        seq![("enter"@, "apply"@), ("esc"@, "cancel"@)]
    } else if m.editor is Some {
        seq![("enter"@, "save"@), ("esc"@, "cancel"@), ("ctrl+d"@, "due"@), ("ctrl+s"@, "sched"@), ("ctrl+t"@, "start"@)]
    } else if m.confirm_delete {
        seq![("enter"@, "confirm"@), ("esc"@, "cancel"@)]
    } else if m.search_active {
        seq![("esc"@, "cancel"@), ("n"@, "next"@), ("N"@, "prev"@)]
    } else {
        seq![
            ("j/k"@, "nav"@),
            ("h/l"@, "focus"@),
            ("spc"@, "toggle"@),
            ("a"@, "add"@),
            ("e"@, "edit/view"@),
            ("x"@, "toggle done"@),
            ("u"@, "update"@),
            ("U"@, "undo"@),
            ("D"@, "delete"@),
            ("s"@, "sort"@),
            ("o"@, "group"@),
            ("r"@, "reverse"@),
            ("/"@, "search"@),
            ("ctrl+b"@, "sidebar"@),
            ("ctrl+←/→"@, "resize"@),
            ("?"@, "toggle hints"@),
            ("i"@, "about"@),
            ("q"@, "quit"@),
        ]
    }
}

pub open spec fn pairs_view(v: Seq<(&str, &str)>) -> Seq<(Seq<char>, Seq<char>)> {
    v.map_values(|p: (&str, &str)| (p.0@, p.1@))
}

/// Each hint as `key description`.
pub open spec fn hint_texts(e: Seq<(Seq<char>, Seq<char>)>) -> Seq<Seq<char>> {
    e.map_values(|p: (Seq<char>, Seq<char>)| p.0 + " "@ + p.1)
}

fn push_pairs(v: &mut Vec<(&'static str, &'static str)>, items: &[(&'static str, &'static str)])
    ensures
        pairs_view(final(v)@) == pairs_view(old(v)@) + pairs_view(items@),
{
    let ghost start = pairs_view(v@);
    let mut i: usize = 0;
    while i < items.len()
        invariant
            i <= items.len(),
            pairs_view(v@) == start + pairs_view(items@).subrange(0, i as int),
        decreases items.len() - i,
    {
        let ghost before = v@;
        let item = items[i];
        v.push(item);
        assert(v@ == before.push(items@[i as int]));
        assert(pairs_view(v@) =~= pairs_view(before).push((items@[i as int].0@, items@[i as int].1@)));
        i = i + 1;
        assert(pairs_view(v@) =~= start + pairs_view(items@).subrange(0, i as int));
    }
    assert(pairs_view(items@).subrange(0, items.len() as int) =~= pairs_view(items@));
}

/// The hints of the help bar for the state of the application.
pub fn help_bar_entries(app: &AppState) -> (r: Vec<(&'static str, &'static str)>)
    ensures
        pairs_view(r@) == help_entries(app@),
{
    let mut v: Vec<(&'static str, &'static str)> = Vec::new();
    assert(pairs_view(v@) =~= Seq::<(Seq<char>, Seq<char>)>::empty());
    if app.save_conflict.is_some() {
        push_pairs(&mut v, &[("r", "reload"), ("o", "overwrite"), ("c", "cancel")]);
    } else if app.list_viewer.is_some() {
        push_pairs(&mut v, &[("j/k", "scroll"), ("e", "edit externally"), ("esc", "close")]);
    } else if app.picker.is_some() {
        push_pairs(&mut v, &[("j/k", "nav"), ("enter", "select"), ("esc", "cancel")]);
    } else if app.editor.is_some() && app.editor.as_ref().unwrap().shortcut.is_some() {
        push_pairs(&mut v, &[("enter", "apply"), ("esc", "cancel")]);
    } else if app.editor.is_some() {
        push_pairs(&mut v, &[("enter", "save"), ("esc", "cancel"), ("ctrl+d", "due"), ("ctrl+s", "sched"), ("ctrl+t", "start")]);
    } else if app.confirm_delete {
        push_pairs(&mut v, &[("enter", "confirm"), ("esc", "cancel")]);
    } else if app.search_active {
        push_pairs(&mut v, &[("esc", "cancel"), ("n", "next"), ("N", "prev")]);
    } else {
        push_pairs(&mut v, &[
            ("j/k", "nav"),
            ("h/l", "focus"),
            ("spc", "toggle"),
            ("a", "add"),
            ("e", "edit/view"),
            ("x", "toggle done"),
            ("u", "update"),
            ("U", "undo"),
            ("D", "delete"),
            ("s", "sort"),
            ("o", "group"),
            ("r", "reverse"),
            ("/", "search"),
            ("ctrl+b", "sidebar"),
            ("ctrl+←/→", "resize"),
            ("?", "toggle hints"),
            ("i", "about"),
            ("q", "quit"),
        ]);
    }
    assert(pairs_view(v@) =~= help_entries(app@));
    v
}

/// The help bar's text: the hints as `key description`, separated by ` │ `.
pub fn help_bar_text(app: &AppState) -> (r: String)
    ensures
        r@ == join_seq(hint_texts(help_entries(app@)), " │ "@),
{
    let entries = help_bar_entries(app);
    let mut parts: Vec<String> = Vec::new();
    let mut i: usize = 0;
    while i < entries.len()
        invariant
            i <= entries.len(),
            pairs_view(entries@) == help_entries(app@),
            strings_view(parts@) == hint_texts(pairs_view(entries@)).subrange(0, i as int),
        decreases entries.len() - i,
    {
        let (k, d) = entries[i];
        let mut t = owned(k);
        push_str(&mut t, " ");
        push_str(&mut t, d);
        let ghost before = strings_view(parts@);
        assert(pairs_view(entries@)[i as int] == (k@, d@));
        assert(hint_texts(pairs_view(entries@))[i as int] == k@ + " "@ + d@);
        assert(t@ == k@ + " "@ + d@);
        parts.push(t);
        assert(strings_view(parts@) =~= before.push(k@ + " "@ + d@));
        assert(strings_view(parts@) =~= hint_texts(pairs_view(entries@)).subrange(0, i + 1));
        i = i + 1;
    }
    assert(hint_texts(pairs_view(entries@)).subrange(0, entries.len() as int) =~= hint_texts(pairs_view(entries@)));
    join_strings(&parts, " │ ")
}

/// The date tags that a task line shows below the description instead of
/// within it.
pub open spec fn is_date_tag_word(w: Seq<char>) -> bool {
    starts_with(w, "due:"@) || starts_with(w, "scheduled:"@) || starts_with(w, "starting:"@)
        || starts_with(w, "updated:"@) || starts_with(w, "created:"@)
}

/// The words that are not date tags.
pub open spec fn without_date_tags(ws: Seq<Seq<char>>) -> Seq<Seq<char>>
    decreases ws.len(),
{
    if ws.len() == 0 {
        seq![]
    } else {
        let rest = without_date_tags(ws.drop_last());
        if is_date_tag_word(ws.last()) {
            rest
        } else {
            rest.push(ws.last())
        }
    }
}

/// The description without its date tags, its words joined by single
/// spaces.
pub open spec fn stripped_description(d: Seq<char>) -> Seq<char> {
    join_seq(without_date_tags(words(d)), " "@)
}

/// A labelled date, when present.
pub open spec fn date_part(label: Seq<char>, v: Option<Seq<char>>) -> Seq<Seq<char>> {
    match v {
        Some(d) => seq![label + d],
        None => seq![],
    }
}

/// The line of a task's dates: due, scheduled, starting, updated and
/// created, each labelled, separated by two spaces.
pub open spec fn tag_line(t: TaskModel) -> Seq<char> {
    join_seq(
        date_part("due: "@, tag_lookup(t.tags, "due"@)) + date_part("sched: "@, tag_lookup(t.tags, "scheduled"@))
            + date_part("start: "@, tag_lookup(t.tags, "starting"@)) + date_part("updated: "@, tag_lookup(t.tags, "updated"@))
            + date_part("created: "@, t.creation_date),
        "  "@,
    )
}

/// The text of a task in the list: a marker (`> ` when selected, `✓ ` when
/// done), the description without date tags, and the dates on an indented
/// second line when there are any.
pub open spec fn task_text(t: TaskModel, selected: bool) -> Seq<char> {
    let marker = if selected {
        "> "@
    } else if t.done {
        "✓ "@
    } else {
        "  "@
    };
    let tl = tag_line(t);
    marker + stripped_description(t.description) + if tl.len() > 0 {
        "\n    "@ + tl
    } else {
        seq![]
    }
}

pub(crate) fn strip_date_tags(description: &str) -> (r: String)
    ensures
        r@ == stripped_description(description@),
{
    let ws = split_words(&chars_of(description));
    let mut kept: Vec<String> = Vec::new();
    let mut i: usize = 0;
    while i < ws.len()
        invariant
            i <= ws.len(),
            strings_view(kept@) == without_date_tags(vecs_view(ws@).subrange(0, i as int)),
        decreases ws.len() - i,
    {
        let ghost before = strings_view(kept@);
        assert(vecs_view(ws@).subrange(0, i + 1).drop_last() =~= vecs_view(ws@).subrange(0, i as int));
        assert(vecs_view(ws@).subrange(0, i + 1).last() == ws@[i as int]@);
        let w = &ws[i];
        let tagged = chars_have_at(w, 0, "due:") || chars_have_at(w, 0, "scheduled:")
            || chars_have_at(w, 0, "starting:") || chars_have_at(w, 0, "updated:")
            || chars_have_at(w, 0, "created:");
        if !tagged {
            kept.push(string_of(w));
            assert(strings_view(kept@) =~= before.push(ws@[i as int]@));
        }
        i = i + 1;
    }
    assert(vecs_view(ws@).subrange(0, ws.len() as int) =~= vecs_view(ws@));
    join_strings(&kept, " ")
}

fn push_date_part(parts: &mut Vec<String>, label: &str, v: Option<&String>)
    ensures
        strings_view(final(parts)@) == strings_view(old(parts)@) + date_part(label@, match v {
            Some(x) => Some(x@),
            None => None,
        }),
{
    let ghost before = strings_view(parts@);
    if let Some(d) = v {
        let mut t = owned(label);
        push_str(&mut t, d.as_str());
        parts.push(t);
        assert(strings_view(parts@) =~= before.push(label@ + d@));
    } else {
        assert(strings_view(parts@) =~= before);
    }
}

fn build_tag_line(task: &Task) -> (r: String)
    ensures
        r@ == tag_line(task@),
{
    let mut parts: Vec<String> = Vec::new();
    assert(strings_view(parts@) =~= Seq::<Seq<char>>::empty());
    push_date_part(&mut parts, "due: ", task.tags.get("due"));
    push_date_part(&mut parts, "sched: ", task.tags.get("scheduled"));
    push_date_part(&mut parts, "start: ", task.tags.get("starting"));
    push_date_part(&mut parts, "updated: ", task.tags.get("updated"));
    push_date_part(&mut parts, "created: ", task.creation_date.as_ref());
    assert(strings_view(parts@) =~= date_part("due: "@, tag_lookup(task@.tags, "due"@)) + date_part(
        "sched: "@,
        tag_lookup(task@.tags, "scheduled"@),
    ) + date_part("start: "@, tag_lookup(task@.tags, "starting"@)) + date_part(
        "updated: "@,
        tag_lookup(task@.tags, "updated"@),
    ) + date_part("created: "@, task@.creation_date));
    join_strings(&parts, "  ")
}

/// The text of a task in the list (see `task_text`).
pub fn task_line_text(task: &Task, is_selected: bool) -> (r: String)
    ensures
        r@ == task_text(task@, is_selected),
{
    let marker = if is_selected {
        "> "
    } else if task.done {
        "✓ "
    } else {
        "  "
    };
    let mut result = owned(marker);
    push_str(&mut result, strip_date_tags(task.description.as_str()).as_str());
    let tl = build_tag_line(task);
    if tl.as_str().unicode_len() > 0 {
        push_str(&mut result, "\n    ");
        push_str(&mut result, tl.as_str());
    }
    result
}

/// The color of a word of a task.
#[derive(Debug, Clone, Copy, PartialEq, Eq, Structural)]
pub enum TokenColor {
    Cyan,
    Green,
    Yellow,
    Magenta,
    Blue,
    Plain,
}

pub open spec fn two_digits(a: char, b: char) -> int {
    digit_value(a) * 10 + digit_value(b)
}

/// `YYYY-MM-DD` with a month from 1 to 12 and a day from 1 to 31.
pub open spec fn lax_date(p: Seq<char>) -> bool {
    &&& p.len() == 10
    &&& p[4] == '-' && p[7] == '-'
    &&& is_digit(p[0]) && is_digit(p[1]) && is_digit(p[2]) && is_digit(p[3])
    &&& is_digit(p[5]) && is_digit(p[6]) && is_digit(p[8]) && is_digit(p[9])
    &&& 1 <= two_digits(p[5], p[6]) <= 12
    &&& 1 <= two_digits(p[8], p[9]) <= 31
}

pub open spec fn count_char(s: Seq<char>, c: char) -> int
    decreases s.len(),
{
    if s.len() == 0 {
        0
    } else {
        count_char(s.drop_last(), c) + if s.last() == c {
            1int
        } else {
            0
        }
    }
}

/// A word that shows as a date: a date alone, or a date followed by `T` and
/// a time of at least five bytes with one colon.
pub open spec fn date_word(w: Seq<char>) -> bool {
    &&& w.len() >= 10
    &&& forall|i: int| 0 <= i < 10 ==> (#[trigger] w[i] as int) < 128
    &&& lax_date(w.subrange(0, 10))
    &&& {
        let rest = w.subrange(10, w.len() as int);
        ||| rest.len() == 0
        ||| (rest[0] == 'T' && byte_len(rest) >= 6 && count_char(rest.subrange(1, rest.len() as int), ':') == 1)
    }
}

/// A word whose UTF-8 bytes can be cut after the tenth (or that is shorter).
pub open spec fn cut_at_ten_ok(w: Seq<char>) -> bool {
    byte_len(w) < 10 || exists|k: int| 0 <= k <= w.len() && byte_len(#[trigger] w.subrange(0, k)) == 10
}

/// The color of a tag by its key.
pub open spec fn key_color(k: Seq<char>) -> TokenColor {
    if k == "due"@ {
        TokenColor::Yellow
    } else if k == "scheduled"@ || k == "sched"@ {
        TokenColor::Cyan
    } else if k == "starting"@ || k == "start"@ {
        TokenColor::Green
    } else if k == "updated"@ {
        TokenColor::Blue
    } else if k == "created"@ {
        TokenColor::Magenta
    } else {
        TokenColor::Plain
    }
}

/// The color of a word: projects cyan, contexts green, priorities yellow,
/// dates magenta, tags by their key, anything else plain.
pub open spec fn token_color_of(w: Seq<char>) -> TokenColor {
    if w.len() > 0 && w[0] == '+' {
        TokenColor::Cyan
    } else if w.len() > 0 && w[0] == '@' {
        TokenColor::Green
    } else if w.len() >= 3 && w[0] == '(' && is_upper(w[1]) && w[2] == ')' {
        TokenColor::Yellow
    } else if date_word(w) {
        TokenColor::Magenta
    } else if index_of(w, ':') < w.len() {
        key_color(w.subrange(0, index_of(w, ':')))
    } else {
        TokenColor::Plain
    }
}

fn ascii_upto(v: &Vec<char>, n: usize) -> (r: bool)
    requires
        n <= v.len(),
    ensures
        r == (forall|i: int| 0 <= i < n ==> (#[trigger] v@[i] as int) < 128),
{
    let mut i: usize = 0;
    while i < n
        invariant
            i <= n <= v.len(),
            forall|k: int| 0 <= k < i ==> (#[trigger] v@[k] as int) < 128,
        decreases n - i,
    {
        if v[i] >= '\u{80}' {
            return false;
        }
        i = i + 1;
    }
    true
}

fn is_date_lax(p: &Vec<char>) -> (r: bool)
    ensures
        r == lax_date(p@),
{
    if p.len() != 10 {
        return false;
    }
    let d = |c: char| -> (r: bool)
        ensures
            r == is_digit(c),
    { '0' <= c && c <= '9' };
    if !(p[4] == '-' && p[7] == '-' && d(p[0]) && d(p[1]) && d(p[2]) && d(p[3]) && d(p[5]) && d(p[6])
        && d(p[8]) && d(p[9])) {
        return false;
    }
    let month = ((p[5] as u32) - ('0' as u32)) * 10 + ((p[6] as u32) - ('0' as u32));
    let day = ((p[8] as u32) - ('0' as u32)) * 10 + ((p[9] as u32) - ('0' as u32));
    1 <= month && month <= 12 && 1 <= day && day <= 31
}

fn colons(v: &Vec<char>, from: usize) -> (r: usize)
    requires
        from <= v.len(),
    ensures
        r == count_char(v@.subrange(from as int, v.len() as int), ':'),
{
    let mut n: usize = 0;
    let mut i = from;
    assert(v@.subrange(from as int, from as int) =~= Seq::<char>::empty());
    while i < v.len()
        invariant
            from <= i <= v.len(),
            n == count_char(v@.subrange(from as int, i as int), ':'),
            n <= i - from,
        decreases v.len() - i,
    {
        assert(v@.subrange(from as int, i + 1).drop_last() =~= v@.subrange(from as int, i as int));
        if v[i] == ':' {
            n = n + 1;
        }
        i = i + 1;
    }
    n
}

proof fn lemma_ascii_byte_len(s: Seq<char>)
    requires
        forall|i: int| 0 <= i < s.len() ==> (#[trigger] s[i] as int) < 128,
    ensures
        byte_len(s) == s.len(),
    decreases s.len(),
{
    if s.len() > 0 {
        assert((s[s.len() - 1] as int) < 128);
        assert forall|i: int| 0 <= i < s.drop_last().len() implies (#[trigger] s.drop_last()[i] as int) < 128 by {
            assert(s.drop_last()[i] == s[i]);
        }
        lemma_ascii_byte_len(s.drop_last());
    }
}

/// The color of a word of a task (see `token_color_of`).
pub fn token_color(word: &str) -> (r: TokenColor)
    requires
        cut_at_ten_ok(word@),
    ensures
        r == token_color_of(word@),
{
    let v = chars_of(word);
    if v.len() > 0 && v[0] == '+' {
        return TokenColor::Cyan;
    }
    if v.len() > 0 && v[0] == '@' {
        return TokenColor::Green;
    }
    if v.len() >= 3 && v[0] == '(' && 'A' <= v[1] && v[1] <= 'Z' && v[2] == ')' {
        return TokenColor::Yellow;
    }
    if v.len() >= 10 && ascii_upto(&v, 10) && is_date_lax(&slice_of(&v, 0, 10)) {
        let rest = slice_of(&v, 10, v.len());
        if rest.len() == 0 {
            return TokenColor::Magenta;
        }
        if rest[0] == 'T' && byte_len_upto(&rest, rest.len(), 6) >= 6 && colons(&rest, 1) == 1 {
            assert(rest@.subrange(0, rest.len() as int) =~= rest@);
            assert(rest@.subrange(1, rest.len() as int) =~= v@.subrange(10, v.len() as int).subrange(1, rest.len() as int));
            return TokenColor::Magenta;
        }
        assert(rest@.subrange(0, rest.len() as int) =~= rest@);
    }
    let colon = find_char(&v, 0, ':');
    assert(v@.subrange(0, v.len() as int) =~= v@);
    if colon < v.len() {
        let key = slice_of(&v, 0, colon);
        proof {
            reveal_strlit("due");
            reveal_strlit("scheduled");
            reveal_strlit("sched");
            reveal_strlit("starting");
            reveal_strlit("start");
            reveal_strlit("updated");
            reveal_strlit("created");
        }
        if crate::text::chars_eq_lit(&key, "due") {
            TokenColor::Yellow
        } else if crate::text::chars_eq_lit(&key, "scheduled") || crate::text::chars_eq_lit(&key, "sched") {
            TokenColor::Cyan
        } else if crate::text::chars_eq_lit(&key, "starting") || crate::text::chars_eq_lit(&key, "start") {
            TokenColor::Green
        } else if crate::text::chars_eq_lit(&key, "updated") {
            TokenColor::Blue
        } else if crate::text::chars_eq_lit(&key, "created") {
            TokenColor::Magenta
        } else {
            TokenColor::Plain
        }
    } else {
        TokenColor::Plain
    }
}

} // verus!
