//! Task lines and editor text as colored spans: the words of a task
//! wrapped under a marker with a hanging indent, its dates as colored
//! labels, and the editor's line cut into rows of a fixed width.
use vstd::prelude::*;

use super::widgets::{cut_at_ten_ok, strip_date_tags, token_color, token_color_of, TokenColor};
use crate::task::{tag_lookup, Task, TaskModel};
use crate::text::{byte_len, char_width, chars_of, is_ws, owned, push_str, slice_of, string_of, vecs_view, words, split_words};
use super::widgets::stripped_description;

verus! {

/// A piece of text before it is colored: words of a task are tokens and
/// get the color of their word; markers, indents and spaces stay plain.
#[derive(Debug, Clone, PartialEq, Eq)]
pub struct Piece {
    pub text: String,
    pub token: bool,
}

/// A piece of text with its color.
#[derive(Debug, Clone, PartialEq, Eq)]
pub struct ColoredSpan {
    pub text: String,
    pub color: TokenColor,
}

pub open spec fn pieces_view(v: Seq<Piece>) -> Seq<(Seq<char>, bool)> {
    v.map_values(|p: Piece| (p.text@, p.token))
}

pub open spec fn piece_lines_view(v: Seq<Vec<Piece>>) -> Seq<Seq<(Seq<char>, bool)>> {
    v.map_values(|l: Vec<Piece>| pieces_view(l@))
}

pub open spec fn colored_view(v: Seq<ColoredSpan>) -> Seq<(Seq<char>, TokenColor)> {
    v.map_values(|s: ColoredSpan| (s.text@, s.color))
}

pub open spec fn colored_lines_view(v: Seq<Vec<ColoredSpan>>) -> Seq<Seq<(Seq<char>, TokenColor)>> {
    v.map_values(|l: Vec<ColoredSpan>| colored_view(l@))
}

// -- Coloring ------------------------------------------------------------------

/// The color of a piece: its word's color for a token, plain otherwise.
pub open spec fn piece_color(p: (Seq<char>, bool)) -> (Seq<char>, TokenColor) {
    (p.0, if p.1 { token_color_of(p.0) } else { TokenColor::Plain })
}

/// Every token can be colored: its UTF-8 bytes can be cut after the tenth.
pub open spec fn colorable(v: Seq<(Seq<char>, bool)>) -> bool {
    forall|i: int| 0 <= i < v.len() && (#[trigger] v[i]).1 ==> cut_at_ten_ok(v[i].0)
}

pub open spec fn lines_colorable(v: Seq<Seq<(Seq<char>, bool)>>) -> bool {
    forall|i: int| 0 <= i < v.len() ==> colorable(#[trigger] v[i])
}

proof fn lemma_byte_len_push(s: Seq<char>, c: char)
    ensures
        byte_len(s.push(c)) == byte_len(s) + crate::text::utf8_width(c),
{
    assert(s.push(c).drop_last() =~= s);
}

/// Whether the UTF-8 bytes of `word` can be cut after the tenth.
pub fn cut_at_ten_checked(word: &str) -> (r: bool)
    ensures
        r == cut_at_ten_ok(word@),
{
    let v = chars_of(word);
    let mut acc: usize = 0;
    let mut i: usize = 0;
    assert(v@.subrange(0, 0) =~= Seq::<char>::empty());
    while i < v.len() && acc < 10
        invariant
            i <= v.len(),
            acc == byte_len(v@.subrange(0, i as int)),
            forall|k: int| 0 <= k < i ==> byte_len(#[trigger] v@.subrange(0, k)) < 10,
        decreases v.len() - i,
    {
        proof {
            lemma_byte_len_push(v@.subrange(0, i as int), v@[i as int]);
            assert(v@.subrange(0, i as int).push(v@[i as int]) =~= v@.subrange(0, i + 1));
        }
        acc = acc + char_width(v[i]);
        i = i + 1;
    }
    proof {
        crate::text::lemma_byte_len_nonneg(v@);
        if acc < 10 {
            assert(v@.subrange(0, i as int) =~= v@);
            lemma_prefix_byte_len_grows(v@, 0, v@.len() as int);
        } else if acc == 10 {
            assert(byte_len(v@.subrange(0, i as int)) == 10);
        } else {
            lemma_prefix_byte_len_grows(v@, i as int, v@.len() as int);
            assert(v@.subrange(0, v@.len() as int) =~= v@);
            assert forall|k: int| 0 <= k <= v@.len() implies byte_len(#[trigger] v@.subrange(0, k)) != 10 by {
                if k < i {
                } else {
                    lemma_prefix_byte_len_grows(v@, i as int, k);
                }
            }
        }
    }
    if acc < 10 {
        true
    } else {
        acc == 10
    }
}

/// Longer prefixes have at least as many bytes.
proof fn lemma_prefix_byte_len_grows(s: Seq<char>, a: int, b: int)
    requires
        0 <= a <= b <= s.len(),
    ensures
        byte_len(s.subrange(0, a)) <= byte_len(s.subrange(0, b)),
    decreases b - a,
{
    if a < b {
        lemma_prefix_byte_len_grows(s, a, b - 1);
        assert(s.subrange(0, b).drop_last() =~= s.subrange(0, b - 1));
    }
}

/// Whether every token of the pieces can be colored.
pub fn pieces_colorable(v: &Vec<Piece>) -> (r: bool)
    ensures
        r == colorable(pieces_view(v@)),
{
    let mut i: usize = 0;
    while i < v.len()
        invariant
            i <= v.len(),
            forall|k: int| 0 <= k < i && (#[trigger] pieces_view(v@)[k]).1 ==> cut_at_ten_ok(pieces_view(v@)[k].0),
        decreases v.len() - i,
    {
        if v[i].token && !cut_at_ten_checked(v[i].text.as_str()) {
            assert(pieces_view(v@)[i as int].1 && !cut_at_ten_ok(pieces_view(v@)[i as int].0));
            return false;
        }
        i = i + 1;
    }
    true
}

/// Whether every token of every line can be colored.
pub fn lines_are_colorable(lines: &Vec<Vec<Piece>>) -> (r: bool)
    ensures
        r == lines_colorable(piece_lines_view(lines@)),
{
    let mut i: usize = 0;
    while i < lines.len()
        invariant
            i <= lines.len(),
            forall|k: int| 0 <= k < i ==> colorable(#[trigger] piece_lines_view(lines@)[k]),
        decreases lines.len() - i,
    {
        if !pieces_colorable(&lines[i]) {
            assert(!colorable(piece_lines_view(lines@)[i as int]));
            return false;
        }
        i = i + 1;
    }
    true
}

/// The pieces with their colors (see `piece_color`).
pub fn color_pieces(v: &Vec<Piece>) -> (r: Vec<ColoredSpan>)
    requires
        colorable(pieces_view(v@)),
    ensures
        colored_view(r@) == pieces_view(v@).map_values(|p: (Seq<char>, bool)| piece_color(p)),
{
    let mut r: Vec<ColoredSpan> = Vec::new();
    let mut i: usize = 0;
    while i < v.len()
        invariant
            i <= v.len(),
            colorable(pieces_view(v@)),
            colored_view(r@) == pieces_view(v@).subrange(0, i as int).map_values(|p: (Seq<char>, bool)| piece_color(p)),
        decreases v.len() - i,
    {
        let ghost before = colored_view(r@);
        assert(pieces_view(v@)[i as int].1 ==> cut_at_ten_ok(pieces_view(v@)[i as int].0));
        let color = if v[i].token {
            token_color(v[i].text.as_str())
        } else {
            TokenColor::Plain
        };
        r.push(ColoredSpan { text: v[i].text.clone(), color });
        assert(colored_view(r@) =~= before.push(piece_color(pieces_view(v@)[i as int])));
        assert(pieces_view(v@).subrange(0, i + 1) =~= pieces_view(v@).subrange(0, i as int).push(pieces_view(v@)[i as int]));
        i = i + 1;
    }
    assert(pieces_view(v@).subrange(0, v.len() as int) =~= pieces_view(v@));
    r
}

/// The lines with their colors (see `piece_color`).
pub fn color_lines(lines: &Vec<Vec<Piece>>) -> (r: Vec<Vec<ColoredSpan>>)
    requires
        lines_colorable(piece_lines_view(lines@)),
    ensures
        r@.len() == lines@.len(),
        forall|i: int| 0 <= i < lines@.len() ==> colored_view(#[trigger] r@[i]@)
            == pieces_view(lines@[i]@).map_values(|p: (Seq<char>, bool)| piece_color(p)),
{
    let mut r: Vec<Vec<ColoredSpan>> = Vec::new();
    let mut i: usize = 0;
    while i < lines.len()
        invariant
            i <= lines.len(),
            r@.len() == i,
            lines_colorable(piece_lines_view(lines@)),
            forall|k: int| 0 <= k < i ==> colored_view(#[trigger] r@[k]@)
                == pieces_view(lines@[k]@).map_values(|p: (Seq<char>, bool)| piece_color(p)),
        decreases lines.len() - i,
    {
        assert(colorable(piece_lines_view(lines@)[i as int]));
        r.push(color_pieces(&lines[i]));
        i = i + 1;
    }
    r
}

// -- The dates of a task -------------------------------------------------------------

/// A labelled date in its color, when present.
pub open spec fn date_span(label: Seq<char>, v: Option<Seq<char>>, color: TokenColor) -> Seq<(Seq<char>, TokenColor)> {
    match v {
        Some(d) => seq![(label + d, color)],
        None => seq![],
    }
}

/// The dates of a task, each labelled and colored: due yellow, scheduled
/// cyan, starting green, updated blue, created magenta.
pub open spec fn date_spans(t: TaskModel) -> Seq<(Seq<char>, TokenColor)> {
    date_span("due: "@, tag_lookup(t.tags, "due"@), TokenColor::Yellow)
        + date_span("sched: "@, tag_lookup(t.tags, "scheduled"@), TokenColor::Cyan)
        + date_span("start: "@, tag_lookup(t.tags, "starting"@), TokenColor::Green)
        + date_span("updated: "@, tag_lookup(t.tags, "updated"@), TokenColor::Blue)
        + date_span("created: "@, t.creation_date, TokenColor::Magenta)
}

/// The spans with a plain two-space span between each two.
pub open spec fn spaced(v: Seq<(Seq<char>, TokenColor)>) -> Seq<(Seq<char>, TokenColor)>
    decreases v.len(),
{
    if v.len() <= 1 {
        v
    } else {
        spaced(v.drop_last()).push(("  "@, TokenColor::Plain)).push(v.last())
    }
}

fn push_date_span(v: &mut Vec<ColoredSpan>, label: &str, d: Option<&String>, color: TokenColor)
    ensures
        colored_view(final(v)@) == colored_view(old(v)@) + date_span(label@, match d {
            Some(x) => Some(x@),
            None => None,
        }, color),
{
    let ghost before = colored_view(v@);
    if let Some(x) = d {
        let mut t = owned(label);
        push_str(&mut t, x.as_str());
        v.push(ColoredSpan { text: t, color });
        assert(colored_view(v@) =~= before.push((label@ + x@, color)));
    } else {
        assert(colored_view(v@) =~= before);
    }
}

/// The dates of a task as colored spans, two spaces apart.
pub fn tag_spans(task: &Task) -> (r: Vec<ColoredSpan>)
    ensures
        colored_view(r@) == spaced(date_spans(task@)),
{
    let mut parts: Vec<ColoredSpan> = Vec::new();
    assert(colored_view(parts@) =~= Seq::<(Seq<char>, TokenColor)>::empty());
    push_date_span(&mut parts, "due: ", task.tags.get("due"), TokenColor::Yellow);
    push_date_span(&mut parts, "sched: ", task.tags.get("scheduled"), TokenColor::Cyan);
    push_date_span(&mut parts, "start: ", task.tags.get("starting"), TokenColor::Green);
    push_date_span(&mut parts, "updated: ", task.tags.get("updated"), TokenColor::Blue);
    push_date_span(&mut parts, "created: ", task.creation_date.as_ref(), TokenColor::Magenta);
    let ghost ps = colored_view(parts@);
    assert(ps =~= date_spans(task@));
    let mut r: Vec<ColoredSpan> = Vec::new();
    let mut i: usize = 0;
    while i < parts.len()
        invariant
            i <= parts.len(),
            ps == colored_view(parts@),
            colored_view(r@) == spaced(ps.subrange(0, i as int)),
        decreases parts.len() - i,
    {
        let ghost before = colored_view(r@);
        assert(ps.subrange(0, i + 1).drop_last() =~= ps.subrange(0, i as int));
        if i > 0 {
            r.push(ColoredSpan { text: owned("  "), color: TokenColor::Plain });
        }
        r.push(ColoredSpan { text: parts[i].text.clone(), color: parts[i].color });
        proof {
            if i == 0 {
                assert(colored_view(r@) =~= ps.subrange(0, 1));
            } else {
                assert(colored_view(r@) =~= before.push(("  "@, TokenColor::Plain)).push(ps[i as int]));
            }
        }
        i = i + 1;
    }
    assert(ps.subrange(0, parts.len() as int) =~= ps);
    r
}

// -- Wrapping a task's words ---------------------------------------------------------

/// The state of the wrap: the finished lines, the line being filled, and
/// its column (counted in bytes of whole words, in characters of the
/// pieces of a cut word).
pub ghost struct WrapModel {
    pub lines: Seq<Seq<(Seq<char>, bool)>>,
    pub cur: Seq<(Seq<char>, bool)>,
    pub col: int,
}

pub open spec fn plain(s: Seq<char>) -> (Seq<char>, bool) {
    (s, false)
}

pub open spec fn token(s: Seq<char>) -> (Seq<char>, bool) {
    (s, true)
}

pub open spec fn min_int(a: int, b: int) -> int {
    if a < b {
        a
    } else {
        b
    }
}

/// The rest of a cut word from `pos` on, `chunk` characters to a line,
/// each line starting with the two-space indent.
pub open spec fn rest_chunks(st: WrapModel, w: Seq<char>, pos: int, chunk: int, p: int) -> WrapModel
    decreases w.len() - pos,
{
    if 0 <= pos < w.len() && chunk > 0 {
        let end = min_int(pos + chunk, w.len() as int);
        rest_chunks(
            WrapModel { lines: st.lines.push(st.cur), cur: seq![plain("  "@), token(w.subrange(pos, end))], col: p + (end - pos) },
            w,
            end,
            chunk,
            p,
        )
    } else {
        st
    }
}

/// One word added to the wrap: it goes on a new, indented line when it does
/// not fit after a space; a word longer than what is left of the line is
/// cut, its first piece filling the line and the rest going on indented
/// lines of `width - p` characters.
pub open spec fn word_step(st: WrapModel, w: Seq<char>, width: int, p: int) -> WrapModel {
    let b = byte_len(w);
    let need = st.col > p;
    let st1 = if st.col + (if need { 1int } else { 0 }) + b > width && st.col > p {
        WrapModel { lines: st.lines.push(st.cur), cur: seq![plain("  "@)], col: p }
    } else if need {
        WrapModel { cur: st.cur.push(plain(" "@)), col: st.col + 1, ..st }
    } else {
        st
    };
    let remaining = if width > st1.col { width - st1.col } else { 0 };
    if b > remaining && width > p {
        if remaining > 0 {
            let end = min_int(remaining, w.len() as int);
            rest_chunks(WrapModel { cur: st1.cur.push(token(w.subrange(0, end))), ..st1 }, w, end, width - p, p)
        } else {
            rest_chunks(st1, w, 0, width - p, p)
        }
    } else {
        WrapModel { cur: st1.cur.push(token(w)), col: st1.col + b, ..st1 }
    }
}

pub open spec fn wrap_words(ws: Seq<Seq<char>>, st: WrapModel, width: int, p: int) -> WrapModel
    decreases ws.len(),
{
    if ws.len() == 0 {
        st
    } else {
        word_step(wrap_words(ws.drop_last(), st, width, p), ws.last(), width, p)
    }
}

/// The lines of a description under a marker: its words wrapped at `width`
/// (see `word_step`), the first line starting with the marker; only the
/// marker when there are no words.
pub open spec fn wrapped(marker: Seq<char>, description: Seq<char>, width: int) -> Seq<Seq<(Seq<char>, bool)>> {
    let ws = words(description);
    let p = byte_len(marker);
    if ws.len() == 0 {
        seq![seq![plain(marker)]]
    } else {
        let st = wrap_words(ws, WrapModel { lines: seq![], cur: seq![plain(marker)], col: p }, width, p);
        st.lines.push(st.cur)
    }
}

proof fn lemma_byte_len_bound(s: Seq<char>)
    ensures
        byte_len(s) <= 4 * s.len(),
    decreases s.len(),
{
    if s.len() > 0 {
        lemma_byte_len_bound(s.drop_last());
    }
}

fn byte_count(v: &Vec<char>) -> (r: u128)
    ensures
        r == byte_len(v@),
        r <= 4 * v@.len(),
{
    let mut acc: u128 = 0;
    let mut i: usize = 0;
    assert(v@.subrange(0, 0) =~= Seq::<char>::empty());
    while i < v.len()
        invariant
            i <= v.len(),
            acc == byte_len(v@.subrange(0, i as int)),
            acc <= 4 * i,
        decreases v.len() - i,
    {
        proof {
            lemma_byte_len_push(v@.subrange(0, i as int), v@[i as int]);
            assert(v@.subrange(0, i as int).push(v@[i as int]) =~= v@.subrange(0, i + 1));
        }
        acc = acc + char_width(v[i]) as u128;
        i = i + 1;
    }
    assert(v@.subrange(0, v.len() as int) =~= v@);
    acc
}

fn piece(text: String, is_token: bool) -> (r: Piece)
    ensures
        r.text@ == text@,
        r.token == is_token,
{
    Piece { text, token: is_token }
}

pub open spec fn wrap_view(lines: Seq<Vec<Piece>>, cur: Seq<Piece>, col: int) -> WrapModel {
    WrapModel { lines: piece_lines_view(lines), cur: pieces_view(cur), col }
}

/// The description's words wrapped under the marker (see `wrapped`).
pub fn wrap_pieces(marker: &str, description: &str, width: u16) -> (r: Vec<Vec<Piece>>)
    ensures
        piece_lines_view(r@) == wrapped(marker@, description@, width as int),
{
    let m = chars_of(marker);
    let p = byte_count(&m);
    assert(m@.len() == m.len());
    let ws = split_words(&chars_of(description));
    let ghost wv = vecs_view(ws@);
    let ghost pi = p as int;
    let ghost wi = width as int;
    let mut cur: Vec<Piece> = Vec::new();
    cur.push(piece(owned(marker), false));
    let mut lines: Vec<Vec<Piece>> = Vec::new();
    if ws.len() == 0 {
        assert(pieces_view(cur@) =~= seq![plain(marker@)]);
        lines.push(cur);
        assert(piece_lines_view(lines@) =~= seq![seq![plain(marker@)]]);
        return lines;
    }
    let mut wmax: u128 = 0;
    let mut j: usize = 0;
    while j < ws.len()
        invariant
            j <= ws.len(),
            wmax <= 4 * usize::MAX,
            forall|k: int| 0 <= k < j ==> byte_len(#[trigger] ws@[k]@) <= wmax,
        decreases ws.len() - j,
    {
        let b = byte_count(&ws[j]);
        assert(ws@[j as int]@.len() == ws[j as int].len());
        if b > wmax {
            wmax = b;
        }
        j = j + 1;
    }
    let ghost init = WrapModel { lines: seq![], cur: seq![plain(marker@)], col: pi };
    let mut col: u128 = p;
    assert(pieces_view(cur@) =~= seq![plain(marker@)]);
    assert(piece_lines_view(lines@) =~= Seq::<Seq<(Seq<char>, bool)>>::empty());
    assert(wrap_view(lines@, cur@, col as int) =~= init);
    assert(wv.subrange(0, 0) =~= Seq::<Seq<char>>::empty());
    let mut i: usize = 0;
    while i < ws.len()
        invariant
            i <= ws.len(),
            wv == vecs_view(ws@),
            pi == p as int,
            wi == width as int,
            p <= 4 * usize::MAX,
            wmax <= 4 * usize::MAX,
            forall|k: int| 0 <= k < ws.len() ==> byte_len(#[trigger] ws@[k]@) <= wmax,
            col <= (if width as u128 > p { width as u128 } else { p }) + wmax,
            wrap_view(lines@, cur@, col as int) == wrap_words(wv.subrange(0, i as int), init, width as int, pi),
        decreases ws.len() - i,
    {
        let ghost st0 = wrap_view(lines@, cur@, col as int);
        assert(wv.subrange(0, i + 1).drop_last() =~= wv.subrange(0, i as int));
        assert(wv.subrange(0, i + 1).last() == ws@[i as int]@);
        let w = &ws[i];
        let b = byte_count(w);
        assert(b <= wmax);
        let need = col > p;
        let extra: u128 = if need { 1 } else { 0 };
        let ghost expect1 = ({
            let need = st0.col > pi;
            if st0.col + (if need { 1int } else { 0 }) + byte_len(w@) > wi && st0.col > pi {
                WrapModel { lines: st0.lines.push(st0.cur), cur: seq![plain("  "@)], col: pi }
            } else if need {
                WrapModel { cur: st0.cur.push(plain(" "@)), col: st0.col + 1, ..st0 }
            } else {
                st0
            }
        });
        if col + extra + b > width as u128 && col > p {
            lines.push(cur);
            cur = Vec::new();
            cur.push(piece(owned("  "), false));
            col = p;
            assert(piece_lines_view(lines@) =~= st0.lines.push(st0.cur));
            assert(pieces_view(cur@) =~= seq![plain("  "@)]);
            assert(wrap_view(lines@, cur@, col as int) == expect1);
        } else if need {
            cur.push(piece(owned(" "), false));
            col = col + 1;
            assert(pieces_view(cur@) =~= st0.cur.push(plain(" "@)));
            assert(wrap_view(lines@, cur@, col as int) == expect1);
        } else {
            assert(wrap_view(lines@, cur@, col as int) == expect1);
        }
        let ghost st1 = wrap_view(lines@, cur@, col as int);
        let remaining: u128 = if width as u128 > col { width as u128 - col } else { 0 };
        if b > remaining && width as u128 > p {
            let n = w.len();
            assert(width as u128 - p < 65536);
            let chunk: usize = (width as u128 - p) as usize;
            let mut pos: usize = 0;
            if remaining > 0 {
                let end: usize = if remaining < n as u128 { remaining as usize } else { n };
                cur.push(piece(string_of(&slice_of(w, 0, end)), true));
                pos = end;
            }
            let ghost target = rest_chunks(wrap_view(lines@, cur@, col as int), w@, pos as int, chunk as int, pi);
            proof {
                if remaining > 0 {
                    assert(pieces_view(cur@) =~= st1.cur.push(token(w@.subrange(0, min_int(remaining as int, w@.len() as int)))));
                    assert(wrap_view(lines@, cur@, col as int) == WrapModel {
                        cur: st1.cur.push(token(w@.subrange(0, min_int(remaining as int, w@.len() as int)))),
                        ..st1
                    });
                } else {
                    assert(wrap_view(lines@, cur@, col as int) == st1);
                }
            }
            assert(target == word_step(st0, w@, wi, pi));
            while pos < n
                invariant
                    pos <= n == w@.len(),
                    chunk as int == wi - pi,
                    chunk > 0,
                    p < width as u128,
                    wi == width as int,
                    pi == p as int,
                    col <= (if width as u128 > p { width as u128 } else { p }) + wmax,
                    rest_chunks(wrap_view(lines@, cur@, col as int), w@, pos as int, chunk as int, pi) == target,
                decreases n - pos,
            {
                let ghost before = wrap_view(lines@, cur@, col as int);
                let ghost pos0 = pos as int;
                let end: usize = if chunk < n - pos { pos + chunk } else { n };
                lines.push(cur);
                cur = Vec::new();
                cur.push(piece(owned("  "), false));
                cur.push(piece(string_of(&slice_of(w, pos, end)), true));
                col = p + (end - pos) as u128;
                pos = end;
                assert(wrap_view(lines@, cur@, col as int) =~= WrapModel {
                    lines: before.lines.push(before.cur),
                    cur: seq![plain("  "@), token(w@.subrange(pos0, end as int))],
                    col: pi + (end as int - pos0),
                }) by {
                    assert(piece_lines_view(lines@) =~= before.lines.push(before.cur));
                    assert(pieces_view(cur@) =~= seq![plain("  "@), token(w@.subrange(pos0, end as int))]);
                }
            }
        } else {
            cur.push(piece(string_of(w), true));
            col = col + b;
            assert(wrap_view(lines@, cur@, col as int) =~= word_step(st0, w@, wi, pi)) by {
                assert(piece_lines_view(lines@) =~= st1.lines);
                assert(pieces_view(cur@) =~= st1.cur.push(token(w@)));
            }
        }
        i = i + 1;
    }
    assert(wv.subrange(0, ws.len() as int) =~= wv);
    let ghost fin = wrap_view(lines@, cur@, col as int);
    lines.push(cur);
    assert(piece_lines_view(lines@) =~= fin.lines.push(fin.cur));
    lines
}

// -- A task's lines ---------------------------------------------------------------

/// The marker of a task line: `> ` when selected, `✓ ` when done.
pub open spec fn marker_of(done: bool, selected: bool) -> Seq<char> {
    if selected {
        "> "@
    } else if done {
        "✓ "@
    } else {
        "  "@
    }
}

/// The pieces of a task's lines: its description without date tags,
/// wrapped under its marker.
pub open spec fn task_line_pieces(t: TaskModel, selected: bool, width: int) -> Seq<Seq<(Seq<char>, bool)>> {
    wrapped(marker_of(t.done, selected), stripped_description(t.description), width)
}

pub open spec fn colored(ls: Seq<Seq<(Seq<char>, bool)>>) -> Seq<Seq<(Seq<char>, TokenColor)>> {
    ls.map_values(|l: Seq<(Seq<char>, bool)>| l.map_values(|p: (Seq<char>, bool)| piece_color(p)))
}

/// The lines of a task in the list: its colored, wrapped description, and
/// its dates on an indented last line when it has any.
pub open spec fn task_line_spans(t: TaskModel, selected: bool, width: int) -> Seq<Seq<(Seq<char>, TokenColor)>> {
    let body = colored(task_line_pieces(t, selected, width));
    let dates = spaced(date_spans(t));
    if dates.len() > 0 {
        body.push(seq![("    "@, TokenColor::Plain)] + dates)
    } else {
        body
    }
}

fn marker(task: &Task, is_selected: bool) -> (r: &'static str)
    ensures
        r@ == marker_of(task@.done, is_selected),
{
    if is_selected {
        "> "
    } else if task.done {
        "\u{2713} "
    } else {
        "  "
    }
}

/// The uncolored pieces of a task's lines (see `task_line_pieces`).
pub fn task_pieces(task: &Task, is_selected: bool, wrap_width: u16) -> (r: Vec<Vec<Piece>>)
    ensures
        piece_lines_view(r@) == task_line_pieces(task@, is_selected, wrap_width as int),
{
    let description = strip_date_tags(task.description.as_str());
    wrap_pieces(marker(task, is_selected), description.as_str(), wrap_width)
}

/// Whether every word of a task's lines can be colored.
pub fn task_lines_colorable(task: &Task, is_selected: bool, wrap_width: u16) -> (r: bool)
    ensures
        r == lines_colorable(task_line_pieces(task@, is_selected, wrap_width as int)),
{
    lines_are_colorable(&task_pieces(task, is_selected, wrap_width))
}

/// The lines of a task in the list (see `task_line_spans`); a done task is
/// shown dimmed.
pub fn render_task_lines(task: &Task, is_selected: bool, wrap_width: u16) -> (r: Vec<Vec<ColoredSpan>>)
    requires
        lines_colorable(task_line_pieces(task@, is_selected, wrap_width as int)),
    ensures
        colored_lines_view(r@) == task_line_spans(task@, is_selected, wrap_width as int),
{
    let pieces = task_pieces(task, is_selected, wrap_width);
    let mut lines = color_lines(&pieces);
    assert(colored_lines_view(lines@) =~= colored(piece_lines_view(pieces@)));
    let tags = tag_spans(task);
    if tags.len() > 0 {
        let ghost before = colored_lines_view(lines@);
        let mut last: Vec<ColoredSpan> = Vec::new();
        last.push(ColoredSpan { text: owned("    "), color: TokenColor::Plain });
        let mut i: usize = 0;
        while i < tags.len()
            invariant
                i <= tags.len(),
                colored_view(last@) == seq![("    "@, TokenColor::Plain)] + colored_view(tags@).subrange(0, i as int),
            decreases tags.len() - i,
        {
            let ghost before_last = colored_view(last@);
            last.push(ColoredSpan { text: tags[i].text.clone(), color: tags[i].color });
            assert(colored_view(last@) =~= before_last.push(colored_view(tags@)[i as int]));
            assert(colored_view(tags@).subrange(0, i + 1) =~= colored_view(tags@).subrange(0, i as int).push(colored_view(tags@)[i as int]));
            assert(colored_view(last@) =~= seq![("    "@, TokenColor::Plain)] + colored_view(tags@).subrange(0, i + 1));
            i = i + 1;
        }
        assert(colored_view(tags@).subrange(0, tags.len() as int) =~= colored_view(tags@));
        lines.push(last);
        assert(colored_lines_view(lines@) =~= before.push(seq![("    "@, TokenColor::Plain)] + colored_view(tags@)));
    }
    lines
}

// -- The editor's line --------------------------------------------------------------

/// Where the run of characters starting at `i` that are (or are not)
/// ASCII whitespace ends.
pub open spec fn run_end(s: Seq<char>, i: int, ws: bool) -> int
    decreases s.len() - i,
{
    if 0 <= i < s.len() && is_ws(s[i]) == ws {
        run_end(s, i + 1, ws)
    } else {
        i
    }
}

pub proof fn lemma_run_end(s: Seq<char>, i: int, ws: bool)
    requires
        0 <= i <= s.len(),
    ensures
        i <= run_end(s, i, ws) <= s.len(),
        i < s.len() && is_ws(s[i]) == ws ==> run_end(s, i, ws) > i,
    decreases s.len() - i,
{
    if i < s.len() && is_ws(s[i]) == ws {
        lemma_run_end(s, i + 1, ws);
    }
}

/// The editor's line from `i` on cut into runs: whitespace runs plain,
/// the words between them tokens.
pub open spec fn editor_runs(s: Seq<char>, i: int) -> Seq<(Seq<char>, bool)>
    decreases s.len() - i,
{
    if 0 <= i < s.len() {
        let w = is_ws(s[i]);
        let e = run_end(s, i, w);
        proof {
            lemma_run_end(s, i, w);
        }
        seq![(s.subrange(i, e), !w)] + editor_runs(s, e)
    } else {
        seq![]
    }
}

fn ascii_ws(c: char) -> (r: bool)
    ensures
        r == is_ws(c),
{
    c == ' ' || c == '\t' || c == '\n' || c == '\x0C' || c == '\r'
}

/// The editor's line cut into whitespace runs and words (see `editor_runs`).
pub fn editor_pieces(line: &str) -> (r: Vec<Piece>)
    ensures
        pieces_view(r@) == editor_runs(line@, 0),
{
    let v = chars_of(line);
    let mut r: Vec<Piece> = Vec::new();
    let mut idx: usize = 0;
    assert(pieces_view(r@) + editor_runs(v@, 0) =~= editor_runs(v@, 0));
    while idx < v.len()
        invariant
            idx <= v.len(),
            v@ == line@,
            editor_runs(v@, 0) == pieces_view(r@) + editor_runs(v@, idx as int),
        decreases v.len() - idx,
    {
        let start = idx;
        let w = ascii_ws(v[idx]);
        proof {
            lemma_run_end(v@, start as int, w);
        }
        while idx < v.len() && ascii_ws(v[idx]) == w
            invariant
                start <= idx <= v.len(),
                run_end(v@, start as int, w) == run_end(v@, idx as int, w),
            decreases v.len() - idx,
        {
            idx = idx + 1;
        }
        assert(run_end(v@, idx as int, w) == idx);
        let ghost before = pieces_view(r@);
        r.push(piece(string_of(&slice_of(&v, start, idx)), !w));
        assert(pieces_view(r@) =~= before.push((v@.subrange(start as int, idx as int), !w)));
        assert(editor_runs(v@, start as int) == seq![(v@.subrange(start as int, idx as int), !w)] + editor_runs(v@, idx as int));
        assert(before + editor_runs(v@, start as int) =~= pieces_view(r@) + editor_runs(v@, idx as int));
    }
    assert(editor_runs(v@, idx as int) =~= Seq::<(Seq<char>, bool)>::empty());
    assert(pieces_view(r@) + editor_runs(v@, idx as int) =~= pieces_view(r@));
    r
}

/// The characters of a span, each with the span's color.
pub open spec fn span_chars(sp: (Seq<char>, TokenColor)) -> Seq<(char, TokenColor)> {
    sp.0.map_values(|c: char| (c, sp.1))
}

/// The characters of spans, each with its span's color.
pub open spec fn flat_chars(v: Seq<(Seq<char>, TokenColor)>) -> Seq<(char, TokenColor)> {
    v.map_values(|sp: (Seq<char>, TokenColor)| span_chars(sp)).flatten()
}

/// `s` cut into consecutive pieces of `w` elements, the last one shorter.
pub open spec fn chunks<A>(s: Seq<A>, w: int) -> Seq<Seq<A>>
    decreases s.len(),
{
    if s.len() == 0 || w <= 0 {
        seq![]
    } else if s.len() <= w {
        seq![s]
    } else {
        seq![s.subrange(0, w)] + chunks(s.subrange(w, s.len() as int), w)
    }
}

/// The colored characters of spans cut into rows of `width` (one empty row
/// when there are none).
pub open spec fn char_rows(v: Seq<(Seq<char>, TokenColor)>, width: int) -> Seq<Seq<(char, TokenColor)>> {
    let c = chunks(flat_chars(v), width);
    if c.len() == 0 {
        seq![seq![]]
    } else {
        c
    }
}

pub open spec fn rows_of(ls: Seq<Seq<(Seq<char>, TokenColor)>>) -> Seq<Seq<(char, TokenColor)>> {
    ls.map_values(|l: Seq<(Seq<char>, TokenColor)>| flat_chars(l))
}

proof fn lemma_flat_push(v: Seq<(Seq<char>, TokenColor)>, x: (Seq<char>, TokenColor))
    ensures
        flat_chars(v.push(x)) == flat_chars(v) + span_chars(x),
{
    let f = |sp: (Seq<char>, TokenColor)| span_chars(sp);
    assert(v.push(x).map_values(f) =~= v.map_values(f).push(span_chars(x)));
    v.map_values(f).lemma_flatten_push(span_chars(x));
}

proof fn lemma_chunks_of_rows<A>(l: Seq<Seq<A>>, c: Seq<A>, w: int)
    requires
        w > 0,
        forall|k: int| 0 <= k < l.len() ==> (#[trigger] l[k]).len() == w,
        c.len() < w,
    ensures
        chunks(l.flatten() + c, w) == (if c.len() == 0 { l } else { l.push(c) }),
    decreases l.len(),
{
    if l.len() == 0 {
        assert(l.flatten() + c =~= c);
        if c.len() == 0 {
            assert(chunks(c, w) =~= l);
        }
    } else {
        let rest = l.drop_first();
        assert forall|k: int| 0 <= k < rest.len() implies (#[trigger] rest[k]).len() == w by {
            assert(rest[k] == l[k + 1]);
        }
        lemma_chunks_of_rows(rest, c, w);
        let s = l.flatten() + c;
        assert(s =~= l[0] + (rest.flatten() + c));
        if rest.flatten().len() + c.len() == 0 {
            if rest.len() > 0 {
                assert(rest[0].len() == w);
                rest.lemma_flatten_and_flatten_alt_are_equivalent();
                rest.lemma_flatten_length_ge_single_element_length(0);
            }
            assert(rest.len() == 0);
            assert(s =~= l[0]);
            assert(l =~= seq![l[0]]);
        } else {
            assert(s.subrange(0, w) =~= l[0]);
            assert(s.subrange(w, s.len() as int) =~= rest.flatten() + c);
            if c.len() == 0 {
                assert(seq![l[0]] + rest =~= l);
            } else {
                assert(seq![l[0]] + rest.push(c) =~= l.push(c));
            }
        }
    }
}

/// The spans cut into rows of `width` characters, each piece keeping its
/// span's color; with a width of zero, one row of all the spans.
pub fn char_wrap_spans(spans: Vec<ColoredSpan>, width: usize) -> (r: Vec<Vec<ColoredSpan>>)
    ensures
        width == 0 ==> colored_lines_view(r@) == seq![colored_view(spans@)],
        width > 0 ==> rows_of(colored_lines_view(r@)) == char_rows(colored_view(spans@), width as int),
{
    let ghost cv = colored_view(spans@);
    if width == 0 {
        let mut r: Vec<Vec<ColoredSpan>> = Vec::new();
        r.push(spans);
        assert(colored_lines_view(r@) =~= seq![cv]);
        return r;
    }
    let mut lines: Vec<Vec<ColoredSpan>> = Vec::new();
    let mut current: Vec<ColoredSpan> = Vec::new();
    let mut col: usize = 0;
    let mut i: usize = 0;
    assert(flat_chars(cv.subrange(0, 0)) =~= Seq::<(char, TokenColor)>::empty()) by {
        assert(cv.subrange(0, 0).map_values(|sp: (Seq<char>, TokenColor)| span_chars(sp)) =~= Seq::<Seq<(char, TokenColor)>>::empty());
    }
    assert(rows_of(colored_lines_view(lines@)).flatten() =~= Seq::<(char, TokenColor)>::empty()) by {
        assert(rows_of(colored_lines_view(lines@)) =~= Seq::<Seq<(char, TokenColor)>>::empty());
    }
    assert(flat_chars(colored_view(current@)) =~= Seq::<(char, TokenColor)>::empty()) by {
        assert(colored_view(current@).map_values(|sp: (Seq<char>, TokenColor)| span_chars(sp)) =~= Seq::<Seq<(char, TokenColor)>>::empty());
    }
    while i < spans.len()
        invariant
            width > 0,
            i <= spans.len(),
            cv == colored_view(spans@),
            col < width,
            col == 0 <==> current@.len() == 0,
            flat_chars(colored_view(current@)).len() == col,
            forall|k: int| 0 <= k < lines@.len() ==> (#[trigger] rows_of(colored_lines_view(lines@))[k]).len() == width,
            rows_of(colored_lines_view(lines@)).flatten() + flat_chars(colored_view(current@)) == flat_chars(cv.subrange(0, i as int)),
        decreases spans.len() - i,
    {
        let chars = chars_of(spans[i].text.as_str());
        let color = spans[i].color;
        let ghost done_before = flat_chars(cv.subrange(0, i as int));
        let ghost sc = span_chars(cv[i as int]);
        assert(sc.len() == chars@.len());
        let mut pos: usize = 0;
        assert(sc.subrange(0, 0) =~= Seq::<(char, TokenColor)>::empty());
        assert(done_before + sc.subrange(0, 0) =~= done_before);
        while pos < chars.len()
            invariant
                width > 0,
                pos <= chars@.len() == sc.len(),
                sc == span_chars(cv[i as int]),
                chars@ == cv[i as int].0,
                color == cv[i as int].1,
                col < width,
                col == 0 <==> current@.len() == 0,
                flat_chars(colored_view(current@)).len() == col,
                forall|k: int| 0 <= k < lines@.len() ==> (#[trigger] rows_of(colored_lines_view(lines@))[k]).len() == width,
                rows_of(colored_lines_view(lines@)).flatten() + flat_chars(colored_view(current@)) == done_before + sc.subrange(0, pos as int),
            decreases chars@.len() - pos,
        {
            let remaining = width - col;
            let take = if remaining < chars.len() - pos { remaining } else { chars.len() - pos };
            let ghost cur_before = colored_view(current@);
            let ghost done_rows = rows_of(colored_lines_view(lines@)).flatten();
            assert(done_rows + flat_chars(cur_before) == done_before + sc.subrange(0, pos as int));
            let ghost piece_view = (chars@.subrange(pos as int, (pos + take) as int), color);
            current.push(ColoredSpan { text: string_of(&slice_of(&chars, pos, pos + take)), color });
            proof {
                assert(colored_view(current@) =~= cur_before.push(piece_view));
                lemma_flat_push(cur_before, piece_view);
                assert(span_chars(piece_view) =~= sc.subrange(pos as int, (pos + take) as int));
                assert(sc.subrange(0, pos as int) + sc.subrange(pos as int, (pos + take) as int) =~= sc.subrange(0, (pos + take) as int));
                assert(flat_chars(colored_view(current@)) == flat_chars(cur_before) + span_chars(piece_view));
                assert(rows_of(colored_lines_view(lines@)).flatten() == done_rows);
                assert(done_rows + (flat_chars(cur_before) + span_chars(piece_view))
                    =~= (done_rows + flat_chars(cur_before)) + span_chars(piece_view));
                assert(rows_of(colored_lines_view(lines@)).flatten() + flat_chars(colored_view(current@))
                    =~= done_before + sc.subrange(0, (pos + take) as int));
            }
            col = col + take;
            pos = pos + take;
            if col >= width {
                let ghost full = colored_view(current@);
                let ghost before_lines = colored_lines_view(lines@);
                lines.push(current);
                current = Vec::new();
                col = 0;
                proof {
                    assert(colored_lines_view(lines@) =~= before_lines.push(full));
                    assert(rows_of(colored_lines_view(lines@)) =~= rows_of(before_lines).push(flat_chars(full)));
                    rows_of(before_lines).lemma_flatten_push(flat_chars(full));
                    assert(rows_of(colored_lines_view(lines@)).flatten() =~= rows_of(before_lines).flatten() + flat_chars(full));
                    assert(colored_view(current@) =~= Seq::<(Seq<char>, TokenColor)>::empty());
                    assert(flat_chars(colored_view(current@)) =~= Seq::<(char, TokenColor)>::empty()) by {
                        assert(colored_view(current@).map_values(|sp: (Seq<char>, TokenColor)| span_chars(sp)) =~= Seq::<Seq<(char, TokenColor)>>::empty());
                    }
                    assert(rows_of(colored_lines_view(lines@)).flatten() + flat_chars(colored_view(current@))
                        =~= rows_of(before_lines).flatten() + flat_chars(full));
                }
            }
        }
        proof {
            assert(sc.subrange(0, pos as int) =~= sc);
            assert(cv.subrange(0, i + 1) =~= cv.subrange(0, i as int).push(cv[i as int]));
            lemma_flat_push(cv.subrange(0, i as int), cv[i as int]);
        }
        i = i + 1;
    }
    assert(cv.subrange(0, spans.len() as int) =~= cv);
    let ghost rows = rows_of(colored_lines_view(lines@));
    let ghost last = flat_chars(colored_view(current@));
    proof {
        lemma_chunks_of_rows(rows, last, width as int);
    }
    if current.len() > 0 {
        let ghost before_lines = colored_lines_view(lines@);
        let ghost cur = colored_view(current@);
        lines.push(current);
        assert(colored_lines_view(lines@) =~= before_lines.push(cur));
        assert(rows_of(colored_lines_view(lines@)) =~= rows.push(last));
    }
    if lines.len() == 0 {
        lines.push(Vec::new());
        assert(rows_of(colored_lines_view(lines@)) =~= seq![Seq::<(char, TokenColor)>::empty()]) by {
            let e: Seq<(Seq<char>, TokenColor)> = seq![];
            assert(colored_view(lines@[0]@) =~= e);
            assert(colored_lines_view(lines@) =~= seq![e]);
            assert(e.map_values(|sp: (Seq<char>, TokenColor)| span_chars(sp)) =~= Seq::<Seq<(char, TokenColor)>>::empty());
        }
    }
    lines
}

/// Whether every word of the editor's line can be colored.
pub fn editor_colorable(line: &str) -> (r: bool)
    ensures
        r == colorable(editor_runs(line@, 0)),
{
    pieces_colorable(&editor_pieces(line))
}

/// The editor's line colored word by word and cut into rows of
/// `wrap_width` characters; one empty row for an empty line.
pub fn highlight_editor_text(line: &str, wrap_width: usize) -> (r: Vec<Vec<ColoredSpan>>)
    requires
        colorable(editor_runs(line@, 0)),
    ensures
        line@.len() == 0 ==> colored_lines_view(r@) == seq![Seq::<(Seq<char>, TokenColor)>::empty()],
        line@.len() > 0 && wrap_width == 0 ==> colored_lines_view(r@) == seq![editor_runs(line@, 0).map_values(|p: (Seq<char>, bool)| piece_color(p))],
        line@.len() > 0 && wrap_width > 0 ==> rows_of(colored_lines_view(r@)) == char_rows(editor_runs(line@, 0).map_values(|p: (Seq<char>, bool)| piece_color(p)), wrap_width as int),
{
    if line.unicode_len() == 0 {
        let mut r: Vec<Vec<ColoredSpan>> = Vec::new();
        r.push(Vec::new());
        assert(colored_lines_view(r@) =~= seq![Seq::<(Seq<char>, TokenColor)>::empty()]) by {
            assert(colored_view(r@[0]@) =~= Seq::<(Seq<char>, TokenColor)>::empty());
        }
        return r;
    }
    let pieces = editor_pieces(line);
    char_wrap_spans(color_pieces(&pieces), wrap_width)
}

// -- Rows of wrapped lines ------------------------------------------------------

/// What ratatui's `Paragraph::line_count` gives for the lines, wrapped
/// without trimming at `width` columns.
pub uninterp spec fn wrapped_row_count(lines: Seq<Seq<(Seq<char>, TokenColor)>>, width: u16) -> usize;

/// ratatui's `Paragraph::line_count` on the lines (their texts as spans)
/// wrapped without trimming.  The source returns 0 at width 0; otherwise
/// the count is named `wrapped_row_count` and nothing more is claimed.
#[verifier::external_body]
pub(crate) fn paragraph_line_count(lines: &[Vec<ColoredSpan>], width: u16) -> (r: usize)
    ensures
        width == 0 ==> r == 0,
        r == wrapped_row_count(colored_lines_view(lines@), width),
{
    let text: Vec<ratatui::text::Line<'static>> = lines
        .iter()
        .map(|l| ratatui::text::Line::from(l.iter().map(|s| ratatui::text::Span::raw(s.text.clone())).collect::<Vec<_>>()))
        .collect();
    ratatui::widgets::Paragraph::new(text).wrap(ratatui::widgets::Wrap { trim: false }).line_count(width)
}

/// The rows a task takes in a pane `width` columns wide: its lines wrapped
/// at the width, and one row in a pane without width.
pub open spec fn task_rows(t: TaskModel, width: u16) -> int {
    if width == 0 {
        1
    } else {
        wrapped_row_count(task_line_spans(t, false, width as int), width) as int
    }
}

/// The rows a task takes in a pane `width` columns wide (see `task_rows`).
pub fn visual_line_count_for_task(task: &Task, width: u16) -> (r: usize)
    requires
        lines_colorable(task_line_pieces(task@, false, width as int)),
    ensures
        r as int == task_rows(task@, width),
{
    if width == 0 {
        return 1;
    }
    let lines = render_task_lines(task, false, width);
    paragraph_line_count(lines.as_slice(), width)
}

} // verus!
