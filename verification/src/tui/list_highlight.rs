//! Keyword highlighting of smart-list source files: each line is cut into
//! spans (the frontmatter delimiter, a comment, keywords, field names,
//! operators and the rest) without parsing the grammar; text that is not
//! valid syntax is shown plain rather than rejected.
use vstd::prelude::*;

use crate::text::{
    chars_eq_lit, chars_of, char_is_ws, find_char, index_of, is_ws, lead_space, lemma_index_of_bounds,
    lines_of, owned, split_lines, string_of_range, trim, trim_bounds, trim_start, vecs_view,
};

verus! {

/// What a span of a smart-list source line is, which decides its style.
#[derive(Debug, Clone, Copy, PartialEq, Eq, Structural)]
pub enum SpanClass {
    Plain,
    Delimiter,
    Comment,
    Keyword,
    Field,
    Operator,
    FrontmatterKey,
}

/// A piece of a source line with its class.
#[derive(Debug, Clone, PartialEq, Eq)]
pub struct HighlightSpan {
    pub text: String,
    pub class: SpanClass,
}

pub open spec fn spans_view(v: Seq<HighlightSpan>) -> Seq<(Seq<char>, SpanClass)> {
    v.map_values(|s: HighlightSpan| (s.text@, s.class))
}

pub open spec fn lines_spans_view(v: Seq<Vec<HighlightSpan>>) -> Seq<Seq<(Seq<char>, SpanClass)>> {
    v.map_values(|l: Vec<HighlightSpan>| spans_view(l@))
}

/// The class of a whitespace-free token of a body line.
pub open spec fn token_class(t: Seq<char>) -> SpanClass {
    if t == "OR"@ || t == "done"@ || t == "not"@ || t == "has"@ || t == "no"@ || t == "sort"@ || t
        == "by"@ || t == "group"@ || t == "prefill"@ || t == "today"@ || t == "asc"@ || t == "desc"@
        || t == "above"@ || t == "below"@ || t == "includes"@ || t == "excludes"@ {
        SpanClass::Keyword
    } else if t == "due"@ || t == "scheduled"@ || t == "starting"@ || t == "updated"@ || t
        == "creation_date"@ || t == "priority"@ || t == "project"@ || t == "context"@ || t
        == "description"@ {
        SpanClass::Field
    } else if t == "<="@ || t == ">="@ || t == "<"@ || t == ">"@ || t == "="@ {
        SpanClass::Operator
    } else {
        SpanClass::Plain
    }
}

/// The length of the run at the start of `s` of characters that are ASCII
/// whitespace exactly when `ws` is.
pub open spec fn run_len(s: Seq<char>, ws: bool) -> int
    decreases s.len(),
{
    if s.len() > 0 && is_ws(s[0]) == ws {
        1 + run_len(s.drop_first(), ws)
    } else {
        0
    }
}

proof fn lemma_run_len_at(s: Seq<char>, ws: bool, n: int)
    requires
        0 <= n <= s.len(),
        forall|k: int| 0 <= k < n ==> is_ws(s[k]) == ws,
        n == s.len() || is_ws(s[n]) != ws,
    ensures
        run_len(s, ws) == n,
    decreases n,
{
    if n > 0 {
        lemma_run_len_at(s.drop_first(), ws, n - 1);
    }
}

pub proof fn lemma_run_len_bounds(s: Seq<char>, ws: bool)
    ensures
        0 <= run_len(s, ws) <= s.len(),
    decreases s.len(),
{
    if s.len() > 0 && is_ws(s[0]) == ws {
        lemma_run_len_bounds(s.drop_first(), ws);
    }
}

/// A body line cut into maximal runs of whitespace and of other
/// characters; whitespace stays plain and each token is classed.
pub open spec fn body_spans(s: Seq<char>) -> Seq<(Seq<char>, SpanClass)>
    decreases s.len(),
{
    if s.len() == 0 {
        seq![]
    } else {
        let ws = is_ws(s[0]);
        let n = run_len(s, ws);
        proof {
            lemma_run_len_bounds(s.drop_first(), ws);
        }
        let piece = s.subrange(0, n);
        seq![(piece, if ws {
            SpanClass::Plain
        } else {
            token_class(piece)
        })] + body_spans(s.subrange(n, s.len() as int))
    }
}

/// A frontmatter line: the key before the first `:` is classed as such;
/// a line without `:` is plain.
pub open spec fn frontmatter_spans(s: Seq<char>) -> Seq<(Seq<char>, SpanClass)> {
    let i = index_of(s, ':');
    if i < s.len() {
        seq![
            (s.subrange(0, i), SpanClass::FrontmatterKey),
            (":"@, SpanClass::Plain),
            (s.subrange(i + 1, s.len() as int), SpanClass::Plain),
        ]
    } else {
        seq![(s, SpanClass::Plain)]
    }
}

/// The spans of one line: a `---` delimiter (after its leading
/// whitespace), a comment, a frontmatter line or a body line.
pub open spec fn line_spans(s: Seq<char>, in_frontmatter: bool) -> Seq<(Seq<char>, SpanClass)> {
    let t = trim_start(s);
    if t == "---"@ {
        seq![(s.subrange(0, lead_space(s)), SpanClass::Plain), ("---"@, SpanClass::Delimiter)]
    } else if t.len() > 0 && t[0] == '#' {
        seq![(s, SpanClass::Comment)]
    } else if in_frontmatter {
        frontmatter_spans(s)
    } else {
        body_spans(s)
    }
}

/// The spans of each line, the frontmatter being the lines between the
/// first two `---` lines.
pub open spec fn source_spans(lines: Seq<Seq<char>>, in_frontmatter: bool, seen_first: bool) -> Seq<
    Seq<(Seq<char>, SpanClass)>,
>
    decreases lines.len(),
{
    if lines.len() == 0 {
        seq![]
    } else {
        let l = lines[0];
        if trim(l) == "---"@ {
            seq![line_spans(l, in_frontmatter)] + source_spans(lines.drop_first(), !seen_first, true)
        } else {
            seq![line_spans(l, in_frontmatter)] + source_spans(lines.drop_first(), in_frontmatter, seen_first)
        }
    }
}

fn classify_token(tok: &Vec<char>) -> (r: SpanClass)
    ensures
        r == token_class(tok@),
{
    if chars_eq_lit(tok, "OR") || chars_eq_lit(tok, "done") || chars_eq_lit(tok, "not") || chars_eq_lit(tok, "has")
        || chars_eq_lit(tok, "no") || chars_eq_lit(tok, "sort") || chars_eq_lit(tok, "by") || chars_eq_lit(
        tok,
        "group",
    ) || chars_eq_lit(tok, "prefill") || chars_eq_lit(tok, "today") || chars_eq_lit(tok, "asc") || chars_eq_lit(
        tok,
        "desc",
    ) || chars_eq_lit(tok, "above") || chars_eq_lit(tok, "below") || chars_eq_lit(tok, "includes")
        || chars_eq_lit(tok, "excludes") {
        SpanClass::Keyword
    } else if chars_eq_lit(tok, "due") || chars_eq_lit(tok, "scheduled") || chars_eq_lit(tok, "starting")
        || chars_eq_lit(tok, "updated") || chars_eq_lit(tok, "creation_date") || chars_eq_lit(tok, "priority")
        || chars_eq_lit(tok, "project") || chars_eq_lit(tok, "context") || chars_eq_lit(tok, "description") {
        SpanClass::Field
    } else if chars_eq_lit(tok, "<=") || chars_eq_lit(tok, ">=") || chars_eq_lit(tok, "<") || chars_eq_lit(tok, ">")
        || chars_eq_lit(tok, "=") {
        SpanClass::Operator
    } else {
        SpanClass::Plain
    }
}

fn push_span(v: &mut Vec<HighlightSpan>, text: String, class: SpanClass)
    ensures
        spans_view(final(v)@) == spans_view(old(v)@).push((text@, class)),
{
    v.push(HighlightSpan { text, class });
    assert(spans_view(v@) =~= spans_view(old(v)@).push((text@, class)));
}

fn highlight_body(v: &Vec<char>) -> (r: Vec<HighlightSpan>)
    ensures
        spans_view(r@) == body_spans(v@),
{
    let mut spans: Vec<HighlightSpan> = Vec::new();
    let mut idx: usize = 0;
    assert(v@.subrange(0, v.len() as int) =~= v@);
    assert(spans_view(spans@) =~= Seq::<(Seq<char>, SpanClass)>::empty());
    while idx < v.len()
        invariant
            idx <= v.len(),
            spans_view(spans@) + body_spans(v@.subrange(idx as int, v.len() as int)) == body_spans(v@),
        decreases v.len() - idx,
    {
        let start = idx;
        let ws = char_is_ws(v[idx]);
        while idx < v.len() && char_is_ws(v[idx]) == ws
            invariant
                start <= idx <= v.len(),
                start < v.len(),
                ws == is_ws(v@[start as int]),
                forall|k: int| start <= k < idx ==> is_ws(v@[k]) == ws,
            decreases v.len() - idx,
        {
            idx = idx + 1;
        }
        let piece = string_of_range(v, start, idx);
        let ghost rest = v@.subrange(start as int, v.len() as int);
        proof {
            lemma_run_len_at(rest, ws, idx - start);
            assert(rest.subrange(0, idx - start) =~= v@.subrange(start as int, idx as int));
            assert(rest.subrange(idx - start, rest.len() as int) =~= v@.subrange(idx as int, v.len() as int));
        }
        let ghost before = spans_view(spans@);
        if ws {
            push_span(&mut spans, piece, SpanClass::Plain);
        } else {
            let tok = chars_of(piece.as_str());
            let class = classify_token(&tok);
            push_span(&mut spans, piece, class);
        }
        assert(spans_view(spans@) + body_spans(v@.subrange(idx as int, v.len() as int)) =~= before + body_spans(rest));
    }
    assert(spans_view(spans@) =~= spans_view(spans@) + body_spans(v@.subrange(idx as int, v.len() as int)));
    spans
}

fn highlight_frontmatter(v: &Vec<char>) -> (r: Vec<HighlightSpan>)
    ensures
        spans_view(r@) == frontmatter_spans(v@),
{
    let mut spans: Vec<HighlightSpan> = Vec::new();
    let colon = find_char(v, 0, ':');
    assert(v@.subrange(0, v.len() as int) =~= v@);
    proof {
        lemma_index_of_bounds(v@, ':');
    }
    if colon < v.len() {
        push_span(&mut spans, string_of_range(v, 0, colon), SpanClass::FrontmatterKey);
        push_span(&mut spans, owned(":"), SpanClass::Plain);
        push_span(&mut spans, string_of_range(v, colon + 1, v.len()), SpanClass::Plain);
    } else {
        push_span(&mut spans, string_of_range(v, 0, v.len()), SpanClass::Plain);
    }
    assert(spans_view(spans@) =~= frontmatter_spans(v@));
    spans
}

fn highlight_chars(v: &Vec<char>, in_frontmatter: bool) -> (r: Vec<HighlightSpan>)
    ensures
        spans_view(r@) == line_spans(v@, in_frontmatter),
{
    let (lo, _hi) = trim_bounds(v);
    let ghost t = trim_start(v@);
    assert(t =~= v@.subrange(lo as int, v.len() as int));
    let is_delim = v.len() - lo == 3 && v[lo] == '-' && v[lo + 1] == '-' && v[lo + 2] == '-';
    proof {
        reveal_strlit("---");
        if is_delim {
            assert(t =~= "---"@);
        }
        if t == "---"@ {
            assert(t[0] == v@[lo as int] && t[1] == v@[lo + 1] && t[2] == v@[lo + 2]);
        }
        if lo < v.len() {
            assert(t[0] == v@[lo as int]);
        }
    }
    if is_delim {
        let mut spans: Vec<HighlightSpan> = Vec::new();
        push_span(&mut spans, string_of_range(v, 0, lo), SpanClass::Plain);
        push_span(&mut spans, owned("---"), SpanClass::Delimiter);
        assert(spans_view(spans@) =~= line_spans(v@, in_frontmatter));
        return spans;
    }
    if lo < v.len() && v[lo] == '#' {
        let mut spans: Vec<HighlightSpan> = Vec::new();
        push_span(&mut spans, string_of_range(v, 0, v.len()), SpanClass::Comment);
        assert(v@.subrange(0, v.len() as int) =~= v@);
        assert(spans_view(spans@) =~= line_spans(v@, in_frontmatter));
        return spans;
    }
    if in_frontmatter {
        highlight_frontmatter(v)
    } else {
        highlight_body(v)
    }
}

/// The spans of one source line (see `line_spans`).
pub fn highlight_line(line: &str, in_frontmatter: bool) -> (r: Vec<HighlightSpan>)
    ensures
        spans_view(r@) == line_spans(line@, in_frontmatter),
{
    let v = chars_of(line);
    highlight_chars(&v, in_frontmatter)
}

/// The spans of every line of a source (see `source_spans`).
pub fn highlight_source(content: &str) -> (r: Vec<Vec<HighlightSpan>>)
    ensures
        lines_spans_view(r@) == source_spans(lines_of(content@), false, false),
{
    let v = chars_of(content);
    let lines = split_lines(&v);
    let ghost lv = vecs_view(lines@);
    let mut in_fm = false;
    let mut seen_first = false;
    let mut out: Vec<Vec<HighlightSpan>> = Vec::new();
    let mut i: usize = 0;
    assert(lv.subrange(0, lv.len() as int) =~= lv);
    assert(lines_spans_view(out@) =~= Seq::<Seq<(Seq<char>, SpanClass)>>::empty());
    while i < lines.len()
        invariant
            i <= lines.len(),
            lv == vecs_view(lines@),
            lv == lines_of(content@),
            lines_spans_view(out@) + source_spans(lv.subrange(i as int, lv.len() as int), in_fm, seen_first)
                == source_spans(lv, false, false),
        decreases lines.len() - i,
    {
        let line = &lines[i];
        let spans = highlight_chars(line, in_fm);
        let (lo, hi) = trim_bounds(line);
        let is_delim = hi - lo == 3 && line[lo] == '-' && line[lo + 1] == '-' && line[lo + 2] == '-';
        let ghost rest = lv.subrange(i as int, lv.len() as int);
        proof {
            reveal_strlit("---");
            assert(rest[0] == line@);
            assert(rest.drop_first() =~= lv.subrange(i + 1, lv.len() as int));
            if is_delim {
                assert(trim(line@) =~= "---"@);
            } else {
                assert(trim(line@) != "---"@) by {
                    if trim(line@) == "---"@ {
                        let w = line@.subrange(lo as int, hi as int);
                        assert(w == trim(line@));
                        assert("---"@.len() == 3);
                        assert(w.len() == 3);
                        assert(w[0] == line@[lo as int] && w[1] == line@[lo + 1] && w[2] == line@[lo + 2]);
                    }
                }
            }
        }
        let ghost before = lines_spans_view(out@);
        let ghost prev_fm = in_fm;
        let ghost prev_seen = seen_first;
        out.push(spans);
        assert(lines_spans_view(out@) =~= before.push(line_spans(line@, in_fm)));
        if is_delim {
            if !seen_first {
                in_fm = true;
                seen_first = true;
            } else {
                in_fm = false;
            }
        }
        i = i + 1;
        assert(lines_spans_view(out@) + source_spans(lv.subrange(i as int, lv.len() as int), in_fm, seen_first)
            =~= before + source_spans(rest, prev_fm, prev_seen));
    }
    assert(lines_spans_view(out@) =~= lines_spans_view(out@) + source_spans(
        lv.subrange(i as int, lv.len() as int),
        in_fm,
        seen_first,
    ));
    out
}

} // verus!
