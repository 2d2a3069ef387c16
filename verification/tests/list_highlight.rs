use ttd::tui::list_highlight::{highlight_line, highlight_source, SpanClass};

fn styles_for(line: &str, in_fm: bool) -> Vec<(String, SpanClass)> {
    highlight_line(line, in_fm)
        .into_iter()
        .map(|s| (s.text, s.class))
        .collect()
}

#[test]
fn comment_line_uses_comment_style() {
    let spans = styles_for("# this is a comment", false);
    assert_eq!(spans.len(), 1);
    assert_eq!(spans[0].0, "# this is a comment");
    assert_eq!(spans[0].1, SpanClass::Comment);
}

#[test]
fn frontmatter_delimiter_is_cyan() {
    let spans = styles_for("---", false);
    assert!(spans.iter().any(|(t, s)| t == "---" && *s == SpanClass::Delimiter));
}

#[test]
fn keywords_get_magenta_bold() {
    let spans = styles_for("sort by priority asc", false);
    let sort_style = spans.iter().find(|(t, _)| t == "sort").unwrap().1;
    let by_style = spans.iter().find(|(t, _)| t == "by").unwrap().1;
    let asc_style = spans.iter().find(|(t, _)| t == "asc").unwrap().1;
    assert_eq!(sort_style, SpanClass::Keyword);
    assert_eq!(by_style, SpanClass::Keyword);
    assert_eq!(asc_style, SpanClass::Keyword);
}

#[test]
fn field_names_get_green() {
    let spans = styles_for("due <= today", false);
    let due_style = spans.iter().find(|(t, _)| t == "due").unwrap().1;
    assert_eq!(due_style, SpanClass::Field);
}

#[test]
fn comparison_operators_get_yellow() {
    let spans = styles_for("due <= today", false);
    let op_style = spans.iter().find(|(t, _)| t == "<=").unwrap().1;
    assert_eq!(op_style, SpanClass::Operator);
}

#[test]
fn frontmatter_key_is_styled_distinctly() {
    let spans = styles_for("name: Today", true);
    assert_eq!(spans[0].0, "name");
    assert_eq!(spans[0].1, SpanClass::FrontmatterKey);
    assert_eq!(spans[1].0, ":");
}

#[test]
fn highlight_source_tracks_frontmatter_scope() {
    let content = "---\nname: Today\n---\ndue <= today\n";
    let lines = highlight_source(content);
    assert_eq!(lines.len(), 4);
    let name_span = lines[1].iter().find(|s| s.text == "name").unwrap();
    assert_eq!(name_span.class, SpanClass::FrontmatterKey);
    let due_span = lines[3].iter().find(|s| s.text == "due").unwrap();
    assert_eq!(due_span.class, SpanClass::Field);
}

#[test]
fn unknown_token_falls_back_to_default_style() {
    let spans = styles_for("project includes randomvalue", false);
    let value_span = spans
        .iter()
        .find(|(t, _)| t == "randomvalue")
        .expect("token present");
    assert_eq!(value_span.1, SpanClass::Plain);
}

#[test]
fn body_line_keeps_whitespace_runs_as_plain_spans() {
    let spans = styles_for("  due  <= today", false);
    let texts: Vec<&str> = spans.iter().map(|(t, _)| t.as_str()).collect();
    assert_eq!(texts, vec!["  ", "due", "  ", "<=", " ", "today"]);
    assert_eq!(spans[0].1, SpanClass::Plain);
    assert_eq!(spans[5].1, SpanClass::Keyword);
}

#[test]
fn indented_delimiter_keeps_its_leading_whitespace() {
    let spans = styles_for("  ---", false);
    assert_eq!(spans, vec![("  ".to_string(), SpanClass::Plain), ("---".to_string(), SpanClass::Delimiter)]);
}

#[test]
fn frontmatter_line_without_colon_is_plain() {
    let spans = styles_for("just text", true);
    assert_eq!(spans, vec![("just text".to_string(), SpanClass::Plain)]);
}

#[test]
fn frontmatter_ends_at_second_delimiter_and_does_not_reopen() {
    let lines = highlight_source("---\na: b\n---\nx: y\n---\nc: d");
    assert_eq!(lines[1][0].class, SpanClass::FrontmatterKey);
    assert_eq!(lines[3][0].class, SpanClass::Plain);
    assert_eq!(lines[5][0].class, SpanClass::Plain);
}
