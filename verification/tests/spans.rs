use ttd::parser::parse_task_line;
use ttd::tui::spans::{
    char_wrap_spans, editor_colorable, highlight_editor_text, render_task_lines, tag_spans,
    task_lines_colorable, wrap_pieces, ColoredSpan,
};
use ttd::tui::widgets::TokenColor;

fn text_of(lines: &[Vec<ColoredSpan>]) -> String {
    lines.iter().flat_map(|l| l.iter()).map(|s| s.text.as_str()).collect()
}

fn line_text(line: &[ColoredSpan]) -> String {
    line.iter().map(|s| s.text.as_str()).collect()
}

#[test]
fn highlight_empty_string_returns_empty() {
    let lines = highlight_editor_text("", 40);
    assert_eq!(lines.len(), 1);
    assert!(lines[0].is_empty());
}

#[test]
fn highlight_preserves_plain_text() {
    let lines = highlight_editor_text("hello world", 40);
    assert_eq!(text_of(&lines), "hello world");
}

#[test]
fn highlight_colors_project_in_text() {
    let lines = highlight_editor_text("call +Family", 40);
    let family = lines[0].iter().find(|s| s.text.contains("+Family")).unwrap();
    assert_eq!(family.color, TokenColor::Cyan);
}

#[test]
fn highlight_wraps_at_width_boundary() {
    let lines = highlight_editor_text("1234567890", 5);
    assert_eq!(lines.len(), 2);
}

#[test]
fn highlight_preserves_leading_whitespace() {
    let lines = highlight_editor_text("  hello", 40);
    assert_eq!(text_of(&lines), "  hello");
}

#[test]
fn highlight_preserves_multiple_spaces() {
    let lines = highlight_editor_text("a   b", 40);
    assert_eq!(text_of(&lines), "a   b");
}

#[test]
fn highlight_cuts_rows_and_keeps_word_colors() {
    assert!(editor_colorable("ab +proj"));
    let lines = highlight_editor_text("ab +proj", 4);
    let rows: Vec<String> = lines.iter().map(|l| line_text(l)).collect();
    assert_eq!(rows, vec!["ab +", "proj"]);
    assert_eq!(lines[0][2].text, "+");
    assert_eq!(lines[0][2].color, TokenColor::Cyan);
    assert_eq!(lines[1][0].color, TokenColor::Cyan);
}

#[test]
fn char_wrap_with_zero_width_keeps_one_row() {
    let spans = vec![ColoredSpan { text: "abcdef".to_string(), color: TokenColor::Green }];
    let lines = char_wrap_spans(spans.clone(), 0);
    assert_eq!(lines, vec![spans]);
}

#[test]
fn char_wrap_cuts_exact_rows() {
    let spans = vec![
        ColoredSpan { text: "abc".to_string(), color: TokenColor::Plain },
        ColoredSpan { text: "defgh".to_string(), color: TokenColor::Blue },
    ];
    let lines = char_wrap_spans(spans, 4);
    let rows: Vec<String> = lines.iter().map(|l| line_text(l)).collect();
    assert_eq!(rows, vec!["abcd", "efgh"]);
    assert_eq!(lines[0][1].text, "d");
    assert_eq!(lines[0][1].color, TokenColor::Blue);
}

#[test]
fn words_wrap_under_a_hanging_indent() {
    let lines = wrap_pieces("> ", "call mom about the weekend", 12);
    let rows: Vec<String> = lines
        .iter()
        .map(|l| l.iter().map(|p| p.text.as_str()).collect())
        .collect();
    assert_eq!(rows, vec!["> call mom", "  about the", "  weekend"]);
}

#[test]
fn long_word_is_cut_into_indented_pieces() {
    let lines = wrap_pieces("  ", "abcdefghijkl", 6);
    let rows: Vec<String> = lines
        .iter()
        .map(|l| l.iter().map(|p| p.text.as_str()).collect())
        .collect();
    assert_eq!(rows, vec!["  abcd", "  efgh", "  ijkl"]);
}

#[test]
fn no_words_leave_the_marker_alone() {
    let lines = wrap_pieces("> ", "   ", 20);
    assert_eq!(lines.len(), 1);
    assert_eq!(lines[0].len(), 1);
    assert_eq!(lines[0][0].text, "> ");
    assert!(!lines[0][0].token);
}

#[test]
fn date_tags_become_colored_labels() {
    let task = parse_task_line("2026-01-02 pay rent due:2026-02-01 scheduled:2026-01-30");
    let spans = tag_spans(&task);
    let texts: Vec<&str> = spans.iter().map(|s| s.text.as_str()).collect();
    assert_eq!(texts, vec!["due: 2026-02-01", "  ", "sched: 2026-01-30", "  ", "created: 2026-01-02"]);
    assert_eq!(spans[0].color, TokenColor::Yellow);
    assert_eq!(spans[2].color, TokenColor::Cyan);
    assert_eq!(spans[4].color, TokenColor::Magenta);
}

#[test]
fn task_lines_hold_description_and_dates() {
    let task = parse_task_line("call +Mom due:2026-02-01");
    assert!(task_lines_colorable(&task, true, 40));
    let lines = render_task_lines(&task, true, 40);
    assert_eq!(lines.len(), 2);
    assert_eq!(line_text(&lines[0]), "> call +Mom");
    assert_eq!(lines[0].last().unwrap().color, TokenColor::Cyan);
    assert_eq!(line_text(&lines[1]), "    due: 2026-02-01");
}

#[test]
fn done_task_line_has_check_marker() {
    let task = parse_task_line("x 2026-01-05 water plants");
    let lines = render_task_lines(&task, false, 40);
    assert_eq!(line_text(&lines[0]), "\u{2713} water plants");
}
