use ttd::tui::widgets::{token_color, TokenColor};

#[test]
fn project_is_cyan() {
    assert_eq!(token_color("+Family"), TokenColor::Cyan);
}

#[test]
fn context_is_green() {
    assert_eq!(token_color("@phone"), TokenColor::Green);
}

#[test]
fn priority_is_yellow() {
    assert_eq!(token_color("(A)"), TokenColor::Yellow);
}

#[test]
fn priority_with_leading_done_marker_is_plain() {
    assert_eq!(token_color("x"), TokenColor::Plain);
}

#[test]
fn bare_date_is_magenta() {
    assert_eq!(token_color("2026-07-17"), TokenColor::Magenta);
}

#[test]
fn date_with_time_is_magenta() {
    assert_eq!(token_color("2026-07-17T14:30"), TokenColor::Magenta);
}

#[test]
fn invalid_date_is_plain() {
    assert_eq!(token_color("2026-13-45"), TokenColor::Plain);
}

#[test]
fn due_tag_is_yellow() {
    assert_eq!(token_color("due:2026-08-01"), TokenColor::Yellow);
}

#[test]
fn due_tag_incomplete_is_yellow() {
    assert_eq!(token_color("due:"), TokenColor::Yellow);
}

#[test]
fn sched_tag_is_cyan() {
    assert_eq!(token_color("sched:2026-08-01"), TokenColor::Cyan);
}

#[test]
fn start_tag_is_green() {
    assert_eq!(token_color("start:2026-08-01"), TokenColor::Green);
}

#[test]
fn updated_tag_is_blue() {
    assert_eq!(token_color("updated:2026-08-01"), TokenColor::Blue);
}

#[test]
fn created_tag_is_magenta() {
    assert_eq!(token_color("created:2026-08-01"), TokenColor::Magenta);
}

#[test]
fn unknown_key_is_plain() {
    assert_eq!(token_color("foo:bar"), TokenColor::Plain);
}

#[test]
fn plain_word_is_unstyled() {
    assert_eq!(token_color("hello"), TokenColor::Plain);
}

#[test]
fn date_with_a_short_time_is_plain() {
    assert_eq!(token_color("2026-07-17T1:3"), TokenColor::Plain);
}

#[test]
fn lowercase_priority_is_plain() {
    assert_eq!(token_color("(a)"), TokenColor::Plain);
}
