use ttd::parser::parse_task_line;
use ttd::smartlist::TaskGroup;
use ttd::store::{StoredTask, TaskId};
use ttd::tui::modal::{char_wrap_text, editor_input_scroll, editor_modal_height};
use ttd::tui::rows::{task_pane_rows, task_row_range, PaneRow};

fn stored(path: &str, raw: &str) -> StoredTask {
    StoredTask {
        id: TaskId {
            path: path.to_string(),
            line_index: 0,
        },
        task: parse_task_line(raw),
    }
}

#[test]
fn flat_tasks_are_separated_by_rules() {
    let groups = vec![TaskGroup {
        label: String::new(),
        tasks: vec![stored("/t/a.txt", "a"), stored("/t/b.txt", "b")],
    }];
    let rows = task_pane_rows("", false, None, &groups, &[2, 1]);
    assert_eq!(
        rows,
        vec![
            PaneRow::TaskLine(0, 0),
            PaneRow::TaskLine(0, 1),
            PaneRow::TaskRule,
            PaneRow::TaskLine(1, 0),
        ]
    );
    assert_eq!(task_row_range(&rows, 0), Some((0, 2)));
    assert_eq!(task_row_range(&rows, 1), Some((3, 4)));
    assert_eq!(task_row_range(&rows, 2), None);
}

#[test]
fn grouped_tasks_sit_under_their_labels() {
    let groups = vec![
        TaskGroup {
            label: "Home".to_string(),
            tasks: vec![stored("/t/a.txt", "a"), stored("/t/b.txt", "b")],
        },
        TaskGroup {
            label: "Work".to_string(),
            tasks: vec![stored("/t/c.txt", "c")],
        },
    ];
    let rows = task_pane_rows("x", true, None, &groups, &[1, 1, 1]);
    assert_eq!(
        rows,
        vec![
            PaneRow::Search("x".to_string()),
            PaneRow::Blank,
            PaneRow::GroupLabel("Home".to_string()),
            PaneRow::TaskLine(0, 0),
            PaneRow::Blank,
            PaneRow::TaskLine(1, 0),
            PaneRow::GroupRule,
            PaneRow::GroupLabel("Work".to_string()),
            PaneRow::TaskLine(2, 0),
        ]
    );
}

#[test]
fn empty_view_shows_parse_error_or_no_tasks() {
    let error = "bad filter".to_string();
    assert_eq!(
        task_pane_rows("", true, Some(&error), &[], &[]),
        vec![
            PaneRow::Search(String::new()),
            PaneRow::Blank,
            PaneRow::ParseError("bad filter".to_string()),
        ]
    );
    assert_eq!(task_pane_rows("", false, None, &[], &[]), vec![PaneRow::NoTasks]);
}

#[test]
fn editor_text_is_cut_into_rows() {
    assert_eq!(char_wrap_text("abcdefg", 3), "abc\ndef\ng");
    assert_eq!(char_wrap_text("abc", 0), "abc");
    assert_eq!(char_wrap_text("", 4), "");
}

#[test]
fn editor_modal_height_follows_input_and_screen() {
    assert_eq!(editor_modal_height(0, 3, 40), 10);
    assert_eq!(editor_modal_height(66 * 5, 5, 40), 14);
    assert_eq!(editor_modal_height(0, 3, 8), 6);
    assert_eq!(editor_modal_height(66 * 20, 3, 40), 16);
}

#[test]
fn editor_input_scrolls_to_the_cursor() {
    assert_eq!(editor_input_scroll(10, 66, 3), 0);
    assert_eq!(editor_input_scroll(66 * 4, 66, 3), 2);
    assert_eq!(editor_input_scroll(100, 0, 3), 0);
}
