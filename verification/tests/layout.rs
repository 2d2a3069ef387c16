use ttd::config::ConfigPaths;
use ttd::smartlist::parser::parse_list;
use ttd::store::TaskStore;
use ttd::refresh::SnapshotIndex;
use ttd::tui::app::FocusArea;
use ttd::parser::parse_task_line;
use ttd::tui::layout::{compute_scroll_offset, scroll_offset_for, task_at_row};
use ttd::tui::spans::{visual_line_count_for_task, ColoredSpan};
use ttd::tui::widgets::TokenColor;
use ttd::tui::session::TuiSession;

#[test]
fn rows_of_tasks_one_after_the_other_with_blank_rows_between() {
    let counts = [1usize, 2, 1];
    let expected = [Some(0), None, Some(1), Some(1), None, Some(2), None];
    for (row, want) in expected.iter().enumerate() {
        assert_eq!(task_at_row(row as u128, 0, false, &[], &counts), *want, "row {}", row);
    }
    assert_eq!(task_at_row(1, 2, false, &[], &counts), None);
    assert_eq!(task_at_row(2, 2, false, &[], &counts), Some(0));
}

#[test]
fn rows_of_grouped_tasks_leave_room_for_headers_and_separators() {
    let groups = [(true, 2usize), (true, 1usize)];
    let counts = [1usize, 1, 1];
    let expected = [None, Some(0), None, Some(1), None, None, Some(2), None];
    for (row, want) in expected.iter().enumerate() {
        assert_eq!(task_at_row(row as u128, 0, true, &groups, &counts), *want, "row {}", row);
    }
}

#[test]
fn scroll_follows_the_selection_only_when_it_leaves_the_pane() {
    assert_eq!(scroll_offset_for(Some((5, 7)), 10, 3, Some(0)), 4);
    assert_eq!(scroll_offset_for(Some((1, 2)), 10, 3, Some(4)), 1);
    assert_eq!(scroll_offset_for(Some((4, 6)), 10, 3, Some(4)), 4);
    assert_eq!(scroll_offset_for(None, 10, 3, Some(4)), 0);
    assert_eq!(scroll_offset_for(Some((4, 6)), 0, 3, Some(4)), 0);
}

#[test]
fn session_maps_pane_rows_to_its_tasks() {
    let lists = vec![parse_list("---\nname: All\n---\nnot done\n", "/t/lists.d/all.list", "/t/lists.d")];
    let snapshot = TaskStore::new("/t").load_all(
        &[
            ("/t/a.txt".to_string(), "Alpha\n".to_string()),
            ("/t/b.txt".to_string(), "Beta\n".to_string()),
        ],
        &[],
    );
    let mut session = TuiSession::open(
        TaskStore::new("/t"),
        snapshot,
        lists,
        SnapshotIndex::from_entries(Vec::new()),
        "2026-03-30",
        20,
        0,
        50,
        ConfigPaths::from_root("/c"),
        "vi",
    );
    assert_eq!(session.task_index_for_line_counts(0, &[1, 1]), Some(0));
    assert_eq!(session.task_index_for_line_counts(1, &[1, 1]), None);
    assert_eq!(session.task_index_for_line_counts(2, &[1, 1]), Some(1));
    session.apply_task_scroll(2, 10, 1);
    assert_eq!(session.task_index_for_line_counts(0, &[1, 1]), Some(1));

    session.app_mut().focus = FocusArea::TaskList;
    session.dispatch_key("/");
    assert_eq!(session.task_index_for_line_counts(0, &[1, 1]), Some(0));
    assert_eq!(session.task_index_for_line_counts(2, &[1, 1]), Some(1));
}

#[test]
fn session_maps_pane_rows_to_tasks_wrapped_at_the_pane_width() {
    let lists = vec![parse_list("---\nname: All\n---\nnot done\n", "/t/lists.d/all.list", "/t/lists.d")];
    let snapshot = TaskStore::new("/t").load_all(
        &[
            ("/t/a.txt".to_string(), "Alpha\n".to_string()),
            ("/t/b.txt".to_string(), "Beta\n".to_string()),
        ],
        &[],
    );
    let session = TuiSession::open(
        TaskStore::new("/t"),
        snapshot,
        lists,
        SnapshotIndex::from_entries(Vec::new()),
        "2026-03-30",
        20,
        0,
        50,
        ConfigPaths::from_root("/c"),
        "vi",
    );
    assert_eq!(session.task_index_for_visual_row(0, 40), Some(0));
    assert_eq!(session.task_index_for_visual_row(1, 40), None);
    assert_eq!(session.task_index_for_visual_row(2, 40), Some(1));
}

#[test]
fn scroll_offset_counts_the_rows_of_the_lines() {
    let line = |text: &str| vec![ColoredSpan { text: text.to_string(), color: TokenColor::Plain }];
    let lines: Vec<Vec<ColoredSpan>> = (0..30).map(|_| line("x")).collect();
    assert_eq!(compute_scroll_offset(&lines, Some(25), 20, 10), 16);
    assert_eq!(compute_scroll_offset(&lines, Some(5), 20, 10), 0);
    assert_eq!(compute_scroll_offset(&lines, Some(25), 0, 10), 0);

    let mut wrapped = lines.clone();
    wrapped[0] = line(&"a".repeat(30));
    assert_eq!(compute_scroll_offset(&wrapped, Some(25), 20, 10), 17);
}

#[test]
fn a_task_takes_one_row_in_a_pane_without_width() {
    let task = parse_task_line("Call Mom");
    assert_eq!(visual_line_count_for_task(&task, 0), 1);
    assert_eq!(visual_line_count_for_task(&task, 40), 1);
}
