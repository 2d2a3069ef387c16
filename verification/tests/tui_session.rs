use ttd::config::ConfigPaths;
use ttd::refresh::SnapshotIndex;
use ttd::smartlist::parser::parse_list;
use ttd::smartlist::types::{Direction, Directive, Field, SmartList};
use ttd::store::{Snapshot, TaskStore};
use ttd::tui::app::{AppMode, FocusArea};
use ttd::tui::session::{SessionRequest, SidebarItem, TuiSession};

const ROOT: &str = "/tasks";

fn standard_lists() -> Vec<SmartList> {
    vec![
        parse_list(
            "---\nname: Inbox\norder: 1\n---\nno due\nno scheduled\nno starting\n",
            "/tasks/lists.d/1 inbox.list",
            "/tasks/lists.d",
        ),
        parse_list("---\nname: Done\norder: 5\n---\ndone\n", "/tasks/lists.d/2 done.list", "/tasks/lists.d"),
    ]
}

fn files(entries: &[(&str, &str)]) -> Vec<(String, String)> {
    entries.iter().map(|(p, c)| (format!("{}/{}", ROOT, p), c.to_string())).collect()
}

fn snapshot(open: &[(&str, &str)], done: &[(&str, &str)]) -> Snapshot {
    TaskStore::new(ROOT).load_all(&files(open), &files(done))
}

fn index(names: &[(&str, u64)]) -> SnapshotIndex {
    SnapshotIndex::from_entries(names.iter().map(|(p, m)| (format!("{}/{}", ROOT, p), *m, 1)).collect())
}

fn open_with(lists: Vec<SmartList>, snap: Snapshot, today: &str) -> TuiSession {
    TuiSession::open(
        TaskStore::new(ROOT),
        snap,
        lists,
        index(&[]),
        today,
        20,
        0,
        50,
        ConfigPaths::from_root("/config"),
        "vi",
    )
}

fn open_session(open: &[(&str, &str)], done: &[(&str, &str)], today: &str) -> TuiSession {
    open_with(standard_lists(), snapshot(open, done), today)
}

#[test]
fn can_auto_refresh_is_false_in_welcome_mode() {
    let session = TuiSession::welcome("2026-03-30", ConfigPaths::from_root("/config"), "vi");
    assert!(!session.can_auto_refresh());
}

#[test]
fn welcome_session_starts_on_the_welcome_screen_without_a_store() {
    let session = TuiSession::welcome_default("2026-03-30", "vi");
    assert_eq!(session.app().mode, AppMode::Welcome);
    assert!(session.store_root().is_none());
    assert!(session.visible_tasks().is_empty());
}

#[test]
fn session_loads_snapshot_and_exposes_smart_filters() {
    let session = open_session(
        &[("a.txt", "Call Mom +Family @phone\n"), ("b.txt", "(A) File taxes due:2026-03-30 +Admin\n")],
        &[("done.txt.d/c.txt", "x 2026-03-29 Archive receipts +Admin @desk\n")],
        "2026-03-30",
    );
    assert_eq!(session.active_sidebar_item(), SidebarItem::SmartList(0));
    assert_eq!(session.visible_tasks().len(), 1);
    assert_eq!(session.visible_tasks()[0].task.description, "Call Mom +Family @phone");
    assert!(session.sidebar_items().contains(&SidebarItem::SmartList(1)));
}

#[test]
fn session_discovers_project_and_context_sidebar_items() {
    let session = open_session(
        &[("a.txt", "Call Mom +Family @phone\n"), ("b.txt", "Ship package +Errands @town\n")],
        &[],
        "2026-03-30",
    );
    let items = session.sidebar_items();
    assert!(items.contains(&SidebarItem::Project("+Errands".into())));
    assert!(items.contains(&SidebarItem::Project("+Family".into())));
    assert!(items.contains(&SidebarItem::Context("@phone".into())));
    assert!(items.contains(&SidebarItem::Context("@town".into())));
}

#[test]
fn sidebar_lists_projects_and_contexts_in_order_after_the_lists() {
    let session = open_session(
        &[("a.txt", "Call Mom +Family @phone\n"), ("b.txt", "Ship package +Errands @town\n")],
        &[],
        "2026-03-30",
    );
    assert_eq!(
        session.sidebar_items().to_vec(),
        vec![
            SidebarItem::SmartList(0),
            SidebarItem::SmartList(1),
            SidebarItem::Separator,
            SidebarItem::ProjectsHeader,
            SidebarItem::Project("+Errands".into()),
            SidebarItem::Project("+Family".into()),
            SidebarItem::Separator,
            SidebarItem::ContextsHeader,
            SidebarItem::Context("@phone".into()),
            SidebarItem::Context("@town".into()),
        ]
    );
}

#[test]
fn selecting_project_or_context_filters_visible_tasks() {
    let mut session = open_session(
        &[("a.txt", "Call Mom +Family @phone\n"), ("b.txt", "Ship package +Errands @town\n")],
        &[],
        "2026-03-30",
    );
    session.select_sidebar_item(SidebarItem::Project("+Family".into()));
    assert_eq!(session.visible_tasks().len(), 1);
    assert_eq!(session.visible_tasks()[0].task.description, "Call Mom +Family @phone");

    session.select_sidebar_item(SidebarItem::Context("@town".into()));
    assert_eq!(session.visible_tasks().len(), 1);
    assert_eq!(session.visible_tasks()[0].task.description, "Ship package +Errands @town");
}

#[test]
fn sidebar_focus_navigation_moves_between_smart_and_dynamic_items() {
    let mut session = open_session(
        &[("a.txt", "Call Mom +Family @phone\n"), ("b.txt", "Ship package +Errands @town\n")],
        &[],
        "2026-03-30",
    );
    session.app_mut().focus = FocusArea::Sidebar;
    session.dispatch_key("j");
    session.dispatch_key("j");
    assert_eq!(session.active_sidebar_item(), SidebarItem::Project("+Errands".into()));
    assert_eq!(session.visible_tasks()[0].task.description, "Ship package +Errands @town");
}

#[test]
fn search_filters_visible_tasks_within_the_active_sidebar_view() {
    let mut session = open_session(
        &[("a.txt", "Call Mom +Family\n"), ("b.txt", "Ship package +Errands\n"), ("c.txt", "Call Dad +Family\n")],
        &[],
        "2026-03-31",
    );
    session.select_sidebar_item(SidebarItem::Project("+Family".into()));
    session.dispatch_key("/");
    for key in ["C", "a", "l", "l", " ", "D", "a", "d"] {
        session.dispatch_key(key);
    }
    assert!(session.app().search_active);
    assert_eq!(session.app().search_query, "Call Dad");
    assert_eq!(session.visible_tasks().len(), 1);
    assert_eq!(session.visible_tasks()[0].task.raw, "Call Dad +Family");
}

#[test]
fn clearing_search_restores_the_unfiltered_active_view() {
    let mut session = open_session(&[("a.txt", "Call Mom +Family\n"), ("b.txt", "Call Dad +Family\n")], &[], "2026-03-31");
    session.select_sidebar_item(SidebarItem::Project("+Family".into()));
    session.dispatch_key("/");
    for key in ["M", "o", "m"] {
        session.dispatch_key(key);
    }
    assert_eq!(session.visible_tasks().len(), 1);
    for _ in 0..3 {
        session.dispatch_key("backspace");
    }
    assert_eq!(session.visible_tasks().len(), 2);
}

#[test]
fn search_next_and_previous_cycle_between_matches_only() {
    let mut session = open_session(
        &[("a.txt", "Call Mom\n"), ("b.txt", "Email Alex\n"), ("c.txt", "Call Dad\n")],
        &[],
        "2026-03-31",
    );
    session.app_mut().focus = FocusArea::TaskList;
    session.dispatch_key("/");
    for key in ["C", "a", "l", "l"] {
        session.dispatch_key(key);
    }
    assert_eq!(session.visible_tasks().len(), 2);
    let first = session.selected_task().unwrap().task.raw.clone();
    let second = if first == "Call Mom" { "Call Dad" } else { "Call Mom" };

    session.dispatch_key("esc");
    session.dispatch_key("n");
    assert_eq!(session.selected_task().unwrap().task.raw, second);
    session.dispatch_key("N");
    assert_eq!(session.selected_task().unwrap().task.raw, first);
}

#[test]
fn toggle_done_asks_to_mark_the_selected_open_task_done() {
    let mut session = open_session(&[("a.txt", "Call Mom\n")], &[], "2026-03-30");
    session.app_mut().focus = FocusArea::TaskList;
    let request = session.dispatch_key("x");
    match request {
        SessionRequest::ToggleDone { id, done, wanted } => {
            assert_eq!(id.path, "/tasks/a.txt");
            assert!(!done);
            assert_eq!(wanted.unwrap().raw.as_deref(), Some("Call Mom"));
        }
        _ => panic!("expected a request to mark the task done"),
    }

    session.refresh_to_target(
        snapshot(&[], &[("done.txt.d/a.txt", "x 2026-03-30 Call Mom\n")]),
        index(&[("done.txt.d/a.txt", 2)]),
        None,
    );
    session.select_sidebar_item(SidebarItem::SmartList(1));
    assert_eq!(session.visible_tasks().len(), 1);
    assert_eq!(session.visible_tasks()[0].task.description, "Call Mom");
}

#[test]
fn delete_confirmation_removes_the_selected_open_task() {
    let mut session = open_session(&[("a.txt", "Call Mom\n"), ("b.txt", "Ship package\n")], &[], "2026-03-31");
    session.app_mut().focus = FocusArea::TaskList;
    session.dispatch_key("D");
    assert!(session.app().confirm_delete);

    let request = session.dispatch_key("enter");
    let wanted = match request {
        SessionRequest::DeleteTask { id, wanted } => {
            assert_eq!(id.path, "/tasks/a.txt");
            wanted
        }
        _ => panic!("expected a delete request"),
    };
    session.finish_delete(snapshot(&[("b.txt", "Ship package\n")], &[]), index(&[("b.txt", 1)]), wanted);

    assert_eq!(session.visible_tasks().len(), 1);
    assert_eq!(session.selected_task().unwrap().task.raw, "Ship package");
    assert!(!session.app().confirm_delete);
}

#[test]
fn manual_refresh_picks_up_external_file_changes_and_preserves_selection() {
    let mut session = open_session(&[("a.txt", "Call Mom +Family\n")], &[], "2026-03-30");
    session.app_mut().focus = FocusArea::TaskList;
    assert!(matches!(session.dispatch_key("R"), SessionRequest::Refresh));
    session.refresh(
        snapshot(&[("a.txt", "Call Mom +Family\n"), ("b.txt", "Ship package +Errands\n")], &[]),
        index(&[("a.txt", 1), ("b.txt", 1)]),
    );
    assert_eq!(session.visible_tasks().len(), 2);
    assert_eq!(session.selected_task().unwrap().task.description, "Call Mom +Family");
}

#[test]
fn refresh_recovers_when_active_project_filter_disappears() {
    let mut session = open_session(&[("a.txt", "Call Mom +Family\n"), ("b.txt", "Plan trip +Travel\n")], &[], "2026-03-30");
    session.select_sidebar_item(SidebarItem::Project("+Travel".into()));
    assert_eq!(session.visible_tasks().len(), 1);

    session.refresh(snapshot(&[("a.txt", "Call Mom +Family\n")], &[]), index(&[("a.txt", 1)]));
    assert_eq!(session.active_sidebar_item(), SidebarItem::SmartList(0));
    assert!(!session.sidebar_items().contains(&SidebarItem::Project("+Travel".into())));
    assert_eq!(session.visible_tasks().len(), 1);
    assert_eq!(session.visible_tasks()[0].task.description, "Call Mom +Family");
}

#[test]
fn sidebar_items_include_separators_between_groups() {
    let session = open_session(&[("a.txt", "Call Mom +Family @phone\n")], &[], "2026-03-30");
    let items = session.sidebar_items();
    assert!(items.contains(&SidebarItem::Separator));
    let done_pos = items.iter().position(|item| *item == SidebarItem::SmartList(1)).unwrap();
    let projects_header_pos = items.iter().position(|item| *item == SidebarItem::ProjectsHeader).unwrap();
    assert_eq!(items[done_pos + 1], SidebarItem::Separator);
    assert_eq!(done_pos + 2, projects_header_pos);
}

#[test]
fn can_auto_refresh_is_false_when_editor_is_open() {
    let mut session = open_session(&[("a.txt", "Call Mom\n")], &[], "2026-03-30");
    assert!(session.can_auto_refresh());
    session.dispatch_key("a");
    assert!(!session.can_auto_refresh());
    session.dispatch_key("esc");
    assert!(session.can_auto_refresh());
}

#[test]
fn can_auto_refresh_is_false_when_delete_confirm_is_active() {
    let mut session = open_session(&[("a.txt", "Call Mom\n")], &[], "2026-03-30");
    session.app_mut().focus = FocusArea::TaskList;
    session.dispatch_key("D");
    assert!(!session.can_auto_refresh());
    session.dispatch_key("esc");
    assert!(session.can_auto_refresh());
}

#[test]
fn poll_refresh_is_noop_when_nothing_changed() {
    let session = TuiSession::open(
        TaskStore::new(ROOT),
        snapshot(&[("a.txt", "Call Mom\n")], &[]),
        standard_lists(),
        index(&[("a.txt", 7)]),
        "2026-03-30",
        20,
        0,
        50,
        ConfigPaths::from_root("/config"),
        "vi",
    );
    assert!(!session.poll_refresh(&index(&[("a.txt", 7)])));
    assert!(session.poll_refresh(&index(&[("a.txt", 8)])));
    assert!(session.poll_refresh(&index(&[("a.txt", 7), ("b.txt", 1)])));
}

#[test]
fn poll_refresh_is_noop_when_editor_is_open() {
    let mut session = open_session(&[("a.txt", "Call Mom\n")], &[], "2026-03-30");
    session.dispatch_key("a");
    assert!(!session.poll_refresh(&index(&[("a.txt", 9), ("b.txt", 1)])));
}

#[test]
fn view_overrides_cleared_on_sidebar_item_change() {
    let lists = vec![
        parse_list("---\nname: All\norder: 1\n---\nnot done\n", "/tasks/lists.d/all.list", "/tasks/lists.d"),
        parse_list("---\nname: Done\norder: 2\n---\ndone\n", "/tasks/lists.d/done.list", "/tasks/lists.d"),
    ];
    let mut session = open_with(lists, snapshot(&[("a.txt", "(A) Alpha\n")], &[]), "2026-03-30");
    session.set_group_override(Directive { field: Field::Priority, direction: Direction::Asc });
    session.toggle_reverse_sort();
    assert!(session.view_overrides().has_group_override());
    assert!(session.view_overrides().has_sort_override());

    session.select_sidebar_item(SidebarItem::SmartList(1));
    assert!(!session.view_overrides().has_group_override());
    assert!(!session.view_overrides().has_sort_override());
}

#[test]
fn view_overrides_sort_replaces_smart_list_sort() {
    let lists = vec![parse_list(
        "---\nname: All\norder: 1\n---\nnot done\nsort by description asc\n",
        "/tasks/lists.d/all.list",
        "/tasks/lists.d",
    )];
    let mut session = open_with(
        lists,
        snapshot(&[("a.txt", "(B) Alpha\n"), ("b.txt", "(A) Beta\n")], &[]),
        "2026-03-30",
    );
    assert_eq!(session.visible_tasks()[0].task.description, "Alpha");
    session.set_sort_override(Directive { field: Field::Priority, direction: Direction::Asc });
    assert_eq!(session.visible_tasks()[0].task.description, "Beta");
    assert_eq!(session.override_indicator(), " [sort: priority \u{2191}]");
    session.toggle_reverse_sort();
    assert_eq!(session.visible_tasks()[0].task.description, "Alpha");
    assert_eq!(session.override_indicator(), " [sort: priority \u{2193}]");
    session.clear_sort_override();
    assert_eq!(session.visible_tasks()[0].task.description, "Alpha");
    assert_eq!(session.override_indicator(), "");
}

#[test]
fn view_overrides_group_replaces_smart_list_group() {
    let lists = vec![parse_list("---\nname: All\norder: 1\n---\nnot done\n", "/tasks/lists.d/all.list", "/tasks/lists.d")];
    let mut session = open_with(
        lists,
        snapshot(&[("a.txt", "(A) Alpha\n"), ("b.txt", "(B) Beta\n"), ("c.txt", "Gamma\n")], &[]),
        "2026-03-30",
    );
    assert_eq!(session.visible_groups().len(), 1);
    session.set_group_override(Directive { field: Field::Priority, direction: Direction::Asc });
    let labels: Vec<&str> = session.visible_groups().iter().map(|g| g.label.as_str()).collect();
    assert_eq!(labels, vec!["Priority: A", "Priority: B", "No priority"]);
    assert_eq!(session.override_indicator(), " [group: priority]");
    let order: Vec<&str> = session.visible_tasks().iter().map(|t| t.task.description.as_str()).collect();
    assert_eq!(order, vec!["Alpha", "Beta", "Gamma"]);
    session.clear_group_override();
    assert_eq!(session.visible_groups().len(), 1);
}

#[test]
fn reversing_sort_reorders_groups_when_same_field() {
    let lists = vec![parse_list("---\nname: All\norder: 1\n---\nnot done\n", "/tasks/lists.d/all.list", "/tasks/lists.d")];
    let mut session = open_with(
        lists,
        snapshot(&[("a.txt", "(A) Alpha\n"), ("b.txt", "(B) Beta\n")], &[]),
        "2026-03-30",
    );
    session.set_group_override(Directive { field: Field::Priority, direction: Direction::Asc });
    session.set_sort_override(Directive { field: Field::Priority, direction: Direction::Asc });
    session.toggle_reverse_sort();
    let labels: Vec<&str> = session.visible_groups().iter().map(|g| g.label.as_str()).collect();
    assert_eq!(labels, vec!["Priority: B", "Priority: A"]);
    assert_eq!(session.visible_tasks()[0].task.description, "Beta");
}

#[test]
fn task_list_moves_clamp_at_both_ends() {
    let mut session = open_session(&[("a.txt", "Alpha\n"), ("b.txt", "Beta\n"), ("c.txt", "Gamma\n")], &[], "2026-03-30");
    session.app_mut().focus = FocusArea::TaskList;
    assert_eq!(session.selected_task().unwrap().task.raw, "Alpha");
    session.dispatch_key("k");
    assert_eq!(session.selected_task().unwrap().task.raw, "Alpha");
    session.dispatch_key("G");
    assert_eq!(session.selected_task().unwrap().task.raw, "Gamma");
    session.dispatch_key("j");
    assert_eq!(session.selected_task().unwrap().task.raw, "Gamma");
    session.dispatch_key("gg");
    assert_eq!(session.selected_task().unwrap().task.raw, "Alpha");
}

#[test]
fn mouse_selects_sidebar_items_and_tasks() {
    let mut session = open_session(&[("a.txt", "Alpha +P\n"), ("b.txt", "Beta\n")], &[], "2026-03-30");
    session.dispatch_mouse_task_select(1);
    assert_eq!(session.app().focus, FocusArea::TaskList);
    assert_eq!(session.selected_task().unwrap().task.raw, "Beta");
    session.dispatch_mouse_task_select(9);
    assert_eq!(session.selected_task().unwrap().task.raw, "Beta");

    let project = session.sidebar_items().iter().position(|i| *i == SidebarItem::Project("+P".into())).unwrap();
    session.dispatch_mouse_sidebar(project);
    assert_eq!(session.app().focus, FocusArea::Sidebar);
    assert_eq!(session.active_sidebar_item(), SidebarItem::Project("+P".into()));
    assert_eq!(session.sidebar_cursor_item(), Some(SidebarItem::Project("+P".into())));
    assert_eq!(session.visible_tasks().len(), 1);
}

#[test]
fn task_scroll_clamps_between_zero_and_the_hidden_lines() {
    let mut session = open_session(&[("a.txt", "Alpha\n")], &[], "2026-03-30");
    session.apply_task_scroll(3, 60, 20);
    assert_eq!(session.task_scroll_offset(), 3);
    session.apply_task_scroll(-2, 60, 20);
    assert_eq!(session.task_scroll_offset(), 1);
    session.apply_task_scroll(-10, 60, 20);
    assert_eq!(session.task_scroll_offset(), 0);
    session.apply_task_scroll(100, 50, 20);
    assert_eq!(session.task_scroll_offset(), 30);
}

#[test]
fn sidebar_width_stays_within_its_share_of_the_terminal() {
    let mut session = open_session(&[("a.txt", "Alpha\n")], &[], "2026-03-30");
    session.init_sidebar_width(100);
    assert_eq!(session.sidebar_width(), 20);
    session.apply_sidebar_width(80, 100);
    assert_eq!(session.sidebar_width(), 50);
    session.maybe_handle_resize(200);
    assert_eq!(session.sidebar_width(), 40);
    assert_eq!(session.sidebar_config(Some(200)).sidebar_width, 20);
}

#[test]
fn adding_a_task_in_a_project_view_appends_the_project() {
    let mut session = open_session(&[("a.txt", "Alpha +Home\n")], &[], "2026-03-30");
    session.select_sidebar_item(SidebarItem::Project("+Home".into()));
    session.dispatch_key("a");
    assert_eq!(session.app().editor.as_ref().unwrap().raw_line, " +Home");
    assert_eq!(session.app().editor.as_ref().unwrap().cursor_pos, 0);
}

#[test]
fn e_on_a_smart_list_asks_for_its_source_and_opens_the_viewer() {
    let mut session = open_session(&[("a.txt", "Alpha\n")], &[], "2026-03-30");
    assert_eq!(session.app().focus, FocusArea::Sidebar);
    match session.dispatch_key("e") {
        SessionRequest::OpenListViewer { list_name, source_path } => {
            assert_eq!(list_name, "Inbox");
            assert_eq!(source_path, "/tasks/lists.d/1 inbox.list");
            session.show_list_viewer(list_name, source_path, "no due\n".to_string());
        }
        _ => panic!("expected the viewer to be requested"),
    }
    let viewer = session.app().list_viewer.as_ref().unwrap();
    assert_eq!(viewer.list_name, "Inbox");
    assert_eq!(viewer.scroll_offset, 0);

    session.dispatch_key("e");
    assert_eq!(session.take_pending_external_edit().as_deref(), Some("/tasks/lists.d/1 inbox.list"));
    assert!(session.take_pending_external_edit().is_none());
}

#[test]
fn welcome_enter_asks_to_open_the_trimmed_directory() {
    let mut session = TuiSession::welcome("2026-03-30", ConfigPaths::from_root("/config"), "vi");
    for key in [" ", "/", "d", " "] {
        session.dispatch_key_with_paths(key);
    }
    match session.dispatch_key_with_paths("enter") {
        SessionRequest::OpenTaskDir(dir) => assert_eq!(dir, "/d"),
        _ => panic!("expected the directory to be opened"),
    }
    let config = session.welcome_config("/d");
    assert_eq!(config.task_dir, "/d");
    assert_eq!(config.sidebar_width, 20);

    let mut blank = TuiSession::welcome("2026-03-30", ConfigPaths::from_root("/config"), "vi");
    blank.dispatch_key_with_paths(" ");
    assert!(matches!(blank.dispatch_key_with_paths("enter"), SessionRequest::Nothing));
}

#[test]
fn reload_after_external_edit_takes_new_lists_and_viewer_source() {
    let mut session = open_session(&[("a.txt", "Call Mom\n")], &[], "2026-03-30");
    session.show_list_viewer(
        "Inbox".to_string(),
        "/tasks/lists.d/1 inbox.list".to_string(),
        "a\nb\nc\nd\n".to_string(),
    );
    session.app_mut().list_viewer.as_mut().unwrap().scroll_offset = 3;
    let lists = vec![parse_list(
        "---\nname: Everything\n---\n",
        "/tasks/lists.d/1 all.list",
        "/tasks/lists.d",
    )];
    session.reload_after_external_edit(Some(lists), Some("one\ntwo\n".to_string()));
    assert_eq!(session.smart_lists().len(), 1);
    assert_eq!(session.smart_lists()[0].name, "Everything");
    let viewer = session.app().list_viewer.as_ref().unwrap();
    assert_eq!(viewer.content, "one\ntwo\n");
    assert_eq!(viewer.scroll_offset, 1);
}
