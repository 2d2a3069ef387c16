use ttd::store::{EditSave, ErrorKind, TaskId, TaskStore};

fn id(path: &str, line_index: usize) -> TaskId {
    TaskId {
        path: path.to_string(),
        line_index,
    }
}

#[test]
fn unchanged_line_is_saved_in_place() {
    let store = TaskStore::new("/tasks");
    let plan = store
        .plan_edit_save(&id("/tasks/a.txt", 0), "call mom", "call mom today", false, "call mom\n")
        .unwrap();
    match plan {
        EditSave::Save {
            normalization,
            destination,
            contents,
        } => {
            assert!(normalization.writes.is_empty());
            assert_eq!(destination, "/tasks/a.txt");
            assert_eq!(contents, "call mom today\n");
        }
        EditSave::Conflict { .. } => panic!("expected a save"),
    }
}

#[test]
fn changed_line_is_a_conflict_unless_overwritten() {
    let store = TaskStore::new("/tasks");
    match store
        .plan_edit_save(&id("/tasks/a.txt", 0), "call mom", "call dad", false, "call grandma\n")
        .unwrap()
    {
        EditSave::Conflict { external_raw } => assert_eq!(external_raw, "call grandma"),
        EditSave::Save { .. } => panic!("expected a conflict"),
    }
    let overwrite = store
        .plan_edit_save(&id("/tasks/a.txt", 0), "call mom", "call dad", true, "call grandma\n")
        .unwrap();
    assert!(matches!(overwrite, EditSave::Save { .. }));
}

#[test]
fn line_marked_done_goes_to_the_done_directory() {
    let store = TaskStore::new("/tasks");
    match store
        .plan_edit_save(&id("/tasks/a.txt", 0), "pay", "x 2026-03-01 pay", false, "pay\n")
        .unwrap()
    {
        EditSave::Save { destination, .. } => assert_eq!(destination, "/tasks/done.txt.d/a.txt"),
        EditSave::Conflict { .. } => panic!("expected a save"),
    }
}

#[test]
fn edit_save_refuses_bad_input_and_missing_lines() {
    let store = TaskStore::new("/tasks");
    let e = store
        .plan_edit_save(&id("/tasks/a.txt", 0), "a", "two\nlines", false, "a\n")
        .unwrap_err();
    assert_eq!(e.kind, ErrorKind::InvalidInput);
    let e = store
        .plan_edit_save(&id("/elsewhere/a.txt", 0), "a", "b", false, "a\n")
        .unwrap_err();
    assert_eq!(e.kind, ErrorKind::InvalidInput);
    let e = store
        .plan_edit_save(&id("/tasks/a.txt", 3), "a", "b", false, "a\n")
        .unwrap_err();
    assert_eq!(e.kind, ErrorKind::NotFound);
}

#[test]
fn done_and_restored_lines_keep_the_priority() {
    let done = ttd::store::format_done_line("(A) Call Mom", "2026-03-29").unwrap();
    assert_eq!(done, "x 2026-03-29 Call Mom pri:A");
    assert_eq!(ttd::store::format_restored_line(&done).unwrap(), "(A) Call Mom");
}

#[test]
fn mark_done_plan_moves_the_file_and_rewrites_its_line() {
    let store = TaskStore::new("/tasks");
    let plan = store
        .plan_mark_done(&id("/tasks/todo.txt", 0), "2026-03-29", "(A) Call Mom\n")
        .unwrap();
    assert_eq!(plan.destination, "/tasks/done.txt.d/todo.txt");
    assert_eq!(plan.update.unwrap(), "x 2026-03-29 Call Mom pri:A\n");
    let back = store
        .plan_restore(&id("/tasks/done.txt.d/todo.txt", 0), "x 2026-03-29 Call Mom pri:A\n")
        .unwrap();
    assert_eq!(back.destination, "/tasks/todo.txt");
    assert_eq!(back.update.unwrap(), "(A) Call Mom\n");
}
