use ttd::smartlist::{is_list_file, list_files_in_order};

fn owned(v: &[&str]) -> Vec<String> {
    v.iter().map(|s| s.to_string()).collect()
}

#[test]
fn list_extension_is_recognised() {
    assert!(is_list_file("/lists/1 inbox.list"));
    assert!(is_list_file("today.list"));
    assert!(!is_list_file("/lists/notes.txt"));
    assert!(!is_list_file("/lists/list"));
    assert!(!is_list_file("/lists/archive.list.bak"));
}

#[test]
fn list_files_are_filtered_and_sorted_by_directory_then_name() {
    let paths = owned(&[
        "/l/work/b.list",
        "/l/readme.md",
        "/l/z.list",
        "/l/work/a.list",
        "/l/a.list",
        "/l/home/c.list",
    ]);
    let got = list_files_in_order(paths);
    assert_eq!(
        got,
        owned(&[
            "/l/a.list",
            "/l/z.list",
            "/l/home/c.list",
            "/l/work/a.list",
            "/l/work/b.list",
        ])
    );
}

#[test]
fn list_files_of_an_empty_walk_are_empty() {
    assert!(list_files_in_order(Vec::new()).is_empty());
    assert!(list_files_in_order(owned(&["/l/x.txt"])).is_empty());
}
