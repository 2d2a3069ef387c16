use std::collections::BTreeSet;

use ttd::refresh::{RefreshAction, SnapshotIndex};

fn index(entries: &[(&str, u64, u64)]) -> SnapshotIndex {
    SnapshotIndex::from_entries(
        entries
            .iter()
            .map(|(p, len, stamp)| (p.to_string(), *len, *stamp))
            .collect(),
    )
}

#[test]
fn diff_detects_created_updated_and_deleted_files() {
    let before = index(&[("a.txt", 10_u64, 100_u64), ("b.txt", 10_u64, 100_u64)]);
    let after = index(&[("b.txt", 12_u64, 120_u64), ("c.txt", 5_u64, 50_u64)]);

    let actions: BTreeSet<RefreshAction> = before.diff(&after).into_iter().collect();

    assert!(actions.contains(&RefreshAction::Deleted("a.txt".to_string())));
    assert!(actions.contains(&RefreshAction::Updated("b.txt".to_string())));
    assert!(actions.contains(&RefreshAction::Created("c.txt".to_string())));
}

#[test]
fn has_changes_returns_false_for_identical_indices() {
    let a = index(&[("a.txt", 10_u64, 100_u64), ("b.txt", 20_u64, 200_u64)]);
    let b = index(&[("a.txt", 10_u64, 100_u64), ("b.txt", 20_u64, 200_u64)]);

    assert!(!a.has_changes(&b));
}

#[test]
fn has_changes_returns_true_after_file_mutation() {
    let before = index(&[("a.txt", 10_u64, 100_u64)]);
    let after = index(&[("a.txt", 12_u64, 110_u64)]);

    assert!(before.has_changes(&after));
}

#[test]
fn has_changes_detects_new_file() {
    let before = index(&[("a.txt", 10_u64, 100_u64)]);
    let after = index(&[("a.txt", 10_u64, 100_u64), ("b.txt", 5_u64, 50_u64)]);

    assert!(before.has_changes(&after));
}

#[test]
fn has_changes_detects_deleted_file() {
    let before = index(&[("a.txt", 10_u64, 100_u64), ("b.txt", 5_u64, 50_u64)]);
    let after = index(&[("a.txt", 10_u64, 100_u64)]);

    assert!(before.has_changes(&after));
}

#[test]
fn merge_combines_two_indices() {
    let a = index(&[("root/a.txt", 10_u64, 100_u64)]);
    let b = index(&[("done/b.txt", 5_u64, 50_u64)]);

    let merged = a.merge(&b);

    assert!(merged.has_path("root/a.txt"));
    assert!(merged.has_path("done/b.txt"));
}

#[test]
fn diff_orders_created_then_updated_then_deleted() {
    let before = index(&[("z.txt", 1, 1), ("m.txt", 1, 1), ("a.txt", 1, 1)]);
    let after = index(&[("m.txt", 2, 2), ("b.txt", 1, 1), ("a.txt", 1, 1)]);

    assert_eq!(
        before.diff(&after),
        vec![
            RefreshAction::Created("b.txt".to_string()),
            RefreshAction::Updated("m.txt".to_string()),
            RefreshAction::Deleted("z.txt".to_string()),
        ]
    );
}

#[test]
fn identical_indices_have_no_diff() {
    let a = index(&[("a.txt", 1, 2)]);
    let b = index(&[("a.txt", 1, 2)]);

    assert!(a.diff(&b).is_empty());
}

#[test]
fn later_entry_for_a_path_wins() {
    let a = index(&[("a.txt", 1, 1), ("a.txt", 2, 2)]);
    let b = index(&[("a.txt", 2, 2)]);

    assert!(!a.has_changes(&b));
}

#[test]
fn merge_prefers_the_second_index() {
    let a = index(&[("a.txt", 1, 1)]);
    let b = index(&[("a.txt", 2, 2)]);
    let c = index(&[("a.txt", 2, 2)]);

    assert!(!a.merge(&b).has_changes(&c));
}

#[test]
fn diff_orders_paths_by_components() {
    let before = SnapshotIndex::from_entries(vec![
        ("r/a-b.txt".to_string(), 1, 1),
        ("r/a/x.txt".to_string(), 1, 1),
    ]);
    let after = SnapshotIndex::from_entries(vec![]);
    assert_eq!(
        before.diff(&after),
        vec![
            RefreshAction::Deleted("r/a/x.txt".to_string()),
            RefreshAction::Deleted("r/a-b.txt".to_string()),
        ]
    );
}

#[test]
fn repeated_path_keeps_its_last_entry() {
    let repeated = index(&[("a.txt", 1_u64, 1_u64), ("b.txt", 3_u64, 3_u64), ("a.txt", 2_u64, 2_u64)]);
    let single = index(&[("b.txt", 3_u64, 3_u64), ("a.txt", 2_u64, 2_u64)]);

    assert!(repeated.diff(&single).is_empty());
    assert!(single.diff(&repeated).is_empty());
}
