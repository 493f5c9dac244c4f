use std::collections::BTreeSet;
use wahoo::sink::{MigrateFileInfo, MigratePlan, Sink, SourceFile};

fn listing(items: &[(&str, u64)]) -> Vec<SourceFile> {
    items
        .iter()
        .map(|(p, m)| SourceFile { path: p.to_string(), modified: *m })
        .collect()
}

fn sorted(v: &[String]) -> Vec<String> {
    let mut v = v.to_vec();
    v.sort();
    v
}

/// Applies a plan to a model of the output tree's files.
fn apply(tree: &mut BTreeSet<String>, plan: &MigratePlan) {
    for f in &plan.remove_files {
        tree.remove(f);
    }
    for d in &plan.remove_folders {
        let prefix = format!("{d}/");
        tree.retain(|f| !f.starts_with(&prefix));
    }
    for f in &plan.copy_files {
        tree.insert(f.clone());
    }
}

#[test]
fn first_pass_copies_everything() {
    let mut sink = Sink::new();
    let plan = sink.migrate(&listing(&[("a.txt", 1), ("img/b.png", 2), ("img/c.png", 3)]));
    assert_eq!(sorted(&plan.copy_files), vec!["a.txt", "img/b.png", "img/c.png"]);
    assert_eq!(plan.create_folders, vec!["img".to_string()]);
    assert!(plan.remove_files.is_empty());
    assert!(plan.remove_folders.is_empty());
    assert_eq!(sink.inner().scan, 1);
    assert_eq!(sink.inner().migrate_files.get("img/b.png").copied(), Some(MigrateFileInfo::new(2, 1)));
}

#[test]
fn convergence_over_passes() {
    let mut sink = Sink::new();
    let mut tree = BTreeSet::new();
    let passes = [
        listing(&[("a.txt", 1), ("d/b.txt", 1), ("d/e/c.txt", 1)]),
        listing(&[("d/e/c.txt", 1), ("f/g.txt", 5)]),
        listing(&[("d/e/c.txt", 2), ("a.txt", 7)]),
        listing(&[]),
    ];
    for list in passes.iter() {
        let plan = sink.migrate(list);
        apply(&mut tree, &plan);
        let expected: BTreeSet<String> = list.iter().map(|s| s.path.clone()).collect();
        assert_eq!(tree, expected);
    }
}

#[test]
fn unchanged_listing_copies_nothing() {
    let mut sink = Sink::new();
    let list = listing(&[("a.txt", 1), ("d/b.txt", 4)]);
    let first = sink.migrate(&list);
    assert_eq!(first.copy_files.len(), 2);
    let second = sink.migrate(&list);
    assert!(second.copy_files.is_empty());
    assert!(second.create_folders.is_empty());
    assert!(second.remove_files.is_empty());
    assert!(second.remove_folders.is_empty());
}

#[test]
fn changed_stamp_is_copied_again() {
    let mut sink = Sink::new();
    sink.migrate(&listing(&[("a.txt", 1), ("b.txt", 1)]));
    let plan = sink.migrate(&listing(&[("a.txt", 2), ("b.txt", 1)]));
    assert_eq!(plan.copy_files, vec!["a.txt".to_string()]);
}

#[test]
fn missing_file_is_evicted() {
    let mut sink = Sink::new();
    sink.migrate(&listing(&[("a.txt", 1), ("d/b.txt", 1)]));
    let plan = sink.migrate(&listing(&[("a.txt", 1)]));
    assert_eq!(plan.remove_files, vec!["d/b.txt".to_string()]);
    assert_eq!(plan.remove_folders, vec!["d".to_string()]);
    assert!(!sink.inner().migrate_files.contains_key("d/b.txt"));
    assert!(!sink.inner().migrate_folders.contains_key("d"));
}

#[test]
fn folder_holding_listed_files_stays() {
    let mut sink = Sink::new();
    sink.migrate(&listing(&[("a/f.txt", 1), ("a/b/x.txt", 1)]));
    let plan = sink.migrate(&listing(&[("a/b/x.txt", 1)]));
    assert_eq!(plan.remove_files, vec!["a/f.txt".to_string()]);
    assert!(plan.remove_folders.is_empty());
    assert!(plan.create_folders.is_empty());
    assert!(plan.copy_files.is_empty());
    assert!(sink.inner().migrate_folders.contains_key("a"));
    let later = sink.migrate(&listing(&[("c.txt", 1)]));
    assert_eq!(sorted(&later.remove_folders), vec!["a", "a/b"]);
}

#[test]
fn forgotten_file_is_copied_next_pass() {
    let mut sink = Sink::new();
    let list = listing(&[("a.txt", 1)]);
    sink.migrate(&list);
    sink.forget("a.txt");
    let plan = sink.migrate(&list);
    assert_eq!(plan.copy_files, vec!["a.txt".to_string()]);
}

#[test]
fn ready_only_once_and_updates_cleared() {
    let mut sink = Sink::new();
    assert!(sink.init_state());
    assert!(!sink.init_state());
    sink.migrate(&listing(&[("x/a.txt", 1)]));
    assert!(sink.inner().updates.files.contains("x/a.txt"));
    assert!(sink.inner().updates.folders.contains("x"));
    sink.begin();
    assert!(sink.inner().updates.files.is_empty());
    assert!(sink.inner().updates.folders.is_empty());
    sink.finish();
}
