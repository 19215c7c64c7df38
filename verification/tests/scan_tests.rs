//! Scenario tests for the walker: sums, counts, largest-file tie-breaks,
//! the extension histogram, empty and non-directory targets, failure
//! propagation and registry contents.

use disk_usage::{FsNode, ScanError, scan_directory};

fn file(path: &str, name: &str, size: u64) -> FsNode {
    FsNode::File { path: path.to_string(), name: name.to_string(), size: Some(size) }
}

fn unreadable_file(path: &str, name: &str) -> FsNode {
    FsNode::File { path: path.to_string(), name: name.to_string(), size: None }
}

fn dir(path: &str, entries: Vec<FsNode>) -> FsNode {
    FsNode::Dir { path: Some(path.to_string()), entries: Some(entries) }
}

fn unlistable_dir(path: &str) -> FsNode {
    FsNode::Dir { path: Some(path.to_string()), entries: None }
}

#[test]
fn sum_invariant_nested_tree() {
    let root = dir(
        "/r",
        vec![
            file("/r/a", "a", 11),
            dir(
                "/r/s1",
                vec![
                    file("/r/s1/b", "b", 7),
                    dir("/r/s1/s2", vec![file("/r/s1/s2/c", "c", 5), file("/r/s1/s2/d", "d", 2)]),
                ],
            ),
            file("/r/e", "e", 3),
        ],
    );
    let (info, reg) = scan_directory(&root).unwrap();
    assert_eq!(info.size, 11 + 7 + 5 + 2 + 3);
    let s2 = reg.get(&"/r/s1/s2".to_string()).unwrap();
    assert_eq!(s2.size, 7);
    let s1 = reg.get(&"/r/s1".to_string()).unwrap();
    // the subdirectory's total plus its own immediate file
    assert_eq!(s1.size, 7 + 7);
}

#[test]
fn count_invariant_nested_tree() {
    let root = dir(
        "/r",
        vec![
            file("/r/a", "a", 1),
            unreadable_file("/r/x", "x"),
            dir("/r/s", vec![file("/r/s/b", "b", 1), file("/r/s/c", "c", 1)]),
        ],
    );
    let (info, reg) = scan_directory(&root).unwrap();
    assert_eq!(info.file_count, 3);
    assert_eq!(reg.get(&"/r/s".to_string()).unwrap().file_count, 2);
}

#[test]
fn unreadable_file_contributes_nothing() {
    let root = dir("/r", vec![file("/r/a.txt", "a.txt", 10), unreadable_file("/r/b.txt", "b.txt")]);
    let (info, _) = scan_directory(&root).unwrap();
    assert_eq!(info.size, 10);
    assert_eq!(info.file_count, 1);
    assert_eq!(info.file_types.get(&"txt".to_string()), Some(10));
}

#[test]
fn largest_file_tie_keeps_first_in_traversal_order() {
    let root = dir(
        "/r",
        vec![
            file("/r/small", "small", 10),
            dir("/r/d1", vec![file("/r/d1/first50", "first50", 50)]),
            dir("/r/d2", vec![file("/r/d2/second50", "second50", 50)]),
            file("/r/tiny", "tiny", 3),
        ],
    );
    let (info, _) = scan_directory(&root).unwrap();
    let (path, size) = info.largest_file.unwrap();
    assert_eq!(size, 50);
    assert_eq!(path, "/r/d1/first50");
}

#[test]
fn largest_file_strictly_larger_replaces() {
    let root = dir("/r", vec![file("/r/a", "a", 10), file("/r/b", "b", 11)]);
    let (info, _) = scan_directory(&root).unwrap();
    assert_eq!(info.largest_file.unwrap(), ("/r/b".to_string(), 11));
}

#[test]
fn histogram_lowercases_and_merges_across_depth() {
    let root = dir(
        "/r",
        vec![
            file("/r/a.txt", "a.txt", 100),
            dir("/r/d", vec![file("/r/d/b.TXT", "b.TXT", 50), file("/r/d/c", "c", 10)]),
        ],
    );
    let (info, _) = scan_directory(&root).unwrap();
    assert_eq!(info.file_types.get(&"txt".to_string()), Some(150));
    assert_eq!(info.file_types.get(&"".to_string()), Some(10));
    assert_eq!(info.file_types.get(&"TXT".to_string()), None);
    assert_eq!(info.file_types.entries.len(), 2);
}

#[test]
fn extension_is_portion_after_last_dot() {
    let root = dir(
        "/r",
        vec![
            file("/r/archive.TAR.GZ", "archive.TAR.GZ", 4),
            file("/r/.profile", ".profile", 2),
            file("/r/trailing.", "trailing.", 1),
        ],
    );
    let (info, _) = scan_directory(&root).unwrap();
    assert_eq!(info.file_types.get(&"gz".to_string()), Some(4));
    // a leading dot opens no extension, a trailing dot yields an empty one
    assert_eq!(info.file_types.get(&"".to_string()), Some(3));
}

#[test]
fn empty_directory_yields_empty_aggregate() {
    let root = dir("/r", vec![]);
    let (info, reg) = scan_directory(&root).unwrap();
    assert_eq!(info.size, 0);
    assert_eq!(info.file_count, 0);
    assert!(info.largest_file.is_none());
    assert_eq!(info.file_types.entries.len(), 0);
    assert_eq!(reg.len(), 0);
}

#[test]
fn non_directory_target_yields_empty_aggregate() {
    let root = file("/r/plain", "plain", 123);
    let (info, reg) = scan_directory(&root).unwrap();
    assert_eq!(info.size, 0);
    assert_eq!(info.file_count, 0);
    assert!(info.largest_file.is_none());
    assert_eq!(info.file_types.entries.len(), 0);
    assert_eq!(reg.len(), 0);
}

#[test]
fn unlistable_directory_aborts_whole_scan() {
    let root = dir(
        "/r",
        vec![dir("/r/ok", vec![file("/r/ok/a", "a", 5)]), unlistable_dir("/r/denied")],
    );
    let out = scan_directory(&root);
    assert_eq!(out.unwrap_err(), ScanError::DirectoryUnlistable);
}

#[test]
fn unlistable_root_aborts() {
    let root = FsNode::Dir { path: Some("/r".to_string()), entries: None };
    assert_eq!(scan_directory(&root).unwrap_err(), ScanError::DirectoryUnlistable);
}

#[test]
fn registry_holds_subdirectory_but_not_root() {
    let root = dir("/r", vec![dir("/r/a", vec![file("/r/a/f", "f", 9)])]);
    let (_, reg) = scan_directory(&root).unwrap();
    assert!(reg.get(&"/r/a".to_string()).is_some());
    assert!(reg.get(&"/r".to_string()).is_none());
    assert_eq!(reg.len(), 1);
}

#[test]
fn registry_skips_unrepresentable_path_but_merges_totals() {
    let hidden = FsNode::Dir {
        path: None,
        entries: Some(vec![file("/r/?1/f", "f", 21)]),
    };
    let root = FsNode::Dir {
        path: Some("/r".to_string()),
        entries: Some(vec![hidden]),
    };
    let (info, reg) = scan_directory(&root).unwrap();
    assert_eq!(info.size, 21);
    assert_eq!(reg.len(), 0);
}

#[test]
fn registry_records_nested_directories() {
    let root = dir(
        "/r",
        vec![dir("/r/a", vec![dir("/r/a/b", vec![file("/r/a/b/f", "f", 2)])])],
    );
    let (_, reg) = scan_directory(&root).unwrap();
    assert_eq!(reg.len(), 2);
    assert_eq!(reg.get(&"/r/a/b".to_string()).unwrap().size, 2);
    assert_eq!(reg.get(&"/r/a".to_string()).unwrap().size, 2);
}

#[test]
fn registry_keeps_last_aggregate_on_path_collision() {
    let root = dir(
        "/r",
        vec![
            dir("/r/same", vec![file("/r/same/a", "a", 1)]),
            dir("/r/same", vec![file("/r/same/b", "b", 2)]),
        ],
    );
    let (info, reg) = scan_directory(&root).unwrap();
    assert_eq!(info.size, 3);
    assert_eq!(reg.len(), 1);
    assert_eq!(reg.get(&"/r/same".to_string()).unwrap().size, 2);
}
