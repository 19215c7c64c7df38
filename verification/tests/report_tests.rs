//! Tests of the report helpers: size rendering, ranking, the global
//! histogram and the advisory flags.

use disk_usage::{
    DirInfo, FsNode, compute_tips, format_size, global_histogram, scan_directory, sort_desc,
};

fn file(path: &str, name: &str, size: u64) -> FsNode {
    FsNode::File { path: path.to_string(), name: name.to_string(), size: Some(size) }
}

fn dir(path: &str, entries: Vec<FsNode>) -> FsNode {
    FsNode::Dir { path: Some(path.to_string()), entries: Some(entries) }
}

fn scanned_dir(path: &str, entries: Vec<FsNode>) -> (String, DirInfo) {
    let root = dir(path, entries);
    let (info, _) = scan_directory(&root).unwrap();
    (path.to_string(), info)
}

#[test]
fn format_size_bytes() {
    assert_eq!(format_size(0), "0 Б");
    assert_eq!(format_size(500), "500 Б");
    assert_eq!(format_size(1023), "1023 Б");
}

#[test]
fn format_size_kib_one_decimal() {
    assert_eq!(format_size(1024), "1.0 КБ");
    assert_eq!(format_size(1536), "1.5 КБ");
    assert_eq!(format_size(10240), "10.0 КБ");
}

#[test]
fn format_size_rounds_ties_to_even() {
    // 1280 / 1024 is exactly 1.25 and 3840 / 1024 exactly 3.75
    assert_eq!(format_size(1280), "1.2 КБ");
    assert_eq!(format_size(3840), "3.8 КБ");
}

#[test]
fn format_size_mib_and_gib() {
    assert_eq!(format_size(1048576), "1.0 МБ");
    assert_eq!(format_size(1572864), "1.5 МБ");
    assert_eq!(format_size(1073741824), "1.00 ГБ");
    assert_eq!(format_size(1610612736), "1.50 ГБ");
    assert_eq!(format_size(u64::MAX), "17179869184.00 ГБ");
}

#[test]
fn sort_desc_ranks_by_bytes_then_position() {
    let v = vec![(5u64, 0usize), (7, 1), (5, 2), (9, 3)];
    let r = sort_desc(v);
    assert_eq!(r, vec![(9u64, 3usize), (7, 1), (5, 0), (5, 2)]);
}

#[test]
fn sort_desc_empty_and_singleton() {
    assert_eq!(sort_desc(Vec::new()), Vec::new());
    assert_eq!(sort_desc(vec![(4u64, 0usize)]), vec![(4u64, 0usize)]);
}

#[test]
fn global_histogram_sums_registered_histograms() {
    let root = dir(
        "/r",
        vec![
            dir("/r/a", vec![file("/r/a/x.txt", "x.txt", 10), file("/r/a/y.log", "y.log", 4)]),
            dir("/r/b", vec![file("/r/b/z.txt", "z.txt", 7)]),
        ],
    );
    let (_, reg) = scan_directory(&root).unwrap();
    let total = global_histogram(&reg);
    assert_eq!(total.get(&"txt".to_string()), Some(17));
    assert_eq!(total.get(&"log".to_string()), Some(4));
    assert_eq!(total.get(&"".to_string()), None);
}

#[test]
fn tips_all_quiet_on_small_data() {
    let dirs = vec![scanned_dir("/r/docs", vec![file("/r/docs/a.txt", "a.txt", 1000)])];
    let largest = vec![("/r/docs/a.txt".to_string(), 1000u64)];
    let flags = compute_tips(&dirs, &largest);
    assert!(!flags.big_top_dir);
    assert!(!flags.large_logs);
    assert!(!flags.large_media);
    assert!(!flags.downloads);
    assert!(!flags.big_file);
}

#[test]
fn tips_fire_on_thresholds() {
    let big = 2 * 1024 * 1024 * 1024u64;
    let dirs = vec![
        scanned_dir("/var/Logs", vec![file("/var/Logs/app.log", "app.log", big)]),
        scanned_dir("/home/Downloads", vec![file("/home/Downloads/v.MP4", "v.MP4", big)]),
    ];
    let largest = vec![("/var/Logs/app.log".to_string(), big)];
    let flags = compute_tips(&dirs, &largest);
    assert!(flags.big_top_dir);
    assert!(flags.large_logs);
    assert!(flags.large_media);
    assert!(flags.downloads);
    assert!(flags.big_file);
}

#[test]
fn tips_ignore_directories_past_the_top_five() {
    let big = 2 * 1024 * 1024 * 1024u64;
    let mut dirs = Vec::new();
    for i in 0..5 {
        dirs.push(scanned_dir(&format!("/r/d{}", i), vec![file("/r/f", "f", 10)]));
    }
    dirs.push(scanned_dir("/r/Downloads", vec![file("/r/Downloads/x", "x", big)]));
    let flags = compute_tips(&dirs, &Vec::new());
    assert!(!flags.downloads);
}

#[test]
fn dir_info_new_is_empty() {
    let info = DirInfo::new();
    assert_eq!(info.size, 0);
    assert_eq!(info.file_count, 0);
    assert!(info.largest_file.is_none());
    assert_eq!(info.file_types.entries.len(), 0);
}
