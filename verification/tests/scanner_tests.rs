use mymediatrail::scanner::{
    discovery_event, is_supported_lowercase, media_extension, should_report_progress, FileStep, KnownItem,
    ScanSession,
};

fn item(id: &str, path: &str, size: i64, mtime: Option<&str>) -> KnownItem {
    item_with_status(id, path, size, mtime, "ready")
}

fn item_with_status(id: &str, path: &str, size: i64, mtime: Option<&str>, status: &str) -> KnownItem {
    KnownItem {
        id: id.to_string(),
        relative_path: path.to_string(),
        size_bytes: size,
        mtime_utc: mtime.map(|m| m.to_string()),
        metadata_status: status.to_string(),
    }
}

fn walk(files: &[(&str, u64)]) -> Vec<(String, u64)> {
    files.iter().map(|(p, n)| (p.to_string(), *n)).collect()
}

#[test]
fn media_extensions() {
    assert_eq!(media_extension("MKV"), Some("mkv".to_string()));
    assert_eq!(media_extension("webm"), Some("webm".to_string()));
    assert_eq!(media_extension("Mp4"), Some("mp4".to_string()));
    assert_eq!(media_extension("txt"), None);
    assert_eq!(media_extension("mp3"), None);
    assert!(is_supported_lowercase("m4v"));
    assert!(!is_supported_lowercase("M4V"));
}

#[test]
fn progress_cadence() {
    let reported: Vec<usize> = (0..35).filter(|&n| should_report_progress(n)).collect();
    assert_eq!(reported, vec![0, 1, 2, 3, 4, 5, 6, 7, 8, 9, 10, 20, 30]);
    let e = discovery_event();
    assert_eq!(e.files_scanned, 0);
    assert_eq!(e.current_file, "Discovering directory tree structure...");
}

#[test]
fn scan_classifies_files() {
    let known = vec![
        item("i1", "a.mkv", 100, Some("t1")),
        item("i2", "b.mkv", 200, Some("t2")),
        item("i3", "old/c.mkv", 300, Some("t3")),
        item("i4", "gone.mkv", 400, None),
    ];
    let files = walk(&[("a.mkv", 100), ("b.mkv", 250), ("empty.mkv", 0), ("new/c.mkv", 300), ("d.mkv", 10), ("e.mkv", 10)]);
    let mut s = ScanSession::new("root".to_string(), known, files);

    // unchanged
    assert!(matches!(s.begin_file("a.mkv", 100, &Some("t1".to_string())), FileStep::Unchanged));
    // changed size
    match s.begin_file("b.mkv", 250, &Some("t2".to_string())) {
        FileStep::Refresh(id) => assert_eq!(id, "i2"),
        other => panic!("{:?}", other),
    }
    s.finish_file(true);
    // empty file
    assert!(matches!(s.begin_file("empty.mkv", 0, &None), FileStep::Skipped));
    // moved file: same content as old/c.mkv, whose path has not been seen
    assert!(matches!(s.begin_file("new/c.mkv", 300, &Some("t3".to_string())), FileStep::Lookup));
    match s.settle_lookup(true, Some(("i3".to_string(), "old/c.mkv".to_string()))) {
        FileStep::Moved(id) => assert_eq!(id, "i3"),
        other => panic!("{:?}", other),
    }
    s.finish_file(true);
    // new file
    assert!(matches!(s.begin_file("d.mkv", 10, &None), FileStep::Lookup));
    assert!(matches!(s.settle_lookup(true, None), FileStep::New));
    s.finish_file(false);
    // unreadable file
    assert!(matches!(s.begin_file("e.mkv", 10, &None), FileStep::Lookup));
    assert!(matches!(s.settle_lookup(false, None), FileStep::Skipped));
    assert_eq!(s.files_scanned(), 6);

    let (stats, missing) = s.finish();
    assert_eq!(stats.root_id, "root");
    assert_eq!(stats.new_items, 1);
    assert_eq!(stats.changed_items, 2);
    assert_eq!(stats.skipped_items, 3);
    assert_eq!(stats.missing_items, 1);
    assert_eq!(missing, vec!["i4".to_string()]);
}

#[test]
fn copy_of_already_seen_file_is_new() {
    let mut s = ScanSession::new("r".to_string(), vec![item("i1", "a.mkv", 5, None)], walk(&[("a.mkv", 5), ("copy/a.mkv", 5)]));
    assert!(matches!(s.begin_file("a.mkv", 5, &None), FileStep::Unchanged));
    assert!(matches!(s.begin_file("copy/a.mkv", 5, &None), FileStep::Lookup));
    assert!(matches!(s.settle_lookup(true, Some(("i1".to_string(), "a.mkv".to_string()))), FileStep::New));
    s.finish_file(true);
    let (stats, missing) = s.finish();
    assert_eq!(stats.new_items, 1);
    assert_eq!(stats.missing_items, 0);
    assert!(missing.is_empty());
}

#[test]
fn later_known_item_with_same_path_wins() {
    let s = ScanSession::new(
        "r".to_string(),
        vec![item("old", "a.mkv", 1, None), item("b", "b.mkv", 1, None), item("new", "a.mkv", 1, None)],
        vec![],
    );
    let (stats, mut missing) = s.finish();
    missing.sort();
    assert_eq!(stats.missing_items, 2);
    assert_eq!(missing, vec!["b".to_string(), "new".to_string()]);
}

#[test]
fn negative_recorded_size_differs() {
    let mut s = ScanSession::new("r".to_string(), vec![item("i", "a.mkv", -1, None)], walk(&[("a.mkv", u64::MAX)]));
    assert!(matches!(s.begin_file("a.mkv", u64::MAX, &None), FileStep::Unchanged));
}

#[test]
fn copy_walked_before_its_source_is_new() {
    // b.mp4 is cataloged; a.mp4 (same content) is walked first, then b.mp4.
    let mut s = ScanSession::new("r".to_string(), vec![item("m1", "b.mp4", 3, None)], walk(&[("a.mp4", 3), ("b.mp4", 3)]));
    assert!(matches!(s.begin_file("a.mp4", 3, &None), FileStep::Lookup));
    assert!(matches!(s.settle_lookup(true, Some(("m1".to_string(), "b.mp4".to_string()))), FileStep::New));
    s.finish_file(true);
    assert!(matches!(s.begin_file("b.mp4", 3, &None), FileStep::Unchanged));
    let (stats, missing) = s.finish();
    assert_eq!(stats.new_items, 1);
    assert_eq!(stats.changed_items, 0);
    assert_eq!(stats.missing_items, 0);
    assert_eq!(stats.skipped_items, 0);
    assert!(missing.is_empty());
}

#[test]
fn missing_item_back_unchanged_reappears() {
    let mut s = ScanSession::new(
        "r".to_string(),
        vec![item_with_status("e", "p.mkv", 9, Some("m"), "missing")],
        walk(&[("p.mkv", 9)]),
    );
    match s.begin_file("p.mkv", 9, &Some("m".to_string())) {
        FileStep::Reappeared(id) => assert_eq!(id, "e"),
        other => panic!("{:?}", other),
    }
    let (stats, missing) = s.finish();
    assert_eq!((stats.new_items, stats.changed_items, stats.missing_items, stats.skipped_items), (0, 0, 0, 0));
    assert!(missing.is_empty());
}

#[test]
fn rescan_of_unchanged_tree_settles_everything_unchanged() {
    let known = vec![item("i1", "a.mkv", 1, Some("t")), item("i2", "b/c.mkv", 2, None)];
    let mut s = ScanSession::new("r".to_string(), known, walk(&[("a.mkv", 1), ("b/c.mkv", 2)]));
    assert!(matches!(s.begin_file("a.mkv", 1, &Some("t".to_string())), FileStep::Unchanged));
    assert!(matches!(s.begin_file("b/c.mkv", 2, &None), FileStep::Unchanged));
    let (stats, missing) = s.finish();
    assert_eq!((stats.new_items, stats.changed_items, stats.missing_items, stats.skipped_items), (0, 0, 0, 0));
    assert!(missing.is_empty());
}

#[test]
fn item_whose_file_is_now_empty_can_be_moved() {
    // x.mkv is cataloged, but its file is now empty; the content turns up at y.mkv.
    let mut s = ScanSession::new("r".to_string(), vec![item("x1", "x.mkv", 7, None)], walk(&[("x.mkv", 0), ("y.mkv", 7)]));
    assert!(matches!(s.begin_file("x.mkv", 0, &None), FileStep::Skipped));
    assert!(matches!(s.begin_file("y.mkv", 7, &None), FileStep::Lookup));
    match s.settle_lookup(true, Some(("x1".to_string(), "x.mkv".to_string()))) {
        FileStep::Moved(id) => assert_eq!(id, "x1"),
        other => panic!("{:?}", other),
    }
    s.finish_file(true);
    let (stats, missing) = s.finish();
    assert_eq!((stats.new_items, stats.changed_items, stats.missing_items, stats.skipped_items), (0, 1, 0, 1));
    assert!(missing.is_empty());
}

#[test]
fn rescan_with_empty_files_skips_only_them() {
    let known = vec![item("i1", "a.mkv", 1, Some("t")), item("i2", "b.mkv", 2, None)];
    let mut s = ScanSession::new("r".to_string(), known, walk(&[("a.mkv", 1), ("z.mkv", 0), ("b.mkv", 2)]));
    assert!(matches!(s.begin_file("a.mkv", 1, &Some("t".to_string())), FileStep::Unchanged));
    assert!(matches!(s.begin_file("z.mkv", 0, &None), FileStep::Skipped));
    assert!(matches!(s.begin_file("b.mkv", 2, &None), FileStep::Unchanged));
    assert_eq!(s.files_scanned(), 3);
    let (stats, missing) = s.finish();
    assert_eq!((stats.new_items, stats.changed_items, stats.missing_items, stats.skipped_items), (0, 0, 0, 1));
    assert!(missing.is_empty());
}
