use folder_stats::stats::FolderStats;
use folder_stats::stats::StatsTable;

#[test]
fn creation_scenario_two_folders() {
    // create a/x.txt (10 bytes), a/y.txt (20 bytes), b/z.txt (5 bytes)
    let mut t = StatsTable::new();
    t.apply_creation("a".to_string(), 10);
    t.apply_creation("a".to_string(), 20);
    t.apply_creation("b".to_string(), 5);

    let a = t.get(&"a".to_string()).unwrap();
    assert_eq!(a.size, 30);
    assert_eq!(a.file_count, 2);
    let b = t.get(&"b".to_string()).unwrap();
    assert_eq!(b.size, 5);
    assert_eq!(b.file_count, 1);

    let rows = t.snapshot_sorted();
    assert_eq!(rows.len(), 2);
    assert_eq!(rows[0].folder, "a");
    assert_eq!(rows[1].folder, "b");
}

#[test]
fn aggregation_is_order_independent() {
    let events = [("a", 10u64), ("b", 7), ("a", 1), ("c", 7), ("b", 2)];
    let mut forward = StatsTable::new();
    for (f, s) in events.iter() {
        forward.apply_creation(f.to_string(), *s);
    }
    let mut backward = StatsTable::new();
    for (f, s) in events.iter().rev() {
        backward.apply_creation(f.to_string(), *s);
    }
    for key in ["a", "b", "c"] {
        assert_eq!(forward.get(&key.to_string()), backward.get(&key.to_string()));
    }
    assert_eq!(
        forward.get(&"a".to_string()),
        Some(FolderStats { size: 11, file_count: 2 })
    );
    assert_eq!(
        forward.get(&"b".to_string()),
        Some(FolderStats { size: 9, file_count: 2 })
    );
    assert_eq!(
        forward.get(&"c".to_string()),
        Some(FolderStats { size: 7, file_count: 1 })
    );
}

#[test]
fn get_unknown_folder_is_none() {
    let mut t = StatsTable::new();
    assert_eq!(t.get(&"a".to_string()), None);
    t.apply_creation("a".to_string(), 1);
    assert_eq!(t.get(&"other".to_string()), None);
}

#[test]
fn snapshot_of_empty_table_is_empty() {
    let t = StatsTable::new();
    assert!(t.snapshot_sorted().is_empty());
}

#[test]
fn snapshot_sizes_never_increase() {
    let mut t = StatsTable::new();
    for (f, s) in [("small", 3u64), ("big", 50), ("mid", 10), ("tie", 10), ("zero", 0)] {
        t.apply_creation(f.to_string(), s);
    }
    let rows = t.snapshot_sorted();
    assert_eq!(rows.len(), 5);
    for w in rows.windows(2) {
        assert!(w[0].stats.size >= w[1].stats.size);
    }
    assert_eq!(rows[0].folder, "big");
    assert_eq!(rows[4].folder, "zero");
}

#[test]
fn zero_byte_files_still_count() {
    let mut t = StatsTable::new();
    t.apply_creation("a".to_string(), 0);
    t.apply_creation("a".to_string(), 0);
    assert_eq!(t.get(&"a".to_string()), Some(FolderStats { size: 0, file_count: 2 }));
}
