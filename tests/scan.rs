use spacecleaner::report::{
    build_breakdown, get_storage_info, material_entries, path_for_label, percent_of, scan_roots,
    select_label, selected_bytes, size_of_label, sort_by_size, subdir_label_of, BreakdownEntry,
    DfParseError, RootSize, SubdirSize,
};
use spacecleaner::size::{calculate_directory_size, EntryKind, WalkEntry};

fn entry(label: &str, bytes: u64) -> BreakdownEntry {
    BreakdownEntry { label: label.to_string(), bytes }
}

fn labels(es: &[BreakdownEntry]) -> Vec<(String, u64)> {
    es.iter().map(|e| (e.label.clone(), e.bytes)).collect()
}

#[test]
fn directory_size_sums_regular_files_only() {
    let entries = vec![
        WalkEntry { kind: EntryKind::Directory, len: 4096 },
        WalkEntry { kind: EntryKind::File, len: 100 },
        WalkEntry { kind: EntryKind::Symlink, len: 30 },
        WalkEntry { kind: EntryKind::File, len: 23 },
        WalkEntry { kind: EntryKind::Other, len: 0 },
    ];
    assert_eq!(calculate_directory_size(&entries), 123);
}

#[test]
fn directory_size_of_missing_or_empty_tree_is_zero() {
    assert_eq!(calculate_directory_size(&vec![]), 0);
    assert_eq!(
        calculate_directory_size(&vec![WalkEntry { kind: EntryKind::Directory, len: 4096 }]),
        0
    );
}

#[test]
fn directory_size_is_the_same_for_any_walk_order() {
    let a = vec![
        WalkEntry { kind: EntryKind::File, len: 5 },
        WalkEntry { kind: EntryKind::Directory, len: 64 },
        WalkEntry { kind: EntryKind::File, len: 7 },
    ];
    let mut b = a.clone();
    b.reverse();
    assert_eq!(calculate_directory_size(&a), calculate_directory_size(&b));
    assert_eq!(calculate_directory_size(&a), calculate_directory_size(&a));
}

#[test]
fn directory_size_saturates() {
    let entries = vec![
        WalkEntry { kind: EntryKind::File, len: u64::MAX },
        WalkEntry { kind: EntryKind::File, len: 1 },
    ];
    assert_eq!(calculate_directory_size(&entries), u64::MAX);
}

#[test]
fn scan_roots_table() {
    let roots = scan_roots();
    let paths: Vec<&str> = roots.iter().map(|r| r.relative_path.as_str()).collect();
    assert_eq!(
        paths,
        vec!["Library/Caches", ".cache", "Downloads", ".npm", ".cargo", ".gradle", "node_modules"]
    );
    assert!(roots[0].nested);
    assert!(roots[1..].iter().all(|r| !r.nested));
}

fn measured() -> Vec<RootSize> {
    vec![
        RootSize {
            relative_path: "Library/Caches".to_string(),
            nested: true,
            bytes: 9_000_000,
            subdirs: vec![
                SubdirSize { name: "pip".to_string(), bytes: 5_000_000 },
                SubdirSize { name: "tiny".to_string(), bytes: 1048576 },
                SubdirSize { name: "smaller".to_string(), bytes: 1048575 },
                SubdirSize { name: "Homebrew".to_string(), bytes: 3_000_000 },
            ],
        },
        RootSize { relative_path: ".cache".to_string(), nested: false, bytes: 0, subdirs: vec![] },
        RootSize { relative_path: ".npm".to_string(), nested: false, bytes: 700, subdirs: vec![] },
        RootSize {
            relative_path: "Downloads".to_string(),
            nested: false,
            bytes: 8_000_000,
            subdirs: vec![],
        },
    ]
}

#[test]
fn breakdown_expands_the_nested_root() {
    let b = build_breakdown(&measured());
    assert_eq!(
        labels(&b),
        vec![
            ("Caches/pip".to_string(), 5_000_000),
            ("Caches/tiny".to_string(), 1048576),
            ("Caches/Homebrew".to_string(), 3_000_000),
            (".npm".to_string(), 700),
            ("Downloads".to_string(), 8_000_000),
        ]
    );
}

#[test]
fn breakdown_sorted_largest_first() {
    let sorted = sort_by_size(build_breakdown(&measured()));
    let sizes: Vec<u64> = sorted.iter().map(|e| e.bytes).collect();
    assert_eq!(sizes, vec![8_000_000, 5_000_000, 3_000_000, 1048576, 700]);
    assert_eq!(sorted[0].label, "Downloads");
    assert!(sort_by_size(vec![]).is_empty());
}

#[test]
fn material_entries_keep_order() {
    let es = vec![entry("a", 2_000_000), entry("b", 1048576), entry("c", 1048577)];
    assert_eq!(
        labels(&material_entries(&es)),
        vec![("a".to_string(), 2_000_000), ("c".to_string(), 1048577)]
    );
}

#[test]
fn labels_resolve_back_to_the_scanned_directories() {
    let home = "/Users/tester";
    let label = subdir_label_of("pip");
    assert_eq!(label, "Caches/pip");
    assert_eq!(path_for_label(&label, home), "/Users/tester/Library/Caches/pip");
    for root in scan_roots().iter().skip(1) {
        assert_eq!(
            path_for_label(&root.relative_path, home),
            format!("{}/{}", home, root.relative_path)
        );
    }
}

#[test]
fn storage_info_from_df_and_scan() {
    let df = "Filesystem Size Used Avail Capacity\n/dev/disk 100Gi 40Gi 60Gi 40%\n";
    let info = get_storage_info(df, &measured()).ok().expect("table reads");
    assert_eq!(info.total, 100 * 1073741824);
    assert_eq!(info.used, 40 * 1073741824);
    assert_eq!(info.available, 60 * 1073741824);
    assert_eq!(info.cache_breakdown.len(), 5);
    assert_eq!(get_storage_info("", &measured()).err(), Some(DfParseError::MissingDataLine));
}

#[test]
fn percentages() {
    assert_eq!(percent_of(40, 100), 40);
    assert_eq!(percent_of(1, 3), 33);
    assert_eq!(percent_of(5, 0), 0);
    assert_eq!(percent_of(u64::MAX, 1), u64::MAX);
}

#[test]
fn picking_labels_for_cleanup() {
    let es = vec![entry("Caches/pip", 5_000_000), entry("Downloads", 8_000_000)];
    let mut picked: Vec<String> = Vec::new();
    assert!(select_label(&mut picked, "Downloads"));
    assert!(select_label(&mut picked, "Caches/pip"));
    assert!(!select_label(&mut picked, "Downloads"));
    assert_eq!(picked, vec!["Downloads", "Caches/pip"]);
    assert_eq!(size_of_label(&es, "Downloads"), 8_000_000);
    assert_eq!(size_of_label(&es, "missing"), 0);
    assert_eq!(selected_bytes(&es, &picked), 13_000_000);
}
