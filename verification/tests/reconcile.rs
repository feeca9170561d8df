use hashdeep_rs::{
    classify, missing, process_file_entry, read_manifest, scan_dir, scan_dir_sorted, AuditMap,
    FileEntry, FileInfo, Outcome, Record,
};

fn map_of(entries: &[(&str, &str, u64)]) -> AuditMap {
    let mut map = AuditMap::new();
    for (hash, path, size) in entries {
        map.insert(FileEntry::new_s(hash.to_string(), path.to_string(), *size));
    }
    map
}

fn manifest(lines: &[&str]) -> AuditMap {
    let lines: Vec<String> = lines.iter().map(|l| l.to_string()).collect();
    read_manifest(&lines).0
}

fn audit(hash: &str, path: &str, outcome: Outcome) -> Record {
    Record::Audit { hash: hash.to_string(), path: path.to_string(), outcome }
}

fn file(path: &str, hash: &str, size: u64) -> FileInfo {
    FileInfo { path: path.to_string(), hash: hash.to_string(), size: Some(size), canonical_path: None }
}

#[test]
fn same_hash_same_path_is_ok() {
    let mut map = manifest(&["deadbeef  a.txt"]);
    assert_eq!(classify(&mut map, "a.txt", "deadbeef", 12), Outcome::Unchanged);
    assert!(map.get(0).present);
}

#[test]
fn same_hash_other_path_is_moved() {
    let mut map = manifest(&["deadbeef  a.txt"]);
    assert_eq!(
        classify(&mut map, "b.txt", "deadbeef", 12),
        Outcome::Moved { old_path: "a.txt".to_string() }
    );
    assert!(map.get(0).present);
}

#[test]
fn recorded_size_that_differs_is_changed_size() {
    let mut map = manifest(&["100,deadbeef,a.txt"]);
    assert_eq!(
        classify(&mut map, "a.txt", "deadbeef", 150),
        Outcome::SizeChanged { old_size: 100, new_size: 150 }
    );
    assert!(map.get(0).present);
}

#[test]
fn recorded_size_that_agrees_is_ok() {
    let mut map = manifest(&["100,deadbeef,a.txt"]);
    assert_eq!(classify(&mut map, "a.txt", "deadbeef", 100), Outcome::Unchanged);
}

#[test]
fn unknown_recorded_size_accepts_any_size() {
    let mut map = map_of(&[("deadbeef", "a.txt", 0)]);
    assert_eq!(classify(&mut map, "a.txt", "deadbeef", 987654321), Outcome::Unchanged);
}

#[test]
fn other_hash_same_path_is_changed() {
    let mut map = manifest(&["deadbeef  a.txt"]);
    assert_eq!(
        classify(&mut map, "a.txt", "0badf00d", 12),
        Outcome::ContentChanged { old_hash: "deadbeef".to_string() }
    );
    assert!(map.get(0).present);
}

#[test]
fn unknown_hash_and_path_is_new() {
    let mut map = manifest(&["deadbeef  a.txt"]);
    assert_eq!(classify(&mut map, "c.txt", "0badf00d", 77), Outcome::New { size: 77 });
    assert!(!map.get(0).present);
}

#[test]
fn hash_match_wins_over_path_match() {
    let mut map = map_of(&[("aaaa", "a.txt", 0), ("bbbb", "b.txt", 0)]);
    assert_eq!(
        classify(&mut map, "a.txt", "bbbb", 5),
        Outcome::Moved { old_path: "b.txt".to_string() }
    );
    assert!(!map.get(0).present);
    assert!(map.get(1).present);
}

#[test]
fn moved_does_not_compare_sizes() {
    let mut map = map_of(&[("aaaa", "a.txt", 10)]);
    assert_eq!(
        classify(&mut map, "moved/a.txt", "aaaa", 999),
        Outcome::Moved { old_path: "a.txt".to_string() }
    );
}

#[test]
fn missing_lists_unmatched_entries_in_manifest_order() {
    let mut map = map_of(&[("aaaa", "a", 0), ("bbbb", "b", 20), ("cccc", "c", 30), ("dddd", "d", 0)]);
    classify(&mut map, "b", "bbbb", 20);
    assert_eq!(
        missing(&map),
        vec![
            audit("aaaa", "a", Outcome::Missing { expected_size: None }),
            audit("cccc", "c", Outcome::Missing { expected_size: Some(30) }),
            audit("dddd", "d", Outcome::Missing { expected_size: None }),
        ]
    );
}

#[test]
fn missing_entry_is_swept_after_scan() {
    let mut map = Some(manifest(&["cafebabe  z.txt"]));
    let records = scan_dir(&Vec::new(), &mut map, false);
    assert_eq!(records, vec![audit("cafebabe", "z.txt", Outcome::Missing { expected_size: None })]);
}

#[test]
fn missing_of_fully_matched_map_is_empty() {
    let mut map = map_of(&[("aaaa", "a", 0)]);
    classify(&mut map, "a", "aaaa", 1);
    assert_eq!(missing(&map), Vec::new());
}

#[test]
fn process_file_entry_audits_when_a_map_is_given() {
    let mut map = Some(map_of(&[("aaaa", "a", 0)]));
    let record = process_file_entry("a", "aaaa", Some(3), None, &mut map, false);
    assert_eq!(record, audit("aaaa", "a", Outcome::Unchanged));
    assert!(map.unwrap().get(0).present);
}

#[test]
fn process_file_entry_audits_even_in_three_field_form() {
    let mut map = Some(map_of(&[("aaaa", "a", 0)]));
    let record = process_file_entry("b", "bbbb", Some(3), Some("/abs/b"), &mut map, true);
    assert_eq!(record, audit("bbbb", "b", Outcome::New { size: 3 }));
}

#[test]
fn process_file_entry_lists_without_a_map() {
    let mut map: Option<AuditMap> = None;
    assert_eq!(
        process_file_entry("a", "aaaa", None, None, &mut map, false),
        Record::Plain { hash: "aaaa".to_string(), path: "a".to_string() }
    );
    assert_eq!(
        process_file_entry("a", "aaaa", Some(42), Some("/root/a"), &mut map, true),
        Record::Compat { size: 42, hash: "aaaa".to_string(), canonical_path: "/root/a".to_string() }
    );
    assert!(map.is_none());
}

#[test]
fn scan_classifies_in_order_then_sweeps() {
    let mut map = Some(map_of(&[("aaaa", "a", 0), ("bbbb", "b", 5), ("cccc", "c", 9), ("dddd", "d", 0)]));
    let files = vec![
        file("a", "aaaa", 1),
        file("b", "bbbb", 6),
        file("e", "dddd", 2),
        file("f", "ffff", 3),
        file("c", "9999", 9),
    ];
    let records = scan_dir(&files, &mut map, false);
    assert_eq!(
        records,
        vec![
            audit("aaaa", "a", Outcome::Unchanged),
            audit("bbbb", "b", Outcome::SizeChanged { old_size: 5, new_size: 6 }),
            audit("dddd", "e", Outcome::Moved { old_path: "d".to_string() }),
            audit("ffff", "f", Outcome::New { size: 3 }),
            audit("9999", "c", Outcome::ContentChanged { old_hash: "cccc".to_string() }),
        ]
    );
    let map = map.unwrap();
    assert!(map.iter().iter().all(|e| e.present));
}

#[test]
fn scan_reports_a_file_seen_twice_each_time() {
    let mut map = Some(map_of(&[("aaaa", "a", 0), ("bbbb", "b", 0)]));
    let files = vec![file("a", "aaaa", 1), file("copy", "aaaa", 1)];
    let records = scan_dir(&files, &mut map, false);
    assert_eq!(
        records,
        vec![
            audit("aaaa", "a", Outcome::Unchanged),
            audit("aaaa", "copy", Outcome::Moved { old_path: "a".to_string() }),
            audit("bbbb", "b", Outcome::Missing { expected_size: None }),
        ]
    );
}

#[test]
fn scan_without_map_lists_files() {
    let mut map: Option<AuditMap> = None;
    let files = vec![
        FileInfo { path: "b".to_string(), hash: "bbbb".to_string(), size: None, canonical_path: None },
        FileInfo { path: "a".to_string(), hash: "aaaa".to_string(), size: None, canonical_path: None },
    ];
    assert_eq!(
        scan_dir(&files, &mut map, false),
        vec![
            Record::Plain { hash: "bbbb".to_string(), path: "b".to_string() },
            Record::Plain { hash: "aaaa".to_string(), path: "a".to_string() },
        ]
    );
}

#[test]
fn scan_without_map_in_three_field_form() {
    let mut map: Option<AuditMap> = None;
    let files = vec![FileInfo {
        path: "a".to_string(),
        hash: "aaaa".to_string(),
        size: Some(7),
        canonical_path: Some("/tmp/a".to_string()),
    }];
    assert_eq!(
        scan_dir(&files, &mut map, true),
        vec![Record::Compat { size: 7, hash: "aaaa".to_string(), canonical_path: "/tmp/a".to_string() }]
    );
}

#[test]
fn sorted_scan_orders_files_by_path() {
    let mut map: Option<AuditMap> = None;
    let files = vec![
        FileInfo { path: "./b/z".to_string(), hash: "3".to_string(), size: None, canonical_path: None },
        FileInfo { path: "./a.txt".to_string(), hash: "1".to_string(), size: None, canonical_path: None },
        FileInfo { path: "./a/b".to_string(), hash: "2".to_string(), size: None, canonical_path: None },
        FileInfo { path: "./B".to_string(), hash: "0".to_string(), size: None, canonical_path: None },
    ];
    let records = scan_dir_sorted(files, &mut map, false);
    let paths: Vec<String> = records
        .iter()
        .map(|r| match r {
            Record::Plain { path, .. } => path.clone(),
            _ => panic!("a listing was expected"),
        })
        .collect();
    assert_eq!(paths, vec!["./B", "./a.txt", "./a/b", "./b/z"]);
}

#[test]
fn sorted_scan_gives_the_same_records_for_any_order_found() {
    let files = vec![file("c", "cccc", 3), file("a", "aaaa", 1), file("b", "xxxx", 2)];
    let mut reversed = files.clone();
    reversed.reverse();
    let mut first = Some(map_of(&[("aaaa", "a", 1), ("bbbb", "b", 2), ("dddd", "d", 4)]));
    let mut second = Some(map_of(&[("aaaa", "a", 1), ("bbbb", "b", 2), ("dddd", "d", 4)]));
    let one = scan_dir_sorted(files, &mut first, false);
    let two = scan_dir_sorted(reversed, &mut second, false);
    assert_eq!(one, two);
    assert_eq!(
        one,
        vec![
            audit("aaaa", "a", Outcome::Unchanged),
            audit("xxxx", "b", Outcome::ContentChanged { old_hash: "bbbb".to_string() }),
            audit("cccc", "c", Outcome::New { size: 3 }),
            audit("dddd", "d", Outcome::Missing { expected_size: Some(4) }),
        ]
    );
}

#[test]
fn outcome_does_not_depend_on_files_scanned_before() {
    let entries = [("aaaa", "a", 1), ("bbbb", "b", 2), ("cccc", "c", 0)];
    let mut fresh = map_of(&entries);
    let alone = classify(&mut fresh, "b", "bbbb", 3);
    let mut used = map_of(&entries);
    classify(&mut used, "b", "bbbb", 3);
    classify(&mut used, "z", "aaaa", 1);
    classify(&mut used, "c", "eeee", 9);
    assert_eq!(classify(&mut used, "b", "bbbb", 3), alone);
    assert_eq!(alone, Outcome::SizeChanged { old_size: 2, new_size: 3 });
    assert_eq!(missing(&used), Vec::new());
}

#[test]
fn repeated_path_is_compared_with_the_last_entry() {
    let mut map = map_of(&[("aaaa", "same", 1), ("bbbb", "same", 2)]);
    assert_eq!(
        classify(&mut map, "same", "cccc", 5),
        Outcome::ContentChanged { old_hash: "bbbb".to_string() }
    );
    assert_eq!(missing(&map), vec![audit("aaaa", "same", Outcome::Missing { expected_size: Some(1) })]);
}

#[test]
fn sorted_scan_orders_paths_as_std_orders_strings() {
    let paths = ["\u{e9}", "z", "a\u{10000}", "a", "", "ab", "B", "a\u{e9}", "\u{ffff}", "a b", "a/b", "a.b"];
    let files: Vec<FileInfo> = paths
        .iter()
        .map(|p| FileInfo { path: p.to_string(), hash: "00".to_string(), size: None, canonical_path: None })
        .collect();
    let mut map: Option<AuditMap> = None;
    let got: Vec<String> = scan_dir_sorted(files, &mut map, false)
        .into_iter()
        .map(|r| match r {
            Record::Plain { path, .. } => path,
            _ => panic!("a listing was expected"),
        })
        .collect();
    let mut expected: Vec<String> = paths.iter().map(|p| p.to_string()).collect();
    expected.sort();
    assert_eq!(got, expected);
}

#[test]
fn sorted_scan_keeps_files_with_one_path_in_the_order_found() {
    let mut map: Option<AuditMap> = None;
    let files = vec![file("b", "first", 1), file("a", "only", 2), file("b", "second", 3), file("b", "third", 4)];
    let hashes: Vec<String> = scan_dir_sorted(files, &mut map, false)
        .into_iter()
        .map(|r| match r {
            Record::Plain { hash, .. } => hash,
            _ => panic!("a listing was expected"),
        })
        .collect();
    assert_eq!(hashes, vec!["only", "first", "second", "third"]);
}
