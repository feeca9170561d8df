use hashdeep_rs::{read_manifest, render, render_notice, scan_dir, FileInfo, Outcome, Record, Tag};

fn lines(text: &[&str]) -> Vec<String> {
    text.iter().map(|l| l.to_string()).collect()
}

fn found(path: &str, hash: &str, size: u64) -> FileInfo {
    FileInfo { path: path.to_string(), hash: hash.to_string(), size: Some(size), canonical_path: None }
}

fn audit_output(manifest: &[&str], files: Vec<FileInfo>) -> Vec<String> {
    let (map, notices) = read_manifest(&lines(manifest));
    let mut output: Vec<String> = notices.iter().map(|n| render_notice(n).text()).collect();
    let mut map = Some(map);
    for record in scan_dir(&files, &mut map, false) {
        output.push(render(&record).text());
    }
    output
}

#[test]
fn unchanged_file_is_reported_ok() {
    assert_eq!(
        audit_output(&["deadbeef  a.txt"], vec![found("a.txt", "deadbeef", 5)]),
        vec!["deadbeef -> a.txt  (OK)"]
    );
}

#[test]
fn renamed_file_is_reported_moved_with_old_path() {
    assert_eq!(
        audit_output(&["deadbeef  a.txt"], vec![found("b.txt", "deadbeef", 5)]),
        vec!["deadbeef  b.txt  (MOVED from a.txt)"]
    );
}

#[test]
fn grown_file_is_reported_with_both_sizes() {
    assert_eq!(
        audit_output(&["100,deadbeef,a.txt"], vec![found("a.txt", "deadbeef", 150)]),
        vec!["deadbeef -> a.txt  (CHANGED SIZE from 100 to 150)"]
    );
}

#[test]
fn second_entry_with_the_same_hash_is_reported_and_dropped() {
    let (map, notices) = read_manifest(&lines(&["deadbeef a.txt", "deadbeef b.txt"]));
    assert_eq!(notices.len(), 1);
    let line = render_notice(&notices[0]);
    assert_eq!(line.tag, Some(Tag::Duplicate));
    assert_eq!(line.text(), "deadbeef  b.txt  (DUPLICATE hash with a.txt)");
    assert_eq!(map.len(), 1);
    assert_eq!(map.get_by_hash("deadbeef").map(|e| e.path.as_str()), Some("a.txt"));
    assert_eq!(
        audit_output(&["deadbeef a.txt", "deadbeef b.txt"], vec![found("b.txt", "deadbeef", 1)]),
        vec!["deadbeef  b.txt  (DUPLICATE hash with a.txt)", "deadbeef  b.txt  (MOVED from a.txt)"]
    );
}

#[test]
fn entry_without_file_is_reported_missing() {
    assert_eq!(
        audit_output(&["cafebabe  z.txt"], Vec::new()),
        vec!["cafebabe  z.txt  (MISSING in filesystem)"]
    );
    let (map, _) = read_manifest(&lines(&["cafebabe  z.txt"]));
    let mut map = Some(map);
    let records = scan_dir(&vec![found("y.txt", "0badf00d", 3)], &mut map, false);
    assert_eq!(
        records[1],
        Record::Audit {
            hash: "cafebabe".to_string(),
            path: "z.txt".to_string(),
            outcome: Outcome::Missing { expected_size: None },
        }
    );
    assert_eq!(records.len(), 2);
}

#[test]
fn mixed_audit_reads_as_a_whole() {
    let output = audit_output(
        &["aaaa  keep.txt", "12,bbbb,grow.txt", "cccc  old/name.txt", "dddd  edit.txt", "9,eeee,gone.txt"],
        vec![
            found("edit.txt", "d00d", 4),
            found("fresh.txt", "ffff", 1),
            found("grow.txt", "bbbb", 13),
            found("keep.txt", "aaaa", 2),
            found("new/name.txt", "cccc", 3),
        ],
    );
    assert_eq!(
        output,
        vec![
            "d00d  edit.txt  (CHANGED hash from dddd)",
            "ffff  fresh.txt  (NEW in filesystem with size 1)",
            "bbbb -> grow.txt  (CHANGED SIZE from 12 to 13)",
            "aaaa -> keep.txt  (OK)",
            "cccc  new/name.txt  (MOVED from old/name.txt)",
            "eeee  gone.txt  (MISSING in filesystem with expected size 9)",
        ]
    );
}
