//! Classifying the files of a scan against the manifest.
use crate::audit_map::{hash_position, mark_spec, path_position, unmatched, AuditMap};
use crate::entry::{views, EntryView, FileEntry};
use crate::order::{is_path_ordering, sort_by_path};
use crate::text::str_eq;
use vstd::prelude::*;

verus! {

/// What the audit found of one scanned file, or of one manifest entry that
/// the scan did not meet.
#[derive(Debug, Clone, PartialEq, Eq)]
pub enum Outcome {
    /// Hash and path are as recorded, and so is the size where one is recorded.
    Unchanged,
    /// Hash and path are as recorded; the size is not.
    SizeChanged { old_size: u64, new_size: u64 },
    /// The hash is recorded, under another path.
    Moved { old_path: String },
    /// The path is recorded, with another hash, and the hash is recorded
    /// nowhere.
    ContentChanged { old_hash: String },
    /// Neither hash nor path is recorded.
    New { size: u64 },
    /// A manifest entry that no file was matched to, with its recorded size
    /// where it has one.
    Missing { expected_size: Option<u64> },
}

/// The mathematical value of an [`Outcome`].
pub ghost enum OutcomeView {
    Unchanged,
    SizeChanged { old_size: u64, new_size: u64 },
    Moved { old_path: Seq<char> },
    ContentChanged { old_hash: Seq<char> },
    New { size: u64 },
    Missing { expected_size: Option<u64> },
}

impl View for Outcome {
    type V = OutcomeView;

    open spec fn view(&self) -> OutcomeView {
        match self {
            Outcome::Unchanged => OutcomeView::Unchanged,
            Outcome::SizeChanged { old_size, new_size } => OutcomeView::SizeChanged {
                old_size: *old_size,
                new_size: *new_size,
            },
            Outcome::Moved { old_path } => OutcomeView::Moved { old_path: old_path@ },
            Outcome::ContentChanged { old_hash } => OutcomeView::ContentChanged {
                old_hash: old_hash@,
            },
            Outcome::New { size } => OutcomeView::New { size: *size },
            Outcome::Missing { expected_size } => OutcomeView::Missing {
                expected_size: *expected_size,
            },
        }
    }
}

/// The entry that a file with this path and hash is matched to: the one that
/// records the hash, else the last one that records the path.
pub open spec fn matched_position(
    entries: Seq<EntryView>,
    path: Seq<char>,
    hash: Seq<char>,
) -> Option<int> {
    match hash_position(entries, hash) {
        Some(i) => Some(i),
        None => path_position(entries, path),
    }
}

/// How a file with this path, hash and size is classified.
pub open spec fn outcome_spec(
    entries: Seq<EntryView>,
    path: Seq<char>,
    hash: Seq<char>,
    size: u64,
) -> OutcomeView {
    match hash_position(entries, hash) {
        Some(i) => if entries[i].path == path {
            if entries[i].size == 0 || entries[i].size == size {
                OutcomeView::Unchanged
            } else {
                OutcomeView::SizeChanged { old_size: entries[i].size, new_size: size }
            }
        } else {
            OutcomeView::Moved { old_path: entries[i].path }
        },
        None => match path_position(entries, path) {
            Some(i) => OutcomeView::ContentChanged { old_hash: entries[i].hash },
            None => OutcomeView::New { size },
        },
    }
}

/// The entries after a file with this path and hash was classified: the entry
/// it was matched to, if any, is marked as met.
pub open spec fn entries_after(
    entries: Seq<EntryView>,
    path: Seq<char>,
    hash: Seq<char>,
) -> Seq<EntryView> {
    match matched_position(entries, path, hash) {
        Some(i) => mark_spec(entries, i),
        None => entries,
    }
}

/// Classifies one scanned file and marks the entry it was matched to.
///
/// The hash is looked up first. Only where no entry records it is the path
/// looked up.
pub fn classify(map: &mut AuditMap, path: &str, hash: &str, size: u64) -> (outcome: Outcome)
    requires
        old(map).wf(),
    ensures
        final(map).wf(),
        outcome@ == outcome_spec(old(map)@, path@, hash@, size),
        final(map)@ == entries_after(old(map)@, path@, hash@),
{
    match map.find_by_hash(hash) {
        Some(i) => {
            let entry: &FileEntry = map.get(i);
            let outcome = if str_eq(entry.path.as_str(), path) {
                if entry.size == 0 || entry.size == size {
                    Outcome::Unchanged
                } else {
                    Outcome::SizeChanged { old_size: entry.size, new_size: size }
                }
            } else {
                Outcome::Moved { old_path: entry.path.clone() }
            };
            map.mark_present(i);
            outcome
        },
        None => match map.find_by_path(path) {
            Some(i) => {
                let old_hash = map.get(i).hash.clone();
                map.mark_present(i);
                Outcome::ContentChanged { old_hash }
            },
            None => Outcome::New { size },
        },
    }
}

/// One line of a report.
#[derive(Debug, Clone, PartialEq, Eq)]
pub enum Record {
    /// A scanned file, outside an audit: its hash and its path.
    Plain { hash: String, path: String },
    /// A scanned file, outside an audit, in the three-field form: its size,
    /// its hash and its canonical absolute path.
    Compat { size: u64, hash: String, canonical_path: String },
    /// The outcome of an audit for a scanned file or for a manifest entry,
    /// with the hash and the path of that file or entry.
    Audit { hash: String, path: String, outcome: Outcome },
}

/// The mathematical value of a [`Record`].
pub ghost enum RecordView {
    Plain { hash: Seq<char>, path: Seq<char> },
    Compat { size: u64, hash: Seq<char>, canonical_path: Seq<char> },
    Audit { hash: Seq<char>, path: Seq<char>, outcome: OutcomeView },
}

impl View for Record {
    type V = RecordView;

    open spec fn view(&self) -> RecordView {
        match self {
            Record::Plain { hash, path } => RecordView::Plain { hash: hash@, path: path@ },
            Record::Compat { size, hash, canonical_path } => RecordView::Compat {
                size: *size,
                hash: hash@,
                canonical_path: canonical_path@,
            },
            Record::Audit { hash, path, outcome } => RecordView::Audit {
                hash: hash@,
                path: path@,
                outcome: outcome@,
            },
        }
    }
}

/// The values of a run of records, in order.
pub open spec fn record_views(records: Seq<Record>) -> Seq<RecordView> {
    records.map_values(|r: Record| r@)
}

/// What a scan found of one file. The size is there for an audit and for the
/// three-field form, the canonical path for the three-field form.
#[derive(Debug, Clone, PartialEq, Eq)]
pub struct FileInfo {
    pub path: String,
    pub hash: String,
    pub size: Option<u64>,
    pub canonical_path: Option<String>,
}

/// The mathematical value of a [`FileInfo`].
pub ghost struct FileInfoView {
    pub path: Seq<char>,
    pub hash: Seq<char>,
    pub size: Option<u64>,
    pub canonical_path: Option<Seq<char>>,
}

impl View for FileInfo {
    type V = FileInfoView;

    open spec fn view(&self) -> FileInfoView {
        FileInfoView {
            path: self.path@,
            hash: self.hash@,
            size: self.size,
            canonical_path: match self.canonical_path {
                Some(p) => Some(p@),
                None => None,
            },
        }
    }
}

/// The values of a run of scanned files, in order.
pub open spec fn file_views(files: Seq<FileInfo>) -> Seq<FileInfoView> {
    files.map_values(|f: FileInfo| f@)
}

/// The entries of the index of an audit; `None` outside an audit.
pub open spec fn audited(audit_map: Option<AuditMap>) -> Option<Seq<EntryView>> {
    match audit_map {
        Some(map) => Some(map@),
        None => None,
    }
}

/// The index of an audit, where there is one, is well formed.
pub open spec fn audit_wf(audit_map: Option<AuditMap>) -> bool {
    match audit_map {
        Some(map) => map.wf(),
        None => true,
    }
}

/// A scanned file carries what its record needs: the size in an audit; size
/// and canonical path for the three-field form outside one.
pub open spec fn file_complete(file: FileInfoView, audit: bool, compat_output: bool) -> bool {
    if audit {
        file.size is Some
    } else {
        compat_output ==> file.size is Some && file.canonical_path is Some
    }
}

/// The record of one scanned file: its classification in an audit, else its
/// listing in the form asked for.
pub open spec fn record_spec(
    entries: Option<Seq<EntryView>>,
    file: FileInfoView,
    compat_output: bool,
) -> RecordView {
    match entries {
        Some(es) => RecordView::Audit {
            hash: file.hash,
            path: file.path,
            outcome: outcome_spec(es, file.path, file.hash, file.size->0),
        },
        None => if compat_output {
            RecordView::Compat {
                size: file.size->0,
                hash: file.hash,
                canonical_path: file.canonical_path->0,
            }
        } else {
            RecordView::Plain { hash: file.hash, path: file.path }
        },
    }
}

/// The entries of an audit after one scanned file; `None` outside an audit.
pub open spec fn audited_after(
    entries: Option<Seq<EntryView>>,
    path: Seq<char>,
    hash: Seq<char>,
) -> Option<Seq<EntryView>> {
    match entries {
        Some(es) => Some(entries_after(es, path, hash)),
        None => None,
    }
}

/// Makes the record of one scanned file. In an audit the file is classified
/// and the entry it was matched to is marked; outside one the file is listed
/// and `compat_output` chooses the form.
pub fn process_file_entry(
    file_path_str: &str,
    hash_str: &str,
    current_file_size_opt: Option<u64>,
    canonical_file_path_opt: Option<&str>,
    audit_map: &mut Option<AuditMap>,
    compat_output: bool,
) -> (record: Record)
    requires
        audit_wf(*old(audit_map)),
        *old(audit_map) is Some ==> current_file_size_opt is Some,
        *old(audit_map) is None && compat_output ==> current_file_size_opt is Some
            && canonical_file_path_opt is Some,
    ensures
        audit_wf(*final(audit_map)),
        audited(*final(audit_map)) == audited_after(
            audited(*old(audit_map)),
            file_path_str@,
            hash_str@,
        ),
        record@ == record_spec(
            audited(*old(audit_map)),
            FileInfoView {
                path: file_path_str@,
                hash: hash_str@,
                size: current_file_size_opt,
                canonical_path: match canonical_file_path_opt {
                    Some(p) => Some(p@),
                    None => None,
                },
            },
            compat_output,
        ),
{
    match audit_map {
        Some(map) => {
            let size: u64 = current_file_size_opt.unwrap();
            let outcome = classify(map, file_path_str, hash_str, size);
            Record::Audit { hash: hash_str.to_owned(), path: file_path_str.to_owned(), outcome }
        },
        None => {
            if compat_output {
                Record::Compat {
                    size: current_file_size_opt.unwrap(),
                    hash: hash_str.to_owned(),
                    canonical_path: canonical_file_path_opt.unwrap().to_owned(),
                }
            } else {
                Record::Plain { hash: hash_str.to_owned(), path: file_path_str.to_owned() }
            }
        },
    }
}

/// The outcome for a manifest entry that no file was matched to. A recorded
/// size of 0 stands for an unknown size.
pub open spec fn missing_outcome(entry: EntryView) -> OutcomeView {
    OutcomeView::Missing {
        expected_size: if entry.size == 0 {
            None
        } else {
            Some(entry.size)
        },
    }
}

/// The record for a manifest entry that no file was matched to.
pub open spec fn missing_record(entry: EntryView) -> RecordView {
    RecordView::Audit { hash: entry.hash, path: entry.path, outcome: missing_outcome(entry) }
}

/// One record for each entry that no file was matched to, in manifest order.
pub open spec fn missing_spec(entries: Seq<EntryView>) -> Seq<RecordView> {
    unmatched(entries).map_values(|e: EntryView| missing_record(e))
}

/// Lists the manifest entries that no file was matched to: one record each,
/// in manifest order.
pub fn missing(map: &AuditMap) -> (records: Vec<Record>)
    ensures
        record_views(records@) == missing_spec(map@),
{
    let entries = map.unmatched_entries();
    let ghost left = views(entries@);
    let mut records: Vec<Record> = Vec::new();
    for entry in it: entries.into_iter()
        invariant
            it.seq() == entries@,
            left == views(entries@),
            record_views(records@) == left.take(it.index() as int).map_values(
                |e: EntryView| missing_record(e),
            ),
    {
        let ghost before = records@;
        let expected_size = if entry.size == 0 {
            None
        } else {
            Some(entry.size)
        };
        let record = Record::Audit {
            hash: entry.hash,
            path: entry.path,
            outcome: Outcome::Missing { expected_size },
        };
        records.push(record);
        proof {
            assert(left[it.index() as int] == entry@);
            assert(record@ == missing_record(entry@));
            assert(record_views(records@) =~= record_views(before).push(record@));
            assert(left.take(it.index() + 1) =~= left.take(it.index() as int).push(entry@));
        }
    }
    assert(left.take(left.len() as int) =~= left);
    records
}

/// The entries of an audit after a run of scanned files, classified in order.
pub open spec fn scan_entries(entries: Seq<EntryView>, files: Seq<FileInfoView>) -> Seq<
    EntryView,
>
    decreases files.len(),
{
    if files.len() == 0 {
        entries
    } else {
        let file = files.last();
        entries_after(scan_entries(entries, files.drop_last()), file.path, file.hash)
    }
}

/// What is audited when file `i` of a scan is reached: the entries after the
/// files before it; `None` outside an audit.
pub open spec fn audited_at(
    entries: Option<Seq<EntryView>>,
    files: Seq<FileInfoView>,
    i: int,
) -> Option<Seq<EntryView>> {
    match entries {
        Some(es) => Some(scan_entries(es, files.take(i))),
        None => None,
    }
}

/// The records of the scanned files, one each, in the order of the scan.
pub open spec fn file_records(
    entries: Option<Seq<EntryView>>,
    files: Seq<FileInfoView>,
    compat_output: bool,
) -> Seq<RecordView> {
    Seq::new(files.len(), |i: int| record_spec(audited_at(entries, files, i), files[i], compat_output))
}

/// The records of a whole scan: those of the files, then in an audit those of
/// the entries that no file was matched to.
pub open spec fn scan_spec(
    entries: Option<Seq<EntryView>>,
    files: Seq<FileInfoView>,
    compat_output: bool,
) -> Seq<RecordView> {
    file_records(entries, files, compat_output) + match entries {
        Some(es) => missing_spec(scan_entries(es, files)),
        None => Seq::empty(),
    }
}

/// Makes the records of a scan from the files it found, in the order given.
/// In an audit each file is classified against the index as the files before
/// it left it, and the entries that no file was matched to follow at the end.
pub fn scan_dir(
    files: &Vec<FileInfo>,
    audit_map: &mut Option<AuditMap>,
    compat_output: bool,
) -> (records: Vec<Record>)
    requires
        audit_wf(*old(audit_map)),
        forall|i: int|
            0 <= i < files@.len() ==> file_complete(
                (#[trigger] files@[i])@,
                *old(audit_map) is Some,
                compat_output,
            ),
    ensures
        audit_wf(*final(audit_map)),
        audited(*final(audit_map)) == audited_at(
            audited(*old(audit_map)),
            file_views(files@),
            files@.len() as int,
        ),
        record_views(records@) == scan_spec(
            audited(*old(audit_map)),
            file_views(files@),
            compat_output,
        ),
{
    let ghost start = audited(*audit_map);
    let ghost all = file_views(files@);
    let n: usize = files.len();
    let mut records: Vec<Record> = Vec::new();
    let mut i: usize = 0;
    proof {
        assert(all.take(0) =~= Seq::<FileInfoView>::empty());
    }
    while i < n
        invariant
            n == files@.len(),
            i <= n,
            all == file_views(files@),
            start == audited(*old(audit_map)),
            audit_wf(*audit_map),
            (*audit_map is Some) == (start is Some),
            audited(*audit_map) == audited_at(start, all, i as int),
            forall|k: int|
                0 <= k < files@.len() ==> file_complete(
                    (#[trigger] files@[k])@,
                    start is Some,
                    compat_output,
                ),
            records@.len() == i,
            forall|k: int|
                0 <= k < i ==> (#[trigger] records@[k])@ == record_spec(
                    audited_at(start, all, k),
                    all[k],
                    compat_output,
                ),
        decreases n - i,
    {
        let file = &files[i];
        let canonical: Option<&str> = match &file.canonical_path {
            Some(p) => Some(p.as_str()),
            None => None,
        };
        proof {
            assert(file_complete(files@[i as int]@, start is Some, compat_output));
            assert(all[i as int] == file@);
            assert(all.take(i as int + 1).drop_last() =~= all.take(i as int));
            assert(all.take(i as int + 1).last() == all[i as int]);
        }
        let record = process_file_entry(
            file.path.as_str(),
            file.hash.as_str(),
            file.size,
            canonical,
            audit_map,
            compat_output,
        );
        records.push(record);
        i = i + 1;
    }
    proof {
        assert(all.take(n as int) =~= all);
        assert(record_views(records@) =~= file_records(start, all, compat_output));
    }
    match audit_map {
        Some(map) => {
            let mut rest = missing(map);
            let ghost head = records@;
            records.append(&mut rest);
            proof {
                assert(record_views(records@) =~= record_views(head) + missing_spec(map@));
            }
        },
        None => {
            proof {
                assert(record_views(records@) =~= record_views(records@) + Seq::<
                    RecordView,
                >::empty());
            }
        },
    }
    records
}

/// Makes the records of a scan whose files were found in no particular
/// order. The files are first put in the order of their paths, and the scan
/// then goes as [`scan_dir`] does.
pub fn scan_dir_sorted(
    files: Vec<FileInfo>,
    audit_map: &mut Option<AuditMap>,
    compat_output: bool,
) -> (records: Vec<Record>)
    requires
        audit_wf(*old(audit_map)),
        forall|i: int|
            0 <= i < files@.len() ==> file_complete(
                (#[trigger] files@[i])@,
                *old(audit_map) is Some,
                compat_output,
            ),
    ensures
        audit_wf(*final(audit_map)),
        exists|ordered: Seq<FileInfoView>|
            {
                &&& is_path_ordering(ordered, file_views(files@))
                &&& audited(*final(audit_map)) == audited_at(
                    audited(*old(audit_map)),
                    ordered,
                    ordered.len() as int,
                )
                &&& record_views(records@) == #[trigger] scan_spec(
                    audited(*old(audit_map)),
                    ordered,
                    compat_output,
                )
            },
{
    let mut sorted = files;
    sort_by_path(&mut sorted);
    proof {
        let given = file_views(files@);
        let ordered = file_views(sorted@);
        assert forall|i: int| 0 <= i < sorted@.len() implies file_complete(
            (#[trigger] sorted@[i])@,
            *old(audit_map) is Some,
            compat_output,
        ) by {
            broadcast use vstd::seq_lib::group_to_multiset_ensures;

            assert(ordered[i] == sorted@[i]@);
            assert(ordered.contains(ordered[i]));
            assert(ordered.to_multiset().count(ordered[i]) > 0);
            assert(given.contains(ordered[i]));
            let j = choose|j: int| 0 <= j < given.len() && given[j] == ordered[i];
            assert(given[j] == files@[j]@);
        }
    }
    scan_dir(&sorted, audit_map, compat_output)
}

} // verus!
