//! What holds of every audit, proved from the definitions of the other
//! modules.
use crate::audit_map::{
    distinct_hashes, has_hash, has_path, hash_position, insert_spec, is_last_with_path,
    lemma_hash_position, lemma_insert_keeps_distinct, lemma_mark_keeps_keys, lemma_path_position,
    mark_spec, path_position, unmatched,
};
use crate::decimal::{decimal_text, is_digit, lemma_decimal_text_reads_back};
use crate::entry::EntryView;
use crate::manifest::{
    entries_with_line, entries_with_lines, has_comma, lemma_first_comma, manifest_entries,
    manifest_notices, parse_line_spec, ParsedLineView,
};
use crate::reconcile::{
    entries_after, matched_position, missing_record, missing_spec, outcome_spec, scan_entries,
    scan_spec, FileInfoView, OutcomeView, RecordView,
};
use crate::order::{distinct_paths, in_path_order, is_path_ordering};
use crate::report::render_spec;
use crate::text::{
    has_whitespace, is_whitespace, lemma_first_whitespace, lemma_text_le_antisymmetric, text_le,
    trim, trim_start,
};
use vstd::prelude::*;

verus! {

/// A file whose hash and path are those of one entry, and whose size is the
/// recorded one where one is recorded, is classified as unchanged.
pub proof fn law_same_hash_same_path_is_unchanged(
    entries: Seq<EntryView>,
    path: Seq<char>,
    hash: Seq<char>,
    size: u64,
    i: int,
)
    requires
        distinct_hashes(entries),
        0 <= i < entries.len(),
        entries[i].hash == hash,
        entries[i].path == path,
        entries[i].size == 0 || entries[i].size == size,
    ensures
        outcome_spec(entries, path, hash, size) == OutcomeView::Unchanged,
        entries_after(entries, path, hash) == mark_spec(entries, i),
{
    lemma_hash_position(entries, hash, i);
}

/// A file whose hash and path are those of one entry, with a size other than
/// the recorded one, is classified as changed in size, from the recorded size
/// to its own.
pub proof fn law_same_hash_other_size_is_size_changed(
    entries: Seq<EntryView>,
    path: Seq<char>,
    hash: Seq<char>,
    size: u64,
    i: int,
)
    requires
        distinct_hashes(entries),
        0 <= i < entries.len(),
        entries[i].hash == hash,
        entries[i].path == path,
        entries[i].size != 0,
        entries[i].size != size,
    ensures
        outcome_spec(entries, path, hash, size) == (OutcomeView::SizeChanged {
            old_size: entries[i].size,
            new_size: size,
        }),
        entries_after(entries, path, hash) == mark_spec(entries, i),
{
    lemma_hash_position(entries, hash, i);
}

/// A file whose hash is recorded by an entry with another path is classified
/// as moved from that path, whether or not some entry records the file's own
/// path.
pub proof fn law_same_hash_other_path_is_moved(
    entries: Seq<EntryView>,
    path: Seq<char>,
    hash: Seq<char>,
    size: u64,
    i: int,
)
    requires
        distinct_hashes(entries),
        0 <= i < entries.len(),
        entries[i].hash == hash,
        entries[i].path != path,
    ensures
        outcome_spec(entries, path, hash, size) == (OutcomeView::Moved {
            old_path: entries[i].path,
        }),
        entries_after(entries, path, hash) == mark_spec(entries, i),
{
    lemma_hash_position(entries, hash, i);
}

/// A file whose hash no entry records, and whose path is recorded, is
/// classified as changed from the hash of the last entry with that path; and
/// that hash is not the file's.
pub proof fn law_unknown_hash_known_path_is_changed(
    entries: Seq<EntryView>,
    path: Seq<char>,
    hash: Seq<char>,
    size: u64,
    i: int,
)
    requires
        !has_hash(entries, hash),
        is_last_with_path(entries, path, i),
    ensures
        outcome_spec(entries, path, hash, size) == (OutcomeView::ContentChanged {
            old_hash: entries[i].hash,
        }),
        entries[i].hash != hash,
        entries_after(entries, path, hash) == mark_spec(entries, i),
{
    lemma_path_position(entries, path, i);
}

/// A file of which neither hash nor path is recorded is classified as new,
/// and the entries stay as they are.
pub proof fn law_unknown_hash_unknown_path_is_new(
    entries: Seq<EntryView>,
    path: Seq<char>,
    hash: Seq<char>,
    size: u64,
)
    requires
        !has_hash(entries, hash),
        !has_path(entries, path),
    ensures
        outcome_spec(entries, path, hash, size) == (OutcomeView::New { size }),
        entries_after(entries, path, hash) == entries,
{
}

/// Classifying a file changes nothing but the mark of the entry it was
/// matched to, and never takes a mark away.
pub proof fn law_classifying_only_marks(
    entries: Seq<EntryView>,
    path: Seq<char>,
    hash: Seq<char>,
    i: int,
)
    requires
        0 <= i < entries.len(),
    ensures
        entries_after(entries, path, hash).len() == entries.len(),
        entries_after(entries, path, hash)[i].hash == entries[i].hash,
        entries_after(entries, path, hash)[i].path == entries[i].path,
        entries_after(entries, path, hash)[i].size == entries[i].size,
        entries_after(entries, path, hash)[i].present == (entries[i].present || matched_position(
            entries,
            path,
            hash,
        ) == Some(i)),
{
    if has_path(entries, path) {
        crate::audit_map::lemma_path_position_is_last(entries, path);
    }
}

/// Classifying a file keeps the hashes of the entries distinct.
pub proof fn law_classifying_keeps_distinct(
    entries: Seq<EntryView>,
    path: Seq<char>,
    hash: Seq<char>,
)
    requires
        distinct_hashes(entries),
    ensures
        distinct_hashes(entries_after(entries, path, hash)),
{
    if has_path(entries, path) {
        crate::audit_map::lemma_path_position_is_last(entries, path);
    }
    match matched_position(entries, path, hash) {
        Some(i) => {
            lemma_mark_keeps_keys(entries, i);
        },
        None => {},
    }
}

/// A scan changes nothing of the entries but their marks, and takes no mark
/// away.
pub proof fn law_scan_only_marks(entries: Seq<EntryView>, files: Seq<FileInfoView>, i: int)
    requires
        0 <= i < entries.len(),
    ensures
        scan_entries(entries, files).len() == entries.len(),
        scan_entries(entries, files)[i].hash == entries[i].hash,
        scan_entries(entries, files)[i].path == entries[i].path,
        scan_entries(entries, files)[i].size == entries[i].size,
        entries[i].present ==> scan_entries(entries, files)[i].present,
    decreases files.len(),
{
    if files.len() > 0 {
        let before = scan_entries(entries, files.drop_last());
        law_scan_only_marks(entries, files.drop_last(), i);
        law_classifying_only_marks(before, files.last().path, files.last().hash, i);
    }
}

/// Marking an entry a second time changes nothing.
pub proof fn law_marking_twice_is_marking_once(entries: Seq<EntryView>, pos: int)
    requires
        0 <= pos < entries.len(),
    ensures
        mark_spec(mark_spec(entries, pos), pos) == mark_spec(entries, pos),
{
    assert(mark_spec(mark_spec(entries, pos), pos) =~= mark_spec(entries, pos));
}

/// Marking an entry changes neither what a file is matched to nor how it is
/// classified.
pub proof fn law_marks_do_not_change_outcomes(
    entries: Seq<EntryView>,
    pos: int,
    path: Seq<char>,
    hash: Seq<char>,
    size: u64,
)
    requires
        distinct_hashes(entries),
        0 <= pos < entries.len(),
    ensures
        matched_position(mark_spec(entries, pos), path, hash) == matched_position(
            entries,
            path,
            hash,
        ),
        outcome_spec(mark_spec(entries, pos), path, hash, size) == outcome_spec(
            entries,
            path,
            hash,
            size,
        ),
{
    let marked = mark_spec(entries, pos);
    lemma_mark_keeps_keys(entries, pos);
    if has_hash(entries, hash) {
        let i = choose|i: int| 0 <= i < entries.len() && (#[trigger] entries[i]).hash == hash;
        assert(marked[i].hash == hash);
        lemma_hash_position(entries, hash, i);
        lemma_hash_position(marked, hash, i);
    } else if has_path(entries, path) {
        crate::audit_map::lemma_path_position_is_last(entries, path);
        let i = path_position(entries, path)->0;
        assert(is_last_with_path(marked, path, i));
        lemma_path_position(marked, path, i);
        assert(marked[i].hash == entries[i].hash);
    }
}

/// How a file is classified, and what it is matched to, does not depend on
/// the files that were scanned before it.
pub proof fn law_outcomes_do_not_depend_on_earlier_files(
    entries: Seq<EntryView>,
    files: Seq<FileInfoView>,
    path: Seq<char>,
    hash: Seq<char>,
    size: u64,
)
    requires
        distinct_hashes(entries),
    ensures
        distinct_hashes(scan_entries(entries, files)),
        matched_position(scan_entries(entries, files), path, hash) == matched_position(
            entries,
            path,
            hash,
        ),
        outcome_spec(scan_entries(entries, files), path, hash, size) == outcome_spec(
            entries,
            path,
            hash,
            size,
        ),
    decreases files.len(),
{
    if files.len() > 0 {
        let before = scan_entries(entries, files.drop_last());
        let file = files.last();
        law_outcomes_do_not_depend_on_earlier_files(entries, files.drop_last(), path, hash, size);
        law_classifying_keeps_distinct(before, file.path, file.hash);
        if has_path(before, file.path) {
            crate::audit_map::lemma_path_position_is_last(before, file.path);
        }
        match matched_position(before, file.path, file.hash) {
            Some(pos) => {
                law_marks_do_not_change_outcomes(before, pos, path, hash, size);
            },
            None => {},
        }
    }
}

/// After a scan an entry is marked exactly if it was marked before or some
/// file of the scan was matched to it.
pub proof fn law_scan_marks_what_was_matched(
    entries: Seq<EntryView>,
    files: Seq<FileInfoView>,
    i: int,
)
    requires
        distinct_hashes(entries),
        0 <= i < entries.len(),
    ensures
        scan_entries(entries, files).len() == entries.len(),
        scan_entries(entries, files)[i].present <==> entries[i].present || exists|k: int|
            0 <= k < files.len() && matched_position(
                entries,
                (#[trigger] files[k]).path,
                files[k].hash,
            ) == Some(i),
    decreases files.len(),
{
    law_scan_only_marks(entries, files, i);
    if files.len() > 0 {
        let earlier = files.drop_last();
        let before = scan_entries(entries, earlier);
        let file = files.last();
        law_scan_marks_what_was_matched(entries, earlier, i);
        law_scan_only_marks(entries, earlier, i);
        law_classifying_only_marks(before, file.path, file.hash, i);
        law_outcomes_do_not_depend_on_earlier_files(entries, earlier, file.path, file.hash, 0);
        let last = files.len() - 1;
        assert(files[last] == file);
        if scan_entries(entries, files)[i].present && !entries[i].present {
            if before[i].present {
                let k = choose|k: int|
                    0 <= k < earlier.len() && matched_position(
                        entries,
                        (#[trigger] earlier[k]).path,
                        earlier[k].hash,
                    ) == Some(i);
                assert(files[k] == earlier[k]);
            } else {
                assert(matched_position(entries, files[last].path, files[last].hash) == Some(i));
            }
        }
        if exists|k: int|
            0 <= k < files.len() && matched_position(
                entries,
                (#[trigger] files[k]).path,
                files[k].hash,
            ) == Some(i) {
            let k = choose|k: int|
                0 <= k < files.len() && matched_position(
                    entries,
                    (#[trigger] files[k]).path,
                    files[k].hash,
                ) == Some(i);
            if k < last {
                assert(earlier[k] == files[k]);
            }
        }
    }
}

/// After a scan, the entries that no file was matched to each give one record
/// of a missing file, in the order of the manifest, and nothing else does.
pub proof fn law_one_missing_record_per_unmatched_entry(entries: Seq<EntryView>, k: int)
    requires
        0 <= k < unmatched(entries).len(),
    ensures
        missing_spec(entries).len() == unmatched(entries).len(),
        missing_spec(entries)[k] == missing_record(unmatched(entries)[k]),
        !unmatched(entries)[k].present,
        entries.contains(unmatched(entries)[k]),
{
    let pred = |e: EntryView| !e.present;
    entries.lemma_filter_pred(pred, k);
    assert(unmatched(entries).contains(unmatched(entries)[k]));
    entries.lemma_filter_contains_rev(pred, unmatched(entries)[k]);
}

/// Every entry that no file was matched to is among those listed as missing.
pub proof fn law_every_unmatched_entry_is_listed(entries: Seq<EntryView>, i: int)
    requires
        0 <= i < entries.len(),
        !entries[i].present,
    ensures
        unmatched(entries).contains(entries[i]),
        missing_spec(entries).contains(missing_record(entries[i])),
{
    let pred = |e: EntryView| !e.present;
    entries.lemma_filter_contains(pred, i);
    let k = choose|k: int| 0 <= k < unmatched(entries).len() && unmatched(entries)[k] == entries[i];
    assert(missing_spec(entries)[k] == missing_record(entries[i]));
}

/// An entry offered with a hash that is already recorded leaves the index as
/// it was: a lookup of that hash still gives the entry that held it first.
pub proof fn law_duplicate_hash_keeps_first(entries: Seq<EntryView>, entry: EntryView)
    requires
        has_hash(entries, entry.hash),
    ensures
        insert_spec(entries, entry) == entries,
        hash_position(insert_spec(entries, entry), entry.hash) == hash_position(
            entries,
            entry.hash,
        ),
{
}

/// An entry offered with a hash that is not yet recorded is stored last, not
/// yet met, and is what a lookup of its hash and one of its path then give.
pub proof fn law_new_hash_is_stored(entries: Seq<EntryView>, entry: EntryView)
    requires
        distinct_hashes(entries),
        !has_hash(entries, entry.hash),
    ensures
        insert_spec(entries, entry) == entries.push(entry.unmatched()),
        distinct_hashes(insert_spec(entries, entry)),
        hash_position(insert_spec(entries, entry), entry.hash) == Some(entries.len() as int),
        path_position(insert_spec(entries, entry), entry.path) == Some(entries.len() as int),
{
    let after = insert_spec(entries, entry);
    lemma_insert_keeps_distinct(entries, entry);
    lemma_hash_position(after, entry.hash, entries.len() as int);
    lemma_path_position(after, entry.path, entries.len() as int);
}

/// Reading lines into entries with distinct hashes, none of them marked,
/// leaves entries with distinct hashes, none of them marked.
pub proof fn law_reading_keeps_distinct(before: Seq<EntryView>, lines: Seq<Seq<char>>)
    requires
        distinct_hashes(before),
        forall|i: int| 0 <= i < before.len() ==> !(#[trigger] before[i]).present,
    ensures
        distinct_hashes(entries_with_lines(before, lines)),
        forall|i: int|
            0 <= i < entries_with_lines(before, lines).len() ==> !(#[trigger] entries_with_lines(
                before,
                lines,
            )[i]).present,
    decreases lines.len(),
{
    if lines.len() > 0 {
        let read = entries_with_lines(before, lines.drop_last());
        law_reading_keeps_distinct(before, lines.drop_last());
        match parse_line_spec(lines.last()).entry() {
            Some(entry) => {
                lemma_insert_keeps_distinct(read, entry);
            },
            None => {},
        }
    }
}

/// The entries read from a manifest never share a hash, and none of them is
/// marked as met.
pub proof fn law_manifest_entries_distinct(lines: Seq<Seq<char>>)
    ensures
        distinct_hashes(manifest_entries(lines)),
        forall|i: int|
            0 <= i < manifest_entries(lines).len() ==> !(#[trigger] manifest_entries(
                lines,
            )[i]).present,
{
    law_reading_keeps_distinct(Seq::empty(), lines);
}

/// Reading one more line loses no hash.
proof fn lemma_line_keeps_hashes(before: Seq<EntryView>, line: Seq<char>, hash: Seq<char>)
    requires
        has_hash(before, hash),
    ensures
        has_hash(entries_with_line(before, line), hash),
{
    let after = entries_with_line(before, line);
    let k = choose|k: int| 0 <= k < before.len() && (#[trigger] before[k]).hash == hash;
    assert(after[k].hash == hash);
}

/// Once lines are read, the hash of every entry that one of them holds is
/// recorded.
pub proof fn law_read_hashes_are_recorded(before: Seq<EntryView>, lines: Seq<Seq<char>>, k: int)
    requires
        0 <= k < lines.len(),
        parse_line_spec(lines[k]).entry() is Some,
    ensures
        has_hash(entries_with_lines(before, lines), parse_line_spec(lines[k]).entry()->0.hash),
    decreases lines.len(),
{
    let hash = parse_line_spec(lines[k]).entry()->0.hash;
    let read = entries_with_lines(before, lines.drop_last());
    let after = entries_with_lines(before, lines);
    if k == lines.len() - 1 {
        if !has_hash(read, hash) {
            assert(after[read.len() as int].hash == hash);
        }
    } else {
        assert(lines.drop_last()[k] == lines[k]);
        law_read_hashes_are_recorded(before, lines.drop_last(), k);
        lemma_line_keeps_hashes(read, lines.last(), hash);
    }
}

/// Reading two runs of lines one after the other is reading them as one run.
pub proof fn law_reading_in_two_runs(
    before: Seq<EntryView>,
    first: Seq<Seq<char>>,
    second: Seq<Seq<char>>,
)
    ensures
        entries_with_lines(before, first + second) == entries_with_lines(
            entries_with_lines(before, first),
            second,
        ),
    decreases second.len(),
{
    if second.len() == 0 {
        assert(first + second =~= first);
    } else {
        assert((first + second).drop_last() =~= first + second.drop_last());
        assert((first + second).last() == second.last());
        law_reading_in_two_runs(before, first, second.drop_last());
    }
}

/// Lines whose entries all have hashes that are recorded already change
/// nothing.
proof fn lemma_known_lines_change_nothing(entries: Seq<EntryView>, lines: Seq<Seq<char>>)
    requires
        forall|k: int|
            0 <= k < lines.len() && parse_line_spec(#[trigger] lines[k]).entry() is Some
                ==> has_hash(entries, parse_line_spec(lines[k]).entry()->0.hash),
    ensures
        entries_with_lines(entries, lines) == entries,
    decreases lines.len(),
{
    if lines.len() > 0 {
        assert forall|k: int|
            0 <= k < lines.drop_last().len() && parse_line_spec(
                #[trigger] lines.drop_last()[k],
            ).entry() is Some implies has_hash(
            entries,
            parse_line_spec(lines.drop_last()[k]).entry()->0.hash,
        ) by {
            assert(lines.drop_last()[k] == lines[k]);
        }
        lemma_known_lines_change_nothing(entries, lines.drop_last());
        assert(lines.last() == lines[lines.len() - 1]);
    }
}

/// Reading the lines of a manifest a second time into the same index changes
/// nothing: the entries are those of the first reading.
pub proof fn law_reading_again_changes_nothing(lines: Seq<Seq<char>>)
    ensures
        manifest_entries(lines + lines) == manifest_entries(lines),
{
    let read = manifest_entries(lines);
    law_reading_in_two_runs(Seq::empty(), lines, lines);
    assert forall|k: int|
        0 <= k < lines.len() && parse_line_spec(#[trigger] lines[k]).entry() is Some implies has_hash(
        read,
        parse_line_spec(lines[k]).entry()->0.hash,
    ) by {
        law_read_hashes_are_recorded(Seq::empty(), lines, k);
    }
    lemma_known_lines_change_nothing(read, lines);
}

/// What is read depends on the text alone: lines that hold the same text
/// give the same entries and the same notices, however often they are read.
pub proof fn law_reading_is_repeatable(first: Seq<Seq<char>>, second: Seq<Seq<char>>)
    requires
        first.len() == second.len(),
        forall|i: int| 0 <= i < first.len() ==> first[i] =~= second[i],
    ensures
        manifest_entries(first) == manifest_entries(second),
        manifest_notices(first) == manifest_notices(second),
{
    assert(first =~= second);
}

/// The line that lists a file outside an audit reads back, as a line of a
/// manifest, as an entry with the file's hash and path and no size: provided
/// that the hash holds no white space and the path none at its ends.
pub proof fn law_listing_reads_back(hash: Seq<char>, path: Seq<char>)
    requires
        !has_whitespace(hash),
        trim(path) == path,
    ensures
        parse_line_spec(render_spec(RecordView::Plain { hash, path }).text()) == ParsedLineView::Entry(
            EntryView { hash, path, present: false, size: 0 },
        ),
{
    reveal_strlit("  ");
    let line = render_spec(RecordView::Plain { hash, path }).text();
    let n = hash.len() as int;
    assert(line =~= hash + "  "@ + path);
    assert(line[n] == ' ');
    assert forall|j: int| 0 <= j < n implies !is_whitespace(#[trigger] line[j]) by {
        assert(line[j] == hash[j]);
    }
    lemma_first_whitespace(line, n);
    assert(line.take(n) =~= hash);
    let tail = line.skip(n + 1);
    assert(tail[0] == ' ');
    assert(tail.skip(1) =~= path);
    assert(trim_start(tail) == trim_start(path));
}

/// The three-field line that lists a file outside an audit reads back, as a
/// line of a manifest, as an entry with the file's size, hash and path:
/// provided that hash and path hold neither white space nor a comma.
pub proof fn law_three_field_listing_reads_back(size: u64, hash: Seq<char>, path: Seq<char>)
    requires
        !has_whitespace(hash),
        !has_whitespace(path),
        !has_comma(hash),
        !has_comma(path),
    ensures
        parse_line_spec(
            render_spec(RecordView::Compat { size, hash, canonical_path: path }).text(),
        ) == ParsedLineView::Entry(EntryView { hash, path, present: false, size }),
{
    reveal_strlit(",");
    let number = decimal_text(size as nat);
    lemma_decimal_text_reads_back(size as nat);
    let line = render_spec(RecordView::Compat { size, hash, canonical_path: path }).text();
    let n = number.len() as int;
    let m = hash.len() as int;
    assert(line =~= number + ","@ + hash + ","@ + path);
    assert forall|j: int| 0 <= j < line.len() implies !is_whitespace(#[trigger] line[j]) by {
        if j < n {
            assert(is_digit(number[j]));
        } else if j == n {
        } else if j < n + 1 + m {
            assert(line[j] == hash[j - n - 1]);
        } else if j == n + 1 + m {
        } else {
            assert(line[j] == path[j - n - m - 2]);
        }
    }
    assert(!has_whitespace(line));
    assert forall|j: int| 0 <= j < n implies #[trigger] line[j] != ',' by {
        assert(is_digit(number[j]));
    }
    assert(line[n] == ',');
    lemma_first_comma(line, n);
    let rest = line.skip(n + 1);
    assert(rest =~= hash + ","@ + path);
    assert forall|j: int| 0 <= j < m implies #[trigger] rest[j] != ',' by {
        assert(rest[j] == hash[j]);
    }
    assert(rest[m] == ',');
    lemma_first_comma(rest, m);
    assert(rest.skip(m + 1) =~= path);
    assert(line.take(n) =~= number);
    assert(rest.take(m) =~= hash);
}

/// Files with distinct paths keep distinct paths in whatever order they are
/// put.
pub proof fn law_reordering_keeps_paths_distinct(
    files: Seq<FileInfoView>,
    reordered: Seq<FileInfoView>,
)
    requires
        distinct_paths(files),
        reordered.to_multiset() == files.to_multiset(),
    ensures
        distinct_paths(reordered),
{
    broadcast use vstd::seq_lib::group_to_multiset_ensures;

    assert(files.no_duplicates()) by {
        assert forall|i: int, j: int| 0 <= i < files.len() && 0 <= j < files.len() && i
            != j implies files[i] != files[j] by {
            if i < j {
                assert(files[i].path != files[j].path);
            } else {
                assert(files[j].path != files[i].path);
            }
        }
    }
    files.lemma_multiset_has_no_duplicates();
    reordered.lemma_multiset_has_no_duplicates_conv();
    assert forall|i: int, j: int| 0 <= i < j < reordered.len() implies (#[trigger] reordered[i]).path
        != (#[trigger] reordered[j]).path by {
        assert(reordered[i] != reordered[j]);
        assert(reordered.contains(reordered[i]));
        assert(reordered.contains(reordered[j]));
        assert(reordered.to_multiset().count(reordered[i]) > 0);
        assert(reordered.to_multiset().count(reordered[j]) > 0);
        assert(files.contains(reordered[i]));
        assert(files.contains(reordered[j]));
        let p = choose|p: int| 0 <= p < files.len() && files[p] == reordered[i];
        let q = choose|q: int| 0 <= q < files.len() && files[q] == reordered[j];
        if p < q {
            assert(files[p].path != files[q].path);
        } else if q < p {
            assert(files[q].path != files[p].path);
        }
    }
}

/// Files with distinct paths can be put in the order of their paths in one
/// way only.
pub proof fn law_path_order_is_unique(first: Seq<FileInfoView>, second: Seq<FileInfoView>)
    requires
        first.to_multiset() == second.to_multiset(),
        in_path_order(first),
        in_path_order(second),
        distinct_paths(first),
    ensures
        first == second,
    decreases first.len(),
{
    broadcast use vstd::multiset::group_multiset_axioms;
    broadcast use vstd::seq_lib::group_to_multiset_ensures;

    assert(first.len() == first.to_multiset().len());
    assert(second.len() == second.to_multiset().len());
    if first.len() == 0 {
        assert(first =~= second);
    } else {
        assert(first.contains(first[0]));
        assert(second.contains(second[0]));
        assert(first.to_multiset().count(first[0]) > 0);
        assert(second.to_multiset().count(second[0]) > 0);
        assert(first.contains(second[0]));
        assert(second.contains(first[0]));
        let k = choose|k: int| 0 <= k < first.len() && first[k] == second[0];
        let m = choose|m: int| 0 <= m < second.len() && second[m] == first[0];
        if k > 0 {
            assert(text_le(first[0].path, first[k].path));
            if m > 0 {
                assert(text_le(second[0].path, second[m].path));
                lemma_text_le_antisymmetric(first[0].path, first[k].path);
            }
            assert(first[0].path == first[k].path);
            assert(false);
        }
        assert(first[0] == second[0]);
        assert(first.drop_first() =~= first.remove(0));
        assert(second.drop_first() =~= second.remove(0));
        assert(first.remove(0).to_multiset() =~= first.to_multiset().remove(first[0]));
        assert(second.remove(0).to_multiset() =~= second.to_multiset().remove(second[0]));
        let rest = first.drop_first();
        let other = second.drop_first();
        assert(in_path_order(rest)) by {
            assert forall|i: int, j: int| 0 <= i < j < rest.len() implies text_le(
                (#[trigger] rest[i]).path,
                (#[trigger] rest[j]).path,
            ) by {
                assert(text_le(first[i + 1].path, first[j + 1].path));
            }
        }
        assert(in_path_order(other)) by {
            assert forall|i: int, j: int| 0 <= i < j < other.len() implies text_le(
                (#[trigger] other[i]).path,
                (#[trigger] other[j]).path,
            ) by {
                assert(text_le(second[i + 1].path, second[j + 1].path));
            }
        }
        assert(distinct_paths(rest)) by {
            assert forall|i: int, j: int| 0 <= i < j < rest.len() implies (#[trigger] rest[i]).path
                != (#[trigger] rest[j]).path by {
                assert(first[i + 1].path != first[j + 1].path);
            }
        }
        law_path_order_is_unique(rest, other);
        assert(first =~= seq![first[0]] + rest);
        assert(second =~= seq![second[0]] + other);
    }
}

/// Files that were found in the order of their paths, no two with the same
/// path, stay as they were found when they are put in that order: a scan that
/// orders them and one that does not give the same records.
pub proof fn law_ordered_files_stay_as_found(
    entries: Option<Seq<EntryView>>,
    found: Seq<FileInfoView>,
    ordered: Seq<FileInfoView>,
    compat_output: bool,
)
    requires
        in_path_order(found),
        distinct_paths(found),
        is_path_ordering(ordered, found),
    ensures
        ordered == found,
        scan_spec(entries, ordered, compat_output) == scan_spec(entries, found, compat_output),
{
    law_path_order_is_unique(found, ordered);
}

/// The records of a scan that puts its files in the order of their paths do
/// not depend on the order in which the files were found, where no two files
/// have the same path.
pub proof fn law_sorted_scan_ignores_order_found(
    entries: Option<Seq<EntryView>>,
    found: Seq<FileInfoView>,
    found_otherwise: Seq<FileInfoView>,
    ordered: Seq<FileInfoView>,
    ordered_otherwise: Seq<FileInfoView>,
    compat_output: bool,
)
    requires
        distinct_paths(found),
        found.to_multiset() == found_otherwise.to_multiset(),
        is_path_ordering(ordered, found),
        is_path_ordering(ordered_otherwise, found_otherwise),
    ensures
        ordered == ordered_otherwise,
        scan_spec(entries, ordered, compat_output) == scan_spec(
            entries,
            ordered_otherwise,
            compat_output,
        ),
{
    law_reordering_keeps_paths_distinct(found, ordered);
    law_path_order_is_unique(ordered, ordered_otherwise);
}

} // verus!
