//! Reading the text of a manifest.
//!
//! A line is read in one of two forms. The first is a hash, white space and a
//! path. The second, tried only on a line without white space, is a size, a
//! hash and a path between two commas.
use crate::audit_map::{hash_position, insert_spec, AuditMap, Insertion};
use crate::decimal::{parse_u64_in, parse_u64_spec};
use crate::entry::{EntryView, FileEntry};
use crate::lines::{line_views, split_lines, split_lines_spec};
use crate::text::{chars_of, find_whitespace, first_whitespace, trim, trim_bounds};
use vstd::prelude::*;
use vstd::string::StrSliceExecFns;

verus! {

/// Some character of `s` is a comma.
pub open spec fn has_comma(s: Seq<char>) -> bool {
    exists|i: int| 0 <= i < s.len() && #[trigger] s[i] == ','
}

/// Character `i` of `s` is a comma, and none before it is.
pub open spec fn is_first_comma(s: Seq<char>, i: int) -> bool {
    &&& 0 <= i < s.len()
    &&& s[i] == ','
    &&& forall|j: int| 0 <= j < i ==> #[trigger] s[j] != ','
}

/// The position of the first comma in `s`.
pub open spec fn first_comma(s: Seq<char>) -> Option<int> {
    if has_comma(s) {
        Some(choose|i: int| is_first_comma(s, i))
    } else {
        None
    }
}

/// There is one first comma at most.
pub proof fn lemma_first_comma(s: Seq<char>, i: int)
    requires
        is_first_comma(s, i),
    ensures
        first_comma(s) == Some(i),
{
    let k = choose|k: int| is_first_comma(s, k);
    if k < i {
        assert(s[k] != ',');
    } else if i < k {
        assert(s[i] != ',');
    }
}

/// The three fields of a line that holds exactly two commas.
pub open spec fn three_fields(s: Seq<char>) -> Option<(Seq<char>, Seq<char>, Seq<char>)> {
    match first_comma(s) {
        Some(i) => {
            let rest = s.skip(i + 1);
            match first_comma(rest) {
                Some(j) => {
                    let last = rest.skip(j + 1);
                    if has_comma(last) {
                        None
                    } else {
                        Some((s.take(i), rest.take(j), last))
                    }
                },
                None => None,
            }
        },
        None => None,
    }
}

/// Finds the first comma at or after `from`.
fn find_comma(chars: &Vec<char>, from: usize) -> (found: Option<usize>)
    requires
        from <= chars@.len(),
    ensures
        match found {
            Some(k) => from <= k < chars@.len() && first_comma(chars@.skip(from as int)) == Some(
                k - from,
            ),
            None => first_comma(chars@.skip(from as int)) is None,
        },
{
    let ghost s = chars@.skip(from as int);
    let mut k: usize = from;
    while k < chars.len()
        invariant
            from <= k <= chars@.len(),
            s == chars@.skip(from as int),
            forall|j: int| 0 <= j < k - from ==> #[trigger] s[j] != ',',
        decreases chars@.len() - k,
    {
        if chars[k] == ',' {
            proof {
                assert(s[k - from] == ',');
                lemma_first_comma(s, k - from);
            }
            return Some(k);
        }
        assert(s[k - from] != ',');
        k = k + 1;
    }
    None
}

/// What one line of a manifest holds.
#[derive(Debug, PartialEq, Eq)]
pub enum ParsedLine {
    /// An entry, in either form.
    Entry(FileEntry),
    /// An entry in the form with a size, whose size field is no number: the
    /// entry has size 0, and the field is handed back as written.
    EntryWithBadSize { entry: FileEntry, size_text: String },
    /// A line in neither form.
    Unparsable,
}

/// The mathematical value of a [`ParsedLine`].
pub ghost enum ParsedLineView {
    Entry(EntryView),
    EntryWithBadSize { entry: EntryView, size_text: Seq<char> },
    Unparsable,
}

impl View for ParsedLine {
    type V = ParsedLineView;

    open spec fn view(&self) -> ParsedLineView {
        match self {
            ParsedLine::Entry(entry) => ParsedLineView::Entry(entry@),
            ParsedLine::EntryWithBadSize { entry, size_text } => ParsedLineView::EntryWithBadSize {
                entry: entry@,
                size_text: size_text@,
            },
            ParsedLine::Unparsable => ParsedLineView::Unparsable,
        }
    }
}

impl ParsedLineView {
    /// The entry that the line holds, if it holds one.
    pub open spec fn entry(self) -> Option<EntryView> {
        match self {
            ParsedLineView::Entry(entry) => Some(entry),
            ParsedLineView::EntryWithBadSize { entry, .. } => Some(entry),
            ParsedLineView::Unparsable => None,
        }
    }
}

/// What a line holds.
///
/// With white space in it, the line is a hash and a path: the hash is what
/// stands before the first white space, the path what follows it, without
/// the white space at its ends. Without white space and with exactly two
/// commas, it is a size, a hash and a path; a size field that is no number
/// gives size 0. Any other line holds nothing.
pub open spec fn parse_line_spec(line: Seq<char>) -> ParsedLineView {
    match first_whitespace(line) {
        Some(i) => ParsedLineView::Entry(
            EntryView { hash: line.take(i), path: trim(line.skip(i + 1)), present: false, size: 0 },
        ),
        None => match three_fields(line) {
            Some((size_text, hash, path)) => match parse_u64_spec(size_text) {
                Some(size) => ParsedLineView::Entry(
                    EntryView { hash, path, present: false, size },
                ),
                None => ParsedLineView::EntryWithBadSize {
                    entry: EntryView { hash, path, present: false, size: 0 },
                    size_text,
                },
            },
            None => ParsedLineView::Unparsable,
        },
    }
}

/// Reads one line of a manifest. The line comes without its line ending.
pub fn parse_line(line: &str) -> (parsed: ParsedLine)
    ensures
        parsed@ == parse_line_spec(line@),
{
    let chars = chars_of(line);
    let n: usize = chars.len();
    match find_whitespace(&chars) {
        Some(i) => {
            let (a, b) = trim_bounds(&chars, i + 1, n);
            proof {
                assert(line@.subrange(0, i as int) =~= line@.take(i as int));
                assert(line@.subrange(i as int + 1, n as int) =~= line@.skip(i as int + 1));
            }
            let hash = line.substring_char(0, i).to_owned();
            let path = line.substring_char(a, b).to_owned();
            ParsedLine::Entry(FileEntry::new(hash, path))
        },
        None => {
            proof {
                assert(line@.skip(0) =~= line@);
            }
            let i: usize = match find_comma(&chars, 0) {
                Some(i) => i,
                None => {
                    return ParsedLine::Unparsable;
                },
            };
            let j: usize = match find_comma(&chars, i + 1) {
                Some(j) => j,
                None => {
                    return ParsedLine::Unparsable;
                },
            };
            let ghost rest = line@.skip(i as int + 1);
            proof {
                assert(rest.skip(j - i - 1 + 1) =~= line@.skip(j as int + 1));
                assert(rest.take(j - i - 1) =~= line@.subrange(i as int + 1, j as int));
                assert(line@.take(i as int) =~= line@.subrange(0, i as int));
                assert(line@.skip(j as int + 1) =~= line@.subrange(j as int + 1, n as int));
            }
            match find_comma(&chars, j + 1) {
                Some(_) => {
                    return ParsedLine::Unparsable;
                },
                None => {},
            }
            let hash = line.substring_char(i + 1, j).to_owned();
            let path = line.substring_char(j + 1, n).to_owned();
            match parse_u64_in(&chars, 0, i) {
                Some(size) => ParsedLine::Entry(FileEntry::new_s(hash, path, size)),
                None => ParsedLine::EntryWithBadSize {
                    entry: FileEntry::new_s(hash, path, 0),
                    size_text: line.substring_char(0, i).to_owned(),
                },
            }
        },
    }
}

/// Something that the reader of a manifest tells its caller. None of them
/// stops the reading. Lines are counted from 0.
#[derive(Debug, Clone, PartialEq, Eq)]
pub enum Notice {
    /// The line is in neither form and was skipped.
    Unparsable { line: usize, text: String },
    /// The size field of the line is no number; the entry was given size 0.
    BadSize { line: usize, size_text: String },
    /// The hash of the line's entry was recorded already, by an entry with
    /// the path `prior_path`; the line's entry was dropped.
    Duplicate { line: usize, hash: String, path: String, prior_path: String },
}

/// The mathematical value of a [`Notice`].
pub ghost enum NoticeView {
    Unparsable { line: int, text: Seq<char> },
    BadSize { line: int, size_text: Seq<char> },
    Duplicate { line: int, hash: Seq<char>, path: Seq<char>, prior_path: Seq<char> },
}

impl View for Notice {
    type V = NoticeView;

    open spec fn view(&self) -> NoticeView {
        match self {
            Notice::Unparsable { line, text } => NoticeView::Unparsable {
                line: *line as int,
                text: text@,
            },
            Notice::BadSize { line, size_text } => NoticeView::BadSize {
                line: *line as int,
                size_text: size_text@,
            },
            Notice::Duplicate { line, hash, path, prior_path } => NoticeView::Duplicate {
                line: *line as int,
                hash: hash@,
                path: path@,
                prior_path: prior_path@,
            },
        }
    }
}

/// The values of a run of notices, in order.
pub open spec fn notice_views(notices: Seq<Notice>) -> Seq<NoticeView> {
    notices.map_values(|n: Notice| n@)
}

/// The entries after one more line was read.
pub open spec fn entries_with_line(before: Seq<EntryView>, line: Seq<char>) -> Seq<EntryView> {
    match parse_line_spec(line).entry() {
        Some(entry) => insert_spec(before, entry),
        None => before,
    }
}

/// The entries after more lines were read, in order: each line that holds an
/// entry offers it to the index.
pub open spec fn entries_with_lines(before: Seq<EntryView>, lines: Seq<Seq<char>>) -> Seq<
    EntryView,
>
    decreases lines.len(),
{
    if lines.len() == 0 {
        before
    } else {
        entries_with_line(entries_with_lines(before, lines.drop_last()), lines.last())
    }
}

/// The entries that the lines of a manifest give, read in order into an
/// empty index.
pub open spec fn manifest_entries(lines: Seq<Seq<char>>) -> Seq<EntryView> {
    entries_with_lines(Seq::empty(), lines)
}

/// What reading a line tells about its form.
pub open spec fn form_notices(index: int, line: Seq<char>) -> Seq<NoticeView> {
    match parse_line_spec(line) {
        ParsedLineView::Entry(_) => Seq::empty(),
        ParsedLineView::EntryWithBadSize { size_text, .. } => seq![
            NoticeView::BadSize { line: index, size_text },
        ],
        ParsedLineView::Unparsable => seq![NoticeView::Unparsable { line: index, text: line }],
    }
}

/// What reading a line tells about its entry, given the entries before it.
pub open spec fn duplicate_notices(before: Seq<EntryView>, index: int, line: Seq<char>) -> Seq<
    NoticeView,
> {
    match parse_line_spec(line).entry() {
        Some(entry) => match hash_position(before, entry.hash) {
            Some(k) => seq![
                NoticeView::Duplicate {
                    line: index,
                    hash: entry.hash,
                    path: entry.path,
                    prior_path: before[k].path,
                },
            ],
            None => Seq::empty(),
        },
        None => Seq::empty(),
    }
}

/// The notices that the lines of a manifest give, in the order of the lines;
/// for one line, what concerns its form comes first.
pub open spec fn manifest_notices(lines: Seq<Seq<char>>) -> Seq<NoticeView>
    decreases lines.len(),
{
    if lines.len() == 0 {
        Seq::empty()
    } else {
        let index = lines.len() - 1;
        manifest_notices(lines.drop_last()) + form_notices(index, lines.last())
            + duplicate_notices(manifest_entries(lines.drop_last()), index, lines.last())
    }
}

/// Builds the index of a manifest from its lines, and collects what there is
/// to say about them.
pub fn read_manifest(lines: &Vec<String>) -> (read: (AuditMap, Vec<Notice>))
    ensures
        read.0.wf(),
        read.0@ == manifest_entries(line_views(lines@)),
        notice_views(read.1@) == manifest_notices(line_views(lines@)),
{
    let ghost all = line_views(lines@);
    let n: usize = lines.len();
    let mut map = AuditMap::new();
    let mut notices: Vec<Notice> = Vec::new();
    let mut i: usize = 0;
    proof {
        assert(all.take(0) =~= Seq::<Seq<char>>::empty());
        assert(notice_views(notices@) =~= Seq::<NoticeView>::empty());
    }
    while i < n
        invariant
            n == lines@.len(),
            i <= n,
            all == line_views(lines@),
            map.wf(),
            map@ == manifest_entries(all.take(i as int)),
            notice_views(notices@) == manifest_notices(all.take(i as int)),
        decreases n - i,
    {
        let ghost line = all[i as int];
        let ghost before = map@;
        let ghost told = notice_views(notices@);
        proof {
            assert(all.take(i as int + 1).drop_last() =~= all.take(i as int));
            assert(all.take(i as int + 1).last() == line);
        }
        let parsed = parse_line(lines[i].as_str());
        let entry: Option<FileEntry> = match parsed {
            ParsedLine::Entry(entry) => Some(entry),
            ParsedLine::EntryWithBadSize { entry, size_text } => {
                notices.push(Notice::BadSize { line: i, size_text });
                Some(entry)
            },
            ParsedLine::Unparsable => {
                notices.push(Notice::Unparsable { line: i, text: lines[i].clone() });
                None
            },
        };
        assert(notice_views(notices@) =~= told + form_notices(i as int, line));
        match entry {
            Some(entry) => {
                let hash = entry.hash.clone();
                let path = entry.path.clone();
                let ghost formed = notices@;
                match map.insert(entry) {
                    Insertion::Added => {},
                    Insertion::Duplicate { prior_path } => {
                        notices.push(Notice::Duplicate { line: i, hash, path, prior_path });
                    },
                }
                assert(notice_views(notices@) =~= notice_views(formed) + duplicate_notices(
                    before,
                    i as int,
                    line,
                ));
            },
            None => {
                assert(notice_views(notices@) =~= notice_views(notices@) + duplicate_notices(
                    before,
                    i as int,
                    line,
                ));
            },
        }
        i = i + 1;
    }
    assert(all.take(n as int) =~= all);
    (map, notices)
}

/// Builds the index of a manifest from the bytes of its text, line by line.
pub fn read_manifest_text(bytes: &[u8]) -> (read: (AuditMap, Vec<Notice>))
    ensures
        read.0.wf(),
        read.0@ == manifest_entries(split_lines_spec(bytes@)),
        notice_views(read.1@) == manifest_notices(split_lines_spec(bytes@)),
{
    let lines = split_lines(bytes);
    read_manifest(&lines)
}

} // verus!
