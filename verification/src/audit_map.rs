//! The manifest, indexed by hash and by path.
use crate::entry::{views, EntryView, FileEntry};
use vstd::hash_map::StringHashMap;
use vstd::prelude::*;

verus! {

/// Some entry records `hash`.
pub open spec fn has_hash(entries: Seq<EntryView>, hash: Seq<char>) -> bool {
    exists|i: int| 0 <= i < entries.len() && (#[trigger] entries[i]).hash == hash
}

/// Some entry records `path`.
pub open spec fn has_path(entries: Seq<EntryView>, path: Seq<char>) -> bool {
    exists|i: int| 0 <= i < entries.len() && (#[trigger] entries[i]).path == path
}

/// No two entries record the same hash.
pub open spec fn distinct_hashes(entries: Seq<EntryView>) -> bool {
    forall|i: int, j: int|
        0 <= i < j < entries.len() ==> (#[trigger] entries[i]).hash != (#[trigger] entries[j]).hash
}

/// Entry `i` records `path`, and no later entry does.
pub open spec fn is_last_with_path(entries: Seq<EntryView>, path: Seq<char>, i: int) -> bool {
    &&& 0 <= i < entries.len()
    &&& entries[i].path == path
    &&& forall|j: int| i < j < entries.len() ==> (#[trigger] entries[j]).path != path
}

/// The position of the entry that records `hash`. Where hashes are distinct
/// there is at most one.
pub open spec fn hash_position(entries: Seq<EntryView>, hash: Seq<char>) -> Option<int> {
    if has_hash(entries, hash) {
        Some(choose|i: int| 0 <= i < entries.len() && (#[trigger] entries[i]).hash == hash)
    } else {
        None
    }
}

/// The position of the last entry that records `path`.
pub open spec fn path_position(entries: Seq<EntryView>, path: Seq<char>) -> Option<int> {
    if has_path(entries, path) {
        Some(choose|i: int| is_last_with_path(entries, path, i))
    } else {
        None
    }
}

/// The entries after `entry` was offered: unchanged where its hash is already
/// recorded, else with `entry` appended as not yet met.
pub open spec fn insert_spec(entries: Seq<EntryView>, entry: EntryView) -> Seq<EntryView> {
    if has_hash(entries, entry.hash) {
        entries
    } else {
        entries.push(entry.unmatched())
    }
}

/// The entries after the one at `pos` was met by a scan.
pub open spec fn mark_spec(entries: Seq<EntryView>, pos: int) -> Seq<EntryView> {
    entries.update(pos, entries[pos].matched())
}

/// The entries that no scan has met, in the order of the manifest.
pub open spec fn unmatched(entries: Seq<EntryView>) -> Seq<EntryView> {
    entries.filter(|e: EntryView| !e.present)
}

/// Where hashes are distinct, the entry that records a hash is found at its
/// own position.
pub proof fn lemma_hash_position(entries: Seq<EntryView>, hash: Seq<char>, i: int)
    requires
        distinct_hashes(entries),
        0 <= i < entries.len(),
        entries[i].hash == hash,
    ensures
        hash_position(entries, hash) == Some(i),
{
    let k = choose|k: int| 0 <= k < entries.len() && (#[trigger] entries[k]).hash == hash;
    if k < i {
        assert(entries[k].hash != entries[i].hash);
    } else if i < k {
        assert(entries[i].hash != entries[k].hash);
    }
}

/// The last entry that records a path is the one found for it.
pub proof fn lemma_path_position(entries: Seq<EntryView>, path: Seq<char>, i: int)
    requires
        is_last_with_path(entries, path, i),
    ensures
        path_position(entries, path) == Some(i),
{
    let k = choose|k: int| is_last_with_path(entries, path, k);
    if k < i {
        assert(entries[i].path != path);
    } else if i < k {
        assert(entries[k].path != path);
    }
}

/// A path that some entry records has a last entry that records it.
pub proof fn lemma_path_position_is_last(entries: Seq<EntryView>, path: Seq<char>)
    requires
        has_path(entries, path),
    ensures
        path_position(entries, path) is Some,
        is_last_with_path(entries, path, path_position(entries, path)->0),
{
    let k = choose|k: int| 0 <= k < entries.len() && (#[trigger] entries[k]).path == path;
    lemma_last_from(entries, path, k);
}

proof fn lemma_last_from(entries: Seq<EntryView>, path: Seq<char>, k: int)
    requires
        0 <= k < entries.len(),
        entries[k].path == path,
    ensures
        exists|i: int| is_last_with_path(entries, path, i),
    decreases entries.len() - k,
{
    if exists|j: int| k < j < entries.len() && (#[trigger] entries[j]).path == path {
        let j = choose|j: int| k < j < entries.len() && (#[trigger] entries[j]).path == path;
        lemma_last_from(entries, path, j);
    } else {
        assert(is_last_with_path(entries, path, k));
    }
}

/// Offering an entry keeps hashes distinct.
pub proof fn lemma_insert_keeps_distinct(entries: Seq<EntryView>, entry: EntryView)
    requires
        distinct_hashes(entries),
    ensures
        distinct_hashes(insert_spec(entries, entry)),
{
    if !has_hash(entries, entry.hash) {
        let after = entries.push(entry.unmatched());
        assert forall|i: int, j: int| 0 <= i < j < after.len() implies (#[trigger] after[i]).hash
            != (#[trigger] after[j]).hash by {
            if j < entries.len() {
                assert(entries[i].hash != entries[j].hash);
            } else {
                assert(entries[i].hash != entry.hash);
            }
        }
    }
}

/// What became of an entry that was offered to the index.
#[derive(Debug, Clone, PartialEq, Eq)]
pub enum Insertion {
    /// The entry was stored.
    Added,
    /// Its hash was already recorded, by an entry with this path; the new
    /// entry was dropped.
    Duplicate { prior_path: String },
}

/// The mathematical value of an [`Insertion`].
pub ghost enum InsertionView {
    Added,
    Duplicate { prior_path: Seq<char> },
}

impl View for Insertion {
    type V = InsertionView;

    open spec fn view(&self) -> InsertionView {
        match self {
            Insertion::Added => InsertionView::Added,
            Insertion::Duplicate { prior_path } => InsertionView::Duplicate {
                prior_path: prior_path@,
            },
        }
    }
}

/// What offering `entry` reports: a duplicate, with the path of the entry that
/// holds the hash, where the hash is already recorded.
pub open spec fn insertion_spec(entries: Seq<EntryView>, entry: EntryView) -> InsertionView {
    match hash_position(entries, entry.hash) {
        Some(i) => InsertionView::Duplicate { prior_path: entries[i].path },
        None => InsertionView::Added,
    }
}

/// The entries of a manifest in the order in which they were stored, with a
/// lookup by hash and one by path.
///
/// No two stored entries share a hash. Paths may repeat; a lookup by path
/// gives the entry stored last.
pub struct AuditMap {
    by_hash: StringHashMap<usize>,
    by_path: StringHashMap<usize>,
    data: Vec<FileEntry>,
}

impl View for AuditMap {
    type V = Seq<EntryView>;

    closed spec fn view(&self) -> Seq<EntryView> {
        views(self.data@)
    }
}

impl AuditMap {
    /// The two lookups agree with the stored entries, and hashes are distinct.
    pub closed spec fn wf(&self) -> bool {
        &&& distinct_hashes(self@)
        &&& forall|h: Seq<char>| #[trigger] self.by_hash@.contains_key(h) <==> has_hash(self@, h)
        &&& forall|h: Seq<char>| #[trigger]
            self.by_hash@.contains_key(h) ==> 0 <= self.by_hash@[h] < self@.len()
                && self@[self.by_hash@[h] as int].hash == h
        &&& forall|p: Seq<char>| #[trigger] self.by_path@.contains_key(p) <==> has_path(self@, p)
        &&& forall|p: Seq<char>| #[trigger]
            self.by_path@.contains_key(p) ==> is_last_with_path(
                self@,
                p,
                self.by_path@[p] as int,
            )
    }

    /// A well-formed index holds no hash twice.
    pub proof fn lemma_distinct(&self)
        requires
            self.wf(),
        ensures
            distinct_hashes(self@),
    {
    }

    /// An index with no entries.
    pub fn new() -> (map: AuditMap)
        ensures
            map.wf(),
            map@ == Seq::<EntryView>::empty(),
    {
        let by_hash = StringHashMap::new();
        let by_path = StringHashMap::new();
        let data = Vec::new();
        let map = AuditMap { by_hash, by_path, data };
        assert(map@ =~= Seq::<EntryView>::empty());
        map
    }

    /// The number of stored entries.
    pub fn len(&self) -> (n: usize)
        ensures
            n == self@.len(),
    {
        self.data.len()
    }

    /// Offers an entry to the index. It is stored at the end, as not yet met,
    /// and registered under its hash and its path, unless an entry with the
    /// same hash is stored already: then the index stays as it is and the
    /// path of that entry is reported.
    pub fn insert(&mut self, entry: FileEntry) -> (outcome: Insertion)
        requires
            old(self).wf(),
        ensures
            final(self).wf(),
            final(self)@ == insert_spec(old(self)@, entry@),
            outcome@ == insertion_spec(old(self)@, entry@),
    {
        let found: Option<usize> = match self.by_hash.get(entry.hash.as_str()) {
            Some(i) => Some(*i),
            None => None,
        };
        match found {
            Some(i) => {
                proof {
                    lemma_hash_position(self@, entry@.hash, i as int);
                }
                Insertion::Duplicate { prior_path: self.data[i].path.clone() }
            },
            None => {
                let hash = entry.hash.clone();
                let path = entry.path.clone();
                let pos: usize = self.data.len();
                let ghost before = self@;
                let ghost stored = entry@.unmatched();
                self.data.push(
                    FileEntry { hash: entry.hash, path: entry.path, present: false, size: entry.size },
                );
                self.by_hash.insert(hash, pos);
                self.by_path.insert(path, pos);
                proof {
                    let after = self@;
                    assert(after =~= before.push(stored));
                    lemma_insert_keeps_distinct(before, entry@);
                    assert forall|h: Seq<char>| #[trigger]
                        self.by_hash@.contains_key(h) <==> has_hash(after, h) by {
                        if h == stored.hash {
                            assert(after[pos as int].hash == h);
                        } else if has_hash(before, h) {
                            let k = choose|k: int|
                                0 <= k < before.len() && (#[trigger] before[k]).hash == h;
                            assert(after[k].hash == h);
                        } else if has_hash(after, h) {
                            let k = choose|k: int|
                                0 <= k < after.len() && (#[trigger] after[k]).hash == h;
                            assert(before[k].hash == h);
                        }
                    }
                    assert forall|p: Seq<char>| #[trigger]
                        self.by_path@.contains_key(p) <==> has_path(after, p) by {
                        if p == stored.path {
                            assert(after[pos as int].path == p);
                        } else if has_path(before, p) {
                            let k = choose|k: int|
                                0 <= k < before.len() && (#[trigger] before[k]).path == p;
                            assert(after[k].path == p);
                        } else if has_path(after, p) {
                            let k = choose|k: int|
                                0 <= k < after.len() && (#[trigger] after[k]).path == p;
                            assert(before[k].path == p);
                        }
                    }
                    assert forall|p: Seq<char>| #[trigger]
                        self.by_path@.contains_key(p) implies is_last_with_path(
                        after,
                        p,
                        self.by_path@[p] as int,
                    ) by {
                        if p != stored.path {
                            let k = old(self).by_path@[p] as int;
                            assert(is_last_with_path(before, p, k));
                            assert(after[k] == before[k]);
                        }
                    }
                }
                Insertion::Added
            },
        }
    }

    /// The position of the entry that records `hash`, if there is one.
    pub fn find_by_hash(&self, hash: &str) -> (found: Option<usize>)
        requires
            self.wf(),
        ensures
            match found {
                Some(i) => hash_position(self@, hash@) == Some(i as int) && i < self@.len(),
                None => hash_position(self@, hash@) is None,
            },
    {
        match self.by_hash.get(hash) {
            Some(i) => {
                proof {
                    lemma_hash_position(self@, hash@, *i as int);
                }
                Some(*i)
            },
            None => None,
        }
    }

    /// The position of the last entry that records `path`, if there is one.
    /// The path is compared as written: nothing is normalised.
    pub fn find_by_path(&self, path: &str) -> (found: Option<usize>)
        requires
            self.wf(),
        ensures
            match found {
                Some(i) => path_position(self@, path@) == Some(i as int) && i < self@.len(),
                None => path_position(self@, path@) is None,
            },
    {
        match self.by_path.get(path) {
            Some(i) => {
                proof {
                    lemma_path_position(self@, path@, *i as int);
                }
                Some(*i)
            },
            None => None,
        }
    }

    /// The entry at a position.
    pub fn get(&self, pos: usize) -> (entry: &FileEntry)
        requires
            pos < self@.len(),
        ensures
            entry@ == self@[pos as int],
    {
        &self.data[pos]
    }

    /// The entry that records `hash`, if there is one.
    pub fn get_by_hash(&self, hash: &str) -> (found: Option<&FileEntry>)
        requires
            self.wf(),
        ensures
            match hash_position(self@, hash@) {
                Some(i) => found is Some && found->0@ == self@[i],
                None => found is None,
            },
    {
        match self.find_by_hash(hash) {
            Some(i) => Some(&self.data[i]),
            None => None,
        }
    }

    /// The last entry that records `path`, if there is one.
    pub fn get_by_path(&self, path: &str) -> (found: Option<&FileEntry>)
        requires
            self.wf(),
        ensures
            match path_position(self@, path@) {
                Some(i) => found is Some && found->0@ == self@[i],
                None => found is None,
            },
    {
        match self.find_by_path(path) {
            Some(i) => Some(&self.data[i]),
            None => None,
        }
    }

    /// Records that a scan has met the entry at `pos`. Doing so again changes
    /// nothing.
    pub fn mark_present(&mut self, pos: usize)
        requires
            old(self).wf(),
            pos < old(self)@.len(),
        ensures
            final(self).wf(),
            final(self)@ == mark_spec(old(self)@, pos as int),
    {
        let ghost before = self@;
        self.data[pos].present = true;
        proof {
            let after = self@;
            assert(after =~= mark_spec(before, pos as int));
            lemma_mark_keeps_keys(before, pos as int);
        }
    }

    /// Copies of the entries that no scan has met, in the order in which they
    /// were stored.
    pub fn unmatched_entries(&self) -> (entries: Vec<FileEntry>)
        ensures
            views(entries@) == unmatched(self@),
    {
        let n: usize = self.data.len();
        let mut entries: Vec<FileEntry> = Vec::new();
        let mut i: usize = 0;
        proof {
            reveal(Seq::filter);
            assert(self@.take(0) =~= Seq::<EntryView>::empty());
            assert(views(entries@) =~= unmatched(self@.take(0)));
        }
        while i < n
            invariant
                n == self.data@.len(),
                i <= n,
                views(entries@) == unmatched(self@.take(i as int)),
            decreases n - i,
        {
            proof {
                assert(self@.take(i as int + 1) =~= self@.take(i as int).push(self@[i as int]));
                self@.take(i as int).lemma_filter_push(self@[i as int], |e: EntryView| !e.present);
            }
            if !self.data[i].present {
                let ghost before = entries@;
                let entry = self.data[i].clone();
                entries.push(entry);
                assert(views(entries@) =~= views(before).push(entry@));
            }
            i = i + 1;
        }
        assert(self@.take(n as int) =~= self@);
        entries
    }

    /// The stored entries, in the order in which they were stored.
    pub fn iter(&self) -> (entries: &Vec<FileEntry>)
        ensures
            views(entries@) == self@,
    {
        &self.data
    }
}

/// Marking an entry changes neither hashes nor paths.
pub proof fn lemma_mark_keeps_keys(entries: Seq<EntryView>, pos: int)
    requires
        0 <= pos < entries.len(),
    ensures
        mark_spec(entries, pos).len() == entries.len(),
        forall|i: int|
            0 <= i < entries.len() ==> (#[trigger] mark_spec(entries, pos)[i]).hash
                == entries[i].hash && mark_spec(entries, pos)[i].path == entries[i].path
                && mark_spec(entries, pos)[i].size == entries[i].size,
        distinct_hashes(entries) ==> distinct_hashes(mark_spec(entries, pos)),
        forall|h: Seq<char>|
            has_hash(entries, h) <==> #[trigger] has_hash(mark_spec(entries, pos), h),
        forall|p: Seq<char>|
            has_path(entries, p) <==> #[trigger] has_path(mark_spec(entries, pos), p),
        forall|p: Seq<char>, i: int|
            is_last_with_path(entries, p, i) <==> #[trigger] is_last_with_path(
                mark_spec(entries, pos),
                p,
                i,
            ),
{
    let after = mark_spec(entries, pos);
    assert forall|h: Seq<char>| has_hash(entries, h) <==> #[trigger] has_hash(after, h) by {
        if has_hash(entries, h) {
            let k = choose|k: int| 0 <= k < entries.len() && (#[trigger] entries[k]).hash == h;
            assert(after[k].hash == h);
        }
        if has_hash(after, h) {
            let k = choose|k: int| 0 <= k < after.len() && (#[trigger] after[k]).hash == h;
            assert(entries[k].hash == h);
        }
    }
    assert forall|p: Seq<char>| has_path(entries, p) <==> #[trigger] has_path(after, p) by {
        if has_path(entries, p) {
            let k = choose|k: int| 0 <= k < entries.len() && (#[trigger] entries[k]).path == p;
            assert(after[k].path == p);
        }
        if has_path(after, p) {
            let k = choose|k: int| 0 <= k < after.len() && (#[trigger] after[k]).path == p;
            assert(entries[k].path == p);
        }
    }
    assert forall|p: Seq<char>, i: int|
        is_last_with_path(entries, p, i) <==> #[trigger] is_last_with_path(after, p, i) by {
        if is_last_with_path(entries, p, i) {
            assert forall|j: int| i < j < after.len() implies (#[trigger] after[j]).path != p by {
                assert(entries[j].path != p);
            }
        }
        if is_last_with_path(after, p, i) {
            assert forall|j: int| i < j < entries.len() implies (#[trigger] entries[j]).path
                != p by {
                assert(after[j].path != p);
            }
        }
    }
    if distinct_hashes(entries) {
        assert forall|i: int, j: int| 0 <= i < j < after.len() implies (#[trigger] after[i]).hash
            != (#[trigger] after[j]).hash by {
            assert(entries[i].hash != entries[j].hash);
        }
    }
}

} // verus!
