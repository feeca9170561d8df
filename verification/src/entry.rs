//! One record of a manifest.
use vstd::prelude::*;

verus! {

/// What a manifest records of one file, and whether a scan has met it.
#[derive(Debug, PartialEq, Eq)]
pub struct FileEntry {
    /// The hash as written in the manifest; compared character by character.
    pub hash: String,
    /// The path as written in the manifest.
    pub path: String,
    /// Set once a scanned file has been matched to this entry.
    pub present: bool,
    /// The recorded size in bytes; 0 when the manifest gives none.
    pub size: u64,
}

/// The mathematical value of a [`FileEntry`].
pub ghost struct EntryView {
    pub hash: Seq<char>,
    pub path: Seq<char>,
    pub present: bool,
    pub size: u64,
}

impl View for FileEntry {
    type V = EntryView;

    open spec fn view(&self) -> EntryView {
        EntryView { hash: self.hash@, path: self.path@, present: self.present, size: self.size }
    }
}

impl EntryView {
    /// The same record, not yet met by a scan.
    pub open spec fn unmatched(self) -> EntryView {
        EntryView { present: false, ..self }
    }

    /// The same record, met by a scan.
    pub open spec fn matched(self) -> EntryView {
        EntryView { present: true, ..self }
    }
}

/// The values of a run of entries, in order.
pub open spec fn views(entries: Seq<FileEntry>) -> Seq<EntryView> {
    entries.map_values(|e: FileEntry| e@)
}

impl FileEntry {
    /// An entry of unknown size that no scan has met yet.
    pub fn new(hash: String, path: String) -> (entry: FileEntry)
        ensures
            entry@ == (EntryView { hash: hash@, path: path@, present: false, size: 0 }),
    {
        FileEntry { hash, path, present: false, size: 0 }
    }

    /// An entry of the given size that no scan has met yet.
    pub fn new_s(hash: String, path: String, size: u64) -> (entry: FileEntry)
        ensures
            entry@ == (EntryView { hash: hash@, path: path@, present: false, size }),
    {
        FileEntry { hash, path, present: false, size }
    }
}

impl Clone for FileEntry {
    fn clone(&self) -> (copy: FileEntry)
        ensures
            copy@ == self@,
    {
        FileEntry {
            hash: self.hash.clone(),
            path: self.path.clone(),
            present: self.present,
            size: self.size,
        }
    }
}

} // verus!
