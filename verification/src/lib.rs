//! Audit of a directory tree against a manifest of file hashes.
//!
//! A manifest records, for each file, its hash, its path and optionally its
//! size. [`AuditMap`] indexes such a manifest by hash and by path; the
//! functions of [`reconcile`] classify each file that a later scan finds as
//! unchanged, moved, changed or new, and list the manifest entries that no
//! file was matched to. [`lines`] and [`manifest`] read the text of a manifest,
//! [`hashing`] computes the hashes, [`report`] writes the lines of a report,
//! and [`laws`] holds what is proved of all of them together.
pub mod audit_map;
pub mod decimal;
pub mod entry;
pub mod hashing;
pub mod laws;
pub mod lines;
pub mod manifest;
pub mod order;
pub mod reconcile;
pub mod report;
pub mod text;

pub use audit_map::{AuditMap, Insertion};
pub use entry::FileEntry;
pub use hashing::{hash_hex, select_algorithm, HashAlgorithm};
pub use lines::split_lines;
pub use manifest::{parse_line, read_manifest, read_manifest_text, Notice, ParsedLine};
pub use reconcile::{
    classify, missing, process_file_entry, scan_dir, scan_dir_sorted, FileInfo, Outcome, Record,
};
pub use report::{render, render_notice, Line, Tag};
