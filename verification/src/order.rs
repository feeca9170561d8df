//! Putting the files of a scan in the order of their paths.
use crate::reconcile::{file_views, FileInfo, FileInfoView};
use crate::text::{str_le, text_le};
use std::cmp::Ordering;
use vstd::prelude::*;

verus! {

/// No two files have the same path.
pub open spec fn distinct_paths(files: Seq<FileInfoView>) -> bool {
    forall|i: int, j: int|
        0 <= i < j < files.len() ==> (#[trigger] files[i]).path != (#[trigger] files[j]).path
}

/// Each file's path comes no later than those of the files after it.
pub open spec fn in_path_order(files: Seq<FileInfoView>) -> bool {
    forall|i: int, j: int|
        0 <= i < j < files.len() ==> text_le((#[trigger] files[i]).path, (#[trigger] files[j]).path)
}

/// The files that have the path `path`, in the order in which they stand.
pub open spec fn with_path(files: Seq<FileInfoView>, path: Seq<char>) -> Seq<FileInfoView> {
    files.filter(|f: FileInfoView| f.path == path)
}

/// `ordered` holds the files of `files`, each as often, in the order of
/// their paths, and files with the same path in the order in which they
/// stand in `files`.
pub open spec fn is_path_ordering(ordered: Seq<FileInfoView>, files: Seq<FileInfoView>) -> bool {
    &&& ordered.to_multiset() == files.to_multiset()
    &&& in_path_order(ordered)
    &&& forall|path: Seq<char>| #[trigger] with_path(ordered, path) == with_path(files, path)
}

/// How the paths of two files compare.
pub fn path_order(a: &FileInfo, b: &FileInfo) -> (order: Ordering)
    ensures
        order == Ordering::Less <==> text_le(a.path@, b.path@) && !text_le(b.path@, a.path@),
        order == Ordering::Equal <==> text_le(a.path@, b.path@) && text_le(b.path@, a.path@),
        order == Ordering::Greater <==> !text_le(a.path@, b.path@),
{
    if str_le(a.path.as_str(), b.path.as_str()) {
        if str_le(b.path.as_str(), a.path.as_str()) {
            Ordering::Equal
        } else {
            Ordering::Less
        }
    } else {
        Ordering::Greater
    }
}

/// Calls `sort_by` of std's slices with [`path_order`] to compare. Trusted:
/// afterwards the vector holds the same files, each as often as before, no
/// file stands before one that compares as less, and files that compare as
/// equal stand in the order in which they stood before.
#[verifier::external_body]
pub(crate) fn sort_by_path(files: &mut Vec<FileInfo>)
    ensures
        is_path_ordering(file_views(final(files)@), file_views(old(files)@)),
{
    files.sort_by(|a, b| path_order(a, b));
}

} // verus!
