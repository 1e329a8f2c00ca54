//! What a scan and the copy of what it found come to together.

use vstd::prelude::*;
use crate::copier::CopyView;
use crate::fates::{copy_through, lemma_all_are_copied_where_nothing_fails, Fates};
use crate::path::{all_lie_under, PathView};
use crate::scanner::{lemma_found_files_lie_under, ScanView};
use crate::tree::{
    files_below, lemma_scan_finds_the_files_to_copy, lemma_scan_through_keeps_wf, scan_through,
    Listing,
};

verus! {

/// The files that the scan of a tree notes can be handed to a copy as they
/// are: each lies under the root of the scan.
pub proof fn lemma_scanned_files_can_be_copied(root: PathView, tree: Listing)
    ensures
        scan_through(ScanView::start(root), root, tree).wf(),
        all_lie_under(scan_through(ScanView::start(root), root, tree).files, root),
{
    let begun = ScanView::start(root);
    assert(root.names.subrange(0, root.names.len() as int) =~= root.names);
    assert(begun.wf());
    lemma_scan_through_keeps_wf(begun, root, tree);
    lemma_found_files_lie_under(scan_through(begun, root, tree));
}

/// Where no operation of the copy fails and the destination is another
/// place than the source, as many files are copied as the scan has noted,
/// and that is every file of the tree that is to be copied. (A directory
/// that cannot be listed hides what lies below it from `files_below`; where
/// each can be listed, these are all the regular files of the tree whose
/// names have an extension of the list.)
pub proof fn lemma_whole_tree_is_copied_where_nothing_fails(
    source: PathView,
    destination: PathView,
    tree: Listing,
    fates: Fates,
)
    requires
        destination != source,
        fates.root is Ok,
        forall|i: int|
            0 <= i < files_below(source, tree).len() ==> fates.parents[i] is Ok
                && fates.copies[i] is Ok,
    ensures
        ({
            let files = scan_through(ScanView::start(source), source, tree).files;
            let ended = copy_through(CopyView::start(source, destination, files), fates);
            &&& files == files_below(source, tree)
            &&& ended.copied == files.len()
        }),
{
    lemma_scan_finds_the_files_to_copy(source, tree);
    lemma_scanned_files_can_be_copied(source, tree);
    lemma_all_are_copied_where_nothing_fails(
        source,
        destination,
        files_below(source, tree),
        fates,
    );
}

} // verus!
