//! What a scan comes to on a given directory tree.
//!
//! The tree here is a value of the proofs only: what a driver would find if
//! it listed each directory once and nothing changed meanwhile. The scan of
//! such a tree, answered from it directory by directory, notes the files of
//! the tree that are to be copied, all of them and no others.

use vstd::prelude::*;
use crate::extension::is_eligible_name;
use crate::path::PathView;
use crate::scanner::{
    entry_tasks, is_found_file, lemma_answer_keeps_wf, stacked_tasks, EntryKind, EntryView,
    ScanView, TaskView,
};

verus! {

/// What a directory entry stands for.
pub enum Node {
    /// A regular file.
    File,
    /// A directory, with what comes of listing it.
    Directory(Listing),
    /// Anything else.
    Other,
}

/// What comes of listing a directory.
pub enum Listing {
    /// The directory cannot be listed, for the reason given.
    Unreadable(Seq<char>),
    /// The entries of the directory, in the order in which they are handed out.
    Entries(Seq<Child>),
}

/// One entry of a listed directory: its name, and what it stands for.
pub struct Child {
    pub name: Seq<u8>,
    pub node: Node,
}

impl Child {
    /// The entry as the driver hands it to the scanner.
    pub open spec fn entry(self) -> EntryView {
        EntryView {
            name: self.name,
            kind: match self.node {
                Node::File => EntryKind::File,
                Node::Directory(_) => EntryKind::Directory,
                Node::Other => EntryKind::Other,
            },
        }
    }
}

/// The entries as the driver hands them to the scanner.
pub open spec fn entries_of(children: Seq<Child>) -> Seq<EntryView> {
    Seq::new(children.len(), |i: int| children[i].entry())
}

/// The files to copy in the directory `dir` and below, where listing `dir`
/// comes to `listing`: in the order of the entries, and for an entry that is
/// a directory, all that lies below it before the next entry.
pub open spec fn files_below(dir: PathView, listing: Listing) -> Seq<PathView>
    decreases listing,
{
    match listing {
        Listing::Unreadable(_) => Seq::empty(),
        Listing::Entries(children) => files_among(dir, children),
    }
}

/// The files to copy at the entries `children` of the directory `dir`, and below them.
pub open spec fn files_among(dir: PathView, children: Seq<Child>) -> Seq<PathView>
    decreases children,
{
    if children.len() == 0 {
        Seq::empty()
    } else {
        files_at(dir, children.first()) + files_among(dir, children.drop_first())
    }
}

/// The files to copy at one entry of the directory `dir`, and below it.
pub open spec fn files_at(dir: PathView, child: Child) -> Seq<PathView>
    decreases child,
{
    match child.node {
        Node::File => if is_eligible_name(child.name) {
            seq![dir.child(child.name)]
        } else {
            Seq::empty()
        },
        Node::Directory(listing) => files_below(dir.child(child.name), listing),
        Node::Other => Seq::empty(),
    }
}

/// The scan after the driver has answered for the directory `dir`, and for
/// every directory below it in its turn, from what `listing` holds. A scan
/// that waits for another directory than `dir` gets no answer.
pub open spec fn scan_through(scan: ScanView, dir: PathView, listing: Listing) -> ScanView
    decreases listing,
{
    if scan.pending == Some(dir) {
        match listing {
            Listing::Unreadable(cause) => scan.answer(Err(cause)),
            Listing::Entries(children) => scan_each(
                scan.answer(Ok(entries_of(children))),
                dir,
                children,
            ),
        }
    } else {
        scan
    }
}

/// The scan after the driver has answered for each directory among the
/// entries `children` of `dir`, in their order, and for all below them.
pub open spec fn scan_each(scan: ScanView, dir: PathView, children: Seq<Child>) -> ScanView
    decreases children,
{
    if children.len() == 0 {
        scan
    } else {
        let first = children.first();
        let next = match first.node {
            Node::Directory(listing) => scan_through(scan, dir.child(first.name), listing),
            _ => scan,
        };
        scan_each(next, dir, children.drop_first())
    }
}

/// A scan that waits for nothing, with `files` noted and `agenda` left to work off.
pub open spec fn scan_at_rest(root: PathView, files: Seq<PathView>, agenda: Seq<TaskView>) -> ScanView {
    ScanView { root, files, agenda, pending: None }
}

proof fn lemma_scan_each(
    root: PathView,
    files: Seq<PathView>,
    agenda: Seq<TaskView>,
    dir: PathView,
    children: Seq<Child>,
)
    ensures
        scan_each(
            scan_at_rest(
                root,
                files,
                agenda + stacked_tasks(dir, entries_of(children)),
            ).advance(),
            dir,
            children,
        ) == scan_at_rest(root, files + files_among(dir, children), agenda).advance(),
    decreases children, 0nat,
{
    let entries = entries_of(children);
    if children.len() == 0 {
        assert(agenda + stacked_tasks(dir, entries) =~= agenda);
        assert(files + files_among(dir, children) =~= files);
    } else {
        let first = children.first();
        let rest = children.drop_first();
        let below = agenda + stacked_tasks(dir, entries_of(rest));
        let own = entry_tasks(dir, first.entry());
        assert(entries.drop_first() =~= entries_of(rest));
        assert(entries.first() == first.entry());
        assert(agenda + stacked_tasks(dir, entries) =~= below + own);
        let begun = scan_at_rest(root, files, below + own).advance();
        let found = files_at(dir, first);
        assert(files_among(dir, children) == found + files_among(dir, rest));
        match first.node {
            Node::File => {
                if is_eligible_name(first.name) {
                    let file = dir.child(first.name);
                    assert((below + own).last() == TaskView::Emit(file));
                    assert((below + own).drop_last() =~= below);
                    assert(begun == scan_at_rest(root, files.push(file), below).advance());
                    lemma_scan_each(root, files.push(file), agenda, dir, rest);
                    assert(found =~= seq![file]);
                    assert(files.push(file) + files_among(dir, rest) =~= files + (found
                        + files_among(dir, rest)));
                } else {
                    assert(below + own =~= below);
                    lemma_scan_each(root, files, agenda, dir, rest);
                    assert(found =~= Seq::empty());
                    assert(files + files_among(dir, rest) =~= files + (found + files_among(
                        dir,
                        rest,
                    )));
                }
            },
            Node::Directory(listing) => {
                let sub = dir.child(first.name);
                assert((below + own).last() == TaskView::List(sub));
                assert((below + own).drop_last() =~= below);
                assert(begun == ScanView { root, files, agenda: below, pending: Some(sub) });
                lemma_scan_through(root, files, below, sub, listing);
                lemma_scan_each(root, files + files_below(sub, listing), agenda, dir, rest);
                assert(found == files_below(sub, listing));
                assert(files + files_below(sub, listing) + files_among(dir, rest) =~= files + (
                found + files_among(dir, rest)));
            },
            Node::Other => {
                assert(below + own =~= below);
                lemma_scan_each(root, files, agenda, dir, rest);
                assert(found =~= Seq::empty());
                assert(files + files_among(dir, rest) =~= files + (found + files_among(dir, rest)));
            },
        }
    }
}

proof fn lemma_scan_through(
    root: PathView,
    files: Seq<PathView>,
    agenda: Seq<TaskView>,
    dir: PathView,
    listing: Listing,
)
    ensures
        scan_through(ScanView { root, files, agenda, pending: Some(dir) }, dir, listing)
            == scan_at_rest(root, files + files_below(dir, listing), agenda).advance(),
    decreases listing, 1nat,
{
    match listing {
        Listing::Unreadable(_) => {
            assert(agenda + Seq::<TaskView>::empty() =~= agenda);
            assert(files + files_below(dir, listing) =~= files);
        },
        Listing::Entries(children) => {
            lemma_scan_each(root, files, agenda, dir, children);
        },
    }
}

/// The scan of a tree notes the files of the tree that are to be copied: each
/// regular file, in a directory that can be listed, whose name has an
/// extension of the list; no other path; each once, in the order of the walk.
/// When the driver has answered for every directory, the scan is over.
pub proof fn lemma_scan_finds_the_files_to_copy(root: PathView, tree: Listing)
    ensures
        scan_through(ScanView::start(root), root, tree) == scan_at_rest(
            root,
            files_below(root, tree),
            Seq::empty(),
        ),
{
    lemma_scan_through(root, Seq::empty(), Seq::empty(), root, tree);
    assert(Seq::<PathView>::empty() + files_below(root, tree) =~= files_below(root, tree));
}


proof fn lemma_scan_each_keeps_wf(scan: ScanView, dir: PathView, children: Seq<Child>)
    requires
        scan.wf(),
    ensures
        scan_each(scan, dir, children).wf(),
        scan_each(scan, dir, children).root == scan.root,
    decreases children, 0nat,
{
    if children.len() > 0 {
        let first = children.first();
        match first.node {
            Node::Directory(listing) => {
                lemma_scan_through_keeps_wf(scan, dir.child(first.name), listing);
                lemma_scan_each_keeps_wf(
                    scan_through(scan, dir.child(first.name), listing),
                    dir,
                    children.drop_first(),
                );
            },
            _ => {
                lemma_scan_each_keeps_wf(scan, dir, children.drop_first());
            },
        }
    }
}

/// A sound scan stays sound, and the scan of its root, through all the answers for a tree.
pub proof fn lemma_scan_through_keeps_wf(scan: ScanView, dir: PathView, listing: Listing)
    requires
        scan.wf(),
    ensures
        scan_through(scan, dir, listing).wf(),
        scan_through(scan, dir, listing).root == scan.root,
    decreases listing, 1nat,
{
    if scan.pending == Some(dir) {
        match listing {
            Listing::Unreadable(cause) => {
                lemma_answer_keeps_wf(scan, Err(cause));
            },
            Listing::Entries(children) => {
                lemma_answer_keeps_wf(scan, Ok(entries_of(children)));
                lemma_scan_each_keeps_wf(scan.answer(Ok(entries_of(children))), dir, children);
            },
        }
    }
}

/// Each file to copy of a tree lies below the root of the tree, under a name
/// that has an extension of the list.
pub proof fn lemma_files_below_are_found_files(root: PathView, tree: Listing)
    ensures
        forall|i: int|
            0 <= i < files_below(root, tree).len() ==> is_found_file(
                root,
                #[trigger] files_below(root, tree)[i],
            ),
{
    let begun = ScanView::start(root);
    assert(root.names.subrange(0, root.names.len() as int) =~= root.names);
    assert(begun.wf());
    lemma_scan_through_keeps_wf(begun, root, tree);
    lemma_scan_finds_the_files_to_copy(root, tree);
    let ended = scan_through(begun, root, tree);
    assert forall|i: int| 0 <= i < files_below(root, tree).len() implies is_found_file(
        root,
        #[trigger] files_below(root, tree)[i],
    ) by {
        assert(is_found_file(ended.root, ended.files[i]));
    }
}

/// Whether `names` lead from a directory of this listing down to a regular
/// file, by way of directories that can be listed.
pub open spec fn holds_file(listing: Listing, names: Seq<Seq<u8>>) -> bool
    decreases listing,
{
    match listing {
        Listing::Unreadable(_) => false,
        Listing::Entries(children) => one_leads_to_file(children, names),
    }
}

/// Whether `names` lead by way of one of the entries `children` down to a regular file.
pub open spec fn one_leads_to_file(children: Seq<Child>, names: Seq<Seq<u8>>) -> bool
    decreases children,
{
    children.len() > 0 && (leads_to_file(children.first(), names) || one_leads_to_file(
        children.drop_first(),
        names,
    ))
}

/// Whether `names` begin with the name of the entry `child`, and lead by way
/// of it down to a regular file.
pub open spec fn leads_to_file(child: Child, names: Seq<Seq<u8>>) -> bool
    decreases child,
{
    &&& names.len() > 0
    &&& names[0] == child.name
    &&& match child.node {
        Node::File => names.len() == 1,
        Node::Directory(listing) => holds_file(listing, names.drop_first()),
        Node::Other => false,
    }
}

/// Whether `file` is a file of the tree at `root` that is to be copied: a
/// regular file below `root`, to be reached through directories that can be
/// listed, whose name has an extension of the list.
pub open spec fn is_file_to_copy(root: PathView, tree: Listing, file: PathView) -> bool {
    &&& file.lies_under(root)
    &&& holds_file(tree, file.relative_to(root).names)
    &&& is_eligible_name(file.names.last())
}

/// A path lies under an entry of a directory when it lies under the
/// directory and goes on with the name of the entry.
proof fn lemma_lies_under_child(file: PathView, dir: PathView, name: Seq<u8>)
    ensures
        file.lies_under(dir.child(name)) <==> {
            &&& file.lies_under(dir)
            &&& file.names.len() > dir.names.len()
            &&& file.names[dir.names.len() as int] == name
        },
        file.names.len() > dir.names.len() ==> file.names.skip(dir.names.len() as int + 1)
            == file.names.skip(dir.names.len() as int).drop_first(),
{
    let n = dir.names.len() as int;
    if file.names.len() > n {
        assert(file.names.skip(n + 1) =~= file.names.skip(n).drop_first());
        if file.lies_under(dir.child(name)) {
            assert(file.names.subrange(0, n + 1) == dir.names.push(name));
            assert(file.names.subrange(0, n) =~= file.names.subrange(0, n + 1).subrange(0, n));
            assert(dir.names.push(name).subrange(0, n) =~= dir.names);
            assert(file.names[n] == file.names.subrange(0, n + 1)[n]);
        }
        if file.lies_under(dir) && file.names[n] == name {
            assert(file.names.subrange(0, n + 1) =~= file.names.subrange(0, n).push(name));
        }
    }
}

proof fn lemma_files_at(dir: PathView, child: Child, file: PathView)
    ensures
        files_at(dir, child).contains(file) <==> {
            &&& file.lies_under(dir)
            &&& leads_to_file(child, file.relative_to(dir).names)
            &&& is_eligible_name(file.names.last())
        },
    decreases child, 0nat,
{
    let n = dir.names.len() as int;
    let rest = file.relative_to(dir).names;
    let entry = dir.child(child.name);
    lemma_lies_under_child(file, dir, child.name);
    match child.node {
        Node::File => {
            if file.lies_under(dir) && leads_to_file(child, rest) {
                assert(file.names =~= entry.names) by {
                    assert(file.names.subrange(0, n) == dir.names);
                    assert(rest[0] == file.names[n]);
                }
                assert(file == entry);
            }
            if file == entry {
                assert(dir.names.subrange(0, n) =~= dir.names);
                assert(entry.names.subrange(0, n) =~= dir.names);
                assert(rest =~= seq![child.name]);
            }
            if is_eligible_name(child.name) {
                assert(files_at(dir, child) =~= seq![entry]);
                assert(seq![entry][0] == entry);
            } else {
                assert(files_at(dir, child) =~= Seq::empty());
            }
        },
        Node::Directory(listing) => {
            lemma_files_below(entry, listing, file);
            if file.names.len() > n {
                assert(rest[0] == file.names[n]);
            }
        },
        Node::Other => {
            assert(files_at(dir, child) =~= Seq::empty());
        },
    }
}

proof fn lemma_files_among(dir: PathView, children: Seq<Child>, file: PathView)
    ensures
        files_among(dir, children).contains(file) <==> {
            &&& file.lies_under(dir)
            &&& one_leads_to_file(children, file.relative_to(dir).names)
            &&& is_eligible_name(file.names.last())
        },
    decreases children, 0nat,
{
    if children.len() > 0 {
        let here = files_at(dir, children.first());
        let there = files_among(dir, children.drop_first());
        lemma_files_at(dir, children.first(), file);
        lemma_files_among(dir, children.drop_first(), file);
        assert(files_among(dir, children) == here + there);
        if (here + there).contains(file) {
            let at = choose|at: int| 0 <= at < (here + there).len() && (here + there)[at] == file;
            if at < here.len() {
                assert(here[at] == file);
            } else {
                assert(there[at - here.len()] == file);
            }
        }
        if here.contains(file) {
            let at = choose|at: int| 0 <= at < here.len() && here[at] == file;
            assert((here + there)[at] == file);
        }
        if there.contains(file) {
            let at = choose|at: int| 0 <= at < there.len() && there[at] == file;
            assert((here + there)[here.len() + at] == file);
        }
    } else {
        assert(files_among(dir, children).len() == 0);
    }
}

proof fn lemma_files_below(dir: PathView, listing: Listing, file: PathView)
    ensures
        files_below(dir, listing).contains(file) <==> is_file_to_copy(dir, listing, file),
    decreases listing, 1nat,
{
    match listing {
        Listing::Unreadable(_) => {
            assert(files_below(dir, listing).len() == 0);
            assert(!holds_file(listing, file.relative_to(dir).names));
        },
        Listing::Entries(children) => {
            lemma_files_among(dir, children, file);
        },
    }
}

/// A path is among the files that the scan of a tree notes exactly when it
/// is a file of the tree that is to be copied.
pub proof fn lemma_scan_notes_exactly_the_files_to_copy(
    root: PathView,
    tree: Listing,
    file: PathView,
)
    ensures
        scan_through(ScanView::start(root), root, tree).files.contains(file) <==> is_file_to_copy(
            root,
            tree,
            file,
        ),
{
    lemma_scan_finds_the_files_to_copy(root, tree);
    lemma_files_below(root, tree, file);
}

} // verus!
