//! What a copy comes to, given how each operation would come out.
//!
//! The fates here are values of the proofs only: for the destination, and
//! for each file by its place, whether the directory could be created and
//! whether the file could be copied. A copy that is replied to from them,
//! request after request, ends, and has then copied the files that the fates
//! let through, each counted once.

use vstd::prelude::*;
use crate::copier::{lemma_settle_goes_forward, settled, CopyView, Phase};
use crate::path::{all_lie_under, lemma_own_target_iff_same_roots, PathView};

verus! {

/// How each operation would come out if the copier asked for it.
pub struct Fates {
    /// The creation of the destination.
    pub root: Result<(), Seq<char>>,
    /// The creation of the directory for the file at each place.
    pub parents: Seq<Result<(), Seq<char>>>,
    /// The copying of the file at each place.
    pub copies: Seq<Result<(), Seq<char>>>,
}

impl Fates {
    /// How the operation that `copy` asks for comes out.
    pub open spec fn outcome(self, copy: CopyView) -> Result<(), Seq<char>> {
        match copy.phase {
            Phase::Root => self.root,
            Phase::Parent => self.parents[copy.at as int],
            Phase::Transfer => self.copies[copy.at as int],
            Phase::Done => Ok(()),
        }
    }

    /// Whether the file at place `i` of `copy` gets copied: it is not its
    /// own target, its directory can be created where there is one to
    /// create, and the file can be copied.
    pub open spec fn lets_through(self, copy: CopyView, i: int) -> bool {
        &&& !copy.is_self_copy(i)
        &&& copy.target(i).parent() is Some ==> self.parents[i] is Ok
        &&& self.copies[i] is Ok
    }

    /// How many of the files of `copy` at the places from `from` up to, not
    /// including, `to` get copied.
    pub open spec fn count(self, copy: CopyView, from: int, to: int) -> nat
        decreases to - from,
    {
        if from >= to {
            0
        } else if self.lets_through(copy, from) {
            1 + self.count(copy, from + 1, to)
        } else {
            self.count(copy, from + 1, to)
        }
    }
}

/// A bound on the replies that a copy takes before it is over: one for the
/// destination, and two for each file that is left.
pub open spec fn replies_left(copy: CopyView) -> nat {
    let files_left = if copy.at < copy.files.len() {
        (copy.files.len() - copy.at) as nat
    } else {
        0
    };
    match copy.phase {
        Phase::Root => 2 * copy.files.len() + 3,
        Phase::Parent => 2 * files_left + 2,
        Phase::Transfer => 2 * files_left + 1,
        Phase::Done => 0,
    }
}

/// The copy when the driver has replied from `fates` to request after
/// request, until nothing is left to do.
pub open spec fn copy_through(copy: CopyView, fates: Fates) -> CopyView
    decreases replies_left(copy),
{
    if copy.phase == Phase::Done {
        copy
    } else {
        proof {
            lemma_reply_leaves_less(copy, fates.outcome(copy));
        }
        copy_through(copy.reply(fates.outcome(copy)), fates)
    }
}

/// Each reply brings the end of the copy nearer.
pub proof fn lemma_reply_leaves_less(copy: CopyView, outcome: Result<(), Seq<char>>)
    requires
        copy.phase != Phase::Done,
    ensures
        replies_left(copy.reply(outcome)) < replies_left(copy),
{
    lemma_settle_goes_forward(copy, 0);
    lemma_settle_goes_forward(copy, copy.at + 1);
    lemma_settle_goes_forward(CopyView { copied: copy.copied + 1, ..copy }, copy.at + 1);
}

/// The files counted in a stretch are those counted in its two parts.
pub proof fn lemma_count_splits(fates: Fates, copy: CopyView, from: int, mid: int, to: int)
    requires
        from <= mid <= to,
    ensures
        fates.count(copy, from, to) == fates.count(copy, from, mid) + fates.count(copy, mid, to),
    decreases mid - from,
{
    if from < mid {
        lemma_count_splits(fates, copy, from + 1, mid, to);
    }
}

/// Where the fates let every file of a stretch through, all of them are counted.
pub proof fn lemma_count_of_all(fates: Fates, copy: CopyView, from: int, to: int)
    requires
        from <= to,
        forall|i: int| from <= i < to ==> fates.lets_through(copy, i),
    ensures
        fates.count(copy, from, to) == to - from,
    decreases to - from,
{
    if from < to {
        lemma_count_of_all(fates, copy, from + 1, to);
    }
}

/// Where the fates let no file of a stretch through, none is counted.
pub proof fn lemma_count_of_none(fates: Fates, copy: CopyView, from: int, to: int)
    requires
        forall|i: int| from <= i < to ==> !fates.lets_through(copy, i),
    ensures
        fates.count(copy, from, to) == 0,
    decreases to - from,
{
    if from < to {
        lemma_count_of_none(fates, copy, from + 1, to);
    }
}

/// Fates that let the same files of a stretch through count the same number.
pub proof fn lemma_count_agrees(one: Fates, other: Fates, copy: CopyView, from: int, to: int)
    requires
        forall|i: int| from <= i < to ==> one.lets_through(copy, i) == other.lets_through(copy, i),
    ensures
        one.count(copy, from, to) == other.count(copy, from, to),
    decreases to - from,
{
    if from < to {
        lemma_count_agrees(one, other, copy, from + 1, to);
    }
}

/// With the files before place `from` dealt with and `copied` of them
/// copied, the copy ends, and has then copied as many more as the fates let
/// through from there on.
proof fn lemma_copy_from(begun: CopyView, fates: Fates, copied: nat, from: nat)
    requires
        from <= begun.files.len(),
    ensures
        copy_through(
            settled(begun.source, begun.destination, begun.files, copied, from),
            fates,
        ) == (CopyView {
            source: begun.source,
            destination: begun.destination,
            files: begun.files,
            phase: Phase::Done,
            at: begun.files.len(),
            copied: copied + fates.count(begun, from as int, begun.files.len() as int),
        }),
    decreases begun.files.len() - from,
{
    let here = settled(begun.source, begun.destination, begun.files, copied, from);
    if from >= begun.files.len() {
    } else if begun.is_self_copy(from as int) {
        lemma_copy_from(begun, fates, copied, from + 1);
    } else {
        lemma_copy_from(begun, fates, copied, from + 1);
        lemma_copy_from(begun, fates, copied + 1, from + 1);
        let in_hand = CopyView { phase: Phase::Transfer, ..here };
        assert(copy_through(in_hand, fates) == copy_through(
            in_hand.reply(fates.outcome(in_hand)),
            fates,
        ));
        if here.phase == Phase::Parent {
            assert(copy_through(here, fates) == copy_through(
                here.reply(fates.outcome(here)),
                fates,
            ));
        }
    }
}

/// A copy that is replied to from the fates ends. If the destination could
/// not be created, it has then copied nothing. Else it has copied every file
/// that the fates let through, and each of them once: what becomes of one
/// file changes nothing for another.
pub proof fn lemma_copy_counts_what_the_fates_let_through(
    source: PathView,
    destination: PathView,
    files: Seq<PathView>,
    fates: Fates,
)
    ensures
        ({
            let begun = CopyView::start(source, destination, files);
            let ended = copy_through(begun, fates);
            &&& ended.phase == Phase::Done
            &&& ended.source == source
            &&& ended.destination == destination
            &&& ended.files == files
            &&& ended.copied == if fates.root is Ok {
                fates.count(begun, 0, files.len() as int)
            } else {
                0
            }
        }),
{
    let begun = CopyView::start(source, destination, files);
    assert(copy_through(begun, fates) == copy_through(begun.reply(fates.outcome(begun)), fates));
    if fates.root is Ok {
        lemma_copy_from(begun, fates, 0, 0);
    } else {
        let failed = begun.reply(fates.outcome(begun));
        assert(copy_through(failed, fates) == failed);
    }
}

/// Where nothing fails and the destination is another place than the
/// source, every file is copied.
pub proof fn lemma_all_are_copied_where_nothing_fails(
    source: PathView,
    destination: PathView,
    files: Seq<PathView>,
    fates: Fates,
)
    requires
        all_lie_under(files, source),
        destination != source,
        fates.root is Ok,
        forall|i: int| 0 <= i < files.len() ==> fates.parents[i] is Ok && fates.copies[i] is Ok,
    ensures
        copy_through(CopyView::start(source, destination, files), fates).copied == files.len(),
{
    let begun = CopyView::start(source, destination, files);
    lemma_copy_counts_what_the_fates_let_through(source, destination, files, fates);
    assert forall|i: int| 0 <= i < files.len() implies fates.lets_through(begun, i) by {
        lemma_own_target_iff_same_roots(files[i], source, destination);
    }
    lemma_count_of_all(fates, begun, 0, files.len() as int);
}

/// A file that would be copied onto itself is never counted as copied,
/// whatever the fates, though it stays one of the files of the copy. Where
/// the destination is the source, that is every file: nothing is copied.
pub proof fn lemma_own_targets_are_not_counted(
    source: PathView,
    destination: PathView,
    files: Seq<PathView>,
    fates: Fates,
)
    requires
        all_lie_under(files, source),
    ensures
        ({
            let begun = CopyView::start(source, destination, files);
            let ended = copy_through(begun, fates);
            &&& forall|i: int| 0 <= i < files.len() && begun.is_self_copy(i) ==> !fates.lets_through(begun, i)
            &&& ended.files.len() == files.len()
            &&& destination == source ==> ended.copied == 0
        }),
{
    let begun = CopyView::start(source, destination, files);
    lemma_copy_counts_what_the_fates_let_through(source, destination, files, fates);
    if destination == source {
        assert forall|i: int| 0 <= i < files.len() implies !fates.lets_through(begun, i) by {
            lemma_own_target_iff_same_roots(files[i], source, destination);
        }
        lemma_count_of_none(fates, begun, 0, files.len() as int);
    }
}

/// Where one file fails and every other gets through, all but that one are copied.
pub proof fn lemma_one_failure_costs_one_file(
    source: PathView,
    destination: PathView,
    files: Seq<PathView>,
    fates: Fates,
    failing: int,
)
    requires
        fates.root is Ok,
        0 <= failing < files.len(),
        !fates.lets_through(CopyView::start(source, destination, files), failing),
        forall|i: int|
            0 <= i < files.len() && i != failing ==> fates.lets_through(
                CopyView::start(source, destination, files),
                i,
            ),
    ensures
        copy_through(CopyView::start(source, destination, files), fates).copied == files.len() - 1,
{
    let begun = CopyView::start(source, destination, files);
    lemma_copy_counts_what_the_fates_let_through(source, destination, files, fates);
    lemma_count_splits(fates, begun, 0, failing, files.len() as int);
    lemma_count_splits(fates, begun, failing, failing + 1, files.len() as int);
    lemma_count_of_all(fates, begun, 0, failing);
    lemma_count_of_none(fates, begun, failing, failing + 1);
    lemma_count_of_all(fates, begun, failing + 1, files.len() as int);
}

/// Two runs of the same copy in which the same operations succeed copy the
/// same number of files.
pub proof fn lemma_same_fates_same_count(
    source: PathView,
    destination: PathView,
    files: Seq<PathView>,
    first: Fates,
    second: Fates,
)
    requires
        first.root is Ok <==> second.root is Ok,
        forall|i: int|
            0 <= i < files.len() ==> first.lets_through(
                CopyView::start(source, destination, files),
                i,
            ) == second.lets_through(CopyView::start(source, destination, files), i),
    ensures
        copy_through(CopyView::start(source, destination, files), first).copied == copy_through(
            CopyView::start(source, destination, files),
            second,
        ).copied,
{
    let begun = CopyView::start(source, destination, files);
    lemma_copy_counts_what_the_fates_let_through(source, destination, files, first);
    lemma_copy_counts_what_the_fates_let_through(source, destination, files, second);
    lemma_count_agrees(first, second, begun, 0, files.len() as int);
}

} // verus!
