//! Copying the files of a scan to where they belong under the destination.
//!
//! The copier touches no file. It asks the driver for one operation at a
//! time, a directory to create or a file to copy, takes the outcome, and goes
//! on from there. If the destination cannot be created, nothing is copied. A
//! file that cannot be copied is left out and the next one is taken up; so is
//! a file that would be copied onto itself, for which nothing is asked.

use vstd::prelude::*;
use crate::error::{CopyError, ErrorView};
use crate::path::{all_lie_under, FilePath, PathView};
use crate::views::{lemma_views_push, views};

verus! {

/// Where a copy stands.
#[derive(Clone, Copy, Debug, PartialEq, Eq, Structural)]
pub enum Phase {
    /// The destination is to be created.
    Root,
    /// The directory for the file in hand is to be created.
    Parent,
    /// The file in hand is to be copied.
    Transfer,
    /// Nothing is left to do.
    Done,
}

/// What a [`Request`] says.
pub enum RequestView {
    CreateDirectories { path: PathView },
    CopyFile { from: PathView, to: PathView },
}

/// What the copier asks of the driver.
#[derive(Debug, PartialEq, Eq)]
pub enum Request {
    /// To create the directory at `path`, and each directory above it that is
    /// missing. That the directory is there already is no failure.
    CreateDirectories { path: FilePath },
    /// To copy what the file at `from` holds to `to`, in place of what may be there.
    CopyFile { from: FilePath, to: FilePath },
}

impl View for Request {
    type V = RequestView;

    open spec fn view(&self) -> RequestView {
        match self {
            Request::CreateDirectories { path } => RequestView::CreateDirectories { path: path@ },
            Request::CopyFile { from, to } => RequestView::CopyFile { from: from@, to: to@ },
        }
    }
}

/// How an operation came out: done, or the reason why not.
pub open spec fn outcome_view(outcome: Result<(), String>) -> Result<(), Seq<char>> {
    match outcome {
        Ok(_) => Ok(()),
        Err(cause) => Err(cause@),
    }
}

/// The copy of `files` with `copied` of them copied, when those before place
/// `from` are dealt with: the first file from there on that is not its own
/// target is in hand, and its directory is to be created where it has one.
pub open spec fn settled(
    source: PathView,
    destination: PathView,
    files: Seq<PathView>,
    copied: nat,
    from: nat,
) -> CopyView
    decreases files.len() - from,
{
    if from >= files.len() {
        CopyView { source, destination, files, phase: Phase::Done, at: files.len(), copied }
    } else if files[from as int].rebase(source, destination) == files[from as int] {
        settled(source, destination, files, copied, from + 1)
    } else if files[from as int].rebase(source, destination).parent() is Some {
        CopyView { source, destination, files, phase: Phase::Parent, at: from, copied }
    } else {
        CopyView { source, destination, files, phase: Phase::Transfer, at: from, copied }
    }
}

/// What there is to tell of the files from place `from` on, up to the first
/// that is not its own target: that each would be copied onto itself.
pub open spec fn own_targets_from(
    source: PathView,
    destination: PathView,
    files: Seq<PathView>,
    from: nat,
) -> Seq<ErrorView>
    decreases files.len() - from,
{
    if from < files.len() && files[from as int].rebase(source, destination) == files[from as int] {
        seq![ErrorView::SourceEqualsDestination { path: files[from as int] }] + own_targets_from(
            source,
            destination,
            files,
            from + 1,
        )
    } else {
        Seq::empty()
    }
}

/// The state of a copy.
pub struct CopyView {
    /// The directory that the files were found under.
    pub source: PathView,
    /// The directory that they are copied under.
    pub destination: PathView,
    /// The files to copy, in the order in which they are taken up.
    pub files: Seq<PathView>,
    /// Where the copy stands.
    pub phase: Phase,
    /// The place in `files` of the file in hand; the files before it are dealt with.
    pub at: nat,
    /// How many files have been copied.
    pub copied: nat,
}

impl CopyView {
    /// The copy of `files` from under `source` to under `destination`, before anything is done.
    pub open spec fn start(source: PathView, destination: PathView, files: Seq<PathView>) -> CopyView {
        CopyView { source, destination, files, phase: Phase::Root, at: 0, copied: 0 }
    }

    /// Where the file at place `i` is copied to.
    pub open spec fn target(self, i: int) -> PathView {
        self.files[i].rebase(self.source, self.destination)
    }

    /// Whether the file at place `i` would be copied onto itself.
    pub open spec fn is_self_copy(self, i: int) -> bool {
        self.target(i) == self.files[i]
    }

    /// The copy as it stands when the files before place `from` are dealt
    /// with: files that would be copied onto themselves are passed over, and
    /// the first other file is taken in hand.
    pub open spec fn settle(self, from: nat) -> CopyView {
        settled(self.source, self.destination, self.files, self.copied, from)
    }

    /// What there is to tell of the files that `settle` passes over.
    pub open spec fn passed_over(self, from: nat) -> Seq<ErrorView> {
        own_targets_from(self.source, self.destination, self.files, from)
    }

    /// What the copier asks of the driver; nothing, when nothing is left to do.
    pub open spec fn request(self) -> Option<RequestView> {
        match self.phase {
            Phase::Root => Some(RequestView::CreateDirectories { path: self.destination }),
            Phase::Parent => Some(
                RequestView::CreateDirectories { path: self.target(self.at as int).parent()->0 },
            ),
            Phase::Transfer => Some(
                RequestView::CopyFile {
                    from: self.files[self.at as int],
                    to: self.target(self.at as int),
                },
            ),
            Phase::Done => None,
        }
    }

    /// The copy after the driver has told how the operation asked for came out.
    pub open spec fn reply(self, outcome: Result<(), Seq<char>>) -> CopyView {
        match self.phase {
            Phase::Root => match outcome {
                Ok(_) => self.settle(0),
                Err(_) => CopyView { phase: Phase::Done, ..self },
            },
            Phase::Parent => match outcome {
                Ok(_) => CopyView { phase: Phase::Transfer, ..self },
                Err(_) => self.settle(self.at + 1),
            },
            Phase::Transfer => match outcome {
                Ok(_) => CopyView { copied: self.copied + 1, ..self }.settle(self.at + 1),
                Err(_) => self.settle(self.at + 1),
            },
            Phase::Done => self,
        }
    }

    /// What there is to tell after the driver's reply: the failure of the
    /// operation, if it failed, and then each file that is passed over.
    pub open spec fn reports(self, outcome: Result<(), Seq<char>>) -> Seq<ErrorView> {
        match self.phase {
            Phase::Root => match outcome {
                Ok(_) => self.passed_over(0),
                Err(cause) => seq![
                    ErrorView::DestinationRootUncreatable { path: self.destination, cause },
                ],
            },
            Phase::Parent => match outcome {
                Ok(_) => Seq::empty(),
                Err(cause) => seq![
                    ErrorView::DestinationParentUncreatable {
                        path: self.target(self.at as int),
                        cause,
                    },
                ] + self.passed_over(self.at + 1),
            },
            Phase::Transfer => match outcome {
                Ok(_) => self.passed_over(self.at + 1),
                Err(cause) => seq![
                    ErrorView::CopyFailed { path: self.files[self.at as int], cause },
                ] + self.passed_over(self.at + 1),
            },
            Phase::Done => Seq::empty(),
        }
    }

    /// What holds of every copy: each file lies under the source; no more
    /// files are copied than are dealt with; and a file in hand is one that
    /// is not copied onto itself.
    pub open spec fn wf(self) -> bool {
        &&& all_lie_under(self.files, self.source)
        &&& self.copied <= self.at <= self.files.len()
        &&& self.phase == Phase::Root ==> self.at == 0
        &&& self.phase == Phase::Parent || self.phase == Phase::Transfer ==> {
            &&& self.at < self.files.len()
            &&& !self.is_self_copy(self.at as int)
        }
        &&& self.phase == Phase::Parent ==> self.target(self.at as int).parent() is Some
    }
}

/// Taking the next file in hand goes forward: the copy is then over, or the
/// file in hand is at place `from` or after it, and is not its own target.
pub proof fn lemma_settle_goes_forward(copy: CopyView, from: nat)
    ensures
        copy.settle(from).source == copy.source,
        copy.settle(from).destination == copy.destination,
        copy.settle(from).files == copy.files,
        copy.settle(from).copied == copy.copied,
        copy.settle(from).phase != Phase::Root,
        copy.settle(from).phase == Phase::Done ==> copy.settle(from).at == copy.files.len(),
        copy.settle(from).phase != Phase::Done ==> {
            &&& from <= copy.settle(from).at < copy.files.len()
            &&& !copy.is_self_copy(copy.settle(from).at as int)
        },
        copy.settle(from).phase == Phase::Parent ==> copy.target(
            copy.settle(from).at as int,
        ).parent() is Some,
    decreases copy.files.len() - from,
{
    if from < copy.files.len() && copy.is_self_copy(from as int) {
        lemma_settle_goes_forward(copy, from + 1);
    }
}

/// Whatever the driver replies, a sound copy stays sound.
pub proof fn lemma_reply_keeps_wf(copy: CopyView, outcome: Result<(), Seq<char>>)
    requires
        copy.wf(),
    ensures
        copy.reply(outcome).wf(),
        copy.reply(outcome).source == copy.source,
        copy.reply(outcome).destination == copy.destination,
        copy.reply(outcome).files == copy.files,
{
    match copy.phase {
        Phase::Root => {
            lemma_settle_goes_forward(copy, 0);
        },
        Phase::Parent => {
            lemma_settle_goes_forward(copy, copy.at + 1);
        },
        Phase::Transfer => {
            lemma_settle_goes_forward(copy, copy.at + 1);
            lemma_settle_goes_forward(CopyView { copied: copy.copied + 1, ..copy }, copy.at + 1);
        },
        Phase::Done => {},
    }
}

/// A copy under way.
pub struct Copier {
    source: FilePath,
    destination: FilePath,
    files: Vec<FilePath>,
    phase: Phase,
    at: usize,
    copied: usize,
}

impl View for Copier {
    type V = CopyView;

    closed spec fn view(&self) -> CopyView {
        CopyView {
            source: self.source@,
            destination: self.destination@,
            files: views(self.files@),
            phase: self.phase,
            at: self.at as nat,
            copied: self.copied as nat,
        }
    }
}

impl Copier {
    /// The copy of `files`, found under `source`, to under `destination`. It
    /// begins by asking for the destination to be created.
    pub fn new(source: FilePath, destination: FilePath, files: Vec<FilePath>) -> (copier: Copier)
        requires
            all_lie_under(views(files@), source@),
        ensures
            copier@ == CopyView::start(source@, destination@, views(files@)),
            copier@.wf(),
    {
        Copier { source, destination, files, phase: Phase::Root, at: 0, copied: 0 }
    }

    /// Where the copy stands.
    pub fn phase(&self) -> (phase: Phase)
        ensures
            phase == self@.phase,
    {
        self.phase
    }

    /// Whether nothing is left to do.
    pub fn is_finished(&self) -> (finished: bool)
        ensures
            finished == (self@.phase == Phase::Done),
    {
        self.phase == Phase::Done
    }

    /// How many files have been copied.
    pub fn copied(&self) -> (copied: usize)
        ensures
            copied == self@.copied,
    {
        self.copied
    }

    /// How many files there are to copy, copied or not.
    pub fn attempted(&self) -> (attempted: usize)
        ensures
            attempted == self@.files.len(),
    {
        self.files.len()
    }

    /// What the copier asks of the driver; nothing, when nothing is left to do.
    pub fn request(&self) -> (request: Option<Request>)
        requires
            self@.wf(),
        ensures
            request is Some <==> self@.request() is Some,
            request is Some ==> request->0@ == self@.request()->0,
    {
        match self.phase {
            Phase::Root => Some(Request::CreateDirectories { path: self.destination.clone() }),
            Phase::Parent => {
                assert(self@.files[self.at as int] == self.files[self.at as int]@);
                let target = self.files[self.at].rebase(&self.source, &self.destination);
                match target.parent() {
                    Some(path) => Some(Request::CreateDirectories { path }),
                    None => None,
                }
            },
            Phase::Transfer => {
                assert(self@.files[self.at as int] == self.files[self.at as int]@);
                let from = self.files[self.at].clone();
                let to = self.files[self.at].rebase(&self.source, &self.destination);
                Some(Request::CopyFile { from, to })
            },
            Phase::Done => None,
        }
    }

    /// Passes over the files from place `from` on that would be copied onto
    /// themselves, telling of each in `reports`, and takes the first other
    /// file in hand.
    fn settle(&mut self, from: usize, reports: &mut Vec<CopyError>)
        requires
            all_lie_under(old(self)@.files, old(self)@.source),
            from <= old(self)@.files.len(),
        ensures
            final(self)@ == old(self)@.settle(from as nat),
            views(final(reports)@) == views(old(reports)@) + old(self)@.passed_over(from as nat),
    {
        let mut i: usize = from;
        assert(views(reports@) + old(self)@.passed_over(from as nat) =~= views(old(reports)@)
            + old(self)@.passed_over(from as nat));
        while i < self.files.len()
            invariant
                from <= i <= self.files@.len(),
                *self == *old(self),
                all_lie_under(self@.files, self@.source),
                self@.settle(i as nat) == self@.settle(from as nat),
                views(reports@) + self@.passed_over(i as nat) == views(old(reports)@)
                    + self@.passed_over(from as nat),
            decreases self.files@.len() - i,
        {
            let file = &self.files[i];
            assert(self@.files[i as int] == file@);
            let target = file.rebase(&self.source, &self.destination);
            if target == *file {
                let report = CopyError::SourceEqualsDestination { path: file.clone() };
                proof {
                    lemma_views_push(reports@, report);
                    assert(views(reports@).push(report@) + self@.passed_over((i + 1) as nat)
                        =~= views(reports@) + self@.passed_over(i as nat));
                }
                reports.push(report);
                i += 1;
            } else {
                self.phase = if target.names.len() > 0 {
                    Phase::Parent
                } else {
                    Phase::Transfer
                };
                self.at = i;
                assert(views(reports@) + Seq::<ErrorView>::empty() =~= views(reports@));
                return ;
            }
        }
        self.phase = Phase::Done;
        self.at = self.files.len();
        assert(views(reports@) + Seq::<ErrorView>::empty() =~= views(reports@));
    }

    /// Takes the outcome of the operation that was asked for, and goes on to
    /// the next. What there is to tell is handed back, in the order in which
    /// it came about. When nothing was asked for, nothing changes.
    pub fn reply(&mut self, outcome: Result<(), String>) -> (reports: Vec<CopyError>)
        requires
            old(self)@.wf(),
        ensures
            final(self)@ == old(self)@.reply(outcome_view(outcome)),
            views(reports@) == old(self)@.reports(outcome_view(outcome)),
            final(self)@.wf(),
    {
        proof {
            lemma_reply_keeps_wf(self@, outcome_view(outcome));
        }
        let mut reports: Vec<CopyError> = Vec::new();
        assert(views(reports@) =~= Seq::empty());
        assert(self.at <= self.files.len());
        match self.phase {
            Phase::Root => match outcome {
                Ok(_) => {
                    self.settle(0, &mut reports);
                    assert(views(reports@) =~= old(self)@.passed_over(0));
                },
                Err(cause) => {
                    let report = CopyError::DestinationRootUncreatable {
                        path: self.destination.clone(),
                        cause,
                    };
                    proof {
                        lemma_views_push(reports@, report);
                    }
                    reports.push(report);
                    self.phase = Phase::Done;
                    assert(views(reports@) =~= seq![report@]);
                },
            },
            Phase::Parent => match outcome {
                Ok(_) => {
                    self.phase = Phase::Transfer;
                },
                Err(cause) => {
                    assert(self@.files[self.at as int] == self.files[self.at as int]@);
                    let path = self.files[self.at].rebase(&self.source, &self.destination);
                    let report = CopyError::DestinationParentUncreatable { path, cause };
                    proof {
                        lemma_views_push(reports@, report);
                    }
                    reports.push(report);
                    assert(views(reports@) =~= seq![report@]);
                    self.settle(self.at + 1, &mut reports);
                },
            },
            Phase::Transfer => match outcome {
                Ok(_) => {
                    self.copied = self.copied + 1;
                    self.settle(self.at + 1, &mut reports);
                    assert(views(reports@) =~= old(self)@.passed_over(old(self)@.at + 1));
                },
                Err(cause) => {
                    let report = CopyError::CopyFailed { path: self.files[self.at].clone(), cause };
                    proof {
                        lemma_views_push(reports@, report);
                    }
                    reports.push(report);
                    assert(views(reports@) =~= seq![report@]);
                    self.settle(self.at + 1, &mut reports);
                },
            },
            Phase::Done => {},
        }
        reports
    }
}

} // verus!
