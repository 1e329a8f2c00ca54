//! Walking a directory tree for the files that are to be copied.
//!
//! The scanner lists nothing itself. It names the directory that it wants
//! listed next, takes the listing, or the reason why there is none, and goes
//! on from there: files with an extension of the list are noted, directories
//! are put down to be listed in their turn, and everything else is passed
//! over. The files come out in the order of a walk that goes into each
//! directory where it meets it.

use vstd::prelude::*;
use crate::error::{CopyError, ErrorView};
use crate::extension::{is_eligible, is_eligible_name};
use crate::path::{all_lie_under, FilePath, PathView};
use crate::views::{lemma_views_drop_last, lemma_views_push, views};

verus! {

/// What kind of thing a directory entry is.
#[derive(Clone, Copy, Debug, PartialEq, Eq, Structural)]
pub enum EntryKind {
    /// A regular file.
    File,
    /// A directory, or a link to one.
    Directory,
    /// Neither: a broken link, a device, a socket.
    Other,
}

/// What the scanner does with a directory entry.
#[derive(Clone, Copy, Debug, PartialEq, Eq, Structural)]
pub enum EntryClass {
    /// A file with an extension of the list: it is noted.
    EligibleFile,
    /// A file without an extension, or with another one: it is passed over.
    IneligibleFile,
    /// A directory: it is listed in its turn.
    Directory,
    /// Anything else: it is passed over.
    Other,
}

/// What a [`DirEntry`] says: the name of the entry and its kind.
pub struct EntryView {
    pub name: Seq<u8>,
    pub kind: EntryKind,
}

impl EntryView {
    /// What the scanner does with the entry.
    pub open spec fn class(self) -> EntryClass {
        match self.kind {
            EntryKind::File => if is_eligible_name(self.name) {
                EntryClass::EligibleFile
            } else {
                EntryClass::IneligibleFile
            },
            EntryKind::Directory => EntryClass::Directory,
            EntryKind::Other => EntryClass::Other,
        }
    }
}

/// One entry of a directory, as the driver found it: its name there and its kind.
#[derive(Debug, PartialEq, Eq)]
pub struct DirEntry {
    pub name: Vec<u8>,
    pub kind: EntryKind,
}

impl View for DirEntry {
    type V = EntryView;

    open spec fn view(&self) -> EntryView {
        EntryView { name: self.name@, kind: self.kind }
    }
}

impl DirEntry {
    /// The entry of the given name and kind.
    pub fn new(name: Vec<u8>, kind: EntryKind) -> (entry: DirEntry)
        ensures
            entry.name == name,
            entry.kind == kind,
    {
        DirEntry { name, kind }
    }

    /// What the scanner does with the entry.
    pub fn class(&self) -> (class: EntryClass)
        ensures
            class == self@.class(),
    {
        match self.kind {
            EntryKind::File => if is_eligible(self.name.as_slice()) {
                EntryClass::EligibleFile
            } else {
                EntryClass::IneligibleFile
            },
            EntryKind::Directory => EntryClass::Directory,
            EntryKind::Other => EntryClass::Other,
        }
    }
}

/// What a directory listing came to: the entries, or the reason why it could not be had.
pub open spec fn listing_view(listing: Result<Vec<DirEntry>, String>) -> Result<
    Seq<EntryView>,
    Seq<char>,
> {
    match listing {
        Ok(entries) => Ok(views(entries@)),
        Err(cause) => Err(cause@),
    }
}

/// Something that the scanner has put down to do later.
pub enum TaskView {
    /// To note the file at this path.
    Emit(PathView),
    /// To have the directory at this path listed.
    List(PathView),
}

/// The task that an entry of the directory `dir` gives rise to: one, or none.
pub open spec fn entry_tasks(dir: PathView, entry: EntryView) -> Seq<TaskView> {
    match entry.class() {
        EntryClass::EligibleFile => seq![TaskView::Emit(dir.child(entry.name))],
        EntryClass::Directory => seq![TaskView::List(dir.child(entry.name))],
        _ => Seq::empty(),
    }
}

/// The tasks for the entries of `dir`, stacked: that of the first entry comes last.
pub open spec fn stacked_tasks(dir: PathView, entries: Seq<EntryView>) -> Seq<TaskView>
    decreases entries.len(),
{
    if entries.len() == 0 {
        Seq::empty()
    } else {
        stacked_tasks(dir, entries.drop_first()) + entry_tasks(dir, entries.first())
    }
}

/// The tasks that the answer for the directory `dir` gives rise to. A
/// directory that could not be listed gives none.
pub open spec fn listing_tasks(dir: PathView, listing: Result<Seq<EntryView>, Seq<char>>) -> Seq<
    TaskView,
> {
    match listing {
        Ok(entries) => stacked_tasks(dir, entries),
        Err(_) => Seq::empty(),
    }
}

/// The state of a scan.
pub struct ScanView {
    /// The directory that the scan started at.
    pub root: PathView,
    /// The files noted so far, in the order of the walk.
    pub files: Seq<PathView>,
    /// What is put down to do later, the next task last.
    pub agenda: Seq<TaskView>,
    /// The directory whose listing the scanner waits for. Without one the scan is over.
    pub pending: Option<PathView>,
}

impl ScanView {
    /// The scan of `root` before anything is listed.
    pub open spec fn start(root: PathView) -> ScanView {
        ScanView { root, files: Seq::empty(), agenda: Seq::empty(), pending: Some(root) }
    }

    /// Works the agenda off from its end, up to the next directory to be listed.
    pub open spec fn advance(self) -> ScanView
        decreases self.agenda.len(),
    {
        if self.agenda.len() == 0 {
            ScanView { root: self.root, files: self.files, agenda: self.agenda, pending: None }
        } else {
            match self.agenda.last() {
                TaskView::Emit(file) => ScanView {
                    root: self.root,
                    files: self.files.push(file),
                    agenda: self.agenda.drop_last(),
                    pending: None,
                }.advance(),
                TaskView::List(dir) => ScanView {
                    root: self.root,
                    files: self.files,
                    agenda: self.agenda.drop_last(),
                    pending: Some(dir),
                },
            }
        }
    }

    /// The scan after the driver has answered for the pending directory. The
    /// entries of a listing go on the agenda, and the scan goes on to the next
    /// directory; without a listing it goes on at once. A scan that is over
    /// stays as it is.
    pub open spec fn answer(self, listing: Result<Seq<EntryView>, Seq<char>>) -> ScanView {
        match self.pending {
            Some(dir) => ScanView {
                root: self.root,
                files: self.files,
                agenda: self.agenda + listing_tasks(dir, listing),
                pending: None,
            }.advance(),
            None => self,
        }
    }

    /// What there is to tell of an answer: that the pending directory could not be listed.
    pub open spec fn report(self, listing: Result<Seq<EntryView>, Seq<char>>) -> Option<
        ErrorView,
    > {
        match (self.pending, listing) {
            (Some(dir), Err(cause)) => Some(ErrorView::DirectoryUnreadable { path: dir, cause }),
            _ => None,
        }
    }

    /// What holds of every scan: all that it has noted or put down lies under
    /// its root, the files have names that are to be copied, and a scan that
    /// waits for nothing has nothing left to do.
    pub open spec fn wf(self) -> bool {
        &&& forall|i: int| 0 <= i < self.files.len() ==> is_found_file(self.root, #[trigger] self.files[i])
        &&& forall|i: int|
            0 <= i < self.agenda.len() ==> is_sound_task(self.root, #[trigger] self.agenda[i])
        &&& self.pending is Some ==> self.pending->0.lies_under(self.root)
        &&& self.pending is None ==> self.agenda.len() == 0
    }
}

/// A file as the scan of `root` notes it: below the root, under a name that is to be copied.
pub open spec fn is_found_file(root: PathView, file: PathView) -> bool {
    &&& file.lies_under(root)
    &&& file.names.len() > root.names.len()
    &&& is_eligible_name(file.names.last())
}

/// A task as the scan of `root` puts it down.
pub open spec fn is_sound_task(root: PathView, task: TaskView) -> bool {
    match task {
        TaskView::Emit(file) => is_found_file(root, file),
        TaskView::List(dir) => dir.lies_under(root),
    }
}

/// The files that a sound scan has noted lie under its root.
pub proof fn lemma_found_files_lie_under(scan: ScanView)
    requires
        scan.wf(),
    ensures
        all_lie_under(scan.files, scan.root),
{
    assert forall|i: int| 0 <= i < scan.files.len() implies (#[trigger] scan.files[i]).lies_under(
        scan.root,
    ) by {
        assert(is_found_file(scan.root, scan.files[i]));
    }
}

/// An entry of a directory under `root` lies under `root`.
pub proof fn lemma_child_lies_under(dir: PathView, root: PathView, name: Seq<u8>)
    requires
        dir.lies_under(root),
    ensures
        dir.child(name).lies_under(root),
        dir.child(name).names.len() > root.names.len(),
        dir.child(name).names.last() == name,
{
    assert(dir.child(name).names.subrange(0, root.names.len() as int) =~= dir.names.subrange(
        0,
        root.names.len() as int,
    ));
}

/// The tasks for the entries of a directory under `root` are sound.
pub proof fn lemma_stacked_tasks_sound(root: PathView, dir: PathView, entries: Seq<EntryView>)
    requires
        dir.lies_under(root),
    ensures
        forall|i: int|
            0 <= i < stacked_tasks(dir, entries).len() ==> is_sound_task(
                root,
                #[trigger] stacked_tasks(dir, entries)[i],
            ),
    decreases entries.len(),
{
    if entries.len() > 0 {
        let rest = stacked_tasks(dir, entries.drop_first());
        let own = entry_tasks(dir, entries.first());
        lemma_stacked_tasks_sound(root, dir, entries.drop_first());
        lemma_child_lies_under(dir, root, entries.first().name);
        assert forall|i: int| 0 <= i < (rest + own).len() implies is_sound_task(
            root,
            #[trigger] (rest + own)[i],
        ) by {
            if i < rest.len() {
                assert((rest + own)[i] == rest[i]);
            } else {
                assert((rest + own)[i] == own[i - rest.len()]);
            }
        }
    }
}

/// Working the agenda off keeps a scan sound.
pub proof fn lemma_advance_keeps_wf(scan: ScanView)
    requires
        forall|i: int| 0 <= i < scan.files.len() ==> is_found_file(scan.root, #[trigger] scan.files[i]),
        forall|i: int|
            0 <= i < scan.agenda.len() ==> is_sound_task(scan.root, #[trigger] scan.agenda[i]),
    ensures
        scan.advance().wf(),
        scan.advance().root == scan.root,
    decreases scan.agenda.len(),
{
    if scan.agenda.len() > 0 {
        match scan.agenda.last() {
            TaskView::Emit(file) => {
                let next = ScanView {
                    root: scan.root,
                    files: scan.files.push(file),
                    agenda: scan.agenda.drop_last(),
                    pending: None,
                };
                lemma_advance_keeps_wf(next);
            },
            TaskView::List(dir) => {},
        }
    }
}

/// Whatever the driver answers, a sound scan stays sound, and stays the scan of its root.
pub proof fn lemma_answer_keeps_wf(scan: ScanView, listing: Result<Seq<EntryView>, Seq<char>>)
    requires
        scan.wf(),
    ensures
        scan.answer(listing).wf(),
        scan.answer(listing).root == scan.root,
{
    match scan.pending {
        Some(dir) => {
            let fresh = listing_tasks(dir, listing);
            if let Ok(entries) = listing {
                lemma_stacked_tasks_sound(scan.root, dir, entries);
            }
            assert forall|i: int| 0 <= i < (scan.agenda + fresh).len() implies is_sound_task(
                scan.root,
                #[trigger] (scan.agenda + fresh)[i],
            ) by {
                if i < scan.agenda.len() {
                    assert((scan.agenda + fresh)[i] == scan.agenda[i]);
                } else {
                    assert((scan.agenda + fresh)[i] == fresh[i - scan.agenda.len()]);
                }
            }
            lemma_advance_keeps_wf(
                ScanView {
                    root: scan.root,
                    files: scan.files,
                    agenda: scan.agenda + fresh,
                    pending: None,
                },
            );
        },
        None => {},
    }
}

/// Something that the scanner has put down to do later.
enum Task {
    Emit(FilePath),
    List(FilePath),
}

impl View for Task {
    type V = TaskView;

    closed spec fn view(&self) -> TaskView {
        match self {
            Task::Emit(path) => TaskView::Emit(path@),
            Task::List(path) => TaskView::List(path@),
        }
    }
}

/// A scan under way.
pub struct Scanner {
    root: FilePath,
    files: Vec<FilePath>,
    agenda: Vec<Task>,
    pending: Option<FilePath>,
}

impl View for Scanner {
    type V = ScanView;

    closed spec fn view(&self) -> ScanView {
        ScanView {
            root: self.root@,
            files: views(self.files@),
            agenda: views(self.agenda@),
            pending: match self.pending {
                Some(dir) => Some(dir@),
                None => None,
            },
        }
    }
}

impl Scanner {
    /// The scan of the tree at `root`, which waits for the listing of `root`.
    pub fn new(root: FilePath) -> (scanner: Scanner)
        ensures
            scanner@ == ScanView::start(root@),
            scanner@.wf(),
    {
        let pending = Some(root.clone());
        let scanner = Scanner { root, files: Vec::new(), agenda: Vec::new(), pending };
        assert(scanner@.files =~= Seq::empty());
        assert(scanner@.agenda =~= Seq::empty());
        assert(root@.names.subrange(0, root@.names.len() as int) =~= root@.names);
        scanner
    }

    /// The directory that the scan started at.
    pub fn root(&self) -> (root: &FilePath)
        ensures
            root@ == self@.root,
    {
        &self.root
    }

    /// The directory whose listing the scanner waits for; none when the scan is over.
    pub fn pending(&self) -> (dir: Option<&FilePath>)
        ensures
            dir is Some <==> self@.pending is Some,
            dir is Some ==> dir->0@ == self@.pending->0,
    {
        self.pending.as_ref()
    }

    /// The files noted so far, in the order of the walk.
    pub fn files(&self) -> (files: &Vec<FilePath>)
        requires
            self@.wf(),
        ensures
            views(files@) == self@.files,
            all_lie_under(views(files@), self@.root),
    {
        proof {
            lemma_found_files_lie_under(self@);
        }
        &self.files
    }

    /// Ends the scan and hands out the files that it has noted.
    pub fn into_files(self) -> (files: Vec<FilePath>)
        requires
            self@.wf(),
        ensures
            views(files@) == self@.files,
            all_lie_under(views(files@), self@.root),
    {
        proof {
            lemma_found_files_lie_under(self@);
        }
        self.files
    }

    /// Works the agenda off from its end, up to the next directory to be listed.
    fn advance(&mut self)
        requires
            old(self).pending is None,
        ensures
            final(self)@ == old(self)@.advance(),
    {
        loop
            invariant
                self.pending is None,
                self@.advance() == old(self)@.advance(),
            decreases self.agenda@.len(),
        {
            proof {
                if self.agenda@.len() > 0 {
                    lemma_views_drop_last(self.agenda@);
                }
            }
            match self.agenda.pop() {
                None => {
                    self.pending = None;
                    return ;
                },
                Some(Task::Emit(file)) => {
                    proof {
                        lemma_views_push(self.files@, file);
                    }
                    self.files.push(file);
                },
                Some(Task::List(dir)) => {
                    self.pending = Some(dir);
                    return ;
                },
            }
        }
    }

    /// Puts the entries of the directory `dir` on the agenda.
    fn put_down(&mut self, dir: &FilePath, entries: &Vec<DirEntry>)
        ensures
            final(self).root == old(self).root,
            final(self).files == old(self).files,
            final(self).pending == old(self).pending,
            views(final(self).agenda@) == views(old(self).agenda@) + stacked_tasks(
                dir@,
                views(entries@),
            ),
    {
        let mut at: usize = entries.len();
        assert(views(entries@).skip(at as int) =~= Seq::empty());
        assert(views(self.agenda@) + Seq::<TaskView>::empty() =~= views(self.agenda@));
        while at > 0
            invariant
                at <= entries@.len(),
                self.root == old(self).root,
                self.files == old(self).files,
                self.pending == old(self).pending,
                views(self.agenda@) == views(old(self).agenda@) + stacked_tasks(
                    dir@,
                    views(entries@).skip(at as int),
                ),
            decreases at,
        {
            at -= 1;
            let entry = &entries[at];
            let ghost before = views(self.agenda@);
            let ghost rest = views(entries@).skip(at + 1);
            proof {
                assert(views(entries@).skip(at as int).drop_first() =~= rest);
                assert(views(entries@).skip(at as int).first() == entry@);
            }
            match entry.class() {
                EntryClass::EligibleFile => {
                    let task = Task::Emit(dir.child(entry.name.as_slice()));
                    proof {
                        lemma_views_push(self.agenda@, task);
                    }
                    self.agenda.push(task);
                },
                EntryClass::Directory => {
                    let task = Task::List(dir.child(entry.name.as_slice()));
                    proof {
                        lemma_views_push(self.agenda@, task);
                    }
                    self.agenda.push(task);
                },
                _ => {},
            }
            assert(views(self.agenda@) =~= before + entry_tasks(dir@, entry@));
            assert(before + entry_tasks(dir@, entry@) =~= views(old(self).agenda@) + (
            stacked_tasks(dir@, rest) + entry_tasks(dir@, entry@)));
        }
        assert(views(entries@).skip(0) =~= views(entries@));
    }

    /// Takes the driver's answer for the pending directory: its entries, or
    /// the reason why it could not be listed. The scanner then waits for the
    /// next directory, or the scan is over. An answer that could not be a
    /// listing is handed back as the error to tell of.
    pub fn answer(&mut self, listing: Result<Vec<DirEntry>, String>) -> (report: Option<CopyError>)
        requires
            old(self)@.wf(),
        ensures
            final(self)@ == old(self)@.answer(listing_view(listing)),
            final(self)@.wf(),
            final(self)@.root == old(self)@.root,
            report is Some <==> old(self)@.report(listing_view(listing)) is Some,
            report is Some ==> report->0@ == old(self)@.report(listing_view(listing))->0,
    {
        proof {
            lemma_answer_keeps_wf(self@, listing_view(listing));
        }
        let dir = match self.pending.take() {
            Some(dir) => dir,
            None => {
                return None;
            },
        };
        match listing {
            Ok(entries) => {
                self.put_down(&dir, &entries);
                self.advance();
                None
            },
            Err(cause) => {
                assert(views(self.agenda@) + Seq::<TaskView>::empty() =~= views(self.agenda@));
                self.advance();
                Some(CopyError::DirectoryUnreadable { path: dir, cause })
            },
        }
    }
}

} // verus!
