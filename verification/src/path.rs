//! Paths, as a root and the names that lead down from it.
//!
//! A path is held in parts, never as one string: the text of its root (`/`,
//! or nothing for a relative path) and the names below the root, each a byte
//! string as the file system gave it. Two paths are the same path when they
//! have the same parts.

use vstd::prelude::*;
use vstd::std_specs::cmp::PartialEqSpecImpl;
use crate::bytes::{bytes_copy, bytes_equal};
use crate::views::{lemma_views_push, views};

verus! {

/// What a path is: the root it starts at and the names below the root, outermost first.
pub struct PathView {
    /// The text of the root; empty for a relative path.
    pub root: Seq<u8>,
    /// The names from the root down to the entry that the path stands for.
    pub names: Seq<Seq<u8>>,
}

impl PathView {
    /// A path is absolute when it starts at a root.
    pub open spec fn is_absolute(self) -> bool {
        self.root.len() > 0
    }

    /// `self` is `base` or lies below it: same root, and the names of `base` come first.
    pub open spec fn lies_under(self, base: PathView) -> bool {
        &&& self.root == base.root
        &&& base.names.len() <= self.names.len()
        &&& self.names.subrange(0, base.names.len() as int) == base.names
    }

    /// What is left of `self` when the names of `base` are taken off its front.
    pub open spec fn relative_to(self, base: PathView) -> PathView {
        PathView { root: Seq::empty(), names: self.names.skip(base.names.len() as int) }
    }

    /// `tail` taken from `self`: an absolute `tail` stands for itself.
    pub open spec fn join(self, tail: PathView) -> PathView {
        if tail.is_absolute() {
            tail
        } else {
            PathView { root: self.root, names: self.names + tail.names }
        }
    }

    /// The entry called `name` in the directory `self`.
    pub open spec fn child(self, name: Seq<u8>) -> PathView {
        PathView { root: self.root, names: self.names.push(name) }
    }

    /// The directory that holds `self`; a bare root, or an empty path, has none.
    pub open spec fn parent(self) -> Option<PathView> {
        if self.names.len() > 0 {
            Some(PathView { root: self.root, names: self.names.drop_last() })
        } else {
            None
        }
    }

    /// The last name of the path, if it has one.
    pub open spec fn file_name(self) -> Option<Seq<u8>> {
        if self.names.len() > 0 {
            Some(self.names.last())
        } else {
            None
        }
    }

    /// Where a file at `self` below `source` belongs below `destination`:
    /// the same way down, from the other place.
    pub open spec fn rebase(self, source: PathView, destination: PathView) -> PathView {
        destination.join(self.relative_to(source))
    }

    /// An absolute path stands; a relative one is taken from `base`.
    pub open spec fn resolve(self, base: PathView) -> PathView {
        if self.is_absolute() {
            self
        } else {
            base.join(self)
        }
    }
}

/// Whether each of `files` is `base` or lies below it.
pub open spec fn all_lie_under(files: Seq<PathView>, base: PathView) -> bool {
    forall|i: int| 0 <= i < files.len() ==> (#[trigger] files[i]).lies_under(base)
}

/// A path in parts: the text of its root and the names below it.
#[derive(Debug)]
pub struct FilePath {
    /// The text of the root (`/`); empty for a relative path.
    pub root: Vec<u8>,
    /// The names from the root down, outermost first.
    pub names: Vec<Vec<u8>>,
}

impl View for FilePath {
    type V = PathView;

    open spec fn view(&self) -> PathView {
        PathView { root: self.root@, names: views(self.names@) }
    }
}

/// Appends to `into` copies of `names[from..]`.
fn push_names(into: &mut Vec<Vec<u8>>, names: &Vec<Vec<u8>>, from: usize)
    requires
        from <= names@.len(),
    ensures
        views(final(into)@) == views(old(into)@) + views(names@).skip(from as int),
{
    let mut i: usize = from;
    assert(views(names@).subrange(from as int, from as int) =~= Seq::empty());
    assert(views(into@) + Seq::<Seq<u8>>::empty() =~= views(into@));
    while i < names.len()
        invariant
            from <= i <= names@.len(),
            views(into@) == views(old(into)@) + views(names@).subrange(
                from as int,
                i as int,
            ),
        decreases names@.len() - i,
    {
        let name = bytes_copy(names[i].as_slice());
        proof {
            lemma_views_push(into@, name);
            assert(views(names@).subrange(from as int, i + 1) =~= views(
                names@,
            ).subrange(from as int, i as int).push(name@));
            assert((views(old(into)@) + views(names@).subrange(
                from as int,
                i as int,
            )).push(name@) =~= views(old(into)@) + views(names@).subrange(
                from as int,
                i + 1,
            ));
        }
        into.push(name);
        i += 1;
    }
    assert(views(names@).subrange(from as int, names@.len() as int) =~= views(
        names@,
    ).skip(from as int));
}

impl Clone for FilePath {
    /// A path of the same parts.
    fn clone(&self) -> (copy: FilePath)
        ensures
            copy@ == self@,
    {
        let mut names: Vec<Vec<u8>> = Vec::new();
        push_names(&mut names, &self.names, 0);
        assert(views(names@) =~= views(self.names@));
        FilePath { root: bytes_copy(self.root.as_slice()), names }
    }
}

impl PartialEq for FilePath {
    /// Two paths are equal when they have the same root and the same names.
    fn eq(&self, other: &FilePath) -> (same: bool) {
        if !bytes_equal(self.root.as_slice(), other.root.as_slice()) {
            return false;
        }
        if self.names.len() != other.names.len() {
            assert(self@.names.len() != other@.names.len());
            return false;
        }
        let agree = self.names_agree(other, self.names.len());
        proof {
            let n = self.names@.len() as int;
            assert(self@.names.subrange(0, n) =~= self@.names);
            assert(other@.names.subrange(0, n) =~= other@.names);
        }
        agree
    }
}

impl PartialEqSpecImpl for FilePath {
    open spec fn obeys_eq_spec() -> bool {
        true
    }

    open spec fn eq_spec(&self, other: &FilePath) -> bool {
        self@ == other@
    }
}

impl Eq for FilePath {

}

impl FilePath {
    /// The path with the given parts.
    pub fn new(root: Vec<u8>, names: Vec<Vec<u8>>) -> (path: FilePath)
        ensures
            path.root == root,
            path.names == names,
    {
        FilePath { root, names }
    }

    /// Whether the path starts at a root.
    pub fn is_absolute(&self) -> (absolute: bool)
        ensures
            absolute == self@.is_absolute(),
    {
        self.root.len() > 0
    }

    /// Whether the path starts nowhere in particular.
    pub fn is_relative(&self) -> (relative: bool)
        ensures
            relative == !self@.is_absolute(),
    {
        self.root.len() == 0
    }

    /// Whether the first `count` names of both paths agree.
    fn names_agree(&self, other: &FilePath, count: usize) -> (agree: bool)
        requires
            count <= self.names@.len(),
            count <= other.names@.len(),
        ensures
            agree == (self@.names.subrange(0, count as int) == other@.names.subrange(
                0,
                count as int,
            )),
    {
        let mut i: usize = 0;
        while i < count
            invariant
                i <= count,
                count <= self.names@.len(),
                count <= other.names@.len(),
                forall|k: int| 0 <= k < i ==> self@.names[k] == other@.names[k],
            decreases count - i,
        {
            if !bytes_equal(self.names[i].as_slice(), other.names[i].as_slice()) {
                assert(self@.names.subrange(0, count as int)[i as int] != other@.names.subrange(
                    0,
                    count as int,
                )[i as int]);
                return false;
            }
            i += 1;
        }
        assert(self@.names.subrange(0, count as int) =~= other@.names.subrange(0, count as int));
        true
    }

    /// Whether the path is `base` or lies below it.
    pub fn lies_under(&self, base: &FilePath) -> (under: bool)
        ensures
            under == self@.lies_under(base@),
    {
        if !bytes_equal(self.root.as_slice(), base.root.as_slice()) {
            return false;
        }
        if base.names.len() > self.names.len() {
            return false;
        }
        let agree = self.names_agree(base, base.names.len());
        proof {
            let n = base.names@.len() as int;
            assert(base@.names.subrange(0, n) =~= base@.names);
        }
        agree
    }

    /// The way from `base` down to the path, where the path lies under `base`.
    pub fn relative_to(&self, base: &FilePath) -> (rest: Option<FilePath>)
        ensures
            rest is Some <==> self@.lies_under(base@),
            rest is Some ==> rest->0@ == self@.relative_to(base@),
    {
        if !self.lies_under(base) {
            return None;
        }
        let mut names: Vec<Vec<u8>> = Vec::new();
        push_names(&mut names, &self.names, base.names.len());
        assert(views(names@) =~= self@.names.skip(base@.names.len() as int));
        Some(FilePath { root: Vec::new(), names })
    }

    /// `tail` taken from the path: an absolute `tail` stands for itself.
    pub fn join(&self, tail: &FilePath) -> (joined: FilePath)
        ensures
            joined@ == self@.join(tail@),
    {
        if tail.is_absolute() {
            return tail.clone();
        }
        let mut names: Vec<Vec<u8>> = Vec::new();
        push_names(&mut names, &self.names, 0);
        push_names(&mut names, &tail.names, 0);
        assert(views(names@) =~= self@.names + tail@.names);
        FilePath { root: bytes_copy(self.root.as_slice()), names }
    }

    /// The entry called `name` in the directory that the path stands for.
    pub fn child(&self, name: &[u8]) -> (entry: FilePath)
        ensures
            entry@ == self@.child(name@),
    {
        let mut names: Vec<Vec<u8>> = Vec::new();
        push_names(&mut names, &self.names, 0);
        let last = bytes_copy(name);
        proof {
            lemma_views_push(names@, last);
        }
        names.push(last);
        assert(views(names@) =~= self@.names.push(name@));
        FilePath { root: bytes_copy(self.root.as_slice()), names }
    }

    /// The directory that holds the path; a bare root, or an empty path, has none.
    pub fn parent(&self) -> (holder: Option<FilePath>)
        ensures
            holder is Some <==> self@.parent() is Some,
            holder is Some ==> holder->0@ == self@.parent()->0,
    {
        if self.names.len() == 0 {
            return None;
        }
        let mut names: Vec<Vec<u8>> = Vec::new();
        let last: usize = self.names.len() - 1;
        let mut i: usize = 0;
        assert(views(names@) =~= self@.names.subrange(0, 0));
        while i < last
            invariant
                i <= last < self.names@.len(),
                views(names@) == self@.names.subrange(0, i as int),
            decreases last - i,
        {
            let name = bytes_copy(self.names[i].as_slice());
            proof {
                lemma_views_push(names@, name);
                assert(self@.names.subrange(0, i + 1) =~= self@.names.subrange(0, i as int).push(
                    name@,
                ));
            }
            names.push(name);
            i += 1;
        }
        assert(self@.names.subrange(0, last as int) =~= self@.names.drop_last());
        Some(FilePath { root: bytes_copy(self.root.as_slice()), names })
    }

    /// The last name of the path, if it has one.
    pub fn file_name(&self) -> (name: Option<&[u8]>)
        ensures
            name is Some <==> self@.file_name() is Some,
            name is Some ==> name->0@ == self@.file_name()->0,
    {
        if self.names.len() == 0 {
            None
        } else {
            Some(self.names[self.names.len() - 1].as_slice())
        }
    }

    /// Where the file at this path below `source` belongs below `destination`.
    pub fn rebase(&self, source: &FilePath, destination: &FilePath) -> (target: FilePath)
        requires
            self@.lies_under(source@),
        ensures
            target@ == self@.rebase(source@, destination@),
    {
        let mut names: Vec<Vec<u8>> = Vec::new();
        push_names(&mut names, &destination.names, 0);
        push_names(&mut names, &self.names, source.names.len());
        assert(views(names@) =~= destination@.names + self@.names.skip(
            source@.names.len() as int,
        ));
        FilePath { root: bytes_copy(destination.root.as_slice()), names }
    }

    /// The path itself where it is absolute, else the path taken from `base`.
    pub fn resolve(&self, base: &FilePath) -> (resolved: FilePath)
        ensures
            resolved@ == self@.resolve(base@),
    {
        if self.is_absolute() {
            self.clone()
        } else {
            base.join(self)
        }
    }
}

/// Re-rooting keeps the way down: the target is as far below the destination,
/// and by the same names, as the file is below the source.
pub proof fn lemma_rebase_keeps_relative_path(
    file: PathView,
    source: PathView,
    destination: PathView,
)
    requires
        file.lies_under(source),
    ensures
        file.rebase(source, destination).lies_under(destination),
        file.rebase(source, destination).relative_to(destination) == file.relative_to(source),
        source.join(file.relative_to(source)) == file,
{
    let rest = file.relative_to(source);
    let target = file.rebase(source, destination);
    assert(target.names.subrange(0, destination.names.len() as int) =~= destination.names);
    assert(target.names.skip(destination.names.len() as int) =~= rest.names);
    assert(source.names + rest.names =~= file.names) by {
        assert(file.names.subrange(0, source.names.len() as int) == source.names);
    }
}

/// A file below the source is its own target exactly when the destination is the source.
pub proof fn lemma_own_target_iff_same_roots(
    file: PathView,
    source: PathView,
    destination: PathView,
)
    requires
        file.lies_under(source),
    ensures
        file.rebase(source, destination) == file <==> destination == source,
{
    let rest = file.relative_to(source);
    let target = file.rebase(source, destination);
    lemma_rebase_keeps_relative_path(file, source, destination);
    if target == file {
        assert(destination.names.len() + rest.names.len() == file.names.len());
        assert(source.names.len() + rest.names.len() == file.names.len());
        assert(destination.names =~= source.names) by {
            assert(target.names.subrange(0, destination.names.len() as int)
                =~= destination.names);
        }
    }
    if destination == source {
        assert(target =~= file);
    }
}

} // verus!
