//! What can go wrong, by kind, with the path at fault and the reason given.

use vstd::prelude::*;
use vstd::string::StringExecFns;
use crate::path::{FilePath, PathView};

verus! {

/// What a [`CopyError`] says: its kind, the path at fault, the reason that came with it.
pub enum ErrorView {
    InvalidArguments,
    DirectoryUnreadable { path: PathView, cause: Seq<char> },
    DestinationRootUncreatable { path: PathView, cause: Seq<char> },
    DestinationParentUncreatable { path: PathView, cause: Seq<char> },
    SourceEqualsDestination { path: PathView },
    CopyFailed { path: PathView, cause: Seq<char> },
}

impl ErrorView {
    /// The path at fault. A wrong command line has none.
    pub open spec fn path(self) -> Option<PathView> {
        match self {
            ErrorView::InvalidArguments => None,
            ErrorView::DirectoryUnreadable { path, .. } => Some(path),
            ErrorView::DestinationRootUncreatable { path, .. } => Some(path),
            ErrorView::DestinationParentUncreatable { path, .. } => Some(path),
            ErrorView::SourceEqualsDestination { path } => Some(path),
            ErrorView::CopyFailed { path, .. } => Some(path),
        }
    }

    /// What could not be done with the path.
    pub open spec fn action(self) -> Seq<char> {
        match self {
            ErrorView::InvalidArguments => Seq::empty(),
            ErrorView::DirectoryUnreadable { .. } => "read contents of"@,
            ErrorView::DestinationRootUncreatable { .. } => "create"@,
            ErrorView::DestinationParentUncreatable { .. } => "create"@,
            ErrorView::SourceEqualsDestination { .. } => "copy"@,
            ErrorView::CopyFailed { .. } => "copy"@,
        }
    }

    /// Why it could not be done.
    pub open spec fn reason(self) -> Seq<char> {
        match self {
            ErrorView::InvalidArguments => Seq::empty(),
            ErrorView::DirectoryUnreadable { cause, .. } => cause,
            ErrorView::DestinationRootUncreatable { cause, .. } => cause,
            ErrorView::DestinationParentUncreatable { cause, .. } => cause,
            ErrorView::SourceEqualsDestination { .. } => "SOURCE is DEST"@,
            ErrorView::CopyFailed { cause, .. } => cause,
        }
    }

    /// The line that tells of the error, where `shown` is the path as it is to be read.
    pub open spec fn message(self, shown: Seq<char>) -> Seq<char> {
        match self {
            ErrorView::InvalidArguments => "The only allowed parameters are SOURCE and DEST."@,
            _ => "Unable to "@ + self.action() + " "@ + shown + ": "@ + self.reason(),
        }
    }
}

/// An error of the copy. None of them is raised: the scanner and the copier
/// hand them out, and go on where the kind allows it.
#[derive(Debug, PartialEq, Eq)]
pub enum CopyError {
    /// The command line does not hold exactly a source and a destination.
    InvalidArguments,
    /// A directory of the source could not be listed. What lies below it is left out.
    DirectoryUnreadable { path: FilePath, cause: String },
    /// The destination could not be created. Nothing is copied.
    DestinationRootUncreatable { path: FilePath, cause: String },
    /// The directory for the file at `path` could not be created. The file is left out.
    DestinationParentUncreatable { path: FilePath, cause: String },
    /// The file at `path` would be copied onto itself. It is left out.
    SourceEqualsDestination { path: FilePath },
    /// The file at `path` could not be copied. It is left out.
    CopyFailed { path: FilePath, cause: String },
}

impl View for CopyError {
    type V = ErrorView;

    open spec fn view(&self) -> ErrorView {
        match self {
            CopyError::InvalidArguments => ErrorView::InvalidArguments,
            CopyError::DirectoryUnreadable { path, cause } => ErrorView::DirectoryUnreadable {
                path: path@,
                cause: cause@,
            },
            CopyError::DestinationRootUncreatable {
                path,
                cause,
            } => ErrorView::DestinationRootUncreatable { path: path@, cause: cause@ },
            CopyError::DestinationParentUncreatable {
                path,
                cause,
            } => ErrorView::DestinationParentUncreatable { path: path@, cause: cause@ },
            CopyError::SourceEqualsDestination { path } => ErrorView::SourceEqualsDestination {
                path: path@,
            },
            CopyError::CopyFailed { path, cause } => ErrorView::CopyFailed {
                path: path@,
                cause: cause@,
            },
        }
    }
}

impl CopyError {
    /// The path at fault, if the error has one.
    pub fn path(&self) -> (path: Option<&FilePath>)
        ensures
            path is Some <==> self@.path() is Some,
            path is Some ==> path->0@ == self@.path()->0,
    {
        match self {
            CopyError::InvalidArguments => None,
            CopyError::DirectoryUnreadable { path, .. } => Some(path),
            CopyError::DestinationRootUncreatable { path, .. } => Some(path),
            CopyError::DestinationParentUncreatable { path, .. } => Some(path),
            CopyError::SourceEqualsDestination { path } => Some(path),
            CopyError::CopyFailed { path, .. } => Some(path),
        }
    }

    /// What could not be done with the path.
    pub fn action(&self) -> (action: &'static str)
        ensures
            action@ == self@.action(),
    {
        match self {
            CopyError::InvalidArguments => {
                proof {
                    reveal_strlit("");
                }
                assert(""@ =~= Seq::<char>::empty());
                ""
            },
            CopyError::DirectoryUnreadable { .. } => "read contents of",
            CopyError::DestinationRootUncreatable { .. } => "create",
            CopyError::DestinationParentUncreatable { .. } => "create",
            CopyError::SourceEqualsDestination { .. } => "copy",
            CopyError::CopyFailed { .. } => "copy",
        }
    }

    /// Why it could not be done.
    pub fn reason(&self) -> (reason: &str)
        ensures
            reason@ == self@.reason(),
    {
        match self {
            CopyError::InvalidArguments => {
                proof {
                    reveal_strlit("");
                }
                assert(""@ =~= Seq::<char>::empty());
                ""
            },
            CopyError::DirectoryUnreadable { cause, .. } => cause.as_str(),
            CopyError::DestinationRootUncreatable { cause, .. } => cause.as_str(),
            CopyError::DestinationParentUncreatable { cause, .. } => cause.as_str(),
            CopyError::SourceEqualsDestination { .. } => "SOURCE is DEST",
            CopyError::CopyFailed { cause, .. } => cause.as_str(),
        }
    }

    /// The line that tells of the error, where `shown` is the path as it is to be read.
    pub fn message(&self, shown: &str) -> (line: String)
        ensures
            line@ == self@.message(shown@),
    {
        match self {
            CopyError::InvalidArguments => "The only allowed parameters are SOURCE and DEST."
                .to_owned(),
            _ => {
                let mut line = "Unable to ".to_owned();
                line.append(self.action());
                line.append(" ");
                line.append(shown);
                line.append(": ");
                line.append(self.reason());
                line
            },
        }
    }
}

} // verus!
