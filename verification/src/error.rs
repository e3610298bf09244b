//! Why an archive could not be made.

use vstd::prelude::*;
use vstd::string::*;
use crate::path::path_bytes;

verus! {

/// The kinds of failure.
#[derive(Clone, Copy, Debug, PartialEq, Eq, Structural)]
pub enum ErrorKind {
    /// The source root is not a directory.
    NotADirectory,
    /// A path would leave the root, or is not a relative path at all.
    PathTraversal,
    /// Something under the root could not be read.
    ReadFailure,
    /// The container has no room for a name, declined an entry, or could not be
    /// finished.
    WriteFailure,
    /// The policy asked for a method that cannot be written.
    UnsupportedSettings,
}

/// A failure, with the relative path at which it arose. The path of the root
/// is empty.
#[derive(Clone, Debug, PartialEq, Eq)]
pub enum ArchiveError {
    NotADirectory { path: String },
    PathTraversal { path: String },
    ReadFailure { path: String },
    WriteFailure { path: String },
    UnsupportedSettings { path: String },
}

/// A failure as the contracts speak of it.
pub struct ErrorView {
    pub kind: ErrorKind,
    pub path: Seq<u8>,
}

impl View for ArchiveError {
    type V = ErrorView;

    open spec fn view(&self) -> ErrorView {
        match *self {
            ArchiveError::NotADirectory { path } => ErrorView {
                kind: ErrorKind::NotADirectory,
                path: path_bytes(path@),
            },
            ArchiveError::PathTraversal { path } => ErrorView {
                kind: ErrorKind::PathTraversal,
                path: path_bytes(path@),
            },
            ArchiveError::ReadFailure { path } => ErrorView {
                kind: ErrorKind::ReadFailure,
                path: path_bytes(path@),
            },
            ArchiveError::WriteFailure { path } => ErrorView {
                kind: ErrorKind::WriteFailure,
                path: path_bytes(path@),
            },
            ArchiveError::UnsupportedSettings { path } => ErrorView {
                kind: ErrorKind::UnsupportedSettings,
                path: path_bytes(path@),
            },
        }
    }
}

impl ArchiveError {
    /// The kind of the failure.
    pub fn kind(&self) -> (k: ErrorKind)
        ensures
            k == self@.kind,
    {
        match self {
            ArchiveError::NotADirectory { .. } => ErrorKind::NotADirectory,
            ArchiveError::PathTraversal { .. } => ErrorKind::PathTraversal,
            ArchiveError::ReadFailure { .. } => ErrorKind::ReadFailure,
            ArchiveError::WriteFailure { .. } => ErrorKind::WriteFailure,
            ArchiveError::UnsupportedSettings { .. } => ErrorKind::UnsupportedSettings,
        }
    }

    /// The relative path at which the failure arose.
    pub fn path(&self) -> (p: &String)
        ensures
            p@ == self.path_chars(),
            path_bytes(p@) == self@.path,
    {
        match self {
            ArchiveError::NotADirectory { path } => path,
            ArchiveError::PathTraversal { path } => path,
            ArchiveError::ReadFailure { path } => path,
            ArchiveError::WriteFailure { path } => path,
            ArchiveError::UnsupportedSettings { path } => path,
        }
    }

    /// The failure in words: what went wrong, a colon and the path.
    pub fn message(&self) -> (m: String)
        ensures
            m@ == describe(self@.kind)@ + ": "@ + self.path_chars(),
    {
        let head: String = String::from_str(describe_kind(self.kind()));
        head.concat(": ").concat(self.path().as_str())
    }

    /// The characters of the path.
    pub open spec fn path_chars(&self) -> Seq<char> {
        match *self {
            ArchiveError::NotADirectory { path } => path@,
            ArchiveError::PathTraversal { path } => path@,
            ArchiveError::ReadFailure { path } => path@,
            ArchiveError::WriteFailure { path } => path@,
            ArchiveError::UnsupportedSettings { path } => path@,
        }
    }
}

/// What each kind of failure is called.
pub open spec fn describe(kind: ErrorKind) -> &'static str {
    match kind {
        ErrorKind::NotADirectory => "source root is not a directory",
        ErrorKind::PathTraversal => "path leaves the source root",
        ErrorKind::ReadFailure => "cannot read",
        ErrorKind::WriteFailure => "cannot write entry",
        ErrorKind::UnsupportedSettings => "unsupported compression settings",
    }
}

/// What a kind of failure is called.
pub fn describe_kind(kind: ErrorKind) -> (s: &'static str)
    ensures
        s == describe(kind),
{
    match kind {
        ErrorKind::NotADirectory => "source root is not a directory",
        ErrorKind::PathTraversal => "path leaves the source root",
        ErrorKind::ReadFailure => "cannot read",
        ErrorKind::WriteFailure => "cannot write entry",
        ErrorKind::UnsupportedSettings => "unsupported compression settings",
    }
}

} // verus!
