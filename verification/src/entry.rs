//! The entries of an archive: one for each file and each directory under the root.

use vstd::prelude::*;
use crate::path::{has_directory_mark, path_bytes, safe_relative_path};

verus! {

/// What an entry stands for.
#[derive(Clone, Copy, Debug, PartialEq, Eq, Structural)]
pub enum EntryKind {
    File,
    Directory,
}

/// One file or directory found under the root.
///
/// The relative path is made of the names from the root down, with `/`
/// between them; that of a directory ends in `/`. A file carries its bytes.
#[derive(Clone, Debug, PartialEq, Eq)]
pub enum Entry {
    File { relative_path: String, data: Vec<u8> },
    Directory { relative_path: String },
}

/// An entry as the contracts speak of it: the bytes of its path, its kind and
/// its payload, which is empty for a directory.
pub struct EntryView {
    pub path: Seq<u8>,
    pub is_dir: bool,
    pub data: Seq<u8>,
}

impl View for Entry {
    type V = EntryView;

    open spec fn view(&self) -> EntryView {
        match *self {
            Entry::File { relative_path, data } => EntryView {
                path: path_bytes(relative_path@),
                is_dir: false,
                data: data@,
            },
            Entry::Directory { relative_path } => EntryView {
                path: path_bytes(relative_path@),
                is_dir: true,
                data: Seq::empty(),
            },
        }
    }
}

/// The path of an entry can be written: it is safe, and it ends in `/` just
/// when the entry is a directory.
pub open spec fn acceptable_path(e: EntryView) -> bool {
    safe_relative_path(e.path) && has_directory_mark(e.path) == e.is_dir
}

/// Every entry of the list has a path that can be written.
pub open spec fn all_acceptable(entries: Seq<EntryView>) -> bool {
    forall|i: int| 0 <= i < entries.len() ==> acceptable_path(#[trigger] entries[i])
}

/// The views of a list of entries, one for one.
pub open spec fn entry_views(entries: Seq<Entry>) -> Seq<EntryView> {
    Seq::new(entries.len(), |i: int| entries[i]@)
}

impl Entry {
    /// The path of the entry, relative to the root.
    pub fn relative_path(&self) -> (p: &String)
        ensures
            path_bytes(p@) == self@.path,
    {
        match self {
            Entry::File { relative_path, .. } => relative_path,
            Entry::Directory { relative_path } => relative_path,
        }
    }

    /// Whether the entry is a file or a directory.
    pub fn kind(&self) -> (k: EntryKind)
        ensures
            (k == EntryKind::Directory) == self@.is_dir,
    {
        match self {
            Entry::File { .. } => EntryKind::File,
            Entry::Directory { .. } => EntryKind::Directory,
        }
    }

    /// The number of bytes of the payload: 0 for a directory.
    pub fn size_bytes(&self) -> (n: usize)
        ensures
            n == self@.data.len(),
    {
        match self {
            Entry::File { data, .. } => data.len(),
            Entry::Directory { .. } => 0,
        }
    }
}

} // verus!
