//! From a tree to an archive in one call.

use vstd::prelude::*;
use crate::error::{ArchiveError, ErrorKind};
use crate::order::sorted_by_path;
use crate::settings::OptionsResolver;
use crate::tree::{walk_tree, SourceNode};
use crate::walker::{string_bytes, walk};
use crate::writer::{write_archive, written, Archive};

verus! {

/// An archive, and the paths of the links that were left out of it.
#[derive(Clone, Debug, PartialEq, Eq)]
pub struct Packed {
    pub archive: Archive,
    pub skipped: Vec<String>,
}

/// Packs a tree: walks it, and writes the entries in the order of their paths
/// under the settings that the policy gives each file.
///
/// Where the walk fails, that is the error. Otherwise the result is that of
/// writing the sorted entries; no path is turned down as unsafe then, so the
/// only errors left are a method that cannot be written and a write failure.
pub fn create_archive<R: OptionsResolver>(root: &SourceNode, resolver: &R) -> (r: Result<
    Packed,
    ArchiveError,
>)
    ensures
        match walk_tree(*root) {
            Err(e) => r matches Err(err) && err@ == e,
            Ok(w) => match r {
                Ok(packed) => {
                    &&& written(
                        sorted_by_path(w.entries),
                        *resolver,
                        Ok::<Archive, ArchiveError>(packed.archive),
                    )
                    &&& packed.skipped@.len() == w.skipped.len()
                    &&& string_bytes(packed.skipped@) == w.skipped
                },
                Err(e) => {
                    &&& written(
                        sorted_by_path(w.entries),
                        *resolver,
                        Err::<Archive, ArchiveError>(e),
                    )
                    &&& e@.kind == ErrorKind::UnsupportedSettings || e@.kind
                        == ErrorKind::WriteFailure
                },
            },
        },
{
    match walk(root) {
        Err(e) => Err(e),
        Ok(out) => match write_archive(&out.entries, resolver) {
            Err(e) => Err(e),
            Ok(archive) => Ok(Packed { archive, skipped: out.skipped }),
        },
    }
}

} // verus!
