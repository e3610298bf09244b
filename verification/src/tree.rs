//! A snapshot of the directory tree that is to be packed.

use vstd::prelude::*;
use crate::entry::EntryView;
use crate::error::{ErrorKind, ErrorView};
use crate::path::{path_bytes, valid_segment, SLASH};

verus! {

/// What was found at one place under the root.
///
/// A link is followed: what it points to stands in its place. A link that
/// points to nothing is a `BrokenLink`; it is left out of the archive and
/// reported. Anything that could not be read is `Unreadable`.
#[derive(Debug)]
pub enum SourceNode {
    File { data: Vec<u8> },
    Directory { children: Vec<SourceChild> },
    BrokenLink,
    Unreadable,
}

/// One name in a directory, and what stands under it.
#[derive(Debug)]
pub struct SourceChild {
    pub name: String,
    pub node: SourceNode,
}

/// What a path leads to once links are followed.
#[derive(Clone, Copy, Debug, PartialEq, Eq, Structural)]
pub enum TargetKind {
    File,
    Directory,
    /// A device, a socket, a pipe.
    Other,
}

/// What a look at one path found, before anything is read.
#[derive(Clone, Copy, Debug, PartialEq, Eq, Structural)]
pub struct Probe {
    /// What the path leads to; `None` where that could not be found out.
    pub target: Option<TargetKind>,
    /// The path itself is a link.
    pub is_link: bool,
    /// The path leads back to a directory that it lies in.
    pub revisits: bool,
}

/// What the reader of a snapshot does with a path.
#[derive(Clone, Copy, Debug, PartialEq, Eq, Structural)]
pub enum Step {
    /// Read the bytes: the node is a `File`, or `Unreadable` where that fails.
    ReadFile,
    /// List the names and take each in turn: the node is a `Directory`, or
    /// `Unreadable` where the listing fails.
    ListDirectory,
    /// The node is a `BrokenLink`.
    SkipLink,
    /// The node is `Unreadable`.
    GiveUp,
    /// The path is left out of the snapshot.
    PassOver,
}

/// How links and odd files are dealt with. Links are followed: a link to a
/// file is read as that file, a link to a directory is listed as that
/// directory. A link that leads nowhere, or back to a directory it lies in,
/// is skipped. What is neither file nor directory is passed over. Anything
/// else that cannot be looked at fails the archive.
pub open spec fn next_step(probe: Probe) -> Step {
    match probe.target {
        None => if probe.is_link {
            Step::SkipLink
        } else {
            Step::GiveUp
        },
        Some(TargetKind::File) => Step::ReadFile,
        Some(TargetKind::Directory) => if probe.revisits {
            Step::SkipLink
        } else {
            Step::ListDirectory
        },
        Some(TargetKind::Other) => Step::PassOver,
    }
}

/// Says what to do with a path, from what a look at it found.
pub fn decide(probe: &Probe) -> (step: Step)
    ensures
        step == next_step(*probe),
{
    match probe.target {
        None => if probe.is_link {
            Step::SkipLink
        } else {
            Step::GiveUp
        },
        Some(TargetKind::File) => Step::ReadFile,
        Some(TargetKind::Directory) => if probe.revisits {
            Step::SkipLink
        } else {
            Step::ListDirectory
        },
        Some(TargetKind::Other) => Step::PassOver,
    }
}

/// What a walk gives: the entries, and the paths of the links that were skipped.
pub struct WalkView {
    pub entries: Seq<EntryView>,
    pub skipped: Seq<Seq<u8>>,
}

/// A walk that found nothing.
pub open spec fn empty_walk() -> WalkView {
    WalkView { entries: Seq::empty(), skipped: Seq::empty() }
}

/// One walk after another.
pub open spec fn walk_then(first: WalkView, second: WalkView) -> WalkView {
    WalkView {
        entries: first.entries + second.entries,
        skipped: first.skipped + second.skipped,
    }
}

/// The entry of a file at `path`.
pub open spec fn file_entry(path: Seq<u8>, data: Seq<u8>) -> EntryView {
    EntryView { path, is_dir: false, data }
}

/// The entry of the directory at `path`, which ends in `/`.
pub open spec fn directory_entry(path: Seq<u8>) -> EntryView {
    EntryView { path, is_dir: true, data: Seq::empty() }
}

/// The number of names in a directory; 0 for anything else.
pub open spec fn child_count(node: SourceNode) -> nat {
    match node {
        SourceNode::Directory { children } => children@.len(),
        _ => 0,
    }
}

/// The walk of what stands at `path`, a path without the mark of a directory.
///
/// A file gives its entry. A directory gives its own entry, under `path` and
/// `/`, and then the walk of what it holds. A broken link gives no entry and
/// is noted as skipped. What cannot be read fails the walk.
pub open spec fn walk_node(node: SourceNode, path: Seq<u8>) -> Result<WalkView, ErrorView>
    decreases node, child_count(node) + 1,
{
    match node {
        SourceNode::File { data } => Ok(
            WalkView { entries: seq![file_entry(path, data@)], skipped: Seq::empty() },
        ),
        SourceNode::Directory { children } => {
            let inside = path + seq![SLASH];
            match walk_children(node, inside, children@.len()) {
                Ok(w) => Ok(
                    WalkView {
                        entries: seq![directory_entry(inside)] + w.entries,
                        skipped: w.skipped,
                    },
                ),
                Err(e) => Err(e),
            }
        },
        SourceNode::BrokenLink => Ok(WalkView { entries: Seq::empty(), skipped: seq![path] }),
        SourceNode::Unreadable => Err(ErrorView { kind: ErrorKind::ReadFailure, path }),
    }
}

/// The walk of the first `n` names of the directory `node`, whose own path,
/// with its mark, is `prefix` (empty for the root). The names are taken in the
/// order of the snapshot, and the first failure ends the walk: a name that
/// cannot be a segment, or something unreadable.
pub open spec fn walk_children(node: SourceNode, prefix: Seq<u8>, n: nat) -> Result<
    WalkView,
    ErrorView,
>
    decreases node, n,
{
    match node {
        SourceNode::Directory { children } => {
            if n == 0 || n > children@.len() {
                Ok(empty_walk())
            } else {
                match walk_children(node, prefix, (n - 1) as nat) {
                    Err(e) => Err(e),
                    Ok(before) => {
                        let child = children@[n - 1];
                        let path = prefix + path_bytes(child.name@);
                        if !valid_segment(path_bytes(child.name@)) {
                            Err(ErrorView { kind: ErrorKind::PathTraversal, path })
                        } else {
                            match walk_node(child.node, path) {
                                Err(e) => Err(e),
                                Ok(w) => Ok(walk_then(before, w)),
                            }
                        }
                    },
                }
            }
        },
        _ => Ok(empty_walk()),
    }
}

/// The walk of a whole tree: that of all the names of the root. A root that is
/// no directory fails it.
pub open spec fn walk_tree(root: SourceNode) -> Result<WalkView, ErrorView> {
    match root {
        SourceNode::Directory { children } => walk_children(
            root,
            Seq::empty(),
            children@.len(),
        ),
        SourceNode::Unreadable => Err(
            ErrorView { kind: ErrorKind::ReadFailure, path: Seq::empty() },
        ),
        _ => Err(ErrorView { kind: ErrorKind::NotADirectory, path: Seq::empty() }),
    }
}

} // verus!
