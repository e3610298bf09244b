//! Walks a tree: lays it out as entries and puts them in the order of their paths.

use vstd::prelude::*;
use vstd::slice::slice_to_vec;
use vstd::string::*;
use crate::entry::{all_acceptable, entry_views, Entry};
use crate::error::ArchiveError;
use crate::laws::lemma_walk_tree_acceptable;
use crate::order::{lemma_sorted_by_path, sort_entries, sorted, sorted_by_path};
use crate::path::{
    is_valid_segment,
    lemma_path_bytes_concat,
    lemma_slash_bytes,
    path_bytes,
    SLASH,
};
use crate::tree::{
    walk_children,
    walk_node,
    walk_tree,
    SourceChild,
    SourceNode,
};

verus! {

/// The bytes of each string of a list.
pub open spec fn string_bytes(strings: Seq<String>) -> Seq<Seq<u8>> {
    Seq::new(strings.len(), |i: int| path_bytes(strings[i]@))
}

/// The path of a name under a directory: the directory's path, then the name.
fn child_path(prefix: &String, name: &String) -> (p: String)
    ensures
        path_bytes(p@) == path_bytes(prefix@) + path_bytes(name@),
{
    let mut p = prefix.clone();
    p.append(name.as_str());
    proof {
        lemma_path_bytes_concat(prefix@, name@);
    }
    p
}

/// The path of a directory with its mark.
fn with_directory_mark(path: String) -> (p: String)
    ensures
        path_bytes(p@) == path_bytes(path@) + seq![SLASH],
{
    let mut p = path;
    p.append("/");
    proof {
        lemma_path_bytes_concat(path@, "/"@);
        lemma_slash_bytes();
    }
    p
}

/// Puts the entries of what stands at `path` behind `entries`, and the links
/// skipped behind `skipped`.
pub(crate) fn collect_node(
    node: &SourceNode,
    path: String,
    entries: &mut Vec<Entry>,
    skipped: &mut Vec<String>,
) -> (r: Result<(), ArchiveError>)
    ensures
        match walk_node(*node, path_bytes(path@)) {
            Ok(w) => {
                &&& r is Ok
                &&& entry_views(final(entries)@) == entry_views(old(entries)@) + w.entries
                &&& string_bytes(final(skipped)@) == string_bytes(old(skipped)@) + w.skipped
            },
            Err(e) => r matches Err(err) && err@ == e,
        },
    decreases node, 1nat,
{
    match node {
        SourceNode::File { data } => {
            let bytes = slice_to_vec(data.as_slice());
            entries.push(Entry::File { relative_path: path, data: bytes });
            Ok(())
        },
        SourceNode::Directory { children } => {
            let inside = with_directory_mark(path);
            entries.push(Entry::Directory { relative_path: inside.clone() });
            collect_children(node, &inside, entries, skipped)
        },
        SourceNode::BrokenLink => {
            skipped.push(path);
            Ok(())
        },
        SourceNode::Unreadable => Err(ArchiveError::ReadFailure { path }),
    }
}

/// Puts the entries of all that the directory `node` holds behind `entries`,
/// and the links skipped behind `skipped`. `prefix` is the directory's own
/// path with its mark, or empty for the root.
pub(crate) fn collect_children(
    node: &SourceNode,
    prefix: &String,
    entries: &mut Vec<Entry>,
    skipped: &mut Vec<String>,
) -> (r: Result<(), ArchiveError>)
    requires
        *node is Directory,
    ensures
        match walk_children(*node, path_bytes(prefix@), node->children@.len()) {
            Ok(w) => {
                &&& r is Ok
                &&& entry_views(final(entries)@) == entry_views(old(entries)@) + w.entries
                &&& string_bytes(final(skipped)@) == string_bytes(old(skipped)@) + w.skipped
            },
            Err(e) => r matches Err(err) && err@ == e,
        },
    decreases node, 0nat,
{
    let ghost base = path_bytes(prefix@);
    match node {
        SourceNode::Directory { children } => {
            let n: usize = children.len();
            let mut i: usize = 0;
            while i < n
                invariant
                    *node == (SourceNode::Directory { children: *children }),
                    n == children@.len(),
                    i <= n,
                    base == path_bytes(prefix@),
                    walk_children(*node, base, i as nat) is Ok,
                    entry_views(entries@) == entry_views(old(entries)@) + walk_children(
                        *node,
                        base,
                        i as nat,
                    )->Ok_0.entries,
                    string_bytes(skipped@) == string_bytes(old(skipped)@) + walk_children(
                        *node,
                        base,
                        i as nat,
                    )->Ok_0.skipped,
                decreases n - i,
            {
                let child: &SourceChild = &children[i];
                let path = child_path(prefix, &child.name);
                if !is_valid_segment(child.name.as_str()) {
                    proof {
                        lemma_failure_stays(*node, base, (i + 1) as nat, n as nat);
                    }
                    return Err(ArchiveError::PathTraversal { path });
                }
                match collect_node(&child.node, path, entries, skipped) {
                    Ok(_) => {},
                    Err(e) => {
                        proof {
                            lemma_failure_stays(*node, base, (i + 1) as nat, n as nat);
                        }
                        return Err(e);
                    },
                }
                i += 1;
            }
            Ok(())
        },
        _ => Ok(()),
    }
}

/// What a walk hands back: the entries in the order of their paths, and the
/// paths of the links that point to nothing and were left out.
#[derive(Clone, Debug, PartialEq, Eq)]
pub struct WalkOutput {
    pub entries: Vec<Entry>,
    pub skipped: Vec<String>,
}

/// Walks a tree: one entry for each file and each directory under the root,
/// in the order of their paths.
///
/// Fails where the root is no directory, where a name cannot be a segment of
/// a path, and where something cannot be read; the error has the path.
pub fn walk(root: &SourceNode) -> (r: Result<WalkOutput, ArchiveError>)
    ensures
        match walk_tree(*root) {
            Ok(w) => {
                &&& r matches Ok(out)
                &&& out.entries@.len() == w.entries.len()
                &&& entry_views(out.entries@) == sorted_by_path(w.entries)
                &&& out.skipped@.len() == w.skipped.len()
                &&& string_bytes(out.skipped@) == w.skipped
                &&& sorted(entry_views(out.entries@))
                &&& all_acceptable(entry_views(out.entries@))
            },
            Err(e) => r matches Err(err) && err@ == e,
        },
{
    match root {
        SourceNode::Directory { .. } => {
            let mut entries: Vec<Entry> = Vec::new();
            let mut skipped: Vec<String> = Vec::new();
            let prefix = String::new();
            match collect_children(root, &prefix, &mut entries, &mut skipped) {
                Err(e) => Err(e),
                Ok(_) => {
                    proof {
                        lemma_sorted_by_path(walk_tree(*root)->Ok_0.entries);
                        lemma_walk_tree_acceptable(*root);
                    }
                    let sorted_entries = sort_entries(entries);
                    Ok(WalkOutput { entries: sorted_entries, skipped })
                },
            }
        },
        SourceNode::Unreadable => Err(ArchiveError::ReadFailure { path: String::new() }),
        _ => Err(ArchiveError::NotADirectory { path: String::new() }),
    }
}

/// A walk that has failed after `n` names fails in the same way after more.
pub proof fn lemma_failure_stays(node: SourceNode, prefix: Seq<u8>, n: nat, m: nat)
    requires
        node is Directory,
        n <= m <= node->children@.len(),
        walk_children(node, prefix, n) is Err,
    ensures
        walk_children(node, prefix, m) == walk_children(node, prefix, n),
    decreases m,
{
    if n < m {
        lemma_failure_stays(node, prefix, n, (m - 1) as nat);
    }
}

} // verus!
