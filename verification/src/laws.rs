//! What holds of every walk and of every archive.

use vstd::prelude::*;
use crate::checksum::{crc32, lemma_crc32_empty};
use crate::entry::{acceptable_path, all_acceptable, EntryView};
use crate::names::{
    holds_empty_directory,
    lemma_empty_directory_walk,
    lemma_unique_names_distinct_paths,
    starts_with,
    unique_names,
};
use crate::order::{
    distinct_paths,
    lemma_entry_is_sorted_entry,
    lemma_sorted_by_path,
    lemma_sorted_entry_is_entry,
    lemma_sorted_unique,
    sorted_by_path,
};
use crate::path::{
    bad_at,
    has_directory_mark,
    lemma_child_path_safe,
    path_bytes,
    safe_relative_path,
    segment_ends_at,
    segment_starts_at,
    valid_segment,
    DOT,
    SLASH,
};
use crate::settings::OptionsResolver;
use crate::sink::{archive_image, StoredEntry};
use crate::tree::{
    child_count,
    directory_entry,
    walk_children,
    walk_node,
    walk_tree,
    SourceNode,
};
use crate::writer::{confirmed_at, found_at, owed, planned, planned_index};

verus! {

/// The place of a directory under which names can be put: the root, whose
/// path is empty, or a safe path with the mark of a directory.
pub open spec fn directory_prefix(prefix: Seq<u8>) -> bool {
    prefix.len() == 0 || (safe_relative_path(prefix) && has_directory_mark(prefix))
}

/// The entries of what stands under a valid name in a directory all have
/// paths that can be written.
pub proof fn lemma_walk_node_acceptable(node: SourceNode, prefix: Seq<u8>, name: Seq<u8>)
    requires
        directory_prefix(prefix),
        valid_segment(name),
    ensures
        walk_node(node, prefix + name) matches Ok(w) ==> all_acceptable(w.entries),
    decreases node, child_count(node) + 1,
{
    lemma_child_path_safe(prefix, name);
    match node {
        SourceNode::Directory { children } => {
            let inside = prefix + name + seq![SLASH];
            lemma_walk_children_acceptable(node, inside, children@.len());
        },
        _ => {},
    }
}

/// The entries of what a directory holds all have paths that can be written.
pub proof fn lemma_walk_children_acceptable(node: SourceNode, prefix: Seq<u8>, n: nat)
    requires
        directory_prefix(prefix),
    ensures
        walk_children(node, prefix, n) matches Ok(w) ==> all_acceptable(w.entries),
    decreases node, n,
{
    match node {
        SourceNode::Directory { children } => {
            if 0 < n <= children@.len() {
                lemma_walk_children_acceptable(node, prefix, (n - 1) as nat);
                let child = children@[n - 1];
                if valid_segment(path_bytes(child.name@)) {
                    lemma_walk_node_acceptable(child.node, prefix, path_bytes(child.name@));
                }
            }
        },
        _ => {},
    }
}

/// Sorting keeps every path one that can be written.
pub proof fn lemma_sorting_keeps_acceptable(entries: Seq<EntryView>)
    requires
        all_acceptable(entries),
    ensures
        all_acceptable(sorted_by_path(entries)),
{
    let s = sorted_by_path(entries);
    assert forall|i: int| 0 <= i < s.len() implies acceptable_path(#[trigger] s[i]) by {
        lemma_sorted_entry_is_entry(entries, i);
    }
}

/// The bytes from `i` to `j` are one whole segment of the path.
pub open spec fn is_segment(p: Seq<u8>, i: int, j: int) -> bool {
    &&& 0 <= i <= j <= p.len()
    &&& segment_starts_at(p, i)
    &&& segment_ends_at(p, j)
    &&& forall|k: int| i <= k < j ==> p[k] != SLASH
}

/// A safe path does not start with `/`, and none of its segments is `.` or `..`.
pub proof fn lemma_safe_path_segments(p: Seq<u8>, i: int, j: int)
    requires
        safe_relative_path(p),
        is_segment(p, i, j),
    ensures
        p[0] != SLASH,
        p.subrange(i, j) != seq![DOT, DOT],
        p.subrange(i, j) != seq![DOT],
{
    assert(!bad_at(p, 0));
    if p.subrange(i, j) == seq![DOT, DOT] {
        assert(j - i == 2) by {
            assert(p.subrange(i, j).len() == 2);
        }
        assert(bad_at(p, i));
    }
    if p.subrange(i, j) == seq![DOT] {
        assert(j - i == 1) by {
            assert(p.subrange(i, j).len() == 1);
        }
        assert(p[i] == p.subrange(i, j)[0]);
        assert(bad_at(p, i));
    }
}

/// Path safety: whatever the tree, no entry of its walk has a path that starts
/// with `/` or holds a segment `..` (or `.`), and a path ends in `/` just when
/// its entry is a directory.
pub proof fn law_path_safety(root: SourceNode, k: int, i: int, j: int)
    requires
        walk_tree(root) is Ok,
        0 <= k < sorted_by_path(walk_tree(root)->Ok_0.entries).len(),
        is_segment(sorted_by_path(walk_tree(root)->Ok_0.entries)[k].path, i, j),
    ensures
        ({
            let e = sorted_by_path(walk_tree(root)->Ok_0.entries)[k];
            &&& e.path.len() > 0
            &&& e.path[0] != SLASH
            &&& e.path.subrange(i, j) != seq![DOT, DOT]
            &&& e.path.subrange(i, j) != seq![DOT]
            &&& has_directory_mark(e.path) == e.is_dir
        }),
{
    lemma_walk_tree_acceptable(root);
    let e = sorted_by_path(walk_tree(root)->Ok_0.entries)[k];
    lemma_safe_path_segments(e.path, i, j);
}

/// Every entry of the walk of a tree, as the walk gives them and sorted, has a
/// path that can be written.
pub proof fn lemma_walk_tree_acceptable(root: SourceNode)
    ensures
        walk_tree(root) matches Ok(w) ==> all_acceptable(w.entries) && all_acceptable(
            sorted_by_path(w.entries),
        ),
{
    match root {
        SourceNode::Directory { children } => {
            lemma_walk_children_acceptable(root, Seq::empty(), children@.len());
            if walk_tree(root) is Ok {
                lemma_sorting_keeps_acceptable(walk_tree(root)->Ok_0.entries);
            }
        },
        _ => {},
    }
}

/// No directory entry of the list has a payload.
pub open spec fn directories_empty(entries: Seq<EntryView>) -> bool {
    forall|i: int|
        0 <= i < entries.len() && (#[trigger] entries[i]).is_dir ==> entries[i].data.len() == 0
}

/// What the container was handed, read as entries of a tree: for each the
/// name, whether it is a directory, and the payload.
pub open spec fn handed_over(stored: Seq<StoredEntry>) -> Seq<EntryView> {
    Seq::new(
        stored.len(),
        |i: int| EntryView { path: stored[i].name, is_dir: stored[i].is_dir, data: stored[i].data },
    )
}

proof fn lemma_walk_node_directories_empty(node: SourceNode, path: Seq<u8>)
    ensures
        walk_node(node, path) matches Ok(w) ==> directories_empty(w.entries),
    decreases node, child_count(node) + 1,
{
    match node {
        SourceNode::Directory { children } => {
            lemma_walk_children_directories_empty(node, path + seq![SLASH], children@.len());
        },
        _ => {},
    }
}

proof fn lemma_walk_children_directories_empty(node: SourceNode, prefix: Seq<u8>, n: nat)
    ensures
        walk_children(node, prefix, n) matches Ok(w) ==> directories_empty(w.entries),
    decreases node, n,
{
    match node {
        SourceNode::Directory { children } => {
            if 0 < n <= children@.len() {
                lemma_walk_children_directories_empty(node, prefix, (n - 1) as nat);
                let child = children@[n - 1];
                lemma_walk_node_directories_empty(child.node, prefix + path_bytes(child.name@));
            }
        },
        _ => {},
    }
}

/// Round trip, entry by entry: what the container is handed is the list of
/// entries that was to be written, with the same paths, kinds and bytes,
/// whatever the settings.
pub proof fn law_round_trip_entries<R: OptionsResolver>(entries: Seq<EntryView>, resolver: R)
    requires
        directories_empty(entries),
    ensures
        handed_over(planned(entries, resolver)) == entries,
{
    let c = handed_over(planned(entries, resolver));
    assert forall|i: int| 0 <= i < entries.len() implies c[i] == entries[i] by {
        if entries[i].is_dir {
            assert(entries[i].data =~= Seq::<u8>::empty());
        }
    }
}

/// Round trip: what the container is handed for a tree is what the walk of
/// the tree found: the same paths with the same bytes, and the same
/// directories, each as often as the tree has it.
pub proof fn law_round_trip<R: OptionsResolver>(root: SourceNode, resolver: R)
    requires
        walk_tree(root) is Ok,
    ensures
        handed_over(planned(sorted_by_path(walk_tree(root)->Ok_0.entries), resolver)).to_multiset()
            == walk_tree(root)->Ok_0.entries.to_multiset(),
{
    let w = walk_tree(root)->Ok_0;
    match root {
        SourceNode::Directory { children } => {
            lemma_walk_children_directories_empty(root, Seq::empty(), children@.len());
        },
        _ => {},
    }
    lemma_sorted_by_path(w.entries);
    lemma_sorting_keeps_directories_empty(w.entries);
    law_round_trip_entries(sorted_by_path(w.entries), resolver);
}

proof fn lemma_sorting_keeps_directories_empty(entries: Seq<EntryView>)
    requires
        directories_empty(entries),
    ensures
        directories_empty(sorted_by_path(entries)),
{
    let s = sorted_by_path(entries);
    assert forall|i: int| 0 <= i < s.len() && (#[trigger] s[i]).is_dir implies s[i].data.len()
        == 0 by {
        lemma_sorted_entry_is_entry(entries, i);
    }
}

/// Sorting a list that has no path twice gives a list that has no path twice.
pub proof fn lemma_sorting_keeps_distinct(a: Seq<EntryView>)
    requires
        distinct_paths(a),
    ensures
        distinct_paths(sorted_by_path(a)),
{
    lemma_sorted_by_path(a);
    let sa = sorted_by_path(a);
    assert(a.no_duplicates()) by {
        assert forall|i: int, j: int| 0 <= i < a.len() && 0 <= j < a.len() && i != j implies a[i]
            != a[j] by {
            if j < i {
                assert(a[j].path != a[i].path);
            }
        }
    }
    a.lemma_multiset_has_no_duplicates();
    sa.lemma_multiset_has_no_duplicates_conv();
    assert forall|i: int, j: int| 0 <= i < j < sa.len() implies #[trigger] sa[i].path
        != #[trigger] sa[j].path by {
        lemma_sorted_entry_is_entry(a, i);
        lemma_sorted_entry_is_entry(a, j);
    }
}

/// Two lists that hold the same entries, no path twice, are the same list
/// once sorted: the order of an archive does not depend on the order in which
/// the entries were found.
pub proof fn law_order_is_canonical(a: Seq<EntryView>, b: Seq<EntryView>)
    requires
        a.to_multiset() == b.to_multiset(),
        distinct_paths(a),
    ensures
        sorted_by_path(a) == sorted_by_path(b),
{
    lemma_sorted_by_path(a);
    lemma_sorted_by_path(b);
    lemma_sorting_keeps_distinct(a);
    lemma_sorted_unique(sorted_by_path(a), sorted_by_path(b));
}

/// Determinism: two snapshots of a tree in which no directory holds a name
/// twice, with the same files and directories in them, give the same archive
/// under the same policy, byte for byte and record for record, in whatever
/// order the names of a directory were read.
pub proof fn law_deterministic<R: OptionsResolver>(
    first: SourceNode,
    second: SourceNode,
    resolver: R,
)
    requires
        unique_names(first),
        walk_tree(first) is Ok,
        walk_tree(second) is Ok,
        walk_tree(first)->Ok_0.entries.to_multiset() == walk_tree(
            second,
        )->Ok_0.entries.to_multiset(),
    ensures
        sorted_by_path(walk_tree(first)->Ok_0.entries) == sorted_by_path(
            walk_tree(second)->Ok_0.entries,
        ),
        archive_image(planned(sorted_by_path(walk_tree(first)->Ok_0.entries), resolver))
            == archive_image(planned(sorted_by_path(walk_tree(second)->Ok_0.entries), resolver)),
        planned_index(sorted_by_path(walk_tree(first)->Ok_0.entries), resolver) == planned_index(
            sorted_by_path(walk_tree(second)->Ok_0.entries),
            resolver,
        ),
{
    lemma_unique_names_distinct_paths(first);
    law_order_is_canonical(walk_tree(first)->Ok_0.entries, walk_tree(second)->Ok_0.entries);
}

/// Directory preservation: a directory that holds nothing gives exactly one
/// entry, its own, and no file entry; nothing is skipped.
pub proof fn law_empty_directory(node: SourceNode, path: Seq<u8>)
    requires
        node is Directory,
        node->children@.len() == 0,
    ensures
        walk_node(node, path) is Ok,
        walk_node(node, path)->Ok_0.entries == seq![directory_entry(path + seq![SLASH])],
        walk_node(node, path)->Ok_0.entries.len() == 1,
        walk_node(node, path)->Ok_0.entries[0].is_dir,
        walk_node(node, path)->Ok_0.skipped.len() == 0,
{
}

/// Directory preservation, in the index: of a tree in which no directory holds
/// a name twice, a directory that holds nothing has exactly one record, a
/// directory record of size 0 under its path with the mark, and no other
/// record has a path that begins with that path. Where an archive is owed,
/// the record takes no room in the container.
pub proof fn law_empty_directory_in_index<R: OptionsResolver>(
    root: SourceNode,
    resolver: R,
    d: Seq<u8>,
)
    requires
        unique_names(root),
        walk_tree(root) is Ok,
        root is Directory,
        holds_empty_directory(root, Seq::empty(), root->children@.len(), d),
    ensures
        ({
            let entries = sorted_by_path(walk_tree(root)->Ok_0.entries);
            let index = planned_index(entries, resolver);
            &&& index.len() == entries.len()
            &&& exists|i: int| 0 <= i < index.len() && (#[trigger] index[i]).path == d
            &&& forall|i: int|
                0 <= i < index.len() && starts_with((#[trigger] index[i]).path, d) ==> {
                    &&& index[i].path == d
                    &&& index[i].is_dir
                    &&& index[i].size == 0
                    &&& owed(entries, resolver) ==> index[i].compressed == 0
                }
            &&& forall|i: int, j: int|
                0 <= i < j < index.len() ==> (#[trigger] index[i]).path != (
                #[trigger] index[j]).path
        }),
{
    let w = walk_tree(root)->Ok_0;
    let entries = sorted_by_path(w.entries);
    let index = planned_index(entries, resolver);
    lemma_empty_directory_walk(root, Seq::empty(), root->children@.len(), d);
    lemma_unique_names_distinct_paths(root);
    lemma_sorting_keeps_distinct(w.entries);
    lemma_sorted_by_path(w.entries);
    lemma_entry_is_sorted_entry(w.entries, directory_entry(d));
    let m = choose|m: int| 0 <= m < entries.len() && entries[m] == directory_entry(d);
    assert(index[m].path == d);
    assert forall|i: int|
        0 <= i < index.len() && starts_with((#[trigger] index[i]).path, d) implies {
        &&& index[i].path == d
        &&& index[i].is_dir
        &&& index[i].size == 0
        &&& owed(entries, resolver) ==> index[i].compressed == 0
    } by {
        lemma_sorted_entry_is_entry(w.entries, i);
        lemma_crc32_empty();
        if owed(entries, resolver) {
            assert(confirmed_at(entries, resolver, i));
        }
    }
    assert forall|i: int, j: int| 0 <= i < j < index.len() implies (#[trigger] index[i]).path != (
    #[trigger] index[j]).path by {}
}

/// Checksum integrity: for every entry, the checksum and the size in the
/// index are those of the payload that the container was handed; and where an
/// archive is owed, they are the checksum and the size that the container's
/// own index keeps for the entry.
pub proof fn law_checksum<R: OptionsResolver>(entries: Seq<EntryView>, resolver: R, i: int)
    requires
        0 <= i < entries.len(),
    ensures
        planned_index(entries, resolver)[i].checksum == crc32(
            handed_over(planned(entries, resolver))[i].data,
        ),
        planned_index(entries, resolver)[i].size == handed_over(
            planned(entries, resolver),
        )[i].data.len(),
        planned_index(entries, resolver)[i].path == handed_over(
            planned(entries, resolver),
        )[i].path,
        owed(entries, resolver) ==> {
            &&& found_at(entries, resolver, i) matches Some(found)
            &&& found.checksum == planned_index(entries, resolver)[i].checksum
            &&& found.size == planned_index(entries, resolver)[i].size
            &&& found.name == planned_index(entries, resolver)[i].path
        },
{
    if owed(entries, resolver) {
        assert(confirmed_at(entries, resolver, i));
    }
}

/// Where an archive is owed, the record of every entry has its place and the
/// room of its payload from the container's own index; what is stored as it
/// is takes as many bytes as it has, and a directory takes none.
pub proof fn law_room<R: OptionsResolver>(entries: Seq<EntryView>, resolver: R, i: int)
    requires
        0 <= i < entries.len(),
        owed(entries, resolver),
    ensures
        found_at(entries, resolver, i) matches Some(found) && {
            &&& planned_index(entries, resolver)[i].offset == found.offset
            &&& planned_index(entries, resolver)[i].compressed == found.compressed
        },
        planned_index(entries, resolver)[i].method is Store ==> planned_index(
            entries,
            resolver,
        )[i].compressed == planned_index(entries, resolver)[i].size,
        entries[i].is_dir ==> planned_index(entries, resolver)[i].compressed == 0
            && planned_index(entries, resolver)[i].size == 0,
{
    assert(confirmed_at(entries, resolver, i));
}

} // verus!
