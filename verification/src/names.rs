//! Trees in which no directory holds a name twice, and why their entries all
//! have different paths.

use vstd::prelude::*;
use crate::entry::EntryView;
use crate::order::distinct_paths;
use crate::path::{lemma_path_bytes_injective, path_bytes, valid_segment, SLASH};
use crate::tree::{
    child_count,
    directory_entry,
    walk_children,
    walk_node,
    walk_tree,
    SourceNode,
};
use crate::walker::lemma_failure_stays;

verus! {

/// No directory of the tree holds a name twice.
pub open spec fn unique_names(node: SourceNode) -> bool
    decreases node,
{
    match node {
        SourceNode::Directory { children } => {
            &&& forall|i: int, j: int|
                0 <= i < j < children@.len() ==> (#[trigger] children@[i]).name@
                    != (#[trigger] children@[j]).name@
            &&& forall|i: int|
                0 <= i < children@.len() ==> unique_names((#[trigger] children@[i]).node)
        },
        _ => true,
    }
}

/// `p` begins with the bytes of `base`.
pub open spec fn starts_with(p: Seq<u8>, base: Seq<u8>) -> bool {
    base.len() <= p.len() && forall|i: int| 0 <= i < base.len() ==> p[i] == base[i]
}

/// `p` is the path `base`, or a path below it: `base`, a `/`, and more or nothing.
pub open spec fn at_or_below(p: Seq<u8>, base: Seq<u8>) -> bool {
    starts_with(p, base) && (p.len() == base.len() || p[base.len() as int] == SLASH)
}

/// `p` is the path of name `k` of the directory `node`, or a path below it.
pub open spec fn below_child(node: SourceNode, prefix: Seq<u8>, k: int, p: Seq<u8>) -> bool {
    &&& node is Directory
    &&& 0 <= k < node->children@.len()
    &&& valid_segment(path_bytes(node->children@[k].name@))
    &&& at_or_below(p, prefix + path_bytes(node->children@[k].name@))
}

/// `p` is at or below one of the first `n` names of the directory `node`.
pub open spec fn owned(node: SourceNode, prefix: Seq<u8>, n: nat, p: Seq<u8>) -> bool {
    exists|k: int| 0 <= k < n && #[trigger] below_child(node, prefix, k, p)
}

/// Paths at or below two different names of one directory are different.
pub proof fn lemma_siblings_apart(
    prefix: Seq<u8>,
    a: Seq<u8>,
    b: Seq<u8>,
    p: Seq<u8>,
    q: Seq<u8>,
)
    requires
        valid_segment(a),
        valid_segment(b),
        a != b,
        at_or_below(p, prefix + a),
        at_or_below(q, prefix + b),
    ensures
        p != q,
{
    if p == q {
        let l = prefix.len() as int;
        if a.len() == b.len() {
            assert forall|i: int| 0 <= i < a.len() implies a[i] == b[i] by {
                assert(p[l + i] == (prefix + b)[l + i]);
            }
            assert(a =~= b);
        }
    }
}

/// In a tree without a name twice, the entries of what stands at `path` have
/// different paths, each `path` itself or below it.
pub proof fn lemma_node_paths(node: SourceNode, path: Seq<u8>)
    requires
        unique_names(node),
    ensures
        walk_node(node, path) matches Ok(w) ==> {
            &&& distinct_paths(w.entries)
            &&& forall|i: int|
                0 <= i < w.entries.len() ==> at_or_below(#[trigger] w.entries[i].path, path)
        },
    decreases node, child_count(node) + 1,
{
    match node {
        SourceNode::Directory { children } => {
            let inside = path + seq![SLASH];
            lemma_children_paths(node, inside, children@.len());
            if walk_node(node, path) is Ok {
                let w = walk_node(node, path)->Ok_0;
                let wc = walk_children(node, inside, children@.len())->Ok_0;
                assert forall|i: int| 0 < i < w.entries.len() implies starts_with(
                    #[trigger] w.entries[i].path,
                    inside,
                ) && w.entries[i].path.len() > inside.len() by {
                    let p = wc.entries[i - 1].path;
                    assert forall|m: int| 0 <= m < inside.len() implies p[m] == inside[m] by {}
                }
                assert forall|i: int| 0 <= i < w.entries.len() implies at_or_below(
                    #[trigger] w.entries[i].path,
                    path,
                ) by {
                    let p = w.entries[i].path;
                    assert forall|m: int| 0 <= m < path.len() implies p[m] == path[m] by {}
                }
            }
        },
        _ => {},
    }
}

/// In a tree without a name twice, the entries of what the first `n` names of
/// a directory stand for have different paths, each at or below one of them.
pub proof fn lemma_children_paths(node: SourceNode, prefix: Seq<u8>, n: nat)
    requires
        unique_names(node),
    ensures
        walk_children(node, prefix, n) matches Ok(w) ==> {
            &&& distinct_paths(w.entries)
            &&& forall|i: int|
                0 <= i < w.entries.len() ==> owned(node, prefix, n, #[trigger] w.entries[i].path)
        },
    decreases node, n,
{
    match node {
        SourceNode::Directory { children } => {
            if 0 < n <= children@.len() {
                lemma_children_paths(node, prefix, (n - 1) as nat);
                if walk_children(node, prefix, n) is Ok {
                    let w = walk_children(node, prefix, n)->Ok_0;
                    let before = walk_children(node, prefix, (n - 1) as nat)->Ok_0;
                    let child = children@[n - 1];
                    let name = path_bytes(child.name@);
                    lemma_node_paths(child.node, prefix + name);
                    let split = before.entries.len() as int;
                    assert forall|i: int| 0 <= i < w.entries.len() implies owned(
                        node,
                        prefix,
                        n,
                        #[trigger] w.entries[i].path,
                    ) by {
                        if i >= split {
                            assert(below_child(node, prefix, n - 1, w.entries[i].path));
                        }
                    }
                    assert forall|i: int, j: int| 0 <= i < j < w.entries.len() implies #[trigger] w.entries[i].path
                        != #[trigger] w.entries[j].path by {
                        if i < split <= j {
                            let p = w.entries[i].path;
                            let q = w.entries[j].path;
                            let k = choose|k: int|
                                0 <= k < n - 1 && #[trigger] below_child(node, prefix, k, p);
                            let other = path_bytes(children@[k].name@);
                            if other == name {
                                lemma_path_bytes_injective(children@[k].name@, child.name@);
                            }
                            lemma_siblings_apart(prefix, other, name, p, q);
                        }
                    }
                }
            }
        },
        _ => {},
    }
}

/// In a tree without a name twice, no two entries of the walk have the same path.
pub proof fn lemma_unique_names_distinct_paths(root: SourceNode)
    requires
        unique_names(root),
    ensures
        walk_tree(root) matches Ok(w) ==> distinct_paths(w.entries),
{
    match root {
        SourceNode::Directory { children } => {
            lemma_children_paths(root, Seq::empty(), children@.len());
        },
        _ => {},
    }
}

/// Under one of the first `n` names of the directory `node`, whose own path
/// with its mark is `prefix`, stands a directory that holds nothing, at any
/// depth, and `d` is its path with its mark.
pub open spec fn holds_empty_directory(node: SourceNode, prefix: Seq<u8>, n: nat, d: Seq<u8>) -> bool
    decreases node, n,
{
    match node {
        SourceNode::Directory { children } => {
            if n == 0 || n > children@.len() {
                false
            } else {
                let inside = prefix + path_bytes(children@[n - 1].name@) + seq![SLASH];
                ||| holds_empty_directory(node, prefix, (n - 1) as nat, d)
                ||| match children@[n - 1].node {
                    SourceNode::Directory { children: below } => {
                        ||| below@.len() == 0 && inside == d
                        ||| holds_empty_directory(children@[n - 1].node, inside, below@.len(), d)
                    },
                    _ => false,
                }
            }
        },
        _ => false,
    }
}

/// In a walk that succeeds, every name is a segment and what stands under it
/// is walked with success.
pub proof fn lemma_child_walked(node: SourceNode, prefix: Seq<u8>, k: int)
    requires
        node is Directory,
        0 <= k < node->children@.len(),
        walk_children(node, prefix, node->children@.len()) is Ok,
    ensures
        valid_segment(path_bytes(node->children@[k].name@)),
        walk_node(node->children@[k].node, prefix + path_bytes(node->children@[k].name@)) is Ok,
        walk_children(node, prefix, (k + 1) as nat) is Ok,
{
    if walk_children(node, prefix, (k + 1) as nat) is Err {
        lemma_failure_stays(node, prefix, (k + 1) as nat, node->children@.len());
    }
}

/// In a tree without a name twice: where all that stands under name `k` and
/// has a path that begins with `d` has the path `d`, and `d` lies under name
/// `k`, the same holds of all that the first `n` names stand for; and what
/// name `k` stands for is among it once `n` has passed `k`.
proof fn lemma_only_under(node: SourceNode, prefix: Seq<u8>, n: nat, k: int, d: Seq<u8>)
    requires
        unique_names(node),
        node is Directory,
        0 <= k < node->children@.len(),
        n <= node->children@.len(),
        walk_children(node, prefix, node->children@.len()) is Ok,
        starts_with(d, prefix + path_bytes(node->children@[k].name@) + seq![SLASH]),
        forall|i: int|
            #![trigger walk_node(node->children@[k].node, prefix + path_bytes(node->children@[k].name@))->Ok_0.entries[i]]
            0 <= i < walk_node(
                node->children@[k].node,
                prefix + path_bytes(node->children@[k].name@),
            )->Ok_0.entries.len() && starts_with(
                walk_node(
                    node->children@[k].node,
                    prefix + path_bytes(node->children@[k].name@),
                )->Ok_0.entries[i].path,
                d,
            ) ==> walk_node(
                node->children@[k].node,
                prefix + path_bytes(node->children@[k].name@),
            )->Ok_0.entries[i].path == d,
    ensures
        walk_children(node, prefix, n) is Ok,
        forall|i: int|
            0 <= i < walk_children(node, prefix, n)->Ok_0.entries.len() && starts_with(
                (#[trigger] walk_children(node, prefix, n)->Ok_0.entries[i]).path,
                d,
            ) ==> walk_children(node, prefix, n)->Ok_0.entries[i].path == d,
        n > k ==> forall|e: EntryView|
            walk_node(
                node->children@[k].node,
                prefix + path_bytes(node->children@[k].name@),
            )->Ok_0.entries.contains(e) ==> #[trigger] walk_children(
                node,
                prefix,
                n,
            )->Ok_0.entries.contains(e),
    decreases n,
{
    let children = node->children;
    let name = path_bytes(children@[k].name@);
    let own = walk_node(children@[k].node, prefix + name)->Ok_0;
    if n > 0 {
        lemma_only_under(node, prefix, (n - 1) as nat, k, d);
        lemma_child_walked(node, prefix, n - 1);
        lemma_child_walked(node, prefix, k);
        let before = walk_children(node, prefix, (n - 1) as nat)->Ok_0;
        let other = path_bytes(children@[n - 1].name@);
        let w = walk_children(node, prefix, n)->Ok_0;
        let split = before.entries.len() as int;
        lemma_node_paths(children@[n - 1].node, prefix + other);
        assert forall|i: int|
            0 <= i < w.entries.len() && starts_with((#[trigger] w.entries[i]).path, d) implies w.entries[i].path
            == d by {
            let p = w.entries[i].path;
            if i >= split && n - 1 != k {
                assert(at_or_below(p, prefix + name)) by {
                    let base = prefix + name;
                    assert forall|m: int| 0 <= m < base.len() implies p[m] == base[m] by {}
                }
                if other == name {
                    lemma_path_bytes_injective(children@[n - 1].name@, children@[k].name@);
                }
                lemma_siblings_apart(prefix, name, other, p, p);
            }
        }
        if n > k {
            assert forall|e: EntryView| own.entries.contains(e) implies #[trigger] w.entries.contains(
                e,
            ) by {
                if n - 1 == k {
                    let j = choose|j: int| 0 <= j < own.entries.len() && own.entries[j] == e;
                    assert(w.entries[split + j] == e);
                } else {
                    assert(before.entries.contains(e));
                    let j = choose|j: int| 0 <= j < before.entries.len() && before.entries[j] == e;
                    assert(w.entries[j] == e);
                }
            }
        }
    }
}

/// In a tree without a name twice that is walked with success, a directory
/// that holds nothing has its entry among those of the walk, and no other
/// entry has a path that begins with its path.
pub proof fn lemma_empty_directory_walk(node: SourceNode, prefix: Seq<u8>, n: nat, d: Seq<u8>)
    requires
        unique_names(node),
        node is Directory,
        walk_children(node, prefix, node->children@.len()) is Ok,
        holds_empty_directory(node, prefix, n, d),
    ensures
        walk_children(node, prefix, node->children@.len())->Ok_0.entries.contains(
            directory_entry(d),
        ),
        forall|i: int|
            0 <= i < walk_children(node, prefix, node->children@.len())->Ok_0.entries.len()
                && starts_with(
                (#[trigger] walk_children(
                    node,
                    prefix,
                    node->children@.len(),
                )->Ok_0.entries[i]).path,
                d,
            ) ==> walk_children(node, prefix, node->children@.len())->Ok_0.entries[i].path == d,
        starts_with(d, prefix),
        d.len() > prefix.len(),
    decreases node, n,
{
    match node {
        SourceNode::Directory { children } => {
            if holds_empty_directory(node, prefix, (n - 1) as nat, d) {
                lemma_empty_directory_walk(node, prefix, (n - 1) as nat, d);
            } else {
                let k = n - 1;
                let child = children@[k];
                let name = path_bytes(child.name@);
                let inside = prefix + name + seq![SLASH];
                lemma_child_walked(node, prefix, k);
                let own = walk_node(child.node, prefix + name)->Ok_0;
                match child.node {
                    SourceNode::Directory { children: under } => {
                        let below = walk_children(child.node, inside, under@.len())->Ok_0;
                        if under@.len() == 0 && inside == d {
                            assert(own.entries[0] == directory_entry(d));
                        } else {
                            lemma_empty_directory_walk(child.node, inside, under@.len(), d);
                            let j = choose|j: int|
                                0 <= j < below.entries.len() && below.entries[j] == directory_entry(
                                    d,
                                );
                            assert(own.entries[j + 1] == directory_entry(d));
                            assert forall|i: int|
                                0 <= i < own.entries.len() && starts_with(
                                    (#[trigger] own.entries[i]).path,
                                    d,
                                ) implies own.entries[i].path == d by {}
                        }
                        assert forall|m: int| 0 <= m < prefix.len() implies d[m] == prefix[m] by {}
                        lemma_only_under(node, prefix, children@.len(), k, d);
                    },
                    _ => {},
                }
            }
        },
        _ => {},
    }
}

} // verus!
