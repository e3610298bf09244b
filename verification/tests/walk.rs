use dir_archiver::entry::{Entry, EntryKind};
use dir_archiver::error::{ArchiveError, ErrorKind};
use dir_archiver::order::sort_entries;
use dir_archiver::tree::{decide, Probe, SourceChild, SourceNode, Step, TargetKind};
use dir_archiver::walker::walk;

fn file(name: &str, data: &[u8]) -> SourceChild {
    SourceChild { name: name.to_string(), node: SourceNode::File { data: data.to_vec() } }
}

fn dir(name: &str, children: Vec<SourceChild>) -> SourceChild {
    SourceChild { name: name.to_string(), node: SourceNode::Directory { children } }
}

fn paths(entries: &[Entry]) -> Vec<String> {
    entries.iter().map(|e| e.relative_path().clone()).collect()
}

#[test]
fn walk_lists_files_and_directories_by_path() {
    let tree = SourceNode::Directory {
        children: vec![
            file("a.txt", b"1"),
            dir("a", vec![file("x", b"22"), dir("empty", vec![])]),
            file("a0", b"333"),
        ],
    };
    let out = walk(&tree).unwrap();
    assert_eq!(paths(&out.entries), vec!["a.txt", "a/", "a/empty/", "a/x", "a0"]);
    assert_eq!(
        out.entries[3],
        Entry::File { relative_path: "a/x".to_string(), data: b"22".to_vec() }
    );
    assert_eq!(out.entries[1], Entry::Directory { relative_path: "a/".to_string() });
    assert_eq!(out.entries[1].kind(), EntryKind::Directory);
    assert_eq!(out.entries[3].kind(), EntryKind::File);
    assert_eq!(out.entries[1].size_bytes(), 0);
    assert_eq!(out.entries[4].size_bytes(), 3);
    assert!(out.skipped.is_empty());
}

#[test]
fn walk_of_something_else_than_a_directory() {
    let err = walk(&SourceNode::File { data: vec![1] }).unwrap_err();
    assert_eq!(err, ArchiveError::NotADirectory { path: String::new() });
    assert_eq!(err.kind(), ErrorKind::NotADirectory);
    assert_eq!(err.message(), "source root is not a directory: ");
    let err = walk(&SourceNode::BrokenLink).unwrap_err();
    assert_eq!(err, ArchiveError::NotADirectory { path: String::new() });
    let err = walk(&SourceNode::Unreadable).unwrap_err();
    assert_eq!(err, ArchiveError::ReadFailure { path: String::new() });
}

#[test]
fn walk_refuses_names_that_are_no_segments() {
    for bad in ["..", ".", "", "a/b", "a\\b"] {
        let tree = SourceNode::Directory { children: vec![dir("d", vec![file(bad, b"")])] };
        let err = walk(&tree).unwrap_err();
        assert_eq!(err, ArchiveError::PathTraversal { path: format!("d/{}", bad) });
        assert_eq!(err.message(), format!("path leaves the source root: d/{}", bad));
    }
    let tree = SourceNode::Directory { children: vec![file("...", b""), file(".hidden", b"")] };
    assert_eq!(paths(&walk(&tree).unwrap().entries), vec!["...", ".hidden"]);
}

#[test]
fn walk_reports_the_first_failure_of_the_snapshot() {
    let tree = SourceNode::Directory {
        children: vec![
            dir("z", vec![SourceChild { name: "gone".to_string(), node: SourceNode::Unreadable }]),
            file("..", b""),
        ],
    };
    assert_eq!(
        walk(&tree).unwrap_err(),
        ArchiveError::ReadFailure { path: "z/gone".to_string() }
    );
}

#[test]
fn walk_notes_broken_links_in_the_order_found() {
    let tree = SourceNode::Directory {
        children: vec![
            SourceChild { name: "l2".to_string(), node: SourceNode::BrokenLink },
            dir("d", vec![SourceChild { name: "l1".to_string(), node: SourceNode::BrokenLink }]),
        ],
    };
    let out = walk(&tree).unwrap();
    assert_eq!(out.skipped, vec!["l2".to_string(), "d/l1".to_string()]);
    assert_eq!(paths(&out.entries), vec!["d/"]);
}

#[test]
fn no_path_of_a_walk_escapes() {
    let tree = SourceNode::Directory {
        children: vec![
            dir("..x", vec![file("y..", b"")]),
            file("x..", b""),
        ],
    };
    let out = walk(&tree).unwrap();
    for p in paths(&out.entries) {
        assert!(!p.starts_with('/'));
        assert!(p.split('/').all(|segment| segment != ".." && segment != "."));
    }
    assert_eq!(paths(&out.entries), vec!["..x/", "..x/y..", "x.."]);
}

#[test]
fn sorting_is_by_bytes_and_keeps_ties_in_order() {
    let entries = vec![
        Entry::File { relative_path: "b".to_string(), data: vec![1] },
        Entry::File { relative_path: "a/".to_string(), data: vec![2] },
        Entry::File { relative_path: "B".to_string(), data: vec![3] },
        Entry::File { relative_path: "a.".to_string(), data: vec![4] },
        Entry::File { relative_path: "b".to_string(), data: vec![5] },
        Entry::File { relative_path: "a".to_string(), data: vec![6] },
        Entry::File { relative_path: "é".to_string(), data: vec![7] },
    ];
    let sorted = sort_entries(entries);
    assert_eq!(paths(&sorted), vec!["B", "a", "a.", "a/", "b", "b", "é"]);
    assert_eq!(sorted[4], Entry::File { relative_path: "b".to_string(), data: vec![1] });
    assert_eq!(sorted[5], Entry::File { relative_path: "b".to_string(), data: vec![5] });
    assert!(sort_entries(Vec::new()).is_empty());
}

#[test]
fn links_are_followed_and_dead_ends_skipped() {
    let look = |target, is_link, revisits| decide(&Probe { target, is_link, revisits });
    assert_eq!(look(Some(TargetKind::File), false, false), Step::ReadFile);
    assert_eq!(look(Some(TargetKind::File), true, false), Step::ReadFile);
    assert_eq!(look(Some(TargetKind::Directory), false, false), Step::ListDirectory);
    assert_eq!(look(Some(TargetKind::Directory), true, false), Step::ListDirectory);
    assert_eq!(look(Some(TargetKind::Directory), true, true), Step::SkipLink);
    assert_eq!(look(Some(TargetKind::Other), false, false), Step::PassOver);
    assert_eq!(look(None, true, false), Step::SkipLink);
    assert_eq!(look(None, false, false), Step::GiveUp);
}
