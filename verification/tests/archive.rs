use dir_archiver::archiver::create_archive;
use dir_archiver::entry::Entry;
use dir_archiver::error::{ArchiveError, ErrorKind};
use dir_archiver::settings::{BySuffix, CompressionMethod, EntrySettings, StoreAll, Uniform};
use dir_archiver::sink::IndexEntry;
use dir_archiver::tree::{SourceChild, SourceNode};
use dir_archiver::writer::{
    entry_outcome, finish_outcome, record_outcome, write_archive, ArchiveIndexRecord,
};

struct Found {
    name: String,
    is_dir: bool,
    data: Vec<u8>,
    crc32: u32,
    method: zip::CompressionMethod,
    compressed_size: u64,
    header_start: u64,
}

fn read_back(bytes: &[u8]) -> Vec<Found> {
    let mut archive = zip::ZipArchive::new(std::io::Cursor::new(bytes.to_vec())).unwrap();
    let mut found = Vec::new();
    for i in 0..archive.len() {
        let mut file = archive.by_index(i).unwrap();
        let mut data = Vec::new();
        std::io::Read::read_to_end(&mut file, &mut data).unwrap();
        found.push(Found {
            name: file.name().to_string(),
            is_dir: file.is_dir(),
            data,
            crc32: file.crc32(),
            method: file.compression(),
            compressed_size: file.compressed_size(),
            header_start: file.header_start(),
        });
    }
    found
}

fn file(name: &str, data: &[u8]) -> SourceChild {
    SourceChild { name: name.to_string(), node: SourceNode::File { data: data.to_vec() } }
}

fn dir(name: &str, children: Vec<SourceChild>) -> SourceChild {
    SourceChild { name: name.to_string(), node: SourceNode::Directory { children } }
}

fn root(children: Vec<SourceChild>) -> SourceNode {
    SourceNode::Directory { children }
}

fn text(n: usize) -> Vec<u8> {
    let mut v = Vec::new();
    for i in 0..n {
        v.push(b"the quick brown fox "[i % 20]);
    }
    v
}

fn text_deflated() -> BySuffix {
    BySuffix {
        suffix: ".txt".to_string(),
        matching: EntrySettings::deflate(9),
        otherwise: EntrySettings::store(),
    }
}

#[test]
fn three_objects_stored() {
    let tree = root(vec![dir("sub", vec![file("b.bin", &[0x00, 0x01])]), file("a.txt", b"hi")]);
    let packed = create_archive(&tree, &StoreAll).unwrap();
    assert!(packed.skipped.is_empty());
    let found = read_back(&packed.archive.bytes);
    assert_eq!(found.len(), 3);
    assert_eq!(found[0].name, "a.txt");
    assert!(!found[0].is_dir);
    assert_eq!(found[0].data, b"hi".to_vec());
    assert_eq!(found[0].method, zip::CompressionMethod::Stored);
    assert_eq!(found[1].name, "sub/");
    assert!(found[1].is_dir);
    assert!(found[1].data.is_empty());
    assert_eq!(found[2].name, "sub/b.bin");
    assert!(!found[2].is_dir);
    assert_eq!(found[2].data, vec![0x00, 0x01]);
}

#[test]
fn three_objects_index() {
    let tree = root(vec![dir("sub", vec![file("b.bin", &[0x00, 0x01])]), file("a.txt", b"hi")]);
    let packed = create_archive(&tree, &StoreAll).unwrap();
    let expected = vec![
        ArchiveIndexRecord {
            relative_path: "a.txt".to_string(),
            is_directory: false,
            offset: 0,
            compressed_size: 2,
            uncompressed_size: 2,
            checksum: 0xd893_2aac,
            method: CompressionMethod::Store,
            level: None,
        },
        ArchiveIndexRecord {
            relative_path: "sub/".to_string(),
            is_directory: true,
            offset: 37,
            compressed_size: 0,
            uncompressed_size: 0,
            checksum: 0,
            method: CompressionMethod::Store,
            level: None,
        },
        ArchiveIndexRecord {
            relative_path: "sub/b.bin".to_string(),
            is_directory: false,
            offset: 71,
            compressed_size: 2,
            uncompressed_size: 2,
            checksum: 0x36de_2269,
            method: CompressionMethod::Store,
            level: None,
        },
    ];
    assert_eq!(packed.archive.index, expected);
}

#[test]
fn unreadable_file_three_levels_deep() {
    let tree = root(vec![
        file("ok.txt", b"fine"),
        dir(
            "a",
            vec![dir(
                "b",
                vec![dir(
                    "c",
                    vec![SourceChild { name: "secret.key".to_string(), node: SourceNode::Unreadable }],
                )],
            )],
        ),
    ]);
    let err = create_archive(&tree, &StoreAll).unwrap_err();
    assert_eq!(err, ArchiveError::ReadFailure { path: "a/b/c/secret.key".to_string() });
    assert_eq!(err.kind(), ErrorKind::ReadFailure);
    assert_eq!(err.path(), "a/b/c/secret.key");
    assert_eq!(err.message(), "cannot read: a/b/c/secret.key");
}

#[test]
fn unreadable_directory_fails_the_walk() {
    let tree = root(vec![SourceChild { name: "locked".to_string(), node: SourceNode::Unreadable }]);
    let err = create_archive(&tree, &StoreAll).unwrap_err();
    assert_eq!(err, ArchiveError::ReadFailure { path: "locked".to_string() });
}

#[test]
fn round_trip_with_deflate() {
    let long = text(5000);
    let tree = root(vec![
        file("readme.txt", &long),
        dir("empty", vec![]),
        dir("bin", vec![file("blob", &[7u8; 300]), dir("deep", vec![file("x.txt", b"")])]),
    ]);
    let policy = Uniform { settings: EntrySettings::deflate(9) };
    let packed = create_archive(&tree, &policy).unwrap();
    let found = read_back(&packed.archive.bytes);
    let names: Vec<&str> = found.iter().map(|f| f.name.as_str()).collect();
    assert_eq!(names, vec!["bin/", "bin/blob", "bin/deep/", "bin/deep/x.txt", "empty/", "readme.txt"]);
    let dirs: Vec<bool> = found.iter().map(|f| f.is_dir).collect();
    assert_eq!(dirs, vec![true, false, true, false, true, false]);
    assert_eq!(found[1].data, vec![7u8; 300]);
    assert_eq!(found[3].data, Vec::<u8>::new());
    assert_eq!(found[5].data, long);
    assert_eq!(found[5].method, zip::CompressionMethod::Deflated);
    assert!(found[5].compressed_size < 5000);
    assert_eq!(found[0].method, zip::CompressionMethod::Stored);
}

#[test]
fn same_tree_in_another_order_gives_the_same_bytes() {
    let first = root(vec![
        file("b.txt", b"bee"),
        dir("d", vec![file("y", b"why"), file("x", b"ex")]),
        file("a.txt", b"ay"),
    ]);
    let second = root(vec![
        file("a.txt", b"ay"),
        file("b.txt", b"bee"),
        dir("d", vec![file("x", b"ex"), file("y", b"why")]),
    ]);
    let policy = Uniform { settings: EntrySettings::deflate(6) };
    let one = create_archive(&first, &policy).unwrap();
    let two = create_archive(&second, &policy).unwrap();
    assert_eq!(one.archive.bytes, two.archive.bytes);
    assert_eq!(one.archive.index, two.archive.index);
    let again = create_archive(&first, &policy).unwrap();
    assert_eq!(one.archive.bytes, again.archive.bytes);
    let found_one = read_back(&one.archive.bytes);
    let found_two = read_back(&two.archive.bytes);
    let offsets_one: Vec<u64> = found_one.iter().map(|f| f.header_start).collect();
    let offsets_two: Vec<u64> = found_two.iter().map(|f| f.header_start).collect();
    assert_eq!(offsets_one, offsets_two);
    assert_eq!(offsets_one[0], 0);
}

#[test]
fn empty_directory_is_one_directory_entry() {
    let tree = root(vec![dir("only", vec![])]);
    let packed = create_archive(&tree, &StoreAll).unwrap();
    assert_eq!(packed.archive.index.len(), 1);
    assert!(packed.archive.index[0].is_directory);
    assert_eq!(packed.archive.index[0].relative_path, "only/");
    let found = read_back(&packed.archive.bytes);
    assert_eq!(found.len(), 1);
    assert!(found[0].is_dir);
    assert_eq!(found[0].name, "only/");
}

#[test]
fn empty_root_gives_an_empty_archive() {
    let packed = create_archive(&root(vec![]), &StoreAll).unwrap();
    assert!(packed.archive.index.is_empty());
    assert_eq!(read_back(&packed.archive.bytes).len(), 0);
    assert_eq!(packed.archive.bytes.len(), 22);
}

#[test]
fn stored_checksums_match_the_index() {
    let tree = root(vec![
        file("digits", b"123456789"),
        file("long.txt", &text(4000)),
        dir("d", vec![file("e", b"")]),
    ]);
    let packed = create_archive(&tree, &text_deflated()).unwrap();
    let found = read_back(&packed.archive.bytes);
    assert_eq!(found.len(), packed.archive.index.len());
    for (f, record) in found.iter().zip(packed.archive.index.iter()) {
        assert_eq!(f.name, record.relative_path);
        assert_eq!(f.crc32, record.checksum);
        assert_eq!(f.data.len() as u64, record.uncompressed_size);
        assert_eq!(f.compressed_size, record.compressed_size);
        assert_eq!(f.header_start, record.offset);
        assert_eq!(f.is_dir, record.is_directory);
    }
    assert_eq!(packed.archive.index[1].relative_path, "d/e");
    assert_eq!(packed.archive.index[2].relative_path, "digits");
    assert_eq!(packed.archive.index[2].checksum, 0xcbf4_3926);
    assert_eq!(packed.archive.index[3].method, CompressionMethod::Deflate);
    assert_eq!(packed.archive.index[3].level, Some(9));
    assert_eq!(packed.archive.index[3].uncompressed_size, 4000);
    assert!(packed.archive.index[3].compressed_size < 200);
    assert_eq!(packed.archive.index[2].compressed_size, 9);
    assert_eq!(packed.archive.index[0].compressed_size, 0);
    assert_eq!(packed.archive.index[0].offset, 0);
    assert_eq!(packed.archive.index[1].offset, 32);
    assert_eq!(found[3].method, zip::CompressionMethod::Deflated);
    assert_eq!(found[2].method, zip::CompressionMethod::Stored);
}

#[test]
fn level_out_of_range_is_clamped() {
    let tree = root(vec![file("t.txt", &text(3000))]);
    let high = create_archive(&tree, &Uniform { settings: EntrySettings::deflate(42) }).unwrap();
    let nine = create_archive(&tree, &Uniform { settings: EntrySettings::deflate(9) }).unwrap();
    assert_eq!(high.archive.index[0].level, Some(9));
    assert_eq!(high.archive.bytes, nine.archive.bytes);
    let low = create_archive(&tree, &Uniform { settings: EntrySettings::deflate(-5) }).unwrap();
    let zero = create_archive(&tree, &Uniform { settings: EntrySettings::deflate(0) }).unwrap();
    assert_eq!(low.archive.index[0].level, Some(0));
    assert_eq!(low.archive.bytes, zero.archive.bytes);
    assert_eq!(read_back(&low.archive.bytes)[0].data, text(3000));
}

#[test]
fn level_on_store_is_dropped() {
    let tree = root(vec![file("t.bin", &[1, 2, 3])]);
    let settings = EntrySettings { method: CompressionMethod::Store, level: Some(5) };
    let packed = create_archive(&tree, &Uniform { settings }).unwrap();
    assert_eq!(packed.archive.index[0].level, None);
    assert_eq!(packed.archive.index[0].method, CompressionMethod::Store);
    assert_eq!(read_back(&packed.archive.bytes)[0].data, vec![1, 2, 3]);
}

#[test]
fn default_level_is_passed_on() {
    let tree = root(vec![file("t.txt", &text(3000))]);
    let settings = EntrySettings { method: CompressionMethod::Deflate, level: None };
    let packed = create_archive(&tree, &Uniform { settings }).unwrap();
    assert_eq!(packed.archive.index[0].level, None);
    let six = create_archive(&tree, &Uniform { settings: EntrySettings::deflate(6) }).unwrap();
    assert_eq!(packed.archive.bytes, six.archive.bytes);
}

#[test]
fn unsupported_method_is_refused() {
    let tree = root(vec![dir("d", vec![]), file("a", b"x"), file("b", b"y")]);
    let settings = EntrySettings { method: CompressionMethod::Unsupported(12), level: None };
    let err = create_archive(&tree, &Uniform { settings }).unwrap_err();
    assert_eq!(err, ArchiveError::UnsupportedSettings { path: "a".to_string() });
    assert_eq!(err.message(), "unsupported compression settings: a");
}

#[test]
fn unsupported_method_on_directories_only_is_no_error() {
    let tree = root(vec![dir("d", vec![dir("e", vec![])])]);
    let settings = EntrySettings { method: CompressionMethod::Unsupported(99), level: Some(3) };
    let packed = create_archive(&tree, &Uniform { settings }).unwrap();
    assert_eq!(packed.archive.index.len(), 2);
    assert_eq!(packed.archive.index[1].relative_path, "d/e/");
}

#[test]
fn broken_link_is_skipped_and_reported() {
    let tree = root(vec![
        file("kept", b"k"),
        dir("d", vec![SourceChild { name: "dangling".to_string(), node: SourceNode::BrokenLink }]),
    ]);
    let packed = create_archive(&tree, &StoreAll).unwrap();
    assert_eq!(packed.skipped, vec!["d/dangling".to_string()]);
    let names: Vec<String> = read_back(&packed.archive.bytes).into_iter().map(|f| f.name).collect();
    assert_eq!(names, vec!["d/".to_string(), "kept".to_string()]);
}

#[test]
fn write_archive_checks_paths() {
    let entries = vec![
        Entry::File { relative_path: "fine.txt".to_string(), data: vec![1] },
        Entry::File { relative_path: "up/../../etc/passwd".to_string(), data: vec![2] },
    ];
    let err = write_archive(&entries, &StoreAll).unwrap_err();
    assert_eq!(err, ArchiveError::PathTraversal { path: "up/../../etc/passwd".to_string() });
    for bad in ["/abs", "", "a//b", "./a", "a/.", "a/./b", "..", "a\\b", "dir/"] {
        let entries = vec![Entry::File { relative_path: bad.to_string(), data: vec![] }];
        let err = write_archive(&entries, &StoreAll).unwrap_err();
        assert_eq!(err, ArchiveError::PathTraversal { path: bad.to_string() });
    }
    let entries = vec![Entry::Directory { relative_path: "nomark".to_string() }];
    let err = write_archive(&entries, &StoreAll).unwrap_err();
    assert_eq!(err, ArchiveError::PathTraversal { path: "nomark".to_string() });
}

#[test]
fn write_archive_keeps_the_order_given() {
    let entries = vec![
        Entry::File { relative_path: "z".to_string(), data: vec![26] },
        Entry::Directory { relative_path: "m/".to_string() },
        Entry::File { relative_path: "a..b/...".to_string(), data: vec![1, 2] },
    ];
    let archive = write_archive(&entries, &StoreAll).unwrap();
    let found = read_back(&archive.bytes);
    let names: Vec<&str> = found.iter().map(|f| f.name.as_str()).collect();
    assert_eq!(names, vec!["z", "m/", "a..b/..."]);
    assert_eq!(found[0].data, vec![26]);
    assert_eq!(found[2].data, vec![1, 2]);
    assert!(found[1].is_dir);
}

#[test]
fn first_refusal_wins() {
    let entries = vec![
        Entry::File { relative_path: "a".to_string(), data: vec![] },
        Entry::File { relative_path: "../b".to_string(), data: vec![] },
    ];
    let settings = EntrySettings { method: CompressionMethod::Unsupported(1), level: None };
    let err = write_archive(&entries, &Uniform { settings }).unwrap_err();
    assert_eq!(err, ArchiveError::UnsupportedSettings { path: "a".to_string() });
}

#[test]
fn container_answers_become_write_failures() {
    let path = "some/file".to_string();
    assert_eq!(entry_outcome(Ok(()), &path), Ok(()));
    assert_eq!(
        entry_outcome(Err(zip::result::ZipError::FileNotFound), &path),
        Err(ArchiveError::WriteFailure { path: "some/file".to_string() })
    );
    assert_eq!(finish_outcome(Ok(vec![1, 2, 3])), Ok(vec![1, 2, 3]));
    let failed = finish_outcome(Err(zip::result::ZipError::InvalidArchive("x")));
    assert_eq!(failed, Err(ArchiveError::WriteFailure { path: String::new() }));
    assert_eq!(failed.unwrap_err().message(), "cannot write entry: ");
}

#[test]
fn non_ascii_names_survive() {
    let tree = root(vec![dir("données", vec![file("naïve.txt", "état".as_bytes())])]);
    let packed = create_archive(&tree, &StoreAll).unwrap();
    let found = read_back(&packed.archive.bytes);
    assert_eq!(found[0].name, "données/");
    assert_eq!(found[1].name, "données/naïve.txt");
    assert_eq!(found[1].data, "état".as_bytes().to_vec());
}

#[test]
fn name_too_long_for_the_container() {
    let longest = "n".repeat(65535);
    let entries = vec![Entry::File { relative_path: longest.clone(), data: vec![9] }];
    let archive = write_archive(&entries, &StoreAll).unwrap();
    let found = read_back(&archive.bytes);
    assert_eq!(found[0].name, longest);
    assert_eq!(found[0].data, vec![9]);

    let too_long = "n".repeat(65536);
    let entries = vec![
        Entry::File { relative_path: "ok".to_string(), data: vec![] },
        Entry::File { relative_path: too_long.clone(), data: vec![9] },
    ];
    let err = write_archive(&entries, &StoreAll).unwrap_err();
    assert_eq!(err, ArchiveError::WriteFailure { path: too_long });
}

fn draft(path: &str, size: u64, checksum: u32, method: CompressionMethod) -> ArchiveIndexRecord {
    ArchiveIndexRecord {
        relative_path: path.to_string(),
        is_directory: false,
        offset: 0,
        compressed_size: 0,
        uncompressed_size: size,
        checksum,
        method,
        level: None,
    }
}

fn found(name: &str, checksum: u32, compressed_size: u64, size: u64, offset: u64) -> IndexEntry {
    IndexEntry { name: name.as_bytes().to_vec(), checksum, compressed_size, size, offset }
}

#[test]
fn index_answers_complete_the_record() {
    let stored = draft("d/f", 5, 77, CompressionMethod::Store);
    let record = record_outcome(Ok(found("d/f", 77, 5, 5, 123)), &stored).unwrap();
    assert_eq!(
        record,
        ArchiveIndexRecord { offset: 123, compressed_size: 5, ..stored.clone() }
    );
    let deflated = draft("d/f", 5000, 77, CompressionMethod::Deflate);
    let record = record_outcome(Ok(found("d/f", 77, 31, 5000, 9)), &deflated).unwrap();
    assert_eq!(record.compressed_size, 31);
    assert_eq!(record.offset, 9);
    assert_eq!(record.uncompressed_size, 5000);
}

#[test]
fn index_answers_that_disagree_are_write_failures() {
    let stored = draft("d/f", 5, 77, CompressionMethod::Store);
    let failure = Err(ArchiveError::WriteFailure { path: "d/f".to_string() });
    assert_eq!(record_outcome(Ok(found("d/g", 77, 5, 5, 0)), &stored), failure);
    assert_eq!(record_outcome(Ok(found("d/f", 78, 5, 5, 0)), &stored), failure);
    assert_eq!(record_outcome(Ok(found("d/f", 77, 5, 6, 0)), &stored), failure);
    assert_eq!(record_outcome(Ok(found("d/f", 77, 4, 5, 0)), &stored), failure);
    assert_eq!(record_outcome(Err(zip::result::ZipError::FileNotFound), &stored), failure);
}

#[test]
fn empty_directory_deep_in_the_index() {
    let tree = root(vec![
        dir("a", vec![dir("hollow", vec![]), file("hollow.txt", b"x"), dir("hollows", vec![])]),
        file("a.txt", b"y"),
    ]);
    let packed = create_archive(&tree, &StoreAll).unwrap();
    let below: Vec<&ArchiveIndexRecord> = packed
        .archive
        .index
        .iter()
        .filter(|record| record.relative_path.starts_with("a/hollow/"))
        .collect();
    assert_eq!(below.len(), 1);
    assert_eq!(below[0].relative_path, "a/hollow/");
    assert!(below[0].is_directory);
    assert_eq!(below[0].uncompressed_size, 0);
    assert_eq!(below[0].compressed_size, 0);
    let paths: Vec<&str> =
        packed.archive.index.iter().map(|record| record.relative_path.as_str()).collect();
    assert_eq!(paths, vec!["a.txt", "a/", "a/hollow.txt", "a/hollow/", "a/hollows/"]);
}
