use dir_archiver::checksum::{checksum, Crc32};
use dir_archiver::error::{describe_kind, ErrorKind};
use dir_archiver::path::{ends_with_slash, is_safe_relative_path, is_valid_segment, path_le};
use dir_archiver::settings::{
    clamp_level, has_suffix, BySuffix, CompressionMethod, EntrySettings, OptionsResolver, StoreAll,
    Uniform,
};

#[test]
fn checksum_known_values() {
    assert_eq!(checksum(b""), 0);
    assert_eq!(checksum(b"123456789"), 0xcbf4_3926);
    assert_eq!(checksum(b"a"), 0xe8b7_be43);
    assert_eq!(checksum(b"hi"), 0xd893_2aac);
    assert_eq!(checksum(&[0x00, 0x01]), 0x36de_2269);
    assert_eq!(checksum(b"The quick brown fox jumps over the lazy dog"), 0x414f_a339);
}

#[test]
fn segments() {
    assert!(is_valid_segment("a"));
    assert!(is_valid_segment("..."));
    assert!(is_valid_segment(".a"));
    assert!(is_valid_segment("a b.txt"));
    assert!(!is_valid_segment(""));
    assert!(!is_valid_segment("."));
    assert!(!is_valid_segment(".."));
    assert!(!is_valid_segment("a/b"));
    assert!(!is_valid_segment("/"));
    assert!(!is_valid_segment("a\\b"));
}

#[test]
fn safe_paths() {
    for good in ["a", "a/", "a/b", "a/b/", ".a", "a.", "..a", "a..", "...", "a/.../b", "a/..b/c."] {
        assert!(is_safe_relative_path(good), "{}", good);
    }
    for bad in [
        "", "/", "/a", "a//", "a//b", ".", "..", "./a", "../a", "a/.", "a/..", "a/./b", "a/../b",
        "a/../", "a\\b", "\\",
    ] {
        assert!(!is_safe_relative_path(bad), "{}", bad);
    }
}

#[test]
fn directory_marks() {
    assert!(ends_with_slash("a/"));
    assert!(ends_with_slash("/"));
    assert!(!ends_with_slash("a"));
    assert!(!ends_with_slash(""));
    assert!(!ends_with_slash("a/b"));
}

#[test]
fn order_of_paths() {
    assert!(path_le("", ""));
    assert!(path_le("", "a"));
    assert!(!path_le("a", ""));
    assert!(path_le("a", "a"));
    assert!(path_le("a", "ab"));
    assert!(!path_le("ab", "a"));
    assert!(path_le("a.txt", "a/"));
    assert!(!path_le("a/", "a.txt"));
    assert!(path_le("Z", "a"));
    assert!(path_le("z", "é"));
    assert!(!path_le("é", "z"));
    let names = ["b", "a/x", "a", "a.", "", "a/"];
    for x in names {
        for y in names {
            assert_eq!(path_le(x, y), x.as_bytes() <= y.as_bytes());
            assert!(path_le(x, y) || path_le(y, x));
        }
    }
}

#[test]
fn levels_are_clamped() {
    assert_eq!(clamp_level(-1), 0);
    assert_eq!(clamp_level(i32::MIN), 0);
    assert_eq!(clamp_level(0), 0);
    assert_eq!(clamp_level(6), 6);
    assert_eq!(clamp_level(9), 9);
    assert_eq!(clamp_level(10), 9);
    assert_eq!(clamp_level(i32::MAX), 9);
}

#[test]
fn settings_are_normalized() {
    assert_eq!(
        EntrySettings::store(),
        EntrySettings { method: CompressionMethod::Store, level: None }
    );
    assert_eq!(
        EntrySettings::deflate(3),
        EntrySettings { method: CompressionMethod::Deflate, level: Some(3) }
    );
    assert_eq!(EntrySettings::deflate(3).normalized(), Some(EntrySettings::deflate(3)));
    assert_eq!(EntrySettings::deflate(30).normalized(), Some(EntrySettings::deflate(9)));
    assert_eq!(EntrySettings::deflate(-30).normalized(), Some(EntrySettings::deflate(0)));
    assert_eq!(
        EntrySettings { method: CompressionMethod::Deflate, level: None }.normalized(),
        Some(EntrySettings { method: CompressionMethod::Deflate, level: None })
    );
    assert_eq!(
        EntrySettings { method: CompressionMethod::Store, level: Some(4) }.normalized(),
        Some(EntrySettings::store())
    );
    assert_eq!(
        EntrySettings { method: CompressionMethod::Unsupported(14), level: Some(4) }.normalized(),
        None
    );
}

#[test]
fn policies() {
    assert_eq!(StoreAll.resolve("anything/at/all"), EntrySettings::store());
    let uniform = Uniform { settings: EntrySettings::deflate(9) };
    assert_eq!(uniform.resolve("a"), EntrySettings::deflate(9));
    assert_eq!(uniform.resolve("b/c.zip"), EntrySettings::deflate(9));
}

#[test]
fn kinds_in_words() {
    assert_eq!(describe_kind(ErrorKind::NotADirectory), "source root is not a directory");
    assert_eq!(describe_kind(ErrorKind::PathTraversal), "path leaves the source root");
    assert_eq!(describe_kind(ErrorKind::ReadFailure), "cannot read");
    assert_eq!(describe_kind(ErrorKind::WriteFailure), "cannot write entry");
    assert_eq!(describe_kind(ErrorKind::UnsupportedSettings), "unsupported compression settings");
}

#[test]
fn checksum_table_agrees() {
    let crc = Crc32::new();
    assert_eq!(crc.checksum(b""), 0);
    assert_eq!(crc.checksum(b"123456789"), 0xcbf4_3926);
    let mut data = Vec::new();
    for i in 0..1000u32 {
        data.push((i * 7 + 3) as u8);
        assert_eq!(crc.checksum(&data), checksum(&data));
    }
    assert_eq!(crc.checksum(&[0xff; 4]), 0xffff_ffff);
    assert_eq!(crc.checksum(&[0x00; 4]), 0x2144_df1c);
}

#[test]
fn policy_by_suffix() {
    let policy = BySuffix {
        suffix: ".png".to_string(),
        matching: EntrySettings::store(),
        otherwise: EntrySettings::deflate(9),
    };
    assert_eq!(policy.resolve("a/b.png"), EntrySettings::store());
    assert_eq!(policy.resolve(".png"), EntrySettings::store());
    assert_eq!(policy.resolve("a/b.png.txt"), EntrySettings::deflate(9));
    assert_eq!(policy.resolve("png"), EntrySettings::deflate(9));
    assert_eq!(policy.resolve(""), EntrySettings::deflate(9));
    assert!(has_suffix(b"abc", b""));
    assert!(has_suffix(b"abc", b"abc"));
    assert!(has_suffix(b"abc", b"bc"));
    assert!(!has_suffix(b"abc", b"ab"));
    assert!(!has_suffix(b"bc", b"abc"));
}
