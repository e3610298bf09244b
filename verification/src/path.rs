//! Relative paths as byte strings: which ones are safe, and how they are ordered.
//!
//! A path is read as its UTF-8 bytes. The separator `/` is the byte 0x2f, which
//! occurs in no multi-byte character, so the rules below mean the same on
//! bytes as on characters.

use vstd::prelude::*;
use vstd::string::*;
use vstd::utf8::*;

verus! {

/// The separator between the segments of a relative path.
pub const SLASH: u8 = 0x2f;

/// The separator of some hosts, which no segment may hold.
pub const BACKSLASH: u8 = 0x5c;

/// The byte of which the segments `.` and `..` are made.
pub const DOT: u8 = 0x2e;

/// The bytes of a string.
pub open spec fn path_bytes(s: Seq<char>) -> Seq<u8> {
    encode_utf8(s)
}

/// A name that may stand as one segment of a relative path: not empty, neither
/// `.` nor `..`, and free of both separators.
pub open spec fn valid_segment(name: Seq<u8>) -> bool {
    &&& name.len() > 0
    &&& !(name.len() == 1 && name[0] == DOT)
    &&& !(name.len() == 2 && name[0] == DOT && name[1] == DOT)
    &&& forall|i: int| 0 <= i < name.len() ==> name[i] != SLASH && name[i] != BACKSLASH
}

/// A segment begins at `i`: at the start of the path or right behind a separator.
pub open spec fn segment_starts_at(p: Seq<u8>, i: int) -> bool {
    i == 0 || p[i - 1] == SLASH
}

/// A segment ends before `j`: at the end of the path or right before a separator.
pub open spec fn segment_ends_at(p: Seq<u8>, j: int) -> bool {
    j == p.len() || p[j] == SLASH
}

/// Something is wrong at position `i`: a backslash, or the start of a segment
/// that is empty, `.` or `..`. An empty segment at position 0 is a leading `/`.
pub open spec fn bad_at(p: Seq<u8>, i: int) -> bool {
    ||| p[i] == BACKSLASH
    ||| segment_starts_at(p, i) && p[i] == SLASH
    ||| segment_starts_at(p, i) && p[i] == DOT && segment_ends_at(p, i + 1)
    ||| segment_starts_at(p, i) && p[i] == DOT && i + 1 < p.len() && p[i + 1] == DOT
        && segment_ends_at(p, i + 2)
}

/// A path that stays under the root it is relative to: not empty, no leading
/// `/`, no empty segment, no segment `.` or `..`, no backslash. It may end in
/// one `/`, the mark of a directory.
pub open spec fn safe_relative_path(p: Seq<u8>) -> bool {
    &&& p.len() > 0
    &&& forall|i: int| 0 <= i < p.len() ==> !#[trigger] bad_at(p, i)
}

/// The path ends in the mark of a directory.
pub open spec fn has_directory_mark(p: Seq<u8>) -> bool {
    p.len() > 0 && p[p.len() - 1] == SLASH
}

/// `a` comes no later than `b` from position `i` on, byte by byte, a shorter
/// string before its extensions.
pub open spec fn lex_le_from(a: Seq<u8>, b: Seq<u8>, i: int) -> bool
    decreases a.len() - i,
{
    if i < 0 || i >= a.len() {
        true
    } else if i >= b.len() {
        false
    } else if a[i] != b[i] {
        a[i] < b[i]
    } else {
        lex_le_from(a, b, i + 1)
    }
}

/// The order of paths: lexicographic on their bytes.
pub open spec fn lex_le(a: Seq<u8>, b: Seq<u8>) -> bool {
    lex_le_from(a, b, 0)
}

/// The two sequences agree before position `i`.
pub open spec fn same_prefix(a: Seq<u8>, b: Seq<u8>, i: int) -> bool {
    &&& 0 <= i <= a.len()
    &&& i <= b.len()
    &&& forall|k: int| 0 <= k < i ==> a[k] == b[k]
}

proof fn lemma_lex_refl_from(a: Seq<u8>, i: int)
    requires
        0 <= i,
    ensures
        lex_le_from(a, a, i),
    decreases a.len() - i,
{
    if i < a.len() {
        lemma_lex_refl_from(a, i + 1);
    }
}

proof fn lemma_lex_antisym_from(a: Seq<u8>, b: Seq<u8>, i: int)
    requires
        same_prefix(a, b, i),
        lex_le_from(a, b, i),
        lex_le_from(b, a, i),
    ensures
        a =~= b,
    decreases a.len() - i,
{
    if i < a.len() && i < b.len() {
        lemma_lex_antisym_from(a, b, i + 1);
    }
}

proof fn lemma_lex_trans_from(a: Seq<u8>, b: Seq<u8>, c: Seq<u8>, i: int)
    requires
        0 <= i,
        lex_le_from(a, b, i),
        lex_le_from(b, c, i),
    ensures
        lex_le_from(a, c, i),
    decreases a.len() - i,
{
    if i < a.len() && i < b.len() && i < c.len() && a[i] == b[i] && b[i] == c[i] {
        lemma_lex_trans_from(a, b, c, i + 1);
    }
}

proof fn lemma_lex_total_from(a: Seq<u8>, b: Seq<u8>, i: int)
    requires
        0 <= i,
    ensures
        lex_le_from(a, b, i) || lex_le_from(b, a, i),
    decreases a.len() - i,
{
    if i < a.len() && i < b.len() && a[i] == b[i] {
        lemma_lex_total_from(a, b, i + 1);
    }
}

/// Every path comes no later than itself.
pub proof fn lemma_lex_reflexive(a: Seq<u8>)
    ensures
        lex_le(a, a),
{
    lemma_lex_refl_from(a, 0);
}

/// Two paths that come no later than each other are the same path.
pub proof fn lemma_lex_antisymmetric(a: Seq<u8>, b: Seq<u8>)
    requires
        lex_le(a, b),
        lex_le(b, a),
    ensures
        a == b,
{
    lemma_lex_antisym_from(a, b, 0);
}

/// The order of paths is transitive.
pub proof fn lemma_lex_transitive(a: Seq<u8>, b: Seq<u8>, c: Seq<u8>)
    requires
        lex_le(a, b),
        lex_le(b, c),
    ensures
        lex_le(a, c),
{
    lemma_lex_trans_from(a, b, c, 0);
}

/// Of two paths one comes no later than the other.
pub proof fn lemma_lex_total(a: Seq<u8>, b: Seq<u8>)
    ensures
        lex_le(a, b) || lex_le(b, a),
{
    lemma_lex_total_from(a, b, 0);
}

/// The bytes of a concatenation are the concatenation of the bytes.
pub proof fn lemma_path_bytes_concat(a: Seq<char>, b: Seq<char>)
    ensures
        path_bytes(a + b) == path_bytes(a) + path_bytes(b),
    decreases a.len(),
{
    if a.len() > 0 {
        lemma_path_bytes_concat(a.drop_first(), b);
        assert((a + b).drop_first() =~= a.drop_first() + b);
    }
}

/// Two strings with the same bytes are the same string.
pub proof fn lemma_path_bytes_injective(a: Seq<char>, b: Seq<char>)
    requires
        path_bytes(a) == path_bytes(b),
    ensures
        a == b,
{
    encode_utf8_decode_utf8(a);
    encode_utf8_decode_utf8(b);
}

/// The string `/` is the one byte that separates segments.
pub proof fn lemma_slash_bytes()
    ensures
        path_bytes("/"@) == seq![SLASH],
{
    reveal_strlit("/");
    is_ascii_chars_encode_utf8("/"@);
}

/// A valid segment put behind nothing, or behind a safe path that ends in `/`,
/// gives a safe path, and so does that path with the mark of a directory.
pub proof fn lemma_child_path_safe(prefix: Seq<u8>, name: Seq<u8>)
    requires
        prefix.len() == 0 || (safe_relative_path(prefix) && has_directory_mark(prefix)),
        valid_segment(name),
    ensures
        safe_relative_path(prefix + name),
        !has_directory_mark(prefix + name),
        safe_relative_path(prefix + name + seq![SLASH]),
        has_directory_mark(prefix + name + seq![SLASH]),
{
    let p = prefix + name;
    let q = p + seq![SLASH];
    assert forall|i: int| 0 <= i < p.len() implies !#[trigger] bad_at(p, i) by {
        if i < prefix.len() {
            assert(!bad_at(prefix, i));
        }
    }
    assert forall|i: int| 0 <= i < q.len() implies !#[trigger] bad_at(q, i) by {
        if i < p.len() {
            assert(!bad_at(p, i));
        }
    }
}

/// Tells whether a name may stand as one segment of a relative path.
pub fn is_valid_segment(name: &str) -> (r: bool)
    ensures
        r == valid_segment(path_bytes(name@)),
{
    let b = name.as_bytes();
    let n: usize = b.len();
    if n == 0 {
        return false;
    }
    if n == 1 && b[0] == DOT {
        return false;
    }
    if n == 2 && b[0] == DOT && b[1] == DOT {
        return false;
    }
    let mut i: usize = 0;
    while i < n
        invariant
            n == b@.len(),
            b@ == path_bytes(name@),
            n > 0,
            !(n == 1 && b@[0] == DOT),
            !(n == 2 && b@[0] == DOT && b@[1] == DOT),
            i <= n,
            forall|k: int| 0 <= k < i ==> b@[k] != SLASH && b@[k] != BACKSLASH,
        decreases n - i,
    {
        if b[i] == SLASH || b[i] == BACKSLASH {
            return false;
        }
        i += 1;
    }
    true
}

/// Tells whether a relative path is safe.
pub fn is_safe_relative_path(path: &str) -> (r: bool)
    ensures
        r == safe_relative_path(path_bytes(path@)),
{
    let b = path.as_bytes();
    let n: usize = b.len();
    if n == 0 {
        return false;
    }
    let mut i: usize = 0;
    while i < n
        invariant
            n == b@.len(),
            b@ == path_bytes(path@),
            n > 0,
            i <= n,
            forall|k: int| 0 <= k < i ==> !#[trigger] bad_at(b@, k),
        decreases n - i,
    {
        let c: u8 = b[i];
        if c == BACKSLASH {
            assert(bad_at(b@, i as int));
            return false;
        }
        let starts: bool = i == 0 || b[i - 1] == SLASH;
        if starts {
            if c == SLASH {
                assert(bad_at(b@, i as int));
                return false;
            }
            if c == DOT {
                if i + 1 == n || b[i + 1] == SLASH {
                    assert(bad_at(b@, i as int));
                    return false;
                }
                if b[i + 1] == DOT && (i + 2 == n || b[i + 2] == SLASH) {
                    assert(bad_at(b@, i as int));
                    return false;
                }
            }
        }
        i += 1;
    }
    true
}

/// Tells whether a path ends in the mark of a directory.
pub fn ends_with_slash(path: &str) -> (r: bool)
    ensures
        r == has_directory_mark(path_bytes(path@)),
{
    let b = path.as_bytes();
    let n: usize = b.len();
    n > 0 && b[n - 1] == SLASH
}

/// Tells whether path `a` comes no later than path `b`.
pub fn path_le(a: &str, b: &str) -> (r: bool)
    ensures
        r == lex_le(path_bytes(a@), path_bytes(b@)),
{
    let x = a.as_bytes();
    let y = b.as_bytes();
    let n: usize = x.len();
    let m: usize = y.len();
    let mut i: usize = 0;
    while i < n && i < m
        invariant
            n == x@.len(),
            m == y@.len(),
            x@ == path_bytes(a@),
            y@ == path_bytes(b@),
            i <= n,
            i <= m,
            lex_le(x@, y@) == lex_le_from(x@, y@, i as int),
        decreases n - i,
    {
        if x[i] != y[i] {
            return x[i] < y[i];
        }
        i += 1;
    }
    i >= n
}

} // verus!
