//! The order of the entries in an archive: that of their relative paths.

use vstd::prelude::*;
use crate::entry::{entry_views, Entry, EntryView};
use crate::path::{
    lemma_lex_antisymmetric,
    lemma_lex_reflexive,
    lemma_lex_total,
    lemma_lex_transitive,
    lex_le,
    path_bytes,
    path_le,
};

verus! {

/// No entry comes before one whose path is earlier.
pub open spec fn sorted(s: Seq<EntryView>) -> bool {
    forall|i: int, j: int| 0 <= i < j < s.len() ==> lex_le(#[trigger] s[i].path, #[trigger] s[j].path)
}

/// No two entries have the same path.
pub open spec fn distinct_paths(s: Seq<EntryView>) -> bool {
    forall|i: int, j: int| 0 <= i < j < s.len() ==> #[trigger] s[i].path != #[trigger] s[j].path
}

/// The place of an entry with path `key` in the sorted list `s`, looked for
/// from position `i` on: before the first entry that comes no earlier.
pub open spec fn insert_index_from(s: Seq<EntryView>, key: Seq<u8>, i: int) -> int
    decreases s.len() - i,
{
    if i < 0 || i >= s.len() {
        s.len() as int
    } else if lex_le(key, s[i].path) {
        i
    } else {
        insert_index_from(s, key, i + 1)
    }
}

/// The sorted list `s` with `e` put in its place.
pub open spec fn insert_sorted(s: Seq<EntryView>, e: EntryView) -> Seq<EntryView> {
    s.insert(insert_index_from(s, e.path, 0), e)
}

/// The entries of `s` from position `k` on, in the order of their paths.
pub open spec fn sorted_from(s: Seq<EntryView>, k: int) -> Seq<EntryView>
    decreases s.len() - k,
{
    if k < 0 || k >= s.len() {
        Seq::empty()
    } else {
        insert_sorted(sorted_from(s, k + 1), s[k])
    }
}

/// The entries of `s` in the order of their paths. Entries with the same path
/// keep the order they had.
pub open spec fn sorted_by_path(s: Seq<EntryView>) -> Seq<EntryView> {
    sorted_from(s, 0)
}

proof fn lemma_insert_index_bounds(s: Seq<EntryView>, key: Seq<u8>, i: int)
    requires
        0 <= i <= s.len(),
    ensures
        i <= insert_index_from(s, key, i) <= s.len(),
        forall|k: int| i <= k < insert_index_from(s, key, i) ==> !lex_le(key, #[trigger] s[k].path),
        insert_index_from(s, key, i) < s.len() ==> lex_le(
            key,
            s[insert_index_from(s, key, i)].path,
        ),
    decreases s.len() - i,
{
    if i < s.len() && !lex_le(key, s[i].path) {
        lemma_insert_index_bounds(s, key, i + 1);
    }
}

proof fn lemma_remove_one(s: Seq<EntryView>, i: int)
    requires
        0 <= i < s.len(),
    ensures
        s.to_multiset() == s.remove(i).to_multiset().insert(s[i]),
        s.remove(i).to_multiset() == s.to_multiset().remove(s[i]),
{
    s.to_multiset_ensures();
}

/// Putting an entry in its place keeps a list sorted and adds just that entry.
pub proof fn lemma_insert_sorted(s: Seq<EntryView>, e: EntryView)
    requires
        sorted(s),
    ensures
        sorted(insert_sorted(s, e)),
        insert_sorted(s, e).len() == s.len() + 1,
        insert_sorted(s, e).to_multiset() == s.to_multiset().insert(e),
{
    let idx = insert_index_from(s, e.path, 0);
    lemma_insert_index_bounds(s, e.path, 0);
    let r = insert_sorted(s, e);
    assert forall|i: int, j: int| 0 <= i < j < r.len() implies lex_le(
        #[trigger] r[i].path,
        #[trigger] r[j].path,
    ) by {
        if j == idx {
            lemma_lex_total(e.path, s[i].path);
        } else if i == idx && idx < j - 1 {
            lemma_lex_transitive(e.path, s[idx].path, s[j - 1].path);
        }
    }
    lemma_remove_one(r, idx);
    assert(r.remove(idx) =~= s);
}

proof fn lemma_sorted_from(s: Seq<EntryView>, k: int)
    requires
        0 <= k <= s.len(),
    ensures
        sorted(sorted_from(s, k)),
        sorted_from(s, k).len() == s.len() - k,
        sorted_from(s, k).to_multiset() == s.skip(k).to_multiset(),
    decreases s.len() - k,
{
    if k < s.len() {
        lemma_sorted_from(s, k + 1);
        lemma_insert_sorted(sorted_from(s, k + 1), s[k]);
        lemma_remove_one(s.skip(k), 0);
        assert(s.skip(k).remove(0) =~= s.skip(k + 1));
    } else {
        assert(s.skip(k) =~= Seq::<EntryView>::empty());
    }
}

/// Sorting gives a sorted list that holds each entry as often as the list it
/// was made from.
pub proof fn lemma_sorted_by_path(s: Seq<EntryView>)
    ensures
        sorted(sorted_by_path(s)),
        sorted_by_path(s).len() == s.len(),
        sorted_by_path(s).to_multiset() == s.to_multiset(),
{
    lemma_sorted_from(s, 0);
    assert(s.skip(0) =~= s);
}

/// Every entry of the sorted list is an entry of the list it was made from.
pub proof fn lemma_sorted_entry_is_entry(s: Seq<EntryView>, i: int)
    requires
        0 <= i < sorted_by_path(s).len(),
    ensures
        s.contains(sorted_by_path(s)[i]),
{
    lemma_sorted_by_path(s);
    s.to_multiset_ensures();
    sorted_by_path(s).to_multiset_ensures();
    assert(s.to_multiset().count(sorted_by_path(s)[i]) > 0);
}

/// Every entry of a list is an entry of the sorted list.
pub proof fn lemma_entry_is_sorted_entry(s: Seq<EntryView>, e: EntryView)
    requires
        s.contains(e),
    ensures
        sorted_by_path(s).contains(e),
{
    lemma_sorted_by_path(s);
    s.to_multiset_ensures();
    sorted_by_path(s).to_multiset_ensures();
    assert(sorted_by_path(s).to_multiset().count(e) > 0);
}

/// Two sorted lists that hold the same entries, no path twice, are the same list.
pub proof fn lemma_sorted_unique(a: Seq<EntryView>, b: Seq<EntryView>)
    requires
        sorted(a),
        sorted(b),
        distinct_paths(a),
        a.to_multiset() == b.to_multiset(),
    ensures
        a == b,
    decreases a.len(),
{
    a.to_multiset_ensures();
    b.to_multiset_ensures();
    if a.len() > 0 {
        let x = a.last();
        let y = b.last();
        assert(b.to_multiset().count(x) > 0);
        assert(a.to_multiset().count(y) > 0);
        lemma_lex_reflexive(y.path);
        lemma_lex_antisymmetric(x.path, y.path);
        let a0 = a.drop_last();
        let b0 = b.drop_last();
        lemma_remove_one(a, a.len() - 1);
        lemma_remove_one(b, b.len() - 1);
        lemma_sorted_unique(a0, b0);
        assert(b =~= b0.push(y));
    }
}

/// Puts the entries in the order of their paths.
pub fn sort_entries(entries: Vec<Entry>) -> (sorted_entries: Vec<Entry>)
    ensures
        entry_views(sorted_entries@) == sorted_by_path(entry_views(entries@)),
{
    let ghost all = entry_views(entries@);
    let mut rest = entries;
    let mut out: Vec<Entry> = Vec::new();
    while rest.len() > 0
        invariant
            rest@.len() <= all.len(),
            entry_views(rest@) == all.take(rest@.len() as int),
            entry_views(out@) == sorted_from(all, rest@.len() as int),
        decreases rest@.len(),
    {
        let ghost k = rest@.len() - 1;
        let ghost rest_before = rest@;
        let e = rest.pop().unwrap();
        proof {
            assert(e@ == entry_views(rest_before)[k]);
        }
        let idx = find_place(&out, e.relative_path());
        out.insert(idx, e);
    }
    out
}

/// The place of an entry with path `key` in a sorted list.
fn find_place(entries: &Vec<Entry>, key: &String) -> (idx: usize)
    ensures
        idx == insert_index_from(entry_views(entries@), path_bytes(key@), 0),
        idx <= entries@.len(),
{
    let n: usize = entries.len();
    let mut i: usize = 0;
    while i < n && !path_le(key.as_str(), entries[i].relative_path().as_str())
        invariant
            n == entries@.len(),
            i <= n,
            insert_index_from(entry_views(entries@), path_bytes(key@), 0)
                == insert_index_from(
                entry_views(entries@),
                path_bytes(key@),
                i as int,
            ),
        decreases n - i,
    {
        i += 1;
    }
    i
}

} // verus!
