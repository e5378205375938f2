//! The differ: classify every path of two manifests as unchanged, changed,
//! added or removed. The old manifest's order rules the first three lists,
//! the new manifest's order rules the added list.

use vstd::prelude::*;
use crate::ChecksumError;
use crate::checksums::{
    Checksums, EntryModel, has_path, lemma_spec_find_has_path, lemma_spec_find_unique, paths_of,
    spec_find, unique_paths,
};

verus! {

/// The four-way partition a comparison assigns to a path.
#[derive(Debug, Clone, Copy, PartialEq, Eq, Structural)]
pub enum DiffClass {
    /// Present in both manifests with equal size and digest.
    Unchanged,
    /// Present in both manifests but differing in size or digest.
    Changed,
    /// Present only in the new manifest.
    Added,
    /// Present only in the old manifest.
    Removed,
}

/// How an old entry fares against the new manifest: absent paths are
/// removed; a size difference or a digest difference means changed.
pub open spec fn spec_class(o: EntryModel, new_entries: Seq<EntryModel>) -> DiffClass {
    match spec_find(new_entries, o.path) {
        None => DiffClass::Removed,
        Some(n) => if o.size != n.size || o.hash != n.hash {
            DiffClass::Changed
        } else {
            DiffClass::Unchanged
        },
    }
}

/// The old-manifest paths that fall under class `c`, in old order.
pub open spec fn class_paths(
    old_entries: Seq<EntryModel>,
    new_entries: Seq<EntryModel>,
    c: DiffClass,
) -> Seq<Seq<char>>
    decreases old_entries.len(),
{
    if old_entries.len() == 0 {
        Seq::empty()
    } else {
        class_paths(old_entries.drop_last(), new_entries, c) + if spec_class(
            old_entries.last(),
            new_entries,
        ) == c {
            seq![old_entries.last().path]
        } else {
            Seq::<Seq<char>>::empty()
        }
    }
}

/// The new-manifest paths absent from the old manifest, in new order.
pub open spec fn added_paths(
    new_entries: Seq<EntryModel>,
    old_entries: Seq<EntryModel>,
) -> Seq<Seq<char>>
    decreases new_entries.len(),
{
    if new_entries.len() == 0 {
        Seq::empty()
    } else {
        added_paths(new_entries.drop_last(), old_entries) + if spec_find(
            old_entries,
            new_entries.last().path,
        ) is None {
            seq![new_entries.last().path]
        } else {
            Seq::<Seq<char>>::empty()
        }
    }
}

/// The outcome of a comparison: the four path lists.
#[derive(Debug)]
pub struct DiffResult {
    /// Paths present in both manifests with equal size and digest.
    pub unchanged: Vec<String>,
    /// Paths present in both manifests but differing in size or digest.
    pub changed: Vec<String>,
    /// Paths present only in the new manifest.
    pub added: Vec<String>,
    /// Paths present only in the old manifest.
    pub removed: Vec<String>,
}

proof fn lemma_class_paths_take_succ(
    old_entries: Seq<EntryModel>,
    new_entries: Seq<EntryModel>,
    c: DiffClass,
    i: int,
)
    requires
        0 <= i < old_entries.len(),
    ensures
        class_paths(old_entries.take(i + 1), new_entries, c) == class_paths(
            old_entries.take(i),
            new_entries,
            c,
        ) + if spec_class(old_entries[i], new_entries) == c {
            seq![old_entries[i].path]
        } else {
            Seq::<Seq<char>>::empty()
        },
{
    assert(old_entries.take(i + 1).drop_last() =~= old_entries.take(i));
    assert(old_entries.take(i + 1).last() == old_entries[i]);
}

proof fn lemma_added_paths_take_succ(
    new_entries: Seq<EntryModel>,
    old_entries: Seq<EntryModel>,
    i: int,
)
    requires
        0 <= i < new_entries.len(),
    ensures
        added_paths(new_entries.take(i + 1), old_entries) == added_paths(
            new_entries.take(i),
            old_entries,
        ) + if spec_find(old_entries, new_entries[i].path) is None {
            seq![new_entries[i].path]
        } else {
            Seq::<Seq<char>>::empty()
        },
{
    assert(new_entries.take(i + 1).drop_last() =~= new_entries.take(i));
    assert(new_entries.take(i + 1).last() == new_entries[i]);
}

/// Compare two manifests entry by entry. Fails exactly when the algorithm
/// tags differ, and then produces no lists at all.
pub fn diff_manifests(old: &Checksums, new: &Checksums) -> (r: Result<DiffResult, ChecksumError>)
    ensures
        match r {
            Ok(d) => old@.algorithm == new@.algorithm && d.unchanged.deep_view() == class_paths(
                old@.entries,
                new@.entries,
                DiffClass::Unchanged,
            ) && d.changed.deep_view() == class_paths(
                old@.entries,
                new@.entries,
                DiffClass::Changed,
            ) && d.removed.deep_view() == class_paths(
                old@.entries,
                new@.entries,
                DiffClass::Removed,
            ) && d.added.deep_view() == added_paths(new@.entries, old@.entries),
            Err(e) => e == ChecksumError::AlgorithmMismatch && old@.algorithm != new@.algorithm,
        },
{
    let oa = old.algorithm();
    let na = new.algorithm();
    if !(*oa == *na) {
        return Err(ChecksumError::AlgorithmMismatch);
    }
    let mut unchanged: Vec<String> = Vec::new();
    let mut changed: Vec<String> = Vec::new();
    let mut removed: Vec<String> = Vec::new();
    let mut added: Vec<String> = Vec::new();
    let n_old = old.len();
    let mut i: usize = 0;
    proof {
        assert(old@.entries.take(0) =~= Seq::<EntryModel>::empty());
    }
    while i < n_old
        invariant
            n_old == old@.entries.len(),
            i <= n_old,
            unchanged.deep_view() == class_paths(
                old@.entries.take(i as int),
                new@.entries,
                DiffClass::Unchanged,
            ),
            changed.deep_view() == class_paths(
                old@.entries.take(i as int),
                new@.entries,
                DiffClass::Changed,
            ),
            removed.deep_view() == class_paths(
                old@.entries.take(i as int),
                new@.entries,
                DiffClass::Removed,
            ),
        decreases n_old - i,
    {
        let o = old.entry_at(i);
        proof {
            lemma_class_paths_take_succ(old@.entries, new@.entries, DiffClass::Unchanged, i as int);
            lemma_class_paths_take_succ(old@.entries, new@.entries, DiffClass::Changed, i as int);
            lemma_class_paths_take_succ(old@.entries, new@.entries, DiffClass::Removed, i as int);
        }
        let ghost unchanged0 = unchanged.deep_view();
        let ghost changed0 = changed.deep_view();
        let ghost removed0 = removed.deep_view();
        match new.find(o.path()) {
            None => {
                removed.push(o.path().clone());
                proof {
                    assert(removed.deep_view() =~= removed0.push(o@.path));
                    assert(unchanged0 + Seq::<Seq<char>>::empty() =~= unchanged0);
                    assert(changed0 + Seq::<Seq<char>>::empty() =~= changed0);
                    assert(removed0 + seq![o@.path] =~= removed0.push(o@.path));
                }
            },
            Some(ne) => {
                let digests_equal = *o.hash() == *ne.hash();
                if o.size() != ne.size() || !digests_equal {
                    changed.push(o.path().clone());
                    proof {
                        assert(changed.deep_view() =~= changed0.push(o@.path));
                        assert(unchanged0 + Seq::<Seq<char>>::empty() =~= unchanged0);
                        assert(removed0 + Seq::<Seq<char>>::empty() =~= removed0);
                        assert(changed0 + seq![o@.path] =~= changed0.push(o@.path));
                    }
                } else {
                    unchanged.push(o.path().clone());
                    proof {
                        assert(unchanged.deep_view() =~= unchanged0.push(o@.path));
                        assert(changed0 + Seq::<Seq<char>>::empty() =~= changed0);
                        assert(removed0 + Seq::<Seq<char>>::empty() =~= removed0);
                        assert(unchanged0 + seq![o@.path] =~= unchanged0.push(o@.path));
                    }
                }
            },
        }
        i = i + 1;
    }
    proof {
        assert(old@.entries.take(n_old as int) =~= old@.entries);
        assert(new@.entries.take(0) =~= Seq::<EntryModel>::empty());
    }
    let n_new = new.len();
    let mut k: usize = 0;
    while k < n_new
        invariant
            n_new == new@.entries.len(),
            k <= n_new,
            added.deep_view() == added_paths(new@.entries.take(k as int), old@.entries),
        decreases n_new - k,
    {
        let ne = new.entry_at(k);
        proof {
            lemma_added_paths_take_succ(new@.entries, old@.entries, k as int);
        }
        let ghost added0 = added.deep_view();
        match old.find(ne.path()) {
            None => {
                added.push(ne.path().clone());
                proof {
                    assert(added.deep_view() =~= added0.push(ne@.path));
                    assert(added0 + seq![ne@.path] =~= added0.push(ne@.path));
                }
            },
            Some(_) => {
                proof {
                    assert(added0 + Seq::<Seq<char>>::empty() =~= added0);
                }
            },
        }
        k = k + 1;
    }
    proof {
        assert(new@.entries.take(n_new as int) =~= new@.entries);
    }
    Ok(DiffResult { unchanged, changed, added, removed })
}

/// Membership in a concatenation is membership in either part.
pub proof fn lemma_contains_concat<T>(a: Seq<T>, b: Seq<T>, x: T)
    ensures
        (a + b).contains(x) <==> a.contains(x) || b.contains(x),
{
    if a.contains(x) {
        let i = choose|i: int| 0 <= i < a.len() && a[i] == x;
        assert((a + b)[i] == x);
    }
    if b.contains(x) {
        let i = choose|i: int| 0 <= i < b.len() && b[i] == x;
        assert((a + b)[a.len() + i] == x);
    }
    if (a + b).contains(x) {
        let i = choose|i: int| 0 <= i < (a + b).len() && (a + b)[i] == x;
        if i < a.len() {
            assert(a[i] == x);
        } else {
            assert(b[i - a.len()] == x);
        }
    }
}

/// A class list holds exactly the old paths whose entry falls under that
/// class.
pub proof fn lemma_class_paths_contains(
    old_entries: Seq<EntryModel>,
    new_entries: Seq<EntryModel>,
    c: DiffClass,
    p: Seq<char>,
)
    ensures
        class_paths(old_entries, new_entries, c).contains(p) <==> exists|i: int|
            0 <= i < old_entries.len() && (#[trigger] old_entries[i].path) == p && spec_class(
                old_entries[i],
                new_entries,
            ) == c,
    decreases old_entries.len(),
{
    if old_entries.len() == 0 {
    } else {
        let prefix = old_entries.drop_last();
        let last = old_entries.last();
        let tail: Seq<Seq<char>> = if spec_class(last, new_entries) == c {
            seq![last.path]
        } else {
            Seq::<Seq<char>>::empty()
        };
        lemma_class_paths_contains(prefix, new_entries, c, p);
        lemma_contains_concat(class_paths(prefix, new_entries, c), tail, p);
        let n = old_entries.len() - 1;
        if tail.contains(p) {
            assert(old_entries[n].path == p && spec_class(old_entries[n], new_entries) == c);
        }
        if exists|i: int|
            0 <= i < prefix.len() && (#[trigger] prefix[i].path) == p && spec_class(
                prefix[i],
                new_entries,
            ) == c {
            let i = choose|i: int|
                0 <= i < prefix.len() && (#[trigger] prefix[i].path) == p && spec_class(
                    prefix[i],
                    new_entries,
                ) == c;
            assert(old_entries[i].path == p && spec_class(old_entries[i], new_entries) == c);
        }
        if exists|i: int|
            0 <= i < old_entries.len() && (#[trigger] old_entries[i].path) == p && spec_class(
                old_entries[i],
                new_entries,
            ) == c {
            let i = choose|i: int|
                0 <= i < old_entries.len() && (#[trigger] old_entries[i].path) == p && spec_class(
                    old_entries[i],
                    new_entries,
                ) == c;
            if i < n {
                assert(prefix[i].path == p && spec_class(prefix[i], new_entries) == c);
            } else {
                assert(spec_class(last, new_entries) == c);
                assert(tail.contains(p)) by {
                    assert(tail == seq![last.path]);
                    assert(tail[0] == p);
                }
            }
        }
    }
}

/// The added list holds exactly the new paths absent from the old
/// manifest.
pub proof fn lemma_added_paths_contains(
    new_entries: Seq<EntryModel>,
    old_entries: Seq<EntryModel>,
    p: Seq<char>,
)
    ensures
        added_paths(new_entries, old_entries).contains(p) <==> exists|i: int|
            0 <= i < new_entries.len() && (#[trigger] new_entries[i].path) == p && spec_find(
                old_entries,
                p,
            ) is None,
    decreases new_entries.len(),
{
    if new_entries.len() == 0 {
    } else {
        let prefix = new_entries.drop_last();
        let last = new_entries.last();
        let tail: Seq<Seq<char>> = if spec_find(old_entries, last.path) is None {
            seq![last.path]
        } else {
            Seq::<Seq<char>>::empty()
        };
        lemma_added_paths_contains(prefix, old_entries, p);
        lemma_contains_concat(added_paths(prefix, old_entries), tail, p);
        let n = new_entries.len() - 1;
        if tail.contains(p) {
            assert(new_entries[n].path == p);
        }
        if exists|i: int|
            0 <= i < prefix.len() && (#[trigger] prefix[i].path) == p && spec_find(
                old_entries,
                p,
            ) is None {
            let i = choose|i: int|
                0 <= i < prefix.len() && (#[trigger] prefix[i].path) == p && spec_find(
                    old_entries,
                    p,
                ) is None;
            assert(new_entries[i].path == p);
        }
        if exists|i: int|
            0 <= i < new_entries.len() && (#[trigger] new_entries[i].path) == p && spec_find(
                old_entries,
                p,
            ) is None {
            let i = choose|i: int|
                0 <= i < new_entries.len() && (#[trigger] new_entries[i].path) == p && spec_find(
                    old_entries,
                    p,
                ) is None;
            if i < n {
                assert(prefix[i].path == p);
            } else {
                assert(tail.contains(p)) by {
                    assert(tail == seq![last.path]);
                    assert(tail[0] == p);
                }
            }
        }
    }
}

/// Under unique old paths, no path lands in two different class lists.
proof fn lemma_class_lists_disjoint(
    old_entries: Seq<EntryModel>,
    new_entries: Seq<EntryModel>,
    c1: DiffClass,
    c2: DiffClass,
    p: Seq<char>,
)
    requires
        unique_paths(old_entries),
        c1 != c2,
        class_paths(old_entries, new_entries, c1).contains(p),
    ensures
        !class_paths(old_entries, new_entries, c2).contains(p),
{
    lemma_class_paths_contains(old_entries, new_entries, c1, p);
    lemma_class_paths_contains(old_entries, new_entries, c2, p);
    if class_paths(old_entries, new_entries, c2).contains(p) {
        let i1 = choose|i: int|
            0 <= i < old_entries.len() && (#[trigger] old_entries[i].path) == p && spec_class(
                old_entries[i],
                new_entries,
            ) == c1;
        let i2 = choose|i: int|
            0 <= i < old_entries.len() && (#[trigger] old_entries[i].path) == p && spec_class(
                old_entries[i],
                new_entries,
            ) == c2;
        if i1 != i2 {
            assert(old_entries[i1].path == old_entries[i2].path);
            assert(false);
        }
        assert(false);
    }
}

/// Classification completeness: every path of either manifest appears in
/// exactly one of the four lists; a path only in the old manifest is
/// removed, one only in the new manifest is added, and a path in both is
/// unchanged exactly when size and digest both match, changed otherwise.
pub proof fn lemma_classification_complete(
    old_entries: Seq<EntryModel>,
    new_entries: Seq<EntryModel>,
    p: Seq<char>,
)
    requires
        unique_paths(old_entries),
        unique_paths(new_entries),
        has_path(old_entries, p) || has_path(new_entries, p),
    ensures
        ({
            let u = class_paths(old_entries, new_entries, DiffClass::Unchanged);
            let c = class_paths(old_entries, new_entries, DiffClass::Changed);
            let rm = class_paths(old_entries, new_entries, DiffClass::Removed);
            let ad = added_paths(new_entries, old_entries);
            &&& u.contains(p) || c.contains(p) || rm.contains(p) || ad.contains(p)
            &&& !(u.contains(p) && c.contains(p))
            &&& !(u.contains(p) && rm.contains(p))
            &&& !(u.contains(p) && ad.contains(p))
            &&& !(c.contains(p) && rm.contains(p))
            &&& !(c.contains(p) && ad.contains(p))
            &&& !(rm.contains(p) && ad.contains(p))
            &&& (has_path(old_entries, p) && !has_path(new_entries, p) ==> rm.contains(p))
            &&& (!has_path(old_entries, p) && has_path(new_entries, p) ==> ad.contains(p))
            &&& (match (spec_find(old_entries, p), spec_find(new_entries, p)) {
                (Some(o), Some(n)) => if o.size == n.size && o.hash == n.hash {
                    u.contains(p)
                } else {
                    c.contains(p)
                },
                _ => true,
            })
        }),
{
    lemma_class_paths_contains(old_entries, new_entries, DiffClass::Unchanged, p);
    lemma_class_paths_contains(old_entries, new_entries, DiffClass::Changed, p);
    lemma_class_paths_contains(old_entries, new_entries, DiffClass::Removed, p);
    lemma_added_paths_contains(new_entries, old_entries, p);
    lemma_spec_find_has_path(old_entries, p);
    lemma_spec_find_has_path(new_entries, p);
    if has_path(old_entries, p) {
        let i = choose|i: int| 0 <= i < old_entries.len() && (#[trigger] old_entries[i].path) == p;
        lemma_spec_find_unique(old_entries, i);
        assert(spec_find(old_entries, p) == Some(old_entries[i]));
        let cls = spec_class(old_entries[i], new_entries);
        assert(class_paths(old_entries, new_entries, cls).contains(p));
        assert(cls == DiffClass::Unchanged || cls == DiffClass::Changed || cls
            == DiffClass::Removed);
        if class_paths(old_entries, new_entries, DiffClass::Unchanged).contains(p) {
            lemma_class_lists_disjoint(
                old_entries,
                new_entries,
                DiffClass::Unchanged,
                DiffClass::Changed,
                p,
            );
            lemma_class_lists_disjoint(
                old_entries,
                new_entries,
                DiffClass::Unchanged,
                DiffClass::Removed,
                p,
            );
        }
        if class_paths(old_entries, new_entries, DiffClass::Changed).contains(p) {
            lemma_class_lists_disjoint(
                old_entries,
                new_entries,
                DiffClass::Changed,
                DiffClass::Removed,
                p,
            );
        }
        assert(!added_paths(new_entries, old_entries).contains(p));
        if has_path(new_entries, p) {
            let j = choose|j: int|
                0 <= j < new_entries.len() && (#[trigger] new_entries[j].path) == p;
            lemma_spec_find_unique(new_entries, j);
            assert(spec_find(new_entries, p) == Some(new_entries[j]));
        }
    } else {
        let j = choose|j: int| 0 <= j < new_entries.len() && (#[trigger] new_entries[j].path) == p;
        assert(spec_find(old_entries, p) is None);
        assert(added_paths(new_entries, old_entries).contains(p));
        assert(!class_paths(old_entries, new_entries, DiffClass::Unchanged).contains(p));
        assert(!class_paths(old_entries, new_entries, DiffClass::Changed).contains(p));
        assert(!class_paths(old_entries, new_entries, DiffClass::Removed).contains(p));
    }
}

/// A size mismatch alone classifies a path as changed, whatever either
/// entry's digest holds.
pub proof fn lemma_size_mismatch_changed(o: EntryModel, new_entries: Seq<EntryModel>)
    requires
        spec_find(new_entries, o.path) is Some,
        spec_find(new_entries, o.path)->Some_0.size != o.size,
    ensures
        spec_class(o, new_entries) == DiffClass::Changed,
{
}

proof fn lemma_diff_self_prefix(entries: Seq<EntryModel>, k: int)
    requires
        unique_paths(entries),
        0 <= k <= entries.len(),
    ensures
        class_paths(entries.take(k), entries, DiffClass::Unchanged) == paths_of(entries.take(k)),
        class_paths(entries.take(k), entries, DiffClass::Changed) == Seq::<Seq<char>>::empty(),
        class_paths(entries.take(k), entries, DiffClass::Removed) == Seq::<Seq<char>>::empty(),
        added_paths(entries.take(k), entries) == Seq::<Seq<char>>::empty(),
    decreases k,
{
    if k == 0 {
        assert(entries.take(0) =~= Seq::<EntryModel>::empty());
        assert(paths_of(Seq::<EntryModel>::empty()) =~= Seq::<Seq<char>>::empty());
    } else {
        lemma_diff_self_prefix(entries, k - 1);
        lemma_class_paths_take_succ(entries, entries, DiffClass::Unchanged, k - 1);
        lemma_class_paths_take_succ(entries, entries, DiffClass::Changed, k - 1);
        lemma_class_paths_take_succ(entries, entries, DiffClass::Removed, k - 1);
        lemma_added_paths_take_succ(entries, entries, k - 1);
        lemma_spec_find_unique(entries, k - 1);
        assert(spec_class(entries[k - 1], entries) == DiffClass::Unchanged);
        assert(paths_of(entries.take(k)) =~= paths_of(entries.take(k - 1)) + seq![entries[k
            - 1].path]);
        assert(Seq::<Seq<char>>::empty() + Seq::<Seq<char>>::empty() =~= Seq::<
            Seq<char>,
        >::empty());
    }
}

/// Verify right after build: comparing a manifest against an equal one
/// leaves every path unchanged, in manifest order, and the changed,
/// removed and added lists empty.
pub proof fn lemma_verify_after_build(entries: Seq<EntryModel>)
    requires
        unique_paths(entries),
    ensures
        class_paths(entries, entries, DiffClass::Unchanged) == paths_of(entries),
        class_paths(entries, entries, DiffClass::Changed) == Seq::<Seq<char>>::empty(),
        class_paths(entries, entries, DiffClass::Removed) == Seq::<Seq<char>>::empty(),
        added_paths(entries, entries) == Seq::<Seq<char>>::empty(),
{
    lemma_diff_self_prefix(entries, entries.len() as int);
    assert(entries.take(entries.len() as int) =~= entries);
}

} // verus!
