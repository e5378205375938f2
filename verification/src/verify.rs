//! Verify-mode planning: which entries of a freshly walked manifest must
//! actually be hashed before the differ runs. An entry needs a digest only
//! when the old manifest holds its path with the same size — a size
//! mismatch is already a change, and a path absent from the old manifest
//! is already an addition, so neither is ever hashed.

use vstd::prelude::*;
use crate::checksums::{Checksums, EntryModel, spec_find};
use crate::compare::lemma_contains_concat;

verus! {

/// Whether a walked entry must be hashed: its path is in the old manifest
/// and the sizes agree, so only the digests can decide.
pub open spec fn needs_hash(n: EntryModel, old_entries: Seq<EntryModel>) -> bool {
    match spec_find(old_entries, n.path) {
        Some(o) => o.size == n.size,
        None => false,
    }
}

/// The indices below `k` whose entry needs hashing, in ascending order.
pub open spec fn plan_upto(
    new_entries: Seq<EntryModel>,
    old_entries: Seq<EntryModel>,
    k: int,
) -> Seq<int>
    decreases k,
{
    if k <= 0 {
        Seq::empty()
    } else {
        plan_upto(new_entries, old_entries, k - 1) + if needs_hash(
            new_entries[k - 1],
            old_entries,
        ) {
            seq![k - 1]
        } else {
            Seq::<int>::empty()
        }
    }
}

/// All indices of the new manifest whose entry needs hashing.
pub open spec fn spec_hash_plan(
    new_entries: Seq<EntryModel>,
    old_entries: Seq<EntryModel>,
) -> Seq<int> {
    plan_upto(new_entries, old_entries, new_entries.len() as int)
}

proof fn lemma_plan_upto_contains(
    new_entries: Seq<EntryModel>,
    old_entries: Seq<EntryModel>,
    k: int,
    i: int,
)
    requires
        k <= new_entries.len(),
    ensures
        plan_upto(new_entries, old_entries, k).contains(i) <==> 0 <= i < k && needs_hash(
            new_entries[i],
            old_entries,
        ),
    decreases k,
{
    if k <= 0 {
    } else {
        let prefix = plan_upto(new_entries, old_entries, k - 1);
        let tail: Seq<int> = if needs_hash(new_entries[k - 1], old_entries) {
            seq![k - 1]
        } else {
            Seq::<int>::empty()
        };
        lemma_plan_upto_contains(new_entries, old_entries, k - 1, i);
        lemma_contains_concat(prefix, tail, i);
        if tail.contains(i) {
            assert(i == k - 1);
        }
        if 0 <= i < k && needs_hash(new_entries[i], old_entries) && i == k - 1 {
            assert(tail == seq![i]);
            assert(tail[0] == i);
        }
    }
}

/// An index is planned exactly when its entry needs hashing.
pub proof fn lemma_hash_plan_membership(
    new_entries: Seq<EntryModel>,
    old_entries: Seq<EntryModel>,
    i: int,
)
    ensures
        spec_hash_plan(new_entries, old_entries).contains(i) <==> 0 <= i < new_entries.len()
            && needs_hash(new_entries[i], old_entries),
{
    lemma_plan_upto_contains(new_entries, old_entries, new_entries.len() as int, i);
}

/// Short-circuit on size: an entry whose size differs from its old
/// counterpart is never scheduled for hashing — its digest is decided
/// without being read.
pub proof fn lemma_size_mismatch_not_planned(
    new_entries: Seq<EntryModel>,
    old_entries: Seq<EntryModel>,
    i: int,
)
    requires
        0 <= i < new_entries.len(),
        spec_find(old_entries, new_entries[i].path) is Some,
        spec_find(old_entries, new_entries[i].path)->Some_0.size != new_entries[i].size,
    ensures
        !spec_hash_plan(new_entries, old_entries).contains(i),
{
    lemma_hash_plan_membership(new_entries, old_entries, i);
}

/// Compute the hash plan for a verify run: the indices of the walked
/// manifest's entries that the old manifest holds with an equal size, in
/// ascending order. Only these are hashed; everything else is classified
/// from path and size alone.
pub fn hash_plan(old: &Checksums, new: &Checksums) -> (r: Vec<usize>)
    ensures
        r@.map_values(|u: usize| u as int) == spec_hash_plan(new@.entries, old@.entries),
        forall|k: int| 0 <= k < r@.len() ==> (#[trigger] r@[k]) < new@.entries.len(),
{
    let n = new.len();
    let mut r: Vec<usize> = Vec::new();
    let mut i: usize = 0;
    proof {
        assert(r@.map_values(|u: usize| u as int) =~= plan_upto(new@.entries, old@.entries, 0));
    }
    while i < n
        invariant
            n == new@.entries.len(),
            i <= n,
            r@.map_values(|u: usize| u as int) == plan_upto(
                new@.entries,
                old@.entries,
                i as int,
            ),
            forall|k: int| 0 <= k < r@.len() ==> (#[trigger] r@[k]) < n,
        decreases n - i,
    {
        let ne = new.entry_at(i);
        let ghost r0 = r@.map_values(|u: usize| u as int);
        match old.find(ne.path()) {
            Some(oe) => {
                if oe.size() == ne.size() {
                    r.push(i);
                    proof {
                        assert(needs_hash(new@.entries[i as int], old@.entries));
                        assert(r@.map_values(|u: usize| u as int) =~= r0 + seq![i as int]);
                    }
                } else {
                    proof {
                        assert(!needs_hash(new@.entries[i as int], old@.entries));
                        assert(r0 + Seq::<int>::empty() =~= r0);
                    }
                }
            },
            None => {
                proof {
                    assert(!needs_hash(new@.entries[i as int], old@.entries));
                    assert(r0 + Seq::<int>::empty() =~= r0);
                }
            },
        }
        i = i + 1;
    }
    r
}

} // verus!
