//! What the normalization pass guarantees of every input.
use vstd::prelude::*;
use crate::normalize::{
    cleaned_of, key_of, kept_indices, removed_indices, removed_of, seen_before, verdict, Reason,
    Resolution,
};

verus! {

proof fn lemma_kept_indices(res: Seq<Resolution>, n: int)
    requires
        0 <= n <= res.len(),
    ensures
        forall|a: int|
            0 <= a < kept_indices(res, n).len() ==> 0 <= #[trigger] kept_indices(res, n)[a] < n
                && verdict(res, kept_indices(res, n)[a]) is None,
        forall|a: int, b: int|
            0 <= a < b < kept_indices(res, n).len() ==> kept_indices(res, n)[a] < kept_indices(
                res,
                n,
            )[b],
        forall|i: int| 0 <= i < n && #[trigger] verdict(res, i) is None ==> kept_indices(res, n).contains(i),
    decreases n,
{
    if n > 0 {
        lemma_kept_indices(res, n - 1);
        let p = kept_indices(res, n - 1);
        if verdict(res, n - 1) is None {
            assert(kept_indices(res, n) == p.push(n - 1));
            assert forall|i: int| 0 <= i < n && verdict(res, i) is None implies kept_indices(
                res,
                n,
            ).contains(i) by {
                if i < n - 1 {
                    let a = choose|a: int| 0 <= a < p.len() && p[a] == i;
                    assert(kept_indices(res, n)[a] == i);
                } else {
                    assert(kept_indices(res, n)[p.len() as int] == i);
                }
            }
        }
    }
}

proof fn lemma_removed_indices(res: Seq<Resolution>, n: int)
    requires
        0 <= n <= res.len(),
    ensures
        forall|a: int|
            0 <= a < removed_indices(res, n).len() ==> 0 <= #[trigger] removed_indices(res, n)[a]
                < n,
        forall|i: int|
            0 <= i < n && #[trigger] verdict(res, i) is Some ==> exists|a: int|
                0 <= a < removed_indices(res, n).len() && #[trigger] removed_indices(res, n)[a]
                    == i,
    decreases n,
{
    if n > 0 {
        lemma_removed_indices(res, n - 1);
        let p = removed_indices(res, n - 1);
        if verdict(res, n - 1) is Some {
            assert(removed_indices(res, n) == p.push(n - 1));
            assert forall|i: int| 0 <= i < n && verdict(res, i) is Some implies exists|a: int|
                0 <= a < removed_indices(res, n).len() && #[trigger] removed_indices(res, n)[a]
                    == i by {
                if i < n - 1 {
                    let a = choose|a: int| 0 <= a < p.len() && p[a] == i;
                    assert(removed_indices(res, n)[a] == i);
                } else {
                    assert(removed_indices(res, n)[p.len() as int] == i);
                }
            }
        }
    }
}

/// An entry that is removed appears in the removed list with its reason.
proof fn lemma_removed_listed(entries: Seq<Seq<char>>, res: Seq<Resolution>, i: int)
    requires
        entries.len() == res.len(),
        0 <= i < res.len(),
        verdict(res, i) is Some,
    ensures
        removed_of(entries, res).contains((entries[i], verdict(res, i)->0)),
        !kept_indices(res, res.len() as int).contains(i),
{
    let n = res.len() as int;
    lemma_removed_indices(res, n);
    lemma_kept_indices(res, n);
    let a = choose|a: int|
        0 <= a < removed_indices(res, n).len() && #[trigger] removed_indices(res, n)[a] == i;
    assert(removed_of(entries, res)[a] == (entries[i], verdict(res, i)->0));
}

/// The cleaned list holds the entries that are kept, each once, in the order
/// in which they stand in the input: position `a` of the cleaned list holds
/// the entry at input position `kept_indices(..)[a]`, and those positions
/// increase.
pub proof fn retained_entries_keep_input_order(entries: Seq<Seq<char>>, res: Seq<Resolution>)
    requires
        entries.len() == res.len(),
    ensures
        ({
            let kept = kept_indices(res, res.len() as int);
            let cleaned = cleaned_of(entries, res);
            &&& cleaned.len() == kept.len()
            &&& forall|a: int|
                0 <= a < kept.len() ==> 0 <= #[trigger] kept[a] < entries.len() && cleaned[a]
                    == entries[kept[a]]
            &&& forall|a: int, b: int| 0 <= a < b < kept.len() ==> kept[a] < kept[b]
            &&& forall|i: int| 0 <= i < res.len() ==> (kept.contains(i) <==> verdict(res, i) is None)
        }),
{
    let n = res.len() as int;
    lemma_kept_indices(res, n);
    assert forall|i: int| 0 <= i < res.len() && kept_indices(res, n).contains(i) implies verdict(
        res,
        i,
    ) is None by {
        let a = choose|a: int|
            0 <= a < kept_indices(res, n).len() && kept_indices(res, n)[a] == i;
        assert(verdict(res, kept_indices(res, n)[a]) is None);
    }
}

/// The earliest position whose entry names the directory with key `k`.
proof fn lemma_first_with_key(res: Seq<Resolution>, k: Seq<char>, i: int) -> (m: int)
    requires
        0 <= i < res.len(),
        key_of(res[i]) == Some(k),
    ensures
        0 <= m <= i,
        key_of(res[m]) == Some(k),
        !seen_before(res, m, k),
    decreases i,
{
    if seen_before(res, i, k) {
        let j = choose|j: int| 0 <= j < i && #[trigger] key_of(res[j]) == Some(k);
        lemma_first_with_key(res, k, j)
    } else {
        i
    }
}

/// Of all the entries that name one existing directory, exactly one is kept:
/// the first in input order. Each later one is removed as a duplicate.
pub proof fn first_occurrence_survives(entries: Seq<Seq<char>>, res: Seq<Resolution>, k: Seq<char>)
    requires
        entries.len() == res.len(),
        exists|i: int| 0 <= i < res.len() && #[trigger] key_of(res[i]) == Some(k),
    ensures
        ({
            let kept = kept_indices(res, res.len() as int);
            exists|m: int|
                {
                    &&& 0 <= m < res.len()
                    &&& #[trigger] key_of(res[m]) == Some(k)
                    &&& kept.contains(m)
                    &&& forall|j: int| 0 <= j < m ==> key_of(res[j]) != Some(k)
                    &&& forall|j: int|
                        m < j < res.len() && key_of(res[j]) == Some(k) ==> verdict(res, j) == Some(
                            Reason::Duplicate,
                        ) && !kept.contains(j)
                }
        }),
{
    let n = res.len() as int;
    let i = choose|i: int| 0 <= i < res.len() && #[trigger] key_of(res[i]) == Some(k);
    let m = lemma_first_with_key(res, k, i);
    retained_entries_keep_input_order(entries, res);
    assert(verdict(res, m) is None);
    assert forall|j: int| 0 <= j < m implies key_of(res[j]) != Some(k) by {
        if key_of(res[j]) == Some(k) {
            assert(seen_before(res, m, k));
        }
    }
    assert forall|j: int|
        m < j < res.len() && key_of(res[j]) == Some(k) implies verdict(res, j) == Some(
        Reason::Duplicate,
    ) && !kept_indices(res, n).contains(j) by {
        assert(seen_before(res, j, k));
    }
}

/// An entry whose variables cannot be expanded is listed as removed for
/// that reason and is not kept, whatever happens to the other entries.
pub proof fn unexpandable_entry_removed(entries: Seq<Seq<char>>, res: Seq<Resolution>, i: int)
    requires
        entries.len() == res.len(),
        0 <= i < res.len(),
        res[i] is Unexpandable,
    ensures
        removed_of(entries, res).contains((entries[i], Reason::InvalidExpansion)),
        !kept_indices(res, res.len() as int).contains(i),
{
    lemma_removed_listed(entries, res, i);
}

/// An entry that does not resolve to an existing directory is listed as
/// removed for that reason and is not kept.
pub proof fn missing_directory_removed(entries: Seq<Seq<char>>, res: Seq<Resolution>, i: int)
    requires
        entries.len() == res.len(),
        0 <= i < res.len(),
        res[i] is Unresolvable || (res[i] is Resolved && !res[i]->0.is_dir),
    ensures
        removed_of(entries, res).contains((entries[i], Reason::NonexistentPath)),
        !kept_indices(res, res.len() as int).contains(i),
{
    lemma_removed_listed(entries, res, i);
}

proof fn lemma_all_kept(res: Seq<Resolution>, n: int)
    requires
        0 <= n <= res.len(),
        forall|i: int| 0 <= i < n ==> #[trigger] verdict(res, i) is None,
    ensures
        kept_indices(res, n) == Seq::new(n as nat, |j: int| j),
        removed_indices(res, n).len() == 0,
    decreases n,
{
    if n > 0 {
        lemma_all_kept(res, n - 1);
        assert(verdict(res, n - 1) is None);
        assert(kept_indices(res, n) =~= Seq::new(n as nat, |j: int| j));
    } else {
        assert(kept_indices(res, n) =~= Seq::new(n as nat, |j: int| j));
    }
}

/// A list that is already clean, where every entry names an existing
/// directory and no two entries name the same one, comes out unchanged, and
/// nothing is removed.
pub proof fn clean_list_is_fixed(entries: Seq<Seq<char>>, res: Seq<Resolution>)
    requires
        entries.len() == res.len(),
        forall|i: int| 0 <= i < res.len() ==> (#[trigger] key_of(res[i])) is Some,
        forall|i: int, j: int|
            0 <= i < j < res.len() ==> #[trigger] key_of(res[i]) != #[trigger] key_of(res[j]),
    ensures
        cleaned_of(entries, res) == entries,
        removed_of(entries, res).len() == 0,
{
    let n = res.len() as int;
    assert forall|i: int| 0 <= i < n implies #[trigger] verdict(res, i) is None by {
        assert(key_of(res[i]) is Some);
        let k = key_of(res[i])->0;
        if seen_before(res, i, k) {
            let j = choose|j: int| 0 <= j < i && #[trigger] key_of(res[j]) == Some(k);
            assert(key_of(res[j]) != key_of(res[i]));
        }
    }
    lemma_all_kept(res, n);
    assert(cleaned_of(entries, res) =~= entries);
}

/// Cleaning is idempotent: where each entry resolves the same way on both
/// runs (`f` gives what becomes of an entry's text), cleaning the cleaned
/// list again keeps all of it and removes nothing.
pub proof fn normalizing_twice_changes_nothing(
    entries: Seq<Seq<char>>,
    f: spec_fn(Seq<char>) -> Resolution,
)
    ensures
        ({
            let cleaned = cleaned_of(entries, entries.map_values(f));
            &&& cleaned_of(cleaned, cleaned.map_values(f)) == cleaned
            &&& removed_of(cleaned, cleaned.map_values(f)).len() == 0
        }),
{
    let res = entries.map_values(f);
    let c = cleaned_of(entries, res);
    let kept = kept_indices(res, res.len() as int);
    let res2 = c.map_values(f);
    retained_entries_keep_input_order(entries, res);
    assert forall|a: int| 0 <= a < res2.len() implies res2[a] == res[kept[a]]
        && verdict(res, kept[a]) is None by {
        assert(0 <= kept[a] < entries.len());
        assert(kept.contains(kept[a]));
    }
    assert forall|a: int| 0 <= a < res2.len() implies (#[trigger] key_of(res2[a])) is Some by {
        assert(res2[a] == res[kept[a]]);
        assert(verdict(res, kept[a]) is None);
    }
    assert forall|a: int, b: int|
        0 <= a < b < res2.len() implies #[trigger] key_of(res2[a]) != #[trigger] key_of(
        res2[b],
    ) by {
        assert(res2[a] == res[kept[a]] && verdict(res, kept[a]) is None);
        assert(res2[b] == res[kept[b]] && verdict(res, kept[b]) is None);
        assert(kept[a] < kept[b]);
        if key_of(res2[a]) == key_of(res2[b]) {
            let k = key_of(res[kept[a]])->0;
            assert(key_of(res[kept[a]]) == Some(k));
            assert(seen_before(res, kept[b], k));
        }
    }
    clean_list_is_fixed(c, res2);
}

} // verus!
