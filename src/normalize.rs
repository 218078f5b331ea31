//! The normalization pass: each entry is kept or removed, with a reason, from
//! what variable expansion and the filesystem said of it.
use vstd::prelude::*;
use crate::text::{contains_text, texts};

verus! {

/// What the filesystem says of an expanded entry that could be canonicalized.
pub struct Probe {
    /// The canonical absolute form, used only to compare entries.
    pub canonical: String,
    /// Whether the canonical target is a directory.
    pub is_dir: bool,
}

/// What variable expansion and canonicalization made of one entry.
pub enum Resolution {
    /// Variable expansion failed.
    Unexpandable,
    /// The expanded path could not be canonicalized.
    Unresolvable,
    /// The expanded path was canonicalized.
    Resolved(Probe),
}

/// Why an entry was removed.
#[derive(PartialEq, Eq, Structural, Clone, Copy, Debug)]
pub enum Reason {
    InvalidExpansion,
    NonexistentPath,
    Duplicate,
}

/// A removed entry, in its original text, with the reason for its removal.
pub struct Removal {
    pub entry: String,
    pub reason: Reason,
}

/// The comparison key of an entry that names an existing directory.
pub open spec fn key_of(r: Resolution) -> Option<Seq<char>> {
    match r {
        Resolution::Resolved(p) => if p.is_dir {
            Some(p.canonical@)
        } else {
            None
        },
        _ => None,
    }
}

/// Whether an entry before position `i` names the directory with key `k`.
pub open spec fn seen_before(res: Seq<Resolution>, i: int, k: Seq<char>) -> bool {
    exists|j: int| 0 <= j < i && #[trigger] key_of(res[j]) == Some(k)
}

/// Why the entry at position `i` is removed, or `None` where it is kept.
pub open spec fn verdict(res: Seq<Resolution>, i: int) -> Option<Reason> {
    match res[i] {
        Resolution::Unexpandable => Some(Reason::InvalidExpansion),
        Resolution::Unresolvable => Some(Reason::NonexistentPath),
        Resolution::Resolved(p) => if !p.is_dir {
            Some(Reason::NonexistentPath)
        } else if seen_before(res, i, p.canonical@) {
            Some(Reason::Duplicate)
        } else {
            None
        },
    }
}

/// The positions among the first `n` whose entries are kept, in order.
pub open spec fn kept_indices(res: Seq<Resolution>, n: int) -> Seq<int>
    decreases n,
{
    if n <= 0 {
        seq![]
    } else if verdict(res, n - 1) is None {
        kept_indices(res, n - 1).push(n - 1)
    } else {
        kept_indices(res, n - 1)
    }
}

/// The positions among the first `n` whose entries are removed, in order.
pub open spec fn removed_indices(res: Seq<Resolution>, n: int) -> Seq<int>
    decreases n,
{
    if n <= 0 {
        seq![]
    } else if verdict(res, n - 1) is Some {
        removed_indices(res, n - 1).push(n - 1)
    } else {
        removed_indices(res, n - 1)
    }
}

/// The cleaned list: the kept entries, in input order, in their original text.
pub open spec fn cleaned_of(entries: Seq<Seq<char>>, res: Seq<Resolution>) -> Seq<Seq<char>> {
    kept_indices(res, res.len() as int).map_values(|i: int| entries[i])
}

/// The removed list: the removed entries, in input order, with their reasons.
pub open spec fn removed_of(entries: Seq<Seq<char>>, res: Seq<Resolution>) -> Seq<(Seq<char>, Reason)> {
    removed_indices(res, res.len() as int).map_values(|i: int| (entries[i], verdict(res, i)->0))
}

/// The views of removal records.
pub open spec fn removal_views(v: Seq<Removal>) -> Seq<(Seq<char>, Reason)> {
    v.map_values(|r: Removal| (r.entry@, r.reason))
}

proof fn lemma_seen_step(res: Seq<Resolution>, i: int, k: Seq<char>)
    requires
        0 <= i < res.len(),
    ensures
        seen_before(res, i + 1, k) == (seen_before(res, i, k) || key_of(res[i]) == Some(k)),
{
    if seen_before(res, i + 1, k) && !(key_of(res[i]) == Some(k)) {
        let j = choose|j: int| 0 <= j < i + 1 && #[trigger] key_of(res[j]) == Some(k);
        assert(j < i);
    }
    if key_of(res[i]) == Some(k) {
        assert(0 <= i < i + 1 && key_of(res[i]) == Some(k));
    }
}

/// Removes from `paths` the entries that cannot be expanded, that do not name
/// an existing directory, or that name a directory already kept, and returns
/// the others in order. `resolutions[i]` is what became of `paths[i]`. The
/// removed entries are appended to `removed`, in order, with their reasons.
pub fn deduplicate_paths(
    paths: &Vec<String>,
    resolutions: &Vec<Resolution>,
    removed: &mut Vec<Removal>,
) -> (result: Vec<String>)
    requires
        paths.len() == resolutions.len(),
    ensures
        texts(result@) == cleaned_of(texts(paths@), resolutions@),
        removal_views(final(removed)@) == removal_views(old(removed)@) + removed_of(
            texts(paths@),
            resolutions@,
        ),
{
    let ghost entries = texts(paths@);
    let ghost res = resolutions@;
    let mut seen: Vec<String> = Vec::new();
    let mut result: Vec<String> = Vec::new();
    let mut i: usize = 0;
    while i < paths.len()
        invariant
            paths.len() == resolutions.len(),
            entries == texts(paths@),
            res == resolutions@,
            i <= paths.len(),
            texts(result@) == kept_indices(res, i as int).map_values(|j: int| entries[j]),
            removal_views(removed@) == removal_views(old(removed)@) + removed_indices(
                res,
                i as int,
            ).map_values(|j: int| (entries[j], verdict(res, j)->0)),
            forall|k: Seq<char>| texts(seen@).contains(k) <==> seen_before(res, i as int, k),
        decreases paths.len() - i,
    {
        let entry = paths[i].as_str().to_owned();
        let ghost before_result = result@;
        let ghost before_removed = removed@;
        let ghost before_seen = seen@;
        let mut reason: Option<Reason> = None;
        match &resolutions[i] {
            Resolution::Unexpandable => {
                reason = Some(Reason::InvalidExpansion);
            },
            Resolution::Unresolvable => {
                reason = Some(Reason::NonexistentPath);
            },
            Resolution::Resolved(probe) => {
                if !probe.is_dir {
                    reason = Some(Reason::NonexistentPath);
                } else if contains_text(&seen, probe.canonical.as_str()) {
                    reason = Some(Reason::Duplicate);
                } else {
                    seen.push(probe.canonical.as_str().to_owned());
                    assert(seen@.last()@ == key_of(res[i as int])->0);
                }
            },
        }
        assert(reason == verdict(res, i as int));
        match reason {
            Some(r) => {
                removed.push(Removal { entry, reason: r });
                assert(removal_views(removed@) =~= removal_views(before_removed).push(
                    (entries[i as int], r),
                ));
            },
            None => {
                result.push(entry);
                assert(texts(result@) =~= texts(before_result).push(entries[i as int]));
            },
        }
        proof {
            let ki = kept_indices(res, i as int);
            let ri = removed_indices(res, i as int);
            assert(kept_indices(res, i + 1) == if verdict(res, i as int) is None {
                ki.push(i as int)
            } else {
                ki
            });
            assert(ki.push(i as int).map_values(|j: int| entries[j]) =~= ki.map_values(
                |j: int| entries[j],
            ).push(entries[i as int]));
            assert(ri.push(i as int).map_values(|j: int| (entries[j], verdict(res, j)->0))
                =~= ri.map_values(|j: int| (entries[j], verdict(res, j)->0)).push(
                (entries[i as int], verdict(res, i as int)->0),
            ));
            assert forall|k: Seq<char>|
                texts(seen@).contains(k) <==> seen_before(res, i + 1, k) by {
                lemma_seen_step(res, i as int, k);
                if seen@.len() > before_seen.len() {
                    let c = key_of(res[i as int])->0;
                    assert(texts(seen@) =~= texts(before_seen).push(c));
                    if texts(seen@).contains(k) && k != c {
                        let m = choose|m: int| 0 <= m < texts(seen@).len() && texts(seen@)[m] == k;
                        assert(texts(before_seen)[m] == k);
                    }
                    if k == c {
                        assert(texts(seen@)[before_seen.len() as int] == k);
                    }
                    if texts(before_seen).contains(k) {
                        let m = choose|m: int| 0 <= m < texts(before_seen).len() && texts(before_seen)[m] == k;
                        assert(texts(seen@)[m] == k);
                    }
                } else {
                    assert(seen@ == before_seen);
                }
            }
        }
        i += 1;
    }
    assert(kept_indices(res, res.len() as int).map_values(|j: int| entries[j]) == cleaned_of(
        entries,
        res,
    ));
    result
}

} // verus!
