//! One cleaning pass over the stored value of a scope's `PATH`.
use vstd::prelude::*;
use crate::normalize::{
    cleaned_of, deduplicate_paths, removal_views, removed_of, Reason, Removal, Resolution,
};
use crate::text::{join_with, joined, path_entries, split_path_list, texts};

verus! {

/// The outcome of a cleaning pass.
pub struct Cleaning {
    /// The entries kept, in input order, in their original text.
    pub kept: Vec<String>,
    /// The entries removed, in input order, with their reasons.
    pub removed: Vec<Removal>,
    /// The value to store back: the kept entries separated by `;`.
    pub updated_path: String,
    /// The removal report: one removed entry per line.
    pub report: String,
}

/// The texts of the removed entries, without their reasons.
pub open spec fn removed_texts(removed: Seq<(Seq<char>, Reason)>) -> Seq<
    Seq<char>,
> {
    removed.map_values(|p: (Seq<char>, Reason)| p.0)
}

/// Cleans the stored value `current_path` of a `PATH` variable.
/// `resolutions[i]` is what variable expansion and canonicalization made of
/// the `i`-th entry of `split_path_list(current_path)`.
pub fn clean(current_path: &str, resolutions: &Vec<Resolution>) -> (r: Cleaning)
    requires
        resolutions.len() == path_entries(current_path@).len(),
    ensures
        texts(r.kept@) == cleaned_of(path_entries(current_path@), resolutions@),
        removal_views(r.removed@) == removed_of(path_entries(current_path@), resolutions@),
        r.updated_path@ == joined(cleaned_of(path_entries(current_path@), resolutions@), seq![';']),
        r.report@ == joined(
            removed_texts(removed_of(path_entries(current_path@), resolutions@)),
            seq!['\n'],
        ),
{
    let entries = split_path_list(current_path);
    let mut removed: Vec<Removal> = Vec::new();
    let kept = deduplicate_paths(&entries, resolutions, &mut removed);
    proof {
        assert(removal_views(removed@) =~= removal_views(seq![]) + removed_of(
            texts(entries@),
            resolutions@,
        ));
    }
    let mut lines: Vec<String> = Vec::new();
    let mut i: usize = 0;
    while i < removed.len()
        invariant
            i <= removed.len(),
            texts(lines@) == removed_texts(removal_views(removed@)).take(i as int),
        decreases removed.len() - i,
    {
        let ghost before = lines@;
        lines.push(removed[i].entry.as_str().to_owned());
        assert(texts(lines@) =~= texts(before).push(removed@[i as int].entry@));
        assert(removed_texts(removal_views(removed@)).take(i + 1) =~= removed_texts(
            removal_views(removed@),
        ).take(i as int).push(removed@[i as int].entry@));
        i += 1;
    }
    assert(removed_texts(removal_views(removed@)).take(removed.len() as int) =~= removed_texts(
        removal_views(removed@),
    ));
    let updated_path = join_with(&kept, ";");
    let report = join_with(&lines, "\n");
    proof {
        reveal_strlit(";");
        reveal_strlit("\n");
        assert(";"@ =~= seq![';']);
        assert("\n"@ =~= seq!['\n']);
    }
    Cleaning { kept, removed, updated_path, report }
}

} // verus!
