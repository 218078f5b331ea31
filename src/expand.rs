//! Expansion of `%NAME%` variable references against the process environment.
use vstd::prelude::*;

verus! {

/// Relies on `expand_str::expand_string_with_env`, which replaces each
/// `%NAME%` reference with the value of that variable in the process
/// environment and fails on an unclosed reference, a bad variable name or a
/// variable that is not set. A text without `%` is handed back as it is.
/// Any failure comes back as `None`.
#[verifier::external_body]
fn expand_with_env(entry: &str) -> (r: Option<String>)
    ensures
        !entry@.contains('%') ==> r is Some && r->0@ == entry@,
{
    expand_str::expand_string_with_env(entry).ok()
}

/// Expands the variable references of each entry against the process
/// environment: `None` where expansion fails. What a reference expands to
/// depends on the environment; an entry without `%` expands to itself.
pub fn expand_entries(entries: &Vec<String>) -> (r: Vec<Option<String>>)
    ensures
        r.len() == entries.len(),
        forall|i: int|
            0 <= i < entries.len() && !entries@[i]@.contains('%') ==> (#[trigger] r@[i]) is Some
                && r@[i]->0@ == entries@[i]@,
{
    let mut out: Vec<Option<String>> = Vec::new();
    let mut i: usize = 0;
    while i < entries.len()
        invariant
            i <= entries.len(),
            out.len() == i,
            forall|k: int|
                0 <= k < i && !entries@[k]@.contains('%') ==> (#[trigger] out@[k]) is Some
                    && out@[k]->0@ == entries@[k]@,
        decreases entries.len() - i,
    {
        out.push(expand_with_env(entries[i].as_str()));
        i += 1;
    }
    out
}

} // verus!
