use path_cleaner::cleaning::clean;
use path_cleaner::normalize::{deduplicate_paths, Probe, Reason, Removal, Resolution};

fn dir(canonical: &str) -> Resolution {
    Resolution::Resolved(Probe { canonical: canonical.to_string(), is_dir: true })
}

fn file(canonical: &str) -> Resolution {
    Resolution::Resolved(Probe { canonical: canonical.to_string(), is_dir: false })
}

fn strings(v: &[&str]) -> Vec<String> {
    v.iter().map(|s| s.to_string()).collect()
}

fn removed_pairs(v: &[Removal]) -> Vec<(String, Reason)> {
    v.iter().map(|r| (r.entry.clone(), r.reason)).collect()
}

#[test]
fn duplicate_entry_is_removed() {
    let out = clean(
        "C:\\bin;C:\\bin;C:\\tools",
        &vec![dir("C:\\bin"), dir("C:\\bin"), dir("C:\\tools")],
    );
    assert_eq!(out.kept, strings(&["C:\\bin", "C:\\tools"]));
    assert_eq!(removed_pairs(&out.removed), vec![("C:\\bin".to_string(), Reason::Duplicate)]);
    assert_eq!(out.updated_path, "C:\\bin;C:\\tools");
    assert_eq!(out.report, "C:\\bin");
}

#[test]
fn unexpandable_entry_is_removed() {
    let out = clean("%UNDEFINEDVAR%\\x;C:\\real", &vec![Resolution::Unexpandable, dir("C:\\real")]);
    assert_eq!(out.kept, strings(&["C:\\real"]));
    assert_eq!(
        removed_pairs(&out.removed),
        vec![("%UNDEFINEDVAR%\\x".to_string(), Reason::InvalidExpansion)]
    );
    assert_eq!(out.updated_path, "C:\\real");
    assert_eq!(out.report, "%UNDEFINEDVAR%\\x");
}

#[test]
fn deleted_directory_is_removed() {
    let out = clean("C:\\deleted_dir", &vec![Resolution::Unresolvable]);
    assert!(out.kept.is_empty());
    assert_eq!(
        removed_pairs(&out.removed),
        vec![("C:\\deleted_dir".to_string(), Reason::NonexistentPath)]
    );
    assert_eq!(out.updated_path, "");
    assert_eq!(out.report, "C:\\deleted_dir");
}

#[test]
fn empty_segments_are_dropped_silently() {
    let out = clean(";C:\\a;", &vec![dir("C:\\a")]);
    assert_eq!(out.kept, strings(&["C:\\a"]));
    assert!(out.removed.is_empty());
    assert_eq!(out.updated_path, "C:\\a");
    assert_eq!(out.report, "");
}

#[test]
fn different_casing_of_one_directory_is_a_duplicate() {
    let out = clean("C:\\Tools;c:\\tools", &vec![dir("C:\\Tools"), dir("C:\\Tools")]);
    assert_eq!(out.kept, strings(&["C:\\Tools"]));
    assert_eq!(removed_pairs(&out.removed), vec![("c:\\tools".to_string(), Reason::Duplicate)]);
}

#[test]
fn file_target_is_removed_as_nonexistent() {
    let out = clean("C:\\bin\\tool.exe;C:\\bin", &vec![file("C:\\bin\\tool.exe"), dir("C:\\bin")]);
    assert_eq!(out.kept, strings(&["C:\\bin"]));
    assert_eq!(
        removed_pairs(&out.removed),
        vec![("C:\\bin\\tool.exe".to_string(), Reason::NonexistentPath)]
    );
}

#[test]
fn variable_form_is_kept_over_literal_form() {
    let out = clean(
        "%SystemRoot%\\system32;C:\\Windows\\System32",
        &vec![dir("C:\\Windows\\System32"), dir("C:\\Windows\\System32")],
    );
    assert_eq!(out.kept, strings(&["%SystemRoot%\\system32"]));
    assert_eq!(out.report, "C:\\Windows\\System32");
}

#[test]
fn removed_entries_keep_input_order_with_every_reason() {
    let out = clean(
        "A;B;%X%;C;A2;D",
        &vec![
            dir("a"),
            dir("b"),
            Resolution::Unexpandable,
            Resolution::Unresolvable,
            dir("a"),
            file("d"),
        ],
    );
    assert_eq!(out.kept, strings(&["A", "B"]));
    assert_eq!(
        removed_pairs(&out.removed),
        vec![
            ("%X%".to_string(), Reason::InvalidExpansion),
            ("C".to_string(), Reason::NonexistentPath),
            ("A2".to_string(), Reason::Duplicate),
            ("D".to_string(), Reason::NonexistentPath),
        ]
    );
    assert_eq!(out.updated_path, "A;B");
    assert_eq!(out.report, "%X%\nC\nA2\nD");
}

#[test]
fn kept_entries_keep_first_occurrence_order() {
    let out = clean(
        "C;A;B;A;C",
        &vec![dir("c"), dir("a"), dir("b"), dir("a"), dir("c")],
    );
    assert_eq!(out.kept, strings(&["C", "A", "B"]));
    assert_eq!(out.report, "A\nC");
}

#[test]
fn cleaning_a_clean_list_changes_nothing() {
    let first = clean("X;Y;X;Z", &vec![dir("x"), dir("y"), dir("x"), dir("z")]);
    assert_eq!(first.updated_path, "X;Y;Z");
    let second = clean(&first.updated_path, &vec![dir("x"), dir("y"), dir("z")]);
    assert_eq!(second.kept, first.kept);
    assert_eq!(second.updated_path, first.updated_path);
    assert!(second.removed.is_empty());
}

#[test]
fn unexpandable_entry_is_removed_beside_a_valid_twin() {
    let out = clean("%A%;%A%", &vec![Resolution::Unexpandable, dir("a")]);
    assert_eq!(out.kept, strings(&["%A%"]));
    assert_eq!(
        removed_pairs(&out.removed),
        vec![("%A%".to_string(), Reason::InvalidExpansion)]
    );
}

#[test]
fn deduplicate_paths_appends_to_removed() {
    let mut removed = vec![Removal { entry: "earlier".to_string(), reason: Reason::Duplicate }];
    let kept = deduplicate_paths(
        &strings(&["P", "Q", "P"]),
        &vec![dir("p"), Resolution::Unresolvable, dir("p")],
        &mut removed,
    );
    assert_eq!(kept, strings(&["P"]));
    assert_eq!(
        removed_pairs(&removed),
        vec![
            ("earlier".to_string(), Reason::Duplicate),
            ("Q".to_string(), Reason::NonexistentPath),
            ("P".to_string(), Reason::Duplicate),
        ]
    );
}

#[test]
fn empty_value_gives_empty_outcome() {
    let out = clean("", &vec![]);
    assert!(out.kept.is_empty());
    assert!(out.removed.is_empty());
    assert_eq!(out.updated_path, "");
    assert_eq!(out.report, "");
}
