use path_cleaner::expand::expand_entries;
use path_cleaner::scope::{scopes_for, Mode};
use path_cleaner::text::{contains_text, is_blank_text, join_with, same_text, split_path_list};

#[test]
fn split_drops_empty_and_blank_segments() {
    assert_eq!(split_path_list(";C:\\a;;  ;\t;C:\\b;"), vec!["C:\\a".to_string(), "C:\\b".to_string()]);
}

#[test]
fn split_keeps_inner_whitespace_and_text() {
    assert_eq!(
        split_path_list(" C:\\Program Files ;%USERPROFILE%\\bin"),
        vec![" C:\\Program Files ".to_string(), "%USERPROFILE%\\bin".to_string()]
    );
}

#[test]
fn split_of_empty_value_is_empty() {
    assert!(split_path_list("").is_empty());
    assert!(split_path_list(";;;").is_empty());
}

#[test]
fn split_handles_non_ascii_text() {
    assert_eq!(split_path_list("C:\\données;D:\\ü"), vec!["C:\\données".to_string(), "D:\\ü".to_string()]);
}

#[test]
fn join_puts_separator_between_texts() {
    let v = vec!["a".to_string(), "b".to_string(), "c".to_string()];
    assert_eq!(join_with(&v, ";"), "a;b;c");
    assert_eq!(join_with(&vec!["x".to_string()], ";"), "x");
    assert_eq!(join_with(&vec![], ";"), "");
}

#[test]
fn blank_text_is_only_ascii_whitespace() {
    assert!(is_blank_text(""));
    assert!(is_blank_text(" \t\r\n"));
    assert!(!is_blank_text(" a "));
}

#[test]
fn text_comparison_is_exact() {
    assert!(same_text("C:\\bin", "C:\\bin"));
    assert!(!same_text("C:\\bin", "c:\\bin"));
    assert!(!same_text("C:\\bin", "C:\\bin\\"));
    let v = vec!["a".to_string(), "b".to_string()];
    assert!(contains_text(&v, "b"));
    assert!(!contains_text(&v, "c"));
}

#[test]
fn expansion_keeps_plain_entries_and_fails_on_unset_variables() {
    let entries = vec![
        "C:\\bin".to_string(),
        "%PATH_CLEANER_UNSET_VARIABLE_7Q%\\x".to_string(),
        "%unclosed".to_string(),
    ];
    let out = expand_entries(&entries);
    assert_eq!(out, vec![Some("C:\\bin".to_string()), None, None]);
}

#[test]
fn menu_choices_give_scopes_in_order() {
    assert_eq!(scopes_for("user"), Some(vec![Mode::User]));
    assert_eq!(scopes_for("system"), Some(vec![Mode::System]));
    assert_eq!(scopes_for("both"), Some(vec![Mode::User, Mode::System]));
    assert_eq!(scopes_for("all"), None);
}

#[test]
fn scopes_name_their_key_and_report() {
    assert_eq!(Mode::User.subkey(), "Environment");
    assert_eq!(
        Mode::System.subkey(),
        "SYSTEM\\CurrentControlSet\\Control\\Session Manager\\Environment"
    );
    assert_eq!(Mode::User.report_file_name(), "removed_paths_User.txt");
    assert_eq!(Mode::System.report_file_name(), "removed_paths_System.txt");
}
