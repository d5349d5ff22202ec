use run_clang_format::error::Error;
use run_clang_format::paths::{
    extension_str, file_name_str, has_separator, is_hidden_entry, is_under, join_path,
    last_index_of, str_starts_with,
};
use run_clang_format::strs::{dedup_sorted, eq_ignore_ascii_case, sort_strings, str_le};

fn strings(names: &[&str]) -> Vec<String> {
    names.iter().map(|s| s.to_string()).collect()
}

#[test]
fn sorting_and_deduplication() {
    let sorted = sort_strings(strings(&["b/x", "a/z", "a/z", "B/x", "a/y"]));
    assert_eq!(sorted, strings(&["B/x", "a/y", "a/z", "a/z", "b/x"]));
    let unique = dedup_sorted(sorted);
    assert_eq!(unique, strings(&["B/x", "a/y", "a/z", "b/x"]));
}

#[test]
fn lexicographic_comparison() {
    assert!(str_le("a", "b"));
    assert!(str_le("a", "a"));
    assert!(str_le("a", "ab"));
    assert!(!str_le("ab", "a"));
    assert!(str_le("A", "a"));
}

#[test]
fn ascii_case_folding() {
    assert!(eq_ignore_ascii_case(".Clang-Format", ".clang-format"));
    assert!(!eq_ignore_ascii_case("clang", "clang-format"));
    assert!(!eq_ignore_ascii_case("a", "b"));
}

#[test]
fn path_segments() {
    assert_eq!(file_name_str("some/path/to/.clang-format"), ".clang-format");
    assert_eq!(file_name_str("lonely"), "lonely");
    assert_eq!(extension_str("style.clang-format"), Some("clang-format"));
    assert_eq!(extension_str(".clang-format"), None);
    assert_eq!(extension_str("noext"), None);
    assert_eq!(extension_str("a/b.tar.gz"), Some("gz"));
    assert_eq!(last_index_of("a/b/c", '/'), Some(3));
    assert_eq!(last_index_of("abc", '/'), None);
}

#[test]
fn hidden_entries() {
    assert!(is_hidden_entry(".git"));
    assert!(is_hidden_entry("repo/.git"));
    assert!(!is_hidden_entry("repo/src"));
    assert!(!is_hidden_entry("a/.."));
    assert!(is_hidden_entry(".."));
    assert!(!is_hidden_entry(""));
}

#[test]
fn joining_paths() {
    assert_eq!(join_path("a", "b/c"), "a/b/c".to_string());
    assert_eq!(join_path("a/", "b"), "a/b".to_string());
    assert_eq!(join_path("a", "/abs"), "/abs".to_string());
}

#[test]
fn prefix_and_descendant_tests() {
    assert!(str_starts_with("abcd", "ab"));
    assert!(!str_starts_with("ab", "abcd"));
    assert!(is_under("/r/a.cpp", "/r"));
    assert!(is_under("/r", "/r"));
    assert!(!is_under("/rr/a.cpp", "/r"));
    assert!(has_separator("a/b"));
    assert!(!has_separator("clang-format.exe"));
}

#[test]
fn configuration_errors_abort_early() {
    let cfg = Error::StyleConsistency { message: String::new() };
    assert!(cfg.is_configuration_error());
    let late = Error::CheckFailures { files: vec![] };
    assert!(!late.is_configuration_error());
    let per_file = Error::PerFileInvocation { path: String::new(), message: String::new() };
    assert!(!per_file.is_configuration_error());
}

#[test]
fn style_file_name_is_conventional() {
    assert_eq!(run_clang_format::style_file_name(), ".clang-format");
}
