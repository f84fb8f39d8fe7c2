use rsh::complete::{
    builtin_matches, is_first_word, path_candidate, sorted_names, split_prefix, variable_candidate,
    word_kind, word_start, WordKind,
};

#[test]
fn the_word_under_the_cursor_starts_after_the_last_space() {
    assert_eq!(word_start("cat fi", 6), 4);
    assert_eq!(word_start("ec", 2), 0);
    assert_eq!(word_start("echo  x", 6), 6);
    assert_eq!(word_start("é x", 4), 3);
}

#[test]
fn only_blanks_before_a_word_make_it_the_first() {
    assert!(is_first_word("  ls", 2));
    assert!(is_first_word("ls", 0));
    assert!(!is_first_word("cat f", 4));
}

#[test]
fn the_rule_is_positional_with_a_slash_and_a_dollar_overriding() {
    assert_eq!(word_kind("$HO", false), WordKind::Variable);
    assert_eq!(word_kind("ex", true), WordKind::Command);
    assert_eq!(word_kind("ex", false), WordKind::Path);
    assert_eq!(word_kind("./scr", true), WordKind::Path);
}

#[test]
fn a_path_prefix_splits_at_its_last_slash() {
    assert_eq!(split_prefix("/usr/bi"), ("/usr/".to_owned(), "bi".to_owned()));
    assert_eq!(split_prefix("notes"), (String::new(), "notes".to_owned()));
    assert_eq!(split_prefix("a/b/"), ("a/b/".to_owned(), String::new()));
}

#[test]
fn directories_are_offered_with_a_trailing_slash() {
    assert_eq!(path_candidate("/tmp/", "a-", "a-directory", true), Some("/tmp/a-directory/".to_owned()));
    assert_eq!(path_candidate("/tmp/", "a-", "a-file", false), Some("/tmp/a-file".to_owned()));
    assert_eq!(path_candidate("/tmp/", "a-", "other", false), None);
}

#[test]
fn hidden_files_stay_hidden_until_asked_for() {
    assert_eq!(path_candidate("", "", ".hidden", false), None);
    assert_eq!(path_candidate("", "", "visible", false), Some("visible".to_owned()));
    assert_eq!(path_candidate("", ".", ".hidden", false), Some(".hidden".to_owned()));
}

#[test]
fn a_dollar_completes_environment_variables() {
    assert_eq!(variable_candidate("RSH_COMP", "RSH_COMPLETION_TEST"), Some("$RSH_COMPLETION_TEST".to_owned()));
    assert_eq!(variable_candidate("HOME", "PATH"), None);
}

#[test]
fn builtins_are_offered_by_prefix_in_table_order() {
    assert_eq!(builtin_matches("jo"), ["jobs"]);
    assert_eq!(builtin_matches(""), ["cd", "exit", "jobs", "fg", "bg"]);
    assert!(builtin_matches("zz").is_empty());
}

#[test]
fn names_are_offered_sorted_and_once() {
    let names = vec!["ls".to_string(), "cd".into(), "lsblk".into(), "ls".into(), "écho".into(), "zcat".into()];
    assert_eq!(sorted_names(names), ["cd", "ls", "lsblk", "zcat", "écho"]);
    assert_eq!(sorted_names(Vec::new()), Vec::<String>::new());
}

#[test]
fn names_sort_as_strings_do() {
    let names = vec!["b".to_string(), "B".into(), "a1".into(), "a".into(), "_x".into()];
    let mut expected = names.clone();
    expected.sort();
    expected.dedup();
    assert_eq!(sorted_names(names), expected);
}
