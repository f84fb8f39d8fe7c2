use rsh::path::{candidate_of, classify};
use rsh::path::{
    candidates, closest, edit_distance, pick_candidate, resolve, split_path_list, tolerance,
    Candidate, ResolveError,
};

#[test]
fn edit_distance_counts_single_character_changes() {
    assert_eq!(edit_distance("ls", "ls"), 0);
    assert_eq!(
        edit_distance("sl", "ls"),
        2,
        "a transposition is two edits here"
    );
    assert_eq!(edit_distance("gti", "git"), 2);
    assert_eq!(edit_distance("grpe", "grep"), 2);
    assert_eq!(edit_distance("echo", "echoo"), 1);
    assert_eq!(edit_distance("", "abc"), 3);
}

#[test]
fn an_unset_path_finds_nothing_by_bare_name() {
    assert_eq!(
        resolve("sh", None),
        Err(ResolveError::NotFound {
            program: "sh".into()
        })
    );
}

#[test]
fn a_system_shell_is_found_on_path() {
    assert_eq!(resolve("sh", Some("/no/such/dir:/bin")), Ok("/bin/sh".to_owned()));
}

#[test]
fn a_name_with_a_slash_is_used_as_given() {
    assert_eq!(resolve("/bin/sh", Some("")), Ok("/bin/sh".to_owned()));
    assert_eq!(
        resolve("/no/such/program", None),
        Err(ResolveError::NotFound { program: "/no/such/program".into() })
    );
    // A directory is never something to execute.
    assert_eq!(resolve("/bin", None), Err(ResolveError::NotFound { program: "/bin".into() }));
}

#[test]
fn a_file_without_execute_permission_is_reported_as_such() {
    let err = resolve("passwd", Some("/etc")).unwrap_err();
    assert_eq!(err, ResolveError::NotExecutable { path: "/etc/passwd".into() });
    assert_eq!(err.status(), 126);
    assert_eq!(err.message(), "/etc/passwd: permission denied");
}

#[test]
fn resolve_errors_read_as_the_shell_prints_them() {
    let err = ResolveError::NotFound { program: "frob".into() };
    assert_eq!(err.message(), "frob: command not found");
    assert_eq!(err.status(), 127);
}

#[test]
fn path_lists_split_at_every_colon() {
    assert_eq!(split_path_list("/bin:/usr/bin"), ["/bin", "/usr/bin"]);
    assert_eq!(split_path_list(":/bin:"), ["", "/bin", ""]);
    assert_eq!(split_path_list(""), [""]);
}

#[test]
fn an_empty_entry_means_the_current_directory() {
    assert_eq!(candidates("ls", Some(":/bin")), ["./ls", "/bin/ls"]);
    assert_eq!(candidates("ls", None), ["./ls"]);
}

#[test]
fn the_first_executable_candidate_wins_and_an_unusable_one_is_remembered() {
    let cands = vec!["/a/x".to_owned(), "/b/x".to_owned(), "/c/x".to_owned()];
    let classes = vec![Candidate::Missing, Candidate::NotExecutable, Candidate::Executable];
    assert_eq!(pick_candidate("x", &cands, &classes), Ok("/c/x".to_owned()));
    let classes = vec![Candidate::NotExecutable, Candidate::Missing, Candidate::NotExecutable];
    assert_eq!(
        pick_candidate("x", &cands, &classes),
        Err(ResolveError::NotExecutable { path: "/a/x".into() })
    );
    let classes = vec![Candidate::Missing, Candidate::Missing, Candidate::Missing];
    assert_eq!(
        pick_candidate("x", &cands, &classes),
        Err(ResolveError::NotFound { program: "x".into() })
    );
}

fn names(list: &[&str]) -> Vec<String> {
    list.iter().map(|s| s.to_string()).collect()
}

#[test]
fn a_near_miss_is_suggested() {
    assert_eq!(closest("grepp", &names(&["grep"])), Some("grep".to_owned()));
}

#[test]
fn something_wildly_different_is_not_suggested() {
    assert_eq!(closest("kubectl", &names(&["grep"])), None);
}

#[test]
fn a_name_is_never_suggested_back_to_itself() {
    assert_eq!(closest("tool", &names(&["tool"])), None);
}

#[test]
fn very_short_names_are_never_guessed_at() {
    assert_eq!(closest("sl", &names(&["ls"])), None);
    assert_eq!(tolerance("sl"), None);
    assert_eq!(tolerance("grepp"), Some(1));
    assert_eq!(tolerance("kubectl"), Some(2));
}

#[test]
fn the_closest_candidate_wins() {
    assert_eq!(closest("carg0", &names(&["carpet", "cargo"])), Some("cargo".to_owned()));
    // Ties go to the first name seen.
    assert_eq!(closest("cat", &names(&["bat", "cab"])), Some("bat".to_owned()));
}

#[test]
fn what_a_path_is_follows_from_its_mode() {
    assert_eq!(candidate_of(None, true), Candidate::Missing);
    assert_eq!(candidate_of(Some(0o040755), true), Candidate::Missing);
    assert_eq!(candidate_of(Some(0o100755), true), Candidate::Executable);
    assert_eq!(candidate_of(Some(0o100644), false), Candidate::NotExecutable);
    assert_eq!(classify("/bin/sh"), Candidate::Executable);
    assert_eq!(classify("/no/such/file"), Candidate::Missing);
    assert_eq!(classify("/"), Candidate::Missing);
}

#[test]
fn a_suggestion_is_never_further_than_the_tolerance() {
    assert_eq!(closest("grpe", &names(&["grep"])), None);
    assert_eq!(closest("grpe", &names(&["grep", "gripe"])), Some("gripe".to_owned()));
    assert_eq!(closest("catt", &names(&["cat", "catt"])), Some("cat".to_owned()));
}
