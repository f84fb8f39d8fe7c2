use rsh::expand::MapEnv;
use rsh::parse;
use rsh::redirect::{plan, plan_step, FileMode, OpenError, RedirectError, Step};
use rsh::span::Span;

/// Whether a descriptor is open, for a shell that has only the standard
/// three: 9 is closed, as it is in a shell that opened nothing more.
fn standard_only(fd: &i32) -> bool {
    (0..=2).contains(fd)
}

fn plan_line(input: &str, env: &MapEnv) -> (Vec<Step>, Option<RedirectError>) {
    let pipeline = parse(input)
        .expect("expected input to parse")
        .expect("expected a command");
    plan(&pipeline.commands()[0], env, &|fd: i32| standard_only(&fd))
}

#[test]
fn a_command_without_redirections_plans_nothing() {
    assert_eq!(plan_line("echo hi", &MapEnv::new()), (vec![], None));
}

#[test]
fn each_operator_opens_its_file_its_own_way() {
    let (steps, error) = plan_line("cat < in > out 2>> log", &MapEnv::new());
    assert_eq!(error, None);
    assert_eq!(
        steps,
        [
            Step::Open { fd: 0, path: "in".into(), mode: FileMode::Read, span: Span::new(4, 8) },
            Step::Open { fd: 1, path: "out".into(), mode: FileMode::Truncate, span: Span::new(9, 14) },
            Step::Open { fd: 2, path: "log".into(), mode: FileMode::Append, span: Span::new(15, 22) },
        ]
    );
}

#[test]
fn the_target_is_expanded_before_anything_is_opened() {
    let env = MapEnv::new().with("OUT", "/tmp/x");
    let (steps, error) = plan_line("echo hi > $OUT", &env);
    assert_eq!(error, None);
    assert!(matches!(&steps[..], [Step::Open { fd: 1, path, .. }] if path == "/tmp/x"));
}

#[test]
fn a_target_that_expands_to_several_words_is_ambiguous() {
    let env = MapEnv::new().with("FILES", "a b");
    let (_, error) = plan_line("echo hi > $FILES", &env);
    assert!(matches!(error, Some(RedirectError::Ambiguous { fields: 2, .. })));
}

#[test]
fn a_target_that_expands_to_nothing_is_ambiguous_too() {
    let (_, error) = plan_line("echo hi > $UNSET", &MapEnv::new());
    assert!(matches!(error, Some(RedirectError::Ambiguous { fields: 0, .. })));
}

#[test]
fn duplicating_a_standard_descriptor_is_fine() {
    let (steps, error) = plan_line("echo hi 2>&1", &MapEnv::new());
    assert_eq!(error, None);
    assert!(matches!(&steps[..], [Step::Duplicate { fd: 2, source: 1, .. }]));
}

#[test]
fn duplicating_a_closed_descriptor_is_caught_in_the_parent() {
    let (steps, error) = plan_line("echo hi 2>&9", &MapEnv::new());
    assert!(steps.is_empty());
    assert!(matches!(error, Some(RedirectError::DescriptorNotOpen { fd: 9, .. })));
}

#[test]
fn errors_carry_the_span_of_the_redirection() {
    let (_, error) = plan_line("echo hi 2>&9", &MapEnv::new());
    assert_eq!(error.expect("expected error").span().slice("echo hi 2>&9"), Some("2>&9"));
}

#[test]
fn only_the_descriptor_to_be_copied_is_asked_about() {
    let pipeline = parse("cat < in 2>&7").unwrap().unwrap();
    let (steps, error) = plan(&pipeline.commands()[0], &MapEnv::new(), &|fd: i32| fd == 7);
    assert_eq!(error, None);
    assert!(matches!(&steps[..], [Step::Open { fd: 0, .. }, Step::Duplicate { fd: 2, source: 7, .. }]));
}

#[test]
fn a_non_numeric_duplication_target_is_reported() {
    let (_, error) = plan_line("echo hi 2>&stdout", &MapEnv::new());
    assert!(matches!(error, Some(RedirectError::NotADescriptor { .. })));
    assert_eq!(error.unwrap().message(), "`stdout`: not a file descriptor number");
}

#[test]
fn closing_a_descriptor_is_not_supported_yet() {
    let (_, error) = plan_line("echo hi 2>&-", &MapEnv::new());
    assert!(matches!(error, Some(RedirectError::CloseUnsupported { .. })));
}

#[test]
fn a_refused_duplication_carries_the_span_of_the_redirection() {
    let (_, error) = plan_line("echo hi 2>&x", &MapEnv::new());
    assert_eq!(error.unwrap().span(), Span::new(8, 12));
}

#[test]
fn steps_before_a_failure_are_kept() {
    let (steps, error) = plan_line("echo > first 2>&x > third", &MapEnv::new());
    assert_eq!(steps.len(), 1);
    assert!(matches!(error, Some(RedirectError::NotADescriptor { .. })));
}

#[test]
fn redirect_errors_read_as_the_shell_prints_them() {
    let span = Span::new(0, 1);
    assert_eq!(
        RedirectError::Ambiguous { fields: 2, span }.message(),
        "ambiguous redirect: target expanded to 2 words"
    );
    assert_eq!(RedirectError::DescriptorNotOpen { fd: 9, span }.message(), "9: bad file descriptor");
    assert_eq!(
        RedirectError::Open { path: "/x".into(), error: OpenError::Os(2), span }.message(),
        "/x: No such file or directory"
    );
    assert_eq!(
        RedirectError::Open { path: "/x".into(), error: OpenError::Other("odd".into()), span }.message(),
        "/x: odd"
    );
    assert_eq!(
        RedirectError::CloseUnsupported { span }.message(),
        "closing a descriptor with `>&-` is not supported yet"
    );
}

#[test]
fn one_step_at_a_time_sees_what_the_earlier_steps_opened() {
    let pipeline = parse("cmd 3> out 4>&3").unwrap().unwrap();
    let redirects = pipeline.commands()[0].redirects();
    let env = MapEnv::new();
    let first = plan_step(&redirects[0], &env, &|fd: i32| standard_only(&fd));
    assert!(matches!(first, Ok(Step::Open { fd: 3, ref path, mode: FileMode::Truncate, .. }) if path == "out"));
    // Carrying out the first step leaves descriptor 3 open.
    let second = plan_step(&redirects[1], &env, &|fd: i32| fd <= 3);
    assert!(matches!(second, Ok(Step::Duplicate { fd: 4, source: 3, .. })));
}

#[test]
fn a_step_reports_its_own_failure() {
    let pipeline = parse("echo > $TWO").unwrap().unwrap();
    let env = MapEnv::new().with("TWO", "a b");
    let step = plan_step(&pipeline.commands()[0].redirects()[0], &env, &|fd: i32| standard_only(&fd));
    assert!(matches!(step, Err(RedirectError::Ambiguous { fields: 2, .. })));
}
