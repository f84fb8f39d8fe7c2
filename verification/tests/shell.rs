use rsh::builtin::Builtin;
use rsh::shell::{after_line, exit_byte, route, target, Outcome, Route, Target};
use rsh::parse;
use rsh::shell::{source_text, underline, EXIT_SYNTAX};
use rsh::span::Span;

#[test]
fn refusals_underline_the_offending_characters() {
    let (first, second) = underline("echo a && b", Span::new(7, 9));
    assert_eq!(first, "  echo a && b");
    assert_eq!(second, "         ^^");
}

#[test]
fn carets_are_counted_in_characters() {
    let (_, second) = underline("é && x", Span::new(3, 5));
    assert_eq!(second, "    ^^");
}

#[test]
fn an_empty_span_still_gets_one_caret() {
    let (first, second) = underline("echo >   ", Span::new(6, 6));
    assert_eq!(first, "  echo >");
    assert_eq!(second, "        ^");
    // Past the end of the line the caret sits after the last character.
    let (_, second) = underline("ab", Span::new(9, 12));
    assert_eq!(second, "    ^");
}

#[test]
fn a_job_is_listed_as_it_was_typed() {
    let line = "  sleep 5   &  ";
    let pipeline = parse(line).unwrap().unwrap();
    assert_eq!(source_text(line, &pipeline), "sleep 5");
    let line = "cat f | grep x";
    let pipeline = parse(line).unwrap().unwrap();
    assert_eq!(source_text(line, &pipeline), "cat f | grep x");
}

#[test]
fn a_syntax_error_reports_status_two() {
    assert_eq!(EXIT_SYNTAX, 2);
}

#[test]
fn an_exit_with_stopped_jobs_is_held_back_once() {
    let mut warned = false;
    assert_eq!(after_line(Outcome::Exit(3), true, &mut warned), Outcome::Continue);
    assert!(warned);
    assert_eq!(after_line(Outcome::Exit(3), true, &mut warned), Outcome::Exit(3));
    assert!(!warned);
    assert_eq!(after_line(Outcome::Continue, true, &mut warned), Outcome::Continue);
    assert!(!warned);
    let mut warned = true;
    assert_eq!(after_line(Outcome::Continue, false, &mut warned), Outcome::Continue);
    assert!(!warned, "anything that gets through clears the warning");
}

#[test]
fn a_lone_foreground_builtin_runs_in_the_shell() {
    assert_eq!(route(1, false, Some("cd")), Route::InShell);
    assert_eq!(route(1, true, Some("cd")), Route::Job);
    assert_eq!(route(2, false, Some("cd")), Route::Job);
    assert_eq!(route(1, false, Some("ls")), Route::Job);
    assert_eq!(route(1, false, None), Route::Job);
}

#[test]
fn what_a_command_names() {
    assert_eq!(target(&[]), Target::Nothing);
    assert_eq!(target(&["exit".to_owned(), "3".to_owned()]), Target::Builtin(Builtin::Exit));
    assert_eq!(target(&["ls".to_owned()]), Target::Program);
}

#[test]
fn exit_status_is_truncated_to_a_byte_like_every_shell() {
    assert_eq!(exit_byte(0), 0);
    assert_eq!(exit_byte(300), 44);
    assert_eq!(exit_byte(-1), 255);
    assert_eq!(exit_byte(-256), 0);
    assert_eq!(exit_byte(i32::MIN), 0);
    assert_eq!(exit_byte(i32::MAX), 255);
}
