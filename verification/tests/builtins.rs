use rsh::builtin::{
    background_line, cd_target, exit, exit_complaint, format_job_line, jobs_listing, select,
    settle, stopped_line, Builtin, EXIT_STOPPED, EXIT_USAGE,
};
use rsh::job::JobId;
use rsh::shell::{confirm_exit, Outcome};
use rsh::status::{ChildEvent, ExitStatus};
use rsh::table::JobTable;

fn args(list: &[&str]) -> Vec<String> {
    list.iter().map(|s| s.to_string()).collect()
}

#[test]
fn builtins_are_recognised_by_exact_name() {
    assert_eq!(Builtin::lookup("cd"), Some(Builtin::Cd));
    assert_eq!(Builtin::lookup("exit"), Some(Builtin::Exit));
    assert_eq!(Builtin::lookup("echo"), None);
    assert_eq!(Builtin::lookup("CD"), None);
    assert_eq!(Builtin::lookup(""), None);
    assert_eq!(Builtin::lookup("jobs"), Some(Builtin::Jobs));
    assert_eq!(Builtin::lookup("fg"), Some(Builtin::Fg));
    assert_eq!(Builtin::lookup("bg"), Some(Builtin::Bg));
}

#[test]
fn exit_without_an_argument_carries_the_last_status() {
    assert_eq!(exit(&[], 7), (Outcome::Exit(7), 7));
    assert_eq!(exit(&[], 0), (Outcome::Exit(0), 0));
}

#[test]
fn exit_takes_an_explicit_status() {
    assert_eq!(exit(&["3".to_owned()], 0), (Outcome::Exit(3), 3));
}

#[test]
fn exit_with_a_non_numeric_argument_still_exits() {
    assert_eq!(exit(&["banana".to_owned()], 0), (Outcome::Exit(2), 2));
}

#[test]
fn exit_with_several_arguments_does_not_exit() {
    let args = ["1".to_owned(), "2".to_owned()];
    assert_eq!(exit(&args, 0), (Outcome::Continue, EXIT_USAGE));
}

#[test]
fn exit_accepts_what_an_integer_parse_accepts() {
    assert_eq!(exit(&args(&["-1"]), 0), (Outcome::Exit(-1), -1));
    assert_eq!(exit(&args(&["+4"]), 0), (Outcome::Exit(4), 4));
    assert_eq!(exit(&args(&["2147483648"]), 0), (Outcome::Exit(2), 2));
    assert_eq!(exit(&args(&[""]), 0), (Outcome::Exit(2), 2));
}

#[test]
fn exit_complains_only_when_something_is_wrong() {
    assert_eq!(exit_complaint(&args(&[])), None);
    assert_eq!(exit_complaint(&args(&["3"])), None);
    assert_eq!(
        exit_complaint(&args(&["banana"])),
        Some("rsh: exit: banana: numeric argument required".to_owned())
    );
    assert_eq!(
        exit_complaint(&args(&["1", "2"])),
        Some("rsh: exit: too many arguments".to_owned())
    );
}

#[test]
fn cd_goes_home_back_or_where_it_is_told() {
    assert_eq!(cd_target(&args(&[]), Some("/home/u"), None), Ok(("/home/u".to_owned(), false)));
    assert_eq!(cd_target(&args(&["~"]), Some("/home/u"), None), Ok(("/home/u".to_owned(), false)));
    assert_eq!(cd_target(&args(&["-"]), None, Some("/tmp")), Ok(("/tmp".to_owned(), true)));
    assert_eq!(cd_target(&args(&["src"]), None, None), Ok(("src".to_owned(), false)));
    assert_eq!(cd_target(&args(&[]), None, None), Err("rsh: cd: HOME not set".to_owned()));
    assert_eq!(cd_target(&args(&["-"]), None, None), Err("rsh: cd: OLDPWD not set".to_owned()));
    assert_eq!(
        cd_target(&args(&["a", "b"]), None, None),
        Err("rsh: cd: too many arguments".to_owned())
    );
}

#[test]
fn job_lines_are_laid_out_in_columns() {
    assert_eq!(
        format_job_line(JobId(1), '+', "Running", "sleep 30"),
        "[1]+  Running                 sleep 30"
    );
    assert_eq!(stopped_line(JobId(2), "vim"), "\n[2]+  Stopped                 vim");
    assert_eq!(background_line(JobId(3), "sleep 9"), "[3]+ sleep 9 &");
}

fn table_with_two() -> JobTable {
    let mut table = JobTable::new();
    table.add(100, vec![100], "sleep 30".to_owned());
    table.add(200, vec![200], "vim notes".to_owned());
    table
}

#[test]
fn the_jobs_listing_has_a_line_per_job() {
    let table = table_with_two();
    assert_eq!(
        jobs_listing(&table),
        [
            "[1]-  Running                 sleep 30",
            "[2]+  Running                 vim notes"
        ]
    );
}

#[test]
fn fg_and_bg_select_a_live_job() {
    let mut table = table_with_two();
    assert_eq!(select(&args(&[]), &table, "fg"), Ok((JobId(2), 200, "vim notes".to_owned())));
    assert_eq!(select(&args(&["%1"]), &table, "bg"), Ok((JobId(1), 100, "sleep 30".to_owned())));
    assert_eq!(select(&args(&["%7"]), &table, "fg"), Err("rsh: fg: no such job".to_owned()));
    assert_eq!(
        select(&args(&["1", "2"]), &table, "fg"),
        Err("rsh: fg: too many arguments".to_owned())
    );
    assert_eq!(
        select(&args(&["%x"]), &table, "fg"),
        Err("rsh: fg: %x: no such job".to_owned())
    );
    table.apply(&[ChildEvent::Finished(100, ExitStatus::Exited(0))]);
    assert_eq!(
        select(&args(&["%1"]), &table, "fg"),
        Err("rsh: fg: job 1 has finished".to_owned())
    );
}

#[test]
fn waiting_ends_when_the_job_stops_or_finishes() {
    let mut table = table_with_two();
    assert_eq!(settle(&mut table, JobId(1)), None);
    table.apply(&[ChildEvent::Stopped(100, 20)]);
    assert_eq!(settle(&mut table, JobId(1)), Some(EXIT_STOPPED));
    table.apply(&[ChildEvent::Finished(200, ExitStatus::Signaled(2))]);
    assert_eq!(settle(&mut table, JobId(2)), Some(130));
    // A job the table no longer knows is over.
    assert_eq!(settle(&mut table, JobId(9)), Some(0));
}

#[test]
fn exiting_with_a_stopped_job_warns_once() {
    let mut warned = false;
    assert!(!confirm_exit(true, &mut warned));
    assert!(warned);
    assert!(confirm_exit(true, &mut warned));
    let mut warned = false;
    assert!(confirm_exit(false, &mut warned));
}
