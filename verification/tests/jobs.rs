use rsh::job::{Job, JobId, JobState};
use rsh::jobspec::{BadJobSpec, JobSpec};
use rsh::status::{ChildEvent, ExitStatus};
use rsh::table::JobTable;

const SIGTSTP: u8 = 20;

// ---- specifiers ---------------------------------------------------------------

#[test]
fn no_argument_means_the_current_job() {
    assert_eq!(JobSpec::parse(None), Ok(JobSpec::Current));
}

#[test]
fn percent_forms_are_understood() {
    assert_eq!(JobSpec::parse(Some("%1")), Ok(JobSpec::Id(JobId(1))));
    assert_eq!(JobSpec::parse(Some("%%")), Ok(JobSpec::Current));
    assert_eq!(JobSpec::parse(Some("%+")), Ok(JobSpec::Current));
    assert_eq!(JobSpec::parse(Some("%-")), Ok(JobSpec::Previous));
}

#[test]
fn a_bare_number_works_too() {
    assert_eq!(JobSpec::parse(Some("2")), Ok(JobSpec::Id(JobId(2))));
}

#[test]
fn anything_else_is_reported() {
    assert_eq!(
        JobSpec::parse(Some("%vim")),
        Err(BadJobSpec {
            text: "%vim".to_owned()
        })
    );
}

#[test]
fn a_bad_specifier_names_itself() {
    let err = JobSpec::parse(Some("x")).unwrap_err();
    assert!(err.message().contains("x"));
    assert_eq!(JobSpec::parse(Some("%")), Ok(JobSpec::Current));
    assert_eq!(JobSpec::parse(Some("")), Ok(JobSpec::Current));
    assert!(JobSpec::parse(Some("%-1")).is_err());
}

// ---- one job ------------------------------------------------------------------

fn job() -> Job {
    Job::new(JobId(1), 100, vec![100, 101], "cat | grep x".to_owned())
}

#[test]
fn a_job_is_not_done_until_every_stage_is() {
    let mut job = job();
    assert_eq!(job.state(), JobState::Running);

    job.finished(100, ExitStatus::Exited(0));
    assert_eq!(job.state(), JobState::Running, "one stage left");

    job.finished(101, ExitStatus::Exited(3));
    assert_eq!(job.state(), JobState::Done(ExitStatus::Exited(3)));
}

#[test]
fn the_jobs_status_is_the_last_stages() {
    let mut job = job();
    job.finished(100, ExitStatus::Exited(1));
    job.finished(101, ExitStatus::Exited(0));
    assert_eq!(job.exit_status(), Some(ExitStatus::Exited(0)));
}

#[test]
fn stopping_and_resuming_move_between_states() {
    let mut job = job();
    job.stopped();
    assert_eq!(job.state(), JobState::Stopped);
    job.resumed();
    assert_eq!(job.state(), JobState::Running);
}

#[test]
fn a_finished_job_cannot_be_stopped_or_resumed() {
    let mut job = job();
    job.finished(100, ExitStatus::Exited(0));
    job.finished(101, ExitStatus::Exited(0));

    job.stopped();
    assert_eq!(job.state(), JobState::Done(ExitStatus::Exited(0)));
    job.resumed();
    assert_eq!(job.state(), JobState::Done(ExitStatus::Exited(0)));
}

#[test]
fn only_live_processes_are_signalled() {
    let mut job = job();
    job.finished(100, ExitStatus::Exited(0));
    assert_eq!(job.pids(), [101]);
}

#[test]
fn states_describe_themselves_the_way_jobs_prints_them() {
    assert_eq!(JobState::Running.describe(), "Running");
    assert_eq!(JobState::Stopped.describe(), "Stopped");
    assert_eq!(JobState::Done(ExitStatus::Exited(0)).describe(), "Done");
    assert_eq!(JobState::Done(ExitStatus::Exited(2)).describe(), "Exit 2");
    assert_eq!(JobState::Done(ExitStatus::Signaled(9)).describe(), "Killed (SIGKILL)");
}

#[test]
fn a_job_knows_its_processes() {
    let job = job();
    assert!(job.contains(101));
    assert!(!job.contains(102));
    assert_eq!(job.pgid(), 100);
    assert_eq!(job.command(), "cat | grep x");
    assert_eq!(job.id().text(), "1");
    assert_eq!(job.exit_status(), None);
}

// ---- the table ----------------------------------------------------------------

fn table_with_two() -> JobTable {
    let mut table = JobTable::new();
    table.add(100, vec![100], "sleep 30".to_owned());
    table.add(200, vec![200], "vim notes".to_owned());
    table
}

#[test]
fn jobs_are_numbered_from_one() {
    let table = table_with_two();
    let ids: Vec<_> = table.iter().map(|job| job.id()).collect();
    assert_eq!(ids, [JobId(1), JobId(2)]);
}

#[test]
fn the_newest_job_becomes_current_and_the_old_one_previous() {
    let table = table_with_two();
    assert_eq!(table.current(), Some(JobId(2)));
    assert_eq!(table.marker(JobId(2)), '+');
    assert_eq!(table.marker(JobId(1)), '-');
}

#[test]
fn specifiers_resolve_to_the_right_job() {
    let table = table_with_two();
    assert_eq!(table.find(JobSpec::Current).unwrap().id(), JobId(2));
    assert_eq!(table.find(JobSpec::Previous).unwrap().id(), JobId(1));
    assert_eq!(table.find(JobSpec::Id(JobId(1))).unwrap().id(), JobId(1));
    assert!(table.find(JobSpec::Id(JobId(9))).is_none());
}

#[test]
fn numbers_are_reused_once_a_job_is_gone() {
    let mut table = table_with_two();
    table.apply(&[ChildEvent::Finished(100, ExitStatus::Exited(0))]);
    table.take_reportable();
    table.forget_finished();

    let id = table.add(300, vec![300], "cat".to_owned());
    assert_eq!(id, JobId(1), "the freed number should come back");
}

#[test]
fn a_finished_job_stops_being_current() {
    let mut table = table_with_two();
    table.apply(&[ChildEvent::Finished(200, ExitStatus::Exited(0))]);
    table.take_reportable();
    table.forget_finished();

    assert_ne!(table.current(), Some(JobId(2)));
    assert!(table.find(JobSpec::Current).is_none() || table.current() == Some(JobId(1)));
}

#[test]
fn a_state_change_is_reported_once() {
    let mut table = table_with_two();
    table.apply(&[ChildEvent::Stopped(100, SIGTSTP)]);

    assert_eq!(table.take_reportable().len(), 1);
    assert!(table.take_reportable().is_empty(), "reported twice");
}

#[test]
fn resuming_makes_the_job_reportable_again() {
    let mut table = table_with_two();
    table.apply(&[ChildEvent::Stopped(100, SIGTSTP)]);
    table.take_reportable();

    table.apply(&[ChildEvent::Continued(100)]);
    assert_eq!(
        table.find(JobSpec::Id(JobId(1))).unwrap().state(),
        JobState::Running
    );
}

#[test]
fn events_for_untracked_children_are_ignored() {
    let mut table = table_with_two();
    table.apply(&[ChildEvent::Finished(999, ExitStatus::Exited(0))]);
    assert_eq!(table.iter().count(), 2);
}

#[test]
fn a_stopped_job_is_noticed_and_resumed() {
    let mut table = table_with_two();
    assert!(!table.has_stopped());
    assert!(table.has_live());
    table.apply(&[ChildEvent::Stopped(200, SIGTSTP)]);
    assert!(table.has_stopped());
    table.resume(JobSpec::Id(JobId(2)));
    assert!(!table.has_stopped());
    assert_eq!(table.find_index(JobSpec::Id(JobId(2))), Some(1));
}

#[test]
fn making_a_job_current_moves_the_other_to_previous() {
    let mut table = table_with_two();
    table.make_current(JobId(1));
    assert_eq!(table.current(), Some(JobId(1)));
    assert_eq!(table.marker(JobId(2)), '-');
    assert_eq!(table.marker(JobId(1)), '+');
}

#[test]
fn a_job_suspended_in_the_foreground_is_stopped_and_already_seen() {
    let mut table = JobTable::new();
    let id = table.add(100, vec![100], "vim".to_owned());
    table.suspend(JobSpec::Id(id));
    assert_eq!(table.find(JobSpec::Id(id)).unwrap().state(), JobState::Stopped);
    assert!(table.take_reportable().is_empty());
    assert!(table.has_stopped());
}
