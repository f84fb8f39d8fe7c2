use rsh::pipeline::{pipe_links, reaped_status, PipelineError, SpawnError, StageOutcome, Tally};
use rsh::status::ExitStatus;

#[test]
fn each_stage_reads_the_pipe_before_it_and_writes_the_one_after() {
    assert_eq!(pipe_links(0, 1), (None, None));
    assert_eq!(pipe_links(0, 3), (None, Some(0)));
    assert_eq!(pipe_links(1, 3), (Some(0), Some(1)));
    assert_eq!(pipe_links(2, 3), (Some(1), None));
}

#[test]
fn the_pipeline_status_is_the_last_stages() {
    let mut tally = Tally::new();
    tally.record(StageOutcome::Finished(ExitStatus::Exited(1)));
    tally.record(StageOutcome::Finished(ExitStatus::Exited(0)));
    assert_eq!(tally.result(), 0);
    assert!(!tally.interrupted());
}

#[test]
fn a_stage_that_could_not_start_reports_its_own_status() {
    let mut tally = Tally::new();
    tally.record(StageOutcome::Finished(ExitStatus::Exited(0)));
    tally.record(StageOutcome::Failed(127));
    assert_eq!(tally.result(), 127);
}

#[test]
fn a_signal_in_the_last_stage_reports_128_plus_the_signal() {
    let mut tally = Tally::new();
    tally.record(StageOutcome::Finished(ExitStatus::Exited(0)));
    tally.record(StageOutcome::Finished(ExitStatus::Signaled(2)));
    assert_eq!(tally.result(), 130);
    assert!(tally.interrupted());
}

#[test]
fn a_stopped_stage_stops_the_waiting() {
    let mut tally = Tally::new();
    assert!(tally.waiting());
    tally.record(StageOutcome::Stopped);
    assert!(!tally.waiting());
    tally.record(StageOutcome::Finished(ExitStatus::Exited(5)));
    assert_eq!(tally.result(), 148);
    assert!(!tally.interrupted());
}

#[test]
fn a_lost_stage_reports_126() {
    let mut tally = Tally::new();
    tally.record(StageOutcome::Lost);
    assert_eq!(tally.result(), 126);
}

#[test]
fn reaped_stages_report_the_last_status() {
    assert_eq!(reaped_status(&[]), 0);
    assert_eq!(reaped_status(&[1, 2, 3]), 3);
}

#[test]
fn spawn_failures_say_what_went_wrong() {
    assert_eq!(
        SpawnError::InteriorNul { what: "argument".into() }.message(),
        "argument contains a NUL byte"
    );
    assert!(SpawnError::Fork(11).message().starts_with("fork failed: "));
    assert!(SpawnError::Wait(10).message().starts_with("wait failed: "));
    assert!(SpawnError::Pipe(24).message().starts_with("cannot create pipe: "));
    assert_eq!(
        PipelineError::Builtin("cd".into()).message(),
        "`cd` is a shell builtin and cannot be a job yet"
    );
}

#[test]
fn false_then_true_succeeds() {
    let mut tally = Tally::new();
    for code in [1, 1, 0] {
        tally.record(StageOutcome::Finished(ExitStatus::Exited(code)));
    }
    assert_eq!(tally.result(), 0);
}

#[test]
fn a_failed_system_call_names_its_errno() {
    assert!(SpawnError::Fork(11).message().starts_with("fork failed: EAGAIN: "));
    assert_eq!(
        SpawnError::Pipe(24).message(),
        "cannot create pipe: EMFILE: Too many open files"
    );
}
