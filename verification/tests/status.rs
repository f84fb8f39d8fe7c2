use rsh::job::killed_text;
use rsh::status::{signal_text, ChildEvent, ExitStatus, WaitReport};

const SIGINT: u8 = 2;
const SIGKILL: u8 = 9;
const SIGTSTP: u8 = 20;

#[test]
fn exit_codes_pass_through() {
    assert_eq!(ExitStatus::Exited(0).code(), 0);
    assert_eq!(ExitStatus::Exited(42).code(), 42);
    assert!(ExitStatus::Exited(0).success());
    assert!(!ExitStatus::Exited(1).success());
}

#[test]
fn signals_report_as_128_plus_signal() {
    assert_eq!(ExitStatus::Signaled(SIGINT).code(), 130);
    assert_eq!(ExitStatus::Signaled(SIGKILL).code(), 137);
    assert!(!ExitStatus::Signaled(SIGINT).success());
}

#[test]
fn stop_and_continue_are_not_terminations() {
    let pid = 1234;
    assert_eq!(
        ExitStatus::from_wait(WaitReport::Exited(pid, 3)),
        Some(ExitStatus::Exited(3))
    );
    assert_eq!(ExitStatus::from_wait(WaitReport::Stopped(pid, SIGTSTP)), None);
    assert_eq!(
        ExitStatus::from_wait(WaitReport::Signaled(pid, SIGKILL)),
        Some(ExitStatus::Signaled(SIGKILL))
    );
    assert_eq!(ExitStatus::from_wait(WaitReport::Continued(pid)), None);
}

#[test]
fn wait_reports_become_child_events() {
    assert_eq!(
        ChildEvent::from_wait(WaitReport::Exited(7, 1)),
        Some(ChildEvent::Finished(7, ExitStatus::Exited(1)))
    );
    assert_eq!(
        ChildEvent::from_wait(WaitReport::Stopped(7, SIGTSTP)),
        Some(ChildEvent::Stopped(7, SIGTSTP))
    );
    assert_eq!(ChildEvent::from_wait(WaitReport::Continued(7)), Some(ChildEvent::Continued(7)));
    assert_eq!(ChildEvent::from_wait(WaitReport::StillAlive), None);
    assert_eq!(ChildEvent::from_wait(WaitReport::Other), None);
    assert_eq!(ChildEvent::Continued(8).pid(), 8);
}

#[test]
fn signals_are_named_where_the_platform_knows_them() {
    assert_eq!(signal_text(SIGINT), "SIGINT");
    assert_eq!(signal_text(SIGKILL), "SIGKILL");
    assert_eq!(signal_text(200), "200");
    assert_eq!(killed_text("SIGTERM"), "Killed (SIGTERM)");
}

#[test]
fn a_status_reads_as_words() {
    assert_eq!(ExitStatus::Exited(3).text(), "exited with 3");
    assert_eq!(ExitStatus::Exited(-1).text(), "exited with -1");
    assert_eq!(ExitStatus::Signaled(SIGINT).text(), "killed by SIGINT");
}
