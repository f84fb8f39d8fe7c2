//! What happened to a child, and what number the user sees.
//!
//! Processes are named by their pid and signals by their number, both as the
//! kernel reports them.

use vstd::prelude::*;
use crate::text::{dec_int, decimal};

verus! {

/// Reported when a command could not be found on `PATH`.
///
/// POSIX-conventional, and load-bearing: build systems and `command -v`
/// wrappers branch on exactly this value.
pub const EXIT_NOT_FOUND: i32 = 127;

/// Reported when a command was found but could not be executed.
pub const EXIT_NOT_EXECUTABLE: i32 = 126;

/// Base for statuses that report death by signal: the shell reports `128 + n`.
pub const EXIT_SIGNAL_BASE: i32 = 128;

/// The name `nix` gives a signal number, such as `SIGINT`, if the number is
/// a signal on this platform.
///
/// Calls `Signal::try_from` and then `Signal::as_str`. Which numbers are
/// signals, and which name each has, differ between platforms, so the
/// contract says only what holds everywhere: every name `as_str` returns
/// begins with `SIG`.
#[verifier::external_body]
fn signal_name(signo: i32) -> (r: Option<String>)
    ensures
        r matches Some(name) ==> name@.len() >= 3 && name@.take(3) == "SIG"@,
{
    match nix::sys::signal::Signal::try_from(signo) {
        Ok(signal) => Some(signal.as_str().to_owned()),
        Err(_) => None,
    }
}

/// What a signal is called in messages: its name, or its number for one
/// this platform does not know.
pub open spec fn signal_text_fits(signo: u8, text: Seq<char>) -> bool {
    ||| (text.len() >= 3 && text.take(3) == "SIG"@)
    ||| text == dec_int(signo as int)
}

/// `text` is what messages call signal `signo`, going by what `nix` was
/// asked: the name it gave for the number, or the number itself when it
/// gave none.
pub closed spec fn signal_named(signo: u8, text: Seq<char>) -> bool {
    exists|r: Option<String>|
        #[trigger] call_ensures(signal_name, (signo as i32,), r) && text == match r {
            Some(n) => n@,
            None => dec_int(signo as int),
        }
}

/// What messages call a signal is a name beginning with `SIG`, or its
/// number.
pub proof fn lemma_signal_named_fits(signo: u8, text: Seq<char>)
    requires
        signal_named(signo, text),
    ensures
        signal_text_fits(signo, text),
{
}

/// A signal as messages name it: `SIGINT` rather than 2.
pub fn signal_text(signo: u8) -> (s: String)
    ensures
        signal_named(signo, s@),
        signal_text_fits(signo, s@),
{
    let n = signo as i32;
    let r = signal_name(n);
    assert(call_ensures(signal_name, (n,), r));
    match r {
        Some(name) => name,
        None => decimal(signo as i64),
    }
}

/// How a child process ended.
#[derive(Debug, Clone, Copy, PartialEq, Eq, Structural)]
pub enum ExitStatus {
    /// The process called `exit(code)` or returned from `main`.
    Exited(i32),
    /// The process was killed by the signal with this number.
    Signaled(u8),
}

/// The status the shell reports as `$?`: the exit code, or `128 + n` for
/// death by signal `n`.
pub open spec fn code_spec(s: ExitStatus) -> int {
    match s {
        ExitStatus::Exited(code) => code as int,
        ExitStatus::Signaled(sig) => 128 + sig,
    }
}

impl ExitStatus {
    /// The status the shell reports as `$?`.
    ///
    /// Death by signal becomes `128 + signal`, as in every POSIX shell, so
    /// scripts that check for 130 (`128 + SIGINT`) work here too.
    pub fn code(self) -> (c: i32)
        ensures
            c == code_spec(self),
    {
        match self {
            ExitStatus::Exited(code) => code,
            ExitStatus::Signaled(sig) => EXIT_SIGNAL_BASE + sig as i32,
        }
    }

    /// How the process ended, in words: `exited with 3`, `killed by SIGINT`.
    pub fn text(self) -> (s: String)
        ensures
            match self {
                ExitStatus::Exited(code) => s@ == "exited with "@ + dec_int(code as int),
                ExitStatus::Signaled(sig) => exists|t: Seq<char>|
                    signal_named(sig, t) && s@ == "killed by "@ + t,
            },
    {
        match self {
            ExitStatus::Exited(code) => {
                let mut s = "exited with ".to_owned();
                s.push_str(decimal(code as i64).as_str());
                s
            },
            ExitStatus::Signaled(sig) => {
                let name = signal_text(sig);
                let mut s = "killed by ".to_owned();
                s.push_str(name.as_str());
                assert(s@ == "killed by "@ + name@);
                s
            },
        }
    }

    /// Whether the command reported success.
    pub fn success(self) -> (b: bool)
        ensures
            b == (self == ExitStatus::Exited(0)),
    {
        match self {
            ExitStatus::Exited(code) => code == 0,
            ExitStatus::Signaled(_) => false,
        }
    }

    /// Decode what `waitpid` reported.
    ///
    /// Returns `None` for statuses that are not a termination — a stop or a
    /// continue is a job-control event, and treating it as an exit would
    /// silently reap a suspended job.
    pub fn from_wait(status: WaitReport) -> (r: Option<ExitStatus>)
        ensures
            r == match status {
                WaitReport::Exited(_, code) => Some(ExitStatus::Exited(code)),
                WaitReport::Signaled(_, sig) => Some(ExitStatus::Signaled(sig)),
                _ => None::<ExitStatus>,
            },
    {
        match status {
            WaitReport::Exited(_, code) => Some(ExitStatus::Exited(code)),
            WaitReport::Signaled(_, sig) => Some(ExitStatus::Signaled(sig)),
            _ => None,
        }
    }
}

/// What `waitpid` said about a child, with pids and signals as numbers.
#[derive(Debug, Clone, Copy, PartialEq, Eq, Structural)]
pub enum WaitReport {
    /// The child exited with this code.
    Exited(i32, i32),
    /// The child was killed by this signal.
    Signaled(i32, u8),
    /// The child was stopped by this signal.
    Stopped(i32, u8),
    /// The child was resumed.
    Continued(i32),
    /// Nothing has happened yet (a non-blocking wait).
    StillAlive,
    /// Anything else `waitpid` can report, such as a ptrace event.
    Other,
}

/// What a child did, as reported by a non-blocking check.
#[derive(Debug, Clone, Copy, PartialEq, Eq, Structural)]
pub enum ChildEvent {
    /// It ended.
    Finished(i32, ExitStatus),
    /// It was suspended by this signal.
    Stopped(i32, u8),
    /// It was resumed.
    Continued(i32),
}

impl ChildEvent {
    /// Which process the event is about.
    pub fn pid(self) -> (p: i32)
        ensures
            p == match self {
                ChildEvent::Finished(pid, _) => pid,
                ChildEvent::Stopped(pid, _) => pid,
                ChildEvent::Continued(pid) => pid,
            },
    {
        match self {
            ChildEvent::Finished(pid, _) => pid,
            ChildEvent::Stopped(pid, _) => pid,
            ChildEvent::Continued(pid) => pid,
        }
    }

    /// The event a wait report describes: ends, stops and resumptions are
    /// events; nothing-yet and the rest are not.
    pub fn from_wait(status: WaitReport) -> (r: Option<ChildEvent>)
        ensures
            r == match status {
                WaitReport::Exited(pid, code) => Some(
                    ChildEvent::Finished(pid, ExitStatus::Exited(code)),
                ),
                WaitReport::Signaled(pid, sig) => Some(
                    ChildEvent::Finished(pid, ExitStatus::Signaled(sig)),
                ),
                WaitReport::Stopped(pid, sig) => Some(ChildEvent::Stopped(pid, sig)),
                WaitReport::Continued(pid) => Some(ChildEvent::Continued(pid)),
                _ => None::<ChildEvent>,
            },
    {
        match status {
            WaitReport::Exited(pid, code) => Some(ChildEvent::Finished(pid, ExitStatus::Exited(code))),
            WaitReport::Signaled(pid, sig) => Some(
                ChildEvent::Finished(pid, ExitStatus::Signaled(sig)),
            ),
            WaitReport::Stopped(pid, sig) => Some(ChildEvent::Stopped(pid, sig)),
            WaitReport::Continued(pid) => Some(ChildEvent::Continued(pid)),
            _ => None,
        }
    }
}

} // verus!
