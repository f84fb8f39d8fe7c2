//! One job: a pipeline the shell is keeping track of.
//!
//! Processes are named by pid, as plain numbers.

use vstd::prelude::*;
use crate::status::{signal_named, signal_text, ExitStatus};
use crate::text::{dec_int, dec_nat, decimal, push_decimal};

verus! {

/// The number a user sees in `[1]`.
///
/// Small and reused: when job 1 finishes, the next job started may be 1
/// again. Job numbers are for typing, not for identity.
#[derive(Debug, Clone, Copy, PartialEq, Eq, PartialOrd, Ord, Hash, Structural)]
pub struct JobId(pub usize);

impl JobId {
    /// The number as the user types it.
    pub fn text(self) -> (s: String)
        ensures
            s@ == dec_nat(self.0 as nat),
    {
        let mut s = String::new();
        push_decimal(&mut s, self.0 as u64);
        s
    }
}

/// A `nix` terminal settings record, carried through untouched.
#[verifier::external_type_specification]
#[verifier::external_body]
pub struct ExTermios(nix::sys::termios::Termios);

/// `Termios::clone`, which copies the record; nothing about the copy is
/// needed here.
pub assume_specification[ <nix::sys::termios::Termios as Clone>::clone ](
    t: &nix::sys::termios::Termios,
) -> nix::sys::termios::Termios;

/// A snapshot of a terminal's settings.
///
/// Opaque on purpose: the only useful operations are taking one and putting
/// it back, which happen where the terminal is.
#[derive(Debug, Clone)]
pub struct Modes(nix::sys::termios::Termios);

impl Modes {
    /// The settings held.
    pub closed spec fn settings(self) -> nix::sys::termios::Termios {
        self.0
    }

    /// Wrap captured settings.
    pub fn new(termios: nix::sys::termios::Termios) -> (m: Self)
        ensures
            m.settings() == termios,
    {
        Modes(termios)
    }

    /// The settings, to put back: the ones the snapshot was made from.
    pub fn termios(&self) -> (t: &nix::sys::termios::Termios)
        ensures
            *t == self.settings(),
    {
        &self.0
    }
}

/// What the shell last knew about a job.
#[derive(Debug, Clone, Copy, PartialEq, Eq, Structural)]
pub enum JobState {
    /// Every process is running.
    Running,
    /// At least one process is stopped, and none have been resumed since.
    Stopped,
    /// Every process has ended.
    Done(ExitStatus),
}

/// The message for a job killed by the named signal.
pub fn killed_text(signal: &str) -> (s: String)
    ensures
        s@ == "Killed ("@ + signal@ + ")"@,
{
    let mut s = "Killed (".to_owned();
    s.push_str(signal);
    s.push_str(")");
    s
}

/// Whether `text` is how `jobs` describes a state: `Running`, `Stopped`,
/// `Done`, `Exit n`, or `Killed (...)` with the signal's name, or its
/// number where the platform has no name for it.
pub open spec fn describes(state: JobState, text: Seq<char>) -> bool {
    match state {
        JobState::Running => text == "Running"@,
        JobState::Stopped => text == "Stopped"@,
        JobState::Done(ExitStatus::Exited(code)) => if code == 0 {
            text == "Done"@
        } else {
            text == "Exit "@ + dec_int(code as int)
        },
        JobState::Done(ExitStatus::Signaled(sig)) => exists|t: Seq<char>|
            signal_named(sig, t) && text == "Killed ("@ + t + ")"@,
    }
}

impl JobState {
    /// Whether the job still exists as processes.
    pub fn is_alive(self) -> (b: bool)
        ensures
            b == !(self is Done),
    {
        match self {
            JobState::Done(_) => false,
            _ => true,
        }
    }

    /// The word `jobs` prints in the second column: `Running`, `Stopped`,
    /// `Done`, `Exit n`, or `Killed (SIGNAME)`.
    pub fn describe(self) -> (s: String)
        ensures
            describes(self, s@),
    {
        match self {
            JobState::Running => "Running".to_owned(),
            JobState::Stopped => "Stopped".to_owned(),
            JobState::Done(ExitStatus::Exited(code)) => {
                if code == 0 {
                    "Done".to_owned()
                } else {
                    let mut s = "Exit ".to_owned();
                    let n = decimal(code as i64);
                    s.push_str(n.as_str());
                    s
                }
            },
            JobState::Done(ExitStatus::Signaled(sig)) => {
                let name = signal_text(sig);
                let s = killed_text(name.as_str());
                assert(signal_named(sig, name@));
                s
            },
        }
    }
}

/// One process within a job: its pid, and how it ended if it has.
#[derive(Debug, Clone, Copy)]
struct Process {
    pid: i32,
    status: Option<ExitStatus>,
}

/// A pipeline the shell is keeping track of.
#[derive(Debug, Clone)]
pub struct Job {
    id: JobId,
    pgid: i32,
    /// Every process in the pipeline, and whether each has ended.
    ///
    /// Tracked per process rather than per job because the shell learns about
    /// them one at a time: `waitpid` reports a pid, not a pipeline, and a job
    /// is only finished when its last stage is.
    processes: Vec<Process>,
    command: String,
    state: JobState,
    /// Whether the user has been told about the job's latest state.
    reported: bool,
    /// The terminal modes the job was using when it was suspended.
    modes: Option<Modes>,
}

/// What a [`Job`] holds; of its terminal modes, which only the terminal
/// can read, only whether there are any.
pub struct JobV {
    pub id: JobId,
    pub pgid: i32,
    /// Each process's pid, and its status once it has ended.
    pub procs: Seq<(i32, Option<ExitStatus>)>,
    pub command: Seq<char>,
    pub state: JobState,
    pub reported: bool,
    /// Whether terminal modes are saved to put back on resuming.
    pub has_modes: bool,
}

spec fn procs_view(ps: Seq<Process>) -> Seq<(i32, Option<ExitStatus>)> {
    ps.map_values(|p: Process| (p.pid, p.status))
}

proof fn lemma_procs_view_push(ps: Seq<Process>, p: Process)
    ensures
        procs_view(ps.push(p)) == procs_view(ps).push((p.pid, p.status)),
{
    assert(procs_view(ps.push(p)) =~= procs_view(ps).push((p.pid, p.status)));
}

impl View for Job {
    type V = JobV;

    closed spec fn view(&self) -> JobV {
        JobV {
            id: self.id,
            pgid: self.pgid,
            procs: procs_view(self.processes@),
            command: self.command@,
            state: self.state,
            reported: self.reported,
            has_modes: self.modes is Some,
        }
    }
}

/// The index of the first process with this pid.
pub open spec fn first_proc(ps: Seq<(i32, Option<ExitStatus>)>, pid: i32, i: int) -> Option<int>
    decreases ps.len() - i,
{
    if i < 0 || i >= ps.len() {
        None
    } else if ps[i].0 == pid {
        Some(i)
    } else {
        first_proc(ps, pid, i + 1)
    }
}

/// Whether every process has ended.
pub open spec fn all_ended(ps: Seq<(i32, Option<ExitStatus>)>) -> bool {
    forall|i: int| 0 <= i < ps.len() ==> (#[trigger] ps[i]).1 is Some
}

/// The job after one of its processes ended. The job's own status is the
/// *last* stage's, matching how a foreground pipeline reports.
pub open spec fn finished_spec(j: JobV, pid: i32, status: ExitStatus) -> JobV {
    let ps = match first_proc(j.procs, pid, 0) {
        Some(i) => j.procs.update(i, (pid, Some(status))),
        None => j.procs,
    };
    let state = if all_ended(ps) {
        JobState::Done(
            if ps.len() > 0 {
                match ps.last().1 {
                    Some(s) => s,
                    None => ExitStatus::Exited(0),
                }
            } else {
                ExitStatus::Exited(0)
            },
        )
    } else {
        j.state
    };
    JobV { procs: ps, state, ..j }
}

/// A job is done exactly when every one of its processes has ended, and a
/// finished job's status is its last stage's, as a foreground pipeline's is.
pub proof fn law_done_when_every_stage_is(j: JobV, pid: i32, status: ExitStatus)
    requires
        !(j.state is Done),
    ensures
        (finished_spec(j, pid, status).state is Done) == all_ended(
            finished_spec(j, pid, status).procs,
        ),
        finished_spec(j, pid, status).state matches JobState::Done(s) ==> (finished_spec(
            j,
            pid,
            status,
        ).procs.len() > 0 ==> finished_spec(j, pid, status).procs.last().1 == Some(s)),
{
}

/// The pids of the processes still running, in order.
pub open spec fn live_pids(ps: Seq<(i32, Option<ExitStatus>)>) -> Seq<i32>
    decreases ps.len(),
{
    if ps.len() == 0 {
        seq![]
    } else {
        let rest = live_pids(ps.drop_last());
        if ps.last().1 is None {
            rest.push(ps.last().0)
        } else {
            rest
        }
    }
}

impl Job {
    /// Record a newly started pipeline: running, with nothing reported.
    pub fn new(id: JobId, pgid: i32, pids: Vec<i32>, command: String) -> (j: Self)
        ensures
            j@.id == id,
            j@.pgid == pgid,
            j@.procs.len() == pids@.len(),
            forall|i: int| 0 <= i < pids@.len() ==> #[trigger] j@.procs[i] == (pids@[i], None::<ExitStatus>),
            j@.command == command@,
            j@.state == JobState::Running,
            !j@.reported,
            !j@.has_modes,
    {
        let mut processes: Vec<Process> = Vec::new();
        let mut i: usize = 0;
        while i < pids.len()
            invariant
                i <= pids@.len(),
                processes@.len() == i,
                forall|k: int| 0 <= k < i ==> #[trigger] procs_view(processes@)[k] == (pids@[k], None::<ExitStatus>),
            decreases pids.len() - i,
        {
            let p = Process { pid: pids[i], status: None };
            proof {
                lemma_procs_view_push(processes@, p);
            }
            processes.push(p);
            i = i + 1;
        }
        Job {
            id,
            pgid,
            processes,
            command,
            state: JobState::Running,
            reported: false,
            modes: None,
        }
    }

    /// A copy, terminal modes included.
    pub fn copy(&self) -> (j: Job)
        ensures
            j@ == self@,
    {
        let mut processes: Vec<Process> = Vec::new();
        let mut i: usize = 0;
        while i < self.processes.len()
            invariant
                i <= self.processes@.len(),
                procs_view(processes@) == procs_view(self.processes@).take(i as int),
            decreases self.processes.len() - i,
        {
            let p = self.processes[i];
            let q = Process { pid: p.pid, status: p.status };
            proof {
                lemma_procs_view_push(processes@, q);
            }
            processes.push(q);
            i = i + 1;
            assert(procs_view(processes@) =~= procs_view(self.processes@).take(i as int));
        }
        assert(procs_view(self.processes@).take(i as int) =~= procs_view(self.processes@));
        Job {
            id: self.id,
            pgid: self.pgid,
            processes,
            command: self.command.clone(),
            state: self.state,
            reported: self.reported,
            modes: self.modes.clone(),
        }
    }

    /// The number a user types after `%`.
    pub fn id(&self) -> (id: JobId)
        ensures
            id == self@.id,
    {
        self.id
    }

    /// The process group every stage shares.
    pub fn pgid(&self) -> (p: i32)
        ensures
            p == self@.pgid,
    {
        self.pgid
    }

    /// The command line as the user wrote it.
    pub fn command(&self) -> (s: &str)
        ensures
            s@ == self@.command,
    {
        self.command.as_str()
    }

    /// What the shell last knew.
    pub fn state(&self) -> (s: JobState)
        ensures
            s == self@.state,
    {
        self.state
    }

    /// Whether the job contains this process.
    pub fn contains(&self, pid: i32) -> (b: bool)
        ensures
            b == (first_proc(self@.procs, pid, 0) is Some),
    {
        let ghost ps = self@.procs;
        let mut i: usize = 0;
        while i < self.processes.len()
            invariant
                i <= self.processes@.len(),
                ps == procs_view(self.processes@),
                first_proc(ps, pid, 0) == first_proc(ps, pid, i as int),
            decreases self.processes.len() - i,
        {
            if self.processes[i].pid == pid {
                return true;
            }
            i = i + 1;
        }
        false
    }

    /// Record that one of the job's processes ended. The job is done once
    /// every process is, with the last stage's status.
    pub fn finished(&mut self, pid: i32, status: ExitStatus)
        ensures
            final(self)@ == finished_spec(old(self)@, pid, status),
    {
        let ghost ps0 = self@.procs;
        let mut i: usize = 0;
        while i < self.processes.len() && self.processes[i].pid != pid
            invariant
                i <= self.processes@.len(),
                ps0 == procs_view(self.processes@),
                first_proc(ps0, pid, 0) == first_proc(ps0, pid, i as int),
            decreases self.processes.len() - i,
        {
            i = i + 1;
        }
        if i < self.processes.len() {
            self.processes.set(i, Process { pid, status: Some(status) });
            assert(procs_view(self.processes@) =~= ps0.update(i as int, (pid, Some(status))));
        }
        let ghost ps = procs_view(self.processes@);
        assert(ps == match first_proc(ps0, pid, 0) {
            Some(k) => ps0.update(k, (pid, Some(status))),
            None => ps0,
        });
        let mut all = true;
        let mut k: usize = 0;
        while k < self.processes.len()
            invariant
                k <= self.processes@.len(),
                ps == procs_view(self.processes@),
                all == forall|m: int| 0 <= m < k ==> (#[trigger] ps[m]).1 is Some,
            decreases self.processes.len() - k,
        {
            assert(ps[k as int].1 == self.processes@[k as int].status);
            if self.processes[k].status.is_none() {
                all = false;
            }
            k = k + 1;
        }
        if all {
            let n = self.processes.len();
            let last = if n > 0 {
                match self.processes[n - 1].status {
                    Some(s) => s,
                    None => ExitStatus::Exited(0),
                }
            } else {
                ExitStatus::Exited(0)
            };
            self.state = JobState::Done(last);
        }
    }

    /// The terminal modes saved for this job, if any.
    pub closed spec fn saved_modes(&self) -> Option<Modes> {
        self.modes
    }

    /// Remember the terminal modes this job was using.
    pub fn remember_modes(&mut self, modes: Option<Modes>)
        ensures
            final(self)@ == (JobV { has_modes: modes is Some, ..old(self)@ }),
            final(self).saved_modes() == modes,
    {
        self.modes = modes;
    }

    /// The terminal modes to put back before resuming this job: the ones
    /// last remembered.
    pub fn modes(&self) -> (r: Option<&Modes>)
        ensures
            r is Some == self@.has_modes,
            match r {
                Some(m) => self.saved_modes() == Some(*m),
                None => self.saved_modes() is None,
            },
    {
        match &self.modes {
            Some(m) => Some(m),
            None => None,
        }
    }

    /// Record that the job was suspended. A finished job stays finished.
    pub fn stopped(&mut self)
        ensures
            final(self)@ == (JobV {
                state: if old(self)@.state is Done {
                    old(self)@.state
                } else {
                    JobState::Stopped
                },
                ..old(self)@
            }),
    {
        if self.state.is_alive() {
            self.state = JobState::Stopped;
        }
    }

    /// Record that the job was resumed. A finished job stays finished.
    pub fn resumed(&mut self)
        ensures
            final(self)@ == (JobV {
                state: if old(self)@.state is Done {
                    old(self)@.state
                } else {
                    JobState::Running
                },
                ..old(self)@
            }),
    {
        if self.state.is_alive() {
            self.state = JobState::Running;
        }
    }

    /// The status a finished job reports, if it has one.
    pub fn exit_status(&self) -> (r: Option<ExitStatus>)
        ensures
            r == match self@.state {
                JobState::Done(s) => Some(s),
                _ => None::<ExitStatus>,
            },
    {
        match self.state {
            JobState::Done(status) => Some(status),
            _ => None,
        }
    }

    /// Whether the user still needs to be told about this job.
    pub fn needs_report(&self) -> (b: bool)
        ensures
            b == !self@.reported,
    {
        !self.reported
    }

    /// Mark the job as reported.
    pub fn mark_reported(&mut self)
        ensures
            final(self)@ == (JobV { reported: true, ..old(self)@ }),
    {
        self.reported = true;
    }

    /// Allow a job to be announced again, after it changes state.
    pub fn mark_unreported(&mut self)
        ensures
            final(self)@ == (JobV { reported: false, ..old(self)@ }),
    {
        self.reported = false;
    }

    /// The processes still running, for signalling.
    pub fn pids(&self) -> (v: Vec<i32>)
        ensures
            v@ == live_pids(self@.procs),
    {
        let ghost ps = self@.procs;
        let mut v: Vec<i32> = Vec::new();
        let mut i: usize = 0;
        while i < self.processes.len()
            invariant
                i <= self.processes@.len(),
                ps == procs_view(self.processes@),
                v@ == live_pids(ps.take(i as int)),
            decreases self.processes.len() - i,
        {
            assert(ps.take(i + 1).drop_last() =~= ps.take(i as int));
            if self.processes[i].status.is_none() {
                v.push(self.processes[i].pid);
            }
            i = i + 1;
        }
        assert(ps.take(i as int) =~= ps);
        v
    }
}

} // verus!
