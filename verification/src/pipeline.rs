//! Running a pipeline as a job: what the shell decides while the processes
//! run.
//!
//! Every external command goes through here, including a pipeline of one:
//! with job control, a lone `sleep 30` needs a process group and the
//! terminal exactly as much as `a | b | c` does. Creating the pipes and
//! processes, and waiting for them, is the caller's; what each outcome means
//! for the status and the job table is here.

use vstd::prelude::*;
use crate::redirect::{redirect_message_fits, RedirectError};
use crate::status::{code_spec, ExitStatus};

verus! {

/// `nix`'s `Display` for an `errno`: its symbolic name and the system's
/// description. Both are the platform's, so nothing is promised of them.
#[verifier::external_body]
fn errno_display(code: i32) -> (s: String) {
    format!("{}", nix::errno::Errno::from_raw(code))
}

/// `t` is what `nix` displayed for `errno` `code`.
pub closed spec fn errno_displayed(code: i32, t: Seq<char>) -> bool {
    exists|d: String| #[trigger] call_ensures(errno_display, (code,), d) && t == d@
}

/// Why a process could not be started, or its result collected, with the
/// `errno` each system call failed with.
#[derive(Debug, Clone, PartialEq, Eq)]
pub enum SpawnError {
    /// A path or argument contained an interior NUL byte, which a C string
    /// cannot hold.
    InteriorNul { what: String },
    /// `fork` failed — typically `EAGAIN` from a process or memory limit.
    Fork(i32),
    /// `waitpid` failed.
    Wait(i32),
    /// A pipe could not be created — typically the descriptor limit.
    Pipe(i32),
}

/// What a [`SpawnError`] says: the string at fault for a NUL, and for a
/// failed system call what failed, followed by what `nix` displays for the
/// `errno`.
pub open spec fn spawn_message_fits(e: SpawnError, s: Seq<char>) -> bool {
    match e {
        SpawnError::InteriorNul { what } => s == what@ + " contains a NUL byte"@,
        SpawnError::Fork(code) => s.len() >= 13 && s.take(13) == "fork failed: "@
            && errno_displayed(code, s.skip(13)),
        SpawnError::Wait(code) => s.len() >= 13 && s.take(13) == "wait failed: "@
            && errno_displayed(code, s.skip(13)),
        SpawnError::Pipe(code) => s.len() >= 20 && s.take(20) == "cannot create pipe: "@
            && errno_displayed(code, s.skip(20)),
    }
}

impl SpawnError {
    /// The message a user sees.
    pub fn message(&self) -> (s: String)
        ensures
            spawn_message_fits(*self, s@),
    {
        let (mut s, code) = match self {
            SpawnError::InteriorNul { what } => {
                let mut s = what.clone();
                s.push_str(" contains a NUL byte");
                return s;
            },
            SpawnError::Fork(code) => ("fork failed: ".to_owned(), *code),
            SpawnError::Wait(code) => ("wait failed: ".to_owned(), *code),
            SpawnError::Pipe(code) => ("cannot create pipe: ".to_owned(), *code),
        };
        proof {
            reveal_strlit("fork failed: ");
            reveal_strlit("wait failed: ");
            reveal_strlit("cannot create pipe: ");
        }
        let ghost head = s@;
        let e = errno_display(code);
        assert(call_ensures(errno_display, (code,), e));
        s.push_str(e.as_str());
        assert(s@.take(head.len() as int) =~= head);
        assert(s@.skip(head.len() as int) =~= e@);
        assert(errno_displayed(code, s@.skip(head.len() as int)));
        s
    }
}

/// Why a pipeline could not be run.
#[derive(Debug, Clone, PartialEq, Eq)]
pub enum PipelineError {
    /// A redirection on one of the commands could not be set up.
    Redirect(RedirectError),
    /// A pipe could not be created, or a process could not be started.
    Process(SpawnError),
    /// A command in the pipeline is a shell builtin.
    Builtin(String),
}

impl PipelineError {
    /// The message a user sees.
    pub fn message(&self) -> (s: String)
        ensures
            match self {
                PipelineError::Redirect(e) => redirect_message_fits(e@, s@),
                PipelineError::Process(e) => spawn_message_fits(*e, s@),
                PipelineError::Builtin(name) => s@ == "`"@ + name@
                    + "` is a shell builtin and cannot be a job yet"@,
            },
    {
        match self {
            PipelineError::Redirect(error) => error.message(),
            PipelineError::Process(error) => error.message(),
            PipelineError::Builtin(name) => {
                let mut s = "`".to_owned();
                s.push_str(name.as_str());
                s.push_str("` is a shell builtin and cannot be a job yet");
                s
            },
        }
    }
}

/// Which pipes a stage is connected to: stage `i` of `n` reads from the
/// pipe before it, if it is not the first, and writes to the pipe after it,
/// if it is not the last.
pub fn pipe_links(index: usize, count: usize) -> (r: (Option<usize>, Option<usize>))
    requires
        index < count,
    ensures
        r.0 == (if index > 0 {
            Some((index - 1) as usize)
        } else {
            None::<usize>
        }),
        r.1 == (if index + 1 < count {
            Some(index)
        } else {
            None::<usize>
        }),
{
    let read = if index > 0 {
        Some(index - 1)
    } else {
        None
    };
    let write = if index + 1 < count {
        Some(index)
    } else {
        None
    };
    (read, write)
}

/// What became of one stage of a foreground job.
#[derive(Debug, Clone, Copy, PartialEq, Eq, Structural)]
pub enum StageOutcome {
    /// It could not be started, and reports this status.
    Failed(i32),
    /// It ran and ended.
    Finished(ExitStatus),
    /// It was suspended, and with it the whole process group.
    Stopped,
    /// Waiting for it failed.
    Lost,
}

/// Where waiting for a foreground job stands: the status so far, how the
/// last stage that ended did, and whether the job was suspended.
#[derive(Debug, Clone, Copy, PartialEq, Eq, Structural)]
pub struct Tally {
    pub status: i32,
    pub ended: Option<ExitStatus>,
    pub stopped: bool,
}

/// The tally after one more stage. Once the group is stopped, later stages
/// are not waited for.
pub open spec fn tally_spec(t: Tally, o: StageOutcome) -> Tally {
    match o {
        StageOutcome::Failed(code) => Tally { status: code, ..t },
        StageOutcome::Finished(s) => if t.stopped {
            t
        } else {
            Tally { status: code_spec(s) as i32, ended: Some(s), stopped: false }
        },
        StageOutcome::Stopped => if t.stopped {
            t
        } else {
            Tally { stopped: true, ..t }
        },
        StageOutcome::Lost => if t.stopped {
            t
        } else {
            Tally { status: 126, ..t }
        },
    }
}

/// The tally after each of `outcomes`, in order.
pub open spec fn tally_all(t: Tally, outcomes: Seq<StageOutcome>) -> Tally
    decreases outcomes.len(),
{
    if outcomes.len() == 0 {
        t
    } else {
        tally_spec(tally_all(t, outcomes.drop_last()), outcomes.last())
    }
}

/// When every stage ran to its end, the pipeline's status is the last
/// stage's, whatever the earlier ones did: `false | true` succeeds.
pub proof fn law_status_is_the_last_stages(outcomes: Seq<StageOutcome>)
    requires
        outcomes.len() > 0,
        forall|i: int| 0 <= i < outcomes.len() ==> #[trigger] outcomes[i] is Finished,
    ensures
        !tally_all(Tally { status: 0, ended: None, stopped: false }, outcomes).stopped,
        tally_all(Tally { status: 0, ended: None, stopped: false }, outcomes).status == code_spec(
            outcomes.last()->Finished_0,
        ),
    decreases outcomes.len(),
{
    let t0 = Tally { status: 0, ended: None, stopped: false };
    if outcomes.len() > 1 {
        let rest = outcomes.drop_last();
        assert forall|i: int| 0 <= i < rest.len() implies #[trigger] rest[i] is Finished by {
            assert(rest[i] == outcomes[i]);
        }
        law_status_is_the_last_stages(rest);
    } else {
        assert(outcomes.drop_last() =~= Seq::<StageOutcome>::empty());
        assert(tally_all(t0, outcomes.drop_last()) == t0);
    }
    assert(outcomes[outcomes.len() - 1] is Finished);
    assert(outcomes.last() == outcomes[outcomes.len() - 1]);
    let before = tally_all(t0, outcomes.drop_last());
    assert(!before.stopped);
    assert(tally_all(t0, outcomes) == tally_spec(before, outcomes.last()));
}

impl Tally {
    /// Nothing waited for yet: status 0.
    pub fn new() -> (t: Tally)
        ensures
            t == (Tally { status: 0, ended: None, stopped: false }),
    {
        Tally { status: 0, ended: None, stopped: false }
    }

    /// Count one more stage, in order.
    pub fn record(&mut self, outcome: StageOutcome)
        ensures
            *final(self) == tally_spec(*old(self), outcome),
    {
        match outcome {
            StageOutcome::Failed(code) => {
                self.status = code;
            },
            StageOutcome::Finished(s) => {
                if !self.stopped {
                    self.status = s.code();
                    self.ended = Some(s);
                }
            },
            StageOutcome::Stopped => {
                self.stopped = true;
            },
            StageOutcome::Lost => {
                if !self.stopped {
                    self.status = crate::status::EXIT_NOT_EXECUTABLE;
                }
            },
        }
    }

    /// Whether the next stage should still be waited for.
    pub fn waiting(&self) -> (b: bool)
        ensures
            b == !self.stopped,
    {
        !self.stopped
    }

    /// The status the job reports: `148` (`128 + SIGTSTP`) if it was
    /// suspended, otherwise the status of the stages as they ended, which
    /// is the last stage's.
    pub fn result(&self) -> (code: i32)
        ensures
            code == (if self.stopped {
                148
            } else {
                self.status
            }),
    {
        if self.stopped {
            148
        } else {
            self.status
        }
    }

    /// Whether the job died of Ctrl-C or Ctrl-\\ (signal 2 or 3), so the
    /// shell should move past the `^C` the terminal echoed.
    pub fn interrupted(&self) -> (b: bool)
        ensures
            b == (!self.stopped && (self.ended == Some(ExitStatus::Signaled(2)) || self.ended
                == Some(ExitStatus::Signaled(3)))),
    {
        if self.stopped {
            return false;
        }
        match self.ended {
            Some(ExitStatus::Signaled(sig)) => sig == 2 || sig == 3,
            _ => false,
        }
    }
}

/// The status of a job that was not waited for as it ran: every stage is
/// reaped, and the last one's status is reported.
pub open spec fn last_status(outcomes: Seq<i32>) -> i32 {
    if outcomes.len() == 0 {
        0
    } else {
        outcomes.last()
    }
}

/// The status of stages reaped in order: the last one's, or 0 for none.
pub fn reaped_status(codes: &[i32]) -> (s: i32)
    ensures
        s == last_status(codes@),
{
    let mut status: i32 = 0;
    let mut i: usize = 0;
    while i < codes.len()
        invariant
            i <= codes@.len(),
            status == last_status(codes@.take(i as int)),
        decreases codes.len() - i,
    {
        status = codes[i];
        i = i + 1;
    }
    assert(codes@.take(i as int) =~= codes@);
    status
}

} // verus!
