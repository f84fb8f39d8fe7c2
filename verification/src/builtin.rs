//! Commands the shell must run itself.
//!
//! A builtin is a command that *cannot* be a child process, because its whole
//! effect is a change to the shell's own state: the working directory, the
//! job table, whether the shell keeps running. What each builtin decides is
//! here; the caller carries it out and prints what it says.

use vstd::prelude::*;
use crate::job::{describes, Job, JobId, JobState};
use crate::jobspec::{job_spec, JobSpec};
use crate::shell::Outcome;
use crate::status::code_spec;
use crate::table::{find_spec, marked, marker_spec, JobTable, TableV};
use crate::text::{
    chars_of, dec_int, dec_nat, pad_spec, parse_i32, parse_i32_chars, push_decimal, push_padded,
    strings_view,
};

verus! {

/// Status returned by a builtin that was used incorrectly.
pub const EXIT_USAGE: i32 = 1;

/// Status for `exit` with a non-numeric argument, matching POSIX shells.
pub const EXIT_BAD_ARGUMENT: i32 = 2;

/// Status for `fg` when the job stopped again: `128 + SIGTSTP`.
pub const EXIT_STOPPED: i32 = 148;

/// A command implemented by the shell itself.
#[derive(Debug, Clone, Copy, PartialEq, Eq, Structural)]
pub enum Builtin {
    Cd,
    Exit,
    Jobs,
    Fg,
    Bg,
}

/// The builtin a command name names, by exact spelling.
pub open spec fn lookup_spec(name: Seq<char>) -> Option<Builtin> {
    if name == "cd"@ {
        Some(Builtin::Cd)
    } else if name == "exit"@ {
        Some(Builtin::Exit)
    } else if name == "jobs"@ {
        Some(Builtin::Jobs)
    } else if name == "fg"@ {
        Some(Builtin::Fg)
    } else if name == "bg"@ {
        Some(Builtin::Bg)
    } else {
        None
    }
}

impl Builtin {
    /// Match a command name against the builtin table.
    ///
    /// Builtins are checked before `PATH`, which is why `cd` works even on a
    /// system that also ships a `/usr/bin/cd`.
    pub fn lookup(name: &str) -> (b: Option<Builtin>)
        ensures
            b == lookup_spec(name@),
    {
        let n = name.to_owned();
        proof {
            reveal_strlit("cd");
            reveal_strlit("exit");
            reveal_strlit("jobs");
            reveal_strlit("fg");
            reveal_strlit("bg");
        }
        if n == "cd".to_owned() {
            Some(Builtin::Cd)
        } else if n == "exit".to_owned() {
            Some(Builtin::Exit)
        } else if n == "jobs".to_owned() {
            Some(Builtin::Jobs)
        } else if n == "fg".to_owned() {
            Some(Builtin::Fg)
        } else if n == "bg".to_owned() {
            Some(Builtin::Bg)
        } else {
            None
        }
    }
}

/// What `exit` does: with no argument, exit with the last status; with a
/// number, exit with it; with anything else, exit anyway with 2; with
/// several arguments, stay, with status 1.
pub open spec fn exit_spec(args: Seq<Seq<char>>, last_status: i32) -> (Outcome, i32) {
    if args.len() == 0 {
        (Outcome::Exit(last_status), last_status)
    } else if args.len() == 1 {
        match parse_i32(args[0]) {
            Some(code) => (Outcome::Exit(code), code),
            None => (Outcome::Exit(2), 2),
        }
    } else {
        (Outcome::Continue, 1)
    }
}

/// Leave the shell.
///
/// With no argument, exits with the status of the last command — so
/// `some-command; exit` propagates that command's result. A non-numeric
/// argument still exits, with 2: `exit` is how a user gets out, and a typo
/// should not trap them. With several arguments the shell does *not* exit:
/// it cannot tell which status was meant.
pub fn exit(args: &[String], last_status: i32) -> (r: (Outcome, i32))
    ensures
        r == exit_spec(strings_view(args@), last_status),
{
    if args.len() == 0 {
        (Outcome::Exit(last_status), last_status)
    } else if args.len() == 1 {
        let text = chars_of(args[0].as_str());
        match parse_i32_chars(text.as_slice()) {
            Some(code) => (Outcome::Exit(code), code),
            None => (Outcome::Exit(EXIT_BAD_ARGUMENT), EXIT_BAD_ARGUMENT),
        }
    } else {
        (Outcome::Continue, EXIT_USAGE)
    }
}

/// What `exit` says on standard error, if anything.
pub open spec fn exit_complaint_spec(args: Seq<Seq<char>>) -> Option<Seq<char>> {
    if args.len() == 1 && parse_i32(args[0]) is None {
        Some("rsh: exit: "@ + args[0] + ": numeric argument required"@)
    } else if args.len() > 1 {
        Some("rsh: exit: too many arguments"@)
    } else {
        None
    }
}

/// What `exit` says on standard error, if anything.
pub fn exit_complaint(args: &[String]) -> (r: Option<String>)
    ensures
        match r {
            Some(s) => exit_complaint_spec(strings_view(args@)) == Some(s@),
            None => exit_complaint_spec(strings_view(args@)) is None,
        },
{
    if args.len() == 1 {
        let text = chars_of(args[0].as_str());
        match parse_i32_chars(text.as_slice()) {
            Some(_) => None,
            None => {
                let mut s = "rsh: exit: ".to_owned();
                s.push_str(args[0].as_str());
                s.push_str(": numeric argument required");
                Some(s)
            },
        }
    } else if args.len() > 1 {
        Some("rsh: exit: too many arguments".to_owned())
    } else {
        None
    }
}

/// Where `cd` goes, and whether to say where it landed: no argument or `~`
/// is `HOME`, `-` is `OLDPWD` (announced, since the user cannot see it),
/// and anything else is the path as given.
pub open spec fn cd_spec(
    args: Seq<Seq<char>>,
    home: Option<Seq<char>>,
    oldpwd: Option<Seq<char>>,
) -> Result<(Seq<char>, bool), Seq<char>> {
    if args.len() > 1 {
        Err("rsh: cd: too many arguments"@)
    } else if args.len() == 0 || args[0] == "~"@ {
        match home {
            Some(h) => Ok((h, false)),
            None => Err("rsh: cd: HOME not set"@),
        }
    } else if args[0] == "-"@ {
        match oldpwd {
            Some(o) => Ok((o, true)),
            None => Err("rsh: cd: OLDPWD not set"@),
        }
    } else {
        Ok((args[0], false))
    }
}

/// The text of an optional string.
pub open spec fn opt_text(o: Option<&str>) -> Option<Seq<char>> {
    match o {
        Some(s) => Some(s@),
        None => None,
    }
}

/// Decide where `cd` goes, given `HOME` and `OLDPWD`: the directory and
/// whether to print it, or what to complain.
pub fn cd_target(args: &[String], home: Option<&str>, oldpwd: Option<&str>) -> (r: Result<
    (String, bool),
    String,
>)
    ensures
        match cd_spec(strings_view(args@), opt_text(home), opt_text(oldpwd)) {
            Ok((d, announce)) => r matches Ok((x, a)) && x@ == d && a == announce,
            Err(m) => r matches Err(x) && x@ == m,
        },
{
    proof {
        reveal_strlit("~");
        reveal_strlit("-");
    }
    if args.len() > 1 {
        return Err("rsh: cd: too many arguments".to_owned());
    }
    let go_home = args.len() == 0 || args[0] == "~".to_owned();
    if go_home {
        return match home {
            Some(h) => Ok((h.to_owned(), false)),
            None => Err("rsh: cd: HOME not set".to_owned()),
        };
    }
    if args[0] == "-".to_owned() {
        return match oldpwd {
            Some(o) => Ok((o.to_owned(), true)),
            None => Err("rsh: cd: OLDPWD not set".to_owned()),
        };
    }
    Ok((args[0].clone(), false))
}

/// A line of the `jobs` listing, or of a notification: the number in
/// brackets, the marker, the state padded to 22 columns, and the command.
pub open spec fn job_line_spec(id: JobId, marker: char, state: Seq<char>, command: Seq<char>) -> Seq<
    char,
> {
    "["@ + dec_nat(id.0 as nat) + "]"@ + seq![marker] + "  "@ + pad_spec(state, 22) + "  "@
        + command
}

/// Lay out a line of the `jobs` listing.
pub fn format_job_line(id: JobId, marker: char, state: &str, command: &str) -> (s: String)
    ensures
        s@ == job_line_spec(id, marker, state@, command@),
{
    let mut s = "[".to_owned();
    push_decimal(&mut s, id.0 as u64);
    s.push_str("]");
    s.push(marker);
    s.push_str("  ");
    push_padded(&mut s, state, 22);
    s.push_str("  ");
    s.push_str(command);
    s
}

/// The line `jobs` prints for a job, and the shell prints when a job
/// changes state.
pub fn job_line(table: &JobTable, job: &Job) -> (s: String)
    ensures
        exists|state: Seq<char>|
            describes(job@.state, state) && #[trigger] job_line_spec(
                job@.id,
                marker_spec(table@, job@.id),
                state,
                job@.command,
            ) == s@,
{
    let id = job.id();
    let state = job.state().describe();
    format_job_line(id, table.marker(id), state.as_str(), job.command())
}

/// Whether `line` is the `jobs` line for job `i` of the table, with some
/// description of its state.
pub open spec fn listed(t: TableV, i: int, line: Seq<char>) -> bool {
    exists|state: Seq<char>|
        describes(t.jobs[i].state, state) && #[trigger] job_line_spec(
            t.jobs[i].id,
            marker_spec(t, t.jobs[i].id),
            state,
            t.jobs[i].command,
        ) == line
}

/// The lines `jobs` prints, one per job in start order.
pub fn jobs_listing(table: &JobTable) -> (lines: Vec<String>)
    ensures
        lines@.len() == table@.jobs.len(),
        forall|i: int| 0 <= i < lines@.len() ==> listed(table@, i, (#[trigger] lines@[i])@),
{
    let mut lines: Vec<String> = Vec::new();
    let mut i: usize = 0;
    while i < table.len()
        invariant
            i <= table@.jobs.len(),
            lines@.len() == i,
            forall|k: int| 0 <= k < i ==> listed(table@, k, (#[trigger] lines@[k])@),
        decreases table@.jobs.len() - i,
    {
        match table.get(i) {
            Some(job) => {
                let line = job_line(table, job);
                assert(listed(table@, i as int, line@));
                let ghost prev = lines@;
                lines.push(line);
                assert forall|k: int| 0 <= k < i + 1 implies listed(
                    table@,
                    k,
                    (#[trigger] lines@[k])@,
                ) by {
                    if k < i {
                        assert(lines@[k] == prev[k]);
                    }
                }
            },
            None => {
                return lines;
            },
        }
        i = i + 1;
    }
    lines
}

/// Which job `fg` or `bg` acts on, or why there is none: at most one
/// argument, a specifier that parses, and a job that exists and has not
/// finished.
pub open spec fn select_spec(args: Seq<Seq<char>>, t: TableV, builtin: Seq<char>) -> Result<
    (JobId, i32, Seq<char>),
    Seq<char>,
> {
    if args.len() > 1 {
        Err("rsh: "@ + builtin + ": too many arguments"@)
    } else {
        match job_spec(
            if args.len() == 0 {
                None
            } else {
                Some(args[0])
            },
        ) {
            Err(text) => Err("rsh: "@ + builtin + ": "@ + text + ": no such job"@),
            Ok(spec) => match find_spec(t, spec) {
                Some(k) => if t.jobs[k].state is Done {
                    Err(
                        "rsh: "@ + builtin + ": job "@ + dec_nat(t.jobs[k].id.0 as nat)
                            + " has finished"@,
                    )
                } else {
                    Ok((t.jobs[k].id, t.jobs[k].pgid, t.jobs[k].command))
                },
                None => Err("rsh: "@ + builtin + ": no such job"@),
            },
        }
    }
}

/// Resolve the arguments of `fg` or `bg` to a live job: its number,
/// process group and command, or the complaint to print.
pub fn select(args: &[String], table: &JobTable, builtin: &str) -> (r: Result<
    (JobId, i32, String),
    String,
>)
    ensures
        match select_spec(strings_view(args@), table@, builtin@) {
            Ok((id, pgid, command)) => r matches Ok((i, p, c)) && i == id && p == pgid && c@
                == command,
            Err(m) => r matches Err(x) && x@ == m,
        },
{
    if args.len() > 1 {
        let mut s = "rsh: ".to_owned();
        s.push_str(builtin);
        s.push_str(": too many arguments");
        return Err(s);
    }
    let first: Option<&str> = if args.len() == 0 {
        None
    } else {
        Some(args[0].as_str())
    };
    let spec = match JobSpec::parse(first) {
        Ok(spec) => spec,
        Err(error) => {
            let mut s = "rsh: ".to_owned();
            s.push_str(builtin);
            s.push_str(": ");
            s.push_str(error.message().as_str());
            return Err(s);
        },
    };
    match table.find_index(spec) {
        Some(k) => {
            let job = match table.get(k) {
                Some(j) => j,
                None => {
                    return Err("rsh: no such job".to_owned());
                },
            };
            if job.state().is_alive() {
                Ok((job.id(), job.pgid(), job.command().to_owned()))
            } else {
                let mut s = "rsh: ".to_owned();
                s.push_str(builtin);
                s.push_str(": job ");
                push_decimal(&mut s, job.id().0 as u64);
                s.push_str(" has finished");
                Err(s)
            }
        },
        None => {
            let mut s = "rsh: ".to_owned();
            s.push_str(builtin);
            s.push_str(": no such job");
            Err(s)
        },
    }
}

/// Where waiting for a foreground job stands after the latest events: the
/// job's status if it finished, 148 if it stopped again, 0 if it vanished,
/// or nothing yet.
pub open spec fn settle_spec(t: TableV, id: JobId) -> Option<i32> {
    match find_spec(t, JobSpec::Id(id)) {
        None => Some(0),
        Some(k) => match t.jobs[k].state {
            JobState::Done(status) => Some(code_spec(status) as i32),
            JobState::Stopped => Some(148),
            JobState::Running => None,
        },
    }
}

/// Decide whether waiting for a foreground job is over. When it is, the job
/// is marked reported, so the next prompt does not announce a job the user
/// just watched.
pub fn settle(table: &mut JobTable, id: JobId) -> (r: Option<i32>)
    ensures
        r == settle_spec(old(table)@, id),
        r is Some ==> match find_spec(old(table)@, JobSpec::Id(id)) {
            Some(k) => final(table)@ == (TableV {
                jobs: old(table)@.jobs.update(k, marked(old(table)@.jobs[k])),
                ..old(table)@
            }),
            None => final(table)@ == old(table)@,
        },
        r is None ==> final(table)@ == old(table)@,
{
    let k = match table.find_index(JobSpec::Id(id)) {
        Some(k) => k,
        None => {
            return Some(0);
        },
    };
    let state = match table.get(k) {
        Some(job) => job.state(),
        None => {
            return Some(0);
        },
    };
    match state {
        JobState::Done(status) => {
            table.mark_reported(JobSpec::Id(id));
            Some(status.code())
        },
        JobState::Stopped => {
            table.mark_reported(JobSpec::Id(id));
            Some(EXIT_STOPPED)
        },
        JobState::Running => None,
    }
}

/// What the shell prints when a foreground job is suspended.
pub fn stopped_line(id: JobId, command: &str) -> (s: String)
    ensures
        s@ == "\n["@ + dec_nat(id.0 as nat) + "]+  Stopped                 "@ + command@,
{
    let mut s = "\n[".to_owned();
    push_decimal(&mut s, id.0 as u64);
    s.push_str("]+  Stopped                 ");
    s.push_str(command);
    s
}

/// What `bg` prints for the job it resumed.
pub fn background_line(id: JobId, command: &str) -> (s: String)
    ensures
        s@ == "["@ + dec_nat(id.0 as nat) + "]+ "@ + command@ + " &"@,
{
    let mut s = "[".to_owned();
    push_decimal(&mut s, id.0 as u64);
    s.push_str("]+ ");
    s.push_str(command);
    s.push_str(" &");
    s
}

} // verus!
