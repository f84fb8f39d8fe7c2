//! The decisions the shell makes around a line: whether to keep going,
//! whether it may exit, and how to point at what went wrong.

use vstd::prelude::*;
use crate::ast::Pipeline;
use crate::builtin::{lookup_spec, Builtin};
use crate::span::{slice_spec, Span};
use crate::text::{
    byte_offset, chars_of, fits, lemma_offset_mono, string_of, trim_chars,
    trim_end_chars, trim_end_spec, trim_spec,
};

verus! {

/// Exit status for input the shell could not parse, or could not carry out.
///
/// POSIX shells reserve 2 for usage and syntax errors, which keeps it
/// distinct from a command that ran and failed.
pub const EXIT_SYNTAX: i32 = 2;

/// Whether the REPL should keep going.
#[derive(Debug, Clone, Copy, PartialEq, Eq, Structural)]
pub enum Outcome {
    /// Prompt for another line.
    Continue,
    /// The shell was asked to exit with this status.
    Exit(i32),
}

/// Whether it is all right to leave, warning once if it is not.
///
/// Only *stopped* jobs earn a warning: a stopped job left behind would stay
/// suspended with nothing able to resume it. The first attempt is refused
/// and remembered; the second goes through.
pub fn confirm_exit(stopped_jobs: bool, warned: &mut bool) -> (allowed: bool)
    ensures
        allowed == !(stopped_jobs && !*old(warned)),
        *final(warned) == (*old(warned) || stopped_jobs),
{
    if stopped_jobs && !*warned {
        *warned = true;
        return false;
    }
    true
}

/// What a line's outcome becomes once exiting has been considered: an exit
/// with stopped jobs about is refused the first time and goes through the
/// second; anything that gets through clears the warning, so the next
/// attempt after another command is warned about again.
pub open spec fn after_line_spec(outcome: Outcome, stopped_jobs: bool, warned: bool) -> (
    Outcome,
    bool,
) {
    if outcome is Exit && stopped_jobs && !warned {
        (Outcome::Continue, true)
    } else {
        (outcome, false)
    }
}

/// Settle what a line amounted to: an exit is held back once while jobs are
/// stopped, and `warned` records whether that has just happened.
pub fn after_line(outcome: Outcome, stopped_jobs: bool, warned: &mut bool) -> (r: Outcome)
    ensures
        (r, *final(warned)) == after_line_spec(outcome, stopped_jobs, *old(warned)),
{
    match outcome {
        Outcome::Exit(_) => {
            if !confirm_exit(stopped_jobs, warned) {
                return Outcome::Continue;
            }
        },
        Outcome::Continue => {},
    }
    *warned = false;
    outcome
}

/// Where a parsed line runs.
#[derive(Debug, Clone, Copy, PartialEq, Eq, Structural)]
pub enum Route {
    /// A single builtin in the foreground: the shell runs it itself.
    InShell,
    /// Anything else: a job of child processes.
    Job,
}

/// A lone foreground command whose name expands to a builtin runs in the
/// shell; everything else, one command or ten, becomes a job.
pub open spec fn route_spec(commands: nat, background: bool, name: Option<Seq<char>>) -> Route {
    if commands == 1 && !background && (name matches Some(n) && lookup_spec(n) is Some) {
        Route::InShell
    } else {
        Route::Job
    }
}

/// Decide where a pipeline of `commands` stages runs, given the first field
/// its first word expands to.
pub fn route(commands: usize, background: bool, name: Option<&str>) -> (r: Route)
    ensures
        r == route_spec(
            commands as nat,
            background,
            match name {
                Some(n) => Some(n@),
                None => None,
            },
        ),
{
    if commands != 1 || background {
        return Route::Job;
    }
    match name {
        Some(n) => match Builtin::lookup(n) {
            Some(_) => Route::InShell,
            None => Route::Job,
        },
        None => Route::Job,
    }
}

/// What a command's expanded words name.
#[derive(Debug, Clone, Copy, PartialEq, Eq, Structural)]
pub enum Target {
    /// Nothing: every word expanded away. It succeeds and does nothing.
    Nothing,
    /// A builtin.
    Builtin(Builtin),
    /// A program to find and run.
    Program,
}

/// What the first of a command's fields names.
pub open spec fn target_spec(argv: Seq<Seq<char>>) -> Target {
    if argv.len() == 0 {
        Target::Nothing
    } else {
        match lookup_spec(argv[0]) {
            Some(b) => Target::Builtin(b),
            None => Target::Program,
        }
    }
}

/// Decide what an argument vector names.
pub fn target(argv: &[String]) -> (t: Target)
    ensures
        t == target_spec(crate::text::strings_view(argv@)),
{
    if argv.len() == 0 {
        return Target::Nothing;
    }
    match Builtin::lookup(argv[0].as_str()) {
        Some(b) => Target::Builtin(b),
        None => Target::Program,
    }
}

/// The status the operating system is handed: its low byte, as every shell
/// truncates it, so `exit 300` is 44 and `exit -1` is 255.
pub fn exit_byte(status: i32) -> (b: u8)
    ensures
        b as int == status as int % 256,
{
    if status >= 0 {
        (status % 256) as u8
    } else {
        let k: i64 = -(status as i64);
        let t: i64 = k % 256;
        if t == 0 {
            0
        } else {
            (256 - t) as u8
        }
    }
}

/// The number of characters before byte offset `b`, once `b` is clipped to
/// the text.
pub open spec fn column_of(s: Seq<char>, b: int) -> nat {
    char_count_before(s, b, 0)
}

/// The index of the first character at or after byte offset `b`, counting
/// from `i`.
pub open spec fn char_count_before(s: Seq<char>, b: int, i: int) -> nat
    decreases s.len() - i,
{
    if i < 0 || i >= s.len() || byte_offset(s, i) >= b {
        if i < 0 {
            0
        } else {
            i as nat
        }
    } else {
        char_count_before(s, b, i + 1)
    }
}

/// The two lines that point at a span of a line: the line, trimmed at the
/// end and indented by two, and a row of carets under the span, at least
/// one wide.
pub open spec fn underline_spec(line: Seq<char>, span: Span) -> (Seq<char>, Seq<char>) {
    let t = trim_end_spec(line);
    let len = crate::text::byte_len(t) as int;
    let start = if span.start <= len {
        span.start as int
    } else {
        len
    };
    let end = if span.end < start {
        start
    } else if span.end > len {
        len
    } else {
        span.end as int
    };
    let column = column_of(t, start);
    let width0 = column_of(t, end) - column;
    let width = if width0 >= 1 {
        width0
    } else {
        1
    };
    (
        "  "@ + t,
        "  "@ + Seq::new(column, |_i: int| ' ') + Seq::new(width as nat, |_i: int| '^'),
    )
}

/// How many characters of `s` start before byte offset `b`.
fn count_before(s: &Vec<char>, b: usize) -> (n: usize)
    requires
        fits(s@),
    ensures
        n == column_of(s@, b as int),
        n <= s@.len(),
{
    let mut i: usize = 0;
    let mut off: usize = 0;
    proof {
        assert(s@.take(0) =~= Seq::<char>::empty());
    }
    while i < s.len() && off < b
        invariant
            i <= s@.len(),
            fits(s@),
            off == byte_offset(s@, i as int),
            char_count_before(s@, b as int, 0) == char_count_before(s@, b as int, i as int),
        decreases s.len() - i,
    {
        proof {
            crate::text::lemma_offset_step(s@, i as int);
            lemma_offset_mono(s@, i + 1, s@.len() as int);
        }
        off = off + crate::text::char_len_utf8(s[i]);
        i = i + 1;
    }
    i
}

/// The offending line, and a row of carets under the span.
///
/// Counted in characters, not bytes: a caret positioned by byte offset
/// lands in the wrong column as soon as the line contains anything
/// non-ASCII.
pub fn underline(line: &str, span: Span) -> (r: (String, String))
    requires
        fits(line@),
    ensures
        (r.0@, r.1@) == underline_spec(line@, span),
{
    let chars = chars_of(line);
    let t = trim_end_chars(&chars);
    proof {
        crate::text::lemma_trim_end_index(line@, line@.len() as int, 0);
        let k = crate::text::trim_end_index(line@, line@.len() as int, 0);
        assert(t@ == line@.take(k));
        lemma_offset_mono(line@, k, line@.len() as int);
    }
    let len = crate::text::offset_of(&t, t.len());
    proof {
        assert(t@.take(t@.len() as int) =~= t@);
    }
    let start = if span.start <= len {
        span.start
    } else {
        len
    };
    let end = if span.end < start {
        start
    } else if span.end > len {
        len
    } else {
        span.end
    };
    let column = count_before(&t, start);
    let stop = count_before(&t, end);
    proof {
        lemma_count_before_mono(t@, start as int, end as int, 0);
    }
    let width = if stop - column >= 1 {
        stop - column
    } else {
        1
    };
    let mut first = "  ".to_owned();
    first.push_str(string_of(t.as_slice()).as_str());
    let mut second = "  ".to_owned();
    let ghost head = second@;
    let mut k: usize = 0;
    while k < column
        invariant
            k <= column,
            second@ == head + Seq::new(k as nat, |_i: int| ' '),
        decreases column - k,
    {
        second.push(' ');
        k = k + 1;
        assert(second@ =~= head + Seq::new(k as nat, |_i: int| ' '));
    }
    let ghost mid = second@;
    let mut w: usize = 0;
    while w < width
        invariant
            w <= width,
            second@ == mid + Seq::new(w as nat, |_i: int| '^'),
        decreases width - w,
    {
        second.push('^');
        w = w + 1;
        assert(second@ =~= mid + Seq::new(w as nat, |_i: int| '^'));
    }
    (first, second)
}

/// Counting characters before a later offset counts at least as many.
proof fn lemma_count_before_mono(s: Seq<char>, a: int, b: int, i: int)
    requires
        a <= b,
        0 <= i <= s.len(),
    ensures
        char_count_before(s, a, i) <= char_count_before(s, b, i),
    decreases s.len() - i,
{
    if i < s.len() && byte_offset(s, i) < a {
        lemma_count_before_mono(s, a, b, i + 1);
    } else if i < s.len() && byte_offset(s, i) < b {
        lemma_count_before_ge(s, b, i + 1);
    }
}

/// Counting from `i` never gives less than `i`.
proof fn lemma_count_before_ge(s: Seq<char>, b: int, i: int)
    requires
        0 <= i <= s.len(),
    ensures
        char_count_before(s, b, i) >= i,
    decreases s.len() - i,
{
    if i < s.len() && byte_offset(s, i) < b {
        lemma_count_before_ge(s, b, i + 1);
    }
}

/// The text of a pipeline as the user wrote it, for the job table: the
/// pipeline's span of the line (or the whole line if the span does not fit
/// it), trimmed, without a trailing `&`, trimmed again at the end.
pub open spec fn source_text_spec(line: Seq<char>, span: Span) -> Seq<char> {
    let text = trim_spec(
        match slice_spec(line, span.start as int, span.end as int) {
            Some(t) => t,
            None => line,
        },
    );
    let text = if text.len() > 0 && text.last() == '&' {
        text.drop_last()
    } else {
        text
    };
    trim_end_spec(text)
}

/// The text of a pipeline as the user wrote it, for the job table.
///
/// Taken from the source line rather than reconstructed from the syntax
/// tree: a job listing should show what was typed. The trailing `&` is
/// dropped because every listing already says the job is in the background.
pub fn source_text(line: &str, pipeline: &Pipeline) -> (s: String)
    requires
        fits(line@),
    ensures
        s@ == source_text_spec(line@, pipeline@.span),
{
    let span = pipeline.span();
    let text = match span.slice(line) {
        Some(t) => t,
        None => line,
    };
    let chars = chars_of(text);
    let trimmed = trim_chars(&chars);
    let body = if trimmed.len() > 0 && trimmed[trimmed.len() - 1] == '&' {
        let b = crate::text::splice(&trimmed, trimmed.len() - 1, trimmed.len(), &[]);
        assert(b@ =~= trimmed@.drop_last());
        b
    } else {
        trimmed
    };
    let result = trim_end_chars(&body);
    string_of(result.as_slice())
}

} // verus!
