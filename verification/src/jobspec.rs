//! Naming a job on the command line.
//!
//! `fg` with no argument, `fg %1`, `fg %+`, `fg %-`. The forms are small and
//! the defaults matter more than the syntax: a user who types `fg` means the
//! job they were most recently working with.

use vstd::prelude::*;
use crate::job::JobId;
use crate::text::{chars_of, parse_usize, parse_usize_chars, slice_tail};

verus! {

/// Which job a builtin was asked about.
#[derive(Debug, Clone, Copy, PartialEq, Eq, Structural)]
pub enum JobSpec {
    /// `%1` — by number.
    Id(JobId),
    /// `%%`, `%+`, or no argument at all: the current job.
    Current,
    /// `%-`: the previous job.
    Previous,
}

/// Why a job specifier could not be understood.
#[derive(Debug, Clone, PartialEq, Eq)]
pub struct BadJobSpec {
    /// What the user wrote.
    pub text: String,
}

impl BadJobSpec {
    /// The message a user sees.
    pub fn message(&self) -> (s: String)
        ensures
            s@ == self.text@ + ": no such job"@,
    {
        let mut s = self.text.clone();
        s.push_str(": no such job");
        s
    }
}

/// What a specifier names: with one leading `%` removed, an empty text,
/// `%` or `+` is the current job, `-` the previous one, and a number that
/// job; anything else is not a job.
pub open spec fn job_spec(text: Option<Seq<char>>) -> Result<JobSpec, Seq<char>> {
    match text {
        None => Ok(JobSpec::Current),
        Some(t) => {
            let body = if t.len() > 0 && t[0] == '%' {
                t.drop_first()
            } else {
                t
            };
            if body.len() == 0 || body == seq!['%'] || body == seq!['+'] {
                Ok(JobSpec::Current)
            } else if body == seq!['-'] {
                Ok(JobSpec::Previous)
            } else {
                match parse_usize(body) {
                    Some(n) => Ok(JobSpec::Id(JobId(n))),
                    None => Err(t),
                }
            }
        },
    }
}

impl JobSpec {
    /// Parse a specifier, or default to the current job.
    ///
    /// A bare number is accepted as well as `%1`, because `fg 1` is what
    /// people type and refusing it teaches nothing.
    pub fn parse(text: Option<&str>) -> (r: Result<JobSpec, BadJobSpec>)
        ensures
            match job_spec(
                match text {
                    Some(t) => Some(t@),
                    None => None,
                },
            ) {
                Ok(spec) => r == Ok::<JobSpec, BadJobSpec>(spec),
                Err(t) => r matches Err(e) && e.text@ == t,
            },
    {
        let text = match text {
            None => {
                return Ok(JobSpec::Current);
            },
            Some(t) => t,
        };
        let chars = chars_of(text);
        let body: &[char] = if chars.len() > 0 && chars[0] == '%' {
            slice_tail(chars.as_slice())
        } else {
            chars.as_slice()
        };
        if body.len() == 0 || (body.len() == 1 && (body[0] == '%' || body[0] == '+')) {
            proof {
                if body@.len() == 1 {
                    assert(body@ == seq![body@[0]]);
                }
            }
            return Ok(JobSpec::Current);
        }
        if body.len() == 1 && body[0] == '-' {
            assert(body@ =~= seq!['-']);
            return Ok(JobSpec::Previous);
        }
        proof {
            if body@.len() == 1 {
                assert(body@ == seq![body@[0]]);
            }
        }
        match parse_usize_chars(body) {
            Some(n) => Ok(JobSpec::Id(JobId(n))),
            None => Err(BadJobSpec { text: text.to_owned() }),
        }
    }
}

} // verus!
