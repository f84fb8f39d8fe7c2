//! Preparing redirections.
//!
//! A command's redirections become a list of steps, in the order written:
//! open this file for that descriptor, or make this descriptor a copy of
//! that one. Expanding each target, deciding what it means, and refusing a
//! copy of a descriptor the shell does not have open happen here; opening
//! the files is the caller's, in the same order, because that order is
//! observable: `> f > f` truncates twice, and `> a > b` leaves `a` created
//! but empty. A caller that opens each file before taking the next
//! redirection goes one step at a time, with [`plan_step`].

use vstd::prelude::*;
use crate::ast::{redirects_view, target_spec, Command, RKindV, Redirect, RedirectKind, RedirectV};
use crate::expand::{answers, expand_one, expand_word_spec, separators_answer, Environment};
use crate::span::Span;
use crate::text::{chars_of, dec_int, dec_nat, decimal, parse_i32, parse_i32_chars, push_decimal};
use crate::word::WordV;

verus! {

/// How a redirection opens its file.
#[derive(Debug, Clone, Copy, PartialEq, Eq, Structural)]
pub enum FileMode {
    /// `<`: read.
    Read,
    /// `>`: write, creating the file or emptying it.
    Truncate,
    /// `>>`: write at the end, creating the file if need be.
    Append,
}

/// One descriptor change to make, in order.
#[derive(Debug, Clone, PartialEq, Eq)]
pub enum Step {
    /// Open `path` with `mode` and make descriptor `fd` refer to it.
    Open { fd: i32, path: String, mode: FileMode, span: Span },
    /// Make descriptor `fd` refer to whatever `source` refers to.
    Duplicate { fd: i32, source: i32, span: Span },
}

/// What a [`Step`] says.
pub enum StepV {
    Open(i32, Seq<char>, FileMode, Span),
    Duplicate(i32, i32, Span),
}

impl View for Step {
    type V = StepV;

    open spec fn view(&self) -> StepV {
        match self {
            Step::Open { fd, path, mode, span } => StepV::Open(*fd, path@, *mode, *span),
            Step::Duplicate { fd, source, span } => StepV::Duplicate(*fd, *source, *span),
        }
    }
}

/// Why opening a redirection's file failed.
#[derive(Debug, Clone, PartialEq, Eq)]
pub enum OpenError {
    /// The system refused, with this `errno`.
    Os(i32),
    /// Some other failure, described.
    Other(String),
}

/// Why a redirection could not be set up.
#[derive(Debug, Clone, PartialEq, Eq)]
pub enum RedirectError {
    /// The target expanded to something other than exactly one word.
    ///
    /// `> $FILES` with `FILES="a b"` is an error rather than a redirection to
    /// two files, because there is no sensible thing for it to mean.
    Ambiguous { fields: usize, span: Span },
    /// The file could not be opened.
    Open { path: String, error: OpenError, span: Span },
    /// `>&x` where `x` is not a number.
    NotADescriptor { text: String, span: Span },
    /// `>&9` where descriptor 9 is not open.
    DescriptorNotOpen { fd: i32, span: Span },
    /// `>&-`, which closes a descriptor.
    CloseUnsupported { span: Span },
}

/// What an [`OpenError`] says.
pub enum OpenErrorV {
    Os(i32),
    Other(Seq<char>),
}

impl View for OpenError {
    type V = OpenErrorV;

    open spec fn view(&self) -> OpenErrorV {
        match self {
            OpenError::Os(code) => OpenErrorV::Os(*code),
            OpenError::Other(text) => OpenErrorV::Other(text@),
        }
    }
}

/// What a [`RedirectError`] says.
pub enum RedirectErrorV {
    Ambiguous(usize, Span),
    Open(Seq<char>, OpenErrorV, Span),
    NotADescriptor(Seq<char>, Span),
    DescriptorNotOpen(i32, Span),
    CloseUnsupported(Span),
}

impl View for RedirectError {
    type V = RedirectErrorV;

    open spec fn view(&self) -> RedirectErrorV {
        match self {
            RedirectError::Ambiguous { fields, span } => RedirectErrorV::Ambiguous(*fields, *span),
            RedirectError::Open { path, error, span } => RedirectErrorV::Open(
                path@,
                error@,
                *span,
            ),
            RedirectError::NotADescriptor { text, span } => RedirectErrorV::NotADescriptor(
                text@,
                *span,
            ),
            RedirectError::DescriptorNotOpen { fd, span } => RedirectErrorV::DescriptorNotOpen(
                *fd,
                *span,
            ),
            RedirectError::CloseUnsupported { span } => RedirectErrorV::CloseUnsupported(*span),
        }
    }
}

/// The text `strerror` gives an `errno`, as `nix`'s `Errno::from_raw` and
/// `Errno::desc` report it. The numbering and the words are the
/// platform's, so nothing is promised of them.
#[verifier::external_body]
fn errno_text(code: i32) -> (s: String) {
    nix::errno::Errno::from_raw(code).desc().to_owned()
}

/// `t` is the description `nix` gave for `errno` `code`.
pub closed spec fn errno_described(code: i32, t: Seq<char>) -> bool {
    exists|d: String| #[trigger] call_ensures(errno_text, (code,), d) && t == d@
}

/// The characters at fault in a redirection error.
pub open spec fn error_span(e: RedirectErrorV) -> Span {
    match e {
        RedirectErrorV::Ambiguous(_, s) => s,
        RedirectErrorV::Open(_, _, s) => s,
        RedirectErrorV::NotADescriptor(_, s) => s,
        RedirectErrorV::DescriptorNotOpen(_, s) => s,
        RedirectErrorV::CloseUnsupported(s) => s,
    }
}

/// What a [`RedirectError`] says. Why a file would not open follows the
/// path and a colon: the failure's own words, or the system's description
/// of its `errno`, whose wording is the platform's.
pub open spec fn redirect_message_fits(e: RedirectErrorV, s: Seq<char>) -> bool {
    match e {
        RedirectErrorV::Ambiguous(n, _) => s == "ambiguous redirect: target expanded to "@ + dec_nat(
            n as nat,
        ) + " words"@,
        RedirectErrorV::Open(p, OpenErrorV::Other(t), _) => s == p + ": "@ + t,
        RedirectErrorV::Open(p, OpenErrorV::Os(code), _) => s.len() >= p.len() + 2 && s.take(
            p.len() + 2int,
        ) == p + ": "@ && errno_described(code, s.skip(p.len() + 2int)),
        RedirectErrorV::NotADescriptor(t, _) => s == "`"@ + t + "`: not a file descriptor number"@,
        RedirectErrorV::DescriptorNotOpen(fd, _) => s == dec_int(fd as int)
            + ": bad file descriptor"@,
        RedirectErrorV::CloseUnsupported(_) => s
            == "closing a descriptor with `>&-` is not supported yet"@,
    }
}

impl RedirectError {
    /// The characters at fault.
    pub fn span(&self) -> (s: Span)
        ensures
            s == error_span(self@),
    {
        match self {
            RedirectError::Ambiguous { span, .. } => *span,
            RedirectError::Open { span, .. } => *span,
            RedirectError::NotADescriptor { span, .. } => *span,
            RedirectError::DescriptorNotOpen { span, .. } => *span,
            RedirectError::CloseUnsupported { span } => *span,
        }
    }

    /// The message a user sees. A file that would not open is reported with
    /// the system's bare description of why, as other shells print it.
    pub fn message(&self) -> (s: String)
        ensures
            redirect_message_fits(self@, s@),
    {
        match self {
            RedirectError::Ambiguous { fields, .. } => {
                let mut s = "ambiguous redirect: target expanded to ".to_owned();
                push_decimal(&mut s, *fields as u64);
                s.push_str(" words");
                s
            },
            RedirectError::Open { path, error, .. } => {
                let mut s = path.clone();
                proof {
                    reveal_strlit(": ");
                }
                s.push_str(": ");
                let ghost head = s@;
                let reason = match error {
                    OpenError::Os(code) => {
                        let d = errno_text(*code);
                        assert(call_ensures(errno_text, (*code,), d));
                        d
                    },
                    OpenError::Other(text) => text.clone(),
                };
                s.push_str(reason.as_str());
                assert(s@.take(head.len() as int) =~= head);
                assert(s@.skip(head.len() as int) =~= reason@);
                proof {
                    if let OpenError::Other(text) = error {
                        assert(s@ =~= path@ + ": "@ + text@);
                    }
                }
                s
            },
            RedirectError::NotADescriptor { text, .. } => {
                let mut s = "`".to_owned();
                s.push_str(text.as_str());
                s.push_str("`: not a file descriptor number");
                s
            },
            RedirectError::DescriptorNotOpen { fd, .. } => {
                let mut s = decimal(*fd as i64);
                s.push_str(": bad file descriptor");
                s
            },
            RedirectError::CloseUnsupported { .. } => {
                "closing a descriptor with `>&-` is not supported yet".to_owned()
            },
        }
    }
}

/// The descriptor number a `>&` or `<&` target names, if it names one:
/// `-` names none, and neither does anything but a number.
pub open spec fn descriptor_number(text: Seq<char>) -> Option<i32> {
    if text == seq!['-'] {
        None
    } else {
        parse_i32(text)
    }
}

/// The source descriptor a `>&` or `<&` target names, where `open` says
/// whether that descriptor is open in the shell: `-` would close the
/// descriptor, which is not supported; anything but a number is refused;
/// and so is a descriptor that is not open.
pub open spec fn descriptor_spec(text: Seq<char>, span: Span, open: bool) -> Result<
    i32,
    RedirectErrorV,
> {
    if text == seq!['-'] {
        Err(RedirectErrorV::CloseUnsupported(span))
    } else {
        match parse_i32(text) {
            Some(n) => if open {
                Ok(n)
            } else {
                Err(RedirectErrorV::DescriptorNotOpen(n, span))
            },
            None => Err(RedirectErrorV::NotADescriptor(text, span)),
        }
    }
}

/// `open` is what `is_open` answered for the descriptor `text` names, if
/// it names one.
pub open spec fn open_answered<F: Fn(i32) -> bool>(is_open: F, text: Seq<char>, open: bool) -> bool {
    match descriptor_number(text) {
        Some(n) => call_ensures(is_open, (n,), open),
        None => true,
    }
}

/// Whether a redirection copies a descriptor rather than opening a file.
pub open spec fn duplicates(k: RKindV) -> bool {
    k matches RKindV::DupInput(_) || k matches RKindV::DupOutput(_)
}

/// The step a redirection becomes once its target has expanded to `text`,
/// where `open` says whether the descriptor it would copy is open.
pub open spec fn step_spec(r: RedirectV, text: Seq<char>, open: bool) -> Result<
    StepV,
    RedirectErrorV,
> {
    match r.kind {
        RKindV::Input(_) => Ok(StepV::Open(r.fd, text, FileMode::Read, r.span)),
        RKindV::Output(_) => Ok(StepV::Open(r.fd, text, FileMode::Truncate, r.span)),
        RKindV::Append(_) => Ok(StepV::Open(r.fd, text, FileMode::Append, r.span)),
        RKindV::DupInput(_) | RKindV::DupOutput(_) => match descriptor_spec(text, r.span, open) {
            Ok(source) => Ok(StepV::Duplicate(r.fd, source, r.span)),
            Err(e) => Err(e),
        },
    }
}

/// What expanding a target gave, for what the environment answered: the
/// one word, or how many there were instead.
pub open spec fn expansion_answered<E: Environment>(
    env: &E,
    w: WordV,
    out: Result<Seq<char>, nat>,
) -> bool {
    exists|seps: Seq<char>, vals: Seq<Seq<char>>|
        {
            let f = #[trigger] expand_word_spec(w, vals, seps);
            &&& separators_answer(env, seps)
            &&& answers(env, w.parts, vals)
            &&& match out {
                Ok(t) => f == seq![t],
                Err(n) => f.len() != 1 && n == f.len(),
            }
        }
}

/// What expanding a target gave, as text or a count.
pub open spec fn outcome_view(r: Result<String, crate::expand::AmbiguousRedirect>) -> Result<
    Seq<char>,
    nat,
> {
    match r {
        Ok(t) => Ok(t@),
        Err(e) => Err(e.fields as nat),
    }
}

/// What was learned of redirection `r`: what its target expanded to, and
/// whether the descriptor it would copy is open.
pub open spec fn answered<E: Environment, F: Fn(i32) -> bool>(
    env: &E,
    is_open: F,
    r: RedirectV,
    out: (Result<Seq<char>, nat>, bool),
) -> bool {
    &&& expansion_answered(env, target_spec(r.kind), out.0)
    &&& (duplicates(r.kind) && out.0 is Ok) ==> open_answered(is_open, out.0->Ok_0, out.1)
}

/// What redirection `r` becomes, given what was learned of it: a target
/// that did not expand to one word is ambiguous; otherwise the step its
/// text makes.
pub open spec fn step_outcome(r: RedirectV, out: (Result<Seq<char>, nat>, bool)) -> Result<
    StepV,
    RedirectErrorV,
> {
    match out.0 {
        Err(n) => Err(RedirectErrorV::Ambiguous(n as usize, r.span)),
        Ok(t) => step_spec(r, t, out.1),
    }
}

/// The steps of redirections from index `i` on, given what was learned of
/// each, stopping at the first error.
pub open spec fn plan_from(
    rs: Seq<RedirectV>,
    outs: Seq<(Result<Seq<char>, nat>, bool)>,
    i: int,
    acc: Seq<StepV>,
) -> (Seq<StepV>, Option<RedirectErrorV>)
    decreases rs.len() - i,
{
    if i < 0 || i >= rs.len() || i >= outs.len() {
        (acc, None)
    } else {
        match step_outcome(rs[i], outs[i]) {
            Ok(st) => plan_from(rs, outs, i + 1, acc.push(st)),
            Err(e) => (acc, Some(e)),
        }
    }
}

/// `r` is what `expected` says: the same step, or the same error.
pub open spec fn step_matches(expected: Result<StepV, RedirectErrorV>, r: Result<Step, RedirectError>) -> bool {
    match expected {
        Ok(st) => r matches Ok(x) && x@ == st,
        Err(e) => r matches Err(x) && x@ == e,
    }
}

/// The views of a list of steps.
pub open spec fn steps_view(v: Seq<Step>) -> Seq<StepV> {
    v.map_values(|s: Step| s@)
}

/// The view of an optional error.
pub open spec fn opt_error_view(e: Option<RedirectError>) -> Option<RedirectErrorV> {
    match e {
        Some(x) => Some(x@),
        None => None,
    }
}

/// Resolve the right-hand side of `>&` to a descriptor number, asking
/// `is_open` whether the descriptor it names is open in the shell.
///
/// The check is made here so that `2>&9` is a message rather than a silent
/// failure inside the child, where the only way to report anything is an
/// exit code.
pub fn descriptor<F: Fn(i32) -> bool>(text: &str, span: Span, is_open: &F) -> (r: Result<
    i32,
    RedirectError,
>)
    requires
        forall|fd: i32| call_requires(*is_open, (fd,)),
    ensures
        exists|open: bool|
            {
                &&& open_answered(*is_open, text@, open)
                &&& match descriptor_spec(text@, span, open) {
                    Ok(n) => r == Ok::<i32, RedirectError>(n),
                    Err(e) => r matches Err(x) && x@ == e,
                }
            },
{
    let chars = chars_of(text);
    if chars.len() == 1 && chars[0] == '-' {
        assert(text@ =~= seq!['-']);
        assert(open_answered(*is_open, text@, true));
        return Err(RedirectError::CloseUnsupported { span });
    }
    proof {
        if text@ == seq!['-'] {
            assert(chars@.len() == 1 && chars@[0] == '-');
        }
    }
    match parse_i32_chars(chars.as_slice()) {
        Some(n) => {
            let open = is_open(n);
            assert(open_answered(*is_open, text@, open));
            if open {
                Ok(n)
            } else {
                Err(RedirectError::DescriptorNotOpen { fd: n, span })
            }
        },
        None => {
            assert(open_answered(*is_open, text@, true));
            Err(RedirectError::NotADescriptor { text: text.to_owned(), span })
        },
    }
}

/// The step a redirection becomes once its target has expanded to `text`,
/// asking `is_open` about the descriptor a copy would be made of.
pub fn step_for<F: Fn(i32) -> bool>(redirect: &Redirect, text: &str, is_open: &F) -> (r: Result<
    Step,
    RedirectError,
>)
    requires
        forall|fd: i32| call_requires(*is_open, (fd,)),
    ensures
        exists|open: bool|
            {
                &&& duplicates(redirect@.kind) ==> open_answered(*is_open, text@, open)
                &&& step_matches(#[trigger] step_spec(redirect@, text@, open), r)
            },
{
    let fd = redirect.fd();
    let span = redirect.span();
    match redirect.kind() {
        RedirectKind::Input(_) => {
            let r = Ok(Step::Open { fd, path: text.to_owned(), mode: FileMode::Read, span });
            assert(!duplicates(redirect@.kind));
            assert(step_matches(step_spec(redirect@, text@, true), r));
            r
        },
        // Truncate, not append. `>` empties an existing file even if the
        // command that follows writes nothing at all.
        RedirectKind::Output(_) => {
            let r = Ok(Step::Open { fd, path: text.to_owned(), mode: FileMode::Truncate, span });
            assert(!duplicates(redirect@.kind));
            assert(step_matches(step_spec(redirect@, text@, true), r));
            r
        },
        // O_APPEND moves to the end before every write, atomically, which is
        // what `cmd >> log &` needs when two processes share the file.
        RedirectKind::Append(_) => {
            let r = Ok(Step::Open { fd, path: text.to_owned(), mode: FileMode::Append, span });
            assert(!duplicates(redirect@.kind));
            assert(step_matches(step_spec(redirect@, text@, true), r));
            r
        },
        RedirectKind::DupInput(_) | RedirectKind::DupOutput(_) => {
            let d = descriptor(text, span, is_open);
            let ghost open = choose|open: bool|
                {
                    &&& open_answered(*is_open, text@, open)
                    &&& match descriptor_spec(text@, span, open) {
                        Ok(n) => d == Ok::<i32, RedirectError>(n),
                        Err(e) => d matches Err(x) && x@ == e,
                    }
                };
            let r = match d {
                Ok(source) => Ok(Step::Duplicate { fd, source, span }),
                Err(e) => Err(e),
            };
            assert(step_matches(step_spec(redirect@, text@, open), r));
            r
        },
    }
}

/// The step one redirection becomes, asking `env` what its target expands
/// to and, for a copy, `is_open` whether the descriptor to copy is open in
/// the shell.
///
/// A caller that carries out each step before taking the next redirection
/// asks about a descriptor only once the earlier steps are in place, so
/// `3> out 4>&3` finds descriptor 3 as opening `out` left it.
pub fn plan_step<E: Environment, F: Fn(i32) -> bool>(
    redirect: &Redirect,
    env: &E,
    is_open: &F,
) -> (r: Result<Step, RedirectError>)
    requires
        forall|fd: i32| call_requires(*is_open, (fd,)),
    ensures
        exists|out: (Result<Seq<char>, nat>, bool)|
            answered(env, *is_open, redirect@, out) && step_matches(
                #[trigger] step_outcome(redirect@, out),
                r,
            ),
{
    let target = redirect.kind().target();
    assert(target@ == target_spec(redirect@.kind));
    let expanded = expand_one(target, env);
    assert(expansion_answered(env, target_spec(redirect@.kind), outcome_view(expanded)));
    match expanded {
        Err(error) => {
            let ghost out = (Err::<Seq<char>, nat>(error.fields as nat), true);
            let r = Err(RedirectError::Ambiguous { fields: error.fields, span: redirect.span() });
            assert(answered(env, *is_open, redirect@, out));
            assert(step_matches(step_outcome(redirect@, out), r));
            r
        },
        Ok(text) => {
            let stepped = step_for(redirect, text.as_str(), is_open);
            let ghost open = choose|open: bool|
                {
                    &&& duplicates(redirect@.kind) ==> open_answered(*is_open, text@, open)
                    &&& step_matches(step_spec(redirect@, text@, open), stepped)
                };
            let ghost out = (Ok::<Seq<char>, nat>(text@), open);
            assert(answered(env, *is_open, redirect@, out));
            assert(step_matches(step_outcome(redirect@, out), stepped));
            stepped
        },
    }
}

/// Turn a command's redirections into steps, in the order written, asking
/// `env` for what each target expands to and `is_open` whether each
/// descriptor to be copied is open in the shell.
///
/// Stops at the first redirection that cannot be carried out, returning the
/// steps before it and the reason. Every question is asked before any step
/// is carried out; [`plan_step`] takes one redirection at a time, for a
/// caller that carries each step out before asking about the next.
pub fn plan<E: Environment, F: Fn(i32) -> bool>(command: &Command, env: &E, is_open: &F) -> (r: (
    Vec<Step>,
    Option<RedirectError>,
))
    requires
        forall|fd: i32| call_requires(*is_open, (fd,)),
    ensures
        exists|outs: Seq<(Result<Seq<char>, nat>, bool)>|
            {
                &&& outs.len() <= command@.redirects.len()
                &&& r.1 is None ==> outs.len() == command@.redirects.len()
                &&& r.1 is Some ==> r.0@.len() + 1 == outs.len()
                &&& forall|i: int|
                    0 <= i < outs.len() ==> answered(
                        env,
                        *is_open,
                        command@.redirects[i],
                        #[trigger] outs[i],
                    )
                &&& (steps_view(r.0@), opt_error_view(r.1)) == plan_from(
                    command@.redirects,
                    outs,
                    0,
                    seq![],
                )
            },
{
    let redirects = command.redirects();
    let ghost rs = command@.redirects;
    let mut steps: Vec<Step> = Vec::new();
    let ghost mut outs: Seq<(Result<Seq<char>, nat>, bool)> = seq![];
    let mut i: usize = 0;
    assert(steps_view(steps@) =~= Seq::<StepV>::empty());
    while i < redirects.len()
        invariant
            i <= redirects@.len(),
            rs == command@.redirects,
            redirects_view(redirects@) == rs,
            outs.len() == i,
            steps@.len() == i,
            forall|fd: i32| call_requires(*is_open, (fd,)),
            forall|k: int| 0 <= k < i ==> answered(env, *is_open, rs[k], #[trigger] outs[k]),
            plan_from(rs, outs, 0, seq![]) == plan_from(rs, outs, i as int, steps_view(steps@)),
        decreases redirects.len() - i,
    {
        let redirect = &redirects[i];
        assert(rs[i as int] == redirect@);
        let ghost before = outs;
        let stepped = plan_step(redirect, env, is_open);
        let ghost out = choose|out: (Result<Seq<char>, nat>, bool)|
            answered(env, *is_open, redirect@, out) && step_matches(
                #[trigger] step_outcome(redirect@, out),
                stepped,
            );
        proof {
            outs = outs.push(out);
            lemma_answered_push(env, *is_open, rs, before, out, i as int);
            lemma_plan_prefix(rs, before, out, i as int, steps_view(steps@));
            assert(outs[i as int] == out);
        }
        match stepped {
            Ok(step) => {
                proof {
                    assert(steps_view(steps@.push(step)) =~= steps_view(steps@).push(step@));
                }
                steps.push(step);
            },
            Err(e) => {
                let r = (steps, Some(e));
                assert((steps_view(r.0@), opt_error_view(r.1)) == plan_from(
                    command@.redirects,
                    outs,
                    0,
                    seq![],
                ));
                return r;
            },
        }
        i = i + 1;
    }
    (steps, None)
}

/// What was learned of the earlier redirections still holds with one more.
proof fn lemma_answered_push<E: Environment, F: Fn(i32) -> bool>(
    env: &E,
    is_open: F,
    rs: Seq<RedirectV>,
    outs: Seq<(Result<Seq<char>, nat>, bool)>,
    out: (Result<Seq<char>, nat>, bool),
    i: int,
)
    requires
        0 <= i == outs.len() < rs.len(),
        forall|k: int| 0 <= k < i ==> answered(env, is_open, rs[k], #[trigger] outs[k]),
        answered(env, is_open, rs[i], out),
    ensures
        forall|k: int| 0 <= k < i + 1 ==> answered(env, is_open, rs[k], #[trigger] outs.push(out)[k]),
{
    assert forall|k: int| 0 <= k < i + 1 implies answered(
        env,
        is_open,
        rs[k],
        #[trigger] outs.push(out)[k],
    ) by {
        if k < i {
            assert(outs.push(out)[k] == outs[k]);
        }
    }
}

/// Knowing one more redirection does not change how the earlier ones plan.
proof fn lemma_plan_prefix(
    rs: Seq<RedirectV>,
    outs: Seq<(Result<Seq<char>, nat>, bool)>,
    out: (Result<Seq<char>, nat>, bool),
    i: int,
    acc: Seq<StepV>,
)
    requires
        0 <= i == outs.len() < rs.len(),
        plan_from(rs, outs, 0, seq![]) == plan_from(rs, outs, i, acc),
    ensures
        plan_from(rs, outs.push(out), 0, seq![]) == plan_from(rs, outs.push(out), i, acc),
{
    lemma_plan_extend(rs, outs, out, 0, seq![], i, acc);
}

/// Planning with more redirections known agrees with planning with fewer,
/// up to the point where the fewer run out.
proof fn lemma_plan_extend(
    rs: Seq<RedirectV>,
    outs: Seq<(Result<Seq<char>, nat>, bool)>,
    out: (Result<Seq<char>, nat>, bool),
    j: int,
    accj: Seq<StepV>,
    i: int,
    acci: Seq<StepV>,
)
    requires
        0 <= j <= i == outs.len() < rs.len(),
        plan_from(rs, outs, j, accj) == plan_from(rs, outs, i, acci),
    ensures
        plan_from(rs, outs.push(out), j, accj) == plan_from(rs, outs.push(out), i, acci),
    decreases i - j,
{
    let o2 = outs.push(out);
    if j < i {
        assert(o2[j] == outs[j]);
        match step_outcome(rs[j], outs[j]) {
            Ok(st) => {
                lemma_plan_extend(rs, outs, out, j + 1, accj.push(st), i, acci);
            },
            Err(_) => {
                // Both stop at `j`; the one with fewer redirections stops at
                // the same place, so it cannot equal the state at `i`.
                lemma_plan_stops(rs, outs, i, acci);
            },
        }
    }
}

/// With nothing known of redirection `i`, planning from `i` finishes with
/// no error.
proof fn lemma_plan_stops(
    rs: Seq<RedirectV>,
    outs: Seq<(Result<Seq<char>, nat>, bool)>,
    i: int,
    acc: Seq<StepV>,
)
    requires
        0 <= i == outs.len(),
    ensures
        plan_from(rs, outs, i, acc) == (acc, None::<RedirectErrorV>),
{
}

} // verus!
