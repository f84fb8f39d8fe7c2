//! The syntax tree: a pipeline of commands, each with words and
//! redirections.
//!
//! The tree records what the user wrote and nothing else. Which descriptor a
//! redirection ends up touching, whether a file exists, how many processes a
//! pipeline needs: those are execution facts.

use vstd::prelude::*;
use crate::span::Span;
use crate::word::{Word, WordV};

verus! {

/// One or more commands joined by `|`, optionally sent to the background.
#[derive(Debug, Clone, PartialEq, Eq)]
pub struct Pipeline {
    commands: Vec<Command>,
    background: bool,
    span: Span,
}

/// A simple command: words, plus any redirections attached to it.
#[derive(Debug, Clone, PartialEq, Eq)]
pub struct Command {
    words: Vec<Word>,
    redirects: Vec<Redirect>,
    span: Span,
}

/// A single redirection.
#[derive(Debug, Clone, PartialEq, Eq)]
pub struct Redirect {
    /// The descriptor being redirected: an explicit number (`2>err`) or the
    /// operator's default.
    fd: i32,
    kind: RedirectKind,
    span: Span,
}

/// What a redirection does.
#[derive(Debug, Clone, PartialEq, Eq)]
pub enum RedirectKind {
    /// `< file`
    Input(Word),
    /// `> file`
    Output(Word),
    /// `>> file`
    Append(Word),
    /// `<& fd`
    DupInput(Word),
    /// `>& fd` — the `1` in `2>&1`.
    DupOutput(Word),
}

/// What a [`RedirectKind`] holds.
pub enum RKindV {
    Input(WordV),
    Output(WordV),
    Append(WordV),
    DupInput(WordV),
    DupOutput(WordV),
}

/// What a [`Redirect`] holds.
pub struct RedirectV {
    pub fd: i32,
    pub kind: RKindV,
    pub span: Span,
}

/// What a [`Command`] holds.
pub struct CommandV {
    pub words: Seq<WordV>,
    pub redirects: Seq<RedirectV>,
    pub span: Span,
}

/// What a [`Pipeline`] holds.
pub struct PipelineV {
    pub commands: Seq<CommandV>,
    pub background: bool,
    pub span: Span,
}

impl View for RedirectKind {
    type V = RKindV;

    open spec fn view(&self) -> RKindV {
        match self {
            RedirectKind::Input(w) => RKindV::Input(w@),
            RedirectKind::Output(w) => RKindV::Output(w@),
            RedirectKind::Append(w) => RKindV::Append(w@),
            RedirectKind::DupInput(w) => RKindV::DupInput(w@),
            RedirectKind::DupOutput(w) => RKindV::DupOutput(w@),
        }
    }
}

impl View for Redirect {
    type V = RedirectV;

    closed spec fn view(&self) -> RedirectV {
        RedirectV { fd: self.fd, kind: self.kind@, span: self.span }
    }
}

pub open spec fn words_view(ws: Seq<Word>) -> Seq<WordV> {
    ws.map_values(|w: Word| w@)
}

pub open spec fn redirects_view(rs: Seq<Redirect>) -> Seq<RedirectV> {
    rs.map_values(|r: Redirect| r@)
}

pub open spec fn commands_view(cs: Seq<Command>) -> Seq<CommandV> {
    cs.map_values(|c: Command| c@)
}

impl View for Command {
    type V = CommandV;

    closed spec fn view(&self) -> CommandV {
        CommandV {
            words: words_view(self.words@),
            redirects: redirects_view(self.redirects@),
            span: self.span,
        }
    }
}

impl View for Pipeline {
    type V = PipelineV;

    closed spec fn view(&self) -> PipelineV {
        PipelineV {
            commands: commands_view(self.commands@),
            background: self.background,
            span: self.span,
        }
    }
}

pub proof fn lemma_words_view_push(s: Seq<Word>, x: Word)
    ensures
        words_view(s.push(x)) == words_view(s).push(x@),
{
    assert(words_view(s.push(x)) =~= words_view(s).push(x@));
}

pub proof fn lemma_redirects_view_push(s: Seq<Redirect>, x: Redirect)
    ensures
        redirects_view(s.push(x)) == redirects_view(s).push(x@),
{
    assert(redirects_view(s.push(x)) =~= redirects_view(s).push(x@));
}

pub proof fn lemma_commands_view_push(s: Seq<Command>, x: Command)
    ensures
        commands_view(s.push(x)) == commands_view(s).push(x@),
{
    assert(commands_view(s.push(x)) =~= commands_view(s).push(x@));
}

/// The descriptor an operator redirects when none was written: 0 for input,
/// 1 for output.
pub open spec fn default_fd_spec(k: RKindV) -> i32 {
    match k {
        RKindV::Input(_) | RKindV::DupInput(_) => 0,
        _ => 1,
    }
}

/// The word after the operator.
pub open spec fn target_spec(k: RKindV) -> WordV {
    match k {
        RKindV::Input(w) => w,
        RKindV::Output(w) => w,
        RKindV::Append(w) => w,
        RKindV::DupInput(w) => w,
        RKindV::DupOutput(w) => w,
    }
}

/// The operator as the user wrote it.
pub open spec fn operator_spec(k: RKindV) -> Seq<char> {
    match k {
        RKindV::Input(_) => "<"@,
        RKindV::Output(_) => ">"@,
        RKindV::Append(_) => ">>"@,
        RKindV::DupInput(_) => "<&"@,
        RKindV::DupOutput(_) => ">&"@,
    }
}

impl Pipeline {
    /// Build a pipeline. At least one command is required.
    pub fn new(commands: Vec<Command>, background: bool, span: Span) -> (p: Self)
        requires
            commands@.len() > 0,
        ensures
            p@ == (PipelineV { commands: commands_view(commands@), background, span }),
    {
        Self { commands, background, span }
    }

    /// The commands, left to right.
    pub fn commands(&self) -> (r: &[Command])
        ensures
            commands_view(r@) == self@.commands,
    {
        self.commands.as_slice()
    }

    /// Whether a trailing `&` sent the pipeline to the background.
    pub fn background(&self) -> (b: bool)
        ensures
            b == self@.background,
    {
        self.background
    }

    /// Where the pipeline appeared in the input.
    pub fn span(&self) -> (s: Span)
        ensures
            s == self@.span,
    {
        self.span
    }
}

impl Command {
    /// Build a command.
    pub fn new(words: Vec<Word>, redirects: Vec<Redirect>, span: Span) -> (c: Self)
        ensures
            c@ == (CommandV {
                words: words_view(words@),
                redirects: redirects_view(redirects@),
                span,
            }),
    {
        Self { words, redirects, span }
    }

    /// The command name and its arguments, before expansion.
    pub fn words(&self) -> (r: &[Word])
        ensures
            words_view(r@) == self@.words,
    {
        self.words.as_slice()
    }

    /// Redirections, in the order written: `>out 2>&1` and `2>&1 >out` mean
    /// different things.
    pub fn redirects(&self) -> (r: &[Redirect])
        ensures
            redirects_view(r@) == self@.redirects,
    {
        self.redirects.as_slice()
    }

    /// Where the command appeared in the input.
    pub fn span(&self) -> (s: Span)
        ensures
            s == self@.span,
    {
        self.span
    }
}

impl Redirect {
    /// Build a redirection.
    pub fn new(fd: i32, kind: RedirectKind, span: Span) -> (r: Self)
        ensures
            r@ == (RedirectV { fd, kind: kind@, span }),
    {
        Self { fd, kind, span }
    }

    /// The descriptor being redirected.
    pub fn fd(&self) -> (n: i32)
        ensures
            n == self@.fd,
    {
        self.fd
    }

    /// What kind of redirection it is.
    pub fn kind(&self) -> (k: &RedirectKind)
        ensures
            k@ == self@.kind,
    {
        &self.kind
    }

    /// Where the redirection appeared in the input.
    pub fn span(&self) -> (s: Span)
        ensures
            s == self@.span,
    {
        self.span
    }
}

impl RedirectKind {
    /// The default descriptor for this operator when none was written.
    pub fn default_fd(&self) -> (n: i32)
        ensures
            n == default_fd_spec(self@),
    {
        match self {
            RedirectKind::Input(_) | RedirectKind::DupInput(_) => 0,
            RedirectKind::Output(_) | RedirectKind::Append(_) | RedirectKind::DupOutput(_) => 1,
        }
    }

    /// The operator as the user wrote it.
    pub fn operator(&self) -> (s: &'static str)
        ensures
            s@ == operator_spec(self@),
    {
        match self {
            RedirectKind::Input(_) => "<",
            RedirectKind::Output(_) => ">",
            RedirectKind::Append(_) => ">>",
            RedirectKind::DupInput(_) => "<&",
            RedirectKind::DupOutput(_) => ">&",
        }
    }

    /// The word after the operator.
    pub fn target(&self) -> (w: &Word)
        ensures
            w@ == target_spec(self@),
    {
        match self {
            RedirectKind::Input(word)
            | RedirectKind::Output(word)
            | RedirectKind::Append(word)
            | RedirectKind::DupInput(word)
            | RedirectKind::DupOutput(word) => word,
        }
    }
}

} // verus!
