//! Tokens to a syntax tree.
//!
//! The grammar is small enough to state in full:
//!
//! ```text
//! pipeline := command ( '|' command )* [ '&' ]
//! command  := ( word | redirect )+          -- at least one word
//! redirect := [io_number] operator word
//! ```
//!
//! Everything else the lexer can produce — `&&`, `||`, `;`, `<<` — is
//! recognised and refused.

use vstd::prelude::*;
use crate::ast::{
    lemma_commands_view_push, lemma_redirects_view_push, lemma_words_view_push, CommandV,
    PipelineV, RKindV, RedirectV, Command, Pipeline, Redirect, RedirectKind, commands_view,
    default_fd_spec, redirects_view, words_view,
};
use crate::error::{err_span, ErrV, ParseError};
use crate::lexer::{inside, lemma_lex_run_inside, lex, token_inside, tokenize};
use crate::span::{join, Span};
use crate::text::{byte_len, fits};
use crate::token::{describe_spec, is_redirect_op, tokens_view, KindV, Token, TokenKind, TokenV};
use crate::word::{Word, WordV};

verus! {

// ---- the grammar, as functions of the tokens -------------------------------

/// The position just past the token before `p`, for pointing at something
/// missing rather than wrong.
pub open spec fn end_of_previous(t: Seq<TokenV>, p: int) -> usize {
    let i = if p >= 1 { p - 1 } else { 0 };
    if 0 <= i < t.len() {
        t[i].span.end
    } else {
        0
    }
}

/// Where the token at `p` starts, or 0 past the end.
pub open spec fn start_at(t: Seq<TokenV>, p: int) -> usize {
    if 0 <= p < t.len() {
        t[p].span.start
    } else {
        0
    }
}

/// A redirection starting at token `p`, and where it ends.
pub open spec fn redirect_spec(t: Seq<TokenV>, p: int) -> Result<(RedirectV, int), ErrV> {
    let start = start_at(t, p);
    let explicit = 0 <= p < t.len() && t[p].kind is IoNumber;
    let q = if explicit { p + 1 } else { p };
    if q < 0 || q >= t.len() {
        Err(
            ErrV::MissingRedirectTarget {
                operator: "redirection"@,
                span: Span { start: end_of_previous(t, q), end: end_of_previous(t, q) },
            },
        )
    } else {
        let op = t[q];
        if op.kind is DLess {
            Err(ErrV::Unsupported { token: "<<"@, phase: None, span: op.span })
        } else if q + 1 >= t.len() || !(t[q + 1].kind is Word) {
            Err(ErrV::MissingRedirectTarget { operator: describe_spec(op.kind), span: op.span })
        } else {
            let w = t[q + 1].kind->Word_0;
            let kind = match op.kind {
                KindV::Less => Some(RKindV::Input(w)),
                KindV::Great => Some(RKindV::Output(w)),
                KindV::DGreat => Some(RKindV::Append(w)),
                KindV::LessAnd => Some(RKindV::DupInput(w)),
                KindV::GreatAnd => Some(RKindV::DupOutput(w)),
                _ => None,
            };
            match kind {
                None => Err(
                    ErrV::MissingRedirectTarget {
                        operator: describe_spec(op.kind),
                        span: op.span,
                    },
                ),
                Some(k) => {
                    let fd = if explicit {
                        t[p].kind->IoNumber_0
                    } else {
                        default_fd_spec(k)
                    };
                    Ok(
                        (
                            RedirectV { fd, kind: k, span: Span { start, end: w.span.end } },
                            q + 2,
                        ),
                    )
                },
            }
        }
    }
}

/// A redirection written without a descriptor number applies to standard
/// input for the input operators `<` and `<&`, and to standard output for
/// the output operators `>`, `>>` and `>&`; one written with a number
/// applies to that number.
pub proof fn law_an_unnumbered_redirection_uses_the_standard_descriptor(t: Seq<TokenV>, p: int)
    requires
        0 <= p < t.len(),
    ensures
        redirect_spec(t, p) matches Ok((r, _)) ==> r.fd == match t[p].kind {
            KindV::IoNumber(n) => n,
            KindV::Less | KindV::LessAnd => 0,
            _ => 1,
        },
        !(t[p].kind is IoNumber) && (t[p].kind is Less || t[p].kind is LessAnd || t[p].kind is Great
            || t[p].kind is DGreat || t[p].kind is GreatAnd) && p + 1 < t.len() && t[p + 1].kind is Word
            ==> redirect_spec(t, p) is Ok,
{
}

/// Whether the token at `p` can continue a command as a word.
pub open spec fn is_word_at(t: Seq<TokenV>, p: int) -> bool {
    0 <= p < t.len() && t[p].kind is Word
}

/// Whether the token at `p` begins a redirection.
pub open spec fn is_redirect_at(t: Seq<TokenV>, p: int) -> bool {
    0 <= p < t.len() && (t[p].kind is IoNumber || is_redirect_op(t[p].kind))
}

/// The words and redirections of a command from token `p`: what was
/// gathered, where the last one ended, and where reading stopped.
pub open spec fn cmd_loop(
    t: Seq<TokenV>,
    p: int,
    words: Seq<WordV>,
    reds: Seq<RedirectV>,
    end: usize,
) -> Result<(Seq<WordV>, Seq<RedirectV>, usize, int), ErrV>
    decreases t.len() - p,
{
    if is_word_at(t, p) {
        cmd_loop(t, p + 1, words.push(t[p].kind->Word_0), reds, t[p].span.end)
    } else if is_redirect_at(t, p) {
        match redirect_spec(t, p) {
            Err(e) => Err(e),
            Ok((r, q)) => {
                proof {
                    lemma_redirect_advances(t, p);
                }
                cmd_loop(t, q, words, reds.push(r), r.span.end)
            },
        }
    } else {
        Ok((words, reds, end, p))
    }
}

/// A command starting at token `p`, and where it ends.
pub open spec fn command_spec(t: Seq<TokenV>, p: int) -> Result<(CommandV, int), ErrV> {
    let start = start_at(t, p);
    match cmd_loop(t, p, seq![], seq![], start) {
        Err(e) => Err(e),
        Ok((ws, rs, end, q)) => if ws.len() == 0 {
            let span = if rs.len() == 0 {
                Span { start: end_of_previous(t, q), end: end_of_previous(t, q) }
            } else {
                Span { start, end }
            };
            Err(ErrV::MissingCommand { span })
        } else {
            Ok((CommandV { words: ws, redirects: rs, span: Span { start, end } }, q))
        },
    }
}

/// More `| command` stages from token `p`.
pub open spec fn pipe_loop(t: Seq<TokenV>, p: int, cmds: Seq<CommandV>, span: Span) -> Result<
    (Seq<CommandV>, Span, int),
    ErrV,
>
    decreases t.len() - p,
{
    if 0 <= p < t.len() && t[p].kind is Pipe {
        if p + 1 >= t.len() {
            Err(ErrV::MissingCommand { span: t[p].span })
        } else {
            match command_spec(t, p + 1) {
                Err(e) => Err(e),
                Ok((c, q)) => {
                    proof {
                        lemma_command_advances(t, p + 1);
                    }
                    pipe_loop(t, q, cmds.push(c), join(span, c.span))
                },
            }
        }
    } else {
        Ok((cmds, span, p))
    }
}

/// A token the grammar has no place for, as the most useful error
/// available.
pub open spec fn unsupported_spec(tok: TokenV) -> ErrV {
    if tok.kind is AndIf || tok.kind is OrIf || tok.kind is Semi || tok.kind is Amp {
        ErrV::Unsupported { token: describe_spec(tok.kind), phase: None, span: tok.span }
    } else {
        ErrV::UnexpectedToken {
            token: seq!['`'] + describe_spec(tok.kind) + seq!['`'],
            span: tok.span,
        }
    }
}

/// What follows the stages of a pipeline: an optional `&`, then nothing.
pub open spec fn finish_pipeline(t: Seq<TokenV>, stages: Result<(Seq<CommandV>, Span, int), ErrV>) -> Result<PipelineV, ErrV> {
    match stages {
        Err(e) => Err(e),
        Ok((cmds, span, q)) => {
            let bg = 0 <= q < t.len() && t[q].kind is Amp;
            let span = if bg {
                join(span, t[q].span)
            } else {
                span
            };
            let r = if bg {
                q + 1
            } else {
                q
            };
            if 0 <= r < t.len() {
                Err(unsupported_spec(t[r]))
            } else {
                Ok(PipelineV { commands: cmds, background: bg, span })
            }
        },
    }
}

/// A whole line's tokens as one pipeline.
pub open spec fn pipeline_spec(t: Seq<TokenV>) -> Result<PipelineV, ErrV> {
    match command_spec(t, 0) {
        Err(e) => Err(e),
        Ok((c, p)) => finish_pipeline(t, pipe_loop(t, p, seq![c], c.span)),
    }
}

/// The tree a token stream describes: nothing for no tokens.
pub open spec fn parse_tokens(t: Seq<TokenV>) -> Result<Option<PipelineV>, ErrV> {
    if t.len() == 0 {
        Ok(None)
    } else {
        match pipeline_spec(t) {
            Ok(p) => Ok(Some(p)),
            Err(e) => Err(e),
        }
    }
}

/// What a line of input means.
pub open spec fn parse_spec(s: Seq<char>) -> Result<Option<PipelineV>, ErrV> {
    match lex(s) {
        Err(e) => Err(e),
        Ok(t) => parse_tokens(t),
    }
}

// ---- where spans point ------------------------------------------------------

/// Every token of `t` lies within a line of `n` bytes.
pub open spec fn all_inside(t: Seq<TokenV>, n: nat) -> bool {
    forall|k: int| 0 <= k < t.len() ==> token_inside(#[trigger] t[k], n)
}

proof fn lemma_positions_inside(t: Seq<TokenV>, p: int, n: nat)
    requires
        all_inside(t, n),
    ensures
        end_of_previous(t, p) <= n,
        start_at(t, p) <= n,
{
    let i = if p >= 1 { p - 1 } else { 0 };
    if 0 <= i < t.len() {
        assert(token_inside(t[i], n));
    }
    if 0 <= p < t.len() {
        assert(token_inside(t[p], n));
    }
}

proof fn lemma_redirect_inside(t: Seq<TokenV>, p: int, n: nat)
    requires
        all_inside(t, n),
        0 <= p,
    ensures
        redirect_spec(t, p) matches Err(e) ==> inside(err_span(e), n),
        redirect_spec(t, p) matches Ok((r, _)) ==> inside(r.span, n),
{
    lemma_positions_inside(t, p, n);
    let explicit = 0 <= p < t.len() && t[p].kind is IoNumber;
    let q = if explicit { p + 1 } else { p };
    lemma_positions_inside(t, q, n);
    if 0 <= q < t.len() {
        assert(token_inside(t[q], n));
        if q + 1 < t.len() {
            assert(token_inside(t[q + 1], n));
        }
    }
}

proof fn lemma_cmd_loop_inside(
    t: Seq<TokenV>,
    p: int,
    words: Seq<WordV>,
    reds: Seq<RedirectV>,
    end: usize,
    n: nat,
)
    requires
        all_inside(t, n),
        0 <= p,
        end <= n,
    ensures
        cmd_loop(t, p, words, reds, end) matches Err(e) ==> inside(err_span(e), n),
        cmd_loop(t, p, words, reds, end) matches Ok((_, _, e2, _)) ==> e2 <= n,
    decreases t.len() - p,
{
    if is_word_at(t, p) {
        assert(token_inside(t[p], n));
        lemma_cmd_loop_inside(t, p + 1, words.push(t[p].kind->Word_0), reds, t[p].span.end, n);
    } else if is_redirect_at(t, p) {
        lemma_redirect_inside(t, p, n);
        lemma_redirect_advances(t, p);
        match redirect_spec(t, p) {
            Ok((r, q)) => lemma_cmd_loop_inside(t, q, words, reds.push(r), r.span.end, n),
            Err(_) => {},
        }
    }
}

proof fn lemma_command_inside(t: Seq<TokenV>, p: int, n: nat)
    requires
        all_inside(t, n),
        0 <= p,
    ensures
        command_spec(t, p) matches Err(e) ==> inside(err_span(e), n),
        command_spec(t, p) matches Ok((c, _)) ==> inside(c.span, n),
{
    lemma_positions_inside(t, p, n);
    let start = start_at(t, p);
    lemma_cmd_loop_inside(t, p, seq![], seq![], start, n);
    match cmd_loop(t, p, seq![], seq![], start) {
        Ok((_, _, _, q)) => lemma_positions_inside(t, q, n),
        Err(_) => {},
    }
}

proof fn lemma_pipe_loop_inside(t: Seq<TokenV>, p: int, cmds: Seq<CommandV>, span: Span, n: nat)
    requires
        all_inside(t, n),
        0 <= p,
        inside(span, n),
    ensures
        pipe_loop(t, p, cmds, span) matches Err(e) ==> inside(err_span(e), n),
        pipe_loop(t, p, cmds, span) matches Ok((_, sp, _)) ==> inside(sp, n),
    decreases t.len() - p,
{
    if 0 <= p < t.len() && t[p].kind is Pipe {
        assert(token_inside(t[p], n));
        if p + 1 < t.len() {
            lemma_command_inside(t, p + 1, n);
            lemma_command_advances(t, p + 1);
            match command_spec(t, p + 1) {
                Ok((c, q)) => lemma_pipe_loop_inside(t, q, cmds.push(c), join(span, c.span), n),
                Err(_) => {},
            }
        }
    }
}

/// Every error a line can produce points inside that line, so the shell can
/// always underline the characters at fault; a pipeline's span lies inside
/// the line too.
pub proof fn law_errors_point_inside_the_line(s: Seq<char>)
    requires
        fits(s),
    ensures
        parse_spec(s) matches Err(e) ==> inside(err_span(e), byte_len(s)),
        parse_spec(s) matches Ok(Some(p)) ==> inside(p.span, byte_len(s)),
{
    let n = byte_len(s);
    lemma_lex_run_inside(s, 0, seq![]);
    match lex(s) {
        Ok(t) => {
            assert(all_inside(t, n));
            if t.len() > 0 {
                lemma_command_inside(t, 0, n);
                lemma_command_advances(t, 0);
                match command_spec(t, 0) {
                    Ok((c, p)) => {
                        lemma_pipe_loop_inside(t, p, seq![c], c.span, n);
                        match pipe_loop(t, p, seq![c], c.span) {
                            Ok((_, _, q)) => {
                                if 0 <= q < t.len() {
                                    assert(token_inside(t[q], n));
                                }
                                if 0 <= q + 1 < t.len() {
                                    assert(token_inside(t[q + 1], n));
                                }
                            },
                            Err(_) => {},
                        }
                    },
                    Err(_) => {},
                }
            }
        },
        Err(_) => {},
    }
}

pub proof fn lemma_redirect_advances(t: Seq<TokenV>, p: int)
    requires
        0 <= p,
    ensures
        redirect_spec(t, p) matches Ok((_, q)) ==> p < q <= t.len(),
{
}

pub proof fn lemma_cmd_loop_advances(
    t: Seq<TokenV>,
    p: int,
    words: Seq<WordV>,
    reds: Seq<RedirectV>,
    end: usize,
)
    requires
        0 <= p <= t.len(),
    ensures
        cmd_loop(t, p, words, reds, end) matches Ok((ws, rs, _, q)) ==> p <= q <= t.len() && (
        q == p ==> ws == words && rs == reds),
        cmd_loop(t, p, words, reds, end) matches Ok((ws, _, _, _)) ==> ws.len() >= words.len(),
    decreases t.len() - p,
{
    if is_word_at(t, p) {
        lemma_cmd_loop_advances(t, p + 1, words.push(t[p].kind->Word_0), reds, t[p].span.end);
    } else if is_redirect_at(t, p) {
        lemma_redirect_advances(t, p);
        match redirect_spec(t, p) {
            Ok((r, q)) => lemma_cmd_loop_advances(t, q, words, reds.push(r), r.span.end),
            _ => {},
        }
    }
}

pub proof fn lemma_command_advances(t: Seq<TokenV>, p: int)
    requires
        0 <= p <= t.len(),
    ensures
        command_spec(t, p) matches Ok((_, q)) ==> p < q <= t.len(),
{
    lemma_cmd_loop_advances(t, p, seq![], seq![], start_at(t, p));
}

// ---- the parser ------------------------------------------------------------

/// Parse a line of shell input.
///
/// Returns `Ok(None)` for input with no command in it — an empty line,
/// whitespace, or a comment. That is what the user typed, not an error.
pub fn parse(input: &str) -> (r: Result<Option<Pipeline>, ParseError>)
    requires
        fits(input@),
    ensures
        match parse_spec(input@) {
            Ok(Some(pv)) => r matches Ok(Some(x)) && x@ == pv,
            Ok(None) => r matches Ok(None),
            Err(e) => r matches Err(x) && x@ == e,
        },
{
    match tokenize(input) {
        Err(e) => Err(e),
        Ok(tokens) => parse_token_list(tokens),
    }
}

/// Build a pipeline from a token stream: `Ok(None)` when there are no tokens.
fn parse_token_list(tokens: Vec<Token>) -> (r: Result<Option<Pipeline>, ParseError>)
    ensures
        match parse_tokens(tokens_view(tokens@)) {
            Ok(Some(pv)) => r matches Ok(Some(x)) && x@ == pv,
            Ok(None) => r matches Ok(None),
            Err(e) => r matches Err(x) && x@ == e,
        },
{
    if tokens.len() == 0 {
        return Ok(None);
    }
    let mut parser = Parser { tokens, pos: 0 };
    match parser.pipeline() {
        Ok(p) => Ok(Some(p)),
        Err(e) => Err(e),
    }
}

struct Parser {
    tokens: Vec<Token>,
    pos: usize,
}

impl Parser {
    spec fn t(&self) -> Seq<TokenV> {
        tokens_view(self.tokens@)
    }

    spec fn wf(&self) -> bool {
        self.pos <= self.tokens@.len()
    }

    fn peek(&self) -> (k: Option<&TokenKind>)
        requires
            self.wf(),
        ensures
            match k {
                Some(x) => self.pos < self.t().len() && x@ == self.t()[self.pos as int].kind,
                None => self.pos >= self.t().len(),
            },
    {
        if self.pos < self.tokens.len() {
            Some(&self.tokens[self.pos].kind)
        } else {
            None
        }
    }

    fn peek_token(&self) -> (t: Option<&Token>)
        requires
            self.wf(),
        ensures
            match t {
                Some(x) => self.pos < self.t().len() && x@ == self.t()[self.pos as int],
                None => self.pos >= self.t().len(),
            },
    {
        if self.pos < self.tokens.len() {
            Some(&self.tokens[self.pos])
        } else {
            None
        }
    }

    fn bump(&mut self) -> (t: Option<Token>)
        requires
            old(self).wf(),
        ensures
            final(self).wf(),
            final(self).tokens == old(self).tokens,
            match t {
                Some(x) => old(self).pos < old(self).t().len() && x@ == old(self).t()[old(
                    self,
                ).pos as int] && final(self).pos == old(self).pos + 1,
                None => old(self).pos >= old(self).t().len() && final(self).pos == old(self).pos,
            },
    {
        if self.pos < self.tokens.len() {
            let token = self.tokens[self.pos].copy();
            self.pos = self.pos + 1;
            Some(token)
        } else {
            None
        }
    }

    /// The position just past the last token consumed.
    fn end_of_previous(&self) -> (n: usize)
        requires
            self.wf(),
        ensures
            n == end_of_previous(self.t(), self.pos as int),
    {
        let i = if self.pos >= 1 {
            self.pos - 1
        } else {
            0
        };
        if i < self.tokens.len() {
            self.tokens[i].span.end
        } else {
            0
        }
    }

    fn pipeline(&mut self) -> (r: Result<Pipeline, ParseError>)
        requires
            old(self).wf(),
            old(self).pos == 0,
        ensures
            match pipeline_spec(old(self).t()) {
                Ok(pv) => r matches Ok(x) && x@ == pv,
                Err(e) => r matches Err(x) && x@ == e,
            },
    {
        let ghost t = self.t();
        let first = match self.command() {
            Ok(c) => c,
            Err(e) => {
                return Err(e);
            },
        };
        let mut span = first.span();
        let mut commands: Vec<Command> = Vec::new();
        proof {
            lemma_commands_view_push(commands@, first);
        }
        commands.push(first);
        assert(commands_view(commands@) =~= seq![commands@[0]@]);
        let ghost goal = pipe_loop(t, self.pos as int, commands_view(commands@), span);
        loop
            invariant
                self.wf(),
                self.t() == t,
                commands@.len() > 0,
                goal == pipe_loop(t, self.pos as int, commands_view(commands@), span),
                pipeline_spec(t) == finish_pipeline(t, goal),
                t == old(self).t(),
            ensures
                goal == Ok::<(Seq<CommandV>, Span, int), ErrV>(
                    (commands_view(commands@), span, self.pos as int),
                ),
            decreases t.len() - self.pos,
        {
            let is_pipe = match self.peek() {
                Some(TokenKind::Pipe) => true,
                _ => false,
            };
            if !is_pipe {
                break;
            }
            let pipe = match self.bump() {
                Some(tok) => tok.span,
                None => {
                    return Err(ParseError::MissingCommand { span: Span::empty(0) });
                },
            };
            // `echo hi |` with nothing after it: point at the pipe.
            if self.peek().is_none() {
                return Err(ParseError::MissingCommand { span: pipe });
            }
            proof {
                lemma_command_advances(t, self.pos as int);
            }
            let command = match self.command() {
                Ok(c) => c,
                Err(e) => {
                    return Err(e);
                },
            };
            span = span.to(command.span());
            proof {
                lemma_commands_view_push(commands@, command);
            }
            commands.push(command);
        }
        // `&` ends the pipeline and sends it to the background. It is a
        // terminator, not a separator.
        let background = match self.peek() {
            Some(TokenKind::Amp) => true,
            _ => false,
        };
        if background {
            match self.bump() {
                Some(amp) => {
                    span = span.to(amp.span);
                },
                None => {},
            }
        }
        // Anything still unconsumed is a token the grammar has no place for.
        match self.peek_token() {
            Some(token) => {
                return Err(unsupported(token));
            },
            None => {},
        }
        Ok(Pipeline::new(commands, background, span))
    }

    fn command(&mut self) -> (r: Result<Command, ParseError>)
        requires
            old(self).wf(),
        ensures
            final(self).wf(),
            final(self).tokens == old(self).tokens,
            match command_spec(old(self).t(), old(self).pos as int) {
                Ok((cv, q)) => r matches Ok(x) && x@ == cv && final(self).pos == q,
                Err(e) => r matches Err(x) && x@ == e,
            },
    {
        let ghost t = self.t();
        let ghost p = self.pos as int;
        let start = match self.peek_token() {
            Some(token) => token.span.start,
            None => 0,
        };
        let mut words: Vec<Word> = Vec::new();
        let mut redirects: Vec<Redirect> = Vec::new();
        let mut end = start;
        assert(words_view(words@) =~= Seq::<WordV>::empty());
        assert(redirects_view(redirects@) =~= Seq::<RedirectV>::empty());
        let ghost goal = cmd_loop(t, p, seq![], seq![], start);
        loop
            invariant
                self.wf(),
                self.t() == t,
                self.tokens == old(self).tokens,
                t == old(self).t(),
                p == old(self).pos,
                start == start_at(t, p),
                goal == cmd_loop(t, p, seq![], seq![], start),
                goal == cmd_loop(
                    t,
                    self.pos as int,
                    words_view(words@),
                    redirects_view(redirects@),
                    end,
                ),
            ensures
                goal == Ok::<(Seq<WordV>, Seq<RedirectV>, usize, int), ErrV>(
                    (words_view(words@), redirects_view(redirects@), end, self.pos as int),
                ),
            decreases t.len() - self.pos,
        {
            let next_is_word = match self.peek() {
                Some(TokenKind::Word(_)) => true,
                _ => false,
            };
            let next_is_redirect = match self.peek() {
                Some(TokenKind::IoNumber(_)) => true,
                Some(kind) => kind.is_redirect_operator(),
                None => false,
            };
            if next_is_word {
                let token = match self.bump() {
                    Some(tok) => tok,
                    None => {
                        return Err(ParseError::MissingCommand { span: Span::empty(0) });
                    },
                };
                end = token.span.end;
                match token.kind {
                    TokenKind::Word(word) => {
                        proof {
                            lemma_words_view_push(words@, word);
                        }
                        words.push(word);
                    },
                    _ => {},
                }
            } else if next_is_redirect {
                proof {
                    lemma_redirect_advances(t, self.pos as int);
                }
                let redirect = match self.redirect() {
                    Ok(r) => r,
                    Err(e) => {
                        return Err(e);
                    },
                };
                end = redirect.span().end;
                proof {
                    lemma_redirects_view_push(redirects@, redirect);
                }
                redirects.push(redirect);
            } else {
                break;
            }
        }
        // A command made only of redirections — `> file` — is legal POSIX, but
        // there is nothing here to run it.
        if words.len() == 0 {
            let span = if redirects.len() == 0 {
                Span::empty(self.end_of_previous())
            } else {
                Span { start, end }
            };
            return Err(ParseError::MissingCommand { span });
        }
        Ok(Command::new(words, redirects, Span { start, end }))
    }

    fn redirect(&mut self) -> (r: Result<Redirect, ParseError>)
        requires
            old(self).wf(),
        ensures
            final(self).wf(),
            final(self).tokens == old(self).tokens,
            match redirect_spec(old(self).t(), old(self).pos as int) {
                Ok((rv, q)) => r matches Ok(x) && x@ == rv && final(self).pos == q,
                Err(e) => r matches Err(x) && x@ == e,
            },
    {
        let ghost t = self.t();
        let ghost p = self.pos as int;
        let start = match self.peek_token() {
            Some(token) => token.span.start,
            None => 0,
        };
        // An explicit descriptor, as in `2>err`.
        let explicit_fd = match self.peek() {
            Some(TokenKind::IoNumber(fd)) => {
                let fd = *fd;
                let _ = self.bump();
                Some(fd)
            },
            _ => None,
        };
        let operator = match self.bump() {
            Some(op) => op,
            None => {
                let at = self.end_of_previous();
                return Err(
                    ParseError::MissingRedirectTarget {
                        operator: "redirection".to_owned(),
                        span: Span::empty(at),
                    },
                );
            },
        };
        // `<<` needs a here-document, which needs multi-line input.
        match operator.kind {
            TokenKind::DLess => {
                return Err(
                    ParseError::Unsupported {
                        token: "<<".to_owned(),
                        phase: None,
                        span: operator.span,
                    },
                );
            },
            _ => {},
        }
        let target = match self.bump() {
            Some(Token { kind: TokenKind::Word(word), .. }) => word,
            // `echo >` or `echo > | grep`: the operator has nothing to act on.
            _ => {
                return Err(
                    ParseError::MissingRedirectTarget {
                        operator: operator.kind.describe().to_owned(),
                        span: operator.span,
                    },
                );
            },
        };
        let end = target.span().end;
        let kind = match operator.kind {
            TokenKind::Less => RedirectKind::Input(target),
            TokenKind::Great => RedirectKind::Output(target),
            TokenKind::DGreat => RedirectKind::Append(target),
            TokenKind::LessAnd => RedirectKind::DupInput(target),
            TokenKind::GreatAnd => RedirectKind::DupOutput(target),
            // Only reachable for a descriptor number not followed by a
            // redirection operator, which the lexer never produces.
            _ => {
                return Err(
                    ParseError::MissingRedirectTarget {
                        operator: operator.kind.describe().to_owned(),
                        span: operator.span,
                    },
                );
            },
        };
        let fd = match explicit_fd {
            Some(fd) => fd,
            None => kind.default_fd(),
        };
        Ok(Redirect::new(fd, kind, Span { start, end }))
    }
}

/// Turn a token the grammar cannot place into the most useful error
/// available.
fn unsupported(token: &Token) -> (e: ParseError)
    ensures
        e@ == unsupported_spec(token@),
{
    match token.kind {
        TokenKind::AndIf | TokenKind::OrIf | TokenKind::Semi | TokenKind::Amp => {
            ParseError::Unsupported {
                token: token.kind.describe().to_owned(),
                phase: None,
                span: token.span,
            }
        },
        _ => {
            let described = crate::text::chars_of(token.kind.describe());
            let mut text = String::new();
            text.push('`');
            let mut i: usize = 0;
            while i < described.len()
                invariant
                    i <= described@.len(),
                    described@ == describe_spec(token.kind@),
                    text@ == seq!['`'] + described@.take(i as int),
                decreases described.len() - i,
            {
                text.push(described[i]);
                i = i + 1;
                assert(text@ =~= seq!['`'] + described@.take(i as int));
            }
            text.push('`');
            assert(described@.take(i as int) =~= described@);
            assert(text@ =~= seq!['`'] + describe_spec(token.kind@) + seq!['`']);
            ParseError::UnexpectedToken { token: text, span: token.span }
        },
    }
}

} // verus!
