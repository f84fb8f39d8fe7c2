//! Words, and the pieces they are made of.
//!
//! A word is a list of parts rather than a `String`: which parts came from an
//! expansion decides what field splitting may touch, and whether the word was
//! quoted decides whether an empty expansion still yields an argument.

use vstd::prelude::*;
use crate::span::Span;
use crate::text::string_of;

verus! {

/// A parameter the shell substitutes at expansion time.
#[derive(Debug, Clone, PartialEq, Eq)]
pub enum Parameter {
    /// A named variable: `$HOME`, `${HOME}`.
    Named(String),
    /// `$?` — the exit status of the previous command.
    Status,
    /// `$$` — the process id of the shell.
    Pid,
}

/// One piece of a word.
#[derive(Debug, Clone, PartialEq, Eq)]
pub enum WordPart {
    /// Text that is already final: quote removal has happened, so it is
    /// never split further.
    Literal(String),
    /// A parameter to substitute, and whether it appeared inside double
    /// quotes.
    Parameter { param: Parameter, quoted: bool },
    /// A leading `~`, standing for the home directory.
    Tilde,
}

/// A single word of a command: a program name, an argument, or the target of
/// a redirection.
#[derive(Debug, Clone, PartialEq, Eq)]
pub struct Word {
    parts: Vec<WordPart>,
    span: Span,
    quoted: bool,
}

/// What a [`Parameter`] names.
pub enum ParamV {
    Named(Seq<char>),
    Status,
    Pid,
}

/// What a [`WordPart`] holds.
pub enum PartV {
    Literal(Seq<char>),
    Param(ParamV, bool),
    Tilde,
}

/// What a [`Word`] holds.
pub struct WordV {
    pub parts: Seq<PartV>,
    pub span: Span,
    pub quoted: bool,
}

impl View for Parameter {
    type V = ParamV;

    open spec fn view(&self) -> ParamV {
        match self {
            Parameter::Named(n) => ParamV::Named(n@),
            Parameter::Status => ParamV::Status,
            Parameter::Pid => ParamV::Pid,
        }
    }
}

impl View for WordPart {
    type V = PartV;

    open spec fn view(&self) -> PartV {
        match self {
            WordPart::Literal(t) => PartV::Literal(t@),
            WordPart::Parameter { param, quoted } => PartV::Param(param@, *quoted),
            WordPart::Tilde => PartV::Tilde,
        }
    }
}

/// The views of a list of parts.
pub open spec fn parts_view(parts: Seq<WordPart>) -> Seq<PartV> {
    parts.map_values(|p: WordPart| p@)
}

impl View for Word {
    type V = WordV;

    closed spec fn view(&self) -> WordV {
        WordV { parts: parts_view(self.parts@), span: self.span, quoted: self.quoted }
    }
}

pub proof fn lemma_parts_view_push(s: Seq<WordPart>, x: WordPart)
    ensures
        parts_view(s.push(x)) == parts_view(s).push(x@),
{
    assert(parts_view(s.push(x)) =~= parts_view(s).push(x@));
}

/// Whether a part needs the environment to resolve.
pub open spec fn part_needs_env(p: PartV) -> bool {
    p is Param || p is Tilde
}

/// A copy of a parameter.
pub fn copy_param(p: &Parameter) -> (r: Parameter)
    ensures
        r@ == p@,
{
    match p {
        Parameter::Named(n) => Parameter::Named(n.clone()),
        Parameter::Status => Parameter::Status,
        Parameter::Pid => Parameter::Pid,
    }
}

/// A copy of a part.
pub fn copy_part(p: &WordPart) -> (r: WordPart)
    ensures
        r@ == p@,
{
    match p {
        WordPart::Literal(t) => WordPart::Literal(t.clone()),
        WordPart::Parameter { param, quoted } => WordPart::Parameter {
            param: copy_param(param),
            quoted: *quoted,
        },
        WordPart::Tilde => WordPart::Tilde,
    }
}

/// A literal part made from characters.
pub fn literal_part(text: &[char]) -> (r: WordPart)
    ensures
        r@ == PartV::Literal(text@),
{
    WordPart::Literal(string_of(text))
}

impl Word {
    /// Assemble a word from its parts.
    ///
    /// `quoted` records whether any part of the word was written inside
    /// quotes, anywhere.
    pub fn new(parts: Vec<WordPart>, span: Span, quoted: bool) -> (w: Self)
        ensures
            w@ == (WordV { parts: parts_view(parts@), span, quoted }),
    {
        Self { parts, span, quoted }
    }

    /// Whether any part of the word was quoted or escaped.
    pub fn has_quotes(&self) -> (b: bool)
        ensures
            b == self@.quoted,
    {
        self.quoted
    }

    /// The pieces, in order.
    pub fn parts(&self) -> (r: &[WordPart])
        ensures
            parts_view(r@) == self@.parts,
    {
        self.parts.as_slice()
    }

    /// Where the word appeared in the input.
    pub fn span(&self) -> (s: Span)
        ensures
            s == self@.span,
    {
        self.span
    }

    /// The word's text, if it is a single literal part.
    pub fn as_literal(&self) -> (r: Option<&str>)
        ensures
            r is Some == (self@.parts.len() == 1 && self@.parts[0] is Literal),
            r matches Some(t) ==> self@.parts[0] == PartV::Literal(t@),
    {
        if self.parts.len() == 1 {
            match &self.parts[0] {
                WordPart::Literal(text) => Some(text.as_str()),
                _ => None,
            }
        } else {
            None
        }
    }

    /// Whether anything here needs the environment to resolve.
    pub fn needs_expansion(&self) -> (b: bool)
        ensures
            b == exists|i: int| 0 <= i < self@.parts.len() && part_needs_env(#[trigger] self@.parts[i]),
    {
        let mut i: usize = 0;
        while i < self.parts.len()
            invariant
                i <= self.parts@.len(),
                forall|k: int| 0 <= k < i ==> !part_needs_env(#[trigger] parts_view(self.parts@)[k]),
            decreases self.parts.len() - i,
        {
            match &self.parts[i] {
                WordPart::Literal(_) => {},
                _ => {
                    assert(part_needs_env(self@.parts[i as int]));
                    return true;
                },
            }
            i = i + 1;
        }
        false
    }

    /// A copy of the word.
    pub fn copy(&self) -> (w: Word)
        ensures
            w@ == self@,
    {
        let mut parts: Vec<WordPart> = Vec::new();
        let mut i: usize = 0;
        while i < self.parts.len()
            invariant
                i <= self.parts@.len(),
                parts_view(parts@) == parts_view(self.parts@).take(i as int),
            decreases self.parts.len() - i,
        {
            let p = copy_part(&self.parts[i]);
            proof {
                lemma_parts_view_push(parts@, p);
            }
            parts.push(p);
            i = i + 1;
            assert(parts_view(parts@) =~= parts_view(self.parts@).take(i as int));
        }
        assert(parts_view(self.parts@).take(i as int) =~= parts_view(self.parts@));
        Word { parts, span: self.span, quoted: self.quoted }
    }
}

} // verus!
