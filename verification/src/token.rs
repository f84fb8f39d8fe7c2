//! The tokens the lexer produces.
//!
//! A shell's tokens are not context-free: `2` is a word in `echo 2` and a
//! descriptor number in `2>err`. Deciding that while scanning characters keeps
//! the grammar above it simple.

use vstd::prelude::*;
use crate::span::Span;
use crate::word::{Word, WordV};

verus! {

/// A token and where it came from.
#[derive(Debug, Clone, PartialEq, Eq)]
pub struct Token {
    /// What the token is.
    pub kind: TokenKind,
    /// Where it appeared in the input line.
    pub span: Span,
}

/// What a token is.
#[derive(Debug, Clone, PartialEq, Eq)]
pub enum TokenKind {
    /// A word: a command name, an argument, or a redirection target.
    Word(Word),
    /// Unquoted digits immediately followed by a redirection operator, as in
    /// the `2` of `2>err`.
    IoNumber(i32),
    /// `|`
    Pipe,
    /// `<`
    Less,
    /// `>`
    Great,
    /// `>>`
    DGreat,
    /// `<<`
    DLess,
    /// `<&`
    LessAnd,
    /// `>&`
    GreatAnd,
    /// `&&`
    AndIf,
    /// `||`
    OrIf,
    /// `;`
    Semi,
    /// `&`
    Amp,
}

/// What a [`TokenKind`] holds.
pub enum KindV {
    Word(WordV),
    IoNumber(i32),
    Pipe,
    Less,
    Great,
    DGreat,
    DLess,
    LessAnd,
    GreatAnd,
    AndIf,
    OrIf,
    Semi,
    Amp,
}

/// What a [`Token`] holds.
pub struct TokenV {
    pub kind: KindV,
    pub span: Span,
}

impl View for TokenKind {
    type V = KindV;

    open spec fn view(&self) -> KindV {
        match self {
            TokenKind::Word(w) => KindV::Word(w@),
            TokenKind::IoNumber(n) => KindV::IoNumber(*n),
            TokenKind::Pipe => KindV::Pipe,
            TokenKind::Less => KindV::Less,
            TokenKind::Great => KindV::Great,
            TokenKind::DGreat => KindV::DGreat,
            TokenKind::DLess => KindV::DLess,
            TokenKind::LessAnd => KindV::LessAnd,
            TokenKind::GreatAnd => KindV::GreatAnd,
            TokenKind::AndIf => KindV::AndIf,
            TokenKind::OrIf => KindV::OrIf,
            TokenKind::Semi => KindV::Semi,
            TokenKind::Amp => KindV::Amp,
        }
    }
}

impl View for Token {
    type V = TokenV;

    open spec fn view(&self) -> TokenV {
        TokenV { kind: self.kind@, span: self.span }
    }
}

/// The views of a list of tokens.
pub open spec fn tokens_view(ts: Seq<Token>) -> Seq<TokenV> {
    ts.map_values(|t: Token| t@)
}

pub proof fn lemma_tokens_view_push(s: Seq<Token>, x: Token)
    ensures
        tokens_view(s.push(x)) == tokens_view(s).push(x@),
{
    assert(tokens_view(s.push(x)) =~= tokens_view(s).push(x@));
}

/// The token as the user would have typed it, for error messages.
pub open spec fn describe_spec(k: KindV) -> Seq<char> {
    match k {
        KindV::Word(_) => "word"@,
        KindV::IoNumber(_) => "file descriptor number"@,
        KindV::Pipe => "|"@,
        KindV::Less => "<"@,
        KindV::Great => ">"@,
        KindV::DGreat => ">>"@,
        KindV::DLess => "<<"@,
        KindV::LessAnd => "<&"@,
        KindV::GreatAnd => ">&"@,
        KindV::AndIf => "&&"@,
        KindV::OrIf => "||"@,
        KindV::Semi => ";"@,
        KindV::Amp => "&"@,
    }
}

/// Whether a token starts a redirection.
pub open spec fn is_redirect_op(k: KindV) -> bool {
    k is Less || k is Great || k is DGreat || k is DLess || k is LessAnd || k is GreatAnd
}

impl Token {
    /// Build a token.
    pub fn new(kind: TokenKind, span: Span) -> (t: Self)
        ensures
            t@ == (TokenV { kind: kind@, span }),
    {
        Self { kind, span }
    }

    /// A copy of the token.
    pub fn copy(&self) -> (t: Token)
        ensures
            t@ == self@,
    {
        Token { kind: self.kind.copy(), span: self.span }
    }
}

impl TokenKind {
    /// The token as the user would have typed it, for error messages.
    ///
    /// Words render as `word` rather than their text: quoting back a long
    /// argument helps nobody.
    pub fn describe(&self) -> (s: &'static str)
        ensures
            s@ == describe_spec(self@),
    {
        match self {
            TokenKind::Word(_) => "word",
            TokenKind::IoNumber(_) => "file descriptor number",
            TokenKind::Pipe => "|",
            TokenKind::Less => "<",
            TokenKind::Great => ">",
            TokenKind::DGreat => ">>",
            TokenKind::DLess => "<<",
            TokenKind::LessAnd => "<&",
            TokenKind::GreatAnd => ">&",
            TokenKind::AndIf => "&&",
            TokenKind::OrIf => "||",
            TokenKind::Semi => ";",
            TokenKind::Amp => "&",
        }
    }

    /// Whether this token starts a redirection.
    pub fn is_redirect_operator(&self) -> (b: bool)
        ensures
            b == is_redirect_op(self@),
    {
        match self {
            TokenKind::Less | TokenKind::Great | TokenKind::DGreat | TokenKind::DLess
            | TokenKind::LessAnd | TokenKind::GreatAnd => true,
            _ => false,
        }
    }

    /// A copy of the kind.
    pub fn copy(&self) -> (k: TokenKind)
        ensures
            k@ == self@,
    {
        match self {
            TokenKind::Word(w) => TokenKind::Word(w.copy()),
            TokenKind::IoNumber(n) => TokenKind::IoNumber(*n),
            TokenKind::Pipe => TokenKind::Pipe,
            TokenKind::Less => TokenKind::Less,
            TokenKind::Great => TokenKind::Great,
            TokenKind::DGreat => TokenKind::DGreat,
            TokenKind::DLess => TokenKind::DLess,
            TokenKind::LessAnd => TokenKind::LessAnd,
            TokenKind::GreatAnd => TokenKind::GreatAnd,
            TokenKind::AndIf => TokenKind::AndIf,
            TokenKind::OrIf => TokenKind::OrIf,
            TokenKind::Semi => TokenKind::Semi,
            TokenKind::Amp => TokenKind::Amp,
        }
    }
}

} // verus!
