//! Parse failures.
//!
//! Every variant carries a [`Span`], so the shell can underline the exact
//! characters at fault.

use vstd::prelude::*;
use crate::span::Span;
use crate::text::{push_decimal, dec_nat};

verus! {

/// Why a line could not be parsed.
#[derive(Debug, Clone, PartialEq, Eq)]
pub enum ParseError {
    /// A quoted string ran to the end of the line without closing: the quote
    /// left open, and where it opened.
    UnterminatedQuote { quote: char, span: Span },
    /// The line ended with a `\`, which escapes the newline.
    TrailingBackslash { span: Span },
    /// A `${` with no closing `}`.
    UnterminatedBrace { span: Span },
    /// A parameter reference the shell understands the shape of but cannot
    /// evaluate — `$1`, `${X:-default}`.
    UnsupportedParameter { text: String, reason: &'static str, span: Span },
    /// Syntax the shell recognises but has not implemented, and the roadmap
    /// phase that will implement it, if any.
    Unsupported { token: String, phase: Option<u8>, span: Span },
    /// A token that cannot appear where it did.
    UnexpectedToken { token: String, span: Span },
    /// A pipeline segment with nothing in it: `| grep x`, or `echo hi |`.
    MissingCommand { span: Span },
    /// A redirection with no file or descriptor after it.
    MissingRedirectTarget { operator: String, span: Span },
}

/// What a [`ParseError`] holds.
pub enum ErrV {
    UnterminatedQuote { quote: char, span: Span },
    TrailingBackslash { span: Span },
    UnterminatedBrace { span: Span },
    UnsupportedParameter { text: Seq<char>, reason: Seq<char>, span: Span },
    Unsupported { token: Seq<char>, phase: Option<u8>, span: Span },
    UnexpectedToken { token: Seq<char>, span: Span },
    MissingCommand { span: Span },
    MissingRedirectTarget { operator: Seq<char>, span: Span },
}

impl View for ParseError {
    type V = ErrV;

    open spec fn view(&self) -> ErrV {
        match self {
            ParseError::UnterminatedQuote { quote, span } => ErrV::UnterminatedQuote {
                quote: *quote,
                span: *span,
            },
            ParseError::TrailingBackslash { span } => ErrV::TrailingBackslash { span: *span },
            ParseError::UnterminatedBrace { span } => ErrV::UnterminatedBrace { span: *span },
            ParseError::UnsupportedParameter { text, reason, span } => ErrV::UnsupportedParameter {
                text: text@,
                reason: reason@,
                span: *span,
            },
            ParseError::Unsupported { token, phase, span } => ErrV::Unsupported {
                token: token@,
                phase: *phase,
                span: *span,
            },
            ParseError::UnexpectedToken { token, span } => ErrV::UnexpectedToken {
                token: token@,
                span: *span,
            },
            ParseError::MissingCommand { span } => ErrV::MissingCommand { span: *span },
            ParseError::MissingRedirectTarget { operator, span } => ErrV::MissingRedirectTarget {
                operator: operator@,
                span: *span,
            },
        }
    }
}

/// The characters at fault.
pub open spec fn err_span(e: ErrV) -> Span {
    match e {
        ErrV::UnterminatedQuote { span, .. } => span,
        ErrV::TrailingBackslash { span } => span,
        ErrV::UnterminatedBrace { span } => span,
        ErrV::UnsupportedParameter { span, .. } => span,
        ErrV::Unsupported { span, .. } => span,
        ErrV::UnexpectedToken { span, .. } => span,
        ErrV::MissingCommand { span } => span,
        ErrV::MissingRedirectTarget { span, .. } => span,
    }
}

/// The sentence a [`ParseError`] reads as.
pub open spec fn err_message(e: ErrV) -> Seq<char> {
    match e {
        ErrV::UnterminatedQuote { quote, .. } => "unterminated "@ + seq![quote] + " quote"@,
        ErrV::TrailingBackslash { .. } => "line ends with an unescaped `\\`"@,
        ErrV::UnterminatedBrace { .. } => "unterminated `${`"@,
        ErrV::UnsupportedParameter { text, reason, .. } => "`"@ + text + "`: "@ + reason,
        ErrV::Unsupported { token, phase, .. } => match phase {
            Some(p) => "`"@ + token + "` is not supported yet (roadmap phase "@ + dec_nat(
                p as nat,
            ) + ")"@,
            None => "`"@ + token + "` is not supported"@,
        },
        ErrV::UnexpectedToken { token, .. } => "unexpected "@ + token,
        ErrV::MissingCommand { .. } => "missing command around `|`"@,
        ErrV::MissingRedirectTarget { operator, .. } => "`"@ + operator + "` needs a target"@,
    }
}

impl ParseError {
    /// The characters at fault.
    pub fn span(&self) -> (s: Span)
        ensures
            s == err_span(self@),
    {
        match self {
            ParseError::UnterminatedQuote { span, .. } => *span,
            ParseError::TrailingBackslash { span } => *span,
            ParseError::UnterminatedBrace { span } => *span,
            ParseError::UnsupportedParameter { span, .. } => *span,
            ParseError::Unsupported { span, .. } => *span,
            ParseError::UnexpectedToken { span, .. } => *span,
            ParseError::MissingCommand { span } => *span,
            ParseError::MissingRedirectTarget { span, .. } => *span,
        }
    }

    /// Byte offset in the input line where the problem was found.
    pub fn at(&self) -> (n: usize)
        ensures
            n == err_span(self@).start,
    {
        self.span().start
    }

    /// The message shown to the user.
    pub fn message(&self) -> (s: String)
        ensures
            s@ == err_message(self@),
    {
        match self {
            ParseError::UnterminatedQuote { quote, .. } => {
                let mut s = "unterminated ".to_owned();
                s.push(*quote);
                s.push_str(" quote");
                s
            },
            ParseError::TrailingBackslash { .. } => "line ends with an unescaped `\\`".to_owned(),
            ParseError::UnterminatedBrace { .. } => "unterminated `${`".to_owned(),
            ParseError::UnsupportedParameter { text, reason, .. } => {
                let mut s = "`".to_owned();
                s.push_str(text.as_str());
                s.push_str("`: ");
                s.push_str(reason);
                s
            },
            ParseError::Unsupported { token, phase, .. } => {
                let mut s = "`".to_owned();
                s.push_str(token.as_str());
                match phase {
                    Some(p) => {
                        s.push_str("` is not supported yet (roadmap phase ");
                        push_decimal(&mut s, *p as u64);
                        s.push_str(")");
                    },
                    None => {
                        s.push_str("` is not supported");
                    },
                }
                s
            },
            ParseError::UnexpectedToken { token, .. } => {
                let mut s = "unexpected ".to_owned();
                s.push_str(token.as_str());
                s
            },
            ParseError::MissingCommand { .. } => "missing command around `|`".to_owned(),
            ParseError::MissingRedirectTarget { operator, .. } => {
                let mut s = "`".to_owned();
                s.push_str(operator.as_str());
                s.push_str("` needs a target");
                s
            },
        }
    }
}

} // verus!
