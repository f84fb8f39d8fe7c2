//! Characters to tokens.
//!
//! The lexer does quote removal, escape processing, and the *recognition* of
//! parameter references — never their evaluation. `$HOME` becomes a
//! [`WordPart::Parameter`], not a path.
//!
//! The meaning of a line is stated by [`lex`], a function over its
//! characters; [`tokenize`] computes it.

use vstd::prelude::*;
use crate::error::{err_span, ErrV, ParseError};
use crate::span::Span;
use crate::text::{
    all_digits, boundary_offsets, byte_len, byte_offset, char_width, chars_of, fits, is_alpha, is_digit,
    is_whitespace, is_ws, lemma_offset_mono, lemma_offset_step,
    parse_i32, parse_i32_chars, string_of,
};
use crate::token::{lemma_tokens_view_push, tokens_view, KindV, Token, TokenKind, TokenV};
use crate::word::{
    lemma_parts_view_push, literal_part, parts_view, ParamV, Parameter, PartV, Word, WordPart,
    WordV,
};

verus! {

// ---- the language, as functions of the input ------------------------------

/// Characters that begin an operator.
pub open spec fn op_start(c: char) -> bool {
    c == '|' || c == '&' || c == ';' || c == '<' || c == '>' || c == '(' || c == ')'
}

pub open spec fn name_start(c: char) -> bool {
    c == '_' || is_alpha(c)
}

pub open spec fn name_cont(c: char) -> bool {
    c == '_' || is_alpha(c) || is_digit(c)
}

/// A variable name: a letter or underscore, then letters, digits, and
/// underscores.
pub open spec fn is_name_spec(t: Seq<char>) -> bool {
    t.len() > 0 && name_start(t[0]) && forall|i: int| 1 <= i < t.len() ==> name_cont(#[trigger] t[i])
}

/// The span between two character indices.
pub open spec fn sp(s: Seq<char>, i: int, j: int) -> Span {
    Span { start: byte_offset(s, i) as usize, end: byte_offset(s, j) as usize }
}

/// A span of `n` bytes starting at the character at index `i`.
pub open spec fn sp_bytes(s: Seq<char>, i: int, n: int) -> Span {
    Span { start: byte_offset(s, i) as usize, end: (byte_offset(s, i) + n) as usize }
}

/// The first index at or after `i` that is not whitespace.
pub open spec fn skip_ws(s: Seq<char>, i: int) -> int
    decreases s.len() - i,
{
    if i < 0 || i >= s.len() || !is_ws(s[i]) {
        i
    } else {
        skip_ws(s, i + 1)
    }
}

/// The first index at or after `i` where a name stops.
pub open spec fn name_end(s: Seq<char>, i: int) -> int
    decreases s.len() - i,
{
    if i < 0 || i >= s.len() || !name_cont(s[i]) {
        i
    } else {
        name_end(s, i + 1)
    }
}

/// The first index at or after `i` holding `c`, or the end.
pub open spec fn find_char(s: Seq<char>, i: int, c: char) -> int
    decreases s.len() - i,
{
    if i < 0 || i >= s.len() || s[i] == c {
        i
    } else {
        find_char(s, i + 1, c)
    }
}

/// A finished literal joins the parts, unless it is empty.
pub open spec fn flush(parts: Seq<PartV>, lit: Seq<char>) -> Seq<PartV> {
    if lit.len() > 0 {
        parts.push(PartV::Literal(lit))
    } else {
        parts
    }
}

/// `${...}`, with `p` at the `$` and `p + 1` at the `{`.
pub open spec fn lex_braced(s: Seq<char>, p: int, quoted: bool) -> Result<(PartV, int), ErrV> {
    let r = find_char(s, p + 2, '}');
    if r >= s.len() {
        Err(ErrV::UnterminatedBrace { span: sp_bytes(s, p, 2) })
    } else {
        let body = s.subrange(p + 2, r);
        let span = sp(s, p, r + 1);
        if body == seq!['?'] {
            Ok((PartV::Param(ParamV::Status, quoted), r + 1))
        } else if body == seq!['$'] {
            Ok((PartV::Param(ParamV::Pid, quoted), r + 1))
        } else if is_name_spec(body) {
            Ok((PartV::Param(ParamV::Named(body), quoted), r + 1))
        } else {
            Err(
                ErrV::UnsupportedParameter {
                    text: seq!['$', '{'] + body + seq!['}'],
                    reason: "only plain `${name}` is supported so far"@,
                    span,
                },
            )
        }
    }
}

/// A parameter reference starting at the `$` at index `p`: the part it
/// makes, if it makes one, and where reading stops.
pub open spec fn lex_parameter(s: Seq<char>, p: int, quoted: bool) -> Result<
    (Option<PartV>, int),
    ErrV,
> {
    let q = p + 1;
    if q >= s.len() {
        Ok((None, q))
    } else {
        let c = s[q];
        if c == '{' {
            match lex_braced(s, p, quoted) {
                Ok((part, j)) => Ok((Some(part), j)),
                Err(e) => Err(e),
            }
        } else if c == '?' {
            Ok((Some(PartV::Param(ParamV::Status, quoted)), q + 1))
        } else if c == '$' {
            Ok((Some(PartV::Param(ParamV::Pid, quoted)), q + 1))
        } else if c == '(' {
            Err(ErrV::Unsupported { token: "$("@, phase: None, span: sp_bytes(s, p, 2) })
        } else if is_digit(c) {
            Err(
                ErrV::UnsupportedParameter {
                    text: seq!['$', c],
                    reason: "positional parameters are not supported"@,
                    span: sp(s, p, q + 1),
                },
            )
        } else if name_start(c) {
            let r = name_end(s, q);
            Ok((Some(PartV::Param(ParamV::Named(s.subrange(q, r)), quoted)), r))
        } else {
            Ok((None, q))
        }
    }
}

/// A single-quoted string with its opening quote at `p`: nothing inside is
/// special.
pub open spec fn lex_single(s: Seq<char>, p: int, lit: Seq<char>) -> Result<(Seq<char>, int), ErrV> {
    let c = find_char(s, p + 1, '\'');
    if c >= s.len() {
        Err(ErrV::UnterminatedQuote { quote: '\'', span: sp_bytes(s, p, 1) })
    } else {
        Ok((lit + s.subrange(p + 1, c), c + 1))
    }
}

/// The inside of a double-quoted string, from index `i`, where parameters
/// still expand and a backslash escapes only `"`, `\`, `$` and `` ` ``.
pub open spec fn dq_loop(s: Seq<char>, i: int, parts: Seq<PartV>, lit: Seq<char>, open: int) -> Result<
    (Seq<PartV>, Seq<char>, int),
    ErrV,
>
    decreases s.len() - i,
{
    if i < 0 || i >= s.len() {
        Err(ErrV::UnterminatedQuote { quote: '"', span: sp_bytes(s, open, 1) })
    } else {
        let c = s[i];
        if c == '"' {
            Ok((parts, lit, i + 1))
        } else if c == '\\' {
            if i + 1 < s.len() {
                let n = s[i + 1];
                if n == '"' || n == '\\' || n == '$' || n == '`' {
                    dq_loop(s, i + 2, parts, lit.push(n), open)
                } else {
                    dq_loop(s, i + 1, parts, lit.push('\\'), open)
                }
            } else {
                Err(
                    ErrV::TrailingBackslash {
                        span: Span { start: byte_offset(s, i) as usize, end: byte_len(s) as usize },
                    },
                )
            }
        } else if c == '$' {
            match lex_parameter(s, i, true) {
                Err(e) => Err(e),
                Ok((part, j)) => {
                    proof {
                        lemma_parameter_advances(s, i, true);
                    }
                    match part {
                        Some(pv) => dq_loop(s, j, flush(parts, lit).push(pv), seq![], open),
                        None => dq_loop(s, j, parts, lit.push('$'), open),
                    }
                },
            }
        } else if c == '`' {
            Err(ErrV::Unsupported { token: "`"@, phase: None, span: sp_bytes(s, i, 1) })
        } else {
            dq_loop(s, i + 1, parts, lit.push(c), open)
        }
    }
}

/// What a word has accumulated so far.
pub struct WordSt {
    pub parts: Seq<PartV>,
    pub lit: Seq<char>,
    pub had: bool,
}

/// The body of a word, from index `i` until whitespace, an operator, or the
/// end of the line.
pub open spec fn word_loop(s: Seq<char>, i: int, st: WordSt) -> Result<(WordSt, int), ErrV>
    decreases s.len() - i,
{
    if i < 0 || i >= s.len() || is_ws(s[i]) || op_start(s[i]) {
        Ok((st, i))
    } else {
        let c = s[i];
        if c == '\'' {
            match lex_single(s, i, st.lit) {
                Err(e) => Err(e),
                Ok((lit, j)) => {
                    proof {
                        lemma_find_char_range(s, i + 1, '\'');
                    }
                    word_loop(s, j, WordSt { parts: st.parts, lit, had: true })
                },
            }
        } else if c == '"' {
            match dq_loop(s, i + 1, st.parts, st.lit, i) {
                Err(e) => Err(e),
                Ok((parts, lit, j)) => {
                    proof {
                        lemma_dq_advances(s, i + 1, st.parts, st.lit, i);
                    }
                    word_loop(s, j, WordSt { parts, lit, had: true })
                },
            }
        } else if c == '\\' {
            if i + 1 < s.len() {
                word_loop(s, i + 2, WordSt { parts: st.parts, lit: st.lit.push(s[i + 1]), had: true })
            } else {
                Err(
                    ErrV::TrailingBackslash {
                        span: Span { start: byte_offset(s, i) as usize, end: byte_len(s) as usize },
                    },
                )
            }
        } else if c == '$' {
            match lex_parameter(s, i, false) {
                Err(e) => Err(e),
                Ok((part, j)) => {
                    proof {
                        lemma_parameter_advances(s, i, false);
                    }
                    match part {
                        Some(pv) => word_loop(
                            s,
                            j,
                            WordSt { parts: flush(st.parts, st.lit).push(pv), lit: seq![], had: st.had },
                        ),
                        None => word_loop(
                            s,
                            j,
                            WordSt { parts: st.parts, lit: st.lit.push('$'), had: st.had },
                        ),
                    }
                },
            }
        } else if c == '`' {
            Err(ErrV::Unsupported { token: "`"@, phase: None, span: sp_bytes(s, i, 1) })
        } else if c == '~' && st.parts.len() == 0 && st.lit.len() == 0 && !st.had {
            let j = i + 1;
            if j >= s.len() || s[j] == '/' || is_ws(s[j]) || op_start(s[j]) {
                word_loop(s, j, WordSt { parts: st.parts.push(PartV::Tilde), lit: st.lit, had: st.had })
            } else {
                word_loop(s, j, WordSt { parts: st.parts, lit: st.lit.push('~'), had: st.had })
            }
        } else {
            word_loop(s, i + 1, WordSt { parts: st.parts, lit: st.lit.push(c), had: st.had })
        }
    }
}

/// The parts a finished word holds: an empty word still has one empty
/// literal, so `echo ""` passes an argument.
pub open spec fn final_parts(st: WordSt) -> Seq<PartV> {
    if st.lit.len() > 0 || st.parts.len() == 0 {
        st.parts.push(PartV::Literal(st.lit))
    } else {
        st.parts
    }
}

/// Whether a finished word is a descriptor number: unquoted digits that
/// parse as an `i32`, touching a `<` or `>`.
pub open spec fn io_number(s: Seq<char>, st: WordSt, end: int) -> Option<i32> {
    let parts = final_parts(st);
    if !st.had && 0 <= end < s.len() && (s[end] == '<' || s[end] == '>') && parts.len() == 1
        && parts[0] is Literal {
        let text = parts[0]->Literal_0;
        if text.len() > 0 && all_digits(text) {
            parse_i32(text)
        } else {
            None
        }
    } else {
        None
    }
}

/// The word token starting at index `p`, and where it ends.
pub open spec fn lex_word(s: Seq<char>, p: int) -> Result<(TokenV, int), ErrV> {
    match word_loop(s, p, WordSt { parts: seq![], lit: seq![], had: false }) {
        Err(e) => Err(e),
        Ok((st, e)) => {
            let span = sp(s, p, e);
            let kind = match io_number(s, st, e) {
                Some(fd) => KindV::IoNumber(fd),
                None => KindV::Word(WordV { parts: final_parts(st), span, quoted: st.had }),
            };
            Ok((TokenV { kind, span }, e))
        },
    }
}

/// The operator token starting at index `p`, and where it ends.
pub open spec fn lex_operator(s: Seq<char>, p: int) -> Result<(TokenV, int), ErrV> {
    let first = s[p];
    let second_is = |c: char| p + 1 < s.len() && s[p + 1] == c;
    if first == '(' || first == ')' {
        Err(ErrV::Unsupported { token: seq![first], phase: None, span: sp(s, p, p + 1) })
    } else {
        let (kind, j) = if first == '|' {
            if second_is('|') {
                (KindV::OrIf, p + 2)
            } else {
                (KindV::Pipe, p + 1)
            }
        } else if first == '&' {
            if second_is('&') {
                (KindV::AndIf, p + 2)
            } else {
                (KindV::Amp, p + 1)
            }
        } else if first == ';' {
            (KindV::Semi, p + 1)
        } else if first == '<' {
            if second_is('<') {
                (KindV::DLess, p + 2)
            } else if second_is('&') {
                (KindV::LessAnd, p + 2)
            } else {
                (KindV::Less, p + 1)
            }
        } else {
            if second_is('>') {
                (KindV::DGreat, p + 2)
            } else if second_is('&') {
                (KindV::GreatAnd, p + 2)
            } else {
                (KindV::Great, p + 1)
            }
        };
        Ok((TokenV { kind, span: sp(s, p, j) }, j))
    }
}

/// Tokens from index `p` on, after those already in `acc`.
pub open spec fn lex_run(s: Seq<char>, p: int, acc: Seq<TokenV>) -> Result<Seq<TokenV>, ErrV>
    decreases s.len() - p,
{
    let q = skip_ws(s, p);
    if p < 0 || q >= s.len() || s[q] == '#' {
        Ok(acc)
    } else if op_start(s[q]) {
        match lex_operator(s, q) {
            Err(e) => Err(e),
            Ok((t, j)) => {
                proof {
                    lemma_skip_ws_range(s, p);
                }
                lex_run(s, j, acc.push(t))
            },
        }
    } else {
        match lex_word(s, q) {
            Err(e) => Err(e),
            Ok((t, j)) => {
                proof {
                    lemma_skip_ws_range(s, p);
                    lemma_word_advances(s, q, WordSt { parts: seq![], lit: seq![], had: false });
                }
                lex_run(s, j, acc.push(t))
            },
        }
    }
}

/// The tokens of a line.
pub open spec fn lex(s: Seq<char>) -> Result<Seq<TokenV>, ErrV> {
    lex_run(s, 0, seq![])
}

// ---- what the lexer promises of parameter names ---------------------------

/// A character that may begin a variable name: an ASCII letter or `_`.
pub open spec fn name_letter(c: char) -> bool {
    c == '_' || ('a' <= c && c <= 'z') || ('A' <= c && c <= 'Z')
}

/// A character that may continue a variable name: an ASCII letter, an
/// ASCII digit, or `_`.
pub open spec fn name_letter_or_digit(c: char) -> bool {
    name_letter(c) || ('0' <= c && c <= '9')
}

/// A variable name as the shell reads one: a letter or underscore, then
/// any letters, digits and underscores.
pub open spec fn variable_name(n: Seq<char>) -> bool {
    &&& n.len() > 0
    &&& name_letter(n[0])
    &&& forall|i: int| 1 <= i < n.len() ==> name_letter_or_digit(#[trigger] n[i])
}

/// Reading a name from index `i` inside `$n` runs to the end of `n`.
proof fn lemma_name_runs_to_its_end(n: Seq<char>, rest: Seq<char>, i: int)
    requires
        variable_name(n),
        1 <= i <= n.len() + 1,
        rest.len() > 0 ==> !name_letter_or_digit(rest[0]),
    ensures
        name_end(seq!['$'] + n + rest, i) == n.len() + 1,
    decreases n.len() + 1 - i,
{
    let s = seq!['$'] + n + rest;
    if i <= n.len() {
        assert(s[i] == n[i - 1]);
        assert(name_letter_or_digit(n[i - 1]) || i - 1 == 0);
        lemma_name_runs_to_its_end(n, rest, i + 1);
    } else if i < s.len() {
        assert(s[i] == rest[0]);
    }
}

/// A `}` closes `${n}` just after the name.
proof fn lemma_brace_closes_after_name(n: Seq<char>, rest: Seq<char>, i: int)
    requires
        variable_name(n),
        2 <= i <= n.len() + 2,
    ensures
        find_char(seq!['$', '{'] + n + seq!['}'] + rest, i, '}') == n.len() + 2,
    decreases n.len() + 2 - i,
{
    let s = seq!['$', '{'] + n + seq!['}'] + rest;
    if i < n.len() + 2 {
        assert(s[i] == n[i - 2]);
        assert(name_letter_or_digit(n[i - 2]) || i - 2 == 0);
        lemma_brace_closes_after_name(n, rest, i + 1);
    } else {
        assert(s[i] == '}');
    }
}

/// A `$` followed by a variable name makes exactly one parameter with that
/// whole name, digits included, and so does `${name}`; reading goes on just
/// after it.
pub proof fn law_a_variable_name_is_one_parameter(n: Seq<char>, rest: Seq<char>, quoted: bool)
    requires
        variable_name(n),
    ensures
        (rest.len() == 0 || !name_letter_or_digit(rest[0])) ==> lex_parameter(
            seq!['$'] + n + rest,
            0,
            quoted,
        ) == Ok::<(Option<PartV>, int), ErrV>(
            (Some(PartV::Param(ParamV::Named(n), quoted)), n.len() + 1int),
        ),
        lex_parameter(seq!['$', '{'] + n + seq!['}'] + rest, 0, quoted) == Ok::<
            (Option<PartV>, int),
            ErrV,
        >((Some(PartV::Param(ParamV::Named(n), quoted)), n.len() + 3int)),
{
    if rest.len() == 0 || !name_letter_or_digit(rest[0]) {
        let s = seq!['$'] + n + rest;
        assert(s[1] == n[0]);
        lemma_name_runs_to_its_end(n, rest, 1);
        assert(s.subrange(1, n.len() + 1int) =~= n);
    }
    let b = seq!['$', '{'] + n + seq!['}'] + rest;
    assert(b[1] == '{');
    lemma_brace_closes_after_name(n, rest, 2);
    assert(b.subrange(2, n.len() + 2int) =~= n);
    assert(n[0] != '?' && n[0] != '$');
    assert(is_name_spec(n)) by {
        assert forall|i: int| 1 <= i < n.len() implies name_cont(#[trigger] n[i]) by {
            assert(name_letter_or_digit(n[i]));
        }
    }
}

/// The word `$name`, or `${name}`, is exactly one part: the parameter with
/// that whole name.
pub proof fn law_a_dollar_name_word_is_that_parameter(n: Seq<char>)
    requires
        variable_name(n),
    ensures
        lex_word(seq!['$'] + n, 0) is Ok,
        lex_word(seq!['$'] + n, 0)->Ok_0.1 == n.len() + 1,
        lex_word(seq!['$'] + n, 0)->Ok_0.0.kind is Word,
        lex_word(seq!['$'] + n, 0)->Ok_0.0.kind->Word_0.parts == seq![
            PartV::Param(ParamV::Named(n), false),
        ],
        lex_word(seq!['$', '{'] + n + seq!['}'], 0) is Ok,
        lex_word(seq!['$', '{'] + n + seq!['}'], 0)->Ok_0.1 == n.len() + 3,
        lex_word(seq!['$', '{'] + n + seq!['}'], 0)->Ok_0.0.kind is Word,
        lex_word(seq!['$', '{'] + n + seq!['}'], 0)->Ok_0.0.kind->Word_0.parts == seq![
            PartV::Param(ParamV::Named(n), false),
        ],
{
    let empty = WordSt { parts: seq![], lit: seq![], had: false };
    let part = PartV::Param(ParamV::Named(n), false);
    law_a_variable_name_is_one_parameter(n, seq![], false);
    let a = seq!['$'] + n;
    assert(a =~= seq!['$'] + n + seq![]);
    assert(a[0] == '$');
    let sta = WordSt { parts: flush(seq![], seq![]).push(part), lit: seq![], had: false };
    assert(word_loop(a, 0, empty) == word_loop(a, n.len() + 1int, sta));
    assert(final_parts(sta) =~= seq![part]);
    let b = seq!['$', '{'] + n + seq!['}'];
    assert(b =~= seq!['$', '{'] + n + seq!['}'] + seq![]);
    assert(b[0] == '$');
    assert(word_loop(b, 0, empty) == word_loop(b, n.len() + 3int, sta));
}

// ---- facts the definitions rely on -----------------------------------------

pub proof fn lemma_skip_ws_range(s: Seq<char>, i: int)
    requires
        0 <= i,
    ensures
        i <= skip_ws(s, i),
        i <= s.len() ==> skip_ws(s, i) <= s.len(),
        skip_ws(s, i) < s.len() ==> !is_ws(s[skip_ws(s, i)]),
    decreases s.len() - i,
{
    if i < s.len() && is_ws(s[i]) {
        lemma_skip_ws_range(s, i + 1);
    }
}

pub proof fn lemma_name_end_range(s: Seq<char>, i: int)
    requires
        0 <= i,
    ensures
        i <= name_end(s, i),
        i <= s.len() ==> name_end(s, i) <= s.len(),
        forall|k: int| i <= k < name_end(s, i) ==> name_cont(#[trigger] s[k]),
    decreases s.len() - i,
{
    if i < s.len() && name_cont(s[i]) {
        lemma_name_end_range(s, i + 1);
    }
}

pub proof fn lemma_find_char_range(s: Seq<char>, i: int, c: char)
    requires
        0 <= i,
    ensures
        i <= find_char(s, i, c),
        i <= s.len() ==> find_char(s, i, c) <= s.len(),
        find_char(s, i, c) < s.len() ==> s[find_char(s, i, c)] == c,
        forall|k: int| i <= k < find_char(s, i, c) ==> #[trigger] s[k] != c,
    decreases s.len() - i,
{
    if i < s.len() && s[i] != c {
        lemma_find_char_range(s, i + 1, c);
    }
}

pub proof fn lemma_parameter_advances(s: Seq<char>, p: int, quoted: bool)
    requires
        0 <= p < s.len(),
    ensures
        lex_parameter(s, p, quoted) matches Ok((_, j)) ==> p < j <= s.len(),
{
    let q = p + 1;
    if q < s.len() {
        if s[q] == '{' {
            lemma_find_char_range(s, p + 2, '}');
        } else if name_start(s[q]) {
            lemma_name_end_range(s, q);
        }
    }
}

pub proof fn lemma_dq_advances(s: Seq<char>, i: int, parts: Seq<PartV>, lit: Seq<char>, open: int)
    requires
        0 <= i,
    ensures
        dq_loop(s, i, parts, lit, open) matches Ok((_, _, j)) ==> i < j <= s.len(),
    decreases s.len() - i,
{
    if 0 <= i < s.len() {
        let c = s[i];
        if c == '\\' {
            if i + 1 < s.len() {
                let n = s[i + 1];
                if n == '"' || n == '\\' || n == '$' || n == '`' {
                    lemma_dq_advances(s, i + 2, parts, lit.push(n), open);
                } else {
                    lemma_dq_advances(s, i + 1, parts, lit.push('\\'), open);
                }
            }
        } else if c == '$' {
            lemma_parameter_advances(s, i, true);
            match lex_parameter(s, i, true) {
                Ok((Some(pv), j)) => lemma_dq_advances(s, j, flush(parts, lit).push(pv), seq![], open),
                Ok((None, j)) => lemma_dq_advances(s, j, parts, lit.push('$'), open),
                _ => {},
            }
        } else if c != '"' && c != '`' {
            lemma_dq_advances(s, i + 1, parts, lit.push(c), open);
        }
    }
}

pub proof fn lemma_word_advances(s: Seq<char>, i: int, st: WordSt)
    requires
        0 <= i <= s.len(),
    ensures
        word_loop(s, i, st) matches Ok((_, j)) ==> i <= j <= s.len() && (j < s.len() ==> (is_ws(
            s[j],
        ) || op_start(s[j]))),
        (i < s.len() && !is_ws(s[i]) && !op_start(s[i])) ==> (word_loop(s, i, st) matches Ok((_, j))
            ==> i < j),
    decreases s.len() - i,
{
    if i < s.len() && !is_ws(s[i]) && !op_start(s[i]) {
        let c = s[i];
        if c == '\'' {
            lemma_find_char_range(s, i + 1, '\'');
            match lex_single(s, i, st.lit) {
                Ok((lit, j)) => lemma_word_advances(s, j, WordSt { parts: st.parts, lit, had: true }),
                _ => {},
            }
        } else if c == '"' {
            lemma_dq_advances(s, i + 1, st.parts, st.lit, i);
            match dq_loop(s, i + 1, st.parts, st.lit, i) {
                Ok((parts, lit, j)) => lemma_word_advances(s, j, WordSt { parts, lit, had: true }),
                _ => {},
            }
        } else if c == '\\' {
            if i + 1 < s.len() {
                lemma_word_advances(
                    s,
                    i + 2,
                    WordSt { parts: st.parts, lit: st.lit.push(s[i + 1]), had: true },
                );
            }
        } else if c == '$' {
            lemma_parameter_advances(s, i, false);
            match lex_parameter(s, i, false) {
                Ok((Some(pv), j)) => lemma_word_advances(
                    s,
                    j,
                    WordSt { parts: flush(st.parts, st.lit).push(pv), lit: seq![], had: st.had },
                ),
                Ok((None, j)) => lemma_word_advances(
                    s,
                    j,
                    WordSt { parts: st.parts, lit: st.lit.push('$'), had: st.had },
                ),
                _ => {},
            }
        } else if c == '`' {
        } else if c == '~' && st.parts.len() == 0 && st.lit.len() == 0 && !st.had {
            let j = i + 1;
            if j >= s.len() || s[j] == '/' || is_ws(s[j]) || op_start(s[j]) {
                lemma_word_advances(
                    s,
                    j,
                    WordSt { parts: st.parts.push(PartV::Tilde), lit: st.lit, had: st.had },
                );
            } else {
                lemma_word_advances(
                    s,
                    j,
                    WordSt { parts: st.parts, lit: st.lit.push('~'), had: st.had },
                );
            }
        } else {
            lemma_word_advances(s, i + 1, WordSt { parts: st.parts, lit: st.lit.push(c), had: st.had });
        }
    }
}

/// `find_char` stops at the first occurrence.
pub proof fn lemma_find_char_at(s: Seq<char>, i: int, c: char, k: int)
    requires
        0 <= i <= k <= s.len(),
        forall|m: int| i <= m < k ==> s[m] != c,
        k == s.len() || s[k] == c,
    ensures
        find_char(s, i, c) == k,
    decreases k - i,
{
    if i < k {
        lemma_find_char_at(s, i + 1, c, k);
    }
}

/// `name_end` stops at the first character that cannot continue a name.
pub proof fn lemma_name_end_at(s: Seq<char>, i: int, k: int)
    requires
        0 <= i <= k <= s.len(),
        forall|m: int| i <= m < k ==> name_cont(#[trigger] s[m]),
        k == s.len() || !name_cont(s[k]),
    ensures
        name_end(s, i) == k,
    decreases k - i,
{
    if i < k {
        lemma_name_end_at(s, i + 1, k);
    }
}

// ---- where spans point ------------------------------------------------------

/// A span whose ends both lie within a line of `n` bytes.
pub open spec fn inside(sp: Span, n: nat) -> bool {
    sp.start <= n && sp.end <= n
}

/// A token whose span, and whose word's span if it is a word, lie within
/// a line of `n` bytes.
pub open spec fn token_inside(t: TokenV, n: nat) -> bool {
    &&& inside(t.span, n)
    &&& t.kind matches KindV::Word(w) ==> inside(w.span, n)
}

proof fn lemma_sp_inside(s: Seq<char>, i: int, j: int)
    requires
        fits(s),
        0 <= i <= s.len(),
        0 <= j <= s.len(),
    ensures
        inside(sp(s, i, j), byte_len(s)),
{
    lemma_offset_mono(s, i, s.len() as int);
    lemma_offset_mono(s, j, s.len() as int);
}

/// `n` one-byte characters from index `i` on lie within the line.
proof fn lemma_sp_bytes_inside(s: Seq<char>, i: int, n: int)
    requires
        fits(s),
        0 <= i,
        i + n <= s.len(),
        1 <= n <= 2,
        char_width(s[i]) == 1,
        n == 2 ==> char_width(s[i + 1]) == 1,
    ensures
        inside(sp_bytes(s, i, n), byte_len(s)),
{
    lemma_offset_step(s, i);
    if n == 2 {
        lemma_offset_step(s, i + 1);
    }
    lemma_offset_mono(s, i + n, s.len() as int);
    lemma_offset_mono(s, i, s.len() as int);
}

proof fn lemma_parameter_inside(s: Seq<char>, p: int, quoted: bool)
    requires
        fits(s),
        0 <= p < s.len(),
        s[p] == '$',
    ensures
        lex_parameter(s, p, quoted) matches Err(e) ==> inside(err_span(e), byte_len(s)),
{
    let q = p + 1;
    if q < s.len() {
        let c = s[q];
        if c == '{' {
            lemma_find_char_range(s, p + 2, '}');
            lemma_sp_bytes_inside(s, p, 2);
            let r = find_char(s, p + 2, '}');
            if r < s.len() {
                lemma_sp_inside(s, p, r + 1);
            }
        } else if c == '(' {
            lemma_sp_bytes_inside(s, p, 2);
        } else if is_digit(c) {
            lemma_sp_inside(s, p, q + 1);
        }
    }
}

proof fn lemma_dq_inside(s: Seq<char>, i: int, parts: Seq<PartV>, lit: Seq<char>, open: int)
    requires
        fits(s),
        0 <= open < s.len(),
        s[open] == '"',
        0 <= i,
    ensures
        dq_loop(s, i, parts, lit, open) matches Err(e) ==> inside(err_span(e), byte_len(s)),
    decreases s.len() - i,
{
    if i >= s.len() {
        lemma_sp_bytes_inside(s, open, 1);
    } else {
        let c = s[i];
        if c == '\\' {
            if i + 1 < s.len() {
                let n = s[i + 1];
                if n == '"' || n == '\\' || n == '$' || n == '`' {
                    lemma_dq_inside(s, i + 2, parts, lit.push(n), open);
                } else {
                    lemma_dq_inside(s, i + 1, parts, lit.push('\\'), open);
                }
            } else {
                lemma_offset_mono(s, i, s.len() as int);
            }
        } else if c == '$' {
            lemma_parameter_inside(s, i, true);
            lemma_parameter_advances(s, i, true);
            match lex_parameter(s, i, true) {
                Ok((Some(pv), j)) => lemma_dq_inside(s, j, flush(parts, lit).push(pv), seq![], open),
                Ok((None, j)) => lemma_dq_inside(s, j, parts, lit.push('$'), open),
                _ => {},
            }
        } else if c == '`' {
            lemma_sp_bytes_inside(s, i, 1);
        } else if c != '"' {
            lemma_dq_inside(s, i + 1, parts, lit.push(c), open);
        }
    }
}

proof fn lemma_word_inside(s: Seq<char>, i: int, st: WordSt)
    requires
        fits(s),
        0 <= i <= s.len(),
    ensures
        word_loop(s, i, st) matches Err(e) ==> inside(err_span(e), byte_len(s)),
    decreases s.len() - i,
{
    if i < s.len() && !is_ws(s[i]) && !op_start(s[i]) {
        let c = s[i];
        if c == '\'' {
            lemma_find_char_range(s, i + 1, '\'');
            lemma_sp_bytes_inside(s, i, 1);
            match lex_single(s, i, st.lit) {
                Ok((lit, j)) => lemma_word_inside(s, j, WordSt { parts: st.parts, lit, had: true }),
                _ => {},
            }
        } else if c == '"' {
            lemma_dq_inside(s, i + 1, st.parts, st.lit, i);
            lemma_dq_advances(s, i + 1, st.parts, st.lit, i);
            match dq_loop(s, i + 1, st.parts, st.lit, i) {
                Ok((parts, lit, j)) => lemma_word_inside(s, j, WordSt { parts, lit, had: true }),
                _ => {},
            }
        } else if c == '\\' {
            if i + 1 < s.len() {
                lemma_word_inside(
                    s,
                    i + 2,
                    WordSt { parts: st.parts, lit: st.lit.push(s[i + 1]), had: true },
                );
            } else {
                lemma_offset_mono(s, i, s.len() as int);
            }
        } else if c == '$' {
            lemma_parameter_inside(s, i, false);
            lemma_parameter_advances(s, i, false);
            match lex_parameter(s, i, false) {
                Ok((Some(pv), j)) => lemma_word_inside(
                    s,
                    j,
                    WordSt { parts: flush(st.parts, st.lit).push(pv), lit: seq![], had: st.had },
                ),
                Ok((None, j)) => lemma_word_inside(
                    s,
                    j,
                    WordSt { parts: st.parts, lit: st.lit.push('$'), had: st.had },
                ),
                _ => {},
            }
        } else if c == '`' {
            lemma_sp_bytes_inside(s, i, 1);
        } else if c == '~' && st.parts.len() == 0 && st.lit.len() == 0 && !st.had {
            let j = i + 1;
            if j >= s.len() || s[j] == '/' || is_ws(s[j]) || op_start(s[j]) {
                lemma_word_inside(
                    s,
                    j,
                    WordSt { parts: st.parts.push(PartV::Tilde), lit: st.lit, had: st.had },
                );
            } else {
                lemma_word_inside(s, j, WordSt { parts: st.parts, lit: st.lit.push('~'), had: st.had });
            }
        } else {
            lemma_word_inside(s, i + 1, WordSt { parts: st.parts, lit: st.lit.push(c), had: st.had });
        }
    }
}

/// Every token lies within the line, and so does the span of every error
/// the lexer reports.
pub proof fn lemma_lex_run_inside(s: Seq<char>, p: int, acc: Seq<TokenV>)
    requires
        fits(s),
        0 <= p,
        forall|k: int| 0 <= k < acc.len() ==> token_inside(#[trigger] acc[k], byte_len(s)),
    ensures
        lex_run(s, p, acc) matches Ok(ts) ==> forall|k: int|
            0 <= k < ts.len() ==> token_inside(#[trigger] ts[k], byte_len(s)),
        lex_run(s, p, acc) matches Err(e) ==> inside(err_span(e), byte_len(s)),
    decreases s.len() - p,
{
    let q = skip_ws(s, p);
    lemma_skip_ws_range(s, p);
    if q < s.len() && s[q] != '#' {
        if op_start(s[q]) {
            let first = s[q];
            if first == '(' || first == ')' {
                lemma_sp_inside(s, q, q + 1);
            } else {
                match lex_operator(s, q) {
                    Ok((t, j)) => {
                        lemma_sp_inside(s, q, j);
                        assert forall|k: int| 0 <= k < acc.push(t).len() implies token_inside(
                            #[trigger] acc.push(t)[k],
                            byte_len(s),
                        ) by {
                            if k < acc.len() {
                                assert(acc.push(t)[k] == acc[k]);
                            }
                        }
                        lemma_lex_run_inside(s, j, acc.push(t));
                    },
                    Err(_) => {},
                }
            }
        } else {
            let st0 = WordSt { parts: seq![], lit: seq![], had: false };
            lemma_word_inside(s, q, st0);
            lemma_word_advances(s, q, st0);
            match lex_word(s, q) {
                Ok((t, j)) => {
                    lemma_sp_inside(s, q, j);
                    assert forall|k: int| 0 <= k < acc.push(t).len() implies token_inside(
                        #[trigger] acc.push(t)[k],
                        byte_len(s),
                    ) by {
                        if k < acc.len() {
                            assert(acc.push(t)[k] == acc[k]);
                        }
                    }
                    lemma_lex_run_inside(s, j, acc.push(t));
                },
                Err(_) => {},
            }
        }
    }
}

// ---- the lexer -------------------------------------------------------------

/// Split a line into tokens.
pub fn tokenize(input: &str) -> (r: Result<Vec<Token>, ParseError>)
    requires
        fits(input@),
    ensures
        match lex(input@) {
            Ok(ts) => r matches Ok(v) && tokens_view(v@) == ts,
            Err(e) => r matches Err(x) && x@ == e,
        },
{
    Lexer::new(input).run()
}

/// A cursor over the characters of a line.
struct Lexer {
    /// Every character of the line.
    chars: Vec<char>,
    /// The byte offset of every character boundary.
    offs: Vec<usize>,
    /// Index into `chars`, not a byte offset.
    pos: usize,
}

/// Whether `c` begins an operator.
fn is_operator_start(c: char) -> (b: bool)
    ensures
        b == op_start(c),
{
    c == '|' || c == '&' || c == ';' || c == '<' || c == '>' || c == '(' || c == ')'
}

/// Whether `c` may begin a variable name.
fn is_name_start(c: char) -> (b: bool)
    ensures
        b == name_start(c),
{
    c == '_' || ('a' <= c && c <= 'z') || ('A' <= c && c <= 'Z')
}

/// Whether `c` may continue a variable name.
fn is_name_continue(c: char) -> (b: bool)
    ensures
        b == name_cont(c),
{
    c == '_' || ('a' <= c && c <= 'z') || ('A' <= c && c <= 'Z') || ('0' <= c && c <= '9')
}

/// Whether `text` is a variable name.
fn is_name(text: &[char]) -> (b: bool)
    ensures
        b == is_name_spec(text@),
{
    if text.len() == 0 || !is_name_start(text[0]) {
        return false;
    }
    let mut i: usize = 1;
    while i < text.len()
        invariant
            1 <= i <= text.len(),
            forall|k: int| 1 <= k < i ==> name_cont(#[trigger] text@[k]),
        decreases text.len() - i,
    {
        if !is_name_continue(text[i]) {
            return false;
        }
        i = i + 1;
    }
    true
}

/// Whether every character is an ASCII digit.
fn all_ascii_digits(text: &[char]) -> (b: bool)
    ensures
        b == all_digits(text@),
{
    let mut i: usize = 0;
    while i < text.len()
        invariant
            i <= text.len(),
            forall|k: int| 0 <= k < i ==> is_digit(#[trigger] text@[k]),
        decreases text.len() - i,
    {
        if !('0' <= text[i] && text[i] <= '9') {
            assert(!is_digit(text@[i as int]));
            return false;
        }
        i = i + 1;
    }
    true
}

/// The characters `v[from..to]`.
fn copy_range(v: &Vec<char>, from: usize, to: usize) -> (r: Vec<char>)
    requires
        from <= to <= v@.len(),
    ensures
        r@ == v@.subrange(from as int, to as int),
{
    let mut r: Vec<char> = Vec::new();
    let mut i = from;
    while i < to
        invariant
            from <= i <= to <= v@.len(),
            r@ == v@.subrange(from as int, i as int),
        decreases to - i,
    {
        r.push(v[i]);
        i = i + 1;
        assert(r@ =~= v@.subrange(from as int, i as int));
    }
    r
}

impl Lexer {
    spec fn s(&self) -> Seq<char> {
        self.chars@
    }

    spec fn wf(&self) -> bool {
        &&& fits(self.chars@)
        &&& self.chars@.len() <= usize::MAX
        &&& self.offs@.len() == self.chars@.len() + 1
        &&& forall|i: int| 0 <= i <= self.chars@.len() ==> self.offs@[i] == byte_offset(self.chars@, i)
        &&& self.pos <= self.chars@.len()
    }

    spec fn same_text(&self, other: &Lexer) -> bool {
        self.chars@ == other.chars@ && self.offs@ == other.offs@
    }

    fn new(source: &str) -> (l: Self)
        requires
            fits(source@),
        ensures
            l.wf(),
            l.s() == source@,
            l.pos == 0,
    {
        let chars = chars_of(source);
        let offs = boundary_offsets(&chars);
        assert(chars@.len() == chars.len());
        Self { chars, offs, pos: 0 }
    }

    fn peek(&self) -> (c: Option<char>)
        requires
            self.wf(),
        ensures
            c == if self.pos < self.s().len() { Some(self.s()[self.pos as int]) } else { None },
    {
        self.peek_nth(0)
    }

    fn peek_nth(&self, n: usize) -> (c: Option<char>)
        requires
            self.wf(),
        ensures
            c == if self.pos + n < self.s().len() {
                Some(self.s()[self.pos + n])
            } else {
                None::<char>
            },
    {
        if n < self.chars.len() - self.pos {
            Some(self.chars[self.pos + n])
        } else {
            None
        }
    }

    /// Byte offset of the cursor, or the end of input.
    fn offset(&self) -> (b: usize)
        requires
            self.wf(),
        ensures
            b == byte_offset(self.s(), self.pos as int),
    {
        self.offs[self.pos]
    }

    fn bump(&mut self) -> (c: Option<char>)
        requires
            old(self).wf(),
        ensures
            final(self).wf(),
            final(self).same_text(old(self)),
            c == if old(self).pos < old(self).s().len() {
                Some(old(self).s()[old(self).pos as int])
            } else {
                None
            },
            final(self).pos == if c is Some { old(self).pos + 1 } else { old(self).pos as int },
    {
        let c = self.peek();
        if c.is_some() {
            self.pos = self.pos + 1;
        }
        c
    }

    fn eat(&mut self, expected: char) -> (b: bool)
        requires
            old(self).wf(),
        ensures
            final(self).wf(),
            final(self).same_text(old(self)),
            b == (old(self).pos < old(self).s().len() && old(self).s()[old(self).pos as int]
                == expected),
            final(self).pos == if b { old(self).pos + 1 } else { old(self).pos as int },
    {
        if self.peek() == Some(expected) {
            self.pos = self.pos + 1;
            true
        } else {
            false
        }
    }

    fn run(self) -> (r: Result<Vec<Token>, ParseError>)
        requires
            self.wf(),
            self.pos == 0,
        ensures
            match lex(self.s()) {
                Ok(ts) => r matches Ok(v) && tokens_view(v@) == ts,
                Err(e) => r matches Err(x) && x@ == e,
            },
    {
        let mut lexer = self;
        lexer.run_tokens()
    }

    fn run_tokens(&mut self) -> (r: Result<Vec<Token>, ParseError>)
        requires
            old(self).wf(),
            old(self).pos == 0,
        ensures
            match lex(old(self).s()) {
                Ok(ts) => r matches Ok(v) && tokens_view(v@) == ts,
                Err(e) => r matches Err(x) && x@ == e,
            },
    {
        let ghost s = self.s();
        let mut tokens: Vec<Token> = Vec::new();
        assert(tokens_view(tokens@) =~= Seq::<TokenV>::empty());
        loop
            invariant
                self.wf(),
                s == self.s(),
                s == old(self).s(),
                lex(s) == lex_run(s, self.pos as int, tokens_view(tokens@)),
            ensures
                lex(s) == Ok::<Seq<TokenV>, ErrV>(tokens_view(tokens@)),
            decreases s.len() - self.pos,
        {
            let ghost p = self.pos as int;
            self.skip_whitespace();
            proof {
                lemma_skip_ws_range(s, p);
            }
            match self.peek() {
                None => break,
                Some(c) => {
                    if c == '#' {
                        break;
                    }
                    let ghost q = self.pos as int;
                    if is_operator_start(c) {
                        let t = match self.operator() {
                            Ok(t) => t,
                            Err(e) => {
                                return Err(e);
                            },
                        };
                        proof {
                            lemma_tokens_view_push(tokens@, t);
                        }
                        tokens.push(t);
                    } else {
                        let t = match self.word() {
                            Ok(t) => t,
                            Err(e) => {
                                return Err(e);
                            },
                        };
                        proof {
                            lemma_tokens_view_push(tokens@, t);
                            lemma_word_advances(
                                s,
                                q,
                                WordSt { parts: seq![], lit: seq![], had: false },
                            );
                        }
                        tokens.push(t);
                    }
                },
            }
        }
        Ok(tokens)
    }

    fn skip_whitespace(&mut self)
        requires
            old(self).wf(),
        ensures
            final(self).wf(),
            final(self).same_text(old(self)),
            final(self).pos == skip_ws(old(self).s(), old(self).pos as int),
    {
        let ghost s = self.s();
        let ghost p = self.pos as int;
        while self.pos < self.chars.len() && is_whitespace(self.chars[self.pos])
            invariant
                self.wf(),
                s == self.s(),
                old(self).same_text(self),
                p == old(self).pos,
                p <= self.pos,
                skip_ws(s, p) == skip_ws(s, self.pos as int),
            decreases s.len() - self.pos,
        {
            self.pos = self.pos + 1;
        }
    }

    fn operator(&mut self) -> (r: Result<Token, ParseError>)
        requires
            old(self).wf(),
            old(self).pos < old(self).s().len(),
            op_start(old(self).s()[old(self).pos as int]),
        ensures
            final(self).wf(),
            final(self).same_text(old(self)),
            match lex_operator(old(self).s(), old(self).pos as int) {
                Ok((t, j)) => r matches Ok(x) && x@ == t && final(self).pos == j,
                Err(e) => r matches Err(x) && x@ == e,
            },
    {
        let ghost s = self.s();
        let ghost p = self.pos as int;
        let start = self.offset();
        let first = match self.bump() {
            Some(c) => c,
            None => {
                return Err(ParseError::MissingCommand { span: Span::empty(start) });
            },
        };
        proof {
            lemma_offset_mono(s, p, p + 1);
        }
        let kind = if first == '|' {
            if self.eat('|') {
                TokenKind::OrIf
            } else {
                TokenKind::Pipe
            }
        } else if first == '&' {
            if self.eat('&') {
                TokenKind::AndIf
            } else {
                TokenKind::Amp
            }
        } else if first == ';' {
            TokenKind::Semi
        } else if first == '<' {
            if self.eat('<') {
                TokenKind::DLess
            } else if self.eat('&') {
                TokenKind::LessAnd
            } else {
                TokenKind::Less
            }
        } else if first == '>' {
            if self.eat('>') {
                TokenKind::DGreat
            } else if self.eat('&') {
                TokenKind::GreatAnd
            } else {
                TokenKind::Great
            }
        } else {
            // `(` or `)`: subshells and grouping are recognised so they cannot
            // be mistaken for part of a word, but are not implemented.
            let mut token = String::new();
            token.push(first);
            let end = self.offset();
            assert(token@ =~= seq![first]);
            return Err(
                ParseError::Unsupported { token, phase: None, span: Span::new(start, end) },
            );
        };
        proof {
            lemma_offset_mono(s, p, self.pos as int);
        }
        let end = self.offset();
        Ok(Token::new(kind, Span::new(start, end)))
    }

    /// Read a bare variable name starting at the cursor.
    fn name(&mut self) -> (n: String)
        requires
            old(self).wf(),
        ensures
            final(self).wf(),
            final(self).same_text(old(self)),
            final(self).pos == name_end(old(self).s(), old(self).pos as int),
            n@ == old(self).s().subrange(old(self).pos as int, final(self).pos as int),
    {
        let ghost s = self.s();
        let start = self.pos;
        while self.pos < self.chars.len() && is_name_continue(self.chars[self.pos])
            invariant
                self.wf(),
                self.s() == s,
                old(self).same_text(self),
                start <= self.pos,
                forall|m: int| start <= m < self.pos ==> name_cont(#[trigger] s[m]),
            decreases s.len() - self.pos,
        {
            self.pos = self.pos + 1;
        }
        proof {
            lemma_name_end_at(s, start as int, self.pos as int);
        }
        let text = copy_range(&self.chars, start, self.pos);
        string_of(&text)
    }

    /// Consume a single-quoted string. Nothing inside is special, not even
    /// `\`.
    fn single_quoted(&mut self, literal: &mut Vec<char>) -> (r: Result<(), ParseError>)
        requires
            old(self).wf(),
            old(self).pos < old(self).s().len(),
            old(self).s()[old(self).pos as int] == '\'',
        ensures
            final(self).wf(),
            final(self).same_text(old(self)),
            match lex_single(old(self).s(), old(self).pos as int, old(literal)@) {
                Ok((l, j)) => r is Ok && final(literal)@ == l && final(self).pos == j,
                Err(e) => r matches Err(x) && x@ == e,
            },
    {
        let ghost s = self.s();
        let ghost p = self.pos as int;
        let ghost lit0 = literal@;
        let open = self.offset();
        self.pos = self.pos + 1;
        proof {
            lemma_offset_step(s, p);
            lemma_offset_mono(s, p + 1, s.len() as int);
        }
        while self.pos < self.chars.len()
            invariant
                self.wf(),
                self.s() == s,
                old(self).same_text(self),
                0 <= p,
                p == old(self).pos,
                s == old(self).s(),
                lit0 == old(literal)@,
                p + 1 <= self.pos <= s.len(),
                literal@ == lit0 + s.subrange(p + 1, self.pos as int),
                forall|m: int| p + 1 <= m < self.pos ==> s[m] != '\'',
                open == byte_offset(s, p),
                byte_offset(s, p + 1) == open + 1,
                open + 1 <= byte_len(s),
            decreases s.len() - self.pos,
        {
            let c = self.chars[self.pos];
            self.pos = self.pos + 1;
            if c == '\'' {
                proof {
                    lemma_find_char_at(s, p + 1, '\'', self.pos - 1);
                }
                return Ok(());
            }
            literal.push(c);
            assert(literal@ =~= lit0 + s.subrange(p + 1, self.pos as int));
        }
        proof {
            lemma_find_char_at(s, p + 1, '\'', s.len() as int);
        }
        Err(ParseError::UnterminatedQuote { quote: '\'', span: Span::new(open, open + 1) })
    }

    /// Consume a double-quoted string, which still expands parameters.
    fn double_quoted(&mut self, parts: &mut Vec<WordPart>, literal: &mut Vec<char>) -> (r: Result<
        (),
        ParseError,
    >)
        requires
            old(self).wf(),
            old(self).pos < old(self).s().len(),
            old(self).s()[old(self).pos as int] == '"',
        ensures
            final(self).wf(),
            final(self).same_text(old(self)),
            match dq_loop(
                old(self).s(),
                old(self).pos + 1,
                parts_view(old(parts)@),
                old(literal)@,
                old(self).pos as int,
            ) {
                Ok((ps, l, j)) => r is Ok && parts_view(final(parts)@) == ps && final(literal)@
                    == l && final(self).pos == j,
                Err(e) => r matches Err(x) && x@ == e,
            },
    {
        let ghost s = self.s();
        let ghost p = self.pos as int;
        let ghost goal = dq_loop(s, p + 1, parts_view(parts@), literal@, p);
        let open = self.offset();
        self.pos = self.pos + 1;
        proof {
            lemma_offset_step(s, p);
            lemma_offset_mono(s, p + 1, s.len() as int);
        }
        while self.pos < self.chars.len()
            invariant
                self.wf(),
                self.s() == s,
                old(self).same_text(self),
                0 <= p,
                p == old(self).pos,
                s == old(self).s(),
                goal == dq_loop(s, p + 1, parts_view(old(parts)@), old(literal)@, p),
                p + 1 <= self.pos <= s.len(),
                goal == dq_loop(s, self.pos as int, parts_view(parts@), literal@, p),
                open == byte_offset(s, p),
                byte_offset(s, p + 1) == open + 1,
            decreases s.len() - self.pos,
        {
            let ghost i = self.pos as int;
            let c = self.chars[self.pos];
            proof {
                lemma_offset_mono(s, i, s.len() as int);
            }
            if c == '"' {
                self.pos = self.pos + 1;
                return Ok(());
            } else if c == '\\' {
                let at = self.offset();
                self.pos = self.pos + 1;
                match self.peek() {
                    Some(next) => {
                        if next == '"' || next == '\\' || next == '$' || next == '`' {
                            literal.push(next);
                            self.pos = self.pos + 1;
                        } else {
                            literal.push('\\');
                        }
                    },
                    None => {
                        let end = self.offs[self.chars.len()];
                        assert(s.take(s.len() as int) =~= s);
                        return Err(ParseError::TrailingBackslash { span: Span::new(at, end) });
                    },
                }
            } else if c == '$' {
                proof {
                    lemma_parameter_advances(s, i, true);
                }
                match self.parameter(true) {
                    Err(e) => {
                        return Err(e);
                    },
                    Ok(Some(part)) => {
                        if literal.len() > 0 {
                            let lp = literal_part(literal.as_slice());
                            proof {
                                lemma_parts_view_push(parts@, lp);
                            }
                            parts.push(lp);
                            *literal = Vec::new();
                        }
                        proof {
                            lemma_parts_view_push(parts@, part);
                        }
                        parts.push(part);
                        assert(literal@ =~= Seq::<char>::empty());
                    },
                    Ok(None) => {
                        literal.push('$');
                    },
                }
            } else if c == '`' {
                let at = self.offset();
                proof {
                    lemma_offset_step(s, i);
                }
                return Err(
                    ParseError::Unsupported {
                        token: "`".to_owned(),
                        phase: None,
                        span: Span::new(at, at + 1),
                    },
                );
            } else {
                literal.push(c);
                self.pos = self.pos + 1;
            }
        }
        Err(ParseError::UnterminatedQuote { quote: '"', span: Span::new(open, open + 1) })
    }

    /// Read a parameter reference starting at `$`. `Ok(None)` when the `$`
    /// introduces nothing, which every shell treats as an ordinary dollar.
    fn parameter(&mut self, quoted: bool) -> (r: Result<Option<WordPart>, ParseError>)
        requires
            old(self).wf(),
            old(self).pos < old(self).s().len(),
            old(self).s()[old(self).pos as int] == '$',
        ensures
            final(self).wf(),
            final(self).same_text(old(self)),
            match lex_parameter(old(self).s(), old(self).pos as int, quoted) {
                Ok((part, j)) => r matches Ok(x) && final(self).pos == j && match (x, part) {
                    (Some(a), Some(b)) => a@ == b,
                    (None, None) => true,
                    _ => false,
                },
                Err(e) => r matches Err(x) && x@ == e,
            },
    {
        let ghost s = self.s();
        let ghost p = self.pos as int;
        let start = self.offset();
        self.pos = self.pos + 1;
        proof {
            lemma_offset_step(s, p);
            lemma_offset_mono(s, p, s.len() as int);
            lemma_offset_mono(s, p + 1, s.len() as int);
        }
        match self.peek() {
            None => Ok(None),
            Some(c) => {
                if c == '{' {
                    match self.braced_parameter(start, quoted) {
                        Ok(part) => Ok(Some(part)),
                        Err(e) => Err(e),
                    }
                } else if c == '?' {
                    self.pos = self.pos + 1;
                    Ok(Some(WordPart::Parameter { param: Parameter::Status, quoted }))
                } else if c == '$' {
                    self.pos = self.pos + 1;
                    Ok(Some(WordPart::Parameter { param: Parameter::Pid, quoted }))
                } else if c == '(' {
                    proof {
                        lemma_offset_step(s, p + 1);
                        lemma_offset_mono(s, p + 2, s.len() as int);
                    }
                    Err(
                        ParseError::Unsupported {
                            token: "$(".to_owned(),
                            phase: None,
                            span: Span::new(start, start + 2),
                        },
                    )
                } else if '0' <= c && c <= '9' {
                    self.pos = self.pos + 1;
                    let mut text = String::new();
                    text.push('$');
                    text.push(c);
                    assert(text@ =~= seq!['$', c]);
                    proof {
                        lemma_offset_mono(s, p, self.pos as int);
                    }
                    let end = self.offset();
                    Err(
                        ParseError::UnsupportedParameter {
                            text,
                            reason: "positional parameters are not supported",
                            span: Span::new(start, end),
                        },
                    )
                } else if is_name_start(c) {
                    let name = self.name();
                    Ok(Some(WordPart::Parameter { param: Parameter::Named(name), quoted }))
                } else {
                    Ok(None)
                }
            },
        }
    }

    /// Read `${...}`, with the cursor on the `{`.
    fn braced_parameter(&mut self, start: usize, quoted: bool) -> (r: Result<WordPart, ParseError>)
        requires
            old(self).wf(),
            1 <= old(self).pos < old(self).s().len(),
            old(self).s()[old(self).pos - 1] == '$',
            old(self).s()[old(self).pos as int] == '{',
            start == byte_offset(old(self).s(), old(self).pos - 1),
        ensures
            final(self).wf(),
            final(self).same_text(old(self)),
            match lex_braced(old(self).s(), old(self).pos - 1, quoted) {
                Ok((part, j)) => r matches Ok(x) && x@ == part && final(self).pos == j,
                Err(e) => r matches Err(x) && x@ == e,
            },
    {
        let ghost s = self.s();
        let ghost p = self.pos - 1;
        proof {
            lemma_offset_step(s, p);
            lemma_offset_step(s, p + 1);
            lemma_offset_mono(s, p + 2, s.len() as int);
        }
        self.pos = self.pos + 1;
        let body_start = self.pos;
        while self.pos < self.chars.len() && self.chars[self.pos] != '}'
            invariant
                self.wf(),
                self.s() == s,
                old(self).same_text(self),
                body_start <= self.pos <= s.len(),
                body_start == p + 2,
                forall|m: int| body_start <= m < self.pos ==> s[m] != '}',
            decreases s.len() - self.pos,
        {
            self.pos = self.pos + 1;
        }
        proof {
            lemma_find_char_at(s, p + 2, '}', self.pos as int);
        }
        if self.pos >= self.chars.len() {
            return Err(ParseError::UnterminatedBrace { span: Span::new(start, start + 2) });
        }
        let body = copy_range(&self.chars, body_start, self.pos);
        self.pos = self.pos + 1;
        proof {
            lemma_offset_mono(s, p, self.pos as int);
        }
        let end = self.offset();
        let span = Span::new(start, end);
        if body.len() == 1 && body[0] == '?' {
            assert(body@ =~= seq!['?']);
            Ok(WordPart::Parameter { param: Parameter::Status, quoted })
        } else if body.len() == 1 && body[0] == '$' {
            assert(body@ =~= seq!['$']);
            Ok(WordPart::Parameter { param: Parameter::Pid, quoted })
        } else if is_name(body.as_slice()) {
            assert(body@ != seq!['?']);
            assert(body@ != seq!['$']);
            Ok(WordPart::Parameter { param: Parameter::Named(string_of(body.as_slice())), quoted })
        } else {
            proof {
                if body@ == seq!['?'] || body@ == seq!['$'] {
                    assert(body@.len() == 1);
                }
            }
            let mut text = String::new();
            text.push('$');
            text.push('{');
            let mut k: usize = 0;
            while k < body.len()
                invariant
                    k <= body@.len(),
                    text@ == seq!['$', '{'] + body@.take(k as int),
                decreases body.len() - k,
            {
                text.push(body[k]);
                k = k + 1;
                assert(text@ =~= seq!['$', '{'] + body@.take(k as int));
            }
            text.push('}');
            assert(body@.take(k as int) =~= body@);
            assert(text@ =~= seq!['$', '{'] + body@ + seq!['}']);
            Err(
                ParseError::UnsupportedParameter {
                    text,
                    reason: "only plain `${name}` is supported so far",
                    span,
                },
            )
        }
    }

    /// Read a word, or a descriptor number if it is unquoted digits touching
    /// a redirection operator.
    #[verifier::rlimit(40)]
    fn word(&mut self) -> (r: Result<Token, ParseError>)
        requires
            old(self).wf(),
            old(self).pos < old(self).s().len(),
        ensures
            final(self).wf(),
            final(self).same_text(old(self)),
            match lex_word(old(self).s(), old(self).pos as int) {
                Ok((t, j)) => r matches Ok(x) && x@ == t && final(self).pos == j,
                Err(e) => r matches Err(x) && x@ == e,
            },
    {
        let ghost s = self.s();
        let ghost p = self.pos as int;
        let ghost goal = word_loop(s, p, WordSt { parts: seq![], lit: seq![], had: false });
        let start = self.offset();
        let mut parts: Vec<WordPart> = Vec::new();
        let mut literal: Vec<char> = Vec::new();
        // Recorded because a file descriptor number must be *unquoted* digits.
        let mut had_quotes = false;
        proof {
            assert(parts_view(parts@) =~= Seq::<PartV>::empty());
        }
        while self.pos < self.chars.len() && !is_whitespace(self.chars[self.pos])
            && !is_operator_start(self.chars[self.pos])
            invariant
                self.wf(),
                self.s() == s,
                old(self).same_text(self),
                0 <= p <= self.pos <= s.len(),
                p == old(self).pos,
                s == old(self).s(),
                goal == word_loop(s, p, WordSt { parts: seq![], lit: seq![], had: false }),
                start == byte_offset(s, p),
                goal == word_loop(
                    s,
                    self.pos as int,
                    WordSt { parts: parts_view(parts@), lit: literal@, had: had_quotes },
                ),
            decreases s.len() - self.pos,
        {
            let ghost i = self.pos as int;
            let c = self.chars[self.pos];
            proof {
                lemma_offset_mono(s, i, s.len() as int);
            }
            if c == '\'' {
                had_quotes = true;
                proof {
                    lemma_find_char_range(s, i + 1, '\'');
                }
                match self.single_quoted(&mut literal) {
                    Ok(()) => {},
                    Err(e) => {
                        return Err(e);
                    },
                }
            } else if c == '"' {
                had_quotes = true;
                proof {
                    lemma_dq_advances(s, i + 1, parts_view(parts@), literal@, i);
                }
                match self.double_quoted(&mut parts, &mut literal) {
                    Ok(()) => {},
                    Err(e) => {
                        return Err(e);
                    },
                }
            } else if c == '\\' {
                had_quotes = true;
                let at = self.offset();
                self.pos = self.pos + 1;
                match self.bump() {
                    Some(escaped) => literal.push(escaped),
                    None => {
                        let end = self.offs[self.chars.len()];
                        assert(s.take(s.len() as int) =~= s);
                        return Err(ParseError::TrailingBackslash { span: Span::new(at, end) });
                    },
                }
            } else if c == '$' {
                proof {
                    lemma_parameter_advances(s, i, false);
                }
                match self.parameter(false) {
                    Err(e) => {
                        return Err(e);
                    },
                    Ok(Some(part)) => {
                        if literal.len() > 0 {
                            let lp = literal_part(literal.as_slice());
                            proof {
                                lemma_parts_view_push(parts@, lp);
                            }
                            parts.push(lp);
                            literal = Vec::new();
                        }
                        proof {
                            lemma_parts_view_push(parts@, part);
                        }
                        parts.push(part);
                        assert(literal@ =~= Seq::<char>::empty());
                    },
                    Ok(None) => {
                        literal.push('$');
                    },
                }
            } else if c == '`' {
                let at = self.offset();
                proof {
                    lemma_offset_step(s, i);
                }
                return Err(
                    ParseError::Unsupported {
                        token: "`".to_owned(),
                        phase: None,
                        span: Span::new(at, at + 1),
                    },
                );
            } else if c == '~' && parts.len() == 0 && literal.len() == 0 && !had_quotes {
                // A tilde only means "home" at the very start of an unquoted
                // word, and only when the word ends there or continues with a
                // `/`.
                self.pos = self.pos + 1;
                let home = match self.peek() {
                    None => true,
                    Some(n) => n == '/' || is_whitespace(n) || is_operator_start(n),
                };
                if home {
                    proof {
                        lemma_parts_view_push(parts@, WordPart::Tilde);
                    }
                    parts.push(WordPart::Tilde);
                } else {
                    literal.push('~');
                }
            } else {
                literal.push(c);
                self.pos = self.pos + 1;
            }
        }
        let ghost st = WordSt { parts: parts_view(parts@), lit: literal@, had: had_quotes };
        assert(goal == Ok::<(WordSt, int), ErrV>((st, self.pos as int)));
        // An empty word is still a word: `echo ""` passes one empty argument.
        if literal.len() > 0 || parts.len() == 0 {
            let lp = literal_part(literal.as_slice());
            proof {
                lemma_parts_view_push(parts@, lp);
            }
            parts.push(lp);
        }
        assert(parts_view(parts@) == final_parts(st));
        proof {
            lemma_offset_mono(s, p, self.pos as int);
        }
        let end = self.offset();
        let span = Span::new(start, end);
        // POSIX: digits immediately followed by a redirection operator are a
        // file descriptor, not an argument.
        let touches = match self.peek() {
            Some(n) => n == '<' || n == '>',
            None => false,
        };
        if !had_quotes && touches && parts.len() == 1 {
            match &parts[0] {
                WordPart::Literal(text) => {
                    let digits = chars_of(text.as_str());
                    assert(parts_view(parts@)[0] == PartV::Literal(text@));
                    if digits.len() > 0 && all_ascii_digits(digits.as_slice()) {
                        match parse_i32_chars(digits.as_slice()) {
                            Some(fd) => {
                                return Ok(Token::new(TokenKind::IoNumber(fd), span));
                            },
                            None => {},
                        }
                    }
                },
                _ => {},
            }
        }
        assert(io_number(s, st, self.pos as int) is None);
        Ok(Token::new(TokenKind::Word(Word::new(parts, span, had_quotes)), span))
    }
}

} // verus!
