//! Turning words into arguments.
//!
//! One word can become several arguments, or none at all:
//!
//! ```text
//! X="a b"     echo $X      →  echo a b        two arguments
//!             echo "$X"    →  echo "a b"      one argument
//! X unset     echo $X      →  echo            no argument at all
//!             echo "$X"    →  echo ""         one empty argument
//! ```
//!
//! That is field splitting, and the rule is narrow: only the *result of an
//! unquoted expansion* is split. Literal text is never split, which is why
//! `echo a\ b` stays a single argument even though it contains a space.
//!
//! What a parameter stands for is the environment's business, so the rules
//! are stated over the values it handed back: [`expand_word`] is exact for
//! any values, and [`expand_all`] says that its result is [`expand_word`]'s
//! for the values the environment gave.

use vstd::prelude::*;
use crate::text::{
    chars_of, dec_int, dec_nat, decimal, lemma_strings_view_push, push_decimal, strings_view,
};
use crate::word::{parts_view, ParamV, Parameter, PartV, Word, WordPart, WordV};

verus! {

/// The state expansion needs to resolve a parameter.
///
/// A trait rather than direct reads of the process, so that expansion can be
/// exercised against an environment built by hand.
pub trait Environment {
    /// The value of a variable, if it is set.
    fn var(&self, name: &str) -> Option<String>;

    /// The exit status of the previous command, for `$?`.
    fn last_status(&self) -> i32;

    /// The shell's process id, for `$$`.
    fn pid(&self) -> u32;

    /// Characters that separate fields when splitting an unquoted expansion:
    /// `IFS` when it is set, and space, tab and newline when it is not.
    fn field_separators(&self) -> (s: String)
        ensures
            exists|v: Option<String>|
                call_ensures(Self::var, (self, "IFS"), v) && s@ == separators_spec(opt_view(v)),
    {
        let ifs = self.var("IFS");
        separators_from(ifs)
    }
}

/// The separators a value of `IFS` gives: the value itself when it is set,
/// and space, tab and newline when it is not.
pub open spec fn separators_spec(ifs: Option<Seq<char>>) -> Seq<char> {
    match ifs {
        Some(v) => v,
        None => seq![' ', '\t', '\n'],
    }
}

/// The separators a value of `IFS` gives.
pub fn separators_from(ifs: Option<String>) -> (s: String)
    ensures
        s@ == separators_spec(opt_view(ifs)),
{
    match ifs {
        Some(v) => v,
        None => {
            let mut s = String::new();
            s.push(' ');
            s.push('\t');
            s.push('\n');
            s
        },
    }
}

// ---- the rules, over the values the environment gave ------------------------

/// The text of an optional string.
pub open spec fn opt_view(o: Option<String>) -> Option<Seq<char>> {
    match o {
        Some(s) => Some(s@),
        None => None,
    }
}

/// The field being built, or an empty one if none is open.
pub open spec fn open_field(cur: Option<Seq<char>>) -> Seq<char> {
    match cur {
        Some(f) => f,
        None => seq![],
    }
}

/// Field splitting of an unquoted expansion's value, from character `i` on:
/// a separator closes the open field, if any; anything else extends it.
pub open spec fn split_from(
    v: Seq<char>,
    i: int,
    seps: Seq<char>,
    cur: Option<Seq<char>>,
    out: Seq<Seq<char>>,
) -> (Option<Seq<char>>, Seq<Seq<char>>)
    decreases v.len() - i,
{
    if i >= v.len() {
        (cur, out)
    } else if seps.contains(v[i]) {
        match cur {
            Some(f) => split_from(v, i + 1, seps, None, out.push(f)),
            None => split_from(v, i + 1, seps, None, out),
        }
    } else {
        split_from(v, i + 1, seps, Some(open_field(cur).push(v[i])), out)
    }
}

/// One part of a word, given the value the environment gave for it (unused
/// for literal text).
pub open spec fn part_step(
    p: PartV,
    val: Seq<char>,
    seps: Seq<char>,
    cur: Option<Seq<char>>,
    out: Seq<Seq<char>>,
) -> (Option<Seq<char>>, Seq<Seq<char>>) {
    match p {
        PartV::Literal(t) => (Some(open_field(cur) + t), out),
        PartV::Tilde => (Some(open_field(cur) + val), out),
        PartV::Param(_, quoted) => if quoted {
            (Some(open_field(cur) + val), out)
        } else {
            split_from(val, 0, seps, cur, out)
        },
    }
}

/// The parts of a word from part `i` on.
pub open spec fn parts_from(
    parts: Seq<PartV>,
    vals: Seq<Seq<char>>,
    i: int,
    seps: Seq<char>,
    cur: Option<Seq<char>>,
    out: Seq<Seq<char>>,
) -> (Option<Seq<char>>, Seq<Seq<char>>)
    decreases parts.len() - i,
{
    if i >= parts.len() {
        (cur, out)
    } else {
        let (c, o) = part_step(parts[i], vals[i], seps, cur, out);
        parts_from(parts, vals, i + 1, seps, c, o)
    }
}

/// The fields one word expands to. A word whose quotes survived with
/// nothing in them still makes one empty field: the user asked for an
/// argument explicitly.
pub open spec fn expand_word_spec(w: WordV, vals: Seq<Seq<char>>, seps: Seq<char>) -> Seq<
    Seq<char>,
> {
    let (cur, out) = parts_from(w.parts, vals, 0, seps, None, seq![]);
    let fields = match cur {
        Some(f) => out.push(f),
        None => out,
    };
    if fields.len() == 0 && w.quoted {
        seq![seq![]]
    } else {
        fields
    }
}

/// The fields of several words, one after another.
pub open spec fn expand_words_spec(
    ws: Seq<WordV>,
    vals: Seq<Seq<Seq<char>>>,
    seps: Seq<char>,
) -> Seq<Seq<char>>
    decreases ws.len(),
{
    if ws.len() == 0 || vals.len() == 0 {
        seq![]
    } else {
        expand_words_spec(ws.drop_last(), vals.drop_last(), seps) + expand_word_spec(
            ws.last(),
            vals.last(),
            seps,
        )
    }
}

/// The text of a variable's value as expansion uses it: an unset variable
/// is the empty string.
pub open spec fn set_or_empty(o: Option<Seq<char>>) -> Seq<char> {
    match o {
        Some(v) => v,
        None => seq![],
    }
}

/// `v` is what the environment answered for a parameter: the value `var`
/// gave for its name (empty if unset), or the number `last_status` or `pid`
/// gave, in decimal.
pub open spec fn param_answer<E: Environment>(env: &E, p: ParamV, v: Seq<char>) -> bool {
    match p {
        ParamV::Named(n) => exists|name: &str, o: Option<String>|
            name@ == n && #[trigger] call_ensures(E::var, (env, name), o) && v == set_or_empty(
                opt_view(o),
            ),
        ParamV::Status => exists|c: i32|
            #[trigger] call_ensures(E::last_status, (env,), c) && v == dec_int(c as int),
        ParamV::Pid => exists|c: u32| #[trigger] call_ensures(E::pid, (env,), c) && v == dec_int(c as int),
    }
}

/// `v` is what the environment answered for a part: nothing for literal
/// text, `HOME`'s value for a `~` (the `~` itself when it is unset), and a
/// parameter's answer.
pub open spec fn part_answer<E: Environment>(env: &E, p: PartV, v: Seq<char>) -> bool {
    match p {
        PartV::Literal(_) => v.len() == 0,
        PartV::Param(param, _) => param_answer(env, param, v),
        PartV::Tilde => exists|o: Option<String>|
            #[trigger] call_ensures(E::var, (env, "HOME"), o) && v == match opt_view(o) {
                Some(h) => h,
                None => seq!['~'],
            },
    }
}

/// `vals` are the environment's answers for every part of a word.
pub open spec fn answers<E: Environment>(env: &E, parts: Seq<PartV>, vals: Seq<Seq<char>>) -> bool {
    &&& vals.len() == parts.len()
    &&& forall|i: int| 0 <= i < parts.len() ==> part_answer(env, #[trigger] parts[i], vals[i])
}

/// `seps` are the separators the environment's `IFS` gives.
pub open spec fn separators_answer<E: Environment>(env: &E, seps: Seq<char>) -> bool {
    exists|o: Option<String>|
        #[trigger] call_ensures(E::var, (env, "IFS"), o) && seps == separators_spec(opt_view(o))
}

/// Expanding two runs of words one after the other gives the fields of the
/// first run, then those of the second: each word's fields depend only on
/// that word and its own values.
pub proof fn law_expansion_concatenates(
    a: Seq<WordV>,
    va: Seq<Seq<Seq<char>>>,
    b: Seq<WordV>,
    vb: Seq<Seq<Seq<char>>>,
    seps: Seq<char>,
)
    requires
        va.len() == a.len(),
        vb.len() == b.len(),
    ensures
        expand_words_spec(a + b, va + vb, seps) == expand_words_spec(a, va, seps)
            + expand_words_spec(b, vb, seps),
    decreases b.len(),
{
    if b.len() == 0 {
        assert(a + b =~= a);
        assert(va + vb =~= va);
        assert(expand_words_spec(a, va, seps) + seq![] =~= expand_words_spec(a, va, seps));
    } else {
        law_expansion_concatenates(a, va, b.drop_last(), vb.drop_last(), seps);
        assert((a + b).drop_last() =~= a + b.drop_last());
        assert((va + vb).drop_last() =~= va + vb.drop_last());
        assert((a + b).last() == b.last());
        assert((va + vb).last() == vb.last());
        assert(expand_words_spec(a, va, seps) + expand_words_spec(b.drop_last(), vb.drop_last(), seps)
            + expand_word_spec(b.last(), vb.last(), seps) =~= expand_words_spec(a, va, seps) + (
        expand_words_spec(b.drop_last(), vb.drop_last(), seps) + expand_word_spec(
            b.last(),
            vb.last(),
            seps,
        )));
    }
}

/// The views of a list of words.
pub open spec fn word_views(ws: Seq<Word>) -> Seq<WordV> {
    ws.map_values(|w: Word| w@)
}

/// The environment gives the same answer each time it is asked the same
/// question: the same value for a name, the same status, the same pid.
pub open spec fn answers_alike<E: Environment>(env: &E) -> bool {
    &&& forall|n1: &str, n2: &str, o1: Option<String>, o2: Option<String>|
        n1@ == n2@ && #[trigger] call_ensures(E::var, (env, n1), o1) && #[trigger] call_ensures(
            E::var,
            (env, n2),
            o2,
        ) ==> opt_view(o1) == opt_view(o2)
    &&& forall|c1: i32, c2: i32|
        #[trigger] call_ensures(E::last_status, (env,), c1) && #[trigger] call_ensures(
            E::last_status,
            (env,),
            c2,
        ) ==> c1 == c2
    &&& forall|p1: u32, p2: u32|
        #[trigger] call_ensures(E::pid, (env,), p1) && #[trigger] call_ensures(E::pid, (env,), p2)
            ==> p1 == p2
}

/// `argv` is what expanding `words` gives, for what the environment
/// answered: its separators, and the values of every part of every word.
pub open spec fn expands_to<E: Environment>(env: &E, words: Seq<Word>, argv: Seq<Seq<char>>) -> bool {
    exists|seps: Seq<char>, vals: Seq<Seq<Seq<char>>>|
        {
            &&& separators_answer(env, seps)
            &&& vals.len() == words.len()
            &&& forall|i: int| 0 <= i < words.len() ==> answers(env, #[trigger] words[i]@.parts, vals[i])
            &&& argv == #[trigger] expand_words_spec(word_views(words), vals, seps)
        }
}

/// An environment that answers alike gives one answer for each part.
proof fn lemma_part_answer_unique<E: Environment>(env: &E, p: PartV, v1: Seq<char>, v2: Seq<char>)
    requires
        answers_alike(env),
        part_answer(env, p, v1),
        part_answer(env, p, v2),
    ensures
        v1 == v2,
{
    match p {
        PartV::Literal(_) => {
            assert(v1 =~= v2);
        },
        PartV::Param(ParamV::Named(n), _) => {
            let (n1, o1) = choose|name: &str, o: Option<String>|
                name@ == n && #[trigger] call_ensures(E::var, (env, name), o) && v1 == set_or_empty(
                    opt_view(o),
                );
            let (n2, o2) = choose|name: &str, o: Option<String>|
                name@ == n && #[trigger] call_ensures(E::var, (env, name), o) && v2 == set_or_empty(
                    opt_view(o),
                );
            assert(opt_view(o1) == opt_view(o2));
        },
        PartV::Param(ParamV::Status, _) => {
            let c1 = choose|c: i32| #[trigger] call_ensures(E::last_status, (env,), c) && v1 == dec_int(c as int);
            let c2 = choose|c: i32| #[trigger] call_ensures(E::last_status, (env,), c) && v2 == dec_int(c as int);
            assert(c1 == c2);
        },
        PartV::Param(ParamV::Pid, _) => {
            let c1 = choose|c: u32| #[trigger] call_ensures(E::pid, (env,), c) && v1 == dec_int(c as int);
            let c2 = choose|c: u32| #[trigger] call_ensures(E::pid, (env,), c) && v2 == dec_int(c as int);
            assert(c1 == c2);
        },
        PartV::Tilde => {
            let o1 = choose|o: Option<String>|
                #[trigger] call_ensures(E::var, (env, "HOME"), o) && v1 == match opt_view(o) {
                    Some(h) => h,
                    None => seq!['~'],
                };
            let o2 = choose|o: Option<String>|
                #[trigger] call_ensures(E::var, (env, "HOME"), o) && v2 == match opt_view(o) {
                    Some(h) => h,
                    None => seq!['~'],
                };
            assert(opt_view(o1) == opt_view(o2));
        },
    }
}

/// An environment that answers alike gives one set of values for a word.
proof fn lemma_answers_unique<E: Environment>(
    env: &E,
    parts: Seq<PartV>,
    v1: Seq<Seq<char>>,
    v2: Seq<Seq<char>>,
)
    requires
        answers_alike(env),
        answers(env, parts, v1),
        answers(env, parts, v2),
    ensures
        v1 == v2,
{
    assert forall|i: int| 0 <= i < v1.len() implies v1[i] == v2[i] by {
        lemma_part_answer_unique(env, parts[i], v1[i], v2[i]);
    }
    assert(v1 =~= v2);
}

/// An environment that answers alike gives one set of separators.
proof fn lemma_separators_unique<E: Environment>(env: &E, s1: Seq<char>, s2: Seq<char>)
    requires
        answers_alike(env),
        separators_answer(env, s1),
        separators_answer(env, s2),
    ensures
        s1 == s2,
{
    let o1 = choose|o: Option<String>|
        #[trigger] call_ensures(E::var, (env, "IFS"), o) && s1 == separators_spec(opt_view(o));
    let o2 = choose|o: Option<String>|
        #[trigger] call_ensures(E::var, (env, "IFS"), o) && s2 == separators_spec(opt_view(o));
    assert(opt_view(o1) == opt_view(o2));
}

/// With an environment that answers alike, expanding two runs of words
/// gives what expanding each gives, one after the other: [`expand_all`] of
/// `a` then `b` is the fields of `a`, then those of `b`.
pub proof fn law_expand_all_concatenates<E: Environment>(
    env: &E,
    a: Seq<Word>,
    b: Seq<Word>,
    x: Seq<Seq<char>>,
    y: Seq<Seq<char>>,
    z: Seq<Seq<char>>,
)
    requires
        answers_alike(env),
        expands_to(env, a, x),
        expands_to(env, b, y),
        expands_to(env, a + b, z),
    ensures
        z == x + y,
{
    let (sx, vx) = choose|seps: Seq<char>, vals: Seq<Seq<Seq<char>>>|
        {
            &&& separators_answer(env, seps)
            &&& vals.len() == a.len()
            &&& forall|i: int| 0 <= i < a.len() ==> answers(env, #[trigger] a[i]@.parts, vals[i])
            &&& x == #[trigger] expand_words_spec(word_views(a), vals, seps)
        };
    let (sy, vy) = choose|seps: Seq<char>, vals: Seq<Seq<Seq<char>>>|
        {
            &&& separators_answer(env, seps)
            &&& vals.len() == b.len()
            &&& forall|i: int| 0 <= i < b.len() ==> answers(env, #[trigger] b[i]@.parts, vals[i])
            &&& y == #[trigger] expand_words_spec(word_views(b), vals, seps)
        };
    let ab = a + b;
    let (sz, vz) = choose|seps: Seq<char>, vals: Seq<Seq<Seq<char>>>|
        {
            &&& separators_answer(env, seps)
            &&& vals.len() == ab.len()
            &&& forall|i: int| 0 <= i < ab.len() ==> answers(env, #[trigger] ab[i]@.parts, vals[i])
            &&& z == #[trigger] expand_words_spec(word_views(ab), vals, seps)
        };
    lemma_separators_unique(env, sx, sz);
    lemma_separators_unique(env, sy, sz);
    assert forall|i: int| 0 <= i < vz.len() implies vz[i] == (vx + vy)[i] by {
        if i < a.len() {
            assert(ab[i] == a[i]);
            lemma_answers_unique(env, a[i]@.parts, vz[i], vx[i]);
        } else {
            assert(ab[i] == b[i - a.len()]);
            lemma_answers_unique(env, b[i - a.len()]@.parts, vz[i], vy[i - a.len()]);
        }
    }
    assert(vz =~= vx + vy);
    assert(word_views(ab) =~= word_views(a) + word_views(b));
    law_expansion_concatenates(word_views(a), vx, word_views(b), vy, sz);
}

/// No words expand to no fields, whatever the environment.
pub proof fn law_no_words_no_fields<E: Environment>(env: &E, x: Seq<Seq<char>>)
    requires
        expands_to(env, seq![], x),
    ensures
        x == Seq::<Seq<char>>::empty(),
{
}

// ---- what expansion promises ----------------------------------------------------

/// A part whose text is never split: literal text, a `~`, or a parameter
/// inside double quotes.
pub open spec fn never_split(p: PartV) -> bool {
    !(p matches PartV::Param(_, false))
}

/// The text part `i` contributes: its own for literal text, its value
/// otherwise.
pub open spec fn piece(p: PartV, val: Seq<char>) -> Seq<char> {
    match p {
        PartV::Literal(t) => t,
        _ => val,
    }
}

/// The text of parts `i` on, run together.
pub open spec fn text_from(parts: Seq<PartV>, vals: Seq<Seq<char>>, i: int) -> Seq<char>
    decreases parts.len() - i,
{
    if i < 0 || i >= parts.len() {
        seq![]
    } else {
        piece(parts[i], vals[i]) + text_from(parts, vals, i + 1)
    }
}

proof fn lemma_unsplit_parts(
    parts: Seq<PartV>,
    vals: Seq<Seq<char>>,
    i: int,
    seps: Seq<char>,
    cur: Option<Seq<char>>,
    out: Seq<Seq<char>>,
)
    requires
        0 <= i < parts.len(),
        vals.len() == parts.len(),
        forall|k: int| i <= k < parts.len() ==> never_split(#[trigger] parts[k]),
    ensures
        parts_from(parts, vals, i, seps, cur, out) == (
            Some(open_field(cur) + text_from(parts, vals, i)),
            out,
        ),
    decreases parts.len() - i,
{
    assert(never_split(parts[i]));
    let next = Some(open_field(cur) + piece(parts[i], vals[i]));
    assert(part_step(parts[i], vals[i], seps, cur, out) == (next, out));
    assert(parts_from(parts, vals, i, seps, cur, out) == parts_from(
        parts,
        vals,
        i + 1,
        seps,
        next,
        out,
    ));
    if i + 1 < parts.len() {
        lemma_unsplit_parts(parts, vals, i + 1, seps, next, out);
        assert(open_field(next) + text_from(parts, vals, i + 1) =~= open_field(cur) + text_from(
            parts,
            vals,
            i,
        ));
    } else {
        assert(text_from(parts, vals, i + 1) == Seq::<char>::empty());
        assert(open_field(cur) + piece(parts[i], vals[i]) =~= open_field(cur) + text_from(
            parts,
            vals,
            i,
        ));
    }
}

/// Only the result of an unquoted expansion is split: a word made of
/// literal text, `~` and quoted expansions is exactly one argument, its
/// parts run together, whatever the values and separators.
pub proof fn law_unsplit_word_is_one_argument(w: WordV, vals: Seq<Seq<char>>, seps: Seq<char>)
    requires
        w.parts.len() > 0,
        vals.len() == w.parts.len(),
        forall|k: int| 0 <= k < w.parts.len() ==> never_split(#[trigger] w.parts[k]),
    ensures
        expand_word_spec(w, vals, seps) == seq![text_from(w.parts, vals, 0)],
{
    lemma_unsplit_parts(w.parts, vals, 0, seps, None, seq![]);
    assert(seq![text_from(w.parts, vals, 0)] =~= Seq::<Seq<char>>::empty().push(
        Seq::<char>::empty() + text_from(w.parts, vals, 0),
    ));
}

/// An unquoted expansion of an empty value produces no argument at all;
/// the same expansion in quotes produces one empty argument.
pub proof fn law_empty_expansion_vanishes_unless_quoted(
    w: WordV,
    p: ParamV,
    quoted: bool,
    seps: Seq<char>,
)
    requires
        w.parts == seq![PartV::Param(p, quoted)],
    ensures
        expand_word_spec(w, seq![seq![]], seps).len() == (if quoted || w.quoted {
            1int
        } else {
            0int
        }),
{
    let vals: Seq<Seq<char>> = seq![seq![]];
    assert(split_from(vals[0], 0, seps, None, seq![]) == (None::<Seq<char>>, Seq::<Seq<char>>::empty()));
    if quoted {
        assert(parts_from(w.parts, vals, 1, seps, Some(Seq::<char>::empty()), seq![]) == (
            Some(Seq::<char>::empty()),
            Seq::<Seq<char>>::empty(),
        ));
    } else {
        assert(parts_from(w.parts, vals, 1, seps, None, seq![]) == (
            None::<Seq<char>>,
            Seq::<Seq<char>>::empty(),
        ));
    }
}

/// A field split from a value: not empty, and free of separators.
pub open spec fn clean_field(f: Seq<char>, seps: Seq<char>) -> bool {
    f.len() > 0 && forall|j: int| 0 <= j < f.len() ==> !seps.contains(#[trigger] f[j])
}

proof fn lemma_split_clean(
    v: Seq<char>,
    i: int,
    seps: Seq<char>,
    cur: Option<Seq<char>>,
    out: Seq<Seq<char>>,
)
    requires
        0 <= i,
        forall|k: int| 0 <= k < out.len() ==> clean_field(#[trigger] out[k], seps),
        cur matches Some(f) ==> clean_field(f, seps),
    ensures
        forall|k: int|
            0 <= k < split_from(v, i, seps, cur, out).1.len() ==> clean_field(
                #[trigger] split_from(v, i, seps, cur, out).1[k],
                seps,
            ),
        split_from(v, i, seps, cur, out).0 matches Some(f) ==> clean_field(f, seps),
    decreases v.len() - i,
{
    if i < v.len() {
        if seps.contains(v[i]) {
            match cur {
                Some(f) => {
                    assert forall|k: int| 0 <= k < out.push(f).len() implies clean_field(
                        #[trigger] out.push(f)[k],
                        seps,
                    ) by {
                        if k < out.len() {
                            assert(out.push(f)[k] == out[k]);
                        }
                    }
                    lemma_split_clean(v, i + 1, seps, None, out.push(f));
                },
                None => {
                    lemma_split_clean(v, i + 1, seps, None, out);
                },
            }
        } else {
            let g = open_field(cur).push(v[i]);
            assert forall|j: int| 0 <= j < g.len() implies !seps.contains(#[trigger] g[j]) by {
                if j < open_field(cur).len() {
                    assert(g[j] == open_field(cur)[j]);
                }
            }
            lemma_split_clean(v, i + 1, seps, Some(g), out);
        }
    }
}

/// Splitting an unquoted expansion never makes an empty argument, and no
/// argument holds a separator: leading, trailing and repeated separators
/// only separate.
pub proof fn law_split_arguments_are_clean(w: WordV, p: ParamV, vals: Seq<Seq<char>>, seps: Seq<char>)
    requires
        w.parts == seq![PartV::Param(p, false)],
        vals.len() == 1,
        !w.quoted,
    ensures
        forall|k: int|
            0 <= k < expand_word_spec(w, vals, seps).len() ==> clean_field(
                #[trigger] expand_word_spec(w, vals, seps)[k],
                seps,
            ),
{
    lemma_split_clean(vals[0], 0, seps, None, seq![]);
    let (cur, out) = split_from(vals[0], 0, seps, None, seq![]);
    assert(parts_from(w.parts, vals, 1, seps, cur, out) == (cur, out));
    match cur {
        Some(f) => {
            assert forall|k: int| 0 <= k < out.push(f).len() implies clean_field(
                #[trigger] out.push(f)[k],
                seps,
            ) by {
                if k < out.len() {
                    assert(out.push(f)[k] == out[k]);
                }
            }
        },
        None => {},
    }
}

// ---- the executable rules -----------------------------------------------------

/// Whether `c` is among `set`.
fn contains_char(set: &Vec<char>, c: char) -> (b: bool)
    ensures
        b == set@.contains(c),
{
    let mut i: usize = 0;
    while i < set.len()
        invariant
            i <= set@.len(),
            forall|k: int| 0 <= k < i ==> set@[k] != c,
        decreases set.len() - i,
    {
        if set[i] == c {
            assert(set@[i as int] == c);
            return true;
        }
        i = i + 1;
    }
    false
}

/// The open field, or a new empty one.
fn take_open(cur: Option<String>) -> (s: String)
    ensures
        s@ == open_field(opt_view(cur)),
{
    match cur {
        Some(f) => f,
        None => String::new(),
    }
}

/// Split `value` as the result of an unquoted expansion, continuing the open
/// field `cur` and appending closed fields to `out`.
fn split_into(
    value: &str,
    seps: &Vec<char>,
    cur: &mut Option<String>,
    out: &mut Vec<String>,
)
    ensures
        (opt_view(*final(cur)), strings_view(final(out)@)) == split_from(
            value@,
            0,
            seps@,
            opt_view(*old(cur)),
            strings_view(old(out)@),
        ),
{
    let chars = chars_of(value);
    let ghost goal = split_from(value@, 0, seps@, opt_view(*cur), strings_view(out@));
    let mut i: usize = 0;
    while i < chars.len()
        invariant
            i <= chars@.len(),
            chars@ == value@,
            goal == split_from(value@, i as int, seps@, opt_view(*cur), strings_view(out@)),
        decreases chars.len() - i,
    {
        let ch = chars[i];
        if contains_char(seps, ch) {
            match cur.take() {
                Some(field) => {
                    proof {
                        lemma_strings_view_push(out@, field);
                    }
                    out.push(field);
                },
                None => {},
            }
        } else {
            let mut field = take_open(cur.take());
            field.push(ch);
            *cur = Some(field);
        }
        i = i + 1;
    }
}

/// Expand one word, given a value for each of its parts, into its fields.
///
/// `values[i]` is what part `i` stands for: the variable's value for `$NAME`,
/// the status or process id in decimal for `$?` and `$$`, the home
/// directory for `~`. Values of literal parts are not read.
pub fn expand_word(word: &Word, values: &Vec<String>, separators: &str) -> (fields: Vec<String>)
    requires
        values@.len() == word@.parts.len(),
    ensures
        strings_view(fields@) == expand_word_spec(word@, strings_view(values@), separators@),
{
    let seps = chars_of(separators);
    let parts = word.parts();
    let ghost pv = word@.parts;
    let ghost vv = strings_view(values@);
    let mut out: Vec<String> = Vec::new();
    let mut cur: Option<String> = None;
    assert(strings_view(out@) =~= Seq::<Seq<char>>::empty());
    let ghost goal = parts_from(pv, vv, 0, seps@, None, seq![]);
    let mut i: usize = 0;
    while i < parts.len()
        invariant
            i <= parts@.len(),
            parts_view(parts@) == pv,
            pv.len() == vv.len(),
            vv == strings_view(values@),
            seps@ == separators@,
            goal == parts_from(pv, vv, i as int, seps@, opt_view(cur), strings_view(out@)),
        decreases parts.len() - i,
    {
        assert(pv[i as int] == parts@[i as int]@);
        match &parts[i] {
            WordPart::Literal(text) => {
                let mut field = take_open(cur.take());
                field.push_str(text.as_str());
                cur = Some(field);
            },
            WordPart::Tilde => {
                let mut field = take_open(cur.take());
                field.push_str(values[i].as_str());
                cur = Some(field);
            },
            WordPart::Parameter { param: _, quoted } => {
                if *quoted {
                    let mut field = take_open(cur.take());
                    field.push_str(values[i].as_str());
                    cur = Some(field);
                } else {
                    split_into(values[i].as_str(), &seps, &mut cur, &mut out);
                }
            },
        }
        i = i + 1;
    }
    match cur {
        Some(field) => {
            proof {
                lemma_strings_view_push(out@, field);
            }
            out.push(field);
        },
        None => {},
    }
    // The user wrote quotes but nothing survived — `""`, or `"$UNSET"`. They
    // asked for an argument explicitly, so they get an empty one.
    if out.len() == 0 && word.has_quotes() {
        let empty = String::new();
        proof {
            lemma_strings_view_push(out@, empty);
        }
        out.push(empty);
        assert(strings_view(out@) =~= seq![Seq::<char>::empty()]);
    }
    out
}

/// The value a parameter stands for. An unset variable is the empty string.
fn resolve<E: Environment>(param: &Parameter, env: &E) -> (s: String)
    ensures
        param_answer(env, param@, s@),
{
    match param {
        Parameter::Named(name) => {
            let key = name.as_str();
            let o = env.var(key);
            let ghost go = o;
            let s = match o {
                Some(v) => v,
                None => String::new(),
            };
            assert(s@ == set_or_empty(opt_view(go)));
            assert(call_ensures(E::var, (env, key), go));
            s
        },
        Parameter::Status => {
            let n = env.last_status();
            let s = decimal(n as i64);
            assert(s@ == dec_int(n as int));
            assert(call_ensures(E::last_status, (env,), n));
            s
        },
        Parameter::Pid => {
            let n = env.pid();
            let s = decimal(n as i64);
            assert(s@ == dec_int(n as int));
            assert(call_ensures(E::pid, (env,), n));
            s
        },
    }
}

/// Ask the environment for the value of each part of a word.
fn part_values<E: Environment>(word: &Word, env: &E) -> (vals: Vec<String>)
    ensures
        answers(env, word@.parts, strings_view(vals@)),
{
    let parts = word.parts();
    let mut vals: Vec<String> = Vec::new();
    let mut i: usize = 0;
    while i < parts.len()
        invariant
            i <= parts@.len(),
            parts_view(parts@) == word@.parts,
            vals@.len() == i,
            forall|k: int|
                0 <= k < i ==> part_answer(
                    env,
                    #[trigger] word@.parts[k],
                    strings_view(vals@)[k],
                ),
        decreases parts.len() - i,
    {
        assert(word@.parts[i as int] == parts@[i as int]@);
        let v = match &parts[i] {
            WordPart::Literal(_) => String::new(),
            // An unset HOME leaves the `~` alone. Substituting the empty
            // string would silently turn `~/notes` into `/notes`.
            WordPart::Tilde => {
                let o = env.var("HOME");
                let ghost go = o;
                assert(call_ensures(E::var, (env, "HOME"), go));
                let v = match o {
                    Some(h) => h,
                    None => "~".to_owned(),
                };
                proof {
                    reveal_strlit("~");
                    assert(v@ == match opt_view(go) {
                        Some(h) => h,
                        None => seq!['~'],
                    });
                }
                v
            },
            WordPart::Parameter { param, quoted: _ } => resolve(param, env),
        };
        assert(part_answer(env, word@.parts[i as int], v@));
        proof {
            lemma_strings_view_push(vals@, v);
        }
        vals.push(v);
        i = i + 1;
    }
    vals
}

/// Expand one word, appending its fields to `out`.
fn expand_into<E: Environment>(word: &Word, env: &E, separators: &str, out: &mut Vec<String>)
    ensures
        exists|vals: Seq<Seq<char>>|
            answers(env, word@.parts, vals) && strings_view(final(out)@) == strings_view(
                old(out)@,
            ) + #[trigger] expand_word_spec(word@, vals, separators@),
{
    let vals = part_values(word, env);
    let fields = expand_word(word, &vals, separators);
    let mut i: usize = 0;
    let ghost before = strings_view(out@);
    while i < fields.len()
        invariant
            i <= fields@.len(),
            strings_view(out@) == before + strings_view(fields@).take(i as int),
        decreases fields.len() - i,
    {
        let f = fields[i].clone();
        proof {
            lemma_strings_view_push(out@, f);
        }
        out.push(f);
        i = i + 1;
        assert(strings_view(out@) =~= before + strings_view(fields@).take(i as int));
    }
    assert(strings_view(fields@).take(i as int) =~= strings_view(fields@));
    assert(answers(env, word@.parts, strings_view(vals@)));
}

/// Expand a command's words into an argument vector: the fields of each
/// word in turn, for the values the environment gave.
pub fn expand_all<E: Environment>(words: &[Word], env: &E) -> (argv: Vec<String>)
    ensures
        expands_to(env, words@, strings_view(argv@)),
{
    let separators = env.field_separators();
    let mut argv: Vec<String> = Vec::new();
    let ghost mut vals: Seq<Seq<Seq<char>>> = seq![];
    assert(strings_view(argv@) =~= Seq::<Seq<char>>::empty());
    let mut i: usize = 0;
    while i < words.len()
        invariant
            i <= words@.len(),
            vals.len() == i,
            separators_answer(env, separators@),
            forall|k: int| 0 <= k < i ==> answers(env, #[trigger] words@[k]@.parts, vals[k]),
            strings_view(argv@) == expand_words_spec(
                word_views(words@).take(i as int),
                vals,
                separators@,
            ),
        decreases words.len() - i,
    {
        let ghost before = argv@;
        expand_into(&words[i], env, separators.as_str(), &mut argv);
        proof {
            let v = choose|v: Seq<Seq<char>>|
                answers(env, words@[i as int]@.parts, v) && strings_view(argv@) == strings_view(
                    before,
                ) + #[trigger] expand_word_spec(words@[i as int]@, v, separators@);
            let ws = word_views(words@).take(i + 1);
            assert(ws.drop_last() =~= word_views(words@).take(i as int));
            assert(vals.push(v).drop_last() =~= vals);
            vals = vals.push(v);
        }
        i = i + 1;
    }
    assert(word_views(words@).take(i as int) =~= word_views(words@));
    argv
}

/// A word that had to produce one field and did not.
#[derive(Debug, Clone, Copy, PartialEq, Eq)]
pub struct AmbiguousRedirect {
    /// How many fields it produced instead of one.
    pub fields: usize,
}

impl AmbiguousRedirect {
    /// The message a user sees.
    pub fn message(&self) -> (s: String)
        ensures
            s@ == "ambiguous redirect: expanded to "@ + dec_nat(self.fields as nat) + " words"@,
    {
        let mut s = "ambiguous redirect: expanded to ".to_owned();
        push_decimal(&mut s, self.fields as u64);
        s.push_str(" words");
        s
    }
}

/// Expand a single word, which must produce exactly one field.
///
/// Redirection targets work this way: `> $X` with `X="a b"` is an error
/// rather than a redirection to two files.
pub fn expand_one<E: Environment>(word: &Word, env: &E) -> (r: Result<String, AmbiguousRedirect>)
    ensures
        exists|seps: Seq<char>, vals: Seq<Seq<char>>|
            {
                let f = #[trigger] expand_word_spec(word@, vals, seps);
                &&& separators_answer(env, seps)
                &&& answers(env, word@.parts, vals)
                &&& match r {
                    Ok(s) => f == seq![s@],
                    Err(e) => f.len() != 1 && e.fields == f.len(),
                }
            },
{
    let separators = env.field_separators();
    let mut fields: Vec<String> = Vec::new();
    expand_into(word, env, separators.as_str(), &mut fields);
    assert(strings_view(Seq::<String>::empty()) =~= Seq::<Seq<char>>::empty());
    if fields.len() == 1 {
        let f = fields.pop().unwrap();
        Ok(f)
    } else {
        Err(AmbiguousRedirect { fields: fields.len() })
    }
}

// ---- an environment built by hand ---------------------------------------------

/// The variables a list of (name, value) pairs defines.
pub open spec fn pairs_map(s: Seq<(String, String)>) -> Map<Seq<char>, Seq<char>>
    decreases s.len(),
{
    if s.len() == 0 {
        Map::empty()
    } else {
        pairs_map(s.drop_last()).insert(s.last().0@, s.last().1@)
    }
}

/// No name occurs twice.
pub open spec fn names_distinct(s: Seq<(String, String)>) -> bool {
    forall|i: int, j: int| 0 <= i < j < s.len() ==> (#[trigger] s[i]).0@ != (#[trigger] s[j]).0@
}

proof fn lemma_pairs_map_absent(s: Seq<(String, String)>, k: Seq<char>)
    requires
        forall|i: int| 0 <= i < s.len() ==> (#[trigger] s[i]).0@ != k,
    ensures
        !pairs_map(s).contains_key(k),
    decreases s.len(),
{
    if s.len() > 0 {
        assert(s.last() == s[s.len() - 1]);
        lemma_pairs_map_absent(s.drop_last(), k);
    }
}

proof fn lemma_pairs_map_at(s: Seq<(String, String)>, i: int)
    requires
        names_distinct(s),
        0 <= i < s.len(),
    ensures
        pairs_map(s).contains_key(s[i].0@),
        pairs_map(s)[s[i].0@] == s[i].1@,
    decreases s.len(),
{
    if i < s.len() - 1 {
        assert(s.last() == s[s.len() - 1]);
        assert(s.drop_last()[i] == s[i]);
        lemma_pairs_map_at(s.drop_last(), i);
    }
}

proof fn lemma_pairs_map_update(s: Seq<(String, String)>, i: int, p: (String, String))
    requires
        names_distinct(s),
        0 <= i < s.len(),
        p.0@ == s[i].0@,
    ensures
        pairs_map(s.update(i, p)) == pairs_map(s).insert(p.0@, p.1@),
    decreases s.len(),
{
    let t = s.update(i, p);
    if i == s.len() - 1 {
        assert(t.drop_last() =~= s.drop_last());
        assert(pairs_map(t) =~= pairs_map(s).insert(p.0@, p.1@));
    } else {
        assert(t.drop_last() =~= s.drop_last().update(i, p));
        assert(s.drop_last()[i] == s[i]);
        lemma_pairs_map_update(s.drop_last(), i, p);
        assert(s.last() == s[s.len() - 1]);
        assert(s.last().0@ != p.0@);
        assert(pairs_map(t) =~= pairs_map(s).insert(p.0@, p.1@));
    }
}

/// An [`Environment`] built from a list of variables.
#[derive(Debug)]
pub struct MapEnv {
    vars: Vec<(String, String)>,
    last_status: i32,
    pid: u32,
}

/// What a [`MapEnv`] holds.
pub struct MapEnvV {
    pub vars: Map<Seq<char>, Seq<char>>,
    pub last_status: i32,
    pub pid: u32,
}

impl View for MapEnv {
    type V = MapEnvV;

    closed spec fn view(&self) -> MapEnvV {
        MapEnvV { vars: pairs_map(self.vars@), last_status: self.last_status, pid: self.pid }
    }
}

impl MapEnv {
    #[verifier::type_invariant]
    spec fn names_are_distinct(self) -> bool {
        names_distinct(self.vars@)
    }

    /// An empty environment, whose status is 0 and whose process id is 1234.
    pub fn new() -> (e: Self)
        ensures
            e@.vars == Map::<Seq<char>, Seq<char>>::empty(),
            e@.last_status == 0,
            e@.pid == 1234,
    {
        MapEnv { vars: Vec::new(), last_status: 0, pid: 1234 }
    }

    /// Set a variable.
    pub fn with(self, name: &str, value: &str) -> (e: Self)
        ensures
            e@.vars == self@.vars.insert(name@, value@),
            e@.last_status == self@.last_status,
            e@.pid == self@.pid,
    {
        proof {
            use_type_invariant(&self);
        }
        let MapEnv { vars, last_status, pid } = self;
        let mut vars = vars;
        let key = name.to_owned();
        let mut i: usize = 0;
        while i < vars.len()
            invariant
                i <= vars@.len(),
                vars@ == self.vars@,
                last_status == self.last_status,
                pid == self.pid,
                names_distinct(vars@),
                forall|k: int| 0 <= k < i ==> (#[trigger] vars@[k]).0@ != name@,
                key@ == name@,
            decreases vars.len() - i,
        {
            if vars[i].0 == key {
                let pair = (key, value.to_owned());
                proof {
                    lemma_pairs_map_update(vars@, i as int, pair);
                }
                vars.set(i, pair);
                assert(names_distinct(vars@));
                return MapEnv { vars, last_status, pid };
            }
            i = i + 1;
        }
        let pair = (key, value.to_owned());
        proof {
            lemma_pairs_map_absent(vars@, name@);
            assert(vars@.push(pair).drop_last() =~= vars@);
        }
        vars.push(pair);
        MapEnv { vars, last_status, pid }
    }

    /// Set the status `$?` reports.
    pub fn with_status(self, status: i32) -> (e: Self)
        ensures
            e@.vars == self@.vars,
            e@.last_status == status,
            e@.pid == self@.pid,
    {
        proof {
            use_type_invariant(&self);
        }
        let MapEnv { vars, last_status: _, pid } = self;
        MapEnv { vars, last_status: status, pid }
    }
}

impl Default for MapEnv {
    /// No variables, status 0 and process id 0.
    fn default() -> (e: Self)
        ensures
            e@.vars == Map::<Seq<char>, Seq<char>>::empty(),
            e@.last_status == 0,
            e@.pid == 0,
    {
        MapEnv { vars: Vec::new(), last_status: 0, pid: 0 }
    }
}

impl Environment for MapEnv {
    fn var(&self, name: &str) -> (r: Option<String>)
        ensures
            r is Some == self@.vars.contains_key(name@),
            r matches Some(v) ==> v@ == self@.vars[name@],
    {
        proof {
            use_type_invariant(self);
        }
        let key = name.to_owned();
        let mut i: usize = 0;
        while i < self.vars.len()
            invariant
                i <= self.vars@.len(),
                names_distinct(self.vars@),
                forall|k: int| 0 <= k < i ==> (#[trigger] self.vars@[k]).0@ != name@,
                key@ == name@,
            decreases self.vars.len() - i,
        {
            if self.vars[i].0 == key {
                proof {
                    lemma_pairs_map_at(self.vars@, i as int);
                }
                return Some(self.vars[i].1.clone());
            }
            i = i + 1;
        }
        proof {
            lemma_pairs_map_absent(self.vars@, name@);
        }
        None
    }

    fn last_status(&self) -> (s: i32)
        ensures
            s == self@.last_status,
    {
        self.last_status
    }

    fn pid(&self) -> (p: u32)
        ensures
            p == self@.pid,
    {
        self.pid
    }
}

/// A [`MapEnv`] answers alike: its answers are read from what it holds.
pub proof fn lemma_map_env_answers_alike(env: &MapEnv)
    ensures
        answers_alike(env),
{
    assert forall|n1: &str, n2: &str, o1: Option<String>, o2: Option<String>|
        n1@ == n2@ && #[trigger] call_ensures(MapEnv::var, (env, n1), o1) && #[trigger] call_ensures(
            MapEnv::var,
            (env, n2),
            o2,
        ) implies opt_view(o1) == opt_view(o2) by {}
}

} // verus!
