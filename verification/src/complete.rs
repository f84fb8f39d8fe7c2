//! Working out what a half-typed word might become.
//!
//! The rule is positional, and it is the one every shell uses:
//!
//! | The word being typed | Completed as |
//! | --- | --- |
//! | starts with `$` | an environment variable |
//! | contains a `/` | a path, even in first position |
//! | first on the line | a command: builtins, then `PATH` |
//! | anything else | a path |
//!
//! Searching `PATH`, reading directories and listing the environment belong
//! to the caller; which names qualify, and how each is offered, are here.

use vstd::prelude::*;
use crate::editor::{last_ws_before, offset_index};
use crate::history::has_prefix;
use crate::text::{
    byte_offset, char_len_utf8, chars_of, fits, is_whitespace, is_ws, lemma_offset_mono,
    lemma_offset_step, offset_of, splice, string_of, strings_view,
};

verus! {

/// Where the word under the cursor begins: just after the last whitespace
/// character before the cursor, or at the start of the line.
///
/// Split on whitespace only; quoting is not honoured.
pub open spec fn word_start_spec(line: Seq<char>, cursor: int) -> int {
    match offset_index(line, cursor, 0) {
        Some(k) => match last_ws_before(line, k) {
            Some(i) => byte_offset(line, i + 1) as int,
            None => 0,
        },
        None => 0,
    }
}

/// The character index of a byte offset that falls on a boundary.
fn char_index(s: &Vec<char>, b: usize) -> (k: usize)
    requires
        fits(s@),
        offset_index(s@, b as int, 0) is Some,
    ensures
        offset_index(s@, b as int, 0) == Some(k as int),
        k <= s@.len(),
        byte_offset(s@, k as int) == b,
{
    let mut k: usize = 0;
    let mut off: usize = 0;
    proof {
        assert(s@.take(0) =~= Seq::<char>::empty());
    }
    while off != b && k < s.len()
        invariant
            k <= s@.len(),
            fits(s@),
            off == byte_offset(s@, k as int),
            offset_index(s@, b as int, 0) == offset_index(s@, b as int, k as int),
        decreases s.len() - k,
    {
        proof {
            lemma_offset_step(s@, k as int);
            lemma_offset_mono(s@, k + 1, s@.len() as int);
        }
        off = off + char_len_utf8(s[k]);
        k = k + 1;
    }
    proof {
        if off != b {
            assert(offset_index(s@, b as int, (s@.len() + 1) as int) is None);
        }
    }
    k
}

/// Where the word under the cursor begins, as a byte offset.
pub fn word_start(line: &str, cursor: usize) -> (start: usize)
    requires
        fits(line@),
        offset_index(line@, cursor as int, 0) is Some,
    ensures
        start == word_start_spec(line@, cursor as int),
{
    let s = chars_of(line);
    let k = char_index(&s, cursor);
    let mut n: usize = k;
    while n > 0 && !is_whitespace(s[n - 1])
        invariant
            n <= k <= s@.len(),
            last_ws_before(s@, k as int) == last_ws_before(s@, n as int),
        decreases n,
    {
        n = n - 1;
    }
    if n == 0 {
        0
    } else {
        proof {
            lemma_offset_mono(s@, n as int, s@.len() as int);
        }
        offset_of(&s, n)
    }
}

/// Whether the word starting at byte offset `start` is the first on the
/// line: nothing but whitespace comes before it.
pub open spec fn is_first_word_spec(line: Seq<char>, start: int) -> bool {
    forall|i: int| 0 <= i < line.len() && byte_offset(line, i) < start ==> is_ws(#[trigger] line[i])
}

/// Whether the word starting here is the command name.
pub fn is_first_word(line: &str, start: usize) -> (b: bool)
    requires
        fits(line@),
    ensures
        b == is_first_word_spec(line@, start as int),
{
    let s = chars_of(line);
    let mut i: usize = 0;
    let mut off: usize = 0;
    proof {
        assert(s@.take(0) =~= Seq::<char>::empty());
    }
    while i < s.len() && off < start
        invariant
            i <= s@.len(),
            fits(s@),
            s@ == line@,
            off == byte_offset(s@, i as int),
            forall|m: int| 0 <= m < i ==> is_ws(#[trigger] s@[m]),
            forall|m: int| 0 <= m < i ==> byte_offset(s@, m) < start,
        decreases s.len() - i,
    {
        if !is_whitespace(s[i]) {
            assert(byte_offset(line@, i as int) < start && !is_ws(line@[i as int]));
            return false;
        }
        proof {
            lemma_offset_step(s@, i as int);
            lemma_offset_mono(s@, i + 1, s@.len() as int);
        }
        off = off + char_len_utf8(s[i]);
        i = i + 1;
    }
    proof {
        assert forall|m: int| 0 <= m < line@.len() && byte_offset(line@, m) < start implies is_ws(
            #[trigger] line@[m],
        ) by {
            if m >= i {
                lemma_offset_mono(s@, i as int, m);
            }
        }
    }
    true
}

/// How a word is completed.
#[derive(Debug, Clone, Copy, PartialEq, Eq, Structural)]
pub enum WordKind {
    /// `$NAME`: an environment variable, named by what follows the `$`.
    Variable,
    /// A path.
    Path,
    /// A command: a builtin, or something on `PATH`.
    Command,
}

/// How the word `word`, starting at the front of the line or not, is
/// completed.
pub open spec fn word_kind_spec(word: Seq<char>, first: bool) -> WordKind {
    if word.len() > 0 && word[0] == '$' {
        WordKind::Variable
    } else if word.contains('/') || !first {
        WordKind::Path
    } else {
        WordKind::Command
    }
}

/// How a word is completed, by the positional rule.
pub fn word_kind(word: &str, first: bool) -> (k: WordKind)
    ensures
        k == word_kind_spec(word@, first),
{
    let w = chars_of(word);
    if w.len() > 0 && w[0] == '$' {
        return WordKind::Variable;
    }
    let mut i: usize = 0;
    while i < w.len()
        invariant
            i <= w@.len(),
            w@ == word@,
            !(w@.len() > 0 && w@[0] == '$'),
            forall|m: int| 0 <= m < i ==> w@[m] != '/',
        decreases w.len() - i,
    {
        if w[i] == '/' {
            assert(w@[i as int] == '/');
            return WordKind::Path;
        }
        i = i + 1;
    }
    if !first {
        WordKind::Path
    } else {
        WordKind::Command
    }
}

/// The index of the last `/` before index `n`.
pub open spec fn last_slash_before(s: Seq<char>, n: int) -> Option<int>
    decreases n,
{
    if n <= 0 {
        None
    } else if s[n - 1] == '/' {
        Some(n - 1)
    } else {
        last_slash_before(s, n - 1)
    }
}

/// A path prefix split into the directory to search, through its last
/// `/`, and the partial name after it.
pub open spec fn split_prefix_spec(prefix: Seq<char>) -> (Seq<char>, Seq<char>) {
    match last_slash_before(prefix, prefix.len() as int) {
        Some(i) => (prefix.take(i + 1), prefix.skip(i + 1)),
        None => (seq![], prefix),
    }
}

/// Split a path prefix into directory and partial name.
pub fn split_prefix(prefix: &str) -> (r: (String, String))
    ensures
        (r.0@, r.1@) == split_prefix_spec(prefix@),
{
    let p = chars_of(prefix);
    let mut n: usize = p.len();
    while n > 0 && p[n - 1] != '/'
        invariant
            n <= p@.len(),
            p@ == prefix@,
            last_slash_before(p@, p@.len() as int) == last_slash_before(p@, n as int),
        decreases n,
    {
        n = n - 1;
    }
    if n == 0 {
        (String::new(), prefix.to_owned())
    } else {
        let dir = splice(&p, n, p.len(), &[]);
        let partial = splice(&p, 0, n, &[]);
        assert(dir@ =~= p@.take(n as int));
        assert(partial@ =~= p@.skip(n as int));
        (string_of(dir.as_slice()), string_of(partial.as_slice()))
    }
}

/// How a directory entry is offered when completing a path: only if its
/// name starts with the partial name, hidden names only when the partial
/// name asks for them, and directories with a `/` after them, which says
/// the completion is not finished.
pub open spec fn path_candidate_spec(
    directory: Seq<char>,
    partial: Seq<char>,
    name: Seq<char>,
    is_dir: bool,
) -> Option<Seq<char>> {
    let hidden = name.len() > 0 && name[0] == '.';
    let asked = partial.len() > 0 && partial[0] == '.';
    if !has_prefix(name, partial) || (hidden && !asked) {
        None
    } else {
        Some(
            directory + name + if is_dir {
                seq!['/']
            } else {
                seq![]
            },
        )
    }
}

/// Whether `s` begins with `prefix`.
fn begins_with(s: &str, prefix: &str) -> (b: bool)
    ensures
        b == has_prefix(s@, prefix@),
{
    let a = chars_of(s);
    let p = chars_of(prefix);
    crate::text::starts_with(a.as_slice(), p.as_slice())
}

/// How a directory entry is offered when completing a path, if at all.
pub fn path_candidate(directory: &str, partial: &str, name: &str, is_dir: bool) -> (r: Option<
    String,
>)
    ensures
        match r {
            Some(s) => path_candidate_spec(directory@, partial@, name@, is_dir) == Some(s@),
            None => path_candidate_spec(directory@, partial@, name@, is_dir) is None,
        },
{
    let n = chars_of(name);
    let p = chars_of(partial);
    let hidden = n.len() > 0 && n[0] == '.';
    let asked = p.len() > 0 && p[0] == '.';
    if !begins_with(name, partial) || (hidden && !asked) {
        return None;
    }
    let mut s = directory.to_owned();
    s.push_str(name);
    if is_dir {
        s.push('/');
    }
    assert(s@ =~= directory@ + name@ + if is_dir {
        seq!['/']
    } else {
        Seq::<char>::empty()
    });
    Some(s)
}

/// How an environment variable is offered when completing `$prefix`: with
/// its `$`, if its name starts with the prefix.
pub fn variable_candidate(prefix: &str, name: &str) -> (r: Option<String>)
    ensures
        match r {
            Some(s) => has_prefix(name@, prefix@) && s@ == seq!['$'] + name@,
            None => !has_prefix(name@, prefix@),
        },
{
    if !begins_with(name, prefix) {
        return None;
    }
    let mut s = String::new();
    s.push('$');
    s.push_str(name);
    assert(s@ =~= seq!['$'] + name@);
    Some(s)
}

/// The commands the shell implements itself, which no `PATH` search would
/// find.
pub open spec fn builtin_names() -> Seq<Seq<char>> {
    seq!["cd"@, "exit"@, "jobs"@, "fg"@, "bg"@]
}

/// The builtins whose names start with `prefix`, in the table's order.
pub fn builtin_matches(prefix: &str) -> (v: Vec<String>)
    ensures
        strings_view(v@) == builtin_names().filter(|n: Seq<char>| has_prefix(n, prefix@)),
{
    let names: [&str; 5] = ["cd", "exit", "jobs", "fg", "bg"];
    let ghost all = builtin_names();
    proof {
        reveal_strlit("cd");
        reveal_strlit("exit");
        reveal_strlit("jobs");
        reveal_strlit("fg");
        reveal_strlit("bg");
        assert(all.len() == 5);
    }
    let mut v: Vec<String> = Vec::new();
    let mut i: usize = 0;
    while i < 5
        invariant
            i <= 5,
            all == builtin_names(),
            forall|k: int| 0 <= k < 5 ==> (#[trigger] names@[k])@ == all[k],
            strings_view(v@) == all.take(i as int).filter(|n: Seq<char>| has_prefix(n, prefix@)),
        decreases 5 - i,
    {
        let name = names[i];
        proof {
            assert(all.take(i + 1).drop_last() =~= all.take(i as int));
            all.take(i as int).lemma_filter_push(
                all[i as int],
                |n: Seq<char>| has_prefix(n, prefix@),
            );
            assert(all.take(i + 1) =~= all.take(i as int).push(all[i as int]));
        }
        if begins_with(name, prefix) {
            let s = name.to_owned();
            proof {
                crate::text::lemma_strings_view_push(v@, s);
            }
            v.push(s);
        }
        i = i + 1;
    }
    assert(all.take(5) =~= all);
    v
}

// ---- offering names in order -------------------------------------------------

/// Whether name `a` comes before name `b`, comparing from index `i` on,
/// character by character by code point, a name before any longer name it
/// begins: the order `str` compares in, since UTF-8 keeps code-point order.
pub open spec fn name_before_from(a: Seq<char>, b: Seq<char>, i: int) -> bool
    decreases a.len() - i,
{
    if i < 0 || i >= b.len() {
        false
    } else if i >= a.len() {
        true
    } else if a[i] != b[i] {
        a[i] < b[i]
    } else {
        name_before_from(a, b, i + 1)
    }
}

/// Whether name `a` comes before name `b`.
pub open spec fn name_before(a: Seq<char>, b: Seq<char>) -> bool {
    name_before_from(a, b, 0)
}

/// Every name comes before every later one: sorted, with nothing twice.
pub open spec fn in_order(s: Seq<Seq<char>>) -> bool {
    forall|i: int, j: int| 0 <= i < j < s.len() ==> name_before(#[trigger] s[i], #[trigger] s[j])
}

proof fn lemma_before_irreflexive(a: Seq<char>, i: int)
    requires
        0 <= i,
    ensures
        !name_before_from(a, a, i),
    decreases a.len() - i,
{
    if i < a.len() {
        lemma_before_irreflexive(a, i + 1);
    }
}

proof fn lemma_before_transitive(a: Seq<char>, b: Seq<char>, c: Seq<char>, i: int)
    requires
        0 <= i,
        name_before_from(a, b, i),
        name_before_from(b, c, i),
    ensures
        name_before_from(a, c, i),
    decreases a.len() - i,
{
    if i < a.len() && i < b.len() && i < c.len() && a[i] == b[i] && b[i] == c[i] {
        lemma_before_transitive(a, b, c, i + 1);
    }
}

proof fn lemma_before_total(a: Seq<char>, b: Seq<char>, i: int)
    requires
        0 <= i <= a.len(),
        i <= b.len(),
        a.take(i) == b.take(i),
        a != b,
    ensures
        name_before_from(a, b, i) || name_before_from(b, a, i),
    decreases a.len() - i,
{
    if i == a.len() && i == b.len() {
        assert(a =~= a.take(i));
        assert(b =~= b.take(i));
    } else if i < a.len() && i < b.len() && a[i] == b[i] {
        assert(a.take(i + 1) =~= a.take(i).push(a[i]));
        assert(b.take(i + 1) =~= b.take(i).push(b[i]));
        lemma_before_total(a, b, i + 1);
    }
}

/// Names in order are all different: no name comes before itself.
pub proof fn law_names_in_order_are_distinct(s: Seq<Seq<char>>)
    requires
        in_order(s),
    ensures
        s.no_duplicates(),
{
    assert forall|i: int, j: int| 0 <= i < s.len() && 0 <= j < s.len() && i != j implies s[i]
        != s[j] by {
        lemma_before_irreflexive(s[i], 0);
        if i < j {
            assert(name_before(s[i], s[j]));
        } else {
            assert(name_before(s[j], s[i]));
        }
    }
}

/// Where two names first differ: the length of the prefix they share.
fn shared_length(a: &Vec<char>, b: &Vec<char>) -> (i: usize)
    ensures
        i <= a@.len(),
        i <= b@.len(),
        a@.take(i as int) == b@.take(i as int),
        i < a@.len() && i < b@.len() ==> a@[i as int] != b@[i as int],
        name_before(a@, b@) == name_before_from(a@, b@, i as int),
        name_before(b@, a@) == name_before_from(b@, a@, i as int),
{
    let mut i: usize = 0;
    while i < a.len() && i < b.len() && a[i] == b[i]
        invariant
            i <= a@.len(),
            i <= b@.len(),
            a@.take(i as int) == b@.take(i as int),
            name_before(a@, b@) == name_before_from(a@, b@, i as int),
            name_before(b@, a@) == name_before_from(b@, a@, i as int),
        decreases a.len() - i,
    {
        assert(a@.take(i + 1) =~= a@.take(i as int).push(a@[i as int]));
        assert(b@.take(i + 1) =~= b@.take(i as int).push(b@[i as int]));
        i = i + 1;
    }
    i
}

/// Put `name` into its place among names in order, unless it is there
/// already.
fn insert_name(found: &mut Vec<String>, name: String)
    requires
        in_order(strings_view(old(found)@)),
    ensures
        in_order(strings_view(final(found)@)),
        forall|x: Seq<char>|
            strings_view(final(found)@).contains(x) <==> (strings_view(old(found)@).contains(x)
                || x == name@),
{
    let ghost old_v = strings_view(found@);
    let n = chars_of(name.as_str());
    let mut p: usize = 0;
    while p < found.len()
        invariant
            p <= found@.len(),
            found@ == old(found)@,
            old_v == strings_view(found@),
            n@ == name@,
            in_order(old_v),
            forall|j: int| 0 <= j < p ==> name_before(#[trigger] old_v[j], name@),
        ensures
            p < old_v.len() ==> name_before(name@, old_v[p as int]),
        decreases found.len() - p,
    {
        let f = chars_of(found[p].as_str());
        assert(f@ == old_v[p as int]);
        let k = shared_length(&f, &n);
        if k == f.len() && k == n.len() {
            // Already offered.
            assert(f@ =~= f@.take(k as int));
            assert(n@ =~= n@.take(k as int));
            assert(old_v.contains(name@)) by {
                assert(old_v[p as int] == name@);
            }
            return;
        }
        let before = k < n.len() && (k >= f.len() || f[k] < n[k]);
        if !before {
            proof {
                assert(f@.take(0) =~= n@.take(0));
                lemma_before_total(f@, n@, 0);
                if f@ == n@ {
                    assert(f@.len() == n@.len());
                    assert(false);
                }
                assert(name_before(name@, old_v[p as int]));
            }
            break;
        }
        p = p + 1;
    }
    proof {
        assert(p < old_v.len() ==> name_before(name@, old_v[p as int]));
    }
    let ghost new_v = old_v.insert(p as int, name@);
    found.insert(p, name);
    proof {
        assert(strings_view(found@) =~= new_v);
        assert forall|i: int, j: int| 0 <= i < j < new_v.len() implies name_before(
            #[trigger] new_v[i],
            #[trigger] new_v[j],
        ) by {
            if j < p {
                assert(new_v[i] == old_v[i] && new_v[j] == old_v[j]);
            } else if j == p {
                assert(new_v[i] == old_v[i]);
            } else if i == p {
                assert(new_v[j] == old_v[j - 1]);
                if j - 1 > p {
                    assert(name_before(old_v[p as int], old_v[j - 1]));
                    lemma_before_transitive(name@, old_v[p as int], old_v[j - 1], 0);
                }
            } else if i < p {
                assert(new_v[i] == old_v[i] && new_v[j] == old_v[j - 1]);
            } else {
                assert(new_v[i] == old_v[i - 1] && new_v[j] == old_v[j - 1]);
            }
        }
        assert forall|x: Seq<char>| new_v.contains(x) <==> (old_v.contains(x) || x == name@) by {
            if old_v.contains(x) {
                let k = choose|k: int| 0 <= k < old_v.len() && old_v[k] == x;
                if k < p {
                    assert(new_v[k] == x);
                } else {
                    assert(new_v[k + 1] == x);
                }
            }
            if x == name@ {
                assert(new_v[p as int] == x);
            }
            if new_v.contains(x) {
                let k = choose|k: int| 0 <= k < new_v.len() && new_v[k] == x;
                if k < p {
                    assert(old_v[k] == x);
                } else if k > p {
                    assert(old_v[k - 1] == x);
                }
            }
        }
    }
}

/// Names to offer, sorted and each once, as a set of names orders them.
pub fn sorted_names(names: Vec<String>) -> (r: Vec<String>)
    ensures
        in_order(strings_view(r@)),
        forall|x: Seq<char>| strings_view(r@).contains(x) <==> strings_view(names@).contains(x),
{
    let mut r: Vec<String> = Vec::new();
    let ghost all = strings_view(names@);
    let mut i: usize = 0;
    let n = names.len();
    while i < n
        invariant
            n == all.len(),
            i <= n,
            in_order(strings_view(r@)),
            forall|x: Seq<char>|
                strings_view(r@).contains(x) <==> all.take(i as int).contains(x),
            names@.len() == n,
            strings_view(names@) == all,
        decreases n - i,
    {
        let name = names[i].clone();
        assert(name@ == all[i as int]);
        let ghost r0 = strings_view(r@);
        insert_name(&mut r, name);
        proof {
            let before = all.take(i as int);
            let after = all.take(i + 1);
            assert(after =~= before.push(all[i as int]));
            assert forall|x: Seq<char>| strings_view(r@).contains(x) <==> after.contains(x) by {
                assert(r0.contains(x) <==> before.contains(x));
                assert(strings_view(r@).contains(x) <==> (r0.contains(x) || x == all[i as int]));
                if x == all[i as int] {
                    assert(after[i as int] == x);
                }
                if after.contains(x) {
                    let k = choose|k: int| 0 <= k < after.len() && #[trigger] after[k] == x;
                    if k < i {
                        assert(before[k] == x);
                    }
                }
                if before.contains(x) {
                    let k = choose|k: int| 0 <= k < before.len() && #[trigger] before[k] == x;
                    assert(after[k] == x);
                }
            }
        }
        i = i + 1;
    }
    assert(all.take(n as int) =~= all);
    r
}

} // verus!
