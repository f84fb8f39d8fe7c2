//! Command history.

use vstd::prelude::*;
use crate::text::{
    chars_eq, chars_of, fits, is_whitespace, is_ws, lemma_strings_view_push, starts_with, string_of,
    strings_view, utf8_len,
};

verus! {

/// Whether a line is nothing but whitespace, which is what
/// `line.trim().is_empty()` tests.
pub open spec fn is_blank(s: Seq<char>) -> bool {
    forall|i: int| 0 <= i < s.len() ==> is_ws(#[trigger] s[i])
}

/// Whether `s` begins with `prefix`.
pub open spec fn has_prefix(s: Seq<char>, prefix: Seq<char>) -> bool {
    prefix.len() <= s.len() && s.take(prefix.len() as int) == prefix
}

/// The entries after remembering `line`: blank lines are dropped, a line
/// equal to the newest entry is not stored twice, and past `limit` entries
/// the oldest fall off.
pub open spec fn add_spec(entries: Seq<Seq<char>>, limit: usize, line: Seq<char>) -> Seq<
    Seq<char>,
> {
    if is_blank(line) {
        entries
    } else if entries.len() > 0 && entries.last() == line {
        entries
    } else {
        let e = entries.push(line);
        if e.len() > limit {
            e.skip(e.len() - limit)
        } else {
            e
        }
    }
}

/// A line worth remembering becomes the newest entry, however full the
/// history was: only the oldest fall off.
pub proof fn law_a_remembered_line_is_the_newest(
    entries: Seq<Seq<char>>,
    limit: usize,
    line: Seq<char>,
)
    requires
        !is_blank(line),
        limit > 0,
        entries.len() <= limit,
    ensures
        add_spec(entries, limit, line).len() > 0,
        add_spec(entries, limit, line).last() == line,
        add_spec(entries, limit, line).len() <= if entries.len() < limit {
            entries.len() + 1
        } else {
            limit as nat
        },
{
}

/// The most recent entry before index `n` that starts with `prefix`.
pub open spec fn last_match(entries: Seq<Seq<char>>, prefix: Seq<char>, n: int) -> Option<usize>
    decreases n,
{
    if n <= 0 {
        None
    } else if has_prefix(entries[n - 1], prefix) {
        Some((n - 1) as usize)
    } else {
        last_match(entries, prefix, n - 1)
    }
}

/// The oldest entry from index `i` on that starts with `prefix`.
pub open spec fn first_match(entries: Seq<Seq<char>>, prefix: Seq<char>, i: int) -> Option<usize>
    decreases entries.len() - i,
{
    if i >= entries.len() {
        None
    } else if has_prefix(entries[i], prefix) {
        Some(i as usize)
    } else {
        first_match(entries, prefix, i + 1)
    }
}

/// A backwards match is an entry before `n` that starts with the prefix.
pub proof fn lemma_last_match_bounds(entries: Seq<Seq<char>>, prefix: Seq<char>, n: int)
    requires
        n <= entries.len() <= usize::MAX,
    ensures
        last_match(entries, prefix, n) matches Some(f) ==> 0 <= f < n && has_prefix(
            entries[f as int],
            prefix,
        ),
    decreases n,
{
    if n > 0 {
        lemma_last_match_bounds(entries, prefix, n - 1);
    }
}

/// A forward match is an entry from `i` on that starts with the prefix.
pub proof fn lemma_first_match_bounds(entries: Seq<Seq<char>>, prefix: Seq<char>, i: int)
    requires
        0 <= i,
        entries.len() <= usize::MAX,
    ensures
        first_match(entries, prefix, i) matches Some(f) ==> i <= f < entries.len() && has_prefix(
            entries[f as int],
            prefix,
        ),
    decreases entries.len() - i,
{
    if i < entries.len() {
        lemma_first_match_bounds(entries, prefix, i + 1);
    }
}

/// Nothing between the most recent match before `n` and `n` itself starts
/// with the prefix; with no match, nothing before `n` does.
pub proof fn lemma_last_match_is_last(entries: Seq<Seq<char>>, prefix: Seq<char>, n: int)
    requires
        n <= entries.len() <= usize::MAX,
    ensures
        match last_match(entries, prefix, n) {
            Some(f) => forall|k: int| f < k < n ==> !has_prefix(#[trigger] entries[k], prefix),
            None => forall|k: int| 0 <= k < n ==> !has_prefix(#[trigger] entries[k], prefix),
        },
    decreases n,
{
    if n > 0 {
        lemma_last_match_is_last(entries, prefix, n - 1);
    }
}

/// Searching forward from `i` finds nothing when nothing from `i` on starts
/// with the prefix.
pub proof fn lemma_first_match_none(entries: Seq<Seq<char>>, prefix: Seq<char>, i: int)
    requires
        forall|k: int| i <= k < entries.len() ==> !has_prefix(#[trigger] entries[k], prefix),
    ensures
        first_match(entries, prefix, i) is None,
    decreases entries.len() - i,
{
    if i < entries.len() {
        lemma_first_match_none(entries, prefix, i + 1);
    }
}

/// What the history keeps true of its entries: none is blank, no entry
/// repeats the one before it, there are at most `limit` of them, and each
/// fits in memory.
pub open spec fn entries_ok(entries: Seq<Seq<char>>, limit: usize) -> bool {
    &&& entries.len() <= limit
    &&& forall|i: int| 0 <= i < entries.len() ==> !is_blank(#[trigger] entries[i])
    &&& forall|i: int| 0 < i < entries.len() ==> #[trigger] entries[i] != entries[i - 1]
    &&& forall|i: int| 0 <= i < entries.len() ==> fits(#[trigger] entries[i])
}

/// Remembered command lines, oldest first.
#[derive(Debug)]
pub struct History {
    entries: Vec<String>,
    limit: usize,
}

/// What a [`History`] holds.
pub struct HistoryV {
    pub entries: Seq<Seq<char>>,
    pub limit: usize,
}

impl View for History {
    type V = HistoryV;

    closed spec fn view(&self) -> HistoryV {
        HistoryV { entries: strings_view(self.entries@), limit: self.limit }
    }
}

/// Adding keeps the history's invariant.
pub proof fn lemma_add_keeps_ok(entries: Seq<Seq<char>>, limit: usize, line: Seq<char>)
    requires
        entries_ok(entries, limit),
        fits(line),
    ensures
        entries_ok(add_spec(entries, limit, line), limit),
{
    let r = add_spec(entries, limit, line);
    if !is_blank(line) && !(entries.len() > 0 && entries.last() == line) {
        let e = entries.push(line);
        assert forall|i: int| 0 < i < e.len() implies #[trigger] e[i] != e[i - 1] by {
            if i == e.len() - 1 {
                assert(e[i - 1] == entries.last());
            } else {
                assert(e[i] == entries[i] && e[i - 1] == entries[i - 1]);
            }
        }
        if e.len() > limit {
            let k = e.len() - limit;
            assert forall|i: int| 0 < i < r.len() implies #[trigger] r[i] != r[i - 1] by {
                assert(r[i] == e[i + k] && r[i - 1] == e[i + k - 1]);
            }
            assert forall|i: int| 0 <= i < r.len() implies !is_blank(#[trigger] r[i]) && fits(
                r[i],
            ) by {
                assert(r[i] == e[i + k]);
            }
        }
    }
}

impl History {
    #[verifier::type_invariant]
    spec fn well_formed(self) -> bool {
        entries_ok(strings_view(self.entries@), self.limit)
    }

    /// An empty history holding at most `limit` entries.
    pub fn new(limit: usize) -> (h: Self)
        ensures
            h@.entries == Seq::<Seq<char>>::empty(),
            h@.limit == limit,
    {
        let h = History { entries: Vec::new(), limit };
        assert(strings_view(h.entries@) =~= Seq::<Seq<char>>::empty());
        h
    }

    /// Remember a line.
    ///
    /// Blank lines are dropped, and a line identical to the previous one is
    /// not stored twice — running the same command three times should not
    /// cost three presses of Up to get past.
    pub fn add(&mut self, line: &str)
        requires
            fits(line@),
        ensures
            final(self)@.entries == add_spec(old(self)@.entries, old(self)@.limit, line@),
            final(self)@.limit == old(self)@.limit,
    {
        proof {
            use_type_invariant(&*self);
        }
        let chars = chars_of(line);
        let mut blank = true;
        let mut i: usize = 0;
        while i < chars.len()
            invariant
                i <= chars@.len(),
                chars@ == line@,
                blank == forall|k: int| 0 <= k < i ==> is_ws(#[trigger] chars@[k]),
            decreases chars.len() - i,
        {
            if !is_whitespace(chars[i]) {
                blank = false;
            }
            i = i + 1;
        }
        if blank {
            return;
        }
        let n = self.entries.len();
        if n > 0 {
            let last = chars_of(self.entries[n - 1].as_str());
            if chars_eq(&last, &chars) {
                assert(old(self)@.entries.last() == self.entries@[n - 1]@);
                return;
            }
        }
        let ghost before = strings_view(self.entries@);
        let mut entries = Vec::new();
        std::mem::swap(&mut entries, &mut self.entries);
        entries.push(line.to_owned());
        assert(strings_view(entries@) =~= before.push(line@));
        proof {
            lemma_add_keeps_ok(before, self.limit, line@);
        }
        if entries.len() > self.limit {
            let excess = entries.len() - self.limit;
            let mut kept: Vec<String> = Vec::new();
            let mut j: usize = excess;
            while j < entries.len()
                invariant
                    excess <= j <= entries@.len(),
                    strings_view(kept@) == strings_view(entries@).subrange(
                        excess as int,
                        j as int,
                    ),
                decreases entries.len() - j,
            {
                let s = entries[j].clone();
                proof {
                    lemma_strings_view_push(kept@, s);
                }
                kept.push(s);
                assert(strings_view(kept@) =~= strings_view(entries@).subrange(
                    excess as int,
                    j + 1,
                ));
                j = j + 1;
            }
            assert(strings_view(kept@) =~= strings_view(entries@).skip(excess as int));
            self.entries = kept;
        } else {
            self.entries = entries;
        }
    }

    /// How many entries are remembered.
    pub fn len(&self) -> (n: usize)
        ensures
            n == self@.entries.len(),
            entries_ok(self@.entries, self@.limit),
    {
        proof {
            use_type_invariant(self);
        }
        self.entries.len()
    }

    /// Whether nothing is remembered.
    pub fn is_empty(&self) -> (b: bool)
        ensures
            b == (self@.entries.len() == 0),
    {
        self.entries.len() == 0
    }

    /// An entry by index, oldest first.
    pub fn get(&self, index: usize) -> (r: Option<&str>)
        ensures
            r is Some == (index < self@.entries.len()),
            r matches Some(s) ==> s@ == self@.entries[index as int] && fits(s@),
    {
        proof {
            use_type_invariant(self);
        }
        if index < self.entries.len() {
            Some(self.entries[index].as_str())
        } else {
            None
        }
    }

    /// Every entry, oldest first.
    pub fn iter(&self) -> (v: Vec<&str>)
        ensures
            v@.len() == self@.entries.len(),
            forall|i: int| 0 <= i < v@.len() ==> (#[trigger] v@[i])@ == self@.entries[i],
    {
        let mut v: Vec<&str> = Vec::new();
        let mut i: usize = 0;
        while i < self.entries.len()
            invariant
                i <= self.entries@.len(),
                v@.len() == i,
                forall|k: int| 0 <= k < i ==> (#[trigger] v@[k])@ == self.entries@[k]@,
            decreases self.entries.len() - i,
        {
            v.push(self.entries[i].as_str());
            i = i + 1;
        }
        v
    }

    /// The most recent entry starting with `prefix`, searching backwards from
    /// `before`.
    ///
    /// Used for prefix history search: typing `git ` and pressing Up should
    /// find the last `git` command rather than the last command.
    pub fn search_back(&self, prefix: &str, before: usize) -> (r: Option<usize>)
        ensures
            r == last_match(
                self@.entries,
                prefix@,
                if before < self@.entries.len() {
                    before as int
                } else {
                    self@.entries.len() as int
                },
            ),
    {
        let p = chars_of(prefix);
        let mut n: usize = if before < self.entries.len() {
            before
        } else {
            self.entries.len()
        };
        let ghost goal = last_match(self@.entries, prefix@, n as int);
        let ghost start = n;
        while n > 0
            invariant
                n <= self.entries@.len(),
                start == (if before < self@.entries.len() {
                    before as int
                } else {
                    self@.entries.len() as int
                }),
                goal == last_match(self@.entries, prefix@, start as int),
                p@ == prefix@,
                goal == last_match(self@.entries, prefix@, n as int),
            decreases n,
        {
            let entry = chars_of(self.entries[n - 1].as_str());
            assert(self@.entries[n - 1] == entry@);
            if starts_with(&entry, &p) {
                return Some(n - 1);
            }
            n = n - 1;
        }
        None
    }

    /// The oldest entry after `after` starting with `prefix`.
    pub fn search_forward(&self, prefix: &str, after: usize) -> (r: Option<usize>)
        ensures
            r == first_match(self@.entries, prefix@, after + 1),
    {
        if after >= self.entries.len() {
            return None;
        }
        let p = chars_of(prefix);
        let mut i: usize = after + 1;
        let ghost goal = first_match(self@.entries, prefix@, i as int);
        while i < self.entries.len()
            invariant
                after < i <= self.entries@.len(),
                p@ == prefix@,
                goal == first_match(self@.entries, prefix@, i as int),
                goal == first_match(self@.entries, prefix@, after + 1),
            decreases self.entries.len() - i,
        {
            let entry = chars_of(self.entries[i].as_str());
            assert(self@.entries[i as int] == entry@);
            if starts_with(&entry, &p) {
                return Some(i);
            }
            i = i + 1;
        }
        None
    }
}

// ---- history as text, one entry per line ---------------------------------------

/// A line without the `\r` of a `\r\n` ending.
pub open spec fn strip_cr(l: Seq<char>) -> Seq<char> {
    if l.len() > 0 && l.last() == '\r' {
        l.drop_last()
    } else {
        l
    }
}

/// One character of text: a newline ends the line in progress.
pub open spec fn line_step(st: (Seq<char>, Seq<Seq<char>>), c: char) -> (Seq<char>, Seq<Seq<char>>) {
    if c == '\n' {
        (seq![], st.1.push(strip_cr(st.0)))
    } else {
        (st.0.push(c), st.1)
    }
}

/// The line in progress and the lines ended, after reading `s`.
pub open spec fn scan_lines(s: Seq<char>) -> (Seq<char>, Seq<Seq<char>>)
    decreases s.len(),
{
    if s.len() == 0 {
        (seq![], seq![])
    } else {
        line_step(scan_lines(s.drop_last()), s.last())
    }
}

/// The lines of a text, as `str::lines` gives them: split at `\n` or
/// `\r\n`, with a final line ending optional.
pub open spec fn text_lines(s: Seq<char>) -> Seq<Seq<char>> {
    let (cur, acc) = scan_lines(s);
    if cur.len() == 0 {
        acc
    } else {
        acc.push(cur)
    }
}

/// The entries after remembering each line in turn (any that would not fit
/// in memory is passed over).
pub open spec fn add_all(entries: Seq<Seq<char>>, limit: usize, lines: Seq<Seq<char>>) -> Seq<
    Seq<char>,
>
    decreases lines.len(),
{
    if lines.len() == 0 {
        entries
    } else {
        let before = add_all(entries, limit, lines.drop_last());
        if fits(lines.last()) {
            add_spec(before, limit, lines.last())
        } else {
            before
        }
    }
}

/// Entries as a file holds them: each followed by a newline.
pub open spec fn joined(entries: Seq<Seq<char>>) -> Seq<char>
    decreases entries.len(),
{
    if entries.len() == 0 {
        seq![]
    } else {
        joined(entries.drop_last()) + entries.last() + seq!['\n']
    }
}

/// An entry a file can hold on one line.
pub open spec fn one_line(e: Seq<char>) -> bool {
    !e.contains('\n') && !(e.len() > 0 && e.last() == '\r')
}

proof fn lemma_scan_append_plain(s: Seq<char>, e: Seq<char>)
    requires
        !e.contains('\n'),
    ensures
        scan_lines(s + e) == (scan_lines(s).0 + e, scan_lines(s).1),
    decreases e.len(),
{
    if e.len() == 0 {
        assert(s + e =~= s);
    } else {
        let d = e.drop_last();
        assert(!d.contains('\n')) by {
            if d.contains('\n') {
                let k = choose|k: int| 0 <= k < d.len() && d[k] == '\n';
                assert(e[k] == '\n');
            }
        }
        lemma_scan_append_plain(s, d);
        assert((s + e).drop_last() =~= s + d);
        assert((s + e).last() == e.last());
        assert(e.last() != '\n') by {
            assert(e[e.len() - 1] == e.last());
        }
        assert(scan_lines(s).0 + d.push(e.last()) =~= scan_lines(s).0 + e);
        assert(d.push(e.last()) =~= e);
    }
}

proof fn lemma_joined_lines(entries: Seq<Seq<char>>)
    requires
        forall|i: int| 0 <= i < entries.len() ==> one_line(#[trigger] entries[i]),
    ensures
        scan_lines(joined(entries)) == (Seq::<char>::empty(), entries),
    decreases entries.len(),
{
    if entries.len() > 0 {
        let d = entries.drop_last();
        let e = entries.last();
        assert(forall|i: int| 0 <= i < d.len() ==> one_line(#[trigger] d[i])) by {
            assert forall|i: int| 0 <= i < d.len() implies one_line(#[trigger] d[i]) by {
                assert(d[i] == entries[i]);
            }
        }
        lemma_joined_lines(d);
        assert(one_line(entries[entries.len() - 1]));
        let s = joined(d);
        lemma_scan_append_plain(s, e);
        let t = s + e + seq!['\n'];
        assert(t.drop_last() =~= s + e);
        assert(t.last() == '\n');
        assert(Seq::<char>::empty() + e =~= e);
        assert(d.push(e) =~= entries);
    }
}

proof fn lemma_add_all_ok(entries: Seq<Seq<char>>, limit: usize)
    requires
        entries_ok(entries, limit),
    ensures
        add_all(seq![], limit, entries) == entries,
    decreases entries.len(),
{
    if entries.len() > 0 {
        let d = entries.drop_last();
        assert(entries_ok(d, limit)) by {
            assert forall|i: int| 0 < i < d.len() implies #[trigger] d[i] != d[i - 1] by {
                assert(d[i] == entries[i] && d[i - 1] == entries[i - 1]);
            }
            assert forall|i: int| 0 <= i < d.len() implies !is_blank(#[trigger] d[i]) && fits(
                d[i],
            ) by {
                assert(d[i] == entries[i]);
            }
        }
        lemma_add_all_ok(d, limit);
        let n = entries.len() - 1;
        assert(entries.last() == entries[n]);
        assert(!is_blank(entries[n]) && fits(entries[n]));
        if n > 0 {
            assert(d.last() == entries[n - 1]);
        }
        assert(d.push(entries.last()) =~= entries);
    }
}

/// History survives a round trip through its file: reading back the text
/// that [`History::to_text`] writes gives the same entries, provided each
/// fits on a line of its own.
pub proof fn law_history_round_trip(entries: Seq<Seq<char>>, limit: usize)
    requires
        entries_ok(entries, limit),
        forall|i: int| 0 <= i < entries.len() ==> one_line(#[trigger] entries[i]),
    ensures
        add_all(seq![], limit, text_lines(joined(entries))) == entries,
{
    lemma_joined_lines(entries);
    lemma_add_all_ok(entries, limit);
}

impl History {
    /// A history read back from text, one entry per line, as
    /// [`History::to_text`] writes it; blank and repeated lines are dropped
    /// as [`History::add`] drops them.
    pub fn from_text(text: &str, limit: usize) -> (h: History)
        ensures
            h@.entries == add_all(seq![], limit, text_lines(text@)),
            h@.limit == limit,
    {
        let chars = chars_of(text);
        let mut lines: Vec<String> = Vec::new();
        let mut cur: Vec<char> = Vec::new();
        let mut i: usize = 0;
        assert(strings_view(lines@) =~= Seq::<Seq<char>>::empty());
        while i < chars.len()
            invariant
                i <= chars@.len(),
                chars@ == text@,
                (cur@, strings_view(lines@)) == scan_lines(chars@.take(i as int)),
            decreases chars.len() - i,
        {
            assert(chars@.take(i + 1).drop_last() =~= chars@.take(i as int));
            if chars[i] == '\n' {
                let n = cur.len();
                let line = if n > 0 && cur[n - 1] == '\r' {
                    let trimmed = crate::text::splice(&cur, n - 1, n, &[]);
                    assert(trimmed@ =~= cur@.drop_last());
                    string_of(trimmed.as_slice())
                } else {
                    string_of(cur.as_slice())
                };
                proof {
                    lemma_strings_view_push(lines@, line);
                }
                lines.push(line);
                cur = Vec::new();
                assert(cur@ =~= Seq::<char>::empty());
            } else {
                cur.push(chars[i]);
            }
            i = i + 1;
        }
        assert(chars@.take(i as int) =~= text@);
        if cur.len() > 0 {
            let line = string_of(cur.as_slice());
            proof {
                lemma_strings_view_push(lines@, line);
            }
            lines.push(line);
        }
        let ghost ls = strings_view(lines@);
        let mut history = History::new(limit);
        let mut k: usize = 0;
        while k < lines.len()
            invariant
                k <= lines@.len(),
                ls == strings_view(lines@),
                history@.limit == limit,
                history@.entries == add_all(seq![], limit, ls.take(k as int)),
            decreases lines.len() - k,
        {
            assert(ls.take(k + 1).drop_last() =~= ls.take(k as int));
            assert(ls[k as int] == lines@[k as int]@);
            match utf8_len(chars_of(lines[k].as_str()).as_slice()) {
                Some(_) => {
                    history.add(lines[k].as_str());
                },
                None => {},
            }
            k = k + 1;
        }
        assert(ls.take(k as int) =~= ls);
        history
    }

    /// The entries as a file holds them, each followed by a newline.
    pub fn to_text(&self) -> (s: String)
        ensures
            s@ == joined(self@.entries),
    {
        let mut s = String::new();
        let mut i: usize = 0;
        while i < self.entries.len()
            invariant
                i <= self.entries@.len(),
                s@ == joined(strings_view(self.entries@).take(i as int)),
            decreases self.entries.len() - i,
        {
            assert(strings_view(self.entries@).take(i + 1).drop_last() =~= strings_view(
                self.entries@,
            ).take(i as int));
            s.push_str(self.entries[i].as_str());
            s.push('\n');
            i = i + 1;
        }
        assert(strings_view(self.entries@).take(i as int) =~= strings_view(self.entries@));
        s
    }
}

} // verus!
