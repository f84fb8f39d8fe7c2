//! The line editor.
//!
//! A state machine: keys in, [`Action`] out, no I/O. It turns keystrokes into
//! a line of text, and every rule it follows is stated in [`handle_spec`] and
//! [`complete_spec`].

use vstd::prelude::*;
use crate::history::{
    first_match, has_prefix, last_match, lemma_last_match_bounds, lemma_first_match_none, lemma_last_match_is_last, History, HistoryV,
};
use crate::keys::{decode_spec, Decoded, Key};
use crate::text::{
    byte_len, byte_offset, char_width, chars_of, fits, is_whitespace, is_ws, lemma_offset_mono,
    lemma_splice_len, lemma_strings_view_push, offset_of, splice, string_of, strings_view,
    utf8_len,
};

verus! {

/// What the caller should do after a keystroke.
#[derive(Debug, Clone, PartialEq, Eq)]
pub enum Action {
    /// The line changed, or did not. Redraw and keep reading.
    Continue,
    /// The user pressed Enter. Here is the line.
    Submit(String),
    /// Ctrl-C. The line is abandoned; the shell should report 130.
    Interrupted,
    /// Ctrl-D on an empty line.
    EndOfFile,
    /// Several completions matched. Show them, then redraw.
    Suggest(Vec<String>),
    /// Ctrl-L. Clear the screen, then redraw.
    Clear,
}

/// What an [`Action`] says.
pub enum ActionV {
    Continue,
    Submit(Seq<char>),
    Interrupted,
    EndOfFile,
    Suggest(Seq<Seq<char>>),
    Clear,
}

impl View for Action {
    type V = ActionV;

    open spec fn view(&self) -> ActionV {
        match self {
            Action::Continue => ActionV::Continue,
            Action::Submit(s) => ActionV::Submit(s@),
            Action::Interrupted => ActionV::Interrupted,
            Action::EndOfFile => ActionV::EndOfFile,
            Action::Suggest(v) => ActionV::Suggest(strings_view(v@)),
            Action::Clear => ActionV::Clear,
        }
    }
}

/// What a completer found.
#[derive(Debug, Clone, PartialEq, Eq)]
pub struct Completion {
    /// Byte offset where the replacement starts — the beginning of the word.
    pub start: usize,
    /// The possibilities, in the order they should be shown.
    pub candidates: Vec<String>,
}

/// What a [`Completion`] says.
pub struct CompletionV {
    pub start: usize,
    pub candidates: Seq<Seq<char>>,
}

impl View for Completion {
    type V = CompletionV;

    open spec fn view(&self) -> CompletionV {
        CompletionV { start: self.start, candidates: strings_view(self.candidates@) }
    }
}

impl Default for Completion {
    /// No candidates, starting at offset 0.
    fn default() -> (c: Self)
        ensures
            c.start == 0,
            c.candidates@.len() == 0,
    {
        Completion { start: 0, candidates: Vec::new() }
    }
}

/// Somewhere to ask what a partial word might become.
///
/// A trait rather than a function so the editor stays free of the filesystem
/// and the environment: completing a command means searching `PATH`, and
/// completing a path means reading directories.
pub trait Completer {
    /// Offer completions for the word ending at `cursor`.
    fn complete(&self, line: &str, cursor: usize) -> Completion;
}

/// A completer that never has an opinion, for tests and non-interactive use.
#[derive(Debug, Default)]
pub struct NoCompletion;

impl Completer for NoCompletion {
    fn complete(&self, line: &str, cursor: usize) -> (c: Completion)
        ensures
            c.start == cursor,
            c.candidates@.len() == 0,
    {
        Completion { start: cursor, candidates: Vec::new() }
    }
}

// ---- the editor's rules, over its state -------------------------------------

/// The state of an [`Editor`]: the line, the cursor as a character index,
/// the history, and the history search in progress.
pub struct EditorV {
    pub buffer: Seq<char>,
    pub pos: nat,
    pub history: HistoryV,
    /// Where in the history the user has navigated to, if anywhere.
    pub browsing: Option<usize>,
    /// The line that was being typed before history navigation started.
    pub held: Seq<char>,
    /// The prefix history navigation is filtering by.
    pub prefix: Seq<char>,
}

/// The same state with another line and cursor.
pub open spec fn with_line(e: EditorV, buffer: Seq<char>, pos: nat) -> EditorV {
    EditorV { buffer, pos, history: e.history, browsing: e.browsing, held: e.held, prefix: e.prefix }
}

/// The same state with the history search ended.
pub open spec fn not_browsing(e: EditorV) -> EditorV {
    EditorV {
        buffer: e.buffer,
        pos: e.pos,
        history: e.history,
        browsing: None,
        held: e.held,
        prefix: e.prefix,
    }
}

/// A fresh line over the same history.
pub open spec fn fresh(e: EditorV) -> EditorV {
    EditorV {
        buffer: seq![],
        pos: 0,
        history: e.history,
        browsing: None,
        held: seq![],
        prefix: seq![],
    }
}

/// Keys that edit the line, and so end a history search.
pub open spec fn is_editing(k: Key) -> bool {
    ||| k is Char
    ||| k is Backspace
    ||| k is Delete
    ||| k == Key::Control('u')
    ||| k == Key::Control('k')
    ||| k == Key::Control('w')
}

/// The length of `s.take(n)` once trailing whitespace is trimmed.
pub open spec fn trim_end_len(s: Seq<char>, n: int) -> int
    decreases n,
{
    if n > 0 && is_ws(s[n - 1]) {
        trim_end_len(s, n - 1)
    } else {
        n
    }
}

/// The index of the last whitespace character before index `n`.
pub open spec fn last_ws_before(s: Seq<char>, n: int) -> Option<int>
    decreases n,
{
    if n <= 0 {
        None
    } else if is_ws(s[n - 1]) {
        Some(n - 1)
    } else {
        last_ws_before(s, n - 1)
    }
}

/// Where the word before `pos` begins. Trailing whitespace is skipped
/// first, so Ctrl-W after `ls foo ` deletes `foo ` rather than nothing.
pub open spec fn word_start_spec(s: Seq<char>, pos: int) -> int {
    match last_ws_before(s, trim_end_len(s, pos)) {
        Some(i) => i + 1,
        None => 0,
    }
}

/// Whether [`Editor::handle`] can take `key` in state `e`.
pub open spec fn accepts_spec(e: EditorV, key: Key) -> bool {
    key matches Key::Char(c) ==> byte_len(e.buffer) + char_width(c) <= usize::MAX
}

// ---- what the editor promises -------------------------------------------------

/// Enter hands over the line as typed and starts a fresh one over the same
/// history.
pub proof fn law_enter_submits_and_clears(e: EditorV)
    ensures
        handle_spec(e, Key::Enter).1 == ActionV::Submit(e.buffer),
        handle_spec(e, Key::Enter).0 == fresh(e),
{
}

/// Ctrl-D ends input exactly when the line is empty; otherwise it deletes
/// forwards.
pub proof fn law_ctrl_d_ends_only_an_empty_line(e: EditorV)
    ensures
        (handle_spec(e, Key::Control('d')).1 == ActionV::EndOfFile) == (e.buffer.len() == 0),
{
}

/// Ctrl-C abandons the line, whatever was typed.
pub proof fn law_ctrl_c_abandons_the_line(e: EditorV)
    ensures
        handle_spec(e, Key::Control('c')).1 == ActionV::Interrupted,
        handle_spec(e, Key::Control('c')).0.buffer.len() == 0,
{
}

/// Any editing key ends a history search, so Up and Down afterwards start
/// from what is on the line now.
pub proof fn law_editing_ends_the_search(e: EditorV, k: Key)
    requires
        is_editing(k),
    ensures
        handle_spec(e, k).0.browsing is None,
{
}

/// Up and then Down, with no search in progress, give back the line that
/// was being typed, cursor at its end: a half-typed line is never lost to a
/// look at the history.
pub proof fn law_up_then_down_restores_the_line(e: EditorV)
    requires
        e.browsing is None,
        e.history.entries.len() <= usize::MAX,
    ensures
        handle_spec(handle_spec(e, Key::Up).0, Key::Down).0.buffer == e.buffer,
        handle_spec(handle_spec(e, Key::Up).0, Key::Down).0.browsing is None,
{
    let entries = e.history.entries;
    let prefix = e.buffer.take(e.pos as int);
    let n = entries.len() as int;
    lemma_last_match_is_last(entries, prefix, n);
    match last_match(entries, prefix, n) {
        Some(f) => {
            lemma_first_match_none(entries, prefix, f + 1);
        },
        None => {},
    }
}

/// Up with nothing in progress finds only an entry that starts with what
/// was typed before the cursor, and puts it on the line.
pub proof fn law_up_filters_by_what_was_typed(e: EditorV)
    requires
        e.browsing is None,
        e.history.entries.len() <= usize::MAX,
    ensures
        handle_spec(e, Key::Up).0.browsing matches Some(f) ==> f < e.history.entries.len()
            && has_prefix(e.history.entries[f as int], e.buffer.take(e.pos as int))
            && handle_spec(e, Key::Up).0.buffer == e.history.entries[f as int],
{
    lemma_last_match_bounds(
        e.history.entries,
        e.buffer.take(e.pos as int),
        e.history.entries.len() as int,
    );
}

/// The index `k` from `i` on whose byte offset is `b`.
pub open spec fn offset_index(s: Seq<char>, b: int, i: int) -> Option<int>
    decreases s.len() + 1 - i,
{
    if i > s.len() || i < 0 {
        None
    } else if byte_offset(s, i) == b {
        Some(i)
    } else {
        offset_index(s, b, i + 1)
    }
}

/// Up: search backwards for an entry starting with what was typed before
/// the first Up, holding back the line being typed.
pub open spec fn browse_back_spec(e: EditorV) -> (EditorV, ActionV) {
    let starting = e.browsing is None;
    let held = if starting {
        e.buffer
    } else {
        e.held
    };
    let prefix = if starting {
        e.buffer.take(e.pos as int)
    } else {
        e.prefix
    };
    let len = e.history.entries.len();
    let before = match e.browsing {
        Some(b) => if b < len {
            b as int
        } else {
            len as int
        },
        None => len as int,
    };
    let e1 = EditorV {
        buffer: e.buffer,
        pos: e.pos,
        history: e.history,
        browsing: e.browsing,
        held,
        prefix,
    };
    match last_match(e.history.entries, prefix, before) {
        None => (e1, ActionV::Continue),
        Some(f) => {
            let line = e.history.entries[f as int];
            (
                EditorV {
                    buffer: line,
                    pos: line.len(),
                    history: e.history,
                    browsing: Some(f),
                    held,
                    prefix,
                },
                ActionV::Continue,
            )
        },
    }
}

/// Down: the next newer match, or back to the held line past the newest.
pub open spec fn browse_forward_spec(e: EditorV) -> (EditorV, ActionV) {
    match e.browsing {
        None => (e, ActionV::Continue),
        Some(cur) => match first_match(e.history.entries, e.prefix, cur + 1) {
            Some(f) => {
                let line = e.history.entries[f as int];
                (
                    EditorV {
                        buffer: line,
                        pos: line.len(),
                        history: e.history,
                        browsing: Some(f),
                        held: e.held,
                        prefix: e.prefix,
                    },
                    ActionV::Continue,
                )
            },
            None => (
                EditorV {
                    buffer: e.held,
                    pos: e.held.len(),
                    history: e.history,
                    browsing: None,
                    held: seq![],
                    prefix: e.prefix,
                },
                ActionV::Continue,
            ),
        },
    }
}

/// What Ctrl with a letter does, once an editing key has ended any history
/// search.
pub open spec fn control_spec(e: EditorV, c: char) -> (EditorV, ActionV) {
    let b = e.buffer;
    let p = e.pos as int;
    if c == 'd' {
        // Ctrl-D deletes forwards when there is something to delete, and
        // ends input on an empty line.
        if b.len() > 0 {
            if p < b.len() {
                (with_line(e, b.take(p) + b.skip(p + 1), e.pos), ActionV::Continue)
            } else {
                (e, ActionV::Continue)
            }
        } else {
            (e, ActionV::EndOfFile)
        }
    } else if c == 'a' {
        (with_line(e, b, 0), ActionV::Continue)
    } else if c == 'e' {
        (with_line(e, b, b.len()), ActionV::Continue)
    } else if c == 'c' {
        (fresh(e), ActionV::Interrupted)
    } else if c == 'l' {
        (e, ActionV::Clear)
    } else if c == 'u' {
        (with_line(e, b.skip(p), 0), ActionV::Continue)
    } else if c == 'k' {
        (with_line(e, b.take(p), e.pos), ActionV::Continue)
    } else if c == 'w' {
        let st = word_start_spec(b, p);
        (with_line(e, b.take(st) + b.skip(p), st as nat), ActionV::Continue)
    } else {
        (e, ActionV::Continue)
    }
}

/// What a keystroke does, for every key but Tab, which asks a completer.
pub open spec fn handle_spec(e: EditorV, k: Key) -> (EditorV, ActionV) {
    let e = if is_editing(k) {
        not_browsing(e)
    } else {
        e
    };
    let b = e.buffer;
    let p = e.pos as int;
    match k {
        Key::Char(c) => (with_line(e, b.take(p).push(c) + b.skip(p), e.pos + 1), ActionV::Continue),
        Key::Enter => (fresh(e), ActionV::Submit(b)),
        Key::Backspace => if p > 0 {
            (with_line(e, b.take(p - 1) + b.skip(p), (p - 1) as nat), ActionV::Continue)
        } else {
            (e, ActionV::Continue)
        },
        Key::Delete => if b.len() > 0 && p < b.len() {
            (with_line(e, b.take(p) + b.skip(p + 1), e.pos), ActionV::Continue)
        } else {
            (e, ActionV::Continue)
        },
        Key::Left => if p > 0 {
            (with_line(e, b, (p - 1) as nat), ActionV::Continue)
        } else {
            (e, ActionV::Continue)
        },
        Key::Right => if p < b.len() {
            (with_line(e, b, e.pos + 1), ActionV::Continue)
        } else {
            (e, ActionV::Continue)
        },
        Key::Home => (with_line(e, b, 0), ActionV::Continue),
        Key::End => (with_line(e, b, b.len()), ActionV::Continue),
        Key::Up => browse_back_spec(e),
        Key::Down => browse_forward_spec(e),
        Key::Tab => (e, ActionV::Continue),
        Key::Escape => (e, ActionV::Continue),
        Key::Control(c) => control_spec(e, c),
    }
}

/// How many leading characters `a` and `b` share, counting from `i`.
pub open spec fn shared_len(a: Seq<char>, b: Seq<char>, i: int) -> int
    decreases a.len() - i,
{
    if 0 <= i < a.len() && i < b.len() && a[i] == b[i] {
        shared_len(a, b, i + 1)
    } else {
        i
    }
}

/// How much of `first` every candidate from index `j` on shares, at most
/// `n`.
pub open spec fn agreed_len(first: Seq<char>, cands: Seq<Seq<char>>, j: int, n: int) -> int
    decreases cands.len() - j,
{
    if j < 0 || j >= cands.len() {
        n
    } else {
        let m = shared_len(first, cands[j], 0);
        agreed_len(first, cands, j + 1, if m < n { m } else { n })
    }
}

/// The longest prefix every candidate shares.
pub open spec fn common_prefix_spec(cands: Seq<Seq<char>>) -> Seq<char> {
    if cands.len() == 0 {
        seq![]
    } else {
        cands[0].take(agreed_len(cands[0], cands, 1, cands[0].len() as int))
    }
}

/// The cursor keys, in either terminal mode, move the cursor and leave the
/// line alone: right one character, left one, to the start, to the end.
pub proof fn law_cursor_keys_move_the_cursor(e: EditorV, form: u8)
    requires
        e.pos <= e.buffer.len(),
        form == 0x4f || form == 0x5b,
    ensures
        decode_spec(seq![0x1bu8, form, 0x43u8]) matches Decoded::Key(k, _) && handle_spec(e, k).0
            == with_line(e, e.buffer, if e.pos < e.buffer.len() { e.pos + 1 } else { e.pos }),
        decode_spec(seq![0x1bu8, form, 0x44u8]) matches Decoded::Key(k, _) && handle_spec(e, k).0
            == with_line(e, e.buffer, if e.pos > 0 { (e.pos - 1) as nat } else { 0 }),
        decode_spec(seq![0x1bu8, form, 0x48u8]) matches Decoded::Key(k, _) && handle_spec(e, k).0
            == with_line(e, e.buffer, 0),
        decode_spec(seq![0x1bu8, form, 0x46u8]) matches Decoded::Key(k, _) && handle_spec(e, k).0
            == with_line(e, e.buffer, e.buffer.len()),
{
    assert(seq![0x1bu8, form, 0x43u8][2] == 0x43u8);
    assert(seq![0x1bu8, form, 0x44u8][2] == 0x44u8);
    assert(seq![0x1bu8, form, 0x48u8][2] == 0x48u8);
    assert(seq![0x1bu8, form, 0x46u8][2] == 0x46u8);
    if e.pos == 0 {
        assert(e == with_line(e, e.buffer, 0));
    }
    if e.pos == e.buffer.len() {
        assert(e == with_line(e, e.buffer, e.buffer.len()));
    }
}

/// Comparing from a shared prefix of length `i`, `shared_len` finds where
/// the two first differ.
proof fn lemma_shared_len(a: Seq<char>, b: Seq<char>, i: int)
    requires
        0 <= i <= a.len(),
        i <= b.len(),
        a.take(i) == b.take(i),
    ensures
        i <= shared_len(a, b, i) <= a.len(),
        shared_len(a, b, i) <= b.len(),
        a.take(shared_len(a, b, i)) == b.take(shared_len(a, b, i)),
        shared_len(a, b, i) < a.len() && shared_len(a, b, i) < b.len() ==> a[shared_len(a, b, i)]
            != b[shared_len(a, b, i)],
    decreases a.len() - i,
{
    if i < a.len() && i < b.len() && a[i] == b[i] {
        assert(a.take(i + 1) =~= a.take(i).push(a[i]));
        assert(b.take(i + 1) =~= b.take(i).push(b[i]));
        lemma_shared_len(a, b, i + 1);
    }
}

/// `agreed_len` is the least of `n` and what each candidate from `j` on
/// shares with `first`.
proof fn lemma_agreed_len(first: Seq<char>, cands: Seq<Seq<char>>, j: int, n: int)
    requires
        1 <= j <= cands.len(),
        0 <= n,
    ensures
        0 <= agreed_len(first, cands, j, n) <= n,
        forall|k: int|
            j <= k < cands.len() ==> agreed_len(first, cands, j, n) <= #[trigger] shared_len(
                first,
                cands[k],
                0,
            ),
        agreed_len(first, cands, j, n) == n || exists|k: int|
            j <= k < cands.len() && agreed_len(first, cands, j, n) == #[trigger] shared_len(
                first,
                cands[k],
                0,
            ),
    decreases cands.len() - j,
{
    if j < cands.len() {
        let m = shared_len(first, cands[j], 0);
        assert(first.take(0) =~= cands[j].take(0));
        lemma_shared_len(first, cands[j], 0);
        let n2 = if m < n { m } else { n };
        lemma_agreed_len(first, cands, j + 1, n2);
        let r = agreed_len(first, cands, j + 1, n2);
        if r == n2 && m < n {
            assert(r == shared_len(first, cands[j], 0));
        }
    }
}

/// Tab with several candidates fills in as far as every candidate agrees:
/// what it fills in begins every candidate, and no longer text does.
pub proof fn law_completion_fills_in_what_every_candidate_shares(cands: Seq<Seq<char>>)
    requires
        cands.len() > 0,
    ensures
        forall|j: int|
            0 <= j < cands.len() ==> common_prefix_spec(cands).len() <= (#[trigger] cands[j]).len()
                && cands[j].take(common_prefix_spec(cands).len() as int) == common_prefix_spec(cands),
        forall|q: Seq<char>|
            (forall|j: int|
                0 <= j < cands.len() ==> q.len() <= (#[trigger] cands[j]).len() && cands[j].take(
                    q.len() as int,
                ) == q) ==> #[trigger] q.len() <= common_prefix_spec(cands).len(),
{
    let first = cands[0];
    let n = first.len() as int;
    lemma_agreed_len(first, cands, 1, n);
    let r = agreed_len(first, cands, 1, n);
    let p = common_prefix_spec(cands);
    assert(p == first.take(r));
    assert forall|j: int| 0 <= j < cands.len() implies p.len() <= (#[trigger] cands[j]).len()
        && cands[j].take(p.len() as int) == p by {
        if j == 0 {
            assert(first.take(r) =~= p);
        } else {
            let m = shared_len(first, cands[j], 0);
            assert(first.take(0) =~= cands[j].take(0));
            lemma_shared_len(first, cands[j], 0);
            assert(r <= m);
            assert(first.take(m).take(r) =~= first.take(r));
            assert(cands[j].take(m).take(r) =~= cands[j].take(r));
        }
    }
    assert forall|q: Seq<char>|
        (forall|j: int|
            0 <= j < cands.len() ==> q.len() <= (#[trigger] cands[j]).len() && cands[j].take(
                q.len() as int,
            ) == q) implies #[trigger] q.len() <= p.len() by {
        assert(q.len() <= first.len() && first.take(q.len() as int) == q);
        if r < n {
            let k = choose|k: int| 1 <= k < cands.len() && r == #[trigger] shared_len(first, cands[k], 0);
            let c = cands[k];
            assert(q.len() <= c.len() && c.take(q.len() as int) == q);
            assert(first.take(0) =~= c.take(0));
            lemma_shared_len(first, c, 0);
            if q.len() > r {
                assert(first[r] == first.take(q.len() as int)[r]);
                assert(c[r] == c.take(q.len() as int)[r]);
                assert(false);
            }
        }
    }
}

/// The word from byte offset `start` to the cursor replaced by `repl`, the
/// cursor after it. A start that is not a character boundary at or before
/// the cursor leaves the line alone, as does a result too long to address.
pub open spec fn replace_word_spec(e: EditorV, start: usize, repl: Seq<char>) -> EditorV {
    match offset_index(e.buffer, start as int, 0) {
        Some(k) => {
            let nb = e.buffer.take(k) + repl + e.buffer.skip(e.pos as int);
            if k <= e.pos && fits(nb) {
                with_line(e, nb, (k + repl.len()) as nat)
            } else {
                e
            }
        },
        None => e,
    }
}

/// `found` is what `completer` answered when asked about the line of `e`
/// with the cursor at its byte offset.
pub open spec fn completer_answered<C: Completer>(completer: &C, e: EditorV, found: Completion) -> bool {
    exists|line: &str|
        line@ == e.buffer && #[trigger] call_ensures(
            C::complete,
            (completer, line, byte_offset(e.buffer, e.pos as int) as usize),
            found,
        )
}

/// Tab, given what the completer found: one candidate is filled in; several
/// are filled in as far as they agree, then shown.
pub open spec fn complete_spec(e: EditorV, found: CompletionV) -> (EditorV, ActionV) {
    let n = found.candidates.len();
    if n == 0 {
        (e, ActionV::Continue)
    } else if n == 1 {
        (replace_word_spec(e, found.start, found.candidates[0]), ActionV::Continue)
    } else {
        let shared = common_prefix_spec(found.candidates);
        let cur = byte_offset(e.buffer, e.pos as int);
        let e2 = if found.start <= cur && byte_len(shared) > cur - found.start {
            replace_word_spec(e, found.start, shared)
        } else {
            e
        };
        (e2, ActionV::Suggest(found.candidates))
    }
}

// ---- the editor ---------------------------------------------------------------

/// A line being edited.
#[derive(Debug)]
pub struct Editor {
    /// The line, as characters.
    chars: Vec<char>,
    /// The same line, as a string.
    text: String,
    /// The cursor as a character index.
    pos: usize,
    /// The cursor as a byte offset. Always on a character boundary.
    cursor: usize,
    history: History,
    browsing: Option<usize>,
    held: Vec<char>,
    prefix: Vec<char>,
}

impl View for Editor {
    type V = EditorV;

    closed spec fn view(&self) -> EditorV {
        EditorV {
            buffer: self.chars@,
            pos: self.pos as nat,
            history: self.history@,
            browsing: self.browsing,
            held: self.held@,
            prefix: self.prefix@,
        }
    }
}

impl Editor {
    /// The editor's fields agree with each other.
    pub closed spec fn wf(&self) -> bool {
        &&& self.text@ == self.chars@
        &&& self.pos <= self.chars@.len()
        &&& self.cursor == byte_offset(self.chars@, self.pos as int)
        &&& fits(self.chars@)
        &&& fits(self.held@)
    }

    /// A well-formed editor's line fits in memory, and so does what it
    /// holds back.
    pub proof fn lemma_wf_fits(&self)
        requires
            self.wf(),
        ensures
            fits(self@.buffer),
            fits(self@.held),
            self@.pos <= self@.buffer.len(),
    {
    }

    /// Whether [`Editor::handle`] can take this key now: a character must
    /// leave a line that fits in memory.
    pub fn accepts(&self, key: Key) -> (b: bool)
        requires
            self.wf(),
        ensures
            b == accepts_spec(self@, key),
    {
        match key {
            Key::Char(c) => {
                let total = offset_of(&self.chars, self.chars.len());
                proof {
                    assert(self.chars@.take(self.chars@.len() as int) =~= self.chars@);
                }
                total <= usize::MAX - crate::text::char_len_utf8(c)
            },
            _ => true,
        }
    }

    /// A new editor over the given history.
    pub fn new(history: History) -> (e: Self)
        ensures
            e.wf(),
            e@ == fresh(EditorV {
                buffer: seq![],
                pos: 0,
                history: history@,
                browsing: None,
                held: seq![],
                prefix: seq![],
            }),
    {
        Editor {
            chars: Vec::new(),
            text: String::new(),
            pos: 0,
            cursor: 0,
            history,
            browsing: None,
            held: Vec::new(),
            prefix: Vec::new(),
        }
    }

    /// The line as it currently reads.
    pub fn buffer(&self) -> (s: &str)
        requires
            self.wf(),
        ensures
            s@ == self@.buffer,
    {
        self.text.as_str()
    }

    /// Where the cursor is, as a byte offset.
    pub fn cursor(&self) -> (n: usize)
        requires
            self.wf(),
        ensures
            n == byte_offset(self@.buffer, self@.pos as int),
    {
        self.cursor
    }

    /// Where the cursor is, counted in characters from the start of the
    /// line.
    pub fn column(&self) -> (n: usize)
        requires
            self.wf(),
        ensures
            n == self@.pos,
    {
        self.pos
    }

    /// The history, for saving.
    pub fn history(&self) -> (h: &History)
        ensures
            h@ == self@.history,
    {
        &self.history
    }

    /// Remember a submitted line.
    pub fn remember(&mut self, line: &str)
        requires
            old(self).wf(),
            fits(line@),
        ensures
            final(self).wf(),
            final(self)@ == (EditorV {
                history: HistoryV {
                    entries: crate::history::add_spec(
                        old(self)@.history.entries,
                        old(self)@.history.limit,
                        line@,
                    ),
                    limit: old(self)@.history.limit,
                },
                ..old(self)@
            }),
    {
        self.history.add(line);
    }

    /// Start a fresh line.
    pub fn reset(&mut self)
        requires
            old(self).wf(),
        ensures
            final(self).wf(),
            final(self)@ == fresh(old(self)@),
    {
        self.chars = Vec::new();
        self.text = String::new();
        self.pos = 0;
        self.cursor = 0;
        self.browsing = None;
        self.held = Vec::new();
        self.prefix = Vec::new();
    }

    /// Replace the line and the cursor, keeping the string and byte cursor
    /// in step.
    fn set_line(&mut self, chars: Vec<char>, pos: usize)
        requires
            fits(chars@),
            pos <= chars@.len(),
            fits(old(self).held@),
        ensures
            final(self).wf(),
            final(self)@ == with_line(old(self)@, chars@, pos as nat),
    {
        self.text = string_of(chars.as_slice());
        self.cursor = offset_of(&chars, pos);
        self.chars = chars;
        self.pos = pos;
    }

    /// Move the cursor, leaving the line alone.
    fn move_to(&mut self, pos: usize)
        requires
            old(self).wf(),
            pos <= old(self)@.buffer.len(),
        ensures
            final(self).wf(),
            final(self)@ == with_line(old(self)@, old(self)@.buffer, pos as nat),
    {
        self.cursor = offset_of(&self.chars, pos);
        self.pos = pos;
    }

    /// Where the word before the cursor begins.
    fn word_start(&self) -> (st: usize)
        requires
            self.wf(),
        ensures
            st == word_start_spec(self@.buffer, self@.pos as int),
            st <= self@.pos,
    {
        let s = &self.chars;
        let mut n: usize = self.pos;
        while n > 0 && is_whitespace(s[n - 1])
            invariant
                n <= self.pos <= s@.len(),
                trim_end_len(s@, self.pos as int) == trim_end_len(s@, n as int),
            decreases n,
        {
            n = n - 1;
        }
        let ghost t = n;
        while n > 0 && !is_whitespace(s[n - 1])
            invariant
                n <= t <= self.pos <= s@.len(),
                t == trim_end_len(s@, self.pos as int),
                last_ws_before(s@, t as int) == last_ws_before(s@, n as int),
            decreases n,
        {
            n = n - 1;
        }
        n
    }

    /// Apply a keystroke.
    ///
    /// Every key but Tab does what [`handle_spec`] says. Tab asks the
    /// completer about the word at the cursor and does what
    /// [`complete_spec`] says for what it found.
    pub fn handle<C: Completer>(&mut self, key: Key, completer: &C) -> (a: Action)
        requires
            old(self).wf(),
            key matches Key::Char(c) ==> byte_len(old(self)@.buffer) + char_width(c) <= usize::MAX,
        ensures
            final(self).wf(),
            key != Key::Tab ==> (final(self)@, a@) == handle_spec(old(self)@, key),
            key == Key::Tab ==> exists|found: Completion|
                completer_answered(completer, old(self)@, found) && (final(self)@, a@)
                    == #[trigger] complete_spec(old(self)@, found@),
    {
        // Any editing invalidates the history search: the prefix is whatever
        // was typed *before* the first Up, and typing changes it.
        let editing = match key {
            Key::Char(_) | Key::Backspace | Key::Delete => true,
            Key::Control(c) => c == 'u' || c == 'k' || c == 'w',
            _ => false,
        };
        if editing {
            self.browsing = None;
        }
        let len = self.chars.len();
        let pos = self.pos;
        match key {
            Key::Char(c) => {
                self.insert_char(c);
                Action::Continue
            },
            Key::Enter => {
                let line = string_of(self.chars.as_slice());
                self.reset();
                Action::Submit(line)
            },
            Key::Backspace => {
                if pos > 0 {
                    self.kill(pos - 1, pos);
                }
                Action::Continue
            },
            Key::Delete => {
                if len > 0 && pos < len {
                    self.kill(pos, pos + 1);
                }
                Action::Continue
            },
            Key::Left => {
                if pos > 0 {
                    self.move_to(pos - 1);
                }
                Action::Continue
            },
            Key::Right => {
                if pos < len {
                    self.move_to(pos + 1);
                }
                Action::Continue
            },
            Key::Home => {
                self.move_to(0);
                Action::Continue
            },
            Key::End => {
                self.move_to(len);
                Action::Continue
            },
            Key::Up => self.browse_back(),
            Key::Down => self.browse_forward(),
            Key::Tab => {
                let line = self.text.as_str();
                let found = completer.complete(line, self.cursor);
                assert(call_ensures(C::complete, (completer, line, self.cursor), found));
                assert(completer_answered(completer, old(self)@, found));
                self.apply_completion(found)
            },
            Key::Escape => Action::Continue,
            Key::Control(c) => self.control(c),
        }
    }

    /// Ctrl with a letter.
    fn control(&mut self, c: char) -> (a: Action)
        requires
            old(self).wf(),
        ensures
            final(self).wf(),
            (final(self)@, a@) == control_spec(old(self)@, c),
    {
        let len = self.chars.len();
        let pos = self.pos;
        if c == 'd' {
            if len > 0 {
                if pos < len {
                    self.kill(pos, pos + 1);
                }
                Action::Continue
            } else {
                Action::EndOfFile
            }
        } else if c == 'a' {
            self.move_to(0);
            Action::Continue
        } else if c == 'e' {
            self.move_to(len);
            Action::Continue
        } else if c == 'c' {
            self.reset();
            Action::Interrupted
        } else if c == 'l' {
            Action::Clear
        } else if c == 'u' {
            // Kill to the start of the line.
            self.kill(0, pos);
            assert(self@.buffer =~= old(self)@.buffer.skip(pos as int));
            self.move_to(0);
            Action::Continue
        } else if c == 'k' {
            // Kill to the end of the line.
            self.kill(pos, len);
            assert(self@.buffer =~= old(self)@.buffer.take(pos as int));
            Action::Continue
        } else if c == 'w' {
            // Kill the word before the cursor.
            let st = self.word_start();
            self.kill(st, pos);
            Action::Continue
        } else {
            Action::Continue
        }
    }

    /// Type a character at the cursor.
    fn insert_char(&mut self, c: char)
        requires
            old(self).wf(),
            byte_len(old(self)@.buffer) + char_width(c) <= usize::MAX,
        ensures
            final(self).wf(),
            final(self)@ == with_line(
                old(self)@,
                old(self)@.buffer.take(old(self)@.pos as int).push(c) + old(self)@.buffer.skip(
                    old(self)@.pos as int,
                ),
                old(self)@.pos + 1,
            ),
    {
        let pos = self.pos;
        let nb = splice(&self.chars, pos, pos, &[c]);
        proof {
            lemma_splice_len(self.chars@, pos as int, pos as int, seq![c]);
            lemma_offset_mono(self.chars@, pos as int, pos as int);
            assert(byte_len(seq![c]) == char_width(c)) by {
                assert(seq![c].drop_last() =~= Seq::<char>::empty());
                assert(byte_len(Seq::<char>::empty()) == 0);
            }
            assert(nb@ =~= self.chars@.take(pos as int) + seq![c] + self.chars@.skip(pos as int));
            assert(nb@ =~= self.chars@.take(pos as int).push(c) + self.chars@.skip(pos as int));
        }
        let np = nb.len() - (self.chars.len() - pos);
        self.set_line(nb, np);
    }

    /// Remove the characters from `from` to `to`, leaving the cursor at
    /// `from`.
    fn kill(&mut self, from: usize, to: usize)
        requires
            old(self).wf(),
            from <= to <= old(self)@.buffer.len(),
        ensures
            final(self).wf(),
            final(self)@ == with_line(
                old(self)@,
                old(self)@.buffer.take(from as int) + old(self)@.buffer.skip(to as int),
                from as nat,
            ),
    {
        let nb = splice(&self.chars, from, to, &[]);
        proof {
            lemma_splice_len(self.chars@, from as int, to as int, seq![]);
            lemma_offset_mono(self.chars@, from as int, to as int);
            assert(nb@ =~= self.chars@.take(from as int) + self.chars@.skip(to as int));
        }
        self.set_line(nb, from);
    }

    /// Up: search backwards through history.
    fn browse_back(&mut self) -> (a: Action)
        requires
            old(self).wf(),
        ensures
            final(self).wf(),
            (final(self)@, a@) == browse_back_spec(old(self)@),
    {
        if self.browsing.is_none() {
            // Starting a search: hold the line being typed, and use it as the
            // prefix. Typing `git ` and pressing Up should find the last `git`
            // command, not simply the last command.
            self.held = splice(&self.chars, 0, 0, &[]);
            assert(self.held@ =~= self.chars@);
            self.prefix = splice(&self.chars, self.pos, self.chars.len(), &[]);
            assert(self.prefix@ =~= self.chars@.take(self.pos as int));
        }
        let len = self.history.len();
        let before = match self.browsing {
            Some(b) => b,
            None => len,
        };
        let prefix = string_of(self.prefix.as_slice());
        let r = self.history.search_back(prefix.as_str(), before);
        proof {
            crate::history::lemma_last_match_bounds(
                self@.history.entries,
                self.prefix@,
                if before < len {
                    before as int
                } else {
                    len as int
                },
            );
        }
        match r {
            None => Action::Continue,
            Some(found) => {
                self.browsing = Some(found);
                self.show_entry(found);
                Action::Continue
            },
        }
    }

    /// Down: search forwards, or return to the held line.
    fn browse_forward(&mut self) -> (a: Action)
        requires
            old(self).wf(),
        ensures
            final(self).wf(),
            (final(self)@, a@) == browse_forward_spec(old(self)@),
    {
        let current = match self.browsing {
            Some(c) => c,
            None => {
                return Action::Continue;
            },
        };
        let prefix = string_of(self.prefix.as_slice());
        let r = self.history.search_forward(prefix.as_str(), current);
        let _ = self.history.len();
        proof {
            crate::history::lemma_first_match_bounds(
                self@.history.entries,
                self.prefix@,
                current + 1,
            );
        }
        match r {
            Some(found) => {
                self.browsing = Some(found);
                self.show_entry(found);
            },
            None => {
                // Past the newest match: back to what was being typed.
                self.browsing = None;
                let mut held: Vec<char> = Vec::new();
                std::mem::swap(&mut held, &mut self.held);
                let n = held.len();
                self.set_line(held, n);
            },
        }
        Action::Continue
    }

    /// Show history entry `index`, with the cursor at the end.
    fn show_entry(&mut self, index: usize)
        requires
            fits(old(self).held@),
            index < old(self)@.history.entries.len(),
        ensures
            final(self).wf(),
            final(self)@ == with_line(
                old(self)@,
                old(self)@.history.entries[index as int],
                old(self)@.history.entries[index as int].len(),
            ),
    {
        let line = match self.history.get(index) {
            Some(s) => chars_of(s),
            None => Vec::new(),
        };
        let n = line.len();
        self.set_line(line, n);
    }

    /// Tab, once the completer has answered: fill in a single candidate, or
    /// fill in as far as several agree and show them.
    pub fn apply_completion(&mut self, found: Completion) -> (a: Action)
        requires
            old(self).wf(),
        ensures
            final(self).wf(),
            (final(self)@, a@) == complete_spec(old(self)@, found@),
    {
        let n = found.candidates.len();
        if n == 0 {
            return Action::Continue;
        }
        if n == 1 {
            let word = chars_of(found.candidates[0].as_str());
            self.replace_word(found.start, &word);
            return Action::Continue;
        }
        let shared = common_prefix(&found.candidates);
        if found.start <= self.cursor {
            match utf8_len(shared.as_slice()) {
                Some(w) => {
                    if w > self.cursor - found.start {
                        self.replace_word(found.start, &shared);
                    }
                },
                None => {
                    self.replace_word(found.start, &shared);
                },
            }
        }
        Action::Suggest(found.candidates)
    }

    /// Replace the word from byte offset `start` to the cursor.
    fn replace_word(&mut self, start: usize, repl: &Vec<char>)
        requires
            old(self).wf(),
        ensures
            final(self).wf(),
            final(self)@ == replace_word_spec(old(self)@, start, repl@),
    {
        let ghost s = self.chars@;
        let len = self.chars.len();
        let mut k: usize = 0;
        let mut off: usize = 0;
        proof {
            assert(s.take(0) =~= Seq::<char>::empty());
        }
        while k < len && off < start
            invariant
                self.wf(),
                s == self.chars@,
                len == s.len(),
                k <= len,
                off == byte_offset(s, k as int),
                offset_index(s, start as int, 0) == offset_index(s, start as int, k as int),
            decreases len - k,
        {
            proof {
                crate::text::lemma_offset_step(s, k as int);
                lemma_offset_mono(s, k + 1, len as int);
            }
            off = off + crate::text::char_len_utf8(self.chars[k]);
            k = k + 1;
        }
        if off != start {
            proof {
                if off > start {
                    lemma_offset_index_none(s, start as int, k as int);
                } else {
                    assert(offset_index(s, start as int, (len + 1) as int) is None);
                }
            }
            return;
        }
        let pos = self.pos;
        if k > pos {
            return;
        }
        let total = offset_of(&self.chars, len);
        proof {
            lemma_offset_mono(s, k as int, pos as int);
            lemma_offset_mono(s, pos as int, len as int);
            assert(s.take(len as int) =~= s);
            lemma_splice_len(s, k as int, pos as int, repl@);
        }
        let w = match utf8_len(repl.as_slice()) {
            Some(w) => w,
            None => {
                return;
            },
        };
        let tail = total - self.cursor;
        if w > usize::MAX - start || tail > usize::MAX - start - w {
            return;
        }
        let nb = splice(&self.chars, k, pos, repl.as_slice());
        assert(nb@.len() == k + repl@.len() + (len - pos));
        let np = nb.len() - (len - pos);
        self.set_line(nb, np);
    }
}

/// No index from `k` on has byte offset `b` once the offset at `k` is
/// already past it.
proof fn lemma_offset_index_none(s: Seq<char>, b: int, k: int)
    requires
        0 <= k <= s.len(),
        byte_offset(s, k) > b,
    ensures
        offset_index(s, b, k) is None,
    decreases s.len() + 1 - k,
{
    if k < s.len() {
        crate::text::lemma_offset_step(s, k);
        lemma_offset_index_none(s, b, k + 1);
    } else {
        assert(offset_index(s, b, k + 1) is None);
    }
}

/// The longest prefix every candidate shares.
fn common_prefix(candidates: &Vec<String>) -> (r: Vec<char>)
    ensures
        r@ == common_prefix_spec(strings_view(candidates@)),
{
    if candidates.len() == 0 {
        return Vec::new();
    }
    let first = chars_of(candidates[0].as_str());
    let ghost cands = strings_view(candidates@);
    let mut length: usize = first.len();
    let mut j: usize = 1;
    while j < candidates.len()
        invariant
            1 <= j <= candidates@.len(),
            cands == strings_view(candidates@),
            first@ == cands[0],
            length <= first@.len(),
            agreed_len(cands[0], cands, 1, cands[0].len() as int) == agreed_len(
                cands[0],
                cands,
                j as int,
                length as int,
            ),
        decreases candidates.len() - j,
    {
        let other = chars_of(candidates[j].as_str());
        let mut m: usize = 0;
        while m < first.len() && m < other.len() && first[m] == other[m]
            invariant
                m <= first@.len(),
                shared_len(first@, other@, 0) == shared_len(first@, other@, m as int),
            decreases first.len() - m,
        {
            m = m + 1;
        }
        assert(other@ == cands[j as int]);
        if m < length {
            length = m;
        }
        j = j + 1;
    }
    let r = splice(&first, length, first.len(), &[]);
    assert(r@ =~= first@.take(length as int));
    r
}

} // verus!
