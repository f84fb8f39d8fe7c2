//! Drawing the line.
//!
//! In raw mode the terminal echoes nothing, so everything the user sees is
//! written by the editor. This module turns editor state into the bytes that
//! produce it.
//!
//! Every keystroke redraws the whole line: return to column 0, erase to the
//! end of the line, write the prompt and buffer, then move the cursor into
//! place. Columns are counted in characters, which is right for ASCII and
//! wrong for anything double-width; a line longer than the terminal is wide
//! is not handled.

use vstd::prelude::*;
use crate::editor::Editor;
use crate::text::{chars_of, dec_nat, push_decimal};

verus! {

/// Clear the screen and move the cursor to the top-left.
pub const CLEAR_SCREEN: &'static str = "\x1b[2J\x1b[H";

/// The bytes that redraw a prompt and a line with the cursor `column`
/// characters from the left edge.
pub open spec fn line_spec(prompt: Seq<char>, buffer: Seq<char>, column: nat) -> Seq<char> {
    let head = "\r\x1b[K"@ + prompt + buffer + "\r"@;
    if column > 0 {
        head + "\x1b["@ + dec_nat(column) + "C"@
    } else {
        head
    }
}

/// A candidate padded with spaces to twenty characters, as `{:<20}` writes
/// it.
pub open spec fn padded(c: Seq<char>) -> Seq<char> {
    if c.len() < 20 {
        c + Seq::new((20 - c.len()) as nat, |_i: int| ' ')
    } else {
        c
    }
}

/// The candidates from index `i` on, four to a row.
pub open spec fn rows_from(cands: Seq<Seq<char>>, i: int) -> Seq<char>
    decreases cands.len() - i,
{
    if i < 0 || i >= cands.len() {
        seq![]
    } else {
        let end_row = (i + 1) % 4 == 0 || i + 1 == cands.len();
        padded(cands[i]) + (if end_row {
            "\r\n"@
        } else {
            seq![]
        }) + rows_from(cands, i + 1)
    }
}

/// Append a string slice.
fn append(out: &mut String, s: &str)
    ensures
        final(out)@ == old(out)@ + s@,
{
    out.push_str(s);
}

/// The bytes that redraw the prompt and the line being edited.
pub fn line(prompt: &str, editor: &Editor) -> (out: String)
    requires
        editor.wf(),
        prompt@.len() + editor@.pos <= usize::MAX,
    ensures
        out@ == line_spec(prompt@, editor@.buffer, (prompt@.len() + editor@.pos) as nat),
{
    proof {
        reveal_strlit("\r");
        reveal_strlit("\x1b[K");
        reveal_strlit("\x1b[");
        reveal_strlit("C");
        reveal_strlit("\r\x1b[K");
        assert("\r\x1b[K"@ =~= "\r"@ + "\x1b[K"@);
    }
    let mut out = String::new();
    append(&mut out, "\r");
    append(&mut out, "\x1b[K");
    append(&mut out, prompt);
    append(&mut out, editor.buffer());
    // Cursor position is counted in characters, not bytes: a byte offset would
    // put the cursor in the wrong column the moment the line contains anything
    // outside ASCII.
    let column = chars_of(prompt).len() + editor.column();
    append(&mut out, "\r");
    if column > 0 {
        append(&mut out, "\x1b[");
        push_decimal(&mut out, column as u64);
        append(&mut out, "C");
    }
    assert(out@ =~= line_spec(prompt@, editor@.buffer, (prompt@.len() + editor@.pos) as nat));
    out
}

/// The bytes that print a list of completions and then redraw the prompt.
///
/// Printed on lines of their own above a fresh prompt, four to a row, each
/// padded to twenty columns.
pub fn suggestions(prompt: &str, editor: &Editor, candidates: &[String]) -> (out: String)
    requires
        editor.wf(),
        prompt@.len() + editor@.pos <= usize::MAX,
    ensures
        out@ == "\r\n"@ + rows_from(crate::text::strings_view(candidates@), 0) + line_spec(
            prompt@,
            editor@.buffer,
            (prompt@.len() + editor@.pos) as nat,
        ),
{
    let ghost cands = crate::text::strings_view(candidates@);
    let mut out = String::new();
    append(&mut out, "\r\n");
    let ghost head = out@;
    let mut i: usize = 0;
    while i < candidates.len()
        invariant
            i <= candidates@.len(),
            cands == crate::text::strings_view(candidates@),
            head + rows_from(cands, 0) == out@ + rows_from(cands, i as int),
        decreases candidates.len() - i,
    {
        let ghost start = out@;
        let c = chars_of(candidates[i].as_str());
        assert(c@ == cands[i as int]);
        append(&mut out, candidates[i].as_str());
        let mut k: usize = c.len();
        let ghost before = out@;
        assert(out@ =~= before + Seq::new((k - c@.len()) as nat, |_i: int| ' '));
        while k < 20
            invariant
                c@.len() <= k,
                c@.len() < 20 ==> k <= 20,
                c@.len() >= 20 ==> k == c@.len(),
                out@ == before + Seq::new((k - c@.len()) as nat, |_i: int| ' '),
            decreases 20 - k,
        {
            out.push(' ');
            k = k + 1;
            assert(out@ =~= before + Seq::new((k - c@.len()) as nat, |_i: int| ' '));
        }
        if c.len() >= 20 {
            assert(out@ =~= before);
        }
        if (i + 1) % 4 == 0 || i + 1 == candidates.len() {
            proof {
                reveal_strlit("\r\n");
            }
            append(&mut out, "\r\n");
        }
        proof {
            let end_row = (i + 1) % 4 == 0 || i + 1 == cands.len();
            let nl = if end_row {
                "\r\n"@
            } else {
                Seq::<char>::empty()
            };
            assert(out@ =~= start + padded(cands[i as int]) + nl);
            assert(start + rows_from(cands, i as int) =~= out@ + rows_from(cands, i + 1));
        }
        i = i + 1;
    }
    let tail = line(prompt, editor);
    append(&mut out, tail.as_str());
    assert(rows_from(cands, i as int) =~= Seq::<char>::empty());
    assert(out@ =~= head + rows_from(cands, 0) + tail@);
    out
}

} // verus!
