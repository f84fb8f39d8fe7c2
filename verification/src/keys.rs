//! Turning bytes into keystrokes.
//!
//! In raw mode a terminal delivers bytes, and a keypress may be one byte or
//! six. Arrow keys, Home, End, and Delete arrive as **escape sequences** — an
//! `ESC`, usually a `[`, then some parameters and a final letter. There is no
//! length prefix and no framing; the only way to know a sequence has ended is
//! to recognise its last byte.
//!
//! The decoder is fed a buffer and reports how much it consumed, so an
//! incomplete sequence simply stays in the buffer until more bytes arrive.
//! No timers, no guessing.

use vstd::prelude::*;
use vstd::utf8::{decode_utf8, valid_utf8};
use crate::text::chars_of;

verus! {

/// Something the user pressed.
#[derive(Debug, Clone, Copy, PartialEq, Eq, Structural)]
pub enum Key {
    /// An ordinary character.
    Char(char),
    /// Enter.
    Enter,
    /// Backspace, or Ctrl-H.
    Backspace,
    /// The Delete key, which removes forwards.
    Delete,
    Left,
    Right,
    Up,
    Down,
    Home,
    End,
    Tab,
    /// Ctrl with a letter, normalised to lowercase.
    Control(char),
    /// Escape pressed on its own.
    Escape,
}

/// How much of the buffer a decode consumed.
#[derive(Debug, Clone, Copy, PartialEq, Eq, Structural)]
pub enum Decoded {
    /// A complete keystroke, and the bytes it used.
    Key(Key, usize),
    /// The buffer holds the start of a sequence but not all of it.
    Incomplete,
    /// The buffer is empty.
    Empty,
}

// ---- the decoding, as functions of the bytes --------------------------------

/// How many bytes a UTF-8 sequence starting with this byte occupies: one for
/// a byte that cannot start a sequence.
pub open spec fn utf8_width_spec(first: u8) -> nat {
    if first <= 0x7f {
        1
    } else if 0xc0 <= first <= 0xdf {
        2
    } else if 0xe0 <= first <= 0xef {
        3
    } else if 0xf0 <= first <= 0xf7 {
        4
    } else {
        1
    }
}

/// A character at the front of the buffer. Bytes that are not UTF-8 become
/// U+FFFD, one byte at a time, so the editor keeps moving.
pub open spec fn character_spec(b: Seq<u8>) -> Decoded {
    let w = utf8_width_spec(b[0]);
    if b.len() < w {
        Decoded::Incomplete
    } else if valid_utf8(b.take(w as int)) {
        let cs = decode_utf8(b.take(w as int));
        if cs.len() > 0 {
            Decoded::Key(Key::Char(cs[0]), w as usize)
        } else {
            Decoded::Key(Key::Char('\u{fffd}'), w as usize)
        }
    } else {
        Decoded::Key(Key::Char('\u{fffd}'), 1)
    }
}

/// The key a `ESC [ n ~` sequence names, by its parameter bytes.
pub open spec fn tilde_key(params: Seq<u8>) -> Option<Key> {
    if params == seq![0x31u8] || params == seq![0x37u8] {
        Some(Key::Home)
    } else if params == seq![0x33u8] {
        Some(Key::Delete)
    } else if params == seq![0x34u8] || params == seq![0x38u8] {
        Some(Key::End)
    } else {
        None
    }
}

/// A `ESC [ ...` sequence: parameters are digits and semicolons, and the
/// first other byte ends it.
pub open spec fn csi_from(b: Seq<u8>, i: int) -> Decoded
    decreases b.len() - i,
{
    if i >= b.len() {
        Decoded::Incomplete
    } else {
        let byte = b[i];
        if (0x30 <= byte <= 0x39) || byte == 0x3b {
            csi_from(b, i + 1)
        } else {
            let used = (i + 1) as usize;
            if byte == 0x41 {
                Decoded::Key(Key::Up, used)
            } else if byte == 0x42 {
                Decoded::Key(Key::Down, used)
            } else if byte == 0x43 {
                Decoded::Key(Key::Right, used)
            } else if byte == 0x44 {
                Decoded::Key(Key::Left, used)
            } else if byte == 0x48 {
                Decoded::Key(Key::Home, used)
            } else if byte == 0x46 {
                Decoded::Key(Key::End, used)
            } else if byte == 0x7e {
                match tilde_key(b.subrange(2, i)) {
                    Some(k) => Decoded::Key(k, used),
                    None => Decoded::Key(Key::Escape, used),
                }
            } else {
                Decoded::Key(Key::Escape, used)
            }
        }
    }
}

/// An escape sequence: CSI, SS3 arrows, or a lone or Alt-style Escape.
pub open spec fn escape_spec(b: Seq<u8>) -> Decoded {
    if b.len() < 2 {
        Decoded::Incomplete
    } else if b[1] == 0x5b {
        csi_from(b, 2)
    } else if b[1] == 0x4f {
        if b.len() < 3 {
            Decoded::Incomplete
        } else if b[2] == 0x41 {
            Decoded::Key(Key::Up, 3)
        } else if b[2] == 0x42 {
            Decoded::Key(Key::Down, 3)
        } else if b[2] == 0x43 {
            Decoded::Key(Key::Right, 3)
        } else if b[2] == 0x44 {
            Decoded::Key(Key::Left, 3)
        } else if b[2] == 0x48 {
            Decoded::Key(Key::Home, 3)
        } else if b[2] == 0x46 {
            Decoded::Key(Key::End, 3)
        } else {
            Decoded::Key(Key::Escape, 1)
        }
    } else {
        Decoded::Key(Key::Escape, 1)
    }
}

/// The keystroke at the front of a byte buffer.
pub open spec fn decode_spec(b: Seq<u8>) -> Decoded {
    if b.len() == 0 {
        Decoded::Empty
    } else {
        let first = b[0];
        if first == 0x1b {
            escape_spec(b)
        } else if first == 0x0d || first == 0x0a {
            Decoded::Key(Key::Enter, 1)
        } else if first == 0x09 {
            Decoded::Key(Key::Tab, 1)
        } else if first == 0x7f || first == 0x08 {
            Decoded::Key(Key::Backspace, 1)
        } else if first < 0x20 {
            // Control characters are the letter with the top three bits
            // cleared, which is why Ctrl-A is 1 and Ctrl-Z is 26.
            Decoded::Key(Key::Control(((first + 0x60) as u8) as char), 1)
        } else {
            character_spec(b)
        }
    }
}

// ---- what the decoder promises -------------------------------------------------

proof fn lemma_csi_from(b: Seq<u8>, more: Seq<u8>, i: int)
    requires
        2 <= i,
        b.len() <= usize::MAX,
    ensures
        csi_from(b, i) matches Decoded::Key(_, n) ==> i < n <= b.len() && csi_from(b + more, i)
            == csi_from(b, i),
        csi_from(b, i) is Incomplete || csi_from(b, i) is Key,
    decreases b.len() - i,
{
    if i < b.len() {
        let c = b + more;
        assert(c[i] == b[i]);
        if (0x30 <= b[i] <= 0x39) || b[i] == 0x3b {
            lemma_csi_from(b, more, i + 1);
        } else {
            assert(c.subrange(2, i) =~= b.subrange(2, i));
        }
    }
}

/// A keystroke is decided by its own bytes, and uses at least one of them
/// and no more than there are: whatever arrives after it cannot change it,
/// so the caller may drop the bytes it used and decode the rest.
pub proof fn law_a_keystroke_is_decided_by_its_own_bytes(b: Seq<u8>, more: Seq<u8>)
    requires
        b.len() <= usize::MAX,
    ensures
        decode_spec(b) matches Decoded::Key(_, n) ==> 1 <= n <= b.len() && decode_spec(b + more)
            == decode_spec(b),
        decode_spec(b) is Empty <==> b.len() == 0,
{
    let c = b + more;
    if b.len() > 0 {
        assert(c[0] == b[0]);
        if b[0] == 0x1b {
            if b.len() >= 2 {
                assert(c[1] == b[1]);
                if b.len() >= 3 {
                    assert(c[2] == b[2]);
                }
                lemma_csi_from(b, more, 2);
            }
        } else {
            let w = utf8_width_spec(b[0]);
            if b.len() >= w {
                assert(c.take(w as int) =~= b.take(w as int));
            }
        }
    }
}

/// The final bytes of the cursor keys: `A` up, `B` down, `C` right, `D`
/// left, `H` home, `F` end.
pub open spec fn cursor_final(x: u8) -> bool {
    x == 0x41 || x == 0x42 || x == 0x43 || x == 0x44 || x == 0x48 || x == 0x46
}

/// A cursor key reads the same in application mode (`ESC O x`) as in normal
/// mode (`ESC [ x`), whatever follows, and uses three bytes; and different
/// cursor keys are different keys.
pub proof fn law_cursor_keys_read_alike_in_both_modes(x: u8, y: u8, more: Seq<u8>)
    requires
        cursor_final(x),
        cursor_final(y),
    ensures
        decode_spec(seq![0x1bu8, 0x4fu8, x] + more) == decode_spec(seq![0x1bu8, 0x5bu8, x] + more),
        decode_spec(seq![0x1bu8, 0x5bu8, x] + more) is Key,
        decode_spec(seq![0x1bu8, 0x5bu8, x] + more)->Key_1 == 3,
        x != y ==> decode_spec(seq![0x1bu8, 0x5bu8, x])->Key_0 != decode_spec(
            seq![0x1bu8, 0x5bu8, y],
        )->Key_0,
{
    let a = seq![0x1bu8, 0x4fu8, x] + more;
    let b = seq![0x1bu8, 0x5bu8, x] + more;
    assert(a[0] == 0x1b && a[1] == 0x4f && a[2] == x);
    assert(b[0] == 0x1b && b[1] == 0x5b && b[2] == x);
    assert(csi_from(b, 2) == csi_from(b, 2));
    let c = seq![0x1bu8, 0x5bu8, x];
    let d = seq![0x1bu8, 0x5bu8, y];
    assert(c[2] == x && d[2] == y);
}

// ---- the decoder ------------------------------------------------------------

/// `std::str::from_utf8`, with the text as characters.
///
/// The standard library documents that it succeeds exactly when the bytes
/// are valid UTF-8, and then the text is what they encode; `valid_utf8` and
/// `decode_utf8` are vstd's statement of both.
#[verifier::external_body]
fn utf8_text(bytes: &[u8]) -> (r: Option<String>)
    ensures
        r is Some <==> valid_utf8(bytes@),
        r matches Some(s) ==> s@ == decode_utf8(bytes@),
{
    match std::str::from_utf8(bytes) {
        Ok(text) => Some(text.to_owned()),
        Err(_) => None,
    }
}

/// How many bytes a UTF-8 sequence starting with this byte occupies.
fn utf8_width(first: u8) -> (w: usize)
    ensures
        w == utf8_width_spec(first),
{
    if first <= 0x7f {
        1
    } else if 0xc0 <= first && first <= 0xdf {
        2
    } else if 0xe0 <= first && first <= 0xef {
        3
    } else if 0xf0 <= first && first <= 0xf7 {
        4
    } else {
        // A continuation byte with no lead. Treat it as one byte and move on.
        1
    }
}

/// Decode a UTF-8 character, which may span several bytes.
fn character(bytes: &[u8]) -> (d: Decoded)
    requires
        bytes@.len() > 0,
    ensures
        d == character_spec(bytes@),
{
    let width = utf8_width(bytes[0]);
    if bytes.len() < width {
        return Decoded::Incomplete;
    }
    let (head, _) = bytes.split_at(width);
    assert(head@ =~= bytes@.take(width as int));
    match utf8_text(head) {
        Some(text) => {
            let chars = chars_of(text.as_str());
            if chars.len() > 0 {
                Decoded::Key(Key::Char(chars[0]), width)
            } else {
                Decoded::Key(Key::Char('\u{fffd}'), width)
            }
        },
        // Not valid UTF-8. Consuming one byte keeps the editor moving rather
        // than wedging on input it cannot interpret.
        None => Decoded::Key(Key::Char('\u{fffd}'), 1),
    }
}

/// Whether a byte may appear among a CSI sequence's parameters.
fn is_csi_parameter(byte: u8) -> (b: bool)
    ensures
        b == ((0x30 <= byte <= 0x39) || byte == 0x3b),
{
    (0x30 <= byte && byte <= 0x39) || byte == 0x3b
}

/// The key a `ESC [ n ~` sequence names.
fn tilde(params: &[u8]) -> (k: Option<Key>)
    ensures
        k == tilde_key(params@),
{
    if params.len() == 1 {
        let p = params[0];
        assert(params@ =~= seq![p]);
        if p == 0x31 || p == 0x37 {
            Some(Key::Home)
        } else if p == 0x33 {
            Some(Key::Delete)
        } else if p == 0x34 || p == 0x38 {
            Some(Key::End)
        } else {
            assert(params@ != seq![0x31u8] && params@ != seq![0x37u8]);
            assert(params@ != seq![0x33u8] && params@ != seq![0x34u8] && params@ != seq![0x38u8]);
            None
        }
    } else {
        assert(params@.len() != 1);
        None
    }
}

/// Decode a `ESC [ ...` sequence.
fn csi(bytes: &[u8]) -> (d: Decoded)
    requires
        bytes@.len() >= 2,
    ensures
        d == csi_from(bytes@, 2),
{
    let mut index: usize = 2;
    while index < bytes.len()
        invariant
            2 <= index <= bytes@.len(),
            csi_from(bytes@, 2) == csi_from(bytes@, index as int),
        decreases bytes.len() - index,
    {
        let byte = bytes[index];
        if is_csi_parameter(byte) {
            index = index + 1;
        } else {
            let used = index + 1;
            let key = if byte == 0x41 {
                Key::Up
            } else if byte == 0x42 {
                Key::Down
            } else if byte == 0x43 {
                Key::Right
            } else if byte == 0x44 {
                Key::Left
            } else if byte == 0x48 {
                Key::Home
            } else if byte == 0x46 {
                Key::End
            } else if byte == 0x7e {
                // `ESC [ n ~` — the number says which key.
                let (_, rest) = bytes.split_at(2);
                let (params, _) = rest.split_at(index - 2);
                assert(params@ =~= bytes@.subrange(2, index as int));
                match tilde(params) {
                    Some(k) => k,
                    None => {
                        return Decoded::Key(Key::Escape, used);
                    },
                }
            } else {
                return Decoded::Key(Key::Escape, used);
            };
            return Decoded::Key(key, used);
        }
    }
    Decoded::Incomplete
}

/// Decode an escape sequence.
fn escape(bytes: &[u8]) -> (d: Decoded)
    requires
        bytes@.len() >= 1,
    ensures
        d == escape_spec(bytes@),
{
    if bytes.len() < 2 {
        // `ESC` on its own, so far. A lone Escape is only knowable once input
        // stops arriving, and that is the caller's decision.
        Decoded::Incomplete
    } else if bytes[1] == 0x5b {
        csi(bytes)
    } else if bytes[1] == 0x4f {
        // SS3, used by some terminals for arrows in application mode.
        if bytes.len() < 3 {
            Decoded::Incomplete
        } else {
            let b = bytes[2];
            if b == 0x41 {
                Decoded::Key(Key::Up, 3)
            } else if b == 0x42 {
                Decoded::Key(Key::Down, 3)
            } else if b == 0x43 {
                Decoded::Key(Key::Right, 3)
            } else if b == 0x44 {
                Decoded::Key(Key::Left, 3)
            } else if b == 0x48 {
                Decoded::Key(Key::Home, 3)
            } else if b == 0x46 {
                Decoded::Key(Key::End, 3)
            } else {
                Decoded::Key(Key::Escape, 1)
            }
        }
    } else {
        // Escape followed by something else — Alt-key on many terminals.
        Decoded::Key(Key::Escape, 1)
    }
}

/// Read one keystroke from the front of a byte buffer.
pub fn decode(bytes: &[u8]) -> (d: Decoded)
    ensures
        d == decode_spec(bytes@),
{
    if bytes.len() == 0 {
        return Decoded::Empty;
    }
    let first = bytes[0];
    if first == 0x1b {
        escape(bytes)
    } else if first == 0x0d || first == 0x0a {
        Decoded::Key(Key::Enter, 1)
    } else if first == 0x09 {
        Decoded::Key(Key::Tab, 1)
    } else if first == 0x7f || first == 0x08 {
        // Both are "backspace" in practice: terminals disagree about which
        // one the key sends, and every program treats them alike.
        Decoded::Key(Key::Backspace, 1)
    } else if first < 0x20 {
        Decoded::Key(Key::Control((first + 0x60) as char), 1)
    } else {
        character(bytes)
    }
}

} // verus!
