//! Splitting input into lines.
//!
//! A `read` on a pipe returns whatever is available — which may be several
//! lines, or half of one — so the reader owns the line buffering. The bytes
//! come from whoever reads the descriptor; this keeps what has arrived and
//! says what it amounts to.

use vstd::prelude::*;
use vstd::utf8::{decode_utf8, valid_utf8};

verus! {

/// What a read produced.
#[derive(Debug, Clone, PartialEq, Eq)]
pub enum Input {
    /// A line, without its trailing newline.
    Line(String),
    /// A signal arrived; the partial line, if any, has been discarded.
    Interrupted,
    /// End of input — Ctrl-D, or the end of a script.
    EndOfFile,
}

/// What an [`Input`] says.
pub enum InputV {
    Line(Seq<char>),
    Interrupted,
    EndOfFile,
}

impl View for Input {
    type V = InputV;

    open spec fn view(&self) -> InputV {
        match self {
            Input::Line(s) => InputV::Line(s@),
            Input::Interrupted => InputV::Interrupted,
            Input::EndOfFile => InputV::EndOfFile,
        }
    }
}

/// The text `String::from_utf8_lossy` makes of some bytes: every maximal
/// invalid sequence replaced by U+FFFD.
pub uninterp spec fn lossy_text(bytes: Seq<u8>) -> Seq<char>;

/// `String::from_utf8_lossy`, owned.
///
/// The result is named [`lossy_text`]; the standard library documents that
/// valid UTF-8 comes back unchanged, which is the one fact stated of it.
#[verifier::external_body]
fn lossy(bytes: &[u8]) -> (s: String)
    ensures
        s@ == lossy_text(bytes@),
        valid_utf8(bytes@) ==> s@ == decode_utf8(bytes@),
{
    String::from_utf8_lossy(bytes).into_owned()
}

/// The text of a line's bytes: their decoding where they are valid UTF-8,
/// and otherwise what `String::from_utf8_lossy` makes of them.
pub open spec fn line_text(bytes: Seq<u8>) -> Seq<char> {
    if valid_utf8(bytes) {
        decode_utf8(bytes)
    } else {
        lossy_text(bytes)
    }
}

/// The index of the first newline byte.
pub open spec fn first_newline(b: Seq<u8>, i: int) -> Option<int>
    decreases b.len() - i,
{
    if i < 0 || i >= b.len() {
        None
    } else if b[i] == 0x0a {
        Some(i)
    } else {
        first_newline(b, i + 1)
    }
}

/// What a [`Reader`] holds: bytes not yet returned as a line, and whether
/// the input has ended.
pub struct ReaderV {
    pub pending: Seq<u8>,
    pub finished: bool,
}

/// The next input the buffered bytes amount to, and what stays buffered: a
/// complete line if there is one; at the end of input, the last unterminated
/// line or the end itself; otherwise nothing until more bytes arrive.
pub open spec fn poll_spec(r: ReaderV) -> (ReaderV, Option<InputV>) {
    match first_newline(r.pending, 0) {
        Some(i) => (
            ReaderV { pending: r.pending.skip(i + 1), finished: r.finished },
            Some(InputV::Line(line_text(r.pending.take(i)))),
        ),
        None => if r.finished {
            if r.pending.len() == 0 {
                (r, Some(InputV::EndOfFile))
            } else {
                (
                    ReaderV { pending: seq![], finished: true },
                    Some(InputV::Line(line_text(r.pending))),
                )
            }
        } else {
            (r, None)
        },
    }
}

proof fn lemma_first_newline_after(l: Seq<u8>, rest: Seq<u8>, i: int)
    requires
        0 <= i <= l.len(),
        forall|k: int| 0 <= k < l.len() ==> #[trigger] l[k] != 0x0a,
    ensures
        first_newline(l + seq![0x0au8] + rest, i) == Some(l.len() as int),
    decreases l.len() - i,
{
    let b = l + seq![0x0au8] + rest;
    if i < l.len() {
        assert(b[i] == l[i]);
        lemma_first_newline_after(l, rest, i + 1);
    } else {
        assert(b[i] == 0x0au8);
    }
}

/// A line comes back as it was fed, whatever follows it, and only what
/// follows it stays buffered: an empty line is a line, and nothing is lost
/// or run together.
pub proof fn law_a_fed_line_comes_back(l: Seq<u8>, rest: Seq<u8>, finished: bool)
    requires
        forall|k: int| 0 <= k < l.len() ==> #[trigger] l[k] != 0x0a,
    ensures
        poll_spec(ReaderV { pending: l + seq![0x0au8] + rest, finished }) == (
            ReaderV { pending: rest, finished },
            Some(InputV::Line(line_text(l))),
        ),
{
    let b = l + seq![0x0au8] + rest;
    lemma_first_newline_after(l, rest, 0);
    assert(b.take(l.len() as int) =~= l);
    assert(b.skip(l.len() as int + 1) =~= rest);
}

/// A line-oriented reader, fed bytes by whoever reads the descriptor.
#[derive(Debug)]
pub struct Reader {
    pending: Vec<u8>,
    finished: bool,
}

impl View for Reader {
    type V = ReaderV;

    closed spec fn view(&self) -> ReaderV {
        ReaderV { pending: self.pending@, finished: self.finished }
    }
}

impl Reader {
    /// A reader with nothing read yet.
    pub fn new() -> (r: Self)
        ensures
            r@.pending.len() == 0,
            !r@.finished,
    {
        Reader { pending: Vec::new(), finished: false }
    }

    /// A reader holding these bytes, with the input ended if `finished`.
    pub fn buffered(pending: Vec<u8>, finished: bool) -> (r: Self)
        ensures
            r@.pending == pending@,
            r@.finished == finished,
    {
        Reader { pending, finished }
    }

    /// Bytes that arrived.
    pub fn feed(&mut self, bytes: &[u8])
        ensures
            final(self)@.pending == old(self)@.pending + bytes@,
            final(self)@.finished == old(self)@.finished,
    {
        let mut i: usize = 0;
        let ghost before = self.pending@;
        while i < bytes.len()
            invariant
                i <= bytes@.len(),
                self.pending@ == before + bytes@.take(i as int),
                self.finished == old(self).finished,
            decreases bytes.len() - i,
        {
            self.pending.push(bytes[i]);
            i = i + 1;
            assert(self.pending@ =~= before + bytes@.take(i as int));
        }
        assert(bytes@.take(i as int) =~= bytes@);
    }

    /// The input has ended.
    pub fn finish(&mut self)
        ensures
            final(self)@.pending == old(self)@.pending,
            final(self)@.finished,
    {
        self.finished = true;
    }

    /// A signal arrived: whatever had been typed is abandoned, which is
    /// what Ctrl-C means.
    pub fn interrupt(&mut self) -> (i: Input)
        ensures
            final(self)@.pending.len() == 0,
            final(self)@.finished == old(self)@.finished,
            i == Input::Interrupted,
    {
        self.pending = Vec::new();
        Input::Interrupted
    }

    /// The next input the buffered bytes amount to, if any yet.
    pub fn poll(&mut self) -> (r: Option<Input>)
        ensures
            (final(self)@, match r {
                Some(x) => Some(x@),
                None => None,
            }) == poll_spec(old(self)@),
    {
        match self.take_line() {
            Some(line) => {
                return Some(Input::Line(line));
            },
            None => {},
        }
        if self.finished {
            // A last line with no trailing newline is still a line.
            if self.pending.len() == 0 {
                Some(Input::EndOfFile)
            } else {
                let line = lossy(self.pending.as_slice());
                self.pending = Vec::new();
                assert(self@.pending =~= Seq::<u8>::empty());
                Some(Input::Line(line))
            }
        } else {
            None
        }
    }

    /// Split off a complete line, if one is buffered.
    fn take_line(&mut self) -> (r: Option<String>)
        ensures
            match first_newline(old(self)@.pending, 0) {
                Some(i) => r matches Some(s) && s@ == line_text(old(self)@.pending.take(i))
                    && final(self)@ == (ReaderV {
                    pending: old(self)@.pending.skip(i + 1),
                    finished: old(self)@.finished,
                }),
                None => r is None && final(self)@ == old(self)@,
            },
    {
        let ghost p = self.pending@;
        let mut i: usize = 0;
        while i < self.pending.len() && self.pending[i] != 0x0a
            invariant
                i <= self.pending@.len(),
                p == self.pending@,
                first_newline(p, 0) == first_newline(p, i as int),
            decreases self.pending.len() - i,
        {
            i = i + 1;
        }
        if i >= self.pending.len() {
            return None;
        }
        let (head, tail) = self.pending.as_slice().split_at(i);
        let line = lossy(head);
        let (_, rest) = tail.split_at(1);
        let mut kept: Vec<u8> = Vec::new();
        let mut k: usize = 0;
        while k < rest.len()
            invariant
                k <= rest@.len(),
                kept@ == rest@.take(k as int),
            decreases rest.len() - k,
        {
            kept.push(rest[k]);
            k = k + 1;
            assert(kept@ =~= rest@.take(k as int));
        }
        assert(head@ =~= p.take(i as int));
        assert(kept@ =~= p.skip(i + 1));
        self.pending = kept;
        Some(line)
    }
}

} // verus!
