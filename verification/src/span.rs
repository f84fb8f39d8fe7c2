//! Byte ranges into the source line.
//!
//! Every token, word, and error carries one, so the shell can underline the
//! exact characters it is complaining about.

use vstd::prelude::*;
use crate::text::{
    boundary_offsets, byte_offset, chars_of, dec_nat, fits, lemma_offset_strict, push_decimal,
};

verus! {

/// A half-open byte range `[start, end)` in the input line.
#[derive(Debug, Clone, Copy, PartialEq, Eq, Structural)]
pub struct Span {
    /// Byte offset of the first character.
    pub start: usize,
    /// Byte offset one past the last character.
    pub end: usize,
}

/// Whether byte offset `b` falls between two characters of `s` (or at either
/// end).
pub open spec fn is_boundary(s: Seq<char>, b: int) -> bool {
    exists|i: int| 0 <= i <= s.len() && byte_offset(s, i) == b
}

/// The characters between two byte offsets, when both are boundaries.
pub open spec fn slice_spec(s: Seq<char>, start: int, end: int) -> Option<Seq<char>> {
    if start <= end && is_boundary(s, start) && is_boundary(s, end) {
        let i = choose|i: int| 0 <= i <= s.len() && byte_offset(s, i) == start;
        let j = choose|j: int| 0 <= j <= s.len() && byte_offset(s, j) == end;
        Some(s.subrange(i, j))
    } else {
        None
    }
}

/// The smallest span covering both.
pub open spec fn join(a: Span, b: Span) -> Span {
    Span {
        start: if a.start <= b.start {
            a.start
        } else {
            b.start
        },
        end: if a.end >= b.end {
            a.end
        } else {
            b.end
        },
    }
}

/// Joining spans does not depend on their order, and covers both.
pub proof fn law_join_covers_both_in_either_order(a: Span, b: Span)
    ensures
        join(a, b) == join(b, a),
        join(a, b).start <= a.start && join(a, b).start <= b.start,
        join(a, b).end >= a.end && join(a, b).end >= b.end,
{
}

impl Span {
    /// A span covering `[start, end)`.
    pub fn new(start: usize, end: usize) -> (s: Self)
        requires
            start <= end,
        ensures
            s == (Span { start, end }),
    {
        Self { start, end }
    }

    /// A zero-width span, used to point at a place where something is missing.
    pub fn empty(at: usize) -> (s: Self)
        ensures
            s == (Span { start: at, end: at }),
    {
        Self { start: at, end: at }
    }

    /// The smallest span covering both.
    pub fn to(self, other: Self) -> (s: Self)
        ensures
            s == join(self, other),
    {
        Self {
            start: if self.start <= other.start { self.start } else { other.start },
            end: if self.end >= other.end { self.end } else { other.end },
        }
    }

    /// The span as `start..end`.
    pub fn text(self) -> (s: String)
        ensures
            s@ == dec_nat(self.start as nat) + ".."@ + dec_nat(self.end as nat),
    {
        let mut s = String::new();
        push_decimal(&mut s, self.start as u64);
        s.push_str("..");
        push_decimal(&mut s, self.end as u64);
        s
    }

    /// Width in bytes.
    pub fn len(self) -> (n: usize)
        requires
            self.start <= self.end,
        ensures
            n == self.end - self.start,
    {
        self.end - self.start
    }

    /// Whether the span covers no characters.
    pub fn is_empty(self) -> (b: bool)
        ensures
            b == (self.start == self.end),
    {
        self.start == self.end
    }

    /// The text this span refers to, if it is in range and on character
    /// boundaries.
    pub fn slice(self, source: &str) -> (r: Option<&str>)
        requires
            fits(source@),
        ensures
            r is Some == (slice_spec(source@, self.start as int, self.end as int) is Some),
            r matches Some(t) ==> t@ == slice_spec(
                source@,
                self.start as int,
                self.end as int,
            ).unwrap(),
    {
        let chars = chars_of(source);
        let offs = boundary_offsets(&chars);
        if self.start > self.end {
            return None;
        }
        let i = match index_of_offset(&offs, self.start) {
            Some(i) => i,
            None => {
                return None;
            },
        };
        let j = match index_of_offset(&offs, self.end) {
            Some(j) => j,
            None => {
                return None;
            },
        };
        proof {
            let s = source@;
            assert(is_boundary(s, self.start as int));
            assert(is_boundary(s, self.end as int));
            let ci = choose|k: int| 0 <= k <= s.len() && byte_offset(s, k) == self.start;
            let cj = choose|k: int| 0 <= k <= s.len() && byte_offset(s, k) == self.end;
            lemma_offset_unique(s, i as int, ci);
            lemma_offset_unique(s, j as int, cj);
            if j < i {
                lemma_offset_strict(s, j as int, i as int);
            }
        }
        Some(source.substring_char(i, j))
    }
}

/// Two character indices with the same byte offset are the same index.
pub proof fn lemma_offset_unique(s: Seq<char>, i: int, j: int)
    requires
        0 <= i <= s.len(),
        0 <= j <= s.len(),
        byte_offset(s, i) == byte_offset(s, j),
    ensures
        i == j,
{
    if i < j {
        lemma_offset_strict(s, i, j);
    } else if j < i {
        lemma_offset_strict(s, j, i);
    }
}

/// The character index whose byte offset is `b`, if there is one.
fn index_of_offset(offs: &Vec<usize>, b: usize) -> (r: Option<usize>)
    ensures
        match r {
            Some(i) => i < offs@.len() && offs@[i as int] == b,
            None => forall|k: int| 0 <= k < offs@.len() ==> offs@[k] != b,
        },
{
    let mut k: usize = 0;
    while k < offs.len()
        invariant
            k <= offs@.len(),
            forall|m: int| 0 <= m < k ==> offs@[m] != b,
        decreases offs.len() - k,
    {
        if offs[k] == b {
            return Some(k);
        }
        k = k + 1;
    }
    None
}

} // verus!
