//! Naming what an event loop waits for, and what it reports.

use vstd::prelude::*;

verus! {

/// A caller-chosen name for a registered descriptor.
///
/// The poller hands this back when the source is ready, so the caller can
/// tell stdin from the signal pipe without comparing descriptor numbers —
/// which would work only until a descriptor is closed and its number reused.
#[derive(Debug, Clone, Copy, PartialEq, Eq, PartialOrd, Ord, Hash, Structural)]
pub struct Token(pub u64);

/// A source that has something to say.
#[derive(Debug, Clone, Copy, PartialEq, Eq, Structural)]
pub struct Event {
    /// The name given when the source was registered.
    pub token: Token,
    /// Whether there is something to read.
    pub readable: bool,
    /// Whether the far end has gone away.
    ///
    /// Reported separately from `readable` because they are different facts:
    /// a pipe whose writer closed is readable *and* hung up, and reading it
    /// will return zero bytes rather than block.
    pub hangup: bool,
}

/// A terminal's dimensions, in character cells.
#[derive(Debug, Clone, Copy, PartialEq, Eq, Structural)]
pub struct Size {
    /// Rows, which shells call `LINES`.
    pub rows: u16,
    /// Columns, which shells call `COLUMNS`.
    pub cols: u16,
}

impl Size {
    /// What the terminal reported, if it is a size at all: a terminal that
    /// has never been sized reports zero rows or columns.
    pub fn from_report(rows: u16, cols: u16) -> (s: Option<Size>)
        ensures
            s == (if rows == 0 || cols == 0 {
                None::<Size>
            } else {
                Some(Size { rows, cols })
            }),
    {
        if rows == 0 || cols == 0 {
            None
        } else {
            Some(Size { rows, cols })
        }
    }
}

} // verus!
