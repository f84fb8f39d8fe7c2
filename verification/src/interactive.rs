//! Reading a line from a terminal: the editor's side of it.
//!
//! The terminal is put into raw mode and read by the caller, one chunk at a
//! time; each decoded keystroke comes here, and what comes back is what to
//! write to the terminal and, when the line is over, what it amounted to.

use vstd::prelude::*;
use crate::editor::{
    accepts_spec, complete_spec, completer_answered, handle_spec, ActionV, Action, Completer,
    Completion, Editor, EditorV,
};
use crate::history::{add_spec, History, HistoryV};
use crate::input::{Input, InputV};
use crate::keys::Key;
use crate::render::{line, line_spec, rows_from, suggestions, CLEAR_SCREEN};
use crate::text::strings_view;

verus! {

/// How many commands to remember.
pub const HISTORY_LIMIT: usize = 5000;

/// Where history is kept between sessions, under the home directory.
pub const HISTORY_FILE: &'static str = ".rsh_history";

/// What redraws the prompt and line, when the two are small enough to
/// address.
pub open spec fn screen(prompt: Seq<char>, e: EditorV) -> Seq<char> {
    if prompt.len() + e.pos <= usize::MAX {
        line_spec(prompt, e.buffer, (prompt.len() + e.pos) as nat)
    } else {
        seq![]
    }
}

/// What to write after a keystroke's action, with the editor as it then is.
pub open spec fn output_spec(prompt: Seq<char>, e: EditorV, a: ActionV) -> Seq<char> {
    match a {
        ActionV::Continue => screen(prompt, e),
        ActionV::Suggest(c) => if prompt.len() + e.pos <= usize::MAX {
            "\r\n"@ + rows_from(c, 0) + screen(prompt, e)
        } else {
            seq![]
        },
        ActionV::Clear => "\x1b[2J\x1b[H"@ + screen(prompt, e),
        _ => "\r\n"@,
    }
}

/// What a line amounted to, once an action ends it.
pub open spec fn input_of(a: ActionV) -> Option<InputV> {
    match a {
        ActionV::Submit(l) => Some(InputV::Line(l)),
        ActionV::Interrupted => Some(InputV::Interrupted),
        ActionV::EndOfFile => Some(InputV::EndOfFile),
        _ => None,
    }
}

/// The editor after an action: a submitted line is remembered.
pub open spec fn after_action(e: EditorV, a: ActionV) -> EditorV {
    match a {
        ActionV::Submit(l) => EditorV {
            history: HistoryV {
                entries: add_spec(e.history.entries, e.history.limit, l),
                limit: e.history.limit,
            },
            ..e
        },
        _ => e,
    }
}

/// One keystroke, as the editor's rules take it: Tab with whatever
/// `completer` answered for the line and cursor, every other key by
/// [`handle_spec`].
pub open spec fn keystroke<C: Completer>(
    completer: &C,
    e: EditorV,
    key: Key,
    e2: EditorV,
    a: ActionV,
) -> bool {
    if key == Key::Tab {
        exists|found: Completion|
            completer_answered(completer, e, found) && (e2, a) == #[trigger] complete_spec(
                e,
                found@,
            )
    } else {
        (e2, a) == handle_spec(e, key)
    }
}

/// An interactive line reader: the editor, a completer, and where history
/// is saved.
pub struct Interactive<C: Completer> {
    editor: Editor,
    completer: C,
    history_path: Option<String>,
}

impl<C: Completer> Interactive<C> {
    /// A session over the given history, saved to `history_path` if any.
    pub fn with(history: History, completer: C, history_path: Option<String>) -> (s: Self)
        ensures
            s.wf(),
            s.editor()@ == crate::editor::fresh(
                EditorV {
                    buffer: seq![],
                    pos: 0,
                    history: history@,
                    browsing: None,
                    held: seq![],
                    prefix: seq![],
                },
            ),
            *s.completer() == completer,
            s.saved_at() == match history_path {
                Some(h) => Some(h@),
                None => None::<Seq<char>>,
            },
    {
        Interactive { editor: Editor::new(history), completer, history_path }
    }

    /// The session's parts agree.
    pub closed spec fn wf(&self) -> bool {
        self.editor.wf()
    }

    /// The editor.
    pub closed spec fn editor(&self) -> &Editor {
        &self.editor
    }

    /// What Tab asks for completions.
    pub closed spec fn completer(&self) -> &C {
        &self.completer
    }

    /// The line editor, for its history.
    pub fn editor_ref(&self) -> (e: &Editor)
        ensures
            e == self.editor(),
    {
        &self.editor
    }

    /// Where history is saved, if anywhere.
    pub closed spec fn saved_at(&self) -> Option<Seq<char>> {
        match self.history_path {
            Some(h) => Some(h@),
            None => None,
        }
    }

    /// Where history is saved, if anywhere.
    pub fn history_path(&self) -> (p: Option<&str>)
        ensures
            p matches Some(s) ==> self.saved_at() == Some(s@),
            p is None ==> self.saved_at() is None,
    {
        match &self.history_path {
            Some(h) => Some(h.as_str()),
            None => None,
        }
    }

    /// Start a line: a fresh buffer over the same history, and the prompt
    /// drawn.
    pub fn begin(&mut self, prompt: &str) -> (out: String)
        requires
            old(self).wf(),
        ensures
            final(self).wf(),
            final(self).editor()@ == crate::editor::fresh(old(self).editor()@),
            out@ == screen(prompt@, final(self).editor()@),
    {
        self.editor.reset();
        self.redraw(prompt)
    }

    /// The bytes that redraw the prompt and line.
    fn redraw(&self, prompt: &str) -> (out: String)
        requires
            self.wf(),
        ensures
            out@ == screen(prompt@, self.editor()@),
    {
        let n = crate::text::chars_of(prompt).len();
        if n <= usize::MAX - self.editor.column() {
            line(prompt, &self.editor)
        } else {
            String::new()
        }
    }

    /// Take one keystroke: what to write, and what the line amounted to if
    /// it is over. A character that would make the line too long to hold is
    /// ignored.
    pub fn respond(&mut self, prompt: &str, key: Key) -> (r: (String, Option<Input>))
        requires
            old(self).wf(),
        ensures
            final(self).wf(),
            !accepts_spec(old(self).editor()@, key) ==> r.0@.len() == 0 && r.1 is None
                && final(self).editor()@ == old(self).editor()@,
            accepts_spec(old(self).editor()@, key) ==> exists|e2: EditorV, a: ActionV|
                #[trigger] keystroke(old(self).completer(), old(self).editor()@, key, e2, a)
                    && final(self).completer() == old(self).completer() && final(self).editor()@
                    == after_action(e2, a) && r.0@ == output_spec(prompt@, e2, a) && match r.1 {
                    Some(i) => input_of(a) == Some(i@),
                    None => input_of(a) is None,
                },
    {
        if !self.editor.accepts(key) {
            return (String::new(), None);
        }
        let ghost e0 = self.editor@;
        proof {
            self.editor.lemma_wf_fits();
        }
        let action = self.editor.handle(key, &self.completer);
        let ghost e2 = self.editor@;
        let ghost a = action@;
        assert(keystroke(&self.completer, e0, key, e2, a));
        assert(self.completer == old(self).completer);
        assert(keystroke(old(self).completer(), e0, key, e2, a));
        match action {
            Action::Continue => {
                let out = self.redraw(prompt);
                (out, None)
            },
            Action::Suggest(candidates) => {
                let n = crate::text::chars_of(prompt).len();
                if n <= usize::MAX - self.editor.column() {
                    let out = suggestions(prompt, &self.editor, candidates.as_slice());
                    (out, None)
                } else {
                    (String::new(), None)
                }
            },
            Action::Clear => {
                let mut out = CLEAR_SCREEN.to_owned();
                let rest = self.redraw(prompt);
                out.push_str(rest.as_str());
                proof {
                    reveal_strlit("\x1b[2J\x1b[H");
                }
                (out, None)
            },
            Action::Submit(text) => {
                // In raw mode the terminal did not echo the Enter, so the
                // newline is written here.
                assert(text@ == e0.buffer);
                self.editor.remember(text.as_str());
                proof {
                    reveal_strlit("\r\n");
                }
                ("\r\n".to_owned(), Some(Input::Line(text)))
            },
            Action::Interrupted => {
                proof {
                    reveal_strlit("\r\n");
                }
                ("\r\n".to_owned(), Some(Input::Interrupted))
            },
            Action::EndOfFile => {
                proof {
                    reveal_strlit("\r\n");
                }
                ("\r\n".to_owned(), Some(Input::EndOfFile))
            },
        }
    }
}

} // verus!
