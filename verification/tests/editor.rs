use rsh::editor::{Action, Completer, Completion, Editor, NoCompletion};
use rsh::history::History;
use rsh::keys::Key;

/// An editor with the given history, oldest first.
fn editor(history: &[&str]) -> Editor {
    let mut past = History::new(100);
    for line in history {
        past.add(line);
    }
    Editor::new(past)
}

/// Type a sequence of keys, returning the last action.
fn press(editor: &mut Editor, keys: &[Key]) -> Action {
    let mut last = Action::Continue;
    for key in keys {
        last = editor.handle(*key, &NoCompletion);
    }
    last
}

/// Type a string of ordinary characters.
fn type_in(editor: &mut Editor, text: &str) {
    for c in text.chars() {
        editor.handle(Key::Char(c), &NoCompletion);
    }
}

// ---- typing and movement -----------------------------------------------

#[test]
fn characters_land_where_the_cursor_is() {
    let mut editor = editor(&[]);
    type_in(&mut editor, "helo");
    press(&mut editor, &[Key::Left]);
    type_in(&mut editor, "l");
    assert_eq!(editor.buffer(), "hello");
}

#[test]
fn backspace_removes_the_character_before_the_cursor() {
    let mut editor = editor(&[]);
    type_in(&mut editor, "hello");
    press(&mut editor, &[Key::Backspace]);
    assert_eq!(editor.buffer(), "hell");
}

#[test]
fn backspace_at_the_start_does_nothing() {
    let mut editor = editor(&[]);
    type_in(&mut editor, "hi");
    press(&mut editor, &[Key::Home, Key::Backspace]);
    assert_eq!(editor.buffer(), "hi");
    assert_eq!(editor.cursor(), 0);
}

#[test]
fn delete_removes_forwards() {
    let mut editor = editor(&[]);
    type_in(&mut editor, "hello");
    press(&mut editor, &[Key::Home, Key::Delete]);
    assert_eq!(editor.buffer(), "ello");
}

#[test]
fn multibyte_characters_move_and_delete_as_one() {
    // The cursor is a byte offset, so anything that steps by one byte
    // would split a character and panic on the next slice.
    let mut editor = editor(&[]);
    type_in(&mut editor, "héllo");
    press(&mut editor, &[Key::Home, Key::Right, Key::Right]);
    assert_eq!(editor.cursor(), 3, "past h and é");
    press(&mut editor, &[Key::Backspace]);
    assert_eq!(editor.buffer(), "hllo");
}

#[test]
fn home_and_end_go_to_the_ends() {
    let mut editor = editor(&[]);
    type_in(&mut editor, "hello");
    press(&mut editor, &[Key::Home]);
    assert_eq!(editor.cursor(), 0);
    press(&mut editor, &[Key::End]);
    assert_eq!(editor.cursor(), 5);
}

#[test]
fn control_a_and_e_are_home_and_end() {
    let mut editor = editor(&[]);
    type_in(&mut editor, "hello");
    press(&mut editor, &[Key::Control('a')]);
    assert_eq!(editor.cursor(), 0);
    press(&mut editor, &[Key::Control('e')]);
    assert_eq!(editor.cursor(), 5);
}

// ---- killing -----------------------------------------------------------

#[test]
fn control_u_kills_to_the_start() {
    let mut editor = editor(&[]);
    type_in(&mut editor, "some command");
    press(
        &mut editor,
        &[Key::Left, Key::Left, Key::Left, Key::Control('u')],
    );
    assert_eq!(editor.buffer(), "and");
}

#[test]
fn control_k_kills_to_the_end() {
    let mut editor = editor(&[]);
    type_in(&mut editor, "some command");
    press(
        &mut editor,
        &[Key::Home, Key::Right, Key::Right, Key::Right, Key::Right],
    );
    press(&mut editor, &[Key::Control('k')]);
    assert_eq!(editor.buffer(), "some");
}

#[test]
fn control_w_kills_the_previous_word() {
    let mut editor = editor(&[]);
    type_in(&mut editor, "git commit --amend");
    press(&mut editor, &[Key::Control('w')]);
    assert_eq!(editor.buffer(), "git commit ");
}

#[test]
fn control_w_skips_trailing_spaces_first() {
    // Otherwise Ctrl-W after `ls foo ` would delete nothing at all.
    let mut editor = editor(&[]);
    type_in(&mut editor, "ls foo   ");
    press(&mut editor, &[Key::Control('w')]);
    assert_eq!(editor.buffer(), "ls ");
}

#[test]
fn control_w_after_wide_whitespace_kills_only_the_word() {
    // U+3000 is three bytes of whitespace; the word starts after all three.
    let mut editor = editor(&[]);
    type_in(&mut editor, "ls\u{3000}foo");
    assert!(editor.accepts(Key::Control('w')));
    press(&mut editor, &[Key::Control('w')]);
    assert_eq!(editor.buffer(), "ls\u{3000}");
    assert_eq!(editor.cursor(), 5);
}

/// A completer that offers back what it was asked: the line and the cursor.
struct Echo;

impl Completer for Echo {
    fn complete(&self, line: &str, cursor: usize) -> Completion {
        Completion { start: 0, candidates: vec![format!("{line}|{cursor}")] }
    }
}

#[test]
fn tab_asks_the_completer_about_the_line_and_the_byte_cursor() {
    let mut editor = editor(&[]);
    type_in(&mut editor, "\u{e9}x");
    press(&mut editor, &[Key::Left]);
    editor.handle(Key::Tab, &Echo);
    assert_eq!(editor.buffer(), "\u{e9}x|2x");
}

// ---- submitting and leaving --------------------------------------------

#[test]
fn enter_submits_the_line_and_clears_it() {
    let mut editor = editor(&[]);
    type_in(&mut editor, "echo hi");
    assert_eq!(
        press(&mut editor, &[Key::Enter]),
        Action::Submit("echo hi".into())
    );
    assert_eq!(editor.buffer(), "");
    assert_eq!(editor.cursor(), 0);
}

#[test]
fn control_c_abandons_the_line() {
    let mut editor = editor(&[]);
    type_in(&mut editor, "half a command");
    assert_eq!(
        press(&mut editor, &[Key::Control('c')]),
        Action::Interrupted
    );
    assert_eq!(editor.buffer(), "");
}

#[test]
fn control_d_ends_input_only_when_the_line_is_empty() {
    // The same keystroke means "delete forwards" when there is something to
    // delete. Every shell resolves the ambiguity this way.
    let mut editor = editor(&[]);
    assert_eq!(press(&mut editor, &[Key::Control('d')]), Action::EndOfFile);

    type_in(&mut editor, "hi");
    press(&mut editor, &[Key::Home]);
    assert_eq!(press(&mut editor, &[Key::Control('d')]), Action::Continue);
    assert_eq!(editor.buffer(), "i");
}

// ---- history -----------------------------------------------------------

#[test]
fn up_walks_backwards_through_history() {
    let mut editor = editor(&["first", "second"]);
    press(&mut editor, &[Key::Up]);
    assert_eq!(editor.buffer(), "second");
    press(&mut editor, &[Key::Up]);
    assert_eq!(editor.buffer(), "first");
    press(&mut editor, &[Key::Up]);
    assert_eq!(editor.buffer(), "first", "there is nothing older");
}

#[test]
fn down_walks_back_towards_the_present() {
    let mut editor = editor(&["first", "second"]);
    press(&mut editor, &[Key::Up, Key::Up, Key::Down]);
    assert_eq!(editor.buffer(), "second");
}

#[test]
fn a_half_typed_line_comes_back() {
    // Losing it is one of the most irritating things a shell can do.
    let mut editor = editor(&["old command"]);
    type_in(&mut editor, "old");
    press(&mut editor, &[Key::Up]);
    assert_eq!(editor.buffer(), "old command");
    press(&mut editor, &[Key::Down]);
    assert_eq!(editor.buffer(), "old", "the half-typed line should return");
}

#[test]
fn up_finds_nothing_when_nothing_matches_the_prefix() {
    // A consequence of filtering, and the reason it is worth stating: Up on
    // a line that matches no history entry does nothing, where a shell with
    // unfiltered history would have jumped to the last command.
    let mut editor = editor(&["old command"]);
    type_in(&mut editor, "zzz");
    press(&mut editor, &[Key::Up]);
    assert_eq!(editor.buffer(), "zzz");
}

#[test]
fn up_on_an_empty_line_is_plain_history() {
    // The empty prefix matches everything, so the filtered search and the
    // familiar behaviour are the same thing.
    let mut editor = editor(&["one", "two"]);
    press(&mut editor, &[Key::Up]);
    assert_eq!(editor.buffer(), "two");
}

#[test]
fn up_filters_by_what_was_already_typed() {
    // Typing `git ` and pressing Up should find the last git command, not
    // simply the last command.
    let mut editor = editor(&["git status", "ls -la", "git commit"]);
    type_in(&mut editor, "git ");
    press(&mut editor, &[Key::Up]);
    assert_eq!(editor.buffer(), "git commit");
    press(&mut editor, &[Key::Up]);
    assert_eq!(editor.buffer(), "git status");
}

#[test]
fn typing_ends_the_history_search() {
    let mut editor = editor(&["one", "two"]);
    press(&mut editor, &[Key::Up]);
    assert_eq!(editor.buffer(), "two");

    type_in(&mut editor, "!");
    press(&mut editor, &[Key::Down]);
    assert_eq!(
        editor.buffer(),
        "two!",
        "Down should no longer be navigating"
    );
}

#[test]
fn down_with_no_search_in_progress_does_nothing() {
    let mut editor = editor(&["one"]);
    type_in(&mut editor, "typing");
    press(&mut editor, &[Key::Down]);
    assert_eq!(editor.buffer(), "typing");
}

// ---- completion --------------------------------------------------------

struct Fixed(Vec<&'static str>);

impl Completer for Fixed {
    fn complete(&self, line: &str, cursor: usize) -> Completion {
        let start = line[..cursor].rfind(' ').map_or(0, |space| space + 1);
        let word = &line[start..cursor];
        Completion {
            start,
            candidates: self
                .0
                .iter()
                .filter(|candidate| candidate.starts_with(word))
                .map(|candidate| (*candidate).to_owned())
                .collect(),
        }
    }
}

#[test]
fn a_single_match_is_filled_in() {
    let mut editor = editor(&[]);
    type_in(&mut editor, "ec");
    let action = editor.handle(Key::Tab, &Fixed(vec!["echo"]));
    assert_eq!(action, Action::Continue);
    assert_eq!(editor.buffer(), "echo");
    assert_eq!(editor.cursor(), 4);
}

#[test]
fn several_matches_fill_in_as_far_as_they_agree() {
    // Which is what makes repeated Tab feel like progress rather than a
    // menu that reappears unchanged.
    let mut editor = editor(&[]);
    type_in(&mut editor, "gi");
    let action = editor.handle(Key::Tab, &Fixed(vec!["gitk", "git-lfs"]));
    assert_eq!(editor.buffer(), "git");
    assert!(matches!(action, Action::Suggest(candidates) if candidates.len() == 2));
}

#[test]
fn completion_applies_to_the_word_at_the_cursor() {
    let mut editor = editor(&[]);
    type_in(&mut editor, "echo he");
    editor.handle(Key::Tab, &Fixed(vec!["hello"]));
    assert_eq!(editor.buffer(), "echo hello");
}

#[test]
fn no_matches_leaves_the_line_alone() {
    let mut editor = editor(&[]);
    type_in(&mut editor, "zzz");
    assert_eq!(
        editor.handle(Key::Tab, &Fixed(vec!["echo"])),
        Action::Continue
    );
    assert_eq!(editor.buffer(), "zzz");
}

#[test]
fn control_l_asks_for_a_clear_screen() {
    let mut editor = editor(&[]);
    type_in(&mut editor, "ls");
    assert_eq!(press(&mut editor, &[Key::Control('l')]), Action::Clear);
    assert_eq!(editor.buffer(), "ls");
}

#[test]
fn the_column_counts_characters_before_the_cursor() {
    let mut editor = editor(&[]);
    type_in(&mut editor, "héllo");
    press(&mut editor, &[Key::Left]);
    assert_eq!(editor.cursor(), 5);
    assert_eq!(editor.column(), 4);
}

#[test]
fn a_submitted_line_can_be_remembered() {
    let mut editor = editor(&[]);
    editor.remember("ls -l");
    editor.remember("   ");
    assert_eq!(editor.history().len(), 1);
    press(&mut editor, &[Key::Up]);
    assert_eq!(editor.buffer(), "ls -l");
    editor.reset();
    assert_eq!(editor.buffer(), "");
}

#[test]
fn a_completion_can_be_applied_directly() {
    let mut editor = editor(&[]);
    type_in(&mut editor, "cat fi");
    let action = editor.apply_completion(Completion {
        start: 4,
        candidates: vec!["file1".to_owned(), "file2".to_owned()],
    });
    assert_eq!(action, Action::Suggest(vec!["file1".to_owned(), "file2".to_owned()]));
    assert_eq!(editor.buffer(), "cat file");
    let none = NoCompletion.complete("cat", 3);
    assert_eq!(none, Completion { start: 3, candidates: vec![] });
    assert_eq!(Completion::default(), Completion { start: 0, candidates: vec![] });
}

#[test]
fn the_editor_accepts_ordinary_keys() {
    let editor = editor(&[]);
    assert!(editor.accepts(Key::Char('a')));
    assert!(editor.accepts(Key::Control('w')));
}

#[test]
fn up_then_down_gives_back_what_was_typed_even_with_no_match() {
    let mut editor = editor(&["one", "two"]);
    type_in(&mut editor, "t");
    press(&mut editor, &[Key::Up]);
    assert_eq!(editor.buffer(), "two");
    press(&mut editor, &[Key::Down]);
    assert_eq!(editor.buffer(), "t");
    type_in(&mut editor, "x");
    press(&mut editor, &[Key::Up, Key::Down]);
    assert_eq!(editor.buffer(), "tx");
}
