use rsh::editor::{Editor, NoCompletion};
use rsh::history::History;
use rsh::keys::Key;
use rsh::render;
use rsh::render::{suggestions, CLEAR_SCREEN};

fn editor_with(text: &str, left: usize) -> Editor {
    let mut editor = Editor::new(History::new(10));
    for c in text.chars() {
        editor.handle(Key::Char(c), &NoCompletion);
    }
    for _ in 0..left {
        editor.handle(Key::Left, &NoCompletion);
    }
    editor
}

#[test]
fn a_redraw_returns_erases_and_rewrites() {
    let drawn = render::line("rsh> ", &editor_with("echo hi", 0));
    assert!(
        drawn.starts_with("\r\x1b[K"),
        "should return and erase: {drawn:?}"
    );
    assert!(drawn.contains("rsh> echo hi"));
}

#[test]
fn the_cursor_ends_up_after_the_prompt_and_the_text() {
    // 5 for "rsh> " plus 7 for "echo hi".
    let drawn = render::line("rsh> ", &editor_with("echo hi", 0));
    assert!(
        drawn.ends_with("\r\x1b[12C"),
        "cursor placement was {drawn:?}"
    );
}

#[test]
fn a_cursor_moved_left_lands_earlier() {
    let drawn = render::line("rsh> ", &editor_with("echo hi", 2));
    assert!(
        drawn.ends_with("\r\x1b[10C"),
        "cursor placement was {drawn:?}"
    );
}

#[test]
fn columns_are_characters_not_bytes() {
    // "héllo" is six bytes and five characters; a byte count would put the
    // cursor one column too far right.
    let drawn = render::line("", &editor_with("héllo", 0));
    assert!(
        drawn.ends_with("\r\x1b[5C"),
        "cursor placement was {drawn:?}"
    );
}

#[test]
fn an_empty_line_with_no_prompt_needs_no_cursor_move() {
    let drawn = render::line("", &editor_with("", 0));
    assert!(
        !drawn.contains('C'),
        "should not emit a zero-column move: {drawn:?}"
    );
}

#[test]
fn suggestions_appear_above_a_fresh_prompt() {
    let editor = editor_with("gi", 0);
    let drawn = suggestions("rsh> ", &editor, &["gitk".to_owned(), "git-lfs".to_owned()]);
    assert!(drawn.starts_with("\r\n"), "should move off the prompt line");
    assert!(drawn.contains("gitk"));
    assert!(drawn.contains("git-lfs"));
    assert!(
        drawn.contains("rsh> gi"),
        "should redraw the prompt underneath"
    );
}

#[test]
fn a_redraw_is_exactly_these_bytes() {
    assert_eq!(render::line("$ ", &editor_with("ab", 1)), "\r\x1b[K$ ab\r\x1b[3C");
    assert_eq!(render::line("", &editor_with("", 0)), "\r\x1b[K\r");
    assert_eq!(CLEAR_SCREEN, "\x1b[2J\x1b[H");
}
