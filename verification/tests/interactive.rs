use rsh::editor::NoCompletion;
use rsh::history::History;
use rsh::input::Input;
use rsh::interactive::{Interactive, HISTORY_FILE, HISTORY_LIMIT};
use rsh::keys::Key;

fn session() -> Interactive<NoCompletion> {
    Interactive::with(History::new(10), NoCompletion, Some("/tmp/h".to_owned()))
}

#[test]
fn a_line_starts_with_the_prompt_drawn() {
    let mut s = session();
    assert_eq!(s.begin("$ "), "\r\x1b[K$ \r\x1b[2C");
}

#[test]
fn typing_redraws_and_enter_submits_and_remembers() {
    let mut s = session();
    s.begin("$ ");
    assert_eq!(s.respond("$ ", Key::Char('l')), ("\r\x1b[K$ l\r\x1b[3C".to_owned(), None));
    s.respond("$ ", Key::Char('s'));
    assert_eq!(
        s.respond("$ ", Key::Enter),
        ("\r\n".to_owned(), Some(Input::Line("ls".into())))
    );
    assert_eq!(s.editor_ref().history().get(0), Some("ls"));
}

#[test]
fn control_c_and_control_d_end_the_line() {
    let mut s = session();
    s.begin("$ ");
    assert_eq!(s.respond("$ ", Key::Control('d')), ("\r\n".to_owned(), Some(Input::EndOfFile)));
    s.begin("$ ");
    s.respond("$ ", Key::Char('x'));
    assert_eq!(s.respond("$ ", Key::Control('c')), ("\r\n".to_owned(), Some(Input::Interrupted)));
}

#[test]
fn the_session_knows_where_history_goes() {
    let s = session();
    assert_eq!(s.history_path(), Some("/tmp/h"));
    assert_eq!(HISTORY_FILE, ".rsh_history");
    assert_eq!(HISTORY_LIMIT, 5000);
}
