use rsh::input::{Input, Reader};

fn lines_of(input: &str) -> Vec<Input> {
    let mut reader = Reader::buffered(input.as_bytes().to_vec(), true);
    let mut out = Vec::new();
    loop {
        match reader.poll().expect("a finished reader always has an answer") {
            Input::EndOfFile => {
                out.push(Input::EndOfFile);
                return out;
            }
            other => out.push(other),
        }
    }
}

#[test]
fn splits_on_newlines() {
    assert_eq!(
        lines_of("one\ntwo\n"),
        [
            Input::Line("one".into()),
            Input::Line("two".into()),
            Input::EndOfFile
        ]
    );
}

#[test]
fn a_final_line_without_a_newline_is_still_a_line() {
    assert_eq!(lines_of("only"), [Input::Line("only".into()), Input::EndOfFile]);
}

#[test]
fn empty_lines_are_preserved() {
    assert_eq!(
        lines_of("\n\n"),
        [
            Input::Line(String::new()),
            Input::Line(String::new()),
            Input::EndOfFile
        ]
    );
}

#[test]
fn no_input_is_end_of_file() {
    assert_eq!(lines_of(""), [Input::EndOfFile]);
}

#[test]
fn invalid_utf8_does_not_stop_the_shell() {
    let mut reader = Reader::buffered(vec![b'a', 0xff, b'b', b'\n'], true);
    let Some(Input::Line(line)) = reader.poll() else {
        panic!("expected a line")
    };
    assert!(line.starts_with('a') && line.ends_with('b'));
    assert_eq!(line, "a\u{fffd}b");
}

#[test]
fn a_partial_line_waits_for_more_bytes() {
    let mut reader = Reader::new();
    reader.feed(b"ec");
    assert_eq!(reader.poll(), None);
    reader.feed(b"ho\nrest");
    assert_eq!(reader.poll(), Some(Input::Line("echo".into())));
    assert_eq!(reader.poll(), None);
    reader.finish();
    assert_eq!(reader.poll(), Some(Input::Line("rest".into())));
    assert_eq!(reader.poll(), Some(Input::EndOfFile));
}

#[test]
fn an_interrupt_discards_the_partial_line() {
    let mut reader = Reader::new();
    reader.feed(b"half");
    assert_eq!(reader.interrupt(), Input::Interrupted);
    reader.feed(b"new\n");
    assert_eq!(reader.poll(), Some(Input::Line("new".into())));
}

#[test]
fn lines_come_back_as_they_were_fed() {
    let mut reader = Reader::new();
    reader.feed(b"\nsecond\nthird");
    assert_eq!(reader.poll(), Some(Input::Line(String::new())));
    assert_eq!(reader.poll(), Some(Input::Line("second".into())));
    assert_eq!(reader.poll(), None);
}
