use rsh::keys::{decode, Decoded, Key};

fn key(bytes: &[u8]) -> Decoded {
    decode(bytes)
}

#[test]
fn ordinary_characters_are_one_byte() {
    assert_eq!(key(b"a"), Decoded::Key(Key::Char('a'), 1));
    assert_eq!(key(b"Z"), Decoded::Key(Key::Char('Z'), 1));
    assert_eq!(key(b" "), Decoded::Key(Key::Char(' '), 1));
}

#[test]
fn multibyte_characters_are_decoded_whole() {
    assert_eq!(key("é".as_bytes()), Decoded::Key(Key::Char('é'), 2));
    assert_eq!(key("漢".as_bytes()), Decoded::Key(Key::Char('漢'), 3));
}

#[test]
fn a_partial_character_waits_for_the_rest() {
    let full = "漢".as_bytes();
    assert_eq!(key(&full[..2]), Decoded::Incomplete);
}

#[test]
fn control_characters_are_the_letter_with_bits_cleared() {
    assert_eq!(key(&[0x01]), Decoded::Key(Key::Control('a'), 1));
    assert_eq!(key(&[0x03]), Decoded::Key(Key::Control('c'), 1));
    assert_eq!(key(&[0x1a]), Decoded::Key(Key::Control('z'), 1));
}

#[test]
fn enter_and_backspace_have_more_than_one_spelling() {
    assert_eq!(key(b"\r"), Decoded::Key(Key::Enter, 1));
    assert_eq!(key(b"\n"), Decoded::Key(Key::Enter, 1));
    assert_eq!(key(&[0x7f]), Decoded::Key(Key::Backspace, 1));
    assert_eq!(key(&[0x08]), Decoded::Key(Key::Backspace, 1));
}

#[test]
fn arrow_keys_are_escape_sequences() {
    assert_eq!(key(b"\x1b[A"), Decoded::Key(Key::Up, 3));
    assert_eq!(key(b"\x1b[B"), Decoded::Key(Key::Down, 3));
    assert_eq!(key(b"\x1b[C"), Decoded::Key(Key::Right, 3));
    assert_eq!(key(b"\x1b[D"), Decoded::Key(Key::Left, 3));
}

#[test]
fn some_terminals_send_arrows_the_other_way() {
    assert_eq!(key(b"\x1bOA"), Decoded::Key(Key::Up, 3));
    assert_eq!(key(b"\x1bOD"), Decoded::Key(Key::Left, 3));
}

#[test]
fn home_end_and_delete_have_numbered_forms() {
    assert_eq!(key(b"\x1b[H"), Decoded::Key(Key::Home, 3));
    assert_eq!(key(b"\x1b[F"), Decoded::Key(Key::End, 3));
    assert_eq!(key(b"\x1b[1~"), Decoded::Key(Key::Home, 4));
    assert_eq!(key(b"\x1b[3~"), Decoded::Key(Key::Delete, 4));
    assert_eq!(key(b"\x1b[4~"), Decoded::Key(Key::End, 4));
}

#[test]
fn an_unfinished_sequence_stays_in_the_buffer() {
    assert_eq!(key(b"\x1b"), Decoded::Incomplete);
    assert_eq!(key(b"\x1b["), Decoded::Incomplete);
    assert_eq!(key(b"\x1b[1"), Decoded::Incomplete);
}

#[test]
fn an_empty_buffer_is_not_a_key() {
    assert_eq!(key(b""), Decoded::Empty);
}

#[test]
fn an_unknown_sequence_is_consumed_rather_than_wedging() {
    assert_eq!(key(b"\x1b[5~"), Decoded::Key(Key::Escape, 4));
    assert_eq!(key(b"\x1b[Z"), Decoded::Key(Key::Escape, 3));
}

#[test]
fn tab_and_invalid_bytes_are_keys_too() {
    assert_eq!(key(b"\t"), Decoded::Key(Key::Tab, 1));
    assert_eq!(key(&[0xff]), Decoded::Key(Key::Char('\u{fffd}'), 1));
    assert_eq!(key(b"\x1bx"), Decoded::Key(Key::Escape, 1));
    assert_eq!(key(b"\x1bO"), Decoded::Incomplete);
}

#[test]
fn a_keystroke_does_not_depend_on_what_follows_it() {
    assert_eq!(key(b"\x1b[Ax"), Decoded::Key(Key::Up, 3));
    assert_eq!(key("é!".as_bytes()), Decoded::Key(Key::Char('é'), 2));
    assert_eq!(key(b"\x1b[3~abc"), Decoded::Key(Key::Delete, 4));
}
