use commander::keys::{key_to_bytes, KeyCode, KeyEvent, Modifiers};

fn k(code: KeyCode, ctrl: bool) -> KeyEvent {
    let mods = if ctrl { Modifiers::control() } else { Modifiers::none() };
    KeyEvent::new(code, mods)
}

#[test]
fn plain_chars_and_enter() {
    assert_eq!(key_to_bytes(k(KeyCode::Char('a'), false)), Some(b"a".to_vec()));
    assert_eq!(key_to_bytes(k(KeyCode::Enter, false)), Some(vec![b'\r']));
    assert_eq!(key_to_bytes(k(KeyCode::Backspace, false)), Some(vec![0x7f]));
}

#[test]
fn ctrl_letters_map_to_control_bytes() {
    // Ctrl-C -> 0x03, Ctrl-A -> 0x01.
    assert_eq!(key_to_bytes(k(KeyCode::Char('c'), true)), Some(vec![0x03]));
    assert_eq!(key_to_bytes(k(KeyCode::Char('a'), true)), Some(vec![0x01]));
}

#[test]
fn arrows_are_csi_sequences() {
    assert_eq!(key_to_bytes(k(KeyCode::Up, false)), Some(b"\x1b[A".to_vec()));
    assert_eq!(key_to_bytes(k(KeyCode::Left, false)), Some(b"\x1b[D".to_vec()));
}

#[test]
fn ctrl_upper_case_letter_and_space() {
    assert_eq!(key_to_bytes(k(KeyCode::Char('Z'), true)), Some(vec![26]));
    assert_eq!(key_to_bytes(k(KeyCode::Char(' '), true)), Some(vec![0]));
    assert_eq!(key_to_bytes(k(KeyCode::Char('['), true)), Some(vec![0x1b]));
    // outside '@'..'_' with Control: the character itself
    assert_eq!(key_to_bytes(k(KeyCode::Char('1'), true)), Some(b"1".to_vec()));
}

#[test]
fn multibyte_chars_are_utf8() {
    assert_eq!(key_to_bytes(k(KeyCode::Char('é'), false)), Some("é".as_bytes().to_vec()));
    assert_eq!(key_to_bytes(k(KeyCode::Char('€'), false)), Some("€".as_bytes().to_vec()));
    assert_eq!(key_to_bytes(k(KeyCode::Char('😀'), false)), Some("😀".as_bytes().to_vec()));
}

#[test]
fn other_special_keys() {
    assert_eq!(key_to_bytes(k(KeyCode::Tab, false)), Some(vec![b'\t']));
    assert_eq!(key_to_bytes(k(KeyCode::BackTab, false)), Some(b"\x1b[Z".to_vec()));
    assert_eq!(key_to_bytes(k(KeyCode::Esc, false)), Some(vec![0x1b]));
    assert_eq!(key_to_bytes(k(KeyCode::PageUp, false)), Some(b"\x1b[5~".to_vec()));
    assert_eq!(key_to_bytes(k(KeyCode::Delete, false)), Some(b"\x1b[3~".to_vec()));
    assert_eq!(key_to_bytes(k(KeyCode::F(1), false)), None);
}
