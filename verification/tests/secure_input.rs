use rime::secret::{SecretBuf, SECRET_CAPACITY};
use rime::secure_input::{
    apply_key, caret_visible, is_control_char, millis_until_blink, paste, route_key, EditKey, KeyPress,
    KeyRoute, NamedKey, CURSOR_BLINK_INTERVAL_MILLIS,
};

fn buf(s: &str) -> SecretBuf {
    let mut b = SecretBuf::new();
    assert!(b.push_str(s));
    b
}

#[test]
fn typing_inserts_at_the_caret_and_advances_it() {
    let mut b = buf("ac");
    let out = apply_key(&mut b, 1, EditKey::Text('b'));
    assert_eq!(b.secret_bytes(), b"abc");
    assert_eq!(out.cursor, 2);
    assert!(out.edited && !out.submit && !out.blur);
}

#[test]
fn control_characters_are_not_typed() {
    let mut b = buf("ab");
    let out = apply_key(&mut b, 2, EditKey::Text('\u{7}'));
    assert_eq!(b.secret_bytes(), b"ab");
    assert!(!out.edited);
    assert!(is_control_char('\u{9f}'));
    assert!(!is_control_char('a'));
}

#[test]
fn a_stale_caret_is_clamped_to_the_end() {
    let mut b = buf("ab");
    let out = apply_key(&mut b, 50, EditKey::Backspace);
    assert_eq!(b.secret_bytes(), b"a");
    assert_eq!(out.cursor, 1);
    assert!(out.edited);
}

#[test]
fn backspace_at_the_start_and_delete_at_the_end_do_nothing() {
    let mut b = buf("ab");
    let out = apply_key(&mut b, 0, EditKey::Backspace);
    assert!(!out.edited);
    assert_eq!(out.cursor, 0);
    let out = apply_key(&mut b, 2, EditKey::Delete);
    assert!(!out.edited);
    assert_eq!(b.secret_bytes(), b"ab");
    let out = apply_key(&mut b, 0, EditKey::Delete);
    assert!(out.edited);
    assert_eq!(b.secret_bytes(), b"b");
}

#[test]
fn caret_motion_keys() {
    let mut b = buf("abcd");
    assert_eq!(apply_key(&mut b, 2, EditKey::Home).cursor, 0);
    assert_eq!(apply_key(&mut b, 2, EditKey::End).cursor, 4);
    assert_eq!(apply_key(&mut b, 2, EditKey::Left { to_start: false }).cursor, 1);
    assert_eq!(apply_key(&mut b, 0, EditKey::Left { to_start: false }).cursor, 0);
    assert_eq!(apply_key(&mut b, 2, EditKey::Left { to_start: true }).cursor, 0);
    assert_eq!(apply_key(&mut b, 2, EditKey::Right { to_end: false }).cursor, 3);
    assert_eq!(apply_key(&mut b, 4, EditKey::Right { to_end: false }).cursor, 4);
    assert_eq!(apply_key(&mut b, 1, EditKey::Right { to_end: true }).cursor, 4);
    let out = apply_key(&mut b, 1, EditKey::Enter);
    assert!(out.submit && !out.edited);
    let out = apply_key(&mut b, 1, EditKey::Escape);
    assert!(out.blur && !out.edited);
    assert_eq!(b.secret_bytes(), b"abcd");
}

#[test]
fn typing_into_a_full_buffer_is_refused() {
    let mut b = buf(&"x".repeat(SECRET_CAPACITY));
    let out = apply_key(&mut b, 0, EditKey::Text('y'));
    assert!(!out.edited);
    assert_eq!(out.cursor, 0);
    assert_eq!(b.len(), SECRET_CAPACITY);
}

#[test]
fn paste_inserts_printable_characters_at_the_caret() {
    let mut b = buf("ad");
    let mut clip = String::from("b\nc\t");
    let (cursor, edited) = paste(&mut b, 1, &mut clip);
    assert_eq!(b.secret_bytes(), b"abcd");
    assert!(clip.is_empty(), "the pasted text is wiped");
    assert_eq!(cursor, 3);
    assert!(edited);
}

#[test]
fn paste_keeps_what_fits_and_stops_at_the_first_that_does_not() {
    let mut b = buf(&"x".repeat(SECRET_CAPACITY - 3));
    // 'a' (1 byte) and 'é' (2 bytes) fit; '€' (3 bytes) does not, nor does
    // anything after it, even the 1-byte 'z'.
    let (cursor, edited) = paste(&mut b, SECRET_CAPACITY, &mut String::from("aé€z"));
    assert!(edited);
    assert_eq!(cursor, SECRET_CAPACITY - 3 + 2);
    assert_eq!(b.byte_len(), SECRET_CAPACITY);
    assert!(b.secret_bytes().ends_with("aé".as_bytes()));
}

#[test]
fn pasting_nothing_printable_changes_nothing() {
    let mut b = buf("ab");
    let (cursor, edited) = paste(&mut b, 1, &mut String::from("\r\n"));
    assert!(!edited);
    assert_eq!(cursor, 1);
    assert_eq!(b.secret_bytes(), b"ab");
}

fn press(latin: Option<char>, text: Option<char>, named: NamedKey, command: bool) -> KeyPress {
    KeyPress { latin, text, named, command, alt: false, macos_command: false }
}

#[test]
fn command_shortcuts_route_before_text() {
    assert!(matches!(route_key(press(Some('v'), Some('v'), NamedKey::Other, true)), KeyRoute::Paste));
    let mut alt_v = press(Some('v'), Some('v'), NamedKey::Other, true);
    alt_v.alt = true;
    assert!(matches!(route_key(alt_v), KeyRoute::Ignore));
    for c in ['c', 'x', 'a'] {
        assert!(matches!(route_key(press(Some(c), Some(c), NamedKey::Other, true)), KeyRoute::Swallow));
    }
    assert!(matches!(
        route_key(press(Some('v'), Some('v'), NamedKey::Other, false)),
        KeyRoute::Edit(EditKey::Text('v'))
    ));
}

#[test]
fn control_text_falls_through_to_the_named_key() {
    assert!(matches!(
        route_key(press(None, Some('\r'), NamedKey::Enter, false)),
        KeyRoute::Edit(EditKey::Enter)
    ));
    assert!(matches!(
        route_key(press(None, Some('\u{8}'), NamedKey::Backspace, false)),
        KeyRoute::Edit(EditKey::Backspace)
    ));
    assert!(matches!(route_key(press(None, None, NamedKey::Other, false)), KeyRoute::Ignore));
    let mut home = press(None, None, NamedKey::ArrowLeft, true);
    home.macos_command = true;
    assert!(matches!(
        route_key(home),
        KeyRoute::Edit(EditKey::Left { to_start: true })
    ));
}

#[test]
fn the_caret_blinks_every_half_second() {
    assert_eq!(CURSOR_BLINK_INTERVAL_MILLIS, 500);
    assert!(caret_visible(0));
    assert!(caret_visible(499));
    assert!(!caret_visible(500));
    assert!(caret_visible(1000));
    assert_eq!(millis_until_blink(0), 500);
    assert_eq!(millis_until_blink(120), 380);
    assert_eq!(millis_until_blink(999), 1);
}
