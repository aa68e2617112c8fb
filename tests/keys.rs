use dungeon::input::{handle_key, Action, KeyKind, KeyPress};

fn key(code: KeyKind, printable: char, alt: bool) -> KeyPress {
    KeyPress { code, printable, alt }
}

#[test]
fn alt_enter_toggles_fullscreen() {
    assert_eq!(handle_key(key(KeyKind::Enter, '\r', true)), Action::ToggleFullscreen);
    assert_eq!(handle_key(key(KeyKind::Enter, '\r', false)), Action::Nothing);
}

#[test]
fn escape_exits() {
    assert_eq!(handle_key(key(KeyKind::Escape, '\u{1b}', false)), Action::Exit);
    assert_eq!(handle_key(key(KeyKind::Escape, 'w', true)), Action::Exit);
}

#[test]
fn wasd_moves() {
    assert_eq!(handle_key(key(KeyKind::Other, 'w', false)), Action::Move { dx: 0, dy: -1 });
    assert_eq!(handle_key(key(KeyKind::Other, 's', false)), Action::Move { dx: 0, dy: 1 });
    assert_eq!(handle_key(key(KeyKind::Other, 'a', false)), Action::Move { dx: -1, dy: 0 });
    assert_eq!(handle_key(key(KeyKind::Other, 'd', true)), Action::Move { dx: 1, dy: 0 });
    assert_eq!(handle_key(key(KeyKind::Other, 'q', false)), Action::Nothing);
}
