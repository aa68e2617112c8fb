use vstd::prelude::*;

verus! {

/// The keys that the game tells apart by code.
#[derive(Clone, Copy, Debug, PartialEq, Eq, Structural)]
pub enum KeyKind {
    Enter,
    Escape,
    Other,
}

/// One key press: its code, the character it types, and whether Alt was held.
#[derive(Clone, Copy, Debug, PartialEq, Eq, Structural)]
pub struct KeyPress {
    pub code: KeyKind,
    pub printable: char,
    pub alt: bool,
}

/// What a key press asks for.
#[derive(Clone, Copy, Debug, PartialEq, Eq, Structural)]
pub enum Action {
    ToggleFullscreen,
    Exit,
    Move { dx: i32, dy: i32 },
    Nothing,
}

/// Alt+Enter toggles fullscreen, Escape exits, `w` `s` `a` `d` move the
/// player up, down, left and right; any other key does nothing.
pub open spec fn spec_key_action(key: KeyPress) -> Action {
    if key.code == KeyKind::Enter && key.alt {
        Action::ToggleFullscreen
    } else if key.code == KeyKind::Escape {
        Action::Exit
    } else if key.printable == 'w' {
        Action::Move { dx: 0i32, dy: -1i32 }
    } else if key.printable == 's' {
        Action::Move { dx: 0i32, dy: 1i32 }
    } else if key.printable == 'a' {
        Action::Move { dx: -1i32, dy: 0i32 }
    } else if key.printable == 'd' {
        Action::Move { dx: 1i32, dy: 0i32 }
    } else {
        Action::Nothing
    }
}

pub fn handle_key(key: KeyPress) -> (a: Action)
    ensures
        a == spec_key_action(key),
{
    match key {
        // Alt+Enter: toggle fullscreen
        KeyPress { code: KeyKind::Enter, alt: true, .. } => Action::ToggleFullscreen,
        // exit game
        KeyPress { code: KeyKind::Escape, .. } => Action::Exit,
        // movement keys
        KeyPress { printable: 'w', .. } => Action::Move { dx: 0, dy: -1 },
        KeyPress { printable: 's', .. } => Action::Move { dx: 0, dy: 1 },
        KeyPress { printable: 'a', .. } => Action::Move { dx: -1, dy: 0 },
        KeyPress { printable: 'd', .. } => Action::Move { dx: 1, dy: 0 },
        _ => Action::Nothing,
    }
}

} // verus!
