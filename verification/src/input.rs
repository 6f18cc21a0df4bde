//! Input bindings and the per-frame input state: which keys and mouse buttons
//! are held, which changed this frame, and the semantic actions bound to them.

use vstd::prelude::*;

use crate::text::{distinct_keys, str_eq};

verus! {

// ---------------------------------------------------------------------------
// Physical inputs
// ---------------------------------------------------------------------------

/// A keyboard key. Keys that bindings cannot name are carried as `Other`
/// with the platform's code.
#[derive(Debug, Clone, Copy, PartialEq, Eq, Structural)]
pub enum KeyCode {
    KeyA,
    KeyB,
    KeyC,
    KeyD,
    KeyE,
    KeyF,
    KeyG,
    KeyH,
    KeyI,
    KeyJ,
    KeyK,
    KeyL,
    KeyM,
    KeyN,
    KeyO,
    KeyP,
    KeyQ,
    KeyR,
    KeyS,
    KeyT,
    KeyU,
    KeyV,
    KeyW,
    KeyX,
    KeyY,
    KeyZ,
    Digit0,
    Digit1,
    Digit2,
    Digit3,
    Digit4,
    Digit5,
    Digit6,
    Digit7,
    Digit8,
    Digit9,
    Space,
    ShiftLeft,
    ShiftRight,
    ControlLeft,
    ControlRight,
    Escape,
    Enter,
    Tab,
    ArrowUp,
    ArrowDown,
    ArrowLeft,
    ArrowRight,
    Other(u32),
}

/// A mouse button.
#[derive(Debug, Clone, Copy, PartialEq, Eq, Structural)]
pub enum MouseButton {
    Left,
    Right,
    Middle,
    Back,
    Forward,
    Other(u16),
}

/// A key or a mouse button.
#[derive(Debug, Clone, Copy, PartialEq, Eq, Structural)]
pub enum InputCode {
    Key(KeyCode),
    Mouse(MouseButton),
}

/// The key a binding names with `s`.
pub open spec fn spec_key_code(s: Seq<char>) -> Option<KeyCode> {
    if s == "A"@ { Some(KeyCode::KeyA) }
    else if s == "B"@ { Some(KeyCode::KeyB) }
    else if s == "C"@ { Some(KeyCode::KeyC) }
    else if s == "D"@ { Some(KeyCode::KeyD) }
    else if s == "E"@ { Some(KeyCode::KeyE) }
    else if s == "F"@ { Some(KeyCode::KeyF) }
    else if s == "G"@ { Some(KeyCode::KeyG) }
    else if s == "H"@ { Some(KeyCode::KeyH) }
    else if s == "I"@ { Some(KeyCode::KeyI) }
    else if s == "J"@ { Some(KeyCode::KeyJ) }
    else if s == "K"@ { Some(KeyCode::KeyK) }
    else if s == "L"@ { Some(KeyCode::KeyL) }
    else if s == "M"@ { Some(KeyCode::KeyM) }
    else if s == "N"@ { Some(KeyCode::KeyN) }
    else if s == "O"@ { Some(KeyCode::KeyO) }
    else if s == "P"@ { Some(KeyCode::KeyP) }
    else if s == "Q"@ { Some(KeyCode::KeyQ) }
    else if s == "R"@ { Some(KeyCode::KeyR) }
    else if s == "S"@ { Some(KeyCode::KeyS) }
    else if s == "T"@ { Some(KeyCode::KeyT) }
    else if s == "U"@ { Some(KeyCode::KeyU) }
    else if s == "V"@ { Some(KeyCode::KeyV) }
    else if s == "W"@ { Some(KeyCode::KeyW) }
    else if s == "X"@ { Some(KeyCode::KeyX) }
    else if s == "Y"@ { Some(KeyCode::KeyY) }
    else if s == "Z"@ { Some(KeyCode::KeyZ) }
    else if s == "Digit0"@ || s == "0"@ { Some(KeyCode::Digit0) }
    else if s == "Digit1"@ || s == "1"@ { Some(KeyCode::Digit1) }
    else if s == "Digit2"@ || s == "2"@ { Some(KeyCode::Digit2) }
    else if s == "Digit3"@ || s == "3"@ { Some(KeyCode::Digit3) }
    else if s == "Space"@ { Some(KeyCode::Space) }
    else if s == "ShiftLeft"@ { Some(KeyCode::ShiftLeft) }
    else if s == "ShiftRight"@ { Some(KeyCode::ShiftRight) }
    else if s == "ControlLeft"@ { Some(KeyCode::ControlLeft) }
    else if s == "ControlRight"@ { Some(KeyCode::ControlRight) }
    else if s == "Escape"@ { Some(KeyCode::Escape) }
    else if s == "Enter"@ { Some(KeyCode::Enter) }
    else if s == "Tab"@ { Some(KeyCode::Tab) }
    else if s == "ArrowUp"@ { Some(KeyCode::ArrowUp) }
    else if s == "ArrowDown"@ { Some(KeyCode::ArrowDown) }
    else if s == "ArrowLeft"@ { Some(KeyCode::ArrowLeft) }
    else if s == "ArrowRight"@ { Some(KeyCode::ArrowRight) }
    else { None }
}

/// `s` is a name of key `k`: a letter key by its letter, a digit key as
/// `DigitN` or `N`, any other nameable key by its own name.
pub open spec fn names_key(s: Seq<char>, k: KeyCode) -> bool {
    match k {
        KeyCode::KeyA => s == "A"@,
        KeyCode::KeyB => s == "B"@,
        KeyCode::KeyC => s == "C"@,
        KeyCode::KeyD => s == "D"@,
        KeyCode::KeyE => s == "E"@,
        KeyCode::KeyF => s == "F"@,
        KeyCode::KeyG => s == "G"@,
        KeyCode::KeyH => s == "H"@,
        KeyCode::KeyI => s == "I"@,
        KeyCode::KeyJ => s == "J"@,
        KeyCode::KeyK => s == "K"@,
        KeyCode::KeyL => s == "L"@,
        KeyCode::KeyM => s == "M"@,
        KeyCode::KeyN => s == "N"@,
        KeyCode::KeyO => s == "O"@,
        KeyCode::KeyP => s == "P"@,
        KeyCode::KeyQ => s == "Q"@,
        KeyCode::KeyR => s == "R"@,
        KeyCode::KeyS => s == "S"@,
        KeyCode::KeyT => s == "T"@,
        KeyCode::KeyU => s == "U"@,
        KeyCode::KeyV => s == "V"@,
        KeyCode::KeyW => s == "W"@,
        KeyCode::KeyX => s == "X"@,
        KeyCode::KeyY => s == "Y"@,
        KeyCode::KeyZ => s == "Z"@,
        KeyCode::Digit0 => s == "Digit0"@ || s == "0"@,
        KeyCode::Digit1 => s == "Digit1"@ || s == "1"@,
        KeyCode::Digit2 => s == "Digit2"@ || s == "2"@,
        KeyCode::Digit3 => s == "Digit3"@ || s == "3"@,
        KeyCode::Space => s == "Space"@,
        KeyCode::ShiftLeft => s == "ShiftLeft"@,
        KeyCode::ShiftRight => s == "ShiftRight"@,
        KeyCode::ControlLeft => s == "ControlLeft"@,
        KeyCode::ControlRight => s == "ControlRight"@,
        KeyCode::Escape => s == "Escape"@,
        KeyCode::Enter => s == "Enter"@,
        KeyCode::Tab => s == "Tab"@,
        KeyCode::ArrowUp => s == "ArrowUp"@,
        KeyCode::ArrowDown => s == "ArrowDown"@,
        KeyCode::ArrowLeft => s == "ArrowLeft"@,
        KeyCode::ArrowRight => s == "ArrowRight"@,
        _ => false,
    }
}

/// A key name is read as the key it names, never as another key: whatever
/// key a binding name resolves to, the name is a name of that key.
pub proof fn lemma_key_name_names_its_key(s: Seq<char>)
    ensures
        spec_key_code(s) matches Some(k) ==> names_key(s, k),
{
}

/// Every name of a key is read as that key.
pub proof fn lemma_key_read_from_its_name(s: Seq<char>, k: KeyCode)
    requires
        names_key(s, k),
    ensures
        spec_key_code(s) == Some(k),
{
    reveal_strlit("A");
    reveal_strlit("B");
    reveal_strlit("C");
    reveal_strlit("D");
    reveal_strlit("E");
    reveal_strlit("F");
    reveal_strlit("G");
    reveal_strlit("H");
    reveal_strlit("I");
    reveal_strlit("J");
    reveal_strlit("K");
    reveal_strlit("L");
    reveal_strlit("M");
    reveal_strlit("N");
    reveal_strlit("O");
    reveal_strlit("P");
    reveal_strlit("Q");
    reveal_strlit("R");
    reveal_strlit("S");
    reveal_strlit("T");
    reveal_strlit("U");
    reveal_strlit("V");
    reveal_strlit("W");
    reveal_strlit("X");
    reveal_strlit("Y");
    reveal_strlit("Z");
    reveal_strlit("Digit0");
    reveal_strlit("Digit1");
    reveal_strlit("Digit2");
    reveal_strlit("Digit3");
    reveal_strlit("0");
    reveal_strlit("1");
    reveal_strlit("2");
    reveal_strlit("3");
    reveal_strlit("Space");
    reveal_strlit("ShiftLeft");
    reveal_strlit("ShiftRight");
    reveal_strlit("ControlLeft");
    reveal_strlit("ControlRight");
    reveal_strlit("Escape");
    reveal_strlit("Enter");
    reveal_strlit("Tab");
    reveal_strlit("ArrowUp");
    reveal_strlit("ArrowDown");
    reveal_strlit("ArrowLeft");
    reveal_strlit("ArrowRight");
    assert("A"@.len() == 1);
    assert("B"@.len() == 1);
    assert("C"@.len() == 1);
    assert("D"@.len() == 1);
    assert("E"@.len() == 1);
    assert("F"@.len() == 1);
    assert("G"@.len() == 1);
    assert("H"@.len() == 1);
    assert("I"@.len() == 1);
    assert("J"@.len() == 1);
    assert("K"@.len() == 1);
    assert("L"@.len() == 1);
    assert("M"@.len() == 1);
    assert("N"@.len() == 1);
    assert("O"@.len() == 1);
    assert("P"@.len() == 1);
    assert("Q"@.len() == 1);
    assert("R"@.len() == 1);
    assert("S"@.len() == 1);
    assert("T"@.len() == 1);
    assert("U"@.len() == 1);
    assert("V"@.len() == 1);
    assert("W"@.len() == 1);
    assert("X"@.len() == 1);
    assert("Y"@.len() == 1);
    assert("Z"@.len() == 1);
    assert("Digit0"@.len() == 6);
    assert("Digit1"@.len() == 6);
    assert("Digit2"@.len() == 6);
    assert("Digit3"@.len() == 6);
    assert("0"@.len() == 1);
    assert("1"@.len() == 1);
    assert("2"@.len() == 1);
    assert("3"@.len() == 1);
    assert("Space"@.len() == 5);
    assert("ShiftLeft"@.len() == 9);
    assert("ShiftRight"@.len() == 10);
    assert("ControlLeft"@.len() == 11);
    assert("ControlRight"@.len() == 12);
    assert("Escape"@.len() == 6);
    assert("Enter"@.len() == 5);
    assert("Tab"@.len() == 3);
    assert("ArrowUp"@.len() == 7);
    assert("ArrowDown"@.len() == 9);
    assert("ArrowLeft"@.len() == 9);
    assert("ArrowRight"@.len() == 10);
    match k {
        KeyCode::KeyB => {
            if s == "B"@ {
                assert("B"@[0] != "A"@[0]);
            }
        },
        KeyCode::KeyC => {
            if s == "C"@ {
                assert("C"@[0] != "A"@[0]);
                assert("C"@[0] != "B"@[0]);
            }
        },
        KeyCode::KeyD => {
            if s == "D"@ {
                assert("D"@[0] != "A"@[0]);
                assert("D"@[0] != "B"@[0]);
                assert("D"@[0] != "C"@[0]);
            }
        },
        KeyCode::KeyE => {
            if s == "E"@ {
                assert("E"@[0] != "A"@[0]);
                assert("E"@[0] != "B"@[0]);
                assert("E"@[0] != "C"@[0]);
                assert("E"@[0] != "D"@[0]);
            }
        },
        KeyCode::KeyF => {
            if s == "F"@ {
                assert("F"@[0] != "A"@[0]);
                assert("F"@[0] != "B"@[0]);
                assert("F"@[0] != "C"@[0]);
                assert("F"@[0] != "D"@[0]);
                assert("F"@[0] != "E"@[0]);
            }
        },
        KeyCode::KeyG => {
            if s == "G"@ {
                assert("G"@[0] != "A"@[0]);
                assert("G"@[0] != "B"@[0]);
                assert("G"@[0] != "C"@[0]);
                assert("G"@[0] != "D"@[0]);
                assert("G"@[0] != "E"@[0]);
                assert("G"@[0] != "F"@[0]);
            }
        },
        KeyCode::KeyH => {
            if s == "H"@ {
                assert("H"@[0] != "A"@[0]);
                assert("H"@[0] != "B"@[0]);
                assert("H"@[0] != "C"@[0]);
                assert("H"@[0] != "D"@[0]);
                assert("H"@[0] != "E"@[0]);
                assert("H"@[0] != "F"@[0]);
                assert("H"@[0] != "G"@[0]);
            }
        },
        KeyCode::KeyI => {
            if s == "I"@ {
                assert("I"@[0] != "A"@[0]);
                assert("I"@[0] != "B"@[0]);
                assert("I"@[0] != "C"@[0]);
                assert("I"@[0] != "D"@[0]);
                assert("I"@[0] != "E"@[0]);
                assert("I"@[0] != "F"@[0]);
                assert("I"@[0] != "G"@[0]);
                assert("I"@[0] != "H"@[0]);
            }
        },
        KeyCode::KeyJ => {
            if s == "J"@ {
                assert("J"@[0] != "A"@[0]);
                assert("J"@[0] != "B"@[0]);
                assert("J"@[0] != "C"@[0]);
                assert("J"@[0] != "D"@[0]);
                assert("J"@[0] != "E"@[0]);
                assert("J"@[0] != "F"@[0]);
                assert("J"@[0] != "G"@[0]);
                assert("J"@[0] != "H"@[0]);
                assert("J"@[0] != "I"@[0]);
            }
        },
        KeyCode::KeyK => {
            if s == "K"@ {
                assert("K"@[0] != "A"@[0]);
                assert("K"@[0] != "B"@[0]);
                assert("K"@[0] != "C"@[0]);
                assert("K"@[0] != "D"@[0]);
                assert("K"@[0] != "E"@[0]);
                assert("K"@[0] != "F"@[0]);
                assert("K"@[0] != "G"@[0]);
                assert("K"@[0] != "H"@[0]);
                assert("K"@[0] != "I"@[0]);
                assert("K"@[0] != "J"@[0]);
            }
        },
        KeyCode::KeyL => {
            if s == "L"@ {
                assert("L"@[0] != "A"@[0]);
                assert("L"@[0] != "B"@[0]);
                assert("L"@[0] != "C"@[0]);
                assert("L"@[0] != "D"@[0]);
                assert("L"@[0] != "E"@[0]);
                assert("L"@[0] != "F"@[0]);
                assert("L"@[0] != "G"@[0]);
                assert("L"@[0] != "H"@[0]);
                assert("L"@[0] != "I"@[0]);
                assert("L"@[0] != "J"@[0]);
                assert("L"@[0] != "K"@[0]);
            }
        },
        KeyCode::KeyM => {
            if s == "M"@ {
                assert("M"@[0] != "A"@[0]);
                assert("M"@[0] != "B"@[0]);
                assert("M"@[0] != "C"@[0]);
                assert("M"@[0] != "D"@[0]);
                assert("M"@[0] != "E"@[0]);
                assert("M"@[0] != "F"@[0]);
                assert("M"@[0] != "G"@[0]);
                assert("M"@[0] != "H"@[0]);
                assert("M"@[0] != "I"@[0]);
                assert("M"@[0] != "J"@[0]);
                assert("M"@[0] != "K"@[0]);
                assert("M"@[0] != "L"@[0]);
            }
        },
        KeyCode::KeyN => {
            if s == "N"@ {
                assert("N"@[0] != "A"@[0]);
                assert("N"@[0] != "B"@[0]);
                assert("N"@[0] != "C"@[0]);
                assert("N"@[0] != "D"@[0]);
                assert("N"@[0] != "E"@[0]);
                assert("N"@[0] != "F"@[0]);
                assert("N"@[0] != "G"@[0]);
                assert("N"@[0] != "H"@[0]);
                assert("N"@[0] != "I"@[0]);
                assert("N"@[0] != "J"@[0]);
                assert("N"@[0] != "K"@[0]);
                assert("N"@[0] != "L"@[0]);
                assert("N"@[0] != "M"@[0]);
            }
        },
        KeyCode::KeyO => {
            if s == "O"@ {
                assert("O"@[0] != "A"@[0]);
                assert("O"@[0] != "B"@[0]);
                assert("O"@[0] != "C"@[0]);
                assert("O"@[0] != "D"@[0]);
                assert("O"@[0] != "E"@[0]);
                assert("O"@[0] != "F"@[0]);
                assert("O"@[0] != "G"@[0]);
                assert("O"@[0] != "H"@[0]);
                assert("O"@[0] != "I"@[0]);
                assert("O"@[0] != "J"@[0]);
                assert("O"@[0] != "K"@[0]);
                assert("O"@[0] != "L"@[0]);
                assert("O"@[0] != "M"@[0]);
                assert("O"@[0] != "N"@[0]);
            }
        },
        KeyCode::KeyP => {
            if s == "P"@ {
                assert("P"@[0] != "A"@[0]);
                assert("P"@[0] != "B"@[0]);
                assert("P"@[0] != "C"@[0]);
                assert("P"@[0] != "D"@[0]);
                assert("P"@[0] != "E"@[0]);
                assert("P"@[0] != "F"@[0]);
                assert("P"@[0] != "G"@[0]);
                assert("P"@[0] != "H"@[0]);
                assert("P"@[0] != "I"@[0]);
                assert("P"@[0] != "J"@[0]);
                assert("P"@[0] != "K"@[0]);
                assert("P"@[0] != "L"@[0]);
                assert("P"@[0] != "M"@[0]);
                assert("P"@[0] != "N"@[0]);
                assert("P"@[0] != "O"@[0]);
            }
        },
        KeyCode::KeyQ => {
            if s == "Q"@ {
                assert("Q"@[0] != "A"@[0]);
                assert("Q"@[0] != "B"@[0]);
                assert("Q"@[0] != "C"@[0]);
                assert("Q"@[0] != "D"@[0]);
                assert("Q"@[0] != "E"@[0]);
                assert("Q"@[0] != "F"@[0]);
                assert("Q"@[0] != "G"@[0]);
                assert("Q"@[0] != "H"@[0]);
                assert("Q"@[0] != "I"@[0]);
                assert("Q"@[0] != "J"@[0]);
                assert("Q"@[0] != "K"@[0]);
                assert("Q"@[0] != "L"@[0]);
                assert("Q"@[0] != "M"@[0]);
                assert("Q"@[0] != "N"@[0]);
                assert("Q"@[0] != "O"@[0]);
                assert("Q"@[0] != "P"@[0]);
            }
        },
        KeyCode::KeyR => {
            if s == "R"@ {
                assert("R"@[0] != "A"@[0]);
                assert("R"@[0] != "B"@[0]);
                assert("R"@[0] != "C"@[0]);
                assert("R"@[0] != "D"@[0]);
                assert("R"@[0] != "E"@[0]);
                assert("R"@[0] != "F"@[0]);
                assert("R"@[0] != "G"@[0]);
                assert("R"@[0] != "H"@[0]);
                assert("R"@[0] != "I"@[0]);
                assert("R"@[0] != "J"@[0]);
                assert("R"@[0] != "K"@[0]);
                assert("R"@[0] != "L"@[0]);
                assert("R"@[0] != "M"@[0]);
                assert("R"@[0] != "N"@[0]);
                assert("R"@[0] != "O"@[0]);
                assert("R"@[0] != "P"@[0]);
                assert("R"@[0] != "Q"@[0]);
            }
        },
        KeyCode::KeyS => {
            if s == "S"@ {
                assert("S"@[0] != "A"@[0]);
                assert("S"@[0] != "B"@[0]);
                assert("S"@[0] != "C"@[0]);
                assert("S"@[0] != "D"@[0]);
                assert("S"@[0] != "E"@[0]);
                assert("S"@[0] != "F"@[0]);
                assert("S"@[0] != "G"@[0]);
                assert("S"@[0] != "H"@[0]);
                assert("S"@[0] != "I"@[0]);
                assert("S"@[0] != "J"@[0]);
                assert("S"@[0] != "K"@[0]);
                assert("S"@[0] != "L"@[0]);
                assert("S"@[0] != "M"@[0]);
                assert("S"@[0] != "N"@[0]);
                assert("S"@[0] != "O"@[0]);
                assert("S"@[0] != "P"@[0]);
                assert("S"@[0] != "Q"@[0]);
                assert("S"@[0] != "R"@[0]);
            }
        },
        KeyCode::KeyT => {
            if s == "T"@ {
                assert("T"@[0] != "A"@[0]);
                assert("T"@[0] != "B"@[0]);
                assert("T"@[0] != "C"@[0]);
                assert("T"@[0] != "D"@[0]);
                assert("T"@[0] != "E"@[0]);
                assert("T"@[0] != "F"@[0]);
                assert("T"@[0] != "G"@[0]);
                assert("T"@[0] != "H"@[0]);
                assert("T"@[0] != "I"@[0]);
                assert("T"@[0] != "J"@[0]);
                assert("T"@[0] != "K"@[0]);
                assert("T"@[0] != "L"@[0]);
                assert("T"@[0] != "M"@[0]);
                assert("T"@[0] != "N"@[0]);
                assert("T"@[0] != "O"@[0]);
                assert("T"@[0] != "P"@[0]);
                assert("T"@[0] != "Q"@[0]);
                assert("T"@[0] != "R"@[0]);
                assert("T"@[0] != "S"@[0]);
            }
        },
        KeyCode::KeyU => {
            if s == "U"@ {
                assert("U"@[0] != "A"@[0]);
                assert("U"@[0] != "B"@[0]);
                assert("U"@[0] != "C"@[0]);
                assert("U"@[0] != "D"@[0]);
                assert("U"@[0] != "E"@[0]);
                assert("U"@[0] != "F"@[0]);
                assert("U"@[0] != "G"@[0]);
                assert("U"@[0] != "H"@[0]);
                assert("U"@[0] != "I"@[0]);
                assert("U"@[0] != "J"@[0]);
                assert("U"@[0] != "K"@[0]);
                assert("U"@[0] != "L"@[0]);
                assert("U"@[0] != "M"@[0]);
                assert("U"@[0] != "N"@[0]);
                assert("U"@[0] != "O"@[0]);
                assert("U"@[0] != "P"@[0]);
                assert("U"@[0] != "Q"@[0]);
                assert("U"@[0] != "R"@[0]);
                assert("U"@[0] != "S"@[0]);
                assert("U"@[0] != "T"@[0]);
            }
        },
        KeyCode::KeyV => {
            if s == "V"@ {
                assert("V"@[0] != "A"@[0]);
                assert("V"@[0] != "B"@[0]);
                assert("V"@[0] != "C"@[0]);
                assert("V"@[0] != "D"@[0]);
                assert("V"@[0] != "E"@[0]);
                assert("V"@[0] != "F"@[0]);
                assert("V"@[0] != "G"@[0]);
                assert("V"@[0] != "H"@[0]);
                assert("V"@[0] != "I"@[0]);
                assert("V"@[0] != "J"@[0]);
                assert("V"@[0] != "K"@[0]);
                assert("V"@[0] != "L"@[0]);
                assert("V"@[0] != "M"@[0]);
                assert("V"@[0] != "N"@[0]);
                assert("V"@[0] != "O"@[0]);
                assert("V"@[0] != "P"@[0]);
                assert("V"@[0] != "Q"@[0]);
                assert("V"@[0] != "R"@[0]);
                assert("V"@[0] != "S"@[0]);
                assert("V"@[0] != "T"@[0]);
                assert("V"@[0] != "U"@[0]);
            }
        },
        KeyCode::KeyW => {
            if s == "W"@ {
                assert("W"@[0] != "A"@[0]);
                assert("W"@[0] != "B"@[0]);
                assert("W"@[0] != "C"@[0]);
                assert("W"@[0] != "D"@[0]);
                assert("W"@[0] != "E"@[0]);
                assert("W"@[0] != "F"@[0]);
                assert("W"@[0] != "G"@[0]);
                assert("W"@[0] != "H"@[0]);
                assert("W"@[0] != "I"@[0]);
                assert("W"@[0] != "J"@[0]);
                assert("W"@[0] != "K"@[0]);
                assert("W"@[0] != "L"@[0]);
                assert("W"@[0] != "M"@[0]);
                assert("W"@[0] != "N"@[0]);
                assert("W"@[0] != "O"@[0]);
                assert("W"@[0] != "P"@[0]);
                assert("W"@[0] != "Q"@[0]);
                assert("W"@[0] != "R"@[0]);
                assert("W"@[0] != "S"@[0]);
                assert("W"@[0] != "T"@[0]);
                assert("W"@[0] != "U"@[0]);
                assert("W"@[0] != "V"@[0]);
            }
        },
        KeyCode::KeyX => {
            if s == "X"@ {
                assert("X"@[0] != "A"@[0]);
                assert("X"@[0] != "B"@[0]);
                assert("X"@[0] != "C"@[0]);
                assert("X"@[0] != "D"@[0]);
                assert("X"@[0] != "E"@[0]);
                assert("X"@[0] != "F"@[0]);
                assert("X"@[0] != "G"@[0]);
                assert("X"@[0] != "H"@[0]);
                assert("X"@[0] != "I"@[0]);
                assert("X"@[0] != "J"@[0]);
                assert("X"@[0] != "K"@[0]);
                assert("X"@[0] != "L"@[0]);
                assert("X"@[0] != "M"@[0]);
                assert("X"@[0] != "N"@[0]);
                assert("X"@[0] != "O"@[0]);
                assert("X"@[0] != "P"@[0]);
                assert("X"@[0] != "Q"@[0]);
                assert("X"@[0] != "R"@[0]);
                assert("X"@[0] != "S"@[0]);
                assert("X"@[0] != "T"@[0]);
                assert("X"@[0] != "U"@[0]);
                assert("X"@[0] != "V"@[0]);
                assert("X"@[0] != "W"@[0]);
            }
        },
        KeyCode::KeyY => {
            if s == "Y"@ {
                assert("Y"@[0] != "A"@[0]);
                assert("Y"@[0] != "B"@[0]);
                assert("Y"@[0] != "C"@[0]);
                assert("Y"@[0] != "D"@[0]);
                assert("Y"@[0] != "E"@[0]);
                assert("Y"@[0] != "F"@[0]);
                assert("Y"@[0] != "G"@[0]);
                assert("Y"@[0] != "H"@[0]);
                assert("Y"@[0] != "I"@[0]);
                assert("Y"@[0] != "J"@[0]);
                assert("Y"@[0] != "K"@[0]);
                assert("Y"@[0] != "L"@[0]);
                assert("Y"@[0] != "M"@[0]);
                assert("Y"@[0] != "N"@[0]);
                assert("Y"@[0] != "O"@[0]);
                assert("Y"@[0] != "P"@[0]);
                assert("Y"@[0] != "Q"@[0]);
                assert("Y"@[0] != "R"@[0]);
                assert("Y"@[0] != "S"@[0]);
                assert("Y"@[0] != "T"@[0]);
                assert("Y"@[0] != "U"@[0]);
                assert("Y"@[0] != "V"@[0]);
                assert("Y"@[0] != "W"@[0]);
                assert("Y"@[0] != "X"@[0]);
            }
        },
        KeyCode::KeyZ => {
            if s == "Z"@ {
                assert("Z"@[0] != "A"@[0]);
                assert("Z"@[0] != "B"@[0]);
                assert("Z"@[0] != "C"@[0]);
                assert("Z"@[0] != "D"@[0]);
                assert("Z"@[0] != "E"@[0]);
                assert("Z"@[0] != "F"@[0]);
                assert("Z"@[0] != "G"@[0]);
                assert("Z"@[0] != "H"@[0]);
                assert("Z"@[0] != "I"@[0]);
                assert("Z"@[0] != "J"@[0]);
                assert("Z"@[0] != "K"@[0]);
                assert("Z"@[0] != "L"@[0]);
                assert("Z"@[0] != "M"@[0]);
                assert("Z"@[0] != "N"@[0]);
                assert("Z"@[0] != "O"@[0]);
                assert("Z"@[0] != "P"@[0]);
                assert("Z"@[0] != "Q"@[0]);
                assert("Z"@[0] != "R"@[0]);
                assert("Z"@[0] != "S"@[0]);
                assert("Z"@[0] != "T"@[0]);
                assert("Z"@[0] != "U"@[0]);
                assert("Z"@[0] != "V"@[0]);
                assert("Z"@[0] != "W"@[0]);
                assert("Z"@[0] != "X"@[0]);
                assert("Z"@[0] != "Y"@[0]);
            }
        },
        KeyCode::Digit0 => {
            if s == "0"@ {
                assert("0"@[0] != "A"@[0]);
                assert("0"@[0] != "B"@[0]);
                assert("0"@[0] != "C"@[0]);
                assert("0"@[0] != "D"@[0]);
                assert("0"@[0] != "E"@[0]);
                assert("0"@[0] != "F"@[0]);
                assert("0"@[0] != "G"@[0]);
                assert("0"@[0] != "H"@[0]);
                assert("0"@[0] != "I"@[0]);
                assert("0"@[0] != "J"@[0]);
                assert("0"@[0] != "K"@[0]);
                assert("0"@[0] != "L"@[0]);
                assert("0"@[0] != "M"@[0]);
                assert("0"@[0] != "N"@[0]);
                assert("0"@[0] != "O"@[0]);
                assert("0"@[0] != "P"@[0]);
                assert("0"@[0] != "Q"@[0]);
                assert("0"@[0] != "R"@[0]);
                assert("0"@[0] != "S"@[0]);
                assert("0"@[0] != "T"@[0]);
                assert("0"@[0] != "U"@[0]);
                assert("0"@[0] != "V"@[0]);
                assert("0"@[0] != "W"@[0]);
                assert("0"@[0] != "X"@[0]);
                assert("0"@[0] != "Y"@[0]);
                assert("0"@[0] != "Z"@[0]);
            }
        },
        KeyCode::Digit1 => {
            if s == "Digit1"@ {
                assert("Digit1"@[5] != "Digit0"@[5]);
            }
            if s == "1"@ {
                assert("1"@[0] != "A"@[0]);
                assert("1"@[0] != "B"@[0]);
                assert("1"@[0] != "C"@[0]);
                assert("1"@[0] != "D"@[0]);
                assert("1"@[0] != "E"@[0]);
                assert("1"@[0] != "F"@[0]);
                assert("1"@[0] != "G"@[0]);
                assert("1"@[0] != "H"@[0]);
                assert("1"@[0] != "I"@[0]);
                assert("1"@[0] != "J"@[0]);
                assert("1"@[0] != "K"@[0]);
                assert("1"@[0] != "L"@[0]);
                assert("1"@[0] != "M"@[0]);
                assert("1"@[0] != "N"@[0]);
                assert("1"@[0] != "O"@[0]);
                assert("1"@[0] != "P"@[0]);
                assert("1"@[0] != "Q"@[0]);
                assert("1"@[0] != "R"@[0]);
                assert("1"@[0] != "S"@[0]);
                assert("1"@[0] != "T"@[0]);
                assert("1"@[0] != "U"@[0]);
                assert("1"@[0] != "V"@[0]);
                assert("1"@[0] != "W"@[0]);
                assert("1"@[0] != "X"@[0]);
                assert("1"@[0] != "Y"@[0]);
                assert("1"@[0] != "Z"@[0]);
                assert("1"@[0] != "0"@[0]);
            }
        },
        KeyCode::Digit2 => {
            if s == "Digit2"@ {
                assert("Digit2"@[5] != "Digit0"@[5]);
                assert("Digit2"@[5] != "Digit1"@[5]);
            }
            if s == "2"@ {
                assert("2"@[0] != "A"@[0]);
                assert("2"@[0] != "B"@[0]);
                assert("2"@[0] != "C"@[0]);
                assert("2"@[0] != "D"@[0]);
                assert("2"@[0] != "E"@[0]);
                assert("2"@[0] != "F"@[0]);
                assert("2"@[0] != "G"@[0]);
                assert("2"@[0] != "H"@[0]);
                assert("2"@[0] != "I"@[0]);
                assert("2"@[0] != "J"@[0]);
                assert("2"@[0] != "K"@[0]);
                assert("2"@[0] != "L"@[0]);
                assert("2"@[0] != "M"@[0]);
                assert("2"@[0] != "N"@[0]);
                assert("2"@[0] != "O"@[0]);
                assert("2"@[0] != "P"@[0]);
                assert("2"@[0] != "Q"@[0]);
                assert("2"@[0] != "R"@[0]);
                assert("2"@[0] != "S"@[0]);
                assert("2"@[0] != "T"@[0]);
                assert("2"@[0] != "U"@[0]);
                assert("2"@[0] != "V"@[0]);
                assert("2"@[0] != "W"@[0]);
                assert("2"@[0] != "X"@[0]);
                assert("2"@[0] != "Y"@[0]);
                assert("2"@[0] != "Z"@[0]);
                assert("2"@[0] != "0"@[0]);
                assert("2"@[0] != "1"@[0]);
            }
        },
        KeyCode::Digit3 => {
            if s == "Digit3"@ {
                assert("Digit3"@[5] != "Digit0"@[5]);
                assert("Digit3"@[5] != "Digit1"@[5]);
                assert("Digit3"@[5] != "Digit2"@[5]);
            }
            if s == "3"@ {
                assert("3"@[0] != "A"@[0]);
                assert("3"@[0] != "B"@[0]);
                assert("3"@[0] != "C"@[0]);
                assert("3"@[0] != "D"@[0]);
                assert("3"@[0] != "E"@[0]);
                assert("3"@[0] != "F"@[0]);
                assert("3"@[0] != "G"@[0]);
                assert("3"@[0] != "H"@[0]);
                assert("3"@[0] != "I"@[0]);
                assert("3"@[0] != "J"@[0]);
                assert("3"@[0] != "K"@[0]);
                assert("3"@[0] != "L"@[0]);
                assert("3"@[0] != "M"@[0]);
                assert("3"@[0] != "N"@[0]);
                assert("3"@[0] != "O"@[0]);
                assert("3"@[0] != "P"@[0]);
                assert("3"@[0] != "Q"@[0]);
                assert("3"@[0] != "R"@[0]);
                assert("3"@[0] != "S"@[0]);
                assert("3"@[0] != "T"@[0]);
                assert("3"@[0] != "U"@[0]);
                assert("3"@[0] != "V"@[0]);
                assert("3"@[0] != "W"@[0]);
                assert("3"@[0] != "X"@[0]);
                assert("3"@[0] != "Y"@[0]);
                assert("3"@[0] != "Z"@[0]);
                assert("3"@[0] != "0"@[0]);
                assert("3"@[0] != "1"@[0]);
                assert("3"@[0] != "2"@[0]);
            }
        },
        KeyCode::Escape => {
            if s == "Escape"@ {
                assert("Escape"@[0] != "Digit0"@[0]);
                assert("Escape"@[0] != "Digit1"@[0]);
                assert("Escape"@[0] != "Digit2"@[0]);
                assert("Escape"@[0] != "Digit3"@[0]);
            }
        },
        KeyCode::Enter => {
            if s == "Enter"@ {
                assert("Enter"@[0] != "Space"@[0]);
            }
        },
        KeyCode::ArrowDown => {
            if s == "ArrowDown"@ {
                assert("ArrowDown"@[0] != "ShiftLeft"@[0]);
            }
        },
        KeyCode::ArrowLeft => {
            if s == "ArrowLeft"@ {
                assert("ArrowLeft"@[0] != "ShiftLeft"@[0]);
                assert("ArrowLeft"@[5] != "ArrowDown"@[5]);
            }
        },
        KeyCode::ArrowRight => {
            if s == "ArrowRight"@ {
                assert("ArrowRight"@[0] != "ShiftRight"@[0]);
            }
        },
        _ => {},
    }
}

/// A mouse button name is read as the button of that name.
pub proof fn lemma_mouse_name_round_trip(s: Seq<char>)
    ensures
        spec_mouse_button(s) == Some(MouseButton::Left) <==> s == "Left"@,
        spec_mouse_button(s) == Some(MouseButton::Right) <==> s == "Right"@,
        spec_mouse_button(s) == Some(MouseButton::Middle) <==> s == "Middle"@,
{
    reveal_strlit("Left");
    reveal_strlit("Right");
    reveal_strlit("Middle");
    assert("Left"@.len() != "Right"@.len() && "Left"@.len() != "Middle"@.len() && "Right"@.len() != "Middle"@.len());
}

/// Maps a key name used in bindings to its key.
pub fn key_name_to_code(name: &str) -> (r: Option<KeyCode>)
    ensures
        r == spec_key_code(name@),
{
    if str_eq(name, "A") { Some(KeyCode::KeyA) }
    else if str_eq(name, "B") { Some(KeyCode::KeyB) }
    else if str_eq(name, "C") { Some(KeyCode::KeyC) }
    else if str_eq(name, "D") { Some(KeyCode::KeyD) }
    else if str_eq(name, "E") { Some(KeyCode::KeyE) }
    else if str_eq(name, "F") { Some(KeyCode::KeyF) }
    else if str_eq(name, "G") { Some(KeyCode::KeyG) }
    else if str_eq(name, "H") { Some(KeyCode::KeyH) }
    else if str_eq(name, "I") { Some(KeyCode::KeyI) }
    else if str_eq(name, "J") { Some(KeyCode::KeyJ) }
    else if str_eq(name, "K") { Some(KeyCode::KeyK) }
    else if str_eq(name, "L") { Some(KeyCode::KeyL) }
    else if str_eq(name, "M") { Some(KeyCode::KeyM) }
    else if str_eq(name, "N") { Some(KeyCode::KeyN) }
    else if str_eq(name, "O") { Some(KeyCode::KeyO) }
    else if str_eq(name, "P") { Some(KeyCode::KeyP) }
    else if str_eq(name, "Q") { Some(KeyCode::KeyQ) }
    else if str_eq(name, "R") { Some(KeyCode::KeyR) }
    else if str_eq(name, "S") { Some(KeyCode::KeyS) }
    else if str_eq(name, "T") { Some(KeyCode::KeyT) }
    else if str_eq(name, "U") { Some(KeyCode::KeyU) }
    else if str_eq(name, "V") { Some(KeyCode::KeyV) }
    else if str_eq(name, "W") { Some(KeyCode::KeyW) }
    else if str_eq(name, "X") { Some(KeyCode::KeyX) }
    else if str_eq(name, "Y") { Some(KeyCode::KeyY) }
    else if str_eq(name, "Z") { Some(KeyCode::KeyZ) }
    else if str_eq(name, "Digit0") || str_eq(name, "0") { Some(KeyCode::Digit0) }
    else if str_eq(name, "Digit1") || str_eq(name, "1") { Some(KeyCode::Digit1) }
    else if str_eq(name, "Digit2") || str_eq(name, "2") { Some(KeyCode::Digit2) }
    else if str_eq(name, "Digit3") || str_eq(name, "3") { Some(KeyCode::Digit3) }
    else if str_eq(name, "Space") { Some(KeyCode::Space) }
    else if str_eq(name, "ShiftLeft") { Some(KeyCode::ShiftLeft) }
    else if str_eq(name, "ShiftRight") { Some(KeyCode::ShiftRight) }
    else if str_eq(name, "ControlLeft") { Some(KeyCode::ControlLeft) }
    else if str_eq(name, "ControlRight") { Some(KeyCode::ControlRight) }
    else if str_eq(name, "Escape") { Some(KeyCode::Escape) }
    else if str_eq(name, "Enter") { Some(KeyCode::Enter) }
    else if str_eq(name, "Tab") { Some(KeyCode::Tab) }
    else if str_eq(name, "ArrowUp") { Some(KeyCode::ArrowUp) }
    else if str_eq(name, "ArrowDown") { Some(KeyCode::ArrowDown) }
    else if str_eq(name, "ArrowLeft") { Some(KeyCode::ArrowLeft) }
    else if str_eq(name, "ArrowRight") { Some(KeyCode::ArrowRight) }
    else { None }
}

/// The mouse button a binding names with `s`.
pub open spec fn spec_mouse_button(s: Seq<char>) -> Option<MouseButton> {
    if s == "Left"@ {
        Some(MouseButton::Left)
    } else if s == "Right"@ {
        Some(MouseButton::Right)
    } else if s == "Middle"@ {
        Some(MouseButton::Middle)
    } else {
        None
    }
}

/// Maps a mouse button name used in bindings to its button.
pub fn mouse_name_to_button(name: &str) -> (r: Option<MouseButton>)
    ensures
        r == spec_mouse_button(name@),
{
    if str_eq(name, "Left") {
        Some(MouseButton::Left)
    } else if str_eq(name, "Right") {
        Some(MouseButton::Right)
    } else if str_eq(name, "Middle") {
        Some(MouseButton::Middle)
    } else {
        None
    }
}

// ---------------------------------------------------------------------------
// Bindings
// ---------------------------------------------------------------------------

/// One physical input bound to an action, by name.
#[derive(Debug, Clone)]
pub enum InputTrigger {
    Key(String),
    Mouse(String),
}

/// Keys pulling an axis each way, and an optional mouse axis.
#[derive(Debug, Clone)]
pub struct AxisBinding {
    pub positive: Vec<String>,
    pub negative: Vec<String>,
    pub mouse: Option<String>,
}

/// Semantic action names mapped to their triggers, and named axes.
#[derive(Debug, Clone)]
pub struct InputBindings {
    pub actions: Vec<(String, Vec<InputTrigger>)>,
    pub axes: Vec<(String, AxisBinding)>,
}

/// The input a trigger stands for, when its name is known.
pub open spec fn trigger_code(t: InputTrigger) -> Option<InputCode> {
    match t {
        InputTrigger::Key(name) => match spec_key_code(name@) {
            Some(k) => Some(InputCode::Key(k)),
            None => None,
        },
        InputTrigger::Mouse(name) => match spec_mouse_button(name@) {
            Some(b) => Some(InputCode::Mouse(b)),
            None => None,
        },
    }
}

/// Index of the first entry bound to `action`, searching from `i`.
pub open spec fn action_index_from(actions: Seq<(String, Vec<InputTrigger>)>, action: Seq<char>, i: int) -> Option<int>
    decreases actions.len() - i,
{
    if i < 0 || i >= actions.len() {
        None
    } else if actions[i].0@ == action {
        Some(i)
    } else {
        action_index_from(actions, action, i + 1)
    }
}

/// The triggers of an action (its first entry), if it is bound.
pub open spec fn action_triggers(b: InputBindings, action: Seq<char>) -> Option<Seq<InputTrigger>> {
    match action_index_from(b.actions@, action, 0) {
        Some(i) => Some(b.actions@[i].1@),
        None => None,
    }
}

fn trigger(name: &str, mouse: bool) -> (t: InputTrigger)
    ensures
        t == (if mouse {
            InputTrigger::Mouse(t->Mouse_0)
        } else {
            InputTrigger::Key(t->Key_0)
        }),
        match t {
            InputTrigger::Key(s) => !mouse && s@ == name@,
            InputTrigger::Mouse(s) => mouse && s@ == name@,
        },
{
    if mouse {
        InputTrigger::Mouse(name.to_owned())
    } else {
        InputTrigger::Key(name.to_owned())
    }
}

fn single_action(action: &str, name: &str, mouse: bool) -> (e: (String, Vec<InputTrigger>))
    ensures
        e.0@ == action@,
        e.1@.len() == 1,
        match e.1@[0] {
            InputTrigger::Key(s) => !mouse && s@ == name@,
            InputTrigger::Mouse(s) => mouse && s@ == name@,
        },
{
    let mut v = Vec::new();
    v.push(trigger(name, mouse));
    (action.to_owned(), v)
}

/// `entry` binds `action` to exactly the key named `key`.
pub open spec fn binds_key(entry: (String, Vec<InputTrigger>), action: Seq<char>, key: Seq<char>) -> bool {
    &&& entry.0@ == action
    &&& entry.1@.len() == 1
    &&& entry.1@[0] matches InputTrigger::Key(s) && s@ == key
}

impl Default for InputBindings {
    /// WASD movement, Space to jump, E to interact, left Shift to sprint and
    /// the left mouse button to attack.
    fn default() -> (b: Self)
        ensures
            b.actions@.len() == 8,
            binds_key(b.actions@[0], "move_forward"@, "W"@),
            binds_key(b.actions@[1], "move_backward"@, "S"@),
            binds_key(b.actions@[2], "move_left"@, "A"@),
            binds_key(b.actions@[3], "move_right"@, "D"@),
            binds_key(b.actions@[4], "jump"@, "Space"@),
            binds_key(b.actions@[5], "interact"@, "E"@),
            binds_key(b.actions@[6], "sprint"@, "ShiftLeft"@),
            b.actions@[7].0@ == "attack"@,
            b.actions@[7].1@.len() == 1,
            b.actions@[7].1@[0] matches InputTrigger::Mouse(s) && s@ == "Left"@,
            b.axes@.len() == 0,
            b.well_formed(),
    {
        let mut actions = Vec::new();
        actions.push(single_action("move_forward", "W", false));
        actions.push(single_action("move_backward", "S", false));
        actions.push(single_action("move_left", "A", false));
        actions.push(single_action("move_right", "D", false));
        actions.push(single_action("jump", "Space", false));
        actions.push(single_action("interact", "E", false));
        actions.push(single_action("sprint", "ShiftLeft", false));
        actions.push(single_action("attack", "Left", true));
        proof {
            reveal_strlit("move_forward");
            reveal_strlit("move_backward");
            reveal_strlit("move_left");
            reveal_strlit("move_right");
            reveal_strlit("jump");
            reveal_strlit("interact");
            reveal_strlit("sprint");
            reveal_strlit("attack");
        }
        let b = InputBindings { actions, axes: Vec::new() };
        proof {
            assert forall|i: int, j: int| 0 <= i < j < b.actions@.len() implies (#[trigger] b.actions@[i]).0@
                != (#[trigger] b.actions@[j]).0@ by {
                if b.actions@[i].0@ == b.actions@[j].0@ {
                    assert(b.actions@[i].0@.len() == b.actions@[j].0@.len());
                    assert(b.actions@[i].0@[0] == b.actions@[j].0@[0]);
                }
            }
        }
        b
    }
}

impl InputBindings {
    /// Each action and each axis is bound by one entry at most, as in a map.
    pub open spec fn well_formed(&self) -> bool {
        distinct_keys(self.actions@) && distinct_keys(self.axes@)
    }

    /// Position of the first entry bound to `action`.
    pub fn find_action(&self, action: &str) -> (r: Option<usize>)
        ensures
            match r {
                Some(i) => i < self.actions@.len() && action_index_from(self.actions@, action@, 0)
                    == Some(i as int),
                None => action_index_from(self.actions@, action@, 0) is None,
            },
    {
        let mut i: usize = 0;
        while i < self.actions.len()
            invariant
                i <= self.actions@.len(),
                action_index_from(self.actions@, action@, 0) == action_index_from(
                    self.actions@,
                    action@,
                    i as int,
                ),
            decreases self.actions@.len() - i,
        {
            if str_eq(self.actions[i].0.as_str(), action) {
                return Some(i);
            }
            i = i + 1;
        }
        None
    }

    /// Whether an action is bound.
    pub fn contains_action(&self, action: &str) -> (r: bool)
        ensures
            r == (action_index_from(self.actions@, action@, 0) is Some),
    {
        match self.find_action(action) {
            Some(_) => true,
            None => false,
        }
    }
}

// ---------------------------------------------------------------------------
// Sets of inputs
// ---------------------------------------------------------------------------

/// A set of inputs.
pub struct CodeSet {
    items: Vec<InputCode>,
}

impl View for CodeSet {
    type V = Set<InputCode>;

    closed spec fn view(&self) -> Set<InputCode> {
        self.items@.to_set()
    }
}

impl CodeSet {
    #[verifier::type_invariant]
    closed spec fn distinct(&self) -> bool {
        self.items@.no_duplicates()
    }

    /// The empty set.
    pub fn new() -> (s: Self)
        ensures
            s@ == Set::<InputCode>::empty(),
    {
        let s = CodeSet { items: Vec::new() };
        proof {
            assert(s@ =~= Set::<InputCode>::empty());
        }
        s
    }

    fn index_of(&self, c: InputCode) -> (r: Option<usize>)
        ensures
            match r {
                Some(i) => i < self.items@.len() && self.items@[i as int] == c,
                None => !self.items@.contains(c),
            },
    {
        let mut i: usize = 0;
        while i < self.items.len()
            invariant
                i <= self.items@.len(),
                forall|k: int| 0 <= k < i ==> self.items@[k] != c,
            decreases self.items@.len() - i,
        {
            if self.items[i] == c {
                return Some(i);
            }
            i = i + 1;
        }
        None
    }

    /// Whether `c` is in the set.
    pub fn contains(&self, c: InputCode) -> (r: bool)
        ensures
            r == self@.contains(c),
    {
        match self.index_of(c) {
            Some(_) => true,
            None => false,
        }
    }

    /// Adds `c`.
    pub fn insert(&mut self, c: InputCode)
        ensures
            final(self)@ == old(self)@.insert(c),
    {
        proof {
            use_type_invariant(&*self);
        }
        match self.index_of(c) {
            Some(_) => {
                proof {
                    assert(self@ =~= self@.insert(c));
                }
            },
            None => {
                let ghost before = self.items@;
                let mut items = Vec::new();
                std::mem::swap(&mut items, &mut self.items);
                items.push(c);
                proof {
                    assert(items@ == before.push(c));
                    assert(items@.no_duplicates()) by {
                        assert forall|i: int, j: int|
                            0 <= i < items@.len() && 0 <= j < items@.len() && i != j implies items@[i]
                            != items@[j] by {
                            if i == before.len() {
                                assert(before.contains(items@[j]));
                            } else if j == before.len() {
                                assert(before.contains(items@[i]));
                            }
                        }
                    }
                    assert(items@.to_set() =~= before.to_set().insert(c)) by {
                        assert forall|x: InputCode| items@.to_set().contains(x) <==> before.to_set().insert(c).contains(x) by {
                            if items@.contains(x) && x != c {
                                let i = choose|i: int| 0 <= i < items@.len() && items@[i] == x;
                                assert(before[i] == x);
                            }
                            if before.contains(x) {
                                let i = choose|i: int| 0 <= i < before.len() && before[i] == x;
                                assert(items@[i] == x);
                            }
                            if x == c {
                                assert(items@[before.len() as int] == c);
                            }
                        }
                    }
                }
                self.items = items;
            },
        }
    }

    /// Removes `c`.
    pub fn remove(&mut self, c: InputCode)
        ensures
            final(self)@ == old(self)@.remove(c),
    {
        proof {
            use_type_invariant(&*self);
        }
        match self.index_of(c) {
            Some(i) => {
                let ghost before = self.items@;
                let mut items = Vec::new();
                std::mem::swap(&mut items, &mut self.items);
                items.remove(i);
                proof {
                    assert(items@ == before.remove(i as int));
                    assert(items@.no_duplicates()) by {
                        assert forall|a: int, b: int|
                            0 <= a < items@.len() && 0 <= b < items@.len() && a != b implies items@[a]
                            != items@[b] by {
                            let a2 = if a < i { a } else { a + 1 };
                            let b2 = if b < i { b } else { b + 1 };
                            assert(items@[a] == before[a2]);
                            assert(items@[b] == before[b2]);
                        }
                    }
                    assert(items@.to_set() =~= before.to_set().remove(c)) by {
                        assert forall|x: InputCode| items@.to_set().contains(x) <==> before.to_set().remove(c).contains(x) by {
                            if items@.contains(x) {
                                let k = choose|k: int| 0 <= k < items@.len() && items@[k] == x;
                                let k2 = if k < i { k } else { k + 1 };
                                assert(before[k2] == x);
                                assert(k2 != i);
                            }
                            if before.contains(x) && x != c {
                                let k = choose|k: int| 0 <= k < before.len() && before[k] == x;
                                assert(k != i);
                                let k2 = if k < i { k } else { k - 1 };
                                assert(items@[k2] == x);
                            }
                        }
                    }
                }
                self.items = items;
            },
            None => {
                proof {
                    assert(self@ =~= self@.remove(c));
                }
            },
        }
    }

    /// Empties the set.
    pub fn clear(&mut self)
        ensures
            final(self)@ == Set::<InputCode>::empty(),
    {
        self.items = Vec::new();
        proof {
            assert(self@ =~= Set::<InputCode>::empty());
        }
    }

    /// Empties the set, handing out what it held.
    pub fn take_all(&mut self) -> (r: Vec<InputCode>)
        ensures
            r@.to_set() == old(self)@,
            final(self)@ == Set::<InputCode>::empty(),
    {
        let mut items = Vec::new();
        std::mem::swap(&mut items, &mut self.items);
        proof {
            assert(self@ =~= Set::<InputCode>::empty());
        }
        items
    }
}

// ---------------------------------------------------------------------------
// Input state
// ---------------------------------------------------------------------------

/// What the input state holds, as sets.
pub struct InputView {
    pub keys_held: Set<InputCode>,
    pub keys_just_pressed: Set<InputCode>,
    pub keys_just_released: Set<InputCode>,
    pub mouse_held: Set<InputCode>,
    pub mouse_just_pressed: Set<InputCode>,
    pub mouse_just_released: Set<InputCode>,
    pub synthetic_keys_pressed: Set<InputCode>,
    pub synthetic_keys_released: Set<InputCode>,
    pub synthetic_mouse_pressed: Set<InputCode>,
    pub synthetic_mouse_released: Set<InputCode>,
    /// Whether the cursor is captured (for an FPS camera).
    pub cursor_captured: bool,
}

/// The state at the start of a frame: the transient sets start over, and the
/// injected presses and releases take effect.
pub open spec fn spec_begin_frame(v: InputView) -> InputView {
    InputView {
        keys_held: v.keys_held.union(v.synthetic_keys_pressed).difference(v.synthetic_keys_released),
        keys_just_pressed: v.synthetic_keys_pressed,
        keys_just_released: v.synthetic_keys_released,
        mouse_held: v.mouse_held.union(v.synthetic_mouse_pressed).difference(
            v.synthetic_mouse_released,
        ),
        mouse_just_pressed: v.synthetic_mouse_pressed,
        mouse_just_released: v.synthetic_mouse_released,
        synthetic_keys_pressed: Set::empty(),
        synthetic_keys_released: Set::empty(),
        synthetic_mouse_pressed: Set::empty(),
        synthetic_mouse_released: Set::empty(),
        cursor_captured: v.cursor_captured,
    }
}

/// The state after an injected key press (or, with `press` false, release).
pub open spec fn spec_inject_key(v: InputView, c: InputCode, press: bool) -> InputView {
    if press {
        InputView {
            synthetic_keys_pressed: v.synthetic_keys_pressed.insert(c),
            synthetic_keys_released: v.synthetic_keys_released.remove(c),
            ..v
        }
    } else {
        InputView {
            synthetic_keys_released: v.synthetic_keys_released.insert(c),
            synthetic_keys_pressed: v.synthetic_keys_pressed.remove(c),
            ..v
        }
    }
}

/// The state after an injected mouse press (or, with `press` false, release).
pub open spec fn spec_inject_mouse(v: InputView, c: InputCode, press: bool) -> InputView {
    if press {
        InputView {
            synthetic_mouse_pressed: v.synthetic_mouse_pressed.insert(c),
            synthetic_mouse_released: v.synthetic_mouse_released.remove(c),
            ..v
        }
    } else {
        InputView {
            synthetic_mouse_released: v.synthetic_mouse_released.insert(c),
            synthetic_mouse_pressed: v.synthetic_mouse_pressed.remove(c),
            ..v
        }
    }
}

/// The state after a key event from the window.
pub open spec fn spec_key_event(v: InputView, c: InputCode, pressed: bool) -> InputView {
    if pressed {
        InputView {
            keys_just_pressed: if v.keys_held.contains(c) {
                v.keys_just_pressed
            } else {
                v.keys_just_pressed.insert(c)
            },
            keys_held: v.keys_held.insert(c),
            ..v
        }
    } else {
        InputView {
            keys_held: v.keys_held.remove(c),
            keys_just_released: v.keys_just_released.insert(c),
            ..v
        }
    }
}

/// The state after a mouse button event from the window.
pub open spec fn spec_mouse_event(v: InputView, c: InputCode, pressed: bool) -> InputView {
    if pressed {
        InputView {
            mouse_just_pressed: if v.mouse_held.contains(c) {
                v.mouse_just_pressed
            } else {
                v.mouse_just_pressed.insert(c)
            },
            mouse_held: v.mouse_held.insert(c),
            ..v
        }
    } else {
        InputView {
            mouse_held: v.mouse_held.remove(c),
            mouse_just_released: v.mouse_just_released.insert(c),
            ..v
        }
    }
}

/// A mouse button event from the window: the button is held exactly when it
/// was pressed, it counts as just pressed when it was not held before and as
/// just released on release, and every other button keeps its state.
pub proof fn lemma_mouse_event_effect(v: InputView, c: InputCode, pressed: bool, d: InputCode)
    requires
        d != c,
    ensures
        spec_mouse_event(v, c, pressed).mouse_held.contains(c) == pressed,
        spec_mouse_event(v, c, pressed).mouse_just_pressed.contains(c) == (v.mouse_just_pressed.contains(c) || (
        pressed && !v.mouse_held.contains(c))),
        spec_mouse_event(v, c, pressed).mouse_just_released.contains(c) == (v.mouse_just_released.contains(c)
            || !pressed),
        spec_mouse_event(v, c, pressed).mouse_held.contains(d) == v.mouse_held.contains(d),
        spec_mouse_event(v, c, pressed).mouse_just_pressed.contains(d) == v.mouse_just_pressed.contains(d),
        spec_mouse_event(v, c, pressed).mouse_just_released.contains(d) == v.mouse_just_released.contains(d),
        spec_mouse_event(v, c, pressed).keys_held == v.keys_held,
{
}

/// A key event from the window: the key is held exactly when it was
/// pressed, it counts as just pressed when it was not held before and as just
/// released on release, and every other key keeps its state.
pub proof fn lemma_key_event_effect(v: InputView, c: InputCode, pressed: bool, d: InputCode)
    requires
        d != c,
    ensures
        spec_key_event(v, c, pressed).keys_held.contains(c) == pressed,
        spec_key_event(v, c, pressed).keys_just_pressed.contains(c) == (v.keys_just_pressed.contains(c) || (pressed
            && !v.keys_held.contains(c))),
        spec_key_event(v, c, pressed).keys_just_released.contains(c) == (v.keys_just_released.contains(c)
            || !pressed),
        spec_key_event(v, c, pressed).keys_held.contains(d) == v.keys_held.contains(d),
        spec_key_event(v, c, pressed).keys_just_pressed.contains(d) == v.keys_just_pressed.contains(d),
        spec_key_event(v, c, pressed).keys_just_released.contains(d) == v.keys_just_released.contains(d),
        spec_key_event(v, c, pressed).mouse_held == v.mouse_held,
{
}

/// Which of the three queries an action check looks at.
#[derive(Debug, Clone, Copy, PartialEq, Eq, Structural)]
pub enum Phase {
    Held,
    JustPressed,
    JustReleased,
}

/// The set of keys a query looks at.
pub open spec fn key_set(v: InputView, p: Phase) -> Set<InputCode> {
    match p {
        Phase::Held => v.keys_held,
        Phase::JustPressed => v.keys_just_pressed,
        Phase::JustReleased => v.keys_just_released,
    }
}

/// The set of mouse buttons a query looks at.
pub open spec fn mouse_set(v: InputView, p: Phase) -> Set<InputCode> {
    match p {
        Phase::Held => v.mouse_held,
        Phase::JustPressed => v.mouse_just_pressed,
        Phase::JustReleased => v.mouse_just_released,
    }
}

/// Trigger `t` is active in the given phase.
pub open spec fn trigger_active(v: InputView, p: Phase, t: InputTrigger) -> bool {
    match trigger_code(t) {
        Some(InputCode::Key(k)) => key_set(v, p).contains(InputCode::Key(k)),
        Some(InputCode::Mouse(b)) => mouse_set(v, p).contains(InputCode::Mouse(b)),
        None => false,
    }
}

/// Some trigger of `ts` is active in the given phase.
pub open spec fn any_trigger_active(v: InputView, p: Phase, ts: Seq<InputTrigger>) -> bool {
    exists|i: int| 0 <= i < ts.len() && trigger_active(v, p, #[trigger] ts[i])
}

/// Some trigger bound to `action` is active in the given phase.
pub open spec fn action_active(b: InputBindings, v: InputView, p: Phase, action: Seq<char>) -> bool {
    match action_triggers(b, action) {
        Some(ts) => any_trigger_active(v, p, ts),
        None => false,
    }
}

/// Central input state, updated each frame.
pub struct InputState {
    bindings: InputBindings,
    keys_held: CodeSet,
    keys_just_pressed: CodeSet,
    keys_just_released: CodeSet,
    mouse_buttons_held: CodeSet,
    mouse_buttons_just_pressed: CodeSet,
    mouse_buttons_just_released: CodeSet,
    cursor_captured: bool,
    synthetic_keys_pressed: CodeSet,
    synthetic_keys_released: CodeSet,
    synthetic_mouse_pressed: CodeSet,
    synthetic_mouse_released: CodeSet,
}

impl View for InputState {
    type V = InputView;

    closed spec fn view(&self) -> InputView {
        InputView {
            keys_held: self.keys_held@,
            keys_just_pressed: self.keys_just_pressed@,
            keys_just_released: self.keys_just_released@,
            mouse_held: self.mouse_buttons_held@,
            mouse_just_pressed: self.mouse_buttons_just_pressed@,
            mouse_just_released: self.mouse_buttons_just_released@,
            synthetic_keys_pressed: self.synthetic_keys_pressed@,
            synthetic_keys_released: self.synthetic_keys_released@,
            synthetic_mouse_pressed: self.synthetic_mouse_pressed@,
            synthetic_mouse_released: self.synthetic_mouse_released@,
            cursor_captured: self.cursor_captured,
        }
    }
}

/// Nothing held, nothing changed, nothing injected.
pub open spec fn is_idle(v: InputView) -> bool {
    &&& v.keys_held == Set::<InputCode>::empty()
    &&& v.keys_just_pressed == Set::<InputCode>::empty()
    &&& v.keys_just_released == Set::<InputCode>::empty()
    &&& v.mouse_held == Set::<InputCode>::empty()
    &&& v.mouse_just_pressed == Set::<InputCode>::empty()
    &&& v.mouse_just_released == Set::<InputCode>::empty()
    &&& v.synthetic_keys_pressed == Set::<InputCode>::empty()
    &&& v.synthetic_keys_released == Set::<InputCode>::empty()
    &&& v.synthetic_mouse_pressed == Set::<InputCode>::empty()
    &&& v.synthetic_mouse_released == Set::<InputCode>::empty()
}

fn apply_all(items: &Vec<InputCode>, held: &mut CodeSet, changed: &mut CodeSet, press: bool)
    ensures
        final(held)@ == if press {
            old(held)@.union(items@.to_set())
        } else {
            old(held)@.difference(items@.to_set())
        },
        final(changed)@ == old(changed)@.union(items@.to_set()),
{
    let mut i: usize = 0;
    while i < items.len()
        invariant
            i <= items@.len(),
            held@ == if press {
                old(held)@.union(items@.take(i as int).to_set())
            } else {
                old(held)@.difference(items@.take(i as int).to_set())
            },
            changed@ == old(changed)@.union(items@.take(i as int).to_set()),
        decreases items@.len() - i,
    {
        let c = items[i];
        proof {
            assert(items@.take(i + 1) =~= items@.take(i as int).push(c));
            assert(items@.take(i as int).push(c).to_set() =~= items@.take(i as int).to_set().insert(c)) by {
                assert forall|x: InputCode| items@.take(i as int).push(c).to_set().contains(x) <==> items@.take(i as int).to_set().insert(c).contains(x) by {
                    let s = items@.take(i as int);
                    if s.push(c).contains(x) && x != c {
                        let k = choose|k: int| 0 <= k < s.push(c).len() && s.push(c)[k] == x;
                        assert(s[k] == x);
                    }
                    if s.contains(x) {
                        let k = choose|k: int| 0 <= k < s.len() && s[k] == x;
                        assert(s.push(c)[k] == x);
                    }
                    if x == c {
                        assert(s.push(c)[s.len() as int] == c);
                    }
                }
            }
        }
        if press {
            held.insert(c);
        } else {
            held.remove(c);
        }
        changed.insert(c);
        proof {
            let s = items@.take(i as int).to_set();
            if press {
                assert(held@ =~= old(held)@.union(s.insert(c)));
            } else {
                assert(held@ =~= old(held)@.difference(s.insert(c)));
            }
            assert(changed@ =~= old(changed)@.union(s.insert(c)));
        }
        i = i + 1;
    }
    proof {
        assert(items@.take(items@.len() as int) =~= items@);
    }
}

impl InputState {
    /// A fresh state over the given bindings: nothing held.
    pub fn new(bindings: InputBindings) -> (s: Self)
        requires
            bindings.well_formed(),
        ensures
            is_idle(s@),
            s.bindings() == bindings,
            !s@.cursor_captured,
    {
        InputState {
            bindings,
            keys_held: CodeSet::new(),
            keys_just_pressed: CodeSet::new(),
            keys_just_released: CodeSet::new(),
            mouse_buttons_held: CodeSet::new(),
            mouse_buttons_just_pressed: CodeSet::new(),
            mouse_buttons_just_released: CodeSet::new(),
            cursor_captured: false,
            synthetic_keys_pressed: CodeSet::new(),
            synthetic_keys_released: CodeSet::new(),
            synthetic_mouse_pressed: CodeSet::new(),
            synthetic_mouse_released: CodeSet::new(),
        }
    }

    /// Whether the cursor is captured (for an FPS camera).
    pub fn cursor_captured(&self) -> (r: bool)
        ensures
            r == self@.cursor_captured,
    {
        self.cursor_captured
    }

    /// Captures or releases the cursor.
    pub fn set_cursor_captured(&mut self, captured: bool)
        ensures
            final(self)@ == (InputView { cursor_captured: captured, ..old(self)@ }),
            final(self).bindings() == old(self).bindings(),
    {
        self.cursor_captured = captured;
    }

    /// The bindings the state answers action queries with.
    pub closed spec fn bindings(&self) -> InputBindings {
        self.bindings
    }

    /// Starts a frame: clears what changed last frame and applies the injected
    /// presses and releases.
    pub fn begin_frame(&mut self)
        ensures
            final(self)@ == spec_begin_frame(old(self)@),
            final(self).bindings() == old(self).bindings(),
    {
        self.keys_just_pressed.clear();
        self.keys_just_released.clear();
        self.mouse_buttons_just_pressed.clear();
        self.mouse_buttons_just_released.clear();
        let kp = self.synthetic_keys_pressed.take_all();
        apply_all(&kp, &mut self.keys_held, &mut self.keys_just_pressed, true);
        let kr = self.synthetic_keys_released.take_all();
        apply_all(&kr, &mut self.keys_held, &mut self.keys_just_released, false);
        let mp = self.synthetic_mouse_pressed.take_all();
        apply_all(&mp, &mut self.mouse_buttons_held, &mut self.mouse_buttons_just_pressed, true);
        let mr = self.synthetic_mouse_released.take_all();
        apply_all(&mr, &mut self.mouse_buttons_held, &mut self.mouse_buttons_just_released, false);
        proof {
            assert(self@ =~= spec_begin_frame(old(self)@)) by {
                assert(self.keys_just_pressed@ =~= kp@.to_set());
                assert(self.keys_just_released@ =~= kr@.to_set());
                assert(self.mouse_buttons_just_pressed@ =~= mp@.to_set());
                assert(self.mouse_buttons_just_released@ =~= mr@.to_set());
            }
        }
    }

    /// A key went down (`pressed`) or up in the window.
    pub fn key_event(&mut self, code: KeyCode, pressed: bool)
        ensures
            final(self)@ == spec_key_event(old(self)@, InputCode::Key(code), pressed),
            final(self).bindings() == old(self).bindings(),
    {
        let c = InputCode::Key(code);
        if pressed {
            if !self.keys_held.contains(c) {
                self.keys_just_pressed.insert(c);
            }
            self.keys_held.insert(c);
        } else {
            self.keys_held.remove(c);
            self.keys_just_released.insert(c);
        }
    }

    /// A mouse button went down (`pressed`) or up in the window.
    pub fn mouse_button_event(&mut self, button: MouseButton, pressed: bool)
        ensures
            final(self)@ == spec_mouse_event(old(self)@, InputCode::Mouse(button), pressed),
            final(self).bindings() == old(self).bindings(),
    {
        let c = InputCode::Mouse(button);
        if pressed {
            if !self.mouse_buttons_held.contains(c) {
                self.mouse_buttons_just_pressed.insert(c);
            }
            self.mouse_buttons_held.insert(c);
        } else {
            self.mouse_buttons_held.remove(c);
            self.mouse_buttons_just_released.insert(c);
        }
    }

    fn trigger_is_active(&self, t: &InputTrigger, phase: Phase) -> (r: bool)
        ensures
            r == trigger_active(self@, phase, *t),
    {
        match t {
            InputTrigger::Key(name) => match key_name_to_code(name.as_str()) {
                Some(k) => {
                    let c = InputCode::Key(k);
                    match phase {
                        Phase::Held => self.keys_held.contains(c),
                        Phase::JustPressed => self.keys_just_pressed.contains(c),
                        Phase::JustReleased => self.keys_just_released.contains(c),
                    }
                },
                None => false,
            },
            InputTrigger::Mouse(name) => match mouse_name_to_button(name.as_str()) {
                Some(b) => {
                    let c = InputCode::Mouse(b);
                    match phase {
                        Phase::Held => self.mouse_buttons_held.contains(c),
                        Phase::JustPressed => self.mouse_buttons_just_pressed.contains(c),
                        Phase::JustReleased => self.mouse_buttons_just_released.contains(c),
                    }
                },
                None => false,
            },
        }
    }

    /// Whether some trigger of `action` is active in the given phase.
    pub fn action_in_phase(&self, action: &str, phase: Phase) -> (r: bool)
        ensures
            r == action_active(self.bindings(), self@, phase, action@),
    {
        match self.bindings.find_action(action) {
            Some(i) => {
                let triggers = &self.bindings.actions[i].1;
                let mut k: usize = 0;
                while k < triggers.len()
                    invariant
                        i < self.bindings.actions@.len(),
                        action_index_from(self.bindings.actions@, action@, 0) == Some(i as int),
                        *triggers == self.bindings.actions@[i as int].1,
                        k <= triggers@.len(),
                        forall|j: int| 0 <= j < k ==> !trigger_active(self@, phase, #[trigger] triggers@[j]),
                    decreases triggers@.len() - k,
                {
                    if self.trigger_is_active(&triggers[k], phase) {
                        proof {
                            assert(action_triggers(self.bindings(), action@) == Some(triggers@));
                            let ts = triggers@;
                            assert(trigger_active(self@, phase, ts[k as int]));
                            assert(exists|j: int| 0 <= j < ts.len() && trigger_active(self@, phase, #[trigger] ts[j]));
                            assert(any_trigger_active(self@, phase, ts));
                            assert(action_triggers(self.bindings(), action@) == Some(ts));
                        }
                        return true;
                    }
                    k = k + 1;
                }
                false
            },
            None => false,
        }
    }

    /// Whether a semantic action is currently held.
    pub fn pressed(&self, action: &str) -> (r: bool)
        ensures
            r == action_active(self.bindings(), self@, Phase::Held, action@),
    {
        self.action_in_phase(action, Phase::Held)
    }

    /// Whether a semantic action was pressed this frame.
    pub fn just_pressed(&self, action: &str) -> (r: bool)
        ensures
            r == action_active(self.bindings(), self@, Phase::JustPressed, action@),
    {
        self.action_in_phase(action, Phase::JustPressed)
    }

    /// Whether a semantic action was released this frame.
    pub fn just_released(&self, action: &str) -> (r: bool)
        ensures
            r == action_active(self.bindings(), self@, Phase::JustReleased, action@),
    {
        self.action_in_phase(action, Phase::JustReleased)
    }

    /// Whether any bound action was pressed this frame.
    pub fn any_just_pressed(&self) -> (r: bool)
        ensures
            r == exists|i: int|
                0 <= i < self.bindings().actions@.len() && action_active(
                    self.bindings(),
                    self@,
                    Phase::JustPressed,
                    (#[trigger] self.bindings().actions@[i]).0@,
                ),
    {
        let mut i: usize = 0;
        while i < self.bindings.actions.len()
            invariant
                i <= self.bindings.actions@.len(),
                forall|j: int|
                    0 <= j < i ==> !action_active(
                        self.bindings(),
                        self@,
                        Phase::JustPressed,
                        (#[trigger] self.bindings().actions@[j]).0@,
                    ),
            decreases self.bindings.actions@.len() - i,
        {
            if self.just_pressed(self.bindings.actions[i].0.as_str()) {
                return true;
            }
            i = i + 1;
        }
        false
    }

    /// The direction of a four-way movement axis before normalisation: `x` is
    /// right minus left, `y` forward minus backward, each action counting 1
    /// while held.
    pub fn axis_2d(&self, forward: &str, backward: &str, left: &str, right: &str) -> (r: (i8, i8))
        ensures
            r.0 == (if action_active(self.bindings(), self@, Phase::Held, right@) { 1int } else { 0 })
                - (if action_active(self.bindings(), self@, Phase::Held, left@) { 1int } else { 0 }),
            r.1 == (if action_active(self.bindings(), self@, Phase::Held, forward@) { 1int } else { 0 })
                - (if action_active(self.bindings(), self@, Phase::Held, backward@) { 1int } else { 0 }),
    {
        let mut x: i8 = 0;
        let mut y: i8 = 0;
        if self.pressed(forward) {
            y = y + 1;
        }
        if self.pressed(backward) {
            y = y - 1;
        }
        if self.pressed(left) {
            x = x - 1;
        }
        if self.pressed(right) {
            x = x + 1;
        }
        (x, y)
    }

    /// Whether a key is held.
    pub fn key_held(&self, code: KeyCode) -> (r: bool)
        ensures
            r == self@.keys_held.contains(InputCode::Key(code)),
    {
        self.keys_held.contains(InputCode::Key(code))
    }

    /// Whether a key went down this frame.
    pub fn just_pressed_key(&self, code: KeyCode) -> (r: bool)
        ensures
            r == self@.keys_just_pressed.contains(InputCode::Key(code)),
    {
        self.keys_just_pressed.contains(InputCode::Key(code))
    }

    /// Queues a press (or, with `press` false, a release) of a key, applied at
    /// the next frame start; it cancels a queued opposite of the same key.
    pub fn inject_key(&mut self, code: KeyCode, press: bool)
        ensures
            final(self)@ == spec_inject_key(old(self)@, InputCode::Key(code), press),
            final(self).bindings() == old(self).bindings(),
    {
        if press {
            self.synthetic_keys_pressed.insert(InputCode::Key(code));
            self.synthetic_keys_released.remove(InputCode::Key(code));
        } else {
            self.synthetic_keys_released.insert(InputCode::Key(code));
            self.synthetic_keys_pressed.remove(InputCode::Key(code));
        }
    }

    /// Queues a key press by key name, applied at the next frame start; it
    /// cancels a queued release of the same key. Unknown names do nothing.
    pub fn inject_key_press(&mut self, key_name: &str)
        ensures
            final(self)@ == match spec_key_code(key_name@) {
                Some(k) => spec_inject_key(old(self)@, InputCode::Key(k), true),
                None => old(self)@,
            },
            final(self).bindings() == old(self).bindings(),
    {
        match key_name_to_code(key_name) {
            Some(k) => self.inject_key(k, true),
            None => {},
        }
    }

    /// Queues a key release by key name, applied at the next frame start; it
    /// cancels a queued press of the same key. Unknown names do nothing.
    pub fn inject_key_release(&mut self, key_name: &str)
        ensures
            final(self)@ == match spec_key_code(key_name@) {
                Some(k) => spec_inject_key(old(self)@, InputCode::Key(k), false),
                None => old(self)@,
            },
            final(self).bindings() == old(self).bindings(),
    {
        match key_name_to_code(key_name) {
            Some(k) => self.inject_key(k, false),
            None => {},
        }
    }

    /// Queues a mouse button press; it cancels a queued release.
    pub fn inject_mouse_press(&mut self, button: MouseButton)
        ensures
            final(self)@ == spec_inject_mouse(old(self)@, InputCode::Mouse(button), true),
            final(self).bindings() == old(self).bindings(),
    {
        self.synthetic_mouse_pressed.insert(InputCode::Mouse(button));
        self.synthetic_mouse_released.remove(InputCode::Mouse(button));
    }

    /// Queues a mouse button release; it cancels a queued press.
    pub fn inject_mouse_release(&mut self, button: MouseButton)
        ensures
            final(self)@ == spec_inject_mouse(old(self)@, InputCode::Mouse(button), false),
            final(self).bindings() == old(self).bindings(),
    {
        self.synthetic_mouse_released.insert(InputCode::Mouse(button));
        self.synthetic_mouse_pressed.remove(InputCode::Mouse(button));
    }
}

// ---------------------------------------------------------------------------
// Laws
// ---------------------------------------------------------------------------

/// An injected key press shows at the next frame start: the key is held and
/// counts as just pressed, and not as just released.
pub proof fn lemma_injected_press_takes_effect(v: InputView, k: KeyCode)
    ensures
        spec_begin_frame(spec_inject_key(v, InputCode::Key(k), true)).keys_held.contains(
            InputCode::Key(k),
        ),
        spec_begin_frame(spec_inject_key(v, InputCode::Key(k), true)).keys_just_pressed.contains(
            InputCode::Key(k),
        ),
        !spec_begin_frame(spec_inject_key(v, InputCode::Key(k), true)).keys_just_released.contains(
            InputCode::Key(k),
        ),
{
}

/// Of a press and a release injected before a frame starts, the last one
/// wins.
pub proof fn lemma_last_injection_wins(v: InputView, k: KeyCode)
    ensures
        ({
            let pr = spec_begin_frame(
                spec_inject_key(spec_inject_key(v, InputCode::Key(k), true), InputCode::Key(k), false),
            );
            !pr.keys_held.contains(InputCode::Key(k)) && pr.keys_just_released.contains(
                InputCode::Key(k),
            ) && !pr.keys_just_pressed.contains(InputCode::Key(k))
        }),
        ({
            let rp = spec_begin_frame(
                spec_inject_key(spec_inject_key(v, InputCode::Key(k), false), InputCode::Key(k), true),
            );
            rp.keys_held.contains(InputCode::Key(k)) && rp.keys_just_pressed.contains(
                InputCode::Key(k),
            ) && !rp.keys_just_released.contains(InputCode::Key(k))
        }),
{
}

/// "Just pressed" and "just released" last one frame: a second frame start
/// with nothing injected in between clears them and keeps what is held.
pub proof fn lemma_transient_state_lasts_one_frame(v: InputView)
    ensures
        spec_begin_frame(spec_begin_frame(v)).keys_just_pressed == Set::<InputCode>::empty(),
        spec_begin_frame(spec_begin_frame(v)).keys_just_released == Set::<InputCode>::empty(),
        spec_begin_frame(spec_begin_frame(v)).mouse_just_pressed == Set::<InputCode>::empty(),
        spec_begin_frame(spec_begin_frame(v)).mouse_just_released == Set::<InputCode>::empty(),
        spec_begin_frame(spec_begin_frame(v)).keys_held == spec_begin_frame(v).keys_held,
        spec_begin_frame(spec_begin_frame(v)).mouse_held == spec_begin_frame(v).mouse_held,
{
    assert(spec_begin_frame(v).keys_held.union(Set::empty()).difference(Set::empty())
        =~= spec_begin_frame(v).keys_held);
    assert(spec_begin_frame(v).mouse_held.union(Set::empty()).difference(Set::empty())
        =~= spec_begin_frame(v).mouse_held);
}

/// A key held down reports its press once: pressing an already held key
/// does not count as a new press.
pub proof fn lemma_repeat_press_not_new(v: InputView, k: KeyCode)
    requires
        v.keys_held.contains(InputCode::Key(k)),
    ensures
        spec_key_event(v, InputCode::Key(k), true).keys_just_pressed == v.keys_just_pressed,
        spec_key_event(v, InputCode::Key(k), true).keys_held == v.keys_held,
{
    assert(v.keys_held.insert(InputCode::Key(k)) =~= v.keys_held);
}

} // verus!
