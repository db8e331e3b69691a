//! Keys, as the vocabulary bindings are written in.
//!
//! [`KeyCode`] names a physical key by its position on a US layout. Each key a
//! binding may use has a stable on-disk name; the table below is the one place
//! both directions of that mapping come from.

use vstd::prelude::*;

verus! {

broadcast use vstd::string::group_string_axioms;

/// A physical key.
#[derive(Clone, Copy, PartialEq, Eq, Hash, PartialOrd, Ord, Debug, Structural)]
pub enum KeyCode {
    /// The `KeyA` key.
    KeyA,
    /// The `KeyB` key.
    KeyB,
    /// The `KeyC` key.
    KeyC,
    /// The `KeyD` key.
    KeyD,
    /// The `KeyE` key.
    KeyE,
    /// The `KeyF` key.
    KeyF,
    /// The `KeyG` key.
    KeyG,
    /// The `KeyH` key.
    KeyH,
    /// The `KeyI` key.
    KeyI,
    /// The `KeyJ` key.
    KeyJ,
    /// The `KeyK` key.
    KeyK,
    /// The `KeyL` key.
    KeyL,
    /// The `KeyM` key.
    KeyM,
    /// The `KeyN` key.
    KeyN,
    /// The `KeyO` key.
    KeyO,
    /// The `KeyP` key.
    KeyP,
    /// The `KeyQ` key.
    KeyQ,
    /// The `KeyR` key.
    KeyR,
    /// The `KeyS` key.
    KeyS,
    /// The `KeyT` key.
    KeyT,
    /// The `KeyU` key.
    KeyU,
    /// The `KeyV` key.
    KeyV,
    /// The `KeyW` key.
    KeyW,
    /// The `KeyX` key.
    KeyX,
    /// The `KeyY` key.
    KeyY,
    /// The `KeyZ` key.
    KeyZ,
    /// The `Digit0` key.
    Digit0,
    /// The `Digit1` key.
    Digit1,
    /// The `Digit2` key.
    Digit2,
    /// The `Digit3` key.
    Digit3,
    /// The `Digit4` key.
    Digit4,
    /// The `Digit5` key.
    Digit5,
    /// The `Digit6` key.
    Digit6,
    /// The `Digit7` key.
    Digit7,
    /// The `Digit8` key.
    Digit8,
    /// The `Digit9` key.
    Digit9,
    /// The `Semicolon` key.
    Semicolon,
    /// The `Comma` key.
    Comma,
    /// The `Period` key.
    Period,
    /// The `Slash` key.
    Slash,
    /// The `Backslash` key.
    Backslash,
    /// The `Minus` key.
    Minus,
    /// The `Equal` key.
    Equal,
    /// The `BracketLeft` key.
    BracketLeft,
    /// The `BracketRight` key.
    BracketRight,
    /// The `Quote` key.
    Quote,
    /// The `Backquote` key.
    Backquote,
    /// The `Space` key.
    Space,
    /// The `Enter` key.
    Enter,
    /// The `Tab` key.
    Tab,
    /// The `Backspace` key.
    Backspace,
    /// The `Delete` key.
    Delete,
    /// The `Escape` key.
    Escape,
    /// The `ArrowLeft` key.
    ArrowLeft,
    /// The `ArrowRight` key.
    ArrowRight,
    /// The `ArrowUp` key.
    ArrowUp,
    /// The `ArrowDown` key.
    ArrowDown,
    /// The `Home` key.
    Home,
    /// The `End` key.
    End,
    /// The `PageUp` key.
    PageUp,
    /// The `PageDown` key.
    PageDown,
    /// The `ShiftLeft` key.
    ShiftLeft,
    /// The `ShiftRight` key.
    ShiftRight,
    /// The `ControlLeft` key.
    ControlLeft,
    /// The `ControlRight` key.
    ControlRight,
    /// The `AltLeft` key.
    AltLeft,
    /// The `AltRight` key.
    AltRight,
    /// The `SuperLeft` key.
    SuperLeft,
    /// The `SuperRight` key.
    SuperRight,
    /// The `F1` key.
    F1,
    /// The `F2` key.
    F2,
    /// The `F3` key.
    F3,
    /// The `F4` key.
    F4,
    /// The `F5` key.
    F5,
    /// The `F6` key.
    F6,
    /// The `F7` key.
    F7,
    /// The `F8` key.
    F8,
    /// The `F9` key.
    F9,
    /// The `F10` key.
    F10,
    /// The `F11` key.
    F11,
    /// The `F12` key.
    F12,
    /// The `F13` key.
    F13,
    /// The `F14` key.
    F14,
    /// The `F15` key.
    F15,
    /// The `F16` key.
    F16,
    /// The `F17` key.
    F17,
    /// The `F18` key.
    F18,
    /// The `F19` key.
    F19,
    /// The `F20` key.
    F20,
    /// The `F21` key.
    F21,
    /// The `F22` key.
    F22,
    /// The `F23` key.
    F23,
    /// The `F24` key.
    F24,
    /// The `CapsLock` key.
    CapsLock,
    /// The `NumpadEnter` key.
    NumpadEnter,
    /// The `Insert` key.
    Insert,
    /// The `PrintScreen` key.
    PrintScreen,
    /// The `ScrollLock` key.
    ScrollLock,
    /// The `Pause` key.
    Pause,
    /// The `NumLock` key.
    NumLock,
    /// The `ContextMenu` key.
    ContextMenu,
}

/// The platform a binding resolves on: which key the command modifier is.
#[derive(Clone, Copy, PartialEq, Eq, Debug, Structural)]
pub enum Platform {
    /// macOS: the command modifier is Super (⌘).
    MacOs,
    /// Every other platform: the command modifier is Control.
    Other,
}

/// The key the platform-resolving command modifier stands for.
pub open spec fn spec_cmd_key(platform: Platform) -> KeyCode {
    match platform {
        Platform::MacOs => KeyCode::SuperLeft,
        Platform::Other => KeyCode::ControlLeft,
    }
}

/// The key the platform-resolving command modifier stands for.
pub fn cmd_key(platform: Platform) -> (k: KeyCode)
    ensures
        k == spec_cmd_key(platform),
{
    match platform {
        Platform::MacOs => KeyCode::SuperLeft,
        Platform::Other => KeyCode::ControlLeft,
    }
}

impl KeyCode {
    /// The key's position in declaration order: the order keys sort in.
    pub open spec fn spec_code(self) -> u16 {
        match self {
            KeyCode::KeyA => 0,
            KeyCode::KeyB => 1,
            KeyCode::KeyC => 2,
            KeyCode::KeyD => 3,
            KeyCode::KeyE => 4,
            KeyCode::KeyF => 5,
            KeyCode::KeyG => 6,
            KeyCode::KeyH => 7,
            KeyCode::KeyI => 8,
            KeyCode::KeyJ => 9,
            KeyCode::KeyK => 10,
            KeyCode::KeyL => 11,
            KeyCode::KeyM => 12,
            KeyCode::KeyN => 13,
            KeyCode::KeyO => 14,
            KeyCode::KeyP => 15,
            KeyCode::KeyQ => 16,
            KeyCode::KeyR => 17,
            KeyCode::KeyS => 18,
            KeyCode::KeyT => 19,
            KeyCode::KeyU => 20,
            KeyCode::KeyV => 21,
            KeyCode::KeyW => 22,
            KeyCode::KeyX => 23,
            KeyCode::KeyY => 24,
            KeyCode::KeyZ => 25,
            KeyCode::Digit0 => 26,
            KeyCode::Digit1 => 27,
            KeyCode::Digit2 => 28,
            KeyCode::Digit3 => 29,
            KeyCode::Digit4 => 30,
            KeyCode::Digit5 => 31,
            KeyCode::Digit6 => 32,
            KeyCode::Digit7 => 33,
            KeyCode::Digit8 => 34,
            KeyCode::Digit9 => 35,
            KeyCode::Semicolon => 36,
            KeyCode::Comma => 37,
            KeyCode::Period => 38,
            KeyCode::Slash => 39,
            KeyCode::Backslash => 40,
            KeyCode::Minus => 41,
            KeyCode::Equal => 42,
            KeyCode::BracketLeft => 43,
            KeyCode::BracketRight => 44,
            KeyCode::Quote => 45,
            KeyCode::Backquote => 46,
            KeyCode::Space => 47,
            KeyCode::Enter => 48,
            KeyCode::Tab => 49,
            KeyCode::Backspace => 50,
            KeyCode::Delete => 51,
            KeyCode::Escape => 52,
            KeyCode::ArrowLeft => 53,
            KeyCode::ArrowRight => 54,
            KeyCode::ArrowUp => 55,
            KeyCode::ArrowDown => 56,
            KeyCode::Home => 57,
            KeyCode::End => 58,
            KeyCode::PageUp => 59,
            KeyCode::PageDown => 60,
            KeyCode::ShiftLeft => 61,
            KeyCode::ShiftRight => 62,
            KeyCode::ControlLeft => 63,
            KeyCode::ControlRight => 64,
            KeyCode::AltLeft => 65,
            KeyCode::AltRight => 66,
            KeyCode::SuperLeft => 67,
            KeyCode::SuperRight => 68,
            KeyCode::F1 => 69,
            KeyCode::F2 => 70,
            KeyCode::F3 => 71,
            KeyCode::F4 => 72,
            KeyCode::F5 => 73,
            KeyCode::F6 => 74,
            KeyCode::F7 => 75,
            KeyCode::F8 => 76,
            KeyCode::F9 => 77,
            KeyCode::F10 => 78,
            KeyCode::F11 => 79,
            KeyCode::F12 => 80,
            KeyCode::F13 => 81,
            KeyCode::F14 => 82,
            KeyCode::F15 => 83,
            KeyCode::F16 => 84,
            KeyCode::F17 => 85,
            KeyCode::F18 => 86,
            KeyCode::F19 => 87,
            KeyCode::F20 => 88,
            KeyCode::F21 => 89,
            KeyCode::F22 => 90,
            KeyCode::F23 => 91,
            KeyCode::F24 => 92,
            KeyCode::CapsLock => 93,
            KeyCode::NumpadEnter => 94,
            KeyCode::Insert => 95,
            KeyCode::PrintScreen => 96,
            KeyCode::ScrollLock => 97,
            KeyCode::Pause => 98,
            KeyCode::NumLock => 99,
            KeyCode::ContextMenu => 100,
        }
    }

    /// The key's position in declaration order.
    pub fn code(self) -> (r: u16)
        ensures
            r == self.spec_code(),
    {
        match self {
            KeyCode::KeyA => 0,
            KeyCode::KeyB => 1,
            KeyCode::KeyC => 2,
            KeyCode::KeyD => 3,
            KeyCode::KeyE => 4,
            KeyCode::KeyF => 5,
            KeyCode::KeyG => 6,
            KeyCode::KeyH => 7,
            KeyCode::KeyI => 8,
            KeyCode::KeyJ => 9,
            KeyCode::KeyK => 10,
            KeyCode::KeyL => 11,
            KeyCode::KeyM => 12,
            KeyCode::KeyN => 13,
            KeyCode::KeyO => 14,
            KeyCode::KeyP => 15,
            KeyCode::KeyQ => 16,
            KeyCode::KeyR => 17,
            KeyCode::KeyS => 18,
            KeyCode::KeyT => 19,
            KeyCode::KeyU => 20,
            KeyCode::KeyV => 21,
            KeyCode::KeyW => 22,
            KeyCode::KeyX => 23,
            KeyCode::KeyY => 24,
            KeyCode::KeyZ => 25,
            KeyCode::Digit0 => 26,
            KeyCode::Digit1 => 27,
            KeyCode::Digit2 => 28,
            KeyCode::Digit3 => 29,
            KeyCode::Digit4 => 30,
            KeyCode::Digit5 => 31,
            KeyCode::Digit6 => 32,
            KeyCode::Digit7 => 33,
            KeyCode::Digit8 => 34,
            KeyCode::Digit9 => 35,
            KeyCode::Semicolon => 36,
            KeyCode::Comma => 37,
            KeyCode::Period => 38,
            KeyCode::Slash => 39,
            KeyCode::Backslash => 40,
            KeyCode::Minus => 41,
            KeyCode::Equal => 42,
            KeyCode::BracketLeft => 43,
            KeyCode::BracketRight => 44,
            KeyCode::Quote => 45,
            KeyCode::Backquote => 46,
            KeyCode::Space => 47,
            KeyCode::Enter => 48,
            KeyCode::Tab => 49,
            KeyCode::Backspace => 50,
            KeyCode::Delete => 51,
            KeyCode::Escape => 52,
            KeyCode::ArrowLeft => 53,
            KeyCode::ArrowRight => 54,
            KeyCode::ArrowUp => 55,
            KeyCode::ArrowDown => 56,
            KeyCode::Home => 57,
            KeyCode::End => 58,
            KeyCode::PageUp => 59,
            KeyCode::PageDown => 60,
            KeyCode::ShiftLeft => 61,
            KeyCode::ShiftRight => 62,
            KeyCode::ControlLeft => 63,
            KeyCode::ControlRight => 64,
            KeyCode::AltLeft => 65,
            KeyCode::AltRight => 66,
            KeyCode::SuperLeft => 67,
            KeyCode::SuperRight => 68,
            KeyCode::F1 => 69,
            KeyCode::F2 => 70,
            KeyCode::F3 => 71,
            KeyCode::F4 => 72,
            KeyCode::F5 => 73,
            KeyCode::F6 => 74,
            KeyCode::F7 => 75,
            KeyCode::F8 => 76,
            KeyCode::F9 => 77,
            KeyCode::F10 => 78,
            KeyCode::F11 => 79,
            KeyCode::F12 => 80,
            KeyCode::F13 => 81,
            KeyCode::F14 => 82,
            KeyCode::F15 => 83,
            KeyCode::F16 => 84,
            KeyCode::F17 => 85,
            KeyCode::F18 => 86,
            KeyCode::F19 => 87,
            KeyCode::F20 => 88,
            KeyCode::F21 => 89,
            KeyCode::F22 => 90,
            KeyCode::F23 => 91,
            KeyCode::F24 => 92,
            KeyCode::CapsLock => 93,
            KeyCode::NumpadEnter => 94,
            KeyCode::Insert => 95,
            KeyCode::PrintScreen => 96,
            KeyCode::ScrollLock => 97,
            KeyCode::Pause => 98,
            KeyCode::NumLock => 99,
            KeyCode::ContextMenu => 100,
        }
    }
}

/// Distinct keys have distinct positions.
pub proof fn lemma_code_injective(a: KeyCode, b: KeyCode)
    ensures
        a.spec_code() == b.spec_code() ==> a == b,
{
}

/// Every key, in declaration order.
pub fn all_keys() -> (r: Vec<KeyCode>)
    ensures
        forall|k: KeyCode| #[trigger] r@.contains(k),
        r@.len() == 101,
        forall|i: int| 0 <= i < r@.len() ==> (#[trigger] r@[i]).spec_code() == i,
{
    let v: Vec<KeyCode> = vec![
        KeyCode::KeyA,
        KeyCode::KeyB,
        KeyCode::KeyC,
        KeyCode::KeyD,
        KeyCode::KeyE,
        KeyCode::KeyF,
        KeyCode::KeyG,
        KeyCode::KeyH,
        KeyCode::KeyI,
        KeyCode::KeyJ,
        KeyCode::KeyK,
        KeyCode::KeyL,
        KeyCode::KeyM,
        KeyCode::KeyN,
        KeyCode::KeyO,
        KeyCode::KeyP,
        KeyCode::KeyQ,
        KeyCode::KeyR,
        KeyCode::KeyS,
        KeyCode::KeyT,
        KeyCode::KeyU,
        KeyCode::KeyV,
        KeyCode::KeyW,
        KeyCode::KeyX,
        KeyCode::KeyY,
        KeyCode::KeyZ,
        KeyCode::Digit0,
        KeyCode::Digit1,
        KeyCode::Digit2,
        KeyCode::Digit3,
        KeyCode::Digit4,
        KeyCode::Digit5,
        KeyCode::Digit6,
        KeyCode::Digit7,
        KeyCode::Digit8,
        KeyCode::Digit9,
        KeyCode::Semicolon,
        KeyCode::Comma,
        KeyCode::Period,
        KeyCode::Slash,
        KeyCode::Backslash,
        KeyCode::Minus,
        KeyCode::Equal,
        KeyCode::BracketLeft,
        KeyCode::BracketRight,
        KeyCode::Quote,
        KeyCode::Backquote,
        KeyCode::Space,
        KeyCode::Enter,
        KeyCode::Tab,
        KeyCode::Backspace,
        KeyCode::Delete,
        KeyCode::Escape,
        KeyCode::ArrowLeft,
        KeyCode::ArrowRight,
        KeyCode::ArrowUp,
        KeyCode::ArrowDown,
        KeyCode::Home,
        KeyCode::End,
        KeyCode::PageUp,
        KeyCode::PageDown,
        KeyCode::ShiftLeft,
        KeyCode::ShiftRight,
        KeyCode::ControlLeft,
        KeyCode::ControlRight,
        KeyCode::AltLeft,
        KeyCode::AltRight,
        KeyCode::SuperLeft,
        KeyCode::SuperRight,
        KeyCode::F1,
        KeyCode::F2,
        KeyCode::F3,
        KeyCode::F4,
        KeyCode::F5,
        KeyCode::F6,
        KeyCode::F7,
        KeyCode::F8,
        KeyCode::F9,
        KeyCode::F10,
        KeyCode::F11,
        KeyCode::F12,
        KeyCode::F13,
        KeyCode::F14,
        KeyCode::F15,
        KeyCode::F16,
        KeyCode::F17,
        KeyCode::F18,
        KeyCode::F19,
        KeyCode::F20,
        KeyCode::F21,
        KeyCode::F22,
        KeyCode::F23,
        KeyCode::F24,
        KeyCode::CapsLock,
        KeyCode::NumpadEnter,
        KeyCode::Insert,
        KeyCode::PrintScreen,
        KeyCode::ScrollLock,
        KeyCode::Pause,
        KeyCode::NumLock,
        KeyCode::ContextMenu,
    ];
    proof {
        assert forall|k: KeyCode| #[trigger] v@.contains(k) by {
            assert(v@[k.spec_code() as int] == k);
        }
    }
    v
}

/// The stable on-disk name of a key, or `None` for keys that are not bound.
pub open spec fn spec_key_name(k: KeyCode) -> Option<Seq<char>> {
    match k {
        KeyCode::KeyA => Some("A"@),
        KeyCode::KeyB => Some("B"@),
        KeyCode::KeyC => Some("C"@),
        KeyCode::KeyD => Some("D"@),
        KeyCode::KeyE => Some("E"@),
        KeyCode::KeyF => Some("F"@),
        KeyCode::KeyG => Some("G"@),
        KeyCode::KeyH => Some("H"@),
        KeyCode::KeyI => Some("I"@),
        KeyCode::KeyJ => Some("J"@),
        KeyCode::KeyK => Some("K"@),
        KeyCode::KeyL => Some("L"@),
        KeyCode::KeyM => Some("M"@),
        KeyCode::KeyN => Some("N"@),
        KeyCode::KeyO => Some("O"@),
        KeyCode::KeyP => Some("P"@),
        KeyCode::KeyQ => Some("Q"@),
        KeyCode::KeyR => Some("R"@),
        KeyCode::KeyS => Some("S"@),
        KeyCode::KeyT => Some("T"@),
        KeyCode::KeyU => Some("U"@),
        KeyCode::KeyV => Some("V"@),
        KeyCode::KeyW => Some("W"@),
        KeyCode::KeyX => Some("X"@),
        KeyCode::KeyY => Some("Y"@),
        KeyCode::KeyZ => Some("Z"@),
        KeyCode::Digit0 => Some("0"@),
        KeyCode::Digit1 => Some("1"@),
        KeyCode::Digit2 => Some("2"@),
        KeyCode::Digit3 => Some("3"@),
        KeyCode::Digit4 => Some("4"@),
        KeyCode::Digit5 => Some("5"@),
        KeyCode::Digit6 => Some("6"@),
        KeyCode::Digit7 => Some("7"@),
        KeyCode::Digit8 => Some("8"@),
        KeyCode::Digit9 => Some("9"@),
        KeyCode::Semicolon => Some("Semicolon"@),
        KeyCode::Comma => Some("Comma"@),
        KeyCode::Period => Some("Period"@),
        KeyCode::Slash => Some("Slash"@),
        KeyCode::Backslash => Some("Backslash"@),
        KeyCode::Minus => Some("Minus"@),
        KeyCode::Equal => Some("Equal"@),
        KeyCode::BracketLeft => Some("BracketLeft"@),
        KeyCode::BracketRight => Some("BracketRight"@),
        KeyCode::Quote => Some("Quote"@),
        KeyCode::Backquote => Some("Backquote"@),
        KeyCode::Space => Some("Space"@),
        KeyCode::Enter => Some("Enter"@),
        KeyCode::Tab => Some("Tab"@),
        KeyCode::Backspace => Some("Backspace"@),
        KeyCode::Delete => Some("Delete"@),
        KeyCode::Escape => Some("Escape"@),
        KeyCode::ArrowLeft => Some("Left"@),
        KeyCode::ArrowRight => Some("Right"@),
        KeyCode::ArrowUp => Some("Up"@),
        KeyCode::ArrowDown => Some("Down"@),
        KeyCode::Home => Some("Home"@),
        KeyCode::End => Some("End"@),
        KeyCode::PageUp => Some("PageUp"@),
        KeyCode::PageDown => Some("PageDown"@),
        KeyCode::ShiftLeft => Some("Shift"@),
        KeyCode::ShiftRight => Some("ShiftRight"@),
        KeyCode::ControlLeft => Some("Ctrl"@),
        KeyCode::ControlRight => Some("CtrlRight"@),
        KeyCode::AltLeft => Some("Alt"@),
        KeyCode::AltRight => Some("AltRight"@),
        KeyCode::SuperLeft => Some("Cmd"@),
        KeyCode::SuperRight => Some("CmdRight"@),
        KeyCode::F1 => Some("F1"@),
        KeyCode::F2 => Some("F2"@),
        KeyCode::F3 => Some("F3"@),
        KeyCode::F4 => Some("F4"@),
        KeyCode::F5 => Some("F5"@),
        KeyCode::F6 => Some("F6"@),
        KeyCode::F7 => Some("F7"@),
        KeyCode::F8 => Some("F8"@),
        KeyCode::F9 => Some("F9"@),
        KeyCode::F10 => Some("F10"@),
        KeyCode::F11 => Some("F11"@),
        KeyCode::F12 => Some("F12"@),
        _ => None,
    }
}

/// Stable string name for a [`KeyCode`], or `None` for keys with no on-disk
/// spelling: a chord containing one cannot round-trip, and callers drop it.
pub fn keycode_to_name(k: KeyCode) -> (r: Option<&'static str>)
    ensures
        match r {
            Some(s) => spec_key_name(k) == Some(s@),
            None => spec_key_name(k) is None,
        },
{
    match k {
        KeyCode::KeyA => Some("A"),
        KeyCode::KeyB => Some("B"),
        KeyCode::KeyC => Some("C"),
        KeyCode::KeyD => Some("D"),
        KeyCode::KeyE => Some("E"),
        KeyCode::KeyF => Some("F"),
        KeyCode::KeyG => Some("G"),
        KeyCode::KeyH => Some("H"),
        KeyCode::KeyI => Some("I"),
        KeyCode::KeyJ => Some("J"),
        KeyCode::KeyK => Some("K"),
        KeyCode::KeyL => Some("L"),
        KeyCode::KeyM => Some("M"),
        KeyCode::KeyN => Some("N"),
        KeyCode::KeyO => Some("O"),
        KeyCode::KeyP => Some("P"),
        KeyCode::KeyQ => Some("Q"),
        KeyCode::KeyR => Some("R"),
        KeyCode::KeyS => Some("S"),
        KeyCode::KeyT => Some("T"),
        KeyCode::KeyU => Some("U"),
        KeyCode::KeyV => Some("V"),
        KeyCode::KeyW => Some("W"),
        KeyCode::KeyX => Some("X"),
        KeyCode::KeyY => Some("Y"),
        KeyCode::KeyZ => Some("Z"),
        KeyCode::Digit0 => Some("0"),
        KeyCode::Digit1 => Some("1"),
        KeyCode::Digit2 => Some("2"),
        KeyCode::Digit3 => Some("3"),
        KeyCode::Digit4 => Some("4"),
        KeyCode::Digit5 => Some("5"),
        KeyCode::Digit6 => Some("6"),
        KeyCode::Digit7 => Some("7"),
        KeyCode::Digit8 => Some("8"),
        KeyCode::Digit9 => Some("9"),
        KeyCode::Semicolon => Some("Semicolon"),
        KeyCode::Comma => Some("Comma"),
        KeyCode::Period => Some("Period"),
        KeyCode::Slash => Some("Slash"),
        KeyCode::Backslash => Some("Backslash"),
        KeyCode::Minus => Some("Minus"),
        KeyCode::Equal => Some("Equal"),
        KeyCode::BracketLeft => Some("BracketLeft"),
        KeyCode::BracketRight => Some("BracketRight"),
        KeyCode::Quote => Some("Quote"),
        KeyCode::Backquote => Some("Backquote"),
        KeyCode::Space => Some("Space"),
        KeyCode::Enter => Some("Enter"),
        KeyCode::Tab => Some("Tab"),
        KeyCode::Backspace => Some("Backspace"),
        KeyCode::Delete => Some("Delete"),
        KeyCode::Escape => Some("Escape"),
        KeyCode::ArrowLeft => Some("Left"),
        KeyCode::ArrowRight => Some("Right"),
        KeyCode::ArrowUp => Some("Up"),
        KeyCode::ArrowDown => Some("Down"),
        KeyCode::Home => Some("Home"),
        KeyCode::End => Some("End"),
        KeyCode::PageUp => Some("PageUp"),
        KeyCode::PageDown => Some("PageDown"),
        KeyCode::ShiftLeft => Some("Shift"),
        KeyCode::ShiftRight => Some("ShiftRight"),
        KeyCode::ControlLeft => Some("Ctrl"),
        KeyCode::ControlRight => Some("CtrlRight"),
        KeyCode::AltLeft => Some("Alt"),
        KeyCode::AltRight => Some("AltRight"),
        KeyCode::SuperLeft => Some("Cmd"),
        KeyCode::SuperRight => Some("CmdRight"),
        KeyCode::F1 => Some("F1"),
        KeyCode::F2 => Some("F2"),
        KeyCode::F3 => Some("F3"),
        KeyCode::F4 => Some("F4"),
        KeyCode::F5 => Some("F5"),
        KeyCode::F6 => Some("F6"),
        KeyCode::F7 => Some("F7"),
        KeyCode::F8 => Some("F8"),
        KeyCode::F9 => Some("F9"),
        KeyCode::F10 => Some("F10"),
        KeyCode::F11 => Some("F11"),
        KeyCode::F12 => Some("F12"),
        _ => None,
    }
}

/// On-disk spelling of the platform-resolving command modifier: not the
/// name of any key, so "the command key" and "Control specifically" stay
/// distinguishable.
pub const MOD_NAME: &'static str = "Mod";

/// No two keys share an on-disk name, and no key is named like the command
/// modifier: the name table is a bijection onto its names.
#[verifier::rlimit(100)]
#[verifier::spinoff_prover]
pub proof fn lemma_key_names_distinct(a: KeyCode, b: KeyCode)
    ensures
        spec_key_name(a) is Some && spec_key_name(a) == spec_key_name(b) ==> a == b,
        spec_key_name(a) != Some(MOD_NAME@),
{
    reveal_strlit("A");
    assert("A"@.len() == 1);
    assert("A"@[0] == 'A');
    reveal_strlit("B");
    assert("B"@.len() == 1);
    assert("B"@[0] == 'B');
    reveal_strlit("C");
    assert("C"@.len() == 1);
    assert("C"@[0] == 'C');
    reveal_strlit("D");
    assert("D"@.len() == 1);
    assert("D"@[0] == 'D');
    reveal_strlit("E");
    assert("E"@.len() == 1);
    assert("E"@[0] == 'E');
    reveal_strlit("F");
    assert("F"@.len() == 1);
    assert("F"@[0] == 'F');
    reveal_strlit("G");
    assert("G"@.len() == 1);
    assert("G"@[0] == 'G');
    reveal_strlit("H");
    assert("H"@.len() == 1);
    assert("H"@[0] == 'H');
    reveal_strlit("I");
    assert("I"@.len() == 1);
    assert("I"@[0] == 'I');
    reveal_strlit("J");
    assert("J"@.len() == 1);
    assert("J"@[0] == 'J');
    reveal_strlit("K");
    assert("K"@.len() == 1);
    assert("K"@[0] == 'K');
    reveal_strlit("L");
    assert("L"@.len() == 1);
    assert("L"@[0] == 'L');
    reveal_strlit("M");
    assert("M"@.len() == 1);
    assert("M"@[0] == 'M');
    reveal_strlit("N");
    assert("N"@.len() == 1);
    assert("N"@[0] == 'N');
    reveal_strlit("O");
    assert("O"@.len() == 1);
    assert("O"@[0] == 'O');
    reveal_strlit("P");
    assert("P"@.len() == 1);
    assert("P"@[0] == 'P');
    reveal_strlit("Q");
    assert("Q"@.len() == 1);
    assert("Q"@[0] == 'Q');
    reveal_strlit("R");
    assert("R"@.len() == 1);
    assert("R"@[0] == 'R');
    reveal_strlit("S");
    assert("S"@.len() == 1);
    assert("S"@[0] == 'S');
    reveal_strlit("T");
    assert("T"@.len() == 1);
    assert("T"@[0] == 'T');
    reveal_strlit("U");
    assert("U"@.len() == 1);
    assert("U"@[0] == 'U');
    reveal_strlit("V");
    assert("V"@.len() == 1);
    assert("V"@[0] == 'V');
    reveal_strlit("W");
    assert("W"@.len() == 1);
    assert("W"@[0] == 'W');
    reveal_strlit("X");
    assert("X"@.len() == 1);
    assert("X"@[0] == 'X');
    reveal_strlit("Y");
    assert("Y"@.len() == 1);
    assert("Y"@[0] == 'Y');
    reveal_strlit("Z");
    assert("Z"@.len() == 1);
    assert("Z"@[0] == 'Z');
    reveal_strlit("0");
    assert("0"@.len() == 1);
    assert("0"@[0] == '0');
    reveal_strlit("1");
    assert("1"@.len() == 1);
    assert("1"@[0] == '1');
    reveal_strlit("2");
    assert("2"@.len() == 1);
    assert("2"@[0] == '2');
    reveal_strlit("3");
    assert("3"@.len() == 1);
    assert("3"@[0] == '3');
    reveal_strlit("4");
    assert("4"@.len() == 1);
    assert("4"@[0] == '4');
    reveal_strlit("5");
    assert("5"@.len() == 1);
    assert("5"@[0] == '5');
    reveal_strlit("6");
    assert("6"@.len() == 1);
    assert("6"@[0] == '6');
    reveal_strlit("7");
    assert("7"@.len() == 1);
    assert("7"@[0] == '7');
    reveal_strlit("8");
    assert("8"@.len() == 1);
    assert("8"@[0] == '8');
    reveal_strlit("9");
    assert("9"@.len() == 1);
    assert("9"@[0] == '9');
    reveal_strlit("Semicolon");
    assert("Semicolon"@.len() == 9);
    assert("Semicolon"@[0] == 'S');
    assert("Semicolon"@[1] == 'e');
    assert("Semicolon"@[2] == 'm');
    assert("Semicolon"@[3] == 'i');
    assert("Semicolon"@[4] == 'c');
    assert("Semicolon"@[5] == 'o');
    assert("Semicolon"@[6] == 'l');
    assert("Semicolon"@[7] == 'o');
    assert("Semicolon"@[8] == 'n');
    reveal_strlit("Comma");
    assert("Comma"@.len() == 5);
    assert("Comma"@[0] == 'C');
    assert("Comma"@[1] == 'o');
    assert("Comma"@[2] == 'm');
    assert("Comma"@[3] == 'm');
    assert("Comma"@[4] == 'a');
    reveal_strlit("Period");
    assert("Period"@.len() == 6);
    assert("Period"@[0] == 'P');
    assert("Period"@[1] == 'e');
    assert("Period"@[2] == 'r');
    assert("Period"@[3] == 'i');
    assert("Period"@[4] == 'o');
    assert("Period"@[5] == 'd');
    reveal_strlit("Slash");
    assert("Slash"@.len() == 5);
    assert("Slash"@[0] == 'S');
    assert("Slash"@[1] == 'l');
    assert("Slash"@[2] == 'a');
    assert("Slash"@[3] == 's');
    assert("Slash"@[4] == 'h');
    reveal_strlit("Backslash");
    assert("Backslash"@.len() == 9);
    assert("Backslash"@[0] == 'B');
    assert("Backslash"@[1] == 'a');
    assert("Backslash"@[2] == 'c');
    assert("Backslash"@[3] == 'k');
    assert("Backslash"@[4] == 's');
    assert("Backslash"@[5] == 'l');
    assert("Backslash"@[6] == 'a');
    assert("Backslash"@[7] == 's');
    assert("Backslash"@[8] == 'h');
    reveal_strlit("Minus");
    assert("Minus"@.len() == 5);
    assert("Minus"@[0] == 'M');
    assert("Minus"@[1] == 'i');
    assert("Minus"@[2] == 'n');
    assert("Minus"@[3] == 'u');
    assert("Minus"@[4] == 's');
    reveal_strlit("Equal");
    assert("Equal"@.len() == 5);
    assert("Equal"@[0] == 'E');
    assert("Equal"@[1] == 'q');
    assert("Equal"@[2] == 'u');
    assert("Equal"@[3] == 'a');
    assert("Equal"@[4] == 'l');
    reveal_strlit("BracketLeft");
    assert("BracketLeft"@.len() == 11);
    assert("BracketLeft"@[0] == 'B');
    assert("BracketLeft"@[1] == 'r');
    assert("BracketLeft"@[2] == 'a');
    assert("BracketLeft"@[3] == 'c');
    assert("BracketLeft"@[4] == 'k');
    assert("BracketLeft"@[5] == 'e');
    assert("BracketLeft"@[6] == 't');
    assert("BracketLeft"@[7] == 'L');
    assert("BracketLeft"@[8] == 'e');
    assert("BracketLeft"@[9] == 'f');
    assert("BracketLeft"@[10] == 't');
    reveal_strlit("BracketRight");
    assert("BracketRight"@.len() == 12);
    assert("BracketRight"@[0] == 'B');
    assert("BracketRight"@[1] == 'r');
    assert("BracketRight"@[2] == 'a');
    assert("BracketRight"@[3] == 'c');
    assert("BracketRight"@[4] == 'k');
    assert("BracketRight"@[5] == 'e');
    assert("BracketRight"@[6] == 't');
    assert("BracketRight"@[7] == 'R');
    assert("BracketRight"@[8] == 'i');
    assert("BracketRight"@[9] == 'g');
    assert("BracketRight"@[10] == 'h');
    assert("BracketRight"@[11] == 't');
    reveal_strlit("Quote");
    assert("Quote"@.len() == 5);
    assert("Quote"@[0] == 'Q');
    assert("Quote"@[1] == 'u');
    assert("Quote"@[2] == 'o');
    assert("Quote"@[3] == 't');
    assert("Quote"@[4] == 'e');
    reveal_strlit("Backquote");
    assert("Backquote"@.len() == 9);
    assert("Backquote"@[0] == 'B');
    assert("Backquote"@[1] == 'a');
    assert("Backquote"@[2] == 'c');
    assert("Backquote"@[3] == 'k');
    assert("Backquote"@[4] == 'q');
    assert("Backquote"@[5] == 'u');
    assert("Backquote"@[6] == 'o');
    assert("Backquote"@[7] == 't');
    assert("Backquote"@[8] == 'e');
    reveal_strlit("Space");
    assert("Space"@.len() == 5);
    assert("Space"@[0] == 'S');
    assert("Space"@[1] == 'p');
    assert("Space"@[2] == 'a');
    assert("Space"@[3] == 'c');
    assert("Space"@[4] == 'e');
    reveal_strlit("Enter");
    assert("Enter"@.len() == 5);
    assert("Enter"@[0] == 'E');
    assert("Enter"@[1] == 'n');
    assert("Enter"@[2] == 't');
    assert("Enter"@[3] == 'e');
    assert("Enter"@[4] == 'r');
    reveal_strlit("Tab");
    assert("Tab"@.len() == 3);
    assert("Tab"@[0] == 'T');
    assert("Tab"@[1] == 'a');
    assert("Tab"@[2] == 'b');
    reveal_strlit("Backspace");
    assert("Backspace"@.len() == 9);
    assert("Backspace"@[0] == 'B');
    assert("Backspace"@[1] == 'a');
    assert("Backspace"@[2] == 'c');
    assert("Backspace"@[3] == 'k');
    assert("Backspace"@[4] == 's');
    assert("Backspace"@[5] == 'p');
    assert("Backspace"@[6] == 'a');
    assert("Backspace"@[7] == 'c');
    assert("Backspace"@[8] == 'e');
    reveal_strlit("Delete");
    assert("Delete"@.len() == 6);
    assert("Delete"@[0] == 'D');
    assert("Delete"@[1] == 'e');
    assert("Delete"@[2] == 'l');
    assert("Delete"@[3] == 'e');
    assert("Delete"@[4] == 't');
    assert("Delete"@[5] == 'e');
    reveal_strlit("Escape");
    assert("Escape"@.len() == 6);
    assert("Escape"@[0] == 'E');
    assert("Escape"@[1] == 's');
    assert("Escape"@[2] == 'c');
    assert("Escape"@[3] == 'a');
    assert("Escape"@[4] == 'p');
    assert("Escape"@[5] == 'e');
    reveal_strlit("Left");
    assert("Left"@.len() == 4);
    assert("Left"@[0] == 'L');
    assert("Left"@[1] == 'e');
    assert("Left"@[2] == 'f');
    assert("Left"@[3] == 't');
    reveal_strlit("Right");
    assert("Right"@.len() == 5);
    assert("Right"@[0] == 'R');
    assert("Right"@[1] == 'i');
    assert("Right"@[2] == 'g');
    assert("Right"@[3] == 'h');
    assert("Right"@[4] == 't');
    reveal_strlit("Up");
    assert("Up"@.len() == 2);
    assert("Up"@[0] == 'U');
    assert("Up"@[1] == 'p');
    reveal_strlit("Down");
    assert("Down"@.len() == 4);
    assert("Down"@[0] == 'D');
    assert("Down"@[1] == 'o');
    assert("Down"@[2] == 'w');
    assert("Down"@[3] == 'n');
    reveal_strlit("Home");
    assert("Home"@.len() == 4);
    assert("Home"@[0] == 'H');
    assert("Home"@[1] == 'o');
    assert("Home"@[2] == 'm');
    assert("Home"@[3] == 'e');
    reveal_strlit("End");
    assert("End"@.len() == 3);
    assert("End"@[0] == 'E');
    assert("End"@[1] == 'n');
    assert("End"@[2] == 'd');
    reveal_strlit("PageUp");
    assert("PageUp"@.len() == 6);
    assert("PageUp"@[0] == 'P');
    assert("PageUp"@[1] == 'a');
    assert("PageUp"@[2] == 'g');
    assert("PageUp"@[3] == 'e');
    assert("PageUp"@[4] == 'U');
    assert("PageUp"@[5] == 'p');
    reveal_strlit("PageDown");
    assert("PageDown"@.len() == 8);
    assert("PageDown"@[0] == 'P');
    assert("PageDown"@[1] == 'a');
    assert("PageDown"@[2] == 'g');
    assert("PageDown"@[3] == 'e');
    assert("PageDown"@[4] == 'D');
    assert("PageDown"@[5] == 'o');
    assert("PageDown"@[6] == 'w');
    assert("PageDown"@[7] == 'n');
    reveal_strlit("Shift");
    assert("Shift"@.len() == 5);
    assert("Shift"@[0] == 'S');
    assert("Shift"@[1] == 'h');
    assert("Shift"@[2] == 'i');
    assert("Shift"@[3] == 'f');
    assert("Shift"@[4] == 't');
    reveal_strlit("ShiftRight");
    assert("ShiftRight"@.len() == 10);
    assert("ShiftRight"@[0] == 'S');
    assert("ShiftRight"@[1] == 'h');
    assert("ShiftRight"@[2] == 'i');
    assert("ShiftRight"@[3] == 'f');
    assert("ShiftRight"@[4] == 't');
    assert("ShiftRight"@[5] == 'R');
    assert("ShiftRight"@[6] == 'i');
    assert("ShiftRight"@[7] == 'g');
    assert("ShiftRight"@[8] == 'h');
    assert("ShiftRight"@[9] == 't');
    reveal_strlit("Ctrl");
    assert("Ctrl"@.len() == 4);
    assert("Ctrl"@[0] == 'C');
    assert("Ctrl"@[1] == 't');
    assert("Ctrl"@[2] == 'r');
    assert("Ctrl"@[3] == 'l');
    reveal_strlit("CtrlRight");
    assert("CtrlRight"@.len() == 9);
    assert("CtrlRight"@[0] == 'C');
    assert("CtrlRight"@[1] == 't');
    assert("CtrlRight"@[2] == 'r');
    assert("CtrlRight"@[3] == 'l');
    assert("CtrlRight"@[4] == 'R');
    assert("CtrlRight"@[5] == 'i');
    assert("CtrlRight"@[6] == 'g');
    assert("CtrlRight"@[7] == 'h');
    assert("CtrlRight"@[8] == 't');
    reveal_strlit("Alt");
    assert("Alt"@.len() == 3);
    assert("Alt"@[0] == 'A');
    assert("Alt"@[1] == 'l');
    assert("Alt"@[2] == 't');
    reveal_strlit("AltRight");
    assert("AltRight"@.len() == 8);
    assert("AltRight"@[0] == 'A');
    assert("AltRight"@[1] == 'l');
    assert("AltRight"@[2] == 't');
    assert("AltRight"@[3] == 'R');
    assert("AltRight"@[4] == 'i');
    assert("AltRight"@[5] == 'g');
    assert("AltRight"@[6] == 'h');
    assert("AltRight"@[7] == 't');
    reveal_strlit("Cmd");
    assert("Cmd"@.len() == 3);
    assert("Cmd"@[0] == 'C');
    assert("Cmd"@[1] == 'm');
    assert("Cmd"@[2] == 'd');
    reveal_strlit("CmdRight");
    assert("CmdRight"@.len() == 8);
    assert("CmdRight"@[0] == 'C');
    assert("CmdRight"@[1] == 'm');
    assert("CmdRight"@[2] == 'd');
    assert("CmdRight"@[3] == 'R');
    assert("CmdRight"@[4] == 'i');
    assert("CmdRight"@[5] == 'g');
    assert("CmdRight"@[6] == 'h');
    assert("CmdRight"@[7] == 't');
    reveal_strlit("F1");
    assert("F1"@.len() == 2);
    assert("F1"@[0] == 'F');
    assert("F1"@[1] == '1');
    reveal_strlit("F2");
    assert("F2"@.len() == 2);
    assert("F2"@[0] == 'F');
    assert("F2"@[1] == '2');
    reveal_strlit("F3");
    assert("F3"@.len() == 2);
    assert("F3"@[0] == 'F');
    assert("F3"@[1] == '3');
    reveal_strlit("F4");
    assert("F4"@.len() == 2);
    assert("F4"@[0] == 'F');
    assert("F4"@[1] == '4');
    reveal_strlit("F5");
    assert("F5"@.len() == 2);
    assert("F5"@[0] == 'F');
    assert("F5"@[1] == '5');
    reveal_strlit("F6");
    assert("F6"@.len() == 2);
    assert("F6"@[0] == 'F');
    assert("F6"@[1] == '6');
    reveal_strlit("F7");
    assert("F7"@.len() == 2);
    assert("F7"@[0] == 'F');
    assert("F7"@[1] == '7');
    reveal_strlit("F8");
    assert("F8"@.len() == 2);
    assert("F8"@[0] == 'F');
    assert("F8"@[1] == '8');
    reveal_strlit("F9");
    assert("F9"@.len() == 2);
    assert("F9"@[0] == 'F');
    assert("F9"@[1] == '9');
    reveal_strlit("F10");
    assert("F10"@.len() == 3);
    assert("F10"@[0] == 'F');
    assert("F10"@[1] == '1');
    assert("F10"@[2] == '0');
    reveal_strlit("F11");
    assert("F11"@.len() == 3);
    assert("F11"@[0] == 'F');
    assert("F11"@[1] == '1');
    assert("F11"@[2] == '1');
    reveal_strlit("F12");
    assert("F12"@.len() == 3);
    assert("F12"@[0] == 'F');
    assert("F12"@[1] == '1');
    assert("F12"@[2] == '2');
    reveal_strlit("Mod");
    assert("Mod"@.len() == 3);
    assert("Mod"@[0] == 'M');
    assert("Mod"@[1] == 'o');
    assert("Mod"@[2] == 'd');
    match a {
        KeyCode::KeyA => {},
        KeyCode::KeyB => {},
        KeyCode::KeyC => {},
        KeyCode::KeyD => {},
        KeyCode::KeyE => {},
        KeyCode::KeyF => {},
        KeyCode::KeyG => {},
        KeyCode::KeyH => {},
        KeyCode::KeyI => {},
        KeyCode::KeyJ => {},
        KeyCode::KeyK => {},
        KeyCode::KeyL => {},
        KeyCode::KeyM => {},
        KeyCode::KeyN => {},
        KeyCode::KeyO => {},
        KeyCode::KeyP => {},
        KeyCode::KeyQ => {},
        KeyCode::KeyR => {},
        KeyCode::KeyS => {},
        KeyCode::KeyT => {},
        KeyCode::KeyU => {},
        KeyCode::KeyV => {},
        KeyCode::KeyW => {},
        KeyCode::KeyX => {},
        KeyCode::KeyY => {},
        KeyCode::KeyZ => {},
        KeyCode::Digit0 => {},
        KeyCode::Digit1 => {},
        KeyCode::Digit2 => {},
        KeyCode::Digit3 => {},
        KeyCode::Digit4 => {},
        KeyCode::Digit5 => {},
        KeyCode::Digit6 => {},
        KeyCode::Digit7 => {},
        KeyCode::Digit8 => {},
        KeyCode::Digit9 => {},
        KeyCode::Semicolon => {},
        KeyCode::Comma => {},
        KeyCode::Period => {},
        KeyCode::Slash => {},
        KeyCode::Backslash => {},
        KeyCode::Minus => {},
        KeyCode::Equal => {},
        KeyCode::BracketLeft => {},
        KeyCode::BracketRight => {},
        KeyCode::Quote => {},
        KeyCode::Backquote => {},
        KeyCode::Space => {},
        KeyCode::Enter => {},
        KeyCode::Tab => {},
        KeyCode::Backspace => {},
        KeyCode::Delete => {},
        KeyCode::Escape => {},
        KeyCode::ArrowLeft => {},
        KeyCode::ArrowRight => {},
        KeyCode::ArrowUp => {},
        KeyCode::ArrowDown => {},
        KeyCode::Home => {},
        KeyCode::End => {},
        KeyCode::PageUp => {},
        KeyCode::PageDown => {},
        KeyCode::ShiftLeft => {},
        KeyCode::ShiftRight => {},
        KeyCode::ControlLeft => {},
        KeyCode::ControlRight => {},
        KeyCode::AltLeft => {},
        KeyCode::AltRight => {},
        KeyCode::SuperLeft => {},
        KeyCode::SuperRight => {},
        KeyCode::F1 => {},
        KeyCode::F2 => {},
        KeyCode::F3 => {},
        KeyCode::F4 => {},
        KeyCode::F5 => {},
        KeyCode::F6 => {},
        KeyCode::F7 => {},
        KeyCode::F8 => {},
        KeyCode::F9 => {},
        KeyCode::F10 => {},
        KeyCode::F11 => {},
        KeyCode::F12 => {},
        _ => {},
    }
}

/// Inverse of [`keycode_to_name`]: the key with this on-disk name, if any.
pub fn name_to_keycode(name: &str) -> (r: Option<KeyCode>)
    ensures
        match r {
            Some(k) => spec_key_name(k) == Some(name@),
            None => forall|k: KeyCode| spec_key_name(k) != Some(name@),
        },
{
    let keys = all_keys();
    let mut i: usize = 0;
    while i < keys.len()
        invariant
            i <= keys.len(),
            forall|k: KeyCode| #[trigger] keys@.contains(k),
            keys@.len() == 101,
            forall|j: int| 0 <= j < keys@.len() ==> (#[trigger] keys@[j]).spec_code() == j,
            forall|j: int| 0 <= j < i ==> spec_key_name(#[trigger] keys@[j]) != Some(name@),
        decreases keys.len() - i,
    {
        match keycode_to_name(keys[i]) {
            Some(n) => {
                if n.eq(name) {
                    return Some(keys[i]);
                }
            },
            None => {},
        }
        i += 1;
    }
    proof {
        assert forall|k: KeyCode| spec_key_name(k) != Some(name@) by {
            let j = k.spec_code() as int;
            assert(keys@.contains(k));
            let q = choose|q: int| 0 <= q < keys@.len() && keys@[q] == k;
            assert(keys@[q].spec_code() == q);
        }
    }
    None
}

/// A key list copied into a vector of its own.
pub fn key_vec(ks: &[KeyCode]) -> (r: Vec<KeyCode>)
    ensures
        r@ == ks@,
{
    let mut v: Vec<KeyCode> = Vec::new();
    let mut i: usize = 0;
    while i < ks.len()
        invariant
            i <= ks@.len(),
            v@ == ks@.take(i as int),
        decreases ks@.len() - i,
    {
        v.push(ks[i]);
        assert(v@ =~= ks@.take(i + 1));
        i += 1;
    }
    assert(ks@.take(i as int) =~= ks@);
    v
}


/// Every key of the on-disk name table has its name: a binding on any of
/// them survives a save, and the name read back from a file finds it again.
pub proof fn lemma_named_keys_have_their_names()
    ensures
        spec_key_name(KeyCode::KeyA) == Some("A"@),
        spec_key_name(KeyCode::KeyB) == Some("B"@),
        spec_key_name(KeyCode::KeyC) == Some("C"@),
        spec_key_name(KeyCode::KeyD) == Some("D"@),
        spec_key_name(KeyCode::KeyE) == Some("E"@),
        spec_key_name(KeyCode::KeyF) == Some("F"@),
        spec_key_name(KeyCode::KeyG) == Some("G"@),
        spec_key_name(KeyCode::KeyH) == Some("H"@),
        spec_key_name(KeyCode::KeyI) == Some("I"@),
        spec_key_name(KeyCode::KeyJ) == Some("J"@),
        spec_key_name(KeyCode::KeyK) == Some("K"@),
        spec_key_name(KeyCode::KeyL) == Some("L"@),
        spec_key_name(KeyCode::KeyM) == Some("M"@),
        spec_key_name(KeyCode::KeyN) == Some("N"@),
        spec_key_name(KeyCode::KeyO) == Some("O"@),
        spec_key_name(KeyCode::KeyP) == Some("P"@),
        spec_key_name(KeyCode::KeyQ) == Some("Q"@),
        spec_key_name(KeyCode::KeyR) == Some("R"@),
        spec_key_name(KeyCode::KeyS) == Some("S"@),
        spec_key_name(KeyCode::KeyT) == Some("T"@),
        spec_key_name(KeyCode::KeyU) == Some("U"@),
        spec_key_name(KeyCode::KeyV) == Some("V"@),
        spec_key_name(KeyCode::KeyW) == Some("W"@),
        spec_key_name(KeyCode::KeyX) == Some("X"@),
        spec_key_name(KeyCode::KeyY) == Some("Y"@),
        spec_key_name(KeyCode::KeyZ) == Some("Z"@),
        spec_key_name(KeyCode::Digit0) == Some("0"@),
        spec_key_name(KeyCode::Digit1) == Some("1"@),
        spec_key_name(KeyCode::Digit2) == Some("2"@),
        spec_key_name(KeyCode::Digit3) == Some("3"@),
        spec_key_name(KeyCode::Digit4) == Some("4"@),
        spec_key_name(KeyCode::Digit5) == Some("5"@),
        spec_key_name(KeyCode::Digit6) == Some("6"@),
        spec_key_name(KeyCode::Digit7) == Some("7"@),
        spec_key_name(KeyCode::Digit8) == Some("8"@),
        spec_key_name(KeyCode::Digit9) == Some("9"@),
        spec_key_name(KeyCode::Semicolon) == Some("Semicolon"@),
        spec_key_name(KeyCode::Comma) == Some("Comma"@),
        spec_key_name(KeyCode::Period) == Some("Period"@),
        spec_key_name(KeyCode::Slash) == Some("Slash"@),
        spec_key_name(KeyCode::Backslash) == Some("Backslash"@),
        spec_key_name(KeyCode::Minus) == Some("Minus"@),
        spec_key_name(KeyCode::Equal) == Some("Equal"@),
        spec_key_name(KeyCode::BracketLeft) == Some("BracketLeft"@),
        spec_key_name(KeyCode::BracketRight) == Some("BracketRight"@),
        spec_key_name(KeyCode::Quote) == Some("Quote"@),
        spec_key_name(KeyCode::Backquote) == Some("Backquote"@),
        spec_key_name(KeyCode::Space) == Some("Space"@),
        spec_key_name(KeyCode::Enter) == Some("Enter"@),
        spec_key_name(KeyCode::Tab) == Some("Tab"@),
        spec_key_name(KeyCode::Backspace) == Some("Backspace"@),
        spec_key_name(KeyCode::Delete) == Some("Delete"@),
        spec_key_name(KeyCode::Escape) == Some("Escape"@),
        spec_key_name(KeyCode::ArrowLeft) == Some("Left"@),
        spec_key_name(KeyCode::ArrowRight) == Some("Right"@),
        spec_key_name(KeyCode::ArrowUp) == Some("Up"@),
        spec_key_name(KeyCode::ArrowDown) == Some("Down"@),
        spec_key_name(KeyCode::Home) == Some("Home"@),
        spec_key_name(KeyCode::End) == Some("End"@),
        spec_key_name(KeyCode::PageUp) == Some("PageUp"@),
        spec_key_name(KeyCode::PageDown) == Some("PageDown"@),
        spec_key_name(KeyCode::ShiftLeft) == Some("Shift"@),
        spec_key_name(KeyCode::ShiftRight) == Some("ShiftRight"@),
        spec_key_name(KeyCode::ControlLeft) == Some("Ctrl"@),
        spec_key_name(KeyCode::ControlRight) == Some("CtrlRight"@),
        spec_key_name(KeyCode::AltLeft) == Some("Alt"@),
        spec_key_name(KeyCode::AltRight) == Some("AltRight"@),
        spec_key_name(KeyCode::SuperLeft) == Some("Cmd"@),
        spec_key_name(KeyCode::SuperRight) == Some("CmdRight"@),
        spec_key_name(KeyCode::F1) == Some("F1"@),
        spec_key_name(KeyCode::F2) == Some("F2"@),
        spec_key_name(KeyCode::F3) == Some("F3"@),
        spec_key_name(KeyCode::F4) == Some("F4"@),
        spec_key_name(KeyCode::F5) == Some("F5"@),
        spec_key_name(KeyCode::F6) == Some("F6"@),
        spec_key_name(KeyCode::F7) == Some("F7"@),
        spec_key_name(KeyCode::F8) == Some("F8"@),
        spec_key_name(KeyCode::F9) == Some("F9"@),
        spec_key_name(KeyCode::F10) == Some("F10"@),
        spec_key_name(KeyCode::F11) == Some("F11"@),
        spec_key_name(KeyCode::F12) == Some("F12"@),
{
}

} // verus!
