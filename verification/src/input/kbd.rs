//! How a chord is spelled on screen.
//!
//! [`Chord`] is declarative; [`KbdChord`] is what it resolves to for display:
//! a flat list of concrete segments, each knowing its own glyph. `⌘` for Super
//! and `⏎` for Enter is keyboard vocabulary, not styling, which is why it lives
//! here rather than with whatever draws the keycap.

use vstd::prelude::*;

use super::chord::{Chord, chord_keys};
use super::key::{KeyCode, Platform, spec_cmd_key, spec_key_name};

verus! {

broadcast use vstd::string::group_string_axioms;

/// A side-agnostic modifier.
#[derive(Clone, Copy, Debug, PartialEq, Eq, Hash, Structural)]
pub enum ModifierKey {
    /// Alt / Option.
    Alt,
    /// Control.
    Control,
    /// Shift.
    Shift,
    /// Super / Command.
    Super,
}

/// One segment of a chord: a modifier, or a key.
#[derive(Clone, Copy, Debug, PartialEq, Eq, Hash, Structural)]
pub enum KbdKey {
    /// A side-agnostic modifier.
    Modifier(ModifierKey),
    /// A concrete key.
    Key(KeyCode),
}

/// The name a key is known by in code: its variant name.
pub open spec fn spec_key_label(k: KeyCode) -> Seq<char> {
    match k {
        KeyCode::KeyA => "KeyA"@,
        KeyCode::KeyB => "KeyB"@,
        KeyCode::KeyC => "KeyC"@,
        KeyCode::KeyD => "KeyD"@,
        KeyCode::KeyE => "KeyE"@,
        KeyCode::KeyF => "KeyF"@,
        KeyCode::KeyG => "KeyG"@,
        KeyCode::KeyH => "KeyH"@,
        KeyCode::KeyI => "KeyI"@,
        KeyCode::KeyJ => "KeyJ"@,
        KeyCode::KeyK => "KeyK"@,
        KeyCode::KeyL => "KeyL"@,
        KeyCode::KeyM => "KeyM"@,
        KeyCode::KeyN => "KeyN"@,
        KeyCode::KeyO => "KeyO"@,
        KeyCode::KeyP => "KeyP"@,
        KeyCode::KeyQ => "KeyQ"@,
        KeyCode::KeyR => "KeyR"@,
        KeyCode::KeyS => "KeyS"@,
        KeyCode::KeyT => "KeyT"@,
        KeyCode::KeyU => "KeyU"@,
        KeyCode::KeyV => "KeyV"@,
        KeyCode::KeyW => "KeyW"@,
        KeyCode::KeyX => "KeyX"@,
        KeyCode::KeyY => "KeyY"@,
        KeyCode::KeyZ => "KeyZ"@,
        KeyCode::Digit0 => "Digit0"@,
        KeyCode::Digit1 => "Digit1"@,
        KeyCode::Digit2 => "Digit2"@,
        KeyCode::Digit3 => "Digit3"@,
        KeyCode::Digit4 => "Digit4"@,
        KeyCode::Digit5 => "Digit5"@,
        KeyCode::Digit6 => "Digit6"@,
        KeyCode::Digit7 => "Digit7"@,
        KeyCode::Digit8 => "Digit8"@,
        KeyCode::Digit9 => "Digit9"@,
        KeyCode::Semicolon => "Semicolon"@,
        KeyCode::Comma => "Comma"@,
        KeyCode::Period => "Period"@,
        KeyCode::Slash => "Slash"@,
        KeyCode::Backslash => "Backslash"@,
        KeyCode::Minus => "Minus"@,
        KeyCode::Equal => "Equal"@,
        KeyCode::BracketLeft => "BracketLeft"@,
        KeyCode::BracketRight => "BracketRight"@,
        KeyCode::Quote => "Quote"@,
        KeyCode::Backquote => "Backquote"@,
        KeyCode::Space => "Space"@,
        KeyCode::Enter => "Enter"@,
        KeyCode::Tab => "Tab"@,
        KeyCode::Backspace => "Backspace"@,
        KeyCode::Delete => "Delete"@,
        KeyCode::Escape => "Escape"@,
        KeyCode::ArrowLeft => "ArrowLeft"@,
        KeyCode::ArrowRight => "ArrowRight"@,
        KeyCode::ArrowUp => "ArrowUp"@,
        KeyCode::ArrowDown => "ArrowDown"@,
        KeyCode::Home => "Home"@,
        KeyCode::End => "End"@,
        KeyCode::PageUp => "PageUp"@,
        KeyCode::PageDown => "PageDown"@,
        KeyCode::ShiftLeft => "ShiftLeft"@,
        KeyCode::ShiftRight => "ShiftRight"@,
        KeyCode::ControlLeft => "ControlLeft"@,
        KeyCode::ControlRight => "ControlRight"@,
        KeyCode::AltLeft => "AltLeft"@,
        KeyCode::AltRight => "AltRight"@,
        KeyCode::SuperLeft => "SuperLeft"@,
        KeyCode::SuperRight => "SuperRight"@,
        KeyCode::F1 => "F1"@,
        KeyCode::F2 => "F2"@,
        KeyCode::F3 => "F3"@,
        KeyCode::F4 => "F4"@,
        KeyCode::F5 => "F5"@,
        KeyCode::F6 => "F6"@,
        KeyCode::F7 => "F7"@,
        KeyCode::F8 => "F8"@,
        KeyCode::F9 => "F9"@,
        KeyCode::F10 => "F10"@,
        KeyCode::F11 => "F11"@,
        KeyCode::F12 => "F12"@,
        KeyCode::F13 => "F13"@,
        KeyCode::F14 => "F14"@,
        KeyCode::F15 => "F15"@,
        KeyCode::F16 => "F16"@,
        KeyCode::F17 => "F17"@,
        KeyCode::F18 => "F18"@,
        KeyCode::F19 => "F19"@,
        KeyCode::F20 => "F20"@,
        KeyCode::F21 => "F21"@,
        KeyCode::F22 => "F22"@,
        KeyCode::F23 => "F23"@,
        KeyCode::F24 => "F24"@,
        KeyCode::CapsLock => "CapsLock"@,
        KeyCode::NumpadEnter => "NumpadEnter"@,
        KeyCode::Insert => "Insert"@,
        KeyCode::PrintScreen => "PrintScreen"@,
        KeyCode::ScrollLock => "ScrollLock"@,
        KeyCode::Pause => "Pause"@,
        KeyCode::NumLock => "NumLock"@,
        KeyCode::ContextMenu => "ContextMenu"@,
    }
}

/// The name a key is known by in code: its variant name.
pub fn key_label(k: KeyCode) -> (r: &'static str)
    ensures
        r@ == spec_key_label(k),
{
    match k {
        KeyCode::KeyA => "KeyA",
        KeyCode::KeyB => "KeyB",
        KeyCode::KeyC => "KeyC",
        KeyCode::KeyD => "KeyD",
        KeyCode::KeyE => "KeyE",
        KeyCode::KeyF => "KeyF",
        KeyCode::KeyG => "KeyG",
        KeyCode::KeyH => "KeyH",
        KeyCode::KeyI => "KeyI",
        KeyCode::KeyJ => "KeyJ",
        KeyCode::KeyK => "KeyK",
        KeyCode::KeyL => "KeyL",
        KeyCode::KeyM => "KeyM",
        KeyCode::KeyN => "KeyN",
        KeyCode::KeyO => "KeyO",
        KeyCode::KeyP => "KeyP",
        KeyCode::KeyQ => "KeyQ",
        KeyCode::KeyR => "KeyR",
        KeyCode::KeyS => "KeyS",
        KeyCode::KeyT => "KeyT",
        KeyCode::KeyU => "KeyU",
        KeyCode::KeyV => "KeyV",
        KeyCode::KeyW => "KeyW",
        KeyCode::KeyX => "KeyX",
        KeyCode::KeyY => "KeyY",
        KeyCode::KeyZ => "KeyZ",
        KeyCode::Digit0 => "Digit0",
        KeyCode::Digit1 => "Digit1",
        KeyCode::Digit2 => "Digit2",
        KeyCode::Digit3 => "Digit3",
        KeyCode::Digit4 => "Digit4",
        KeyCode::Digit5 => "Digit5",
        KeyCode::Digit6 => "Digit6",
        KeyCode::Digit7 => "Digit7",
        KeyCode::Digit8 => "Digit8",
        KeyCode::Digit9 => "Digit9",
        KeyCode::Semicolon => "Semicolon",
        KeyCode::Comma => "Comma",
        KeyCode::Period => "Period",
        KeyCode::Slash => "Slash",
        KeyCode::Backslash => "Backslash",
        KeyCode::Minus => "Minus",
        KeyCode::Equal => "Equal",
        KeyCode::BracketLeft => "BracketLeft",
        KeyCode::BracketRight => "BracketRight",
        KeyCode::Quote => "Quote",
        KeyCode::Backquote => "Backquote",
        KeyCode::Space => "Space",
        KeyCode::Enter => "Enter",
        KeyCode::Tab => "Tab",
        KeyCode::Backspace => "Backspace",
        KeyCode::Delete => "Delete",
        KeyCode::Escape => "Escape",
        KeyCode::ArrowLeft => "ArrowLeft",
        KeyCode::ArrowRight => "ArrowRight",
        KeyCode::ArrowUp => "ArrowUp",
        KeyCode::ArrowDown => "ArrowDown",
        KeyCode::Home => "Home",
        KeyCode::End => "End",
        KeyCode::PageUp => "PageUp",
        KeyCode::PageDown => "PageDown",
        KeyCode::ShiftLeft => "ShiftLeft",
        KeyCode::ShiftRight => "ShiftRight",
        KeyCode::ControlLeft => "ControlLeft",
        KeyCode::ControlRight => "ControlRight",
        KeyCode::AltLeft => "AltLeft",
        KeyCode::AltRight => "AltRight",
        KeyCode::SuperLeft => "SuperLeft",
        KeyCode::SuperRight => "SuperRight",
        KeyCode::F1 => "F1",
        KeyCode::F2 => "F2",
        KeyCode::F3 => "F3",
        KeyCode::F4 => "F4",
        KeyCode::F5 => "F5",
        KeyCode::F6 => "F6",
        KeyCode::F7 => "F7",
        KeyCode::F8 => "F8",
        KeyCode::F9 => "F9",
        KeyCode::F10 => "F10",
        KeyCode::F11 => "F11",
        KeyCode::F12 => "F12",
        KeyCode::F13 => "F13",
        KeyCode::F14 => "F14",
        KeyCode::F15 => "F15",
        KeyCode::F16 => "F16",
        KeyCode::F17 => "F17",
        KeyCode::F18 => "F18",
        KeyCode::F19 => "F19",
        KeyCode::F20 => "F20",
        KeyCode::F21 => "F21",
        KeyCode::F22 => "F22",
        KeyCode::F23 => "F23",
        KeyCode::F24 => "F24",
        KeyCode::CapsLock => "CapsLock",
        KeyCode::NumpadEnter => "NumpadEnter",
        KeyCode::Insert => "Insert",
        KeyCode::PrintScreen => "PrintScreen",
        KeyCode::ScrollLock => "ScrollLock",
        KeyCode::Pause => "Pause",
        KeyCode::NumLock => "NumLock",
        KeyCode::ContextMenu => "ContextMenu",
    }
}

/// `s` without its leading `prefix`, if it has one.
pub open spec fn spec_strip(s: Seq<char>, prefix: Seq<char>) -> Option<Seq<char>> {
    if prefix.len() <= s.len() && s.take(prefix.len() as int) == prefix {
        Some(s.skip(prefix.len() as int))
    } else {
        None
    }
}

/// A label without its `Key` or `Digit` prefix: `KeyS` reads `S`, `Digit5`
/// reads `5`, anything else is unchanged.
pub open spec fn spec_strip_key_prefix(s: Seq<char>) -> Seq<char> {
    match spec_strip(s, "Key"@) {
        Some(rest) => rest,
        None => match spec_strip(s, "Digit"@) {
            Some(rest) => rest,
            None => s,
        },
    }
}

/// Whether `s` begins with `prefix`.
fn starts_with(s: &str, prefix: &str) -> (r: bool)
    ensures
        r == (prefix@.len() <= s@.len() && s@.take(prefix@.len() as int) == prefix@),
{
    let n = prefix.unicode_len();
    if n > s.unicode_len() {
        return false;
    }
    let mut i: usize = 0;
    while i < n
        invariant
            i <= n,
            n == prefix@.len(),
            n <= s@.len(),
            forall|j: int| 0 <= j < i ==> s@[j] == prefix@[j],
        decreases n - i,
    {
        if s.get_char(i) != prefix.get_char(i) {
            proof {
                assert(s@.take(n as int)[i as int] != prefix@[i as int]);
            }
            return false;
        }
        i += 1;
    }
    assert(s@.take(n as int) =~= prefix@);
    true
}

/// Strip the `Key` or `Digit` prefix from a key's code name.
pub fn strip_key_prefix(s: String) -> (r: String)
    ensures
        r@ == spec_strip_key_prefix(s@),
{
    proof {
        reveal_strlit("Key");
        reveal_strlit("Digit");
    }
    let len = s.as_str().unicode_len();
    if starts_with(s.as_str(), "Key") {
        return s.as_str().substring_char(3, len).to_owned();
    }
    if starts_with(s.as_str(), "Digit") {
        return s.as_str().substring_char(5, len).to_owned();
    }
    s
}

/// Glyph for a side-agnostic modifier.
pub open spec fn spec_modifier_glyph(m: ModifierKey) -> Seq<char> {
    match m {
        ModifierKey::Alt => "⌥"@,
        ModifierKey::Control => "⌃"@,
        ModifierKey::Shift => "⇧"@,
        ModifierKey::Super => "⌘"@,
    }
}

/// Glyph for a side-agnostic modifier.
pub fn modifier_glyph(m: ModifierKey) -> (r: &'static str)
    ensures
        r@ == spec_modifier_glyph(m),
{
    match m {
        ModifierKey::Alt => "⌥",
        ModifierKey::Control => "⌃",
        ModifierKey::Shift => "⇧",
        ModifierKey::Super => "⌘",
    }
}

/// Display text for a key: modifier sides draw the same glyph as the
/// side-agnostic modifier, common named keys draw one glyph each, and anything
/// else draws its code name without a `Key`/`Digit` prefix.
pub open spec fn spec_key_glyph(k: KeyCode) -> Seq<char> {
    match k {
        KeyCode::SuperLeft => "⌘"@,
        KeyCode::SuperRight => "⌘"@,
        KeyCode::ShiftLeft => "⇧"@,
        KeyCode::ShiftRight => "⇧"@,
        KeyCode::AltLeft => "⌥"@,
        KeyCode::AltRight => "⌥"@,
        KeyCode::ControlLeft => "⌃"@,
        KeyCode::ControlRight => "⌃"@,
        KeyCode::Enter => "⏎"@,
        KeyCode::NumpadEnter => "⏎"@,
        KeyCode::Backspace => "⌫"@,
        KeyCode::Delete => "⌦"@,
        KeyCode::Escape => "⎋"@,
        KeyCode::Tab => "⇥"@,
        KeyCode::CapsLock => "⇪"@,
        KeyCode::ArrowUp => "↑"@,
        KeyCode::ArrowDown => "↓"@,
        KeyCode::ArrowLeft => "←"@,
        KeyCode::ArrowRight => "→"@,
        KeyCode::PageUp => "⇞"@,
        KeyCode::PageDown => "⇟"@,
        KeyCode::Home => "↖"@,
        KeyCode::End => "↘"@,
        KeyCode::Space => "␣"@,
        _ => spec_strip_key_prefix(spec_key_label(k)),
    }
}

/// Display text for a key.
pub fn key_glyph(k: KeyCode) -> (r: String)
    ensures
        r@ == spec_key_glyph(k),
{
    let s: &str = match k {
        KeyCode::SuperLeft => "⌘",
        KeyCode::SuperRight => "⌘",
        KeyCode::ShiftLeft => "⇧",
        KeyCode::ShiftRight => "⇧",
        KeyCode::AltLeft => "⌥",
        KeyCode::AltRight => "⌥",
        KeyCode::ControlLeft => "⌃",
        KeyCode::ControlRight => "⌃",
        KeyCode::Enter => "⏎",
        KeyCode::NumpadEnter => "⏎",
        KeyCode::Backspace => "⌫",
        KeyCode::Delete => "⌦",
        KeyCode::Escape => "⎋",
        KeyCode::Tab => "⇥",
        KeyCode::CapsLock => "⇪",
        KeyCode::ArrowUp => "↑",
        KeyCode::ArrowDown => "↓",
        KeyCode::ArrowLeft => "←",
        KeyCode::ArrowRight => "→",
        KeyCode::PageUp => "⇞",
        KeyCode::PageDown => "⇟",
        KeyCode::Home => "↖",
        KeyCode::End => "↘",
        KeyCode::Space => "␣",
        _ => {
            return strip_key_prefix(key_label(k).to_owned());
        },
    };
    s.to_owned()
}

/// The side-agnostic modifier a key is one side of, if it is one.
pub open spec fn spec_modifier_of(k: KeyCode) -> Option<ModifierKey> {
    match k {
        KeyCode::SuperLeft | KeyCode::SuperRight => Some(ModifierKey::Super),
        KeyCode::ShiftLeft | KeyCode::ShiftRight => Some(ModifierKey::Shift),
        KeyCode::AltLeft | KeyCode::AltRight => Some(ModifierKey::Alt),
        KeyCode::ControlLeft | KeyCode::ControlRight => Some(ModifierKey::Control),
        _ => None,
    }
}

/// The side-agnostic modifier a key is one side of, if it is one.
pub fn modifier_of(k: KeyCode) -> (r: Option<ModifierKey>)
    ensures
        r == spec_modifier_of(k),
{
    match k {
        KeyCode::SuperLeft | KeyCode::SuperRight => Some(ModifierKey::Super),
        KeyCode::ShiftLeft | KeyCode::ShiftRight => Some(ModifierKey::Shift),
        KeyCode::AltLeft | KeyCode::AltRight => Some(ModifierKey::Alt),
        KeyCode::ControlLeft | KeyCode::ControlRight => Some(ModifierKey::Control),
        _ => None,
    }
}

impl KbdKey {
    /// The text to draw for this segment.
    pub open spec fn spec_glyph(self) -> Seq<char> {
        match self {
            KbdKey::Modifier(m) => spec_modifier_glyph(m),
            KbdKey::Key(k) => spec_key_glyph(k),
        }
    }

    /// The text to draw for this segment.
    pub fn glyph(self) -> (r: String)
        ensures
            r@ == self.spec_glyph(),
    {
        match self {
            KbdKey::Modifier(m) => modifier_glyph(m).to_owned(),
            KbdKey::Key(k) => key_glyph(k),
        }
    }

    /// Whether this segment is a modifier.
    pub fn is_modifier(self) -> (r: bool)
        ensures
            r == self is Modifier,
    {
        match self {
            KbdKey::Modifier(_) => true,
            KbdKey::Key(_) => false,
        }
    }
}

/// A chord as a list of drawable segments.
#[derive(Debug, PartialEq, Eq)]
pub struct KbdChord(pub Vec<KbdKey>);

impl Clone for KbdChord {
    fn clone(&self) -> (r: Self)
        ensures
            r.0@ == self.0@,
    {
        let mut v: Vec<KbdKey> = Vec::new();
        let mut i: usize = 0;
        while i < self.0.len()
            invariant
                i <= self.0@.len(),
                v@ == self.0@.take(i as int),
            decreases self.0@.len() - i,
        {
            v.push(self.0[i]);
            assert(v@ =~= self.0@.take(i + 1));
            i += 1;
        }
        assert(self.0@.take(i as int) =~= self.0@);
        KbdChord(v)
    }
}

impl Default for KbdChord {
    fn default() -> (r: Self)
        ensures
            r.0@ == Seq::<KbdKey>::empty(),
    {
        KbdChord(Vec::new())
    }
}

/// The segments of a list that are modifiers (`want`) or keys (`!want`), in
/// order.
pub open spec fn segments_where(s: Seq<KbdKey>, want: bool) -> Seq<KbdKey>
    decreases s.len(),
{
    if s.len() == 0 {
        Seq::<KbdKey>::empty()
    } else {
        segments_where(s.drop_last(), want) + if (s.last() is Modifier) == want {
            seq![s.last()]
        } else {
            Seq::<KbdKey>::empty()
        }
    }
}

/// Lowering decomposed segments: each key that is one side of a modifier
/// becomes that modifier, and a segment already present is not repeated.
pub open spec fn folded(s: Seq<KbdKey>) -> Seq<KbdKey>
    decreases s.len(),
{
    if s.len() == 0 {
        Seq::<KbdKey>::empty()
    } else {
        let prev = folded(s.drop_last());
        let seg = match s.last() {
            KbdKey::Key(k) => match spec_modifier_of(k) {
                Some(m) => KbdKey::Modifier(m),
                None => KbdKey::Key(k),
            },
            m => m,
        };
        if prev.contains(seg) {
            prev
        } else {
            prev.push(seg)
        }
    }
}

impl KbdChord {
    /// Empty chord.
    pub fn new() -> (c: KbdChord)
        ensures
            c.0@ == Seq::<KbdKey>::empty(),
    {
        KbdChord(Vec::new())
    }

    /// Single key, no modifiers.
    pub fn key(k: KeyCode) -> (c: KbdChord)
        ensures
            c.0@ == seq![KbdKey::Key(k)],
    {
        KbdChord(vec![KbdKey::Key(k)])
    }

    /// Append a modifier or key.
    pub fn with(self, segment: KbdKey) -> (c: KbdChord)
        ensures
            c.0@ == self.0@.push(segment),
    {
        let mut v = self.0;
        v.push(segment);
        KbdChord(v)
    }

    /// The segments in display order: modifiers first, then keys, each in the
    /// order they were added, whatever order that was.
    pub fn render_order(&self) -> (r: Vec<KbdKey>)
        ensures
            r@ == segments_where(self.0@, true) + segments_where(self.0@, false),
    {
        let mut mods: Vec<KbdKey> = Vec::new();
        let mut keys: Vec<KbdKey> = Vec::new();
        let mut i: usize = 0;
        while i < self.0.len()
            invariant
                i <= self.0@.len(),
                mods@ == segments_where(self.0@.take(i as int), true),
                keys@ == segments_where(self.0@.take(i as int), false),
            decreases self.0@.len() - i,
        {
            let s = self.0[i];
            proof {
                assert(self.0@.take(i + 1).drop_last() =~= self.0@.take(i as int));
                assert(self.0@.take(i + 1).last() == s);
            }
            let ghost m0 = mods@;
            let ghost k0 = keys@;
            if s.is_modifier() {
                mods.push(s);
                assert(mods@ =~= m0 + seq![s]);
                assert(keys@ =~= k0 + Seq::<KbdKey>::empty());
            } else {
                keys.push(s);
                assert(keys@ =~= k0 + seq![s]);
                assert(mods@ =~= m0 + Seq::<KbdKey>::empty());
            }
            i += 1;
        }
        assert(self.0@.take(i as int) =~= self.0@);
        let mut out = mods;
        let mut j: usize = 0;
        let ghost m = out@;
        while j < keys.len()
            invariant
                j <= keys@.len(),
                out@ == m + keys@.take(j as int),
            decreases keys@.len() - j,
        {
            out.push(keys[j]);
            assert(out@ =~= m + keys@.take(j + 1));
            j += 1;
        }
        assert(keys@.take(j as int) =~= keys@);
        out
    }

    /// Resolve a declarative chord into the concrete keys to draw on
    /// `platform`.
    pub fn from_chord(chord: &Chord, platform: Platform) -> (c: KbdChord)
        ensures
            c.0@.len() == chord_keys(chord@, platform).len(),
            forall|i: int| 0 <= i < c.0@.len() ==> c.0@[i] == KbdKey::Key(chord_keys(chord@, platform)[i]),
    {
        let ks = chord.keys(platform);
        let mut v: Vec<KbdKey> = Vec::new();
        let mut i: usize = 0;
        while i < ks.len()
            invariant
                i <= ks@.len(),
                ks@ == chord_keys(chord@, platform),
                v@.len() == i,
                forall|j: int| 0 <= j < i ==> v@[j] == KbdKey::Key(ks@[j]),
            decreases ks@.len() - i,
        {
            v.push(KbdKey::Key(ks[i]));
            i += 1;
        }
        KbdChord(v)
    }

    /// Lower a chord's decomposed segments: a key that is one side of a
    /// modifier folds back into that modifier, and a segment already present
    /// is not repeated, so `⌘` arriving as both sides draws once.
    pub fn from_segments(segments: &Vec<KbdKey>) -> (c: KbdChord)
        ensures
            c.0@ == folded(segments@),
    {
        let mut out: Vec<KbdKey> = Vec::new();
        let mut i: usize = 0;
        while i < segments.len()
            invariant
                i <= segments@.len(),
                out@ == folded(segments@.take(i as int)),
            decreases segments@.len() - i,
        {
            proof {
                assert(segments@.take(i + 1).drop_last() =~= segments@.take(i as int));
                assert(segments@.take(i + 1).last() == segments@[i as int]);
            }
            let seg = match segments[i] {
                KbdKey::Key(k) => match modifier_of(k) {
                    Some(m) => KbdKey::Modifier(m),
                    None => KbdKey::Key(k),
                },
                m => m,
            };
            let mut present = false;
            let mut j: usize = 0;
            while j < out.len()
                invariant
                    j <= out@.len(),
                    present == exists|q: int| 0 <= q < j && out@[q] == seg,
                decreases out@.len() - j,
            {
                if out[j] == seg {
                    present = true;
                }
                j += 1;
            }
            if !present {
                out.push(seg);
            }
            i += 1;
        }
        assert(segments@.take(i as int) =~= segments@);
        KbdChord(out)
    }
}


/// The keys drawn as a symbol rather than as their name: the editing,
/// navigation and whitespace keys.
pub open spec fn drawn_as_symbol(k: KeyCode) -> bool {
    ||| k == KeyCode::Enter
    ||| k == KeyCode::Backspace
    ||| k == KeyCode::Delete
    ||| k == KeyCode::Escape
    ||| k == KeyCode::Tab
    ||| k == KeyCode::CapsLock
    ||| k == KeyCode::ArrowUp
    ||| k == KeyCode::ArrowDown
    ||| k == KeyCode::ArrowLeft
    ||| k == KeyCode::ArrowRight
    ||| k == KeyCode::PageUp
    ||| k == KeyCode::PageDown
    ||| k == KeyCode::Home
    ||| k == KeyCode::End
    ||| k == KeyCode::Space
}

/// The symbols the keyboard's named keys are drawn with, and the modifier
/// sides drawn as their modifier.
pub proof fn lemma_key_glyphs()
    ensures
        spec_key_glyph(KeyCode::Enter) == "⏎"@,
        spec_key_glyph(KeyCode::Backspace) == "⌫"@,
        spec_key_glyph(KeyCode::Delete) == "⌦"@,
        spec_key_glyph(KeyCode::Escape) == "⎋"@,
        spec_key_glyph(KeyCode::Tab) == "⇥"@,
        spec_key_glyph(KeyCode::CapsLock) == "⇪"@,
        spec_key_glyph(KeyCode::ArrowUp) == "↑"@,
        spec_key_glyph(KeyCode::ArrowDown) == "↓"@,
        spec_key_glyph(KeyCode::ArrowLeft) == "←"@,
        spec_key_glyph(KeyCode::ArrowRight) == "→"@,
        spec_key_glyph(KeyCode::PageUp) == "⇞"@,
        spec_key_glyph(KeyCode::PageDown) == "⇟"@,
        spec_key_glyph(KeyCode::Home) == "↖"@,
        spec_key_glyph(KeyCode::End) == "↘"@,
        spec_key_glyph(KeyCode::Space) == "␣"@,
        spec_key_glyph(KeyCode::SuperLeft) == "⌘"@,
        spec_key_glyph(KeyCode::SuperRight) == "⌘"@,
        spec_key_glyph(KeyCode::ShiftLeft) == "⇧"@,
        spec_key_glyph(KeyCode::ShiftRight) == "⇧"@,
        spec_key_glyph(KeyCode::AltLeft) == "⌥"@,
        spec_key_glyph(KeyCode::AltRight) == "⌥"@,
        spec_key_glyph(KeyCode::ControlLeft) == "⌃"@,
        spec_key_glyph(KeyCode::ControlRight) == "⌃"@,
        spec_key_glyph(KeyCode::NumpadEnter) == "⏎"@,
{
}

/// Distinct keys drawn as symbols draw distinct symbols: no two of them can
/// be mistaken for each other on a keycap.
pub proof fn lemma_symbols_are_distinct(a: KeyCode, b: KeyCode)
    requires
        drawn_as_symbol(a),
        drawn_as_symbol(b),
        a != b,
    ensures
        spec_key_glyph(a) != spec_key_glyph(b),
{
    reveal_strlit("←");
    reveal_strlit("↑");
    reveal_strlit("→");
    reveal_strlit("↓");
    reveal_strlit("↖");
    reveal_strlit("↘");
    reveal_strlit("⇞");
    reveal_strlit("⇟");
    reveal_strlit("⇥");
    reveal_strlit("⇪");
    reveal_strlit("⌦");
    reveal_strlit("⌫");
    reveal_strlit("⎋");
    reveal_strlit("⏎");
    reveal_strlit("␣");
    assert("←"@.len() == 1 && "←"@[0] == '←');
    assert("↑"@.len() == 1 && "↑"@[0] == '↑');
    assert("→"@.len() == 1 && "→"@[0] == '→');
    assert("↓"@.len() == 1 && "↓"@[0] == '↓');
    assert("↖"@.len() == 1 && "↖"@[0] == '↖');
    assert("↘"@.len() == 1 && "↘"@[0] == '↘');
    assert("⇞"@.len() == 1 && "⇞"@[0] == '⇞');
    assert("⇟"@.len() == 1 && "⇟"@[0] == '⇟');
    assert("⇥"@.len() == 1 && "⇥"@[0] == '⇥');
    assert("⇪"@.len() == 1 && "⇪"@[0] == '⇪');
    assert("⌦"@.len() == 1 && "⌦"@[0] == '⌦');
    assert("⌫"@.len() == 1 && "⌫"@[0] == '⌫');
    assert("⎋"@.len() == 1 && "⎋"@[0] == '⎋');
    assert("⏎"@.len() == 1 && "⏎"@[0] == '⏎');
    assert("␣"@.len() == 1 && "␣"@[0] == '␣');
    if spec_key_glyph(a) == spec_key_glyph(b) {
        assert(spec_key_glyph(a)[0] == spec_key_glyph(b)[0]);
    }
}


/// The letter and digit keys.
pub open spec fn is_letter_or_digit(k: KeyCode) -> bool {
    ||| k == KeyCode::KeyA
    ||| k == KeyCode::KeyB
    ||| k == KeyCode::KeyC
    ||| k == KeyCode::KeyD
    ||| k == KeyCode::KeyE
    ||| k == KeyCode::KeyF
    ||| k == KeyCode::KeyG
    ||| k == KeyCode::KeyH
    ||| k == KeyCode::KeyI
    ||| k == KeyCode::KeyJ
    ||| k == KeyCode::KeyK
    ||| k == KeyCode::KeyL
    ||| k == KeyCode::KeyM
    ||| k == KeyCode::KeyN
    ||| k == KeyCode::KeyO
    ||| k == KeyCode::KeyP
    ||| k == KeyCode::KeyQ
    ||| k == KeyCode::KeyR
    ||| k == KeyCode::KeyS
    ||| k == KeyCode::KeyT
    ||| k == KeyCode::KeyU
    ||| k == KeyCode::KeyV
    ||| k == KeyCode::KeyW
    ||| k == KeyCode::KeyX
    ||| k == KeyCode::KeyY
    ||| k == KeyCode::KeyZ
    ||| k == KeyCode::Digit0
    ||| k == KeyCode::Digit1
    ||| k == KeyCode::Digit2
    ||| k == KeyCode::Digit3
    ||| k == KeyCode::Digit4
    ||| k == KeyCode::Digit5
    ||| k == KeyCode::Digit6
    ||| k == KeyCode::Digit7
    ||| k == KeyCode::Digit8
    ||| k == KeyCode::Digit9
}

/// A letter or digit key is drawn as exactly its on-disk name: `S` for the
/// S key, `5` for the 5 key.
pub proof fn lemma_letters_and_digits_draw_their_names(k: KeyCode)
    requires
        is_letter_or_digit(k),
    ensures
        spec_key_name(k) matches Some(n) && spec_key_glyph(k) == n,
{
    reveal_strlit("Key");
    reveal_strlit("Digit");
    assert(spec_key_glyph(KeyCode::KeyA) == "A"@) by {
        reveal_strlit("KeyA");
        reveal_strlit("A");
        assert("KeyA"@.take(3) =~= "Key"@);
        assert("KeyA"@.skip(3) =~= "A"@);
    }
    assert(spec_key_glyph(KeyCode::KeyB) == "B"@) by {
        reveal_strlit("KeyB");
        reveal_strlit("B");
        assert("KeyB"@.take(3) =~= "Key"@);
        assert("KeyB"@.skip(3) =~= "B"@);
    }
    assert(spec_key_glyph(KeyCode::KeyC) == "C"@) by {
        reveal_strlit("KeyC");
        reveal_strlit("C");
        assert("KeyC"@.take(3) =~= "Key"@);
        assert("KeyC"@.skip(3) =~= "C"@);
    }
    assert(spec_key_glyph(KeyCode::KeyD) == "D"@) by {
        reveal_strlit("KeyD");
        reveal_strlit("D");
        assert("KeyD"@.take(3) =~= "Key"@);
        assert("KeyD"@.skip(3) =~= "D"@);
    }
    assert(spec_key_glyph(KeyCode::KeyE) == "E"@) by {
        reveal_strlit("KeyE");
        reveal_strlit("E");
        assert("KeyE"@.take(3) =~= "Key"@);
        assert("KeyE"@.skip(3) =~= "E"@);
    }
    assert(spec_key_glyph(KeyCode::KeyF) == "F"@) by {
        reveal_strlit("KeyF");
        reveal_strlit("F");
        assert("KeyF"@.take(3) =~= "Key"@);
        assert("KeyF"@.skip(3) =~= "F"@);
    }
    assert(spec_key_glyph(KeyCode::KeyG) == "G"@) by {
        reveal_strlit("KeyG");
        reveal_strlit("G");
        assert("KeyG"@.take(3) =~= "Key"@);
        assert("KeyG"@.skip(3) =~= "G"@);
    }
    assert(spec_key_glyph(KeyCode::KeyH) == "H"@) by {
        reveal_strlit("KeyH");
        reveal_strlit("H");
        assert("KeyH"@.take(3) =~= "Key"@);
        assert("KeyH"@.skip(3) =~= "H"@);
    }
    assert(spec_key_glyph(KeyCode::KeyI) == "I"@) by {
        reveal_strlit("KeyI");
        reveal_strlit("I");
        assert("KeyI"@.take(3) =~= "Key"@);
        assert("KeyI"@.skip(3) =~= "I"@);
    }
    assert(spec_key_glyph(KeyCode::KeyJ) == "J"@) by {
        reveal_strlit("KeyJ");
        reveal_strlit("J");
        assert("KeyJ"@.take(3) =~= "Key"@);
        assert("KeyJ"@.skip(3) =~= "J"@);
    }
    assert(spec_key_glyph(KeyCode::KeyK) == "K"@) by {
        reveal_strlit("KeyK");
        reveal_strlit("K");
        assert("KeyK"@.take(3) =~= "Key"@);
        assert("KeyK"@.skip(3) =~= "K"@);
    }
    assert(spec_key_glyph(KeyCode::KeyL) == "L"@) by {
        reveal_strlit("KeyL");
        reveal_strlit("L");
        assert("KeyL"@.take(3) =~= "Key"@);
        assert("KeyL"@.skip(3) =~= "L"@);
    }
    assert(spec_key_glyph(KeyCode::KeyM) == "M"@) by {
        reveal_strlit("KeyM");
        reveal_strlit("M");
        assert("KeyM"@.take(3) =~= "Key"@);
        assert("KeyM"@.skip(3) =~= "M"@);
    }
    assert(spec_key_glyph(KeyCode::KeyN) == "N"@) by {
        reveal_strlit("KeyN");
        reveal_strlit("N");
        assert("KeyN"@.take(3) =~= "Key"@);
        assert("KeyN"@.skip(3) =~= "N"@);
    }
    assert(spec_key_glyph(KeyCode::KeyO) == "O"@) by {
        reveal_strlit("KeyO");
        reveal_strlit("O");
        assert("KeyO"@.take(3) =~= "Key"@);
        assert("KeyO"@.skip(3) =~= "O"@);
    }
    assert(spec_key_glyph(KeyCode::KeyP) == "P"@) by {
        reveal_strlit("KeyP");
        reveal_strlit("P");
        assert("KeyP"@.take(3) =~= "Key"@);
        assert("KeyP"@.skip(3) =~= "P"@);
    }
    assert(spec_key_glyph(KeyCode::KeyQ) == "Q"@) by {
        reveal_strlit("KeyQ");
        reveal_strlit("Q");
        assert("KeyQ"@.take(3) =~= "Key"@);
        assert("KeyQ"@.skip(3) =~= "Q"@);
    }
    assert(spec_key_glyph(KeyCode::KeyR) == "R"@) by {
        reveal_strlit("KeyR");
        reveal_strlit("R");
        assert("KeyR"@.take(3) =~= "Key"@);
        assert("KeyR"@.skip(3) =~= "R"@);
    }
    assert(spec_key_glyph(KeyCode::KeyS) == "S"@) by {
        reveal_strlit("KeyS");
        reveal_strlit("S");
        assert("KeyS"@.take(3) =~= "Key"@);
        assert("KeyS"@.skip(3) =~= "S"@);
    }
    assert(spec_key_glyph(KeyCode::KeyT) == "T"@) by {
        reveal_strlit("KeyT");
        reveal_strlit("T");
        assert("KeyT"@.take(3) =~= "Key"@);
        assert("KeyT"@.skip(3) =~= "T"@);
    }
    assert(spec_key_glyph(KeyCode::KeyU) == "U"@) by {
        reveal_strlit("KeyU");
        reveal_strlit("U");
        assert("KeyU"@.take(3) =~= "Key"@);
        assert("KeyU"@.skip(3) =~= "U"@);
    }
    assert(spec_key_glyph(KeyCode::KeyV) == "V"@) by {
        reveal_strlit("KeyV");
        reveal_strlit("V");
        assert("KeyV"@.take(3) =~= "Key"@);
        assert("KeyV"@.skip(3) =~= "V"@);
    }
    assert(spec_key_glyph(KeyCode::KeyW) == "W"@) by {
        reveal_strlit("KeyW");
        reveal_strlit("W");
        assert("KeyW"@.take(3) =~= "Key"@);
        assert("KeyW"@.skip(3) =~= "W"@);
    }
    assert(spec_key_glyph(KeyCode::KeyX) == "X"@) by {
        reveal_strlit("KeyX");
        reveal_strlit("X");
        assert("KeyX"@.take(3) =~= "Key"@);
        assert("KeyX"@.skip(3) =~= "X"@);
    }
    assert(spec_key_glyph(KeyCode::KeyY) == "Y"@) by {
        reveal_strlit("KeyY");
        reveal_strlit("Y");
        assert("KeyY"@.take(3) =~= "Key"@);
        assert("KeyY"@.skip(3) =~= "Y"@);
    }
    assert(spec_key_glyph(KeyCode::KeyZ) == "Z"@) by {
        reveal_strlit("KeyZ");
        reveal_strlit("Z");
        assert("KeyZ"@.take(3) =~= "Key"@);
        assert("KeyZ"@.skip(3) =~= "Z"@);
    }
    assert(spec_key_glyph(KeyCode::Digit0) == "0"@) by {
        reveal_strlit("Digit0");
        reveal_strlit("0");
        assert("Digit0"@.take(3)[0] != "Key"@[0]);
        assert("Digit0"@.take(5) =~= "Digit"@);
        assert("Digit0"@.skip(5) =~= "0"@);
    }
    assert(spec_key_glyph(KeyCode::Digit1) == "1"@) by {
        reveal_strlit("Digit1");
        reveal_strlit("1");
        assert("Digit1"@.take(3)[0] != "Key"@[0]);
        assert("Digit1"@.take(5) =~= "Digit"@);
        assert("Digit1"@.skip(5) =~= "1"@);
    }
    assert(spec_key_glyph(KeyCode::Digit2) == "2"@) by {
        reveal_strlit("Digit2");
        reveal_strlit("2");
        assert("Digit2"@.take(3)[0] != "Key"@[0]);
        assert("Digit2"@.take(5) =~= "Digit"@);
        assert("Digit2"@.skip(5) =~= "2"@);
    }
    assert(spec_key_glyph(KeyCode::Digit3) == "3"@) by {
        reveal_strlit("Digit3");
        reveal_strlit("3");
        assert("Digit3"@.take(3)[0] != "Key"@[0]);
        assert("Digit3"@.take(5) =~= "Digit"@);
        assert("Digit3"@.skip(5) =~= "3"@);
    }
    assert(spec_key_glyph(KeyCode::Digit4) == "4"@) by {
        reveal_strlit("Digit4");
        reveal_strlit("4");
        assert("Digit4"@.take(3)[0] != "Key"@[0]);
        assert("Digit4"@.take(5) =~= "Digit"@);
        assert("Digit4"@.skip(5) =~= "4"@);
    }
    assert(spec_key_glyph(KeyCode::Digit5) == "5"@) by {
        reveal_strlit("Digit5");
        reveal_strlit("5");
        assert("Digit5"@.take(3)[0] != "Key"@[0]);
        assert("Digit5"@.take(5) =~= "Digit"@);
        assert("Digit5"@.skip(5) =~= "5"@);
    }
    assert(spec_key_glyph(KeyCode::Digit6) == "6"@) by {
        reveal_strlit("Digit6");
        reveal_strlit("6");
        assert("Digit6"@.take(3)[0] != "Key"@[0]);
        assert("Digit6"@.take(5) =~= "Digit"@);
        assert("Digit6"@.skip(5) =~= "6"@);
    }
    assert(spec_key_glyph(KeyCode::Digit7) == "7"@) by {
        reveal_strlit("Digit7");
        reveal_strlit("7");
        assert("Digit7"@.take(3)[0] != "Key"@[0]);
        assert("Digit7"@.take(5) =~= "Digit"@);
        assert("Digit7"@.skip(5) =~= "7"@);
    }
    assert(spec_key_glyph(KeyCode::Digit8) == "8"@) by {
        reveal_strlit("Digit8");
        reveal_strlit("8");
        assert("Digit8"@.take(3)[0] != "Key"@[0]);
        assert("Digit8"@.take(5) =~= "Digit"@);
        assert("Digit8"@.skip(5) =~= "8"@);
    }
    assert(spec_key_glyph(KeyCode::Digit9) == "9"@) by {
        reveal_strlit("Digit9");
        reveal_strlit("9");
        assert("Digit9"@.take(3)[0] != "Key"@[0]);
        assert("Digit9"@.take(5) =~= "Digit"@);
        assert("Digit9"@.skip(5) =~= "9"@);
    }
}


/// A modifier key draws the same glyph as the modifier it is a side of, so a
/// binding looks the same whichever form it resolved to; and the four
/// modifiers draw four different glyphs.
pub proof fn lemma_modifier_sides_draw_their_modifier(k: KeyCode, a: ModifierKey, b: ModifierKey)
    ensures
        spec_modifier_of(k) matches Some(m) ==> spec_key_glyph(k) == spec_modifier_glyph(m),
        a != b ==> spec_modifier_glyph(a) != spec_modifier_glyph(b),
{
    reveal_strlit("⌥");
    reveal_strlit("⌃");
    reveal_strlit("⇧");
    reveal_strlit("⌘");
    assert("⌥"@[0] == '⌥' && "⌃"@[0] == '⌃' && "⇧"@[0] == '⇧' && "⌘"@[0] == '⌘');
    if a != b && spec_modifier_glyph(a) == spec_modifier_glyph(b) {
        assert(spec_modifier_glyph(a)[0] == spec_modifier_glyph(b)[0]);
    }
}


/// The function keys F1 to F12.
pub open spec fn is_function_key(k: KeyCode) -> bool {
    ||| k == KeyCode::F1
    ||| k == KeyCode::F2
    ||| k == KeyCode::F3
    ||| k == KeyCode::F4
    ||| k == KeyCode::F5
    ||| k == KeyCode::F6
    ||| k == KeyCode::F7
    ||| k == KeyCode::F8
    ||| k == KeyCode::F9
    ||| k == KeyCode::F10
    ||| k == KeyCode::F11
    ||| k == KeyCode::F12
}

/// A function key is drawn as exactly its on-disk name.
pub proof fn lemma_function_keys_draw_their_names(k: KeyCode)
    requires
        is_function_key(k),
    ensures
        spec_key_name(k) matches Some(n) && spec_key_glyph(k) == n,
{
    reveal_strlit("Key");
    reveal_strlit("Digit");
    assert("Key"@[0] == 'K' && "Digit"@.len() == 5);
    assert(spec_key_glyph(KeyCode::F1) == "F1"@) by {
        reveal_strlit("F1");
        assert("F1"@[0] == 'F');
        if "F1"@.len() >= 3 {
            assert("F1"@.take(3)[0] != "Key"@[0]);
        }
    }
    assert(spec_key_glyph(KeyCode::F2) == "F2"@) by {
        reveal_strlit("F2");
        assert("F2"@[0] == 'F');
        if "F2"@.len() >= 3 {
            assert("F2"@.take(3)[0] != "Key"@[0]);
        }
    }
    assert(spec_key_glyph(KeyCode::F3) == "F3"@) by {
        reveal_strlit("F3");
        assert("F3"@[0] == 'F');
        if "F3"@.len() >= 3 {
            assert("F3"@.take(3)[0] != "Key"@[0]);
        }
    }
    assert(spec_key_glyph(KeyCode::F4) == "F4"@) by {
        reveal_strlit("F4");
        assert("F4"@[0] == 'F');
        if "F4"@.len() >= 3 {
            assert("F4"@.take(3)[0] != "Key"@[0]);
        }
    }
    assert(spec_key_glyph(KeyCode::F5) == "F5"@) by {
        reveal_strlit("F5");
        assert("F5"@[0] == 'F');
        if "F5"@.len() >= 3 {
            assert("F5"@.take(3)[0] != "Key"@[0]);
        }
    }
    assert(spec_key_glyph(KeyCode::F6) == "F6"@) by {
        reveal_strlit("F6");
        assert("F6"@[0] == 'F');
        if "F6"@.len() >= 3 {
            assert("F6"@.take(3)[0] != "Key"@[0]);
        }
    }
    assert(spec_key_glyph(KeyCode::F7) == "F7"@) by {
        reveal_strlit("F7");
        assert("F7"@[0] == 'F');
        if "F7"@.len() >= 3 {
            assert("F7"@.take(3)[0] != "Key"@[0]);
        }
    }
    assert(spec_key_glyph(KeyCode::F8) == "F8"@) by {
        reveal_strlit("F8");
        assert("F8"@[0] == 'F');
        if "F8"@.len() >= 3 {
            assert("F8"@.take(3)[0] != "Key"@[0]);
        }
    }
    assert(spec_key_glyph(KeyCode::F9) == "F9"@) by {
        reveal_strlit("F9");
        assert("F9"@[0] == 'F');
        if "F9"@.len() >= 3 {
            assert("F9"@.take(3)[0] != "Key"@[0]);
        }
    }
    assert(spec_key_glyph(KeyCode::F10) == "F10"@) by {
        reveal_strlit("F10");
        assert("F10"@[0] == 'F');
        if "F10"@.len() >= 3 {
            assert("F10"@.take(3)[0] != "Key"@[0]);
        }
    }
    assert(spec_key_glyph(KeyCode::F11) == "F11"@) by {
        reveal_strlit("F11");
        assert("F11"@[0] == 'F');
        if "F11"@.len() >= 3 {
            assert("F11"@.take(3)[0] != "Key"@[0]);
        }
    }
    assert(spec_key_glyph(KeyCode::F12) == "F12"@) by {
        reveal_strlit("F12");
        assert("F12"@[0] == 'F');
        if "F12"@.len() >= 3 {
            assert("F12"@.take(3)[0] != "Key"@[0]);
        }
    }
}

/// The platform's command key is the Super modifier on macOS and the
/// Control modifier elsewhere.
pub proof fn lemma_cmd_key_is_the_platform_modifier()
    ensures
        spec_modifier_of(spec_cmd_key(Platform::MacOs)) == Some(ModifierKey::Super),
        spec_modifier_of(spec_cmd_key(Platform::Other)) == Some(ModifierKey::Control),
{
}

} // verus!