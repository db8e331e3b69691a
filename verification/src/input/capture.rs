//! Recording a chord from the keyboard: the "press a shortcut" flow.
//!
//! A recording is a [`ChordCapture`]: the modifiers held so far. Each frame the
//! host hands [`capture_chord`] the keys that went down and came up, and gets
//! back whether the recording ended, and how.
//!
//! A chord is finished on the **release** of the first non-modifier key, not
//! on its press: at the instant a key goes down the user may still be adding
//! to the chord, and a modifier struck on the way to a longer chord would
//! otherwise look complete. Modifier-only chords are therefore
//! unrepresentable, which is deliberate: a binding on Shift alone would fire
//! while typing any capital letter.

use vstd::prelude::*;

use super::chord::{Chord, ChordShape, chord_keys};
use super::key::{KeyCode, Platform, key_vec, spec_cmd_key};

verus! {

/// Whether a key is a modifier rather than a chord terminator: both sides of
/// Shift, Control, Alt and Super.
pub open spec fn spec_is_modifier(k: KeyCode) -> bool {
    ||| k == KeyCode::ShiftLeft
    ||| k == KeyCode::ShiftRight
    ||| k == KeyCode::ControlLeft
    ||| k == KeyCode::ControlRight
    ||| k == KeyCode::AltLeft
    ||| k == KeyCode::AltRight
    ||| k == KeyCode::SuperLeft
    ||| k == KeyCode::SuperRight
}

/// Whether `key` is a modifier. Both sides of each pair count: a user pressing
/// the right-hand Shift means Shift.
pub fn is_modifier(key: KeyCode) -> (r: bool)
    ensures
        r == spec_is_modifier(key),
{
    match key {
        KeyCode::ShiftLeft | KeyCode::ShiftRight | KeyCode::ControlLeft | KeyCode::ControlRight
        | KeyCode::AltLeft | KeyCode::AltRight | KeyCode::SuperLeft | KeyCode::SuperRight => true,
        _ => false,
    }
}

/// The first key of a list that is not a modifier.
pub open spec fn first_non_modifier(ks: Seq<KeyCode>) -> Option<KeyCode>
    decreases ks.len(),
{
    if ks.len() == 0 {
        None
    } else if !spec_is_modifier(ks[0]) {
        Some(ks[0])
    } else {
        first_non_modifier(ks.drop_first())
    }
}

/// Whether either side of a modifier pair occurs in a key list.
pub open spec fn holds_either(ks: Seq<KeyCode>, a: KeyCode, b: KeyCode) -> bool {
    ks.contains(a) || ks.contains(b)
}

/// Whether a key list holds the modifier that is the platform's command key:
/// Super on macOS, Control elsewhere (either side).
pub open spec fn holds_cmd(ks: Seq<KeyCode>, platform: Platform) -> bool {
    match platform {
        Platform::MacOs => holds_either(ks, KeyCode::SuperLeft, KeyCode::SuperRight),
        Platform::Other => holds_either(ks, KeyCode::ControlLeft, KeyCode::ControlRight),
    }
}

/// Whether a key list holds the one modifier no named variant can spell on
/// the platform: Control on macOS, Super elsewhere.
pub open spec fn holds_unnamed(ks: Seq<KeyCode>, platform: Platform) -> bool {
    match platform {
        Platform::MacOs => holds_either(ks, KeyCode::ControlLeft, KeyCode::ControlRight),
        Platform::Other => holds_either(ks, KeyCode::SuperLeft, KeyCode::SuperRight),
    }
}

/// Whether two key lists hold the same modifier kinds: Shift, Control, Alt
/// and Super, each with its two sides merged.
pub open spec fn same_modifier_kinds(a: Seq<KeyCode>, b: Seq<KeyCode>) -> bool {
    &&& holds_either(a, KeyCode::ShiftLeft, KeyCode::ShiftRight) == holds_either(b, KeyCode::ShiftLeft, KeyCode::ShiftRight)
    &&& holds_either(a, KeyCode::ControlLeft, KeyCode::ControlRight) == holds_either(b, KeyCode::ControlLeft, KeyCode::ControlRight)
    &&& holds_either(a, KeyCode::AltLeft, KeyCode::AltRight) == holds_either(b, KeyCode::AltLeft, KeyCode::AltRight)
    &&& holds_either(a, KeyCode::SuperLeft, KeyCode::SuperRight) == holds_either(b, KeyCode::SuperLeft, KeyCode::SuperRight)
}

/// The narrowest chord that binds exactly the modifier kinds held: a named
/// variant where one has exactly those modifiers, a custom chord of the keys
/// as given otherwise, and where no key is a non-modifier.
pub open spec fn narrowest_chord(ks: Seq<KeyCode>, platform: Platform) -> ChordShape {
    match first_non_modifier(ks) {
        None => ChordShape::Custom(ks),
        Some(k) => {
            let cmd = holds_cmd(ks, platform);
            let shift = holds_either(ks, KeyCode::ShiftLeft, KeyCode::ShiftRight);
            let alt = holds_either(ks, KeyCode::AltLeft, KeyCode::AltRight);
            if holds_unnamed(ks, platform) {
                ChordShape::Custom(ks)
            } else if !cmd && !shift && !alt {
                ChordShape::Key(k)
            } else if cmd && !shift && !alt {
                ChordShape::Cmd(k)
            } else if !cmd && shift && !alt {
                ChordShape::Shift(k)
            } else if cmd && shift && !alt {
                ChordShape::CmdShift(k)
            } else if !cmd && !shift && alt {
                ChordShape::Alt(k)
            } else {
                ChordShape::Custom(ks)
            }
        },
    }
}

/// The first non-modifier of a list is a non-modifier the list holds.
proof fn lemma_first_non_modifier(ks: Seq<KeyCode>)
    ensures
        first_non_modifier(ks) matches Some(k) ==> !spec_is_modifier(k) && ks.contains(k),
    decreases ks.len(),
{
    if ks.len() > 0 && spec_is_modifier(ks[0]) {
        lemma_first_non_modifier(ks.drop_first());
        if let Some(k) = first_non_modifier(ks.drop_first()) {
            let i = choose|i: int| 0 <= i < ks.drop_first().len() && ks.drop_first()[i] == k;
            assert(ks[i + 1] == k);
        }
    } else if ks.len() > 0 {
        assert(ks[0] == ks[0]);
    }
}

proof fn lemma_holds_pair(k: KeyCode, a: KeyCode, b: KeyCode)
    ensures
        holds_either(seq![k], a, b) == (k == a || k == b),
{
    assert(seq![k][0] == k);
    if holds_either(seq![k], a, b) {
        assert(seq![k].contains(a) || seq![k].contains(b));
    }
}

proof fn lemma_holds_two(m: KeyCode, k: KeyCode, a: KeyCode, b: KeyCode)
    ensures
        holds_either(seq![m, k], a, b) == (m == a || m == b || k == a || k == b),
{
    assert(seq![m, k][0] == m && seq![m, k][1] == k);
    if seq![m, k].contains(a) {
        let i = choose|i: int| 0 <= i < 2 && seq![m, k][i] == a;
    }
    if seq![m, k].contains(b) {
        let i = choose|i: int| 0 <= i < 2 && seq![m, k][i] == b;
    }
}

proof fn lemma_holds_three(m: KeyCode, n: KeyCode, k: KeyCode, a: KeyCode, b: KeyCode)
    ensures
        holds_either(seq![m, n, k], a, b) == (m == a || m == b || n == a || n == b || k == a || k == b),
{
    let s = seq![m, n, k];
    assert(s[0] == m && s[1] == n && s[2] == k);
    if s.contains(a) {
        let i = choose|i: int| 0 <= i < 3 && s[i] == a;
    }
    if s.contains(b) {
        let i = choose|i: int| 0 <= i < 3 && s[i] == b;
    }
}

/// A chord built from held keys binds exactly the modifiers that were held:
/// for each of Shift, Control, Alt and Super (sides merged), the chord's keys
/// hold it exactly when the pressed keys did, and the chord's key is the
/// first non-modifier pressed.
pub proof fn lemma_chord_binds_exactly_the_held_modifiers(ks: Seq<KeyCode>, platform: Platform)
    requires
        first_non_modifier(ks) is Some,
    ensures
        same_modifier_kinds(chord_keys(narrowest_chord(ks, platform), platform), ks),
        chord_keys(narrowest_chord(ks, platform), platform).contains(first_non_modifier(ks).unwrap()),
{
    lemma_first_non_modifier(ks);
    let k = first_non_modifier(ks).unwrap();
    let c = spec_cmd_key(platform);
    let sl = KeyCode::ShiftLeft;
    let al = KeyCode::AltLeft;
    let pairs = seq![
        (KeyCode::ShiftLeft, KeyCode::ShiftRight),
        (KeyCode::ControlLeft, KeyCode::ControlRight),
        (KeyCode::AltLeft, KeyCode::AltRight),
        (KeyCode::SuperLeft, KeyCode::SuperRight),
    ];
    assert forall|i: int| 0 <= i < 4 implies {
        let (a, b) = #[trigger] pairs[i];
        &&& holds_either(seq![k], a, b) == false
        &&& holds_either(seq![c, k], a, b) == (c == a || c == b)
        &&& holds_either(seq![sl, k], a, b) == (sl == a || sl == b)
        &&& holds_either(seq![al, k], a, b) == (al == a || al == b)
        &&& holds_either(seq![c, sl, k], a, b) == (c == a || c == b || sl == a || sl == b)
    } by {
        let (a, b) = pairs[i];
        lemma_holds_pair(k, a, b);
        lemma_holds_two(c, k, a, b);
        lemma_holds_two(sl, k, a, b);
        lemma_holds_two(al, k, a, b);
        lemma_holds_three(c, sl, k, a, b);
    }
    assert(pairs[0] == (KeyCode::ShiftLeft, KeyCode::ShiftRight));
    assert(pairs[1] == (KeyCode::ControlLeft, KeyCode::ControlRight));
    assert(pairs[2] == (KeyCode::AltLeft, KeyCode::AltRight));
    assert(pairs[3] == (KeyCode::SuperLeft, KeyCode::SuperRight));
    let r = chord_keys(narrowest_chord(ks, platform), platform);
    assert(seq![k][0] == k);
    assert(seq![c, k][1] == k);
    assert(seq![sl, k][1] == k);
    assert(seq![al, k][1] == k);
    assert(seq![c, sl, k][2] == k);
    assert(r.contains(k));
}

proof fn lemma_first_non_modifier_skip(ks: Seq<KeyCode>, i: int)
    requires
        0 <= i < ks.len(),
        spec_is_modifier(ks[i]),
    ensures
        first_non_modifier(ks.subrange(i, ks.len() as int)) == first_non_modifier(
            ks.subrange(i + 1, ks.len() as int),
        ),
{
    assert(ks.subrange(i, ks.len() as int).drop_first() =~= ks.subrange(i + 1, ks.len() as int));
}

/// The first non-modifier key of a list, if there is one.
fn find_non_modifier(ks: &[KeyCode]) -> (r: Option<KeyCode>)
    ensures
        r == first_non_modifier(ks@),
{
    let mut i: usize = 0;
    assert(ks@.subrange(0, ks@.len() as int) =~= ks@);
    while i < ks.len()
        invariant
            i <= ks@.len(),
            first_non_modifier(ks@) == first_non_modifier(ks@.subrange(i as int, ks@.len() as int)),
        decreases ks@.len() - i,
    {
        if !is_modifier(ks[i]) {
            return Some(ks[i]);
        }
        proof {
            lemma_first_non_modifier_skip(ks@, i as int);
        }
        i += 1;
    }
    None
}

/// Whether either of two keys occurs in a list.
fn contains_either(ks: &[KeyCode], a: KeyCode, b: KeyCode) -> (r: bool)
    ensures
        r == holds_either(ks@, a, b),
{
    let mut i: usize = 0;
    while i < ks.len()
        invariant
            i <= ks@.len(),
            forall|j: int| 0 <= j < i ==> ks@[j] != a && ks@[j] != b,
        decreases ks@.len() - i,
    {
        if ks[i] == a {
            assert(ks@[i as int] == a);
            return true;
        }
        if ks[i] == b {
            assert(ks@[i as int] == b);
            return true;
        }
        i += 1;
    }
    false
}

/// Build the narrowest [`Chord`] variant that binds exactly these keys'
/// modifiers.
///
/// Narrowest rather than always `Custom`, so a captured chord is
/// indistinguishable from one written by hand. Where no named variant has
/// exactly the modifiers held (Cmd+Alt, Alt+Shift, Control on macOS, Super
/// elsewhere, ...), the chord stays `Custom` rather than dropping or
/// renaming a modifier to force a fit: a silently narrowed chord would bind
/// something the user did not press.
pub fn from_keys(keys: &[KeyCode], platform: Platform) -> (c: Chord)
    ensures
        c@ == narrowest_chord(keys@, platform),
        first_non_modifier(keys@) is Some ==> same_modifier_kinds(chord_keys(c@, platform), keys@),
{
    proof {
        if first_non_modifier(keys@) is Some {
            lemma_chord_binds_exactly_the_held_modifiers(keys@, platform);
        }
    }
    let key = match find_non_modifier(keys) {
        Some(k) => k,
        None => {
            return Chord::Custom(key_vec(keys));
        },
    };
    let control = contains_either(keys, KeyCode::ControlLeft, KeyCode::ControlRight);
    let sup = contains_either(keys, KeyCode::SuperLeft, KeyCode::SuperRight);
    let (cmd, unnamed) = match platform {
        Platform::MacOs => (sup, control),
        Platform::Other => (control, sup),
    };
    let shift = contains_either(keys, KeyCode::ShiftLeft, KeyCode::ShiftRight);
    let alt = contains_either(keys, KeyCode::AltLeft, KeyCode::AltRight);
    if unnamed {
        Chord::Custom(key_vec(keys))
    } else if !cmd && !shift && !alt {
        Chord::Key(key)
    } else if cmd && !shift && !alt {
        Chord::Cmd(key)
    } else if !cmd && shift && !alt {
        Chord::Shift(key)
    } else if cmd && shift && !alt {
        Chord::CmdShift(key)
    } else if !cmd && !shift && alt {
        Chord::Alt(key)
    } else {
        Chord::Custom(key_vec(keys))
    }
}

/// An in-progress chord recording: the modifiers held during it, each once,
/// in the order they went down.
///
/// Accumulated across frames rather than sampled at the terminating release,
/// because a user often lifts a modifier and the key together.
#[derive(Debug)]
pub struct ChordCapture {
    held_modifiers: Vec<KeyCode>,
}

/// The outcome of a recording.
#[derive(Debug)]
pub enum ChordCaptured {
    /// The user pressed and released a usable chord.
    Chord(Chord),
    /// The user pressed Escape. Distinct from `Chord` because a caller almost
    /// always wants to leave the existing binding alone rather than clear it.
    Cancelled,
}

/// The held modifiers after a frame's presses: each newly pressed modifier
/// not yet held is appended, in the order reported.
pub open spec fn accumulate(held: Seq<KeyCode>, pressed: Seq<KeyCode>) -> Seq<KeyCode>
    decreases pressed.len(),
{
    if pressed.len() == 0 {
        held
    } else {
        let before = accumulate(held, pressed.drop_last());
        let k = pressed.last();
        if spec_is_modifier(k) && !before.contains(k) {
            before.push(k)
        } else {
            before
        }
    }
}

/// A well-formed recording: only modifiers, none twice.
pub open spec fn held_ok(held: Seq<KeyCode>) -> bool {
    &&& forall|i: int| 0 <= i < held.len() ==> spec_is_modifier(#[trigger] held[i])
    &&& held.no_duplicates()
}

/// Accumulating presses keeps a recording well formed.
pub proof fn lemma_accumulate_ok(held: Seq<KeyCode>, pressed: Seq<KeyCode>)
    requires
        held_ok(held),
    ensures
        held_ok(accumulate(held, pressed)),
    decreases pressed.len(),
{
    if pressed.len() > 0 {
        lemma_accumulate_ok(held, pressed.drop_last());
        let before = accumulate(held, pressed.drop_last());
        let k = pressed.last();
        if spec_is_modifier(k) && !before.contains(k) {
            let after = before.push(k);
            assert forall|i: int, j: int| 0 <= i < after.len() && 0 <= j < after.len() && i != j
                implies after[i] != after[j] by {
                if i == before.len() as int {
                    assert(before[j] == after[j]);
                } else if j == before.len() as int {
                    assert(before[i] == after[i]);
                }
            }
        }
    }
}

impl ChordCapture {
    pub closed spec fn held(&self) -> Seq<KeyCode> {
        self.held_modifiers@
    }

    pub closed spec fn wf(&self) -> bool {
        held_ok(self.held_modifiers@)
    }

    /// A fresh recording, holding nothing yet.
    pub fn new() -> (r: Self)
        ensures
            r.wf(),
            r.held() == Seq::<KeyCode>::empty(),
    {
        ChordCapture { held_modifiers: Vec::new() }
    }

    /// The modifiers held so far, in the order they went down.
    pub fn held_modifiers(&self) -> (r: &[KeyCode])
        ensures
            r@ == self.held(),
    {
        self.held_modifiers.as_slice()
    }
}

impl Default for ChordCapture {
    fn default() -> (r: Self)
        ensures
            r.wf(),
            r.held() == Seq::<KeyCode>::empty(),
    {
        ChordCapture::new()
    }
}

/// Whether a key list holds the Escape key.
fn has_escape(ks: &[KeyCode]) -> (r: bool)
    ensures
        r == ks@.contains(KeyCode::Escape),
{
    contains_either(ks, KeyCode::Escape, KeyCode::Escape)
}

/// One frame of a recording.
///
/// `just_pressed` and `just_released` are the keys that went down and came up
/// this frame. Escape pressed cancels the recording. Otherwise the modifiers
/// pressed join the held set, and the first non-modifier released finishes
/// the chord: the held modifiers then that key, narrowed as by
/// [`from_keys`]. `None` while the recording goes on; on `Some` the recording
/// is over and the host drops it.
pub fn capture_chord(
    capture: &mut ChordCapture,
    just_pressed: &[KeyCode],
    just_released: &[KeyCode],
    platform: Platform,
) -> (r: Option<ChordCaptured>)
    requires
        old(capture).wf(),
    ensures
        final(capture).wf(),
        just_pressed@.contains(KeyCode::Escape) ==> (r matches Some(ChordCaptured::Cancelled)
            && final(capture).held() == old(capture).held()),
        !just_pressed@.contains(KeyCode::Escape) ==> {
            &&& final(capture).held() == accumulate(old(capture).held(), just_pressed@)
            &&& match first_non_modifier(just_released@) {
                None => r is None,
                Some(t) => (r matches Some(ChordCaptured::Chord(c)) && c@ == narrowest_chord(
                    final(capture).held().push(t),
                    platform,
                )),
            }
        },
{
    if has_escape(just_pressed) {
        return Some(ChordCaptured::Cancelled);
    }
    let ghost start = capture.held_modifiers@;
    let mut i: usize = 0;
    while i < just_pressed.len()
        invariant
            i <= just_pressed@.len(),
            held_ok(start),
            capture.held_modifiers@ == accumulate(start, just_pressed@.take(i as int)),
        decreases just_pressed@.len() - i,
    {
        let key = just_pressed[i];
        proof {
            assert(just_pressed@.take(i + 1).drop_last() =~= just_pressed@.take(i as int));
            assert(just_pressed@.take(i + 1).last() == key);
        }
        if is_modifier(key) && !contains_either(capture.held_modifiers.as_slice(), key, key) {
            capture.held_modifiers.push(key);
        }
        i += 1;
    }
    proof {
        assert(just_pressed@.take(i as int) =~= just_pressed@);
        lemma_accumulate_ok(start, just_pressed@);
    }
    match find_non_modifier(just_released) {
        None => None,
        Some(terminator) => {
            let mut chord_keys = capture.held_modifiers.clone();
            chord_keys.push(terminator);
            Some(ChordCaptured::Chord(from_keys(chord_keys.as_slice(), platform)))
        },
    }
}

/// Modifier-only chords are unrepresentable: appending a non-modifier key to
/// held modifiers makes that key the chord's key, and the resulting chord is a
/// named variant on it or a custom chord that contains it.
pub proof fn lemma_terminator_is_the_key(held: Seq<KeyCode>, t: KeyCode, platform: Platform)
    requires
        held_ok(held),
        !spec_is_modifier(t),
    ensures
        first_non_modifier(held.push(t)) == Some(t),
        match narrowest_chord(held.push(t), platform) {
            ChordShape::Custom(ks) => ks.contains(t),
            ChordShape::Key(k) => k == t,
            ChordShape::Cmd(k) => k == t,
            ChordShape::Shift(k) => k == t,
            ChordShape::CmdShift(k) => k == t,
            ChordShape::Alt(k) => k == t,
            ChordShape::Multi(_) => false,
        },
    decreases held.len(),
{
    let s = held.push(t);
    if held.len() > 0 {
        assert(spec_is_modifier(held[0]));
        assert(s.drop_first() =~= held.drop_first().push(t));
        assert(held_ok(held.drop_first())) by {
            let d = held.drop_first();
            assert forall|i: int| 0 <= i < d.len() implies spec_is_modifier(#[trigger] d[i]) by {
                assert(d[i] == held[i + 1]);
            }
            assert forall|a: int, b: int| 0 <= a < d.len() && 0 <= b < d.len() && a != b implies d[a]
                != d[b] by {
                assert(d[a] == held[a + 1] && d[b] == held[b + 1]);
            }
        }
        lemma_terminator_is_the_key(held.drop_first(), t, platform);
    }
    assert(s[s.len() - 1] == t);
}

} // verus!
