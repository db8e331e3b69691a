//! Declarative chord spelling, and its serialized form.
//!
//! [`Chord`] is the vocabulary bindings are written in. `Chord::Cmd(KeyS)` is
//! written once and resolves per platform: Super+S on macOS, Control+S
//! elsewhere. A chord lowers to its key list ([`Chord::keys`]) and to a list of
//! stable key names for the on-disk format ([`Chord::serialize`]).

use vstd::prelude::*;

use super::key::{
    KeyCode, MOD_NAME, Platform, cmd_key, key_vec, keycode_to_name, lemma_key_names_distinct, name_to_keycode,
    spec_cmd_key, spec_key_name,
};

verus! {

/// Declarative chord spelling.
#[derive(Debug, PartialEq, Eq, Hash)]
pub enum Chord {
    /// Single key, no modifiers.
    Key(KeyCode),
    /// Cmd+X on macOS, Ctrl+X elsewhere.
    Cmd(KeyCode),
    /// Shift+X.
    Shift(KeyCode),
    /// Cmd+Shift+X (or Ctrl+Shift+X off macOS).
    CmdShift(KeyCode),
    /// Alt/Option+X.
    Alt(KeyCode),
    /// Compiled-in custom chord: the caller supplies the full key list.
    Multi(&'static [KeyCode]),
    /// Runtime-built custom chord, e.g. one loaded from a user's config or
    /// captured by a recorder.
    Custom(Vec<KeyCode>),
}

/// The mathematical form of a [`Chord`].
pub enum ChordShape {
    Key(KeyCode),
    Cmd(KeyCode),
    Shift(KeyCode),
    CmdShift(KeyCode),
    Alt(KeyCode),
    Multi(Seq<KeyCode>),
    Custom(Seq<KeyCode>),
}

impl View for Chord {
    type V = ChordShape;

    open spec fn view(&self) -> ChordShape {
        match self {
            Chord::Key(k) => ChordShape::Key(*k),
            Chord::Cmd(k) => ChordShape::Cmd(*k),
            Chord::Shift(k) => ChordShape::Shift(*k),
            Chord::CmdShift(k) => ChordShape::CmdShift(*k),
            Chord::Alt(k) => ChordShape::Alt(*k),
            Chord::Multi(ks) => ChordShape::Multi(ks@),
            Chord::Custom(ks) => ChordShape::Custom(ks@),
        }
    }
}

impl Clone for Chord {
    fn clone(&self) -> (r: Self)
        ensures
            r@ == self@,
    {
        match self {
            Chord::Key(k) => Chord::Key(*k),
            Chord::Cmd(k) => Chord::Cmd(*k),
            Chord::Shift(k) => Chord::Shift(*k),
            Chord::CmdShift(k) => Chord::CmdShift(*k),
            Chord::Alt(k) => Chord::Alt(*k),
            Chord::Multi(ks) => Chord::Multi(ks),
            Chord::Custom(ks) => Chord::Custom(ks.clone()),
        }
    }
}

/// The keys a chord requires on `platform`, in modifier-then-key order.
pub open spec fn chord_keys(c: ChordShape, platform: Platform) -> Seq<KeyCode> {
    match c {
        ChordShape::Key(k) => seq![k],
        ChordShape::Cmd(k) => seq![spec_cmd_key(platform), k],
        ChordShape::Shift(k) => seq![KeyCode::ShiftLeft, k],
        ChordShape::CmdShift(k) => seq![spec_cmd_key(platform), KeyCode::ShiftLeft, k],
        ChordShape::Alt(k) => seq![KeyCode::AltLeft, k],
        ChordShape::Multi(ks) => ks,
        ChordShape::Custom(ks) => ks,
    }
}

/// The on-disk names of a key list: the command modifier as `"Mod"`, every
/// other named key by its name, unnamed keys dropped.
pub open spec fn serialized(ks: Seq<KeyCode>, platform: Platform) -> Seq<Seq<char>>
    decreases ks.len(),
{
    if ks.len() == 0 {
        Seq::<Seq<char>>::empty()
    } else {
        let k = ks.last();
        serialized(ks.drop_last(), platform) + if k == spec_cmd_key(platform) {
            seq![MOD_NAME@]
        } else {
            match spec_key_name(k) {
                Some(n) => seq![n],
                None => Seq::<Seq<char>>::empty(),
            }
        }
    }
}

/// The key a name denotes, if any.
pub open spec fn spec_name_key(n: Seq<char>) -> Option<KeyCode> {
    if exists|k: KeyCode| spec_key_name(k) == Some(n) {
        Some(choose|k: KeyCode| spec_key_name(k) == Some(n))
    } else {
        None
    }
}

/// The keys a list of on-disk names denotes: `"Mod"` as this platform's
/// command modifier, known names as their keys, unknown names skipped.
pub open spec fn parsed(names: Seq<Seq<char>>, platform: Platform) -> Seq<KeyCode>
    decreases names.len(),
{
    if names.len() == 0 {
        Seq::<KeyCode>::empty()
    } else {
        let n = names.last();
        parsed(names.drop_last(), platform) + if n == MOD_NAME@ {
            seq![spec_cmd_key(platform)]
        } else {
            match spec_name_key(n) {
                Some(k) => seq![k],
                None => Seq::<KeyCode>::empty(),
            }
        }
    }
}

/// The chord rebuilt from parsed keys: none from no keys, a single key from
/// one, a custom chord from several.
pub open spec fn chord_of_keys(ks: Seq<KeyCode>) -> Option<ChordShape> {
    if ks.len() == 0 {
        None
    } else if ks.len() == 1 {
        Some(ChordShape::Key(ks[0]))
    } else {
        Some(ChordShape::Custom(ks))
    }
}

/// Whether every key of a list survives serialization: it is the command
/// modifier or has a name.
pub open spec fn all_named(ks: Seq<KeyCode>, platform: Platform) -> bool {
    forall|i: int| 0 <= i < ks.len() ==> ks[i] == spec_cmd_key(platform) || (#[trigger] spec_key_name(ks[i])) is Some
}

/// A key with a name is what its name denotes.
pub proof fn lemma_name_key(k: KeyCode)
    requires
        spec_key_name(k) is Some,
    ensures
        spec_name_key(spec_key_name(k).unwrap()) == Some(k),
        spec_key_name(k).unwrap() != MOD_NAME@,
{
    let n = spec_key_name(k).unwrap();
    let c = choose|c: KeyCode| spec_key_name(c) == Some(n);
    lemma_key_names_distinct(k, c);
    lemma_key_names_distinct(c, k);
}

/// A name denotes a key exactly when that key is the one with that name, so
/// `parsed` reads names as `name_to_keycode` does.
pub proof fn lemma_name_key_iff(n: Seq<char>, k: KeyCode)
    ensures
        spec_name_key(n) == Some(k) <==> spec_key_name(k) == Some(n),
        spec_name_key(n) is None <==> forall|c: KeyCode| spec_key_name(c) != Some(n),
{
    if spec_key_name(k) == Some(n) {
        lemma_name_key(k);
    }
    if spec_name_key(n) == Some(k) {
        let c = choose|c: KeyCode| spec_key_name(c) == Some(n);
        assert(c == k);
    }
}

/// Parsing one name: `"Mod"` is the platform's command modifier, a known
/// name its key, and an unknown name nothing.
pub proof fn lemma_parsed_one(n: Seq<char>, platform: Platform)
    ensures
        parsed(seq![n], platform) == if n == MOD_NAME@ {
            seq![spec_cmd_key(platform)]
        } else {
            match spec_name_key(n) {
                Some(k) => seq![k],
                None => Seq::<KeyCode>::empty(),
            }
        },
{
    assert(seq![n].drop_last() =~= Seq::<Seq<char>>::empty());
    assert(seq![n].last() == n);
    assert(parsed(Seq::<Seq<char>>::empty(), platform) == Seq::<KeyCode>::empty());
    let tail = if n == MOD_NAME@ {
        seq![spec_cmd_key(platform)]
    } else {
        match spec_name_key(n) {
            Some(k) => seq![k],
            None => Seq::<KeyCode>::empty(),
        }
    };
    assert(Seq::<KeyCode>::empty() + tail =~= tail);
}

/// Parsing distributes over concatenated name lists.
pub proof fn lemma_parsed_concat(a: Seq<Seq<char>>, b: Seq<Seq<char>>, platform: Platform)
    ensures
        parsed(a + b, platform) == parsed(a, platform) + parsed(b, platform),
    decreases b.len(),
{
    if b.len() == 0 {
        assert(a + b =~= a);
        assert(parsed(a, platform) + parsed(b, platform) =~= parsed(a, platform));
    } else {
        lemma_parsed_concat(a, b.drop_last(), platform);
        assert((a + b).drop_last() =~= a + b.drop_last());
        let n = b.last();
        let tail = if n == MOD_NAME@ {
            seq![spec_cmd_key(platform)]
        } else {
            match spec_name_key(n) {
                Some(k) => seq![k],
                None => Seq::<KeyCode>::empty(),
            }
        };
        assert(parsed(a, platform) + parsed(b.drop_last(), platform) + tail
            =~= parsed(a, platform) + (parsed(b.drop_last(), platform) + tail));
    }
}

/// A key list whose every key survives serialization reads back as itself.
pub proof fn lemma_round_trip(ks: Seq<KeyCode>, platform: Platform)
    requires
        all_named(ks, platform),
    ensures
        parsed(serialized(ks, platform), platform) == ks,
    decreases ks.len(),
{
    if ks.len() > 0 {
        let init = ks.drop_last();
        let k = ks.last();
        assert(all_named(init, platform)) by {
            assert forall|i: int| 0 <= i < init.len() implies init[i] == spec_cmd_key(platform)
                || (#[trigger] spec_key_name(init[i])) is Some by {
                assert(init[i] == ks[i]);
            }
        }
        lemma_round_trip(init, platform);
        assert(k == ks[ks.len() - 1]);
        let tail = if k == spec_cmd_key(platform) {
            seq![MOD_NAME@]
        } else {
            seq![spec_key_name(k).unwrap()]
        };
        assert(serialized(ks, platform) == serialized(init, platform) + tail);
        lemma_parsed_concat(serialized(init, platform), tail, platform);
        assert(tail.drop_last() =~= Seq::<Seq<char>>::empty());
        assert(parsed(Seq::<Seq<char>>::empty(), platform) == Seq::<KeyCode>::empty());
        if k != spec_cmd_key(platform) {
            lemma_name_key(k);
        }
        assert(parsed(tail, platform) =~= seq![k]);
        assert(init + seq![k] =~= ks);
    }
}

/// A chord whose keys all survive serialization deserializes to a chord with
/// the same keys: the variant need not survive, the binding does.
pub proof fn lemma_chord_round_trip(c: ChordShape, platform: Platform)
    requires
        chord_keys(c, platform).len() > 0,
        all_named(chord_keys(c, platform), platform),
    ensures
        chord_of_keys(parsed(serialized(chord_keys(c, platform), platform), platform)) matches Some(back)
            && chord_keys(back, platform) == chord_keys(c, platform),
{
    let ks = chord_keys(c, platform);
    lemma_round_trip(ks, platform);
    if ks.len() == 1 {
        assert(seq![ks[0]] =~= ks);
    }
}

/// Single key, no modifiers.
pub fn key(k: KeyCode) -> (c: Chord)
    ensures
        c@ == ChordShape::Key(k),
{
    Chord::Key(k)
}

/// Cmd+X on macOS, Ctrl+X elsewhere.
pub fn cmd(k: KeyCode) -> (c: Chord)
    ensures
        c@ == ChordShape::Cmd(k),
{
    Chord::Cmd(k)
}

/// Shift+X.
pub fn shift(k: KeyCode) -> (c: Chord)
    ensures
        c@ == ChordShape::Shift(k),
{
    Chord::Shift(k)
}

/// Cmd+Shift+X.
pub fn cmd_shift(k: KeyCode) -> (c: Chord)
    ensures
        c@ == ChordShape::CmdShift(k),
{
    Chord::CmdShift(k)
}

/// Alt/Option+X.
pub fn alt(k: KeyCode) -> (c: Chord)
    ensures
        c@ == ChordShape::Alt(k),
{
    Chord::Alt(k)
}

/// A compiled-in chord over exactly these keys.
pub fn multi(keys: &'static [KeyCode]) -> (c: Chord)
    ensures
        c@ == ChordShape::Multi(keys@),
{
    Chord::Multi(keys)
}

impl Chord {
    /// The keys this chord requires on `platform`, in modifier-then-key
    /// order. Every other lowering goes through this, so they cannot disagree.
    pub fn keys(&self, platform: Platform) -> (r: Vec<KeyCode>)
        ensures
            r@ == chord_keys(self@, platform),
    {
        match self {
            Chord::Key(k) => vec![*k],
            Chord::Cmd(k) => vec![cmd_key(platform), *k],
            Chord::Shift(k) => vec![KeyCode::ShiftLeft, *k],
            Chord::CmdShift(k) => vec![cmd_key(platform), KeyCode::ShiftLeft, *k],
            Chord::Alt(k) => vec![KeyCode::AltLeft, *k],
            Chord::Multi(ks) => key_vec(ks),
            Chord::Custom(ks) => ks.clone(),
        }
    }

    /// Lower to the on-disk name list.
    ///
    /// The platform-resolving modifier is written as the logical name `"Mod"`,
    /// not as the key it resolves to here, so a file written on one platform
    /// loads correctly on another. Keys with no stable name are dropped.
    pub fn serialize(&self, platform: Platform) -> (r: Vec<String>)
        ensures
            r@.map_values(|s: String| s@) == serialized(chord_keys(self@, platform), platform),
    {
        let ks = self.keys(platform);
        let modifier = cmd_key(platform);
        let mut out: Vec<String> = Vec::new();
        let mut i: usize = 0;
        while i < ks.len()
            invariant
                i <= ks@.len(),
                ks@ == chord_keys(self@, platform),
                modifier == spec_cmd_key(platform),
                out@.map_values(|s: String| s@) == serialized(ks@.take(i as int), platform),
            decreases ks@.len() - i,
        {
            let k = ks[i];
            let ghost before = out@;
            proof {
                assert(ks@.take(i + 1).drop_last() =~= ks@.take(i as int));
                assert(ks@.take(i + 1).last() == k);
            }
            if k == modifier {
                let m = MOD_NAME.to_owned();
                out.push(m);
                assert(out@.map_values(|s: String| s@) =~= before.map_values(|s: String| s@) + seq![MOD_NAME@]);
            } else {
                match keycode_to_name(k) {
                    Some(n) => {
                        let m = n.to_owned();
                        out.push(m);
                        assert(out@.map_values(|s: String| s@) =~= before.map_values(|s: String| s@) + seq![n@]);
                    },
                    None => {
                        assert(out@.map_values(|s: String| s@) =~= before.map_values(|s: String| s@) + Seq::<Seq<char>>::empty());
                    },
                }
            }
            i += 1;
        }
        assert(ks@.take(i as int) =~= ks@);
        out
    }

    /// Rebuild a chord from the on-disk name list.
    ///
    /// Unknown names are skipped rather than failing the whole chord, so a
    /// config written by a newer build degrades instead of being discarded.
    /// `None` if no name is usable; a single key otherwise, or a custom chord.
    pub fn deserialize(names: &[String], platform: Platform) -> (r: Option<Chord>)
        ensures
            match chord_of_keys(parsed(names@.map_values(|s: String| s@), platform)) {
                Some(c) => r matches Some(x) && x@ == c,
                None => r is None,
            },
    {
        let ghost nv = names@.map_values(|s: String| s@);
        let mut keys: Vec<KeyCode> = Vec::new();
        let mut i: usize = 0;
        while i < names.len()
            invariant
                i <= names@.len(),
                nv == names@.map_values(|s: String| s@),
                keys@ == parsed(nv.take(i as int), platform),
            decreases names@.len() - i,
        {
            let n = names[i].as_str();
            let ghost before = keys@;
            proof {
                assert(nv.take(i + 1).drop_last() =~= nv.take(i as int));
                assert(nv.take(i + 1).last() == n@);
            }
            if n.eq(MOD_NAME) {
                keys.push(cmd_key(platform));
                assert(keys@ =~= before + seq![spec_cmd_key(platform)]);
            } else {
                match name_to_keycode(n) {
                    Some(k) => {
                        keys.push(k);
                        proof {
                            lemma_key_names_distinct(k, k);
                            lemma_name_key(k);
                        }
                        assert(keys@ =~= before + seq![k]);
                    },
                    None => {
                        assert(keys@ =~= before + Seq::<KeyCode>::empty());
                    },
                }
            }
            i += 1;
        }
        assert(nv.take(i as int) =~= nv);
        if keys.len() == 0 {
            None
        } else if keys.len() == 1 {
            Some(Chord::Key(keys[0]))
        } else {
            Some(Chord::Custom(keys))
        }
    }
}

} // verus!
