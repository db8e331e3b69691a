//! Resolving a command's *effective* chord: its registered default, or the
//! user's override if there is one.
//!
//! A stored override turns back into a [`Chord`] through
//! [`Chord::deserialize`], so a resolved binding is a chord whether it came
//! from a default or from disk, and every consumer renders it the same way.

use vstd::prelude::*;

use super::chord::{
    Chord, ChordShape, all_named, chord_keys, chord_of_keys, lemma_chord_round_trip, parsed, serialized,
};
use super::key::Platform;
use super::persist::{SavedKeybinds, chords_view, with_override, without_override};

verus! {

/// The scope a command without one of its own binds in.
pub const GLOBAL_SCOPE: &'static str = "global";

/// A command's effective binding after user overrides are applied.
#[derive(Debug, PartialEq)]
pub enum Binding {
    /// The chord registered in code: the user has not touched it.
    Default(Chord),
    /// The user rebound it.
    Custom(Chord),
    /// The user explicitly removed the binding. Distinct from "no binding was
    /// ever registered": this one must not fall back to the default.
    Unbound,
}

/// The mathematical form of a [`Binding`].
pub enum BindingShape {
    Default(ChordShape),
    Custom(ChordShape),
    Unbound,
}

impl View for Binding {
    type V = BindingShape;

    open spec fn view(&self) -> BindingShape {
        match self {
            Binding::Default(c) => BindingShape::Default(c@),
            Binding::Custom(c) => BindingShape::Custom(c@),
            Binding::Unbound => BindingShape::Unbound,
        }
    }
}

impl Clone for Binding {
    fn clone(&self) -> (r: Self)
        ensures
            r@ == self@,
    {
        match self {
            Binding::Default(c) => Binding::Default(c.clone()),
            Binding::Custom(c) => Binding::Custom(c.clone()),
            Binding::Unbound => Binding::Unbound,
        }
    }
}

impl Binding {
    /// The chord to match and to display, if any.
    pub fn chord(&self) -> (r: Option<&Chord>)
        ensures
            match self@ {
                BindingShape::Default(c) => r matches Some(x) && x@ == c,
                BindingShape::Custom(c) => r matches Some(x) && x@ == c,
                BindingShape::Unbound => r is None,
            },
    {
        match self {
            Binding::Default(c) => Some(c),
            Binding::Custom(c) => Some(c),
            Binding::Unbound => None,
        }
    }

    /// Whether the user changed this binding: rebound or unbound.
    pub fn is_customized(&self) -> (r: bool)
        ensures
            r == !(self@ is Default),
    {
        match self {
            Binding::Default(_) => false,
            _ => true,
        }
    }
}

/// The keybind overrides' mathematical form.
pub type OverridesView = Map<Seq<char>, Map<Seq<char>, Seq<Seq<Seq<char>>>>>;

/// The binding a command resolves to.
///
/// No override: the default, if one was registered. An empty override: unbound.
/// Otherwise the first stored chord, rebuilt from its key names; where none of
/// those names is usable, the default again rather than a command left
/// unreachable.
pub open spec fn resolved(
    m: OverridesView,
    scope: Seq<char>,
    command_id: Seq<char>,
    default: Option<ChordShape>,
    platform: Platform,
) -> Option<BindingShape> {
    let fallback = match default {
        Some(c) => Some(BindingShape::Default(c)),
        None => None,
    };
    if m.dom().contains(scope) && m[scope].dom().contains(command_id) {
        let chords = m[scope][command_id];
        if chords.len() == 0 {
            Some(BindingShape::Unbound)
        } else {
            match chord_of_keys(parsed(chords[0], platform)) {
                Some(c) => Some(BindingShape::Custom(c)),
                None => fallback,
            }
        }
    } else {
        fallback
    }
}

/// The binding `default` (if any) resolves to when nothing overrides it.
fn default_binding(default: Option<&Chord>) -> (r: Option<Binding>)
    ensures
        match default {
            Some(c) => r matches Some(b) && b@ == BindingShape::Default(c@),
            None => r is None,
        },
{
    match default {
        Some(c) => Some(Binding::Default(c.clone())),
        None => None,
    }
}

/// Resolve one command's binding.
///
/// `default` is what the command registered; `saved` is the user's file.
/// Only the first stored chord is used: a command has one binding here, and
/// storing a list keeps the format open for several later.
pub fn resolve(
    saved: &SavedKeybinds,
    scope: &str,
    command_id: &str,
    default: Option<&Chord>,
    platform: Platform,
) -> (r: Option<Binding>)
    requires
        saved.wf(),
    ensures
        match resolved(
            saved@,
            scope@,
            command_id@,
            match default {
                Some(c) => Some(c@),
                None => None,
            },
            platform,
        ) {
            Some(b) => r matches Some(x) && x@ == b,
            None => r is None,
        },
{
    let overrides = match saved.scope(scope) {
        Some(o) => o,
        None => {
            return default_binding(default);
        },
    };
    let chords = match overrides.get(command_id) {
        Some(c) => c,
        None => {
            return default_binding(default);
        },
    };
    if chords.len() == 0 {
        return Some(Binding::Unbound);
    }
    let first = &chords[0];
    proof {
        assert(chords_view(*chords)[0] =~= first@.map_values(|s: String| s@));
    }
    match Chord::deserialize(first.as_slice(), platform) {
        Some(chord) => Some(Binding::Custom(chord)),
        None => default_binding(default),
    }
}

/// The scope a command binds in: its own, or the global one.
pub fn scope_or_global(scope: Option<&str>) -> (r: &str)
    ensures
        match scope {
            Some(s) => r@ == s@,
            None => r@ == GLOBAL_SCOPE@,
        },
{
    match scope {
        Some(s) => s,
        None => GLOBAL_SCOPE,
    }
}

/// The chord a command's live keybind should change to at startup: the
/// user's, where it was rebound. `None` leaves the registered one in place;
/// an unbound command is handled by [`is_unbound`].
pub fn saved_keybind(
    saved: &SavedKeybinds,
    scope: &str,
    command_id: &str,
    registered: &Chord,
    platform: Platform,
) -> (r: Option<Chord>)
    requires
        saved.wf(),
    ensures
        match resolved(saved@, scope@, command_id@, Some(registered@), platform) {
            Some(BindingShape::Custom(c)) => r matches Some(x) && x@ == c,
            _ => r is None,
        },
{
    match resolve(saved, scope, command_id, Some(registered), platform) {
        Some(Binding::Custom(chord)) => Some(chord),
        _ => None,
    }
}

/// Whether the user explicitly unbound a command, so its keybind is removed.
pub fn is_unbound(saved: &SavedKeybinds, scope: &str, command_id: &str, platform: Platform) -> (r:
    bool)
    requires
        saved.wf(),
    ensures
        r == (resolved(saved@, scope@, command_id@, None, platform) matches Some(
            BindingShape::Unbound,
        )),
{
    match resolve(saved, scope, command_id, None, platform) {
        Some(Binding::Unbound) => true,
        _ => false,
    }
}

/// Why a rebind was refused.
#[derive(Debug, Clone, Copy, PartialEq, Eq, Structural)]
pub enum RebindError {
    /// No command is registered under the id.
    UnknownCommand,
}

impl RebindError {
    /// The error's message.
    pub fn message(&self) -> (r: String)
        ensures
            r@ == "no command registered with that id"@,
    {
        match self {
            RebindError::UnknownCommand => "no command registered with that id".to_owned(),
        }
    }
}

/// The stored form of a new binding: one chord's key names, or nothing for
/// "unbound".
pub open spec fn stored_binding(chord: Option<ChordShape>, platform: Platform) -> Seq<
    Seq<Seq<char>>,
> {
    match chord {
        Some(c) => seq![serialized(chord_keys(c, platform), platform)],
        None => Seq::empty(),
    }
}

/// Change a command's binding and record it, so it survives a restart.
///
/// `entity` is what the registry holds for the command; `scope` is the
/// command's own scope, if it has one. Pass `None` as `chord` to unbind. An
/// unregistered command is refused and nothing is recorded; otherwise the
/// entity is handed back so the caller can update its live keybind.
pub fn rebind(
    saved: &mut SavedKeybinds,
    entity: Option<u64>,
    scope: Option<&str>,
    command_id: &str,
    chord: Option<&Chord>,
    platform: Platform,
) -> (r: Result<u64, RebindError>)
    requires
        old(saved).wf(),
    ensures
        final(saved).wf(),
        match entity {
            None => r == Err::<u64, RebindError>(RebindError::UnknownCommand) && final(saved)@ == old(
                saved,
            )@,
            Some(e) => r == Ok::<u64, RebindError>(e) && final(saved)@ == with_override(
                old(saved)@,
                match scope {
                    Some(s) => s@,
                    None => GLOBAL_SCOPE@,
                },
                command_id@,
                stored_binding(
                    match chord {
                        Some(c) => Some(c@),
                        None => None,
                    },
                    platform,
                ),
            ),
        },
{
    let e = match entity {
        Some(e) => e,
        None => {
            return Err(RebindError::UnknownCommand);
        },
    };
    let scope = scope_or_global(scope);
    match chord {
        Some(c) => {
            let names = c.serialize(platform);
            let ghost gn = names;
            let stored = vec![names];
            proof {
                assert(stored@[0] == gn);
                assert(gn.deep_view() =~= gn@.map_values(|s: String| s@));
                assert(chords_view(stored) =~= seq![gn@.map_values(|s: String| s@)]);
            }
            saved.set(scope, command_id, stored);
        },
        None => {
            let stored: Vec<Vec<String>> = Vec::new();
            proof {
                assert(chords_view(stored) =~= Seq::<Seq<Seq<char>>>::empty());
            }
            saved.set(scope, command_id, stored);
        },
    }
    Ok(e)
}

/// Restore a command's registered default, discarding the user's override.
///
/// An unregistered command is refused and nothing changes; otherwise the
/// entity is handed back so the caller can restore its live keybind.
pub fn reset_binding(
    saved: &mut SavedKeybinds,
    entity: Option<u64>,
    scope: Option<&str>,
    command_id: &str,
) -> (r: Result<u64, RebindError>)
    requires
        old(saved).wf(),
    ensures
        final(saved).wf(),
        match entity {
            None => r == Err::<u64, RebindError>(RebindError::UnknownCommand) && final(saved)@ == old(
                saved,
            )@,
            Some(e) => r == Ok::<u64, RebindError>(e) && final(saved)@ == without_override(
                old(saved)@,
                match scope {
                    Some(s) => s@,
                    None => GLOBAL_SCOPE@,
                },
                command_id@,
            ),
        },
{
    let e = match entity {
        Some(e) => e,
        None => {
            return Err(RebindError::UnknownCommand);
        },
    };
    let scope = scope_or_global(scope);
    saved.clear(scope, command_id);
    Ok(e)
}

/// A rebound command resolves to what it was rebound to, on the platform it
/// was recorded on, whatever its default: the round trip that keeps shortcut
/// hints rendering after a rebind. An unbind resolves to unbound, never to
/// the default.
pub proof fn lemma_rebind_resolves(
    m: OverridesView,
    scope: Seq<char>,
    command_id: Seq<char>,
    chord: Option<ChordShape>,
    default: Option<ChordShape>,
    platform: Platform,
)
    ensures
        chord is None ==> resolved(
            with_override(m, scope, command_id, stored_binding(chord, platform)),
            scope,
            command_id,
            default,
            platform,
        ) == Some(BindingShape::Unbound),
        chord is Some && chord_keys(chord.unwrap(), platform).len() > 0 && all_named(
            chord_keys(chord.unwrap(), platform),
            platform,
        ) ==> (resolved(
            with_override(m, scope, command_id, stored_binding(chord, platform)),
            scope,
            command_id,
            default,
            platform,
        ) matches Some(BindingShape::Custom(back)) && chord_keys(back, platform) == chord_keys(
            chord.unwrap(),
            platform,
        )),
{
    if let Some(c) = chord {
        let ks = chord_keys(c, platform);
        if ks.len() > 0 && all_named(ks, platform) {
            lemma_chord_round_trip(c, platform);
        }
    }
}

} // verus!
