use shellie::input::binding::{
    Binding, GLOBAL_SCOPE, RebindError, is_unbound, rebind, reset_binding, resolve, saved_keybind,
    scope_or_global,
};
use shellie::input::capture::{ChordCapture, ChordCaptured, capture_chord, from_keys, is_modifier};
use shellie::input::chord::{Chord, cmd, key};
use shellie::input::command::{BindScope, CommandId, CommandLabel, CommandRegistry, command_name};
use shellie::input::condition::{Priority, gate_verdict};
use shellie::input::dispatch::{
    Candidate, ChordKeys, HeldClaims, collect_candidates, pick_winners, PressOutcome,
    window_lost_focus,
};
use shellie::input::kbd::{KbdChord, KbdKey, ModifierKey, strip_key_prefix};
use shellie::input::key::{KeyCode, MOD_NAME, Platform, all_keys, cmd_key, keycode_to_name, name_to_keycode};
use shellie::input::persist::{SavedKeybinds, ScopeOverrides};

const P: Platform = Platform::Other;

fn names(v: &[&str]) -> Vec<String> {
    v.iter().map(|s| s.to_string()).collect()
}

// ── chords ────────────────────────────────────────────────────────────────

#[test]
fn mod_name_does_not_collide_with_a_literal_key_name() {
    assert!(name_to_keycode(MOD_NAME).is_none());
}

#[test]
fn name_table_is_a_bijection() {
    for kc in all_keys() {
        if let Some(name) = keycode_to_name(kc) {
            assert_eq!(name_to_keycode(name), Some(kc), "name {name} maps back wrong");
        }
    }
    assert_eq!(keycode_to_name(KeyCode::KeyS), Some("S"));
    assert_eq!(name_to_keycode("Ctrl"), Some(KeyCode::ControlLeft));
}

#[test]
fn chord_round_trips_through_the_on_disk_form() {
    for platform in [Platform::MacOs, Platform::Other] {
        for chord in [
            Chord::Key(KeyCode::Escape),
            Chord::Cmd(KeyCode::KeyS),
            Chord::Shift(KeyCode::ArrowUp),
            Chord::CmdShift(KeyCode::KeyZ),
            Chord::Alt(KeyCode::KeyF),
        ] {
            let names = chord.serialize(platform);
            let back = Chord::deserialize(&names, platform).expect("round trip");
            assert_eq!(back.keys(platform), chord.keys(platform), "{chord:?} lost keys");
        }
    }
}

#[test]
fn deserialize_skips_unknown_names_instead_of_failing() {
    let names = names(&[MOD_NAME, "NoSuchKey", "S"]);
    let chord = Chord::deserialize(&names, P).expect("degrades, not fails");
    assert_eq!(chord.keys(P), vec![cmd_key(P), KeyCode::KeyS]);
}

#[test]
fn the_command_modifier_serializes_platform_independently() {
    let names = Chord::Cmd(KeyCode::KeyS).serialize(Platform::MacOs);
    assert_eq!(names, vec![MOD_NAME, "S"]);
    let back = Chord::deserialize(&names, P).unwrap();
    assert_eq!(back.keys(P), vec![KeyCode::ControlLeft, KeyCode::KeyS]);
}

#[test]
fn an_explicit_control_binding_stays_control() {
    let chord = Chord::Multi(&[KeyCode::ControlLeft, KeyCode::KeyS]);
    let on_mac = chord.serialize(Platform::MacOs);
    assert_eq!(on_mac, vec!["Ctrl", "S"]);
    assert_eq!(
        Chord::deserialize(&on_mac, Platform::MacOs).unwrap().keys(Platform::MacOs),
        vec![KeyCode::ControlLeft, KeyCode::KeyS]
    );
    assert_eq!(chord.serialize(Platform::Other), vec![MOD_NAME, "S"]);
}

#[test]
fn deserialize_of_nothing_usable_is_none() {
    assert!(Chord::deserialize(&[], P).is_none());
    assert!(Chord::deserialize(&names(&["NoSuchKey"]), P).is_none());
}

// ── kbd ───────────────────────────────────────────────────────────────────

fn glyphs(chord: &KbdChord) -> Vec<String> {
    chord.render_order().into_iter().map(|k| k.glyph()).collect()
}

#[test]
fn modifiers_render_before_keys_whatever_the_build_order() {
    let chord = KbdChord::new()
        .with(KbdKey::Key(KeyCode::KeyS))
        .with(KbdKey::Modifier(ModifierKey::Super));
    assert_eq!(glyphs(&chord), ["⌘", "S"]);
}

#[test]
fn a_letter_loses_its_keycode_prefix() {
    assert_eq!(KbdKey::Key(KeyCode::KeyS).glyph(), "S");
    assert_eq!(KbdKey::Key(KeyCode::Digit5).glyph(), "5");
    assert_eq!(strip_key_prefix("KeyQ".to_string()), "Q");
}

#[test]
fn both_spellings_of_a_modifier_draw_the_same() {
    assert_eq!(
        KbdKey::Key(KeyCode::SuperLeft).glyph(),
        KbdKey::Modifier(ModifierKey::Super).glyph()
    );
}

#[test]
fn an_unnamed_key_falls_back_to_its_debug_form() {
    assert_eq!(KbdKey::Key(KeyCode::F13).glyph(), "F13");
}

#[test]
fn a_leafwing_chord_lowers_to_its_segments() {
    let segments = vec![
        KbdKey::Key(KeyCode::SuperLeft),
        KbdKey::Key(KeyCode::SuperRight),
        KbdKey::Key(KeyCode::KeyS),
    ];
    let chord = KbdChord::from_segments(&segments);
    assert_eq!(glyphs(&chord), ["⌘", "S"]);
}

#[test]
fn a_modifier_is_one_chip_not_two() {
    let segments = vec![
        KbdKey::Key(KeyCode::SuperLeft),
        KbdKey::Key(KeyCode::SuperRight),
        KbdKey::Key(KeyCode::KeyS),
    ];
    let chord = KbdChord::from_segments(&segments);
    assert_eq!(chord.0.len(), 2, "one modifier and one key: {chord:?}");
}

#[test]
fn two_different_modifiers_both_survive_the_dedup() {
    let segments = vec![
        KbdKey::Key(KeyCode::SuperLeft),
        KbdKey::Key(KeyCode::SuperRight),
        KbdKey::Key(KeyCode::ShiftLeft),
        KbdKey::Key(KeyCode::ShiftRight),
        KbdKey::Key(KeyCode::KeyS),
    ];
    let g = glyphs(&KbdChord::from_segments(&segments));
    assert_eq!(g.len(), 3, "got {g:?}");
    assert!(g.contains(&"⌘".to_string()));
    assert!(g.contains(&"⇧".to_string()));
}

#[test]
fn a_chord_lowers_to_keys_for_display() {
    let chord = KbdChord::from_chord(&cmd(KeyCode::KeyS), Platform::MacOs);
    assert_eq!(glyphs(&chord), ["⌘", "S"]);
}

// ── capture ───────────────────────────────────────────────────────────────

#[test]
fn a_bare_key_is_captured_on_release() {
    let mut capture = ChordCapture::new();
    assert!(capture_chord(&mut capture, &[KeyCode::KeyK], &[], P).is_none(), "captured before release");
    let got = capture_chord(&mut capture, &[], &[KeyCode::KeyK], P);
    assert!(matches!(got, Some(ChordCaptured::Chord(Chord::Key(KeyCode::KeyK)))));
}

#[test]
fn modifiers_held_across_frames_reach_the_chord() {
    let mut capture = ChordCapture::new();
    assert!(capture_chord(&mut capture, &[KeyCode::ShiftLeft], &[], P).is_none());
    assert!(capture_chord(&mut capture, &[KeyCode::KeyA], &[], P).is_none());
    let got = capture_chord(&mut capture, &[], &[KeyCode::KeyA], P);
    assert!(matches!(got, Some(ChordCaptured::Chord(Chord::Shift(KeyCode::KeyA)))));
}

#[test]
fn a_modifier_alone_never_completes_a_chord() {
    let mut capture = ChordCapture::new();
    assert!(capture_chord(&mut capture, &[KeyCode::ShiftLeft], &[], P).is_none());
    assert!(capture_chord(&mut capture, &[], &[KeyCode::ShiftLeft], P).is_none());
    assert_eq!(capture.held_modifiers(), &[KeyCode::ShiftLeft]);
}

#[test]
fn escape_cancels_and_is_distinct_from_unbinding() {
    let mut capture = ChordCapture::default();
    let got = capture_chord(&mut capture, &[KeyCode::Escape], &[], P);
    assert!(matches!(got, Some(ChordCaptured::Cancelled)));
}

#[test]
fn the_recording_stops_after_one_chord() {
    let mut capture = ChordCapture::new();
    capture_chord(&mut capture, &[KeyCode::KeyK], &[], P);
    let got = capture_chord(&mut capture, &[], &[KeyCode::KeyK], P);
    assert!(got.is_some(), "a finished recording tells the host to stop listening");
}

#[test]
fn a_named_variant_is_preferred_over_custom() {
    let c = cmd_key(P);
    assert!(matches!(from_keys(&[c, KeyCode::KeyS], P), Chord::Cmd(KeyCode::KeyS)));
    assert!(matches!(
        from_keys(&[c, KeyCode::ShiftLeft, KeyCode::KeyS], P),
        Chord::CmdShift(KeyCode::KeyS)
    ));
    assert!(matches!(from_keys(&[KeyCode::AltLeft, KeyCode::KeyS], P), Chord::Alt(KeyCode::KeyS)));
    assert!(matches!(
        from_keys(&[KeyCode::SuperLeft, KeyCode::KeyS], Platform::MacOs),
        Chord::Cmd(KeyCode::KeyS)
    ));
}

#[test]
fn an_uncovered_modifier_mix_stays_custom() {
    let c = cmd_key(P);
    assert!(matches!(from_keys(&[c, KeyCode::AltLeft, KeyCode::KeyS], P), Chord::Custom(_)));
    assert!(matches!(from_keys(&[KeyCode::ShiftLeft], P), Chord::Custom(_)));
}

#[test]
fn a_captured_chord_binds_exactly_the_modifiers_held() {
    // Control on macOS is not the command key: it stays in the chord.
    let mac = from_keys(&[KeyCode::ControlLeft, KeyCode::KeyS], Platform::MacOs);
    assert_eq!(mac.keys(Platform::MacOs), vec![KeyCode::ControlLeft, KeyCode::KeyS]);
    assert!(matches!(mac, Chord::Custom(_)));
    // Super elsewhere is not the command key either.
    let other = from_keys(&[KeyCode::SuperRight, KeyCode::KeyS], Platform::Other);
    assert_eq!(other.keys(Platform::Other), vec![KeyCode::SuperRight, KeyCode::KeyS]);
    // Control elsewhere is the command key.
    assert!(matches!(
        from_keys(&[KeyCode::ControlRight, KeyCode::KeyS], Platform::Other),
        Chord::Cmd(KeyCode::KeyS)
    ));
}

#[test]
fn the_right_hand_modifiers_count_too() {
    assert!(matches!(
        from_keys(&[KeyCode::ShiftRight, KeyCode::KeyA], P),
        Chord::Shift(KeyCode::KeyA)
    ));
    assert!(is_modifier(KeyCode::AltRight));
    assert!(!is_modifier(KeyCode::KeyA));
}

#[test]
fn a_captured_chord_round_trips_through_serialization() {
    let chord = from_keys(&[cmd_key(P), KeyCode::KeyS], P);
    let names = chord.serialize(P);
    let back = Chord::deserialize(&names, P).expect("a captured chord must reload");
    assert_eq!(back.keys(P), chord.keys(P));
}

// ── persisted overrides ──────────────────────────────────────────────────

#[test]
fn set_then_read_back() {
    let mut saved = SavedKeybinds::default();
    saved.set("global", "edit.undo", vec![names(&["Cmd", "Z"])]);
    let scope = saved.scope("global").expect("scope present");
    assert_eq!(scope.get("edit.undo"), Some(&vec![names(&["Cmd", "Z"])]));
}

#[test]
fn unbound_and_untouched_are_different() {
    let mut saved = SavedKeybinds::default();
    saved.set("global", "edit.undo", vec![]);
    assert_eq!(saved.scope("global").unwrap().get("edit.undo"), Some(&vec![]));
    assert_eq!(saved.scope("global").unwrap().get("edit.redo"), None);
}

#[test]
fn an_untouched_scope_reads_as_an_empty_map() {
    let saved = SavedKeybinds::default();
    let scope = saved.scope("global").expect("an untouched scope is an empty map");
    assert!(scope.is_empty());
    assert_eq!(scope.get("edit.undo"), None);
}

#[test]
fn clear_restores_the_default() {
    let mut saved = SavedKeybinds::default();
    saved.set("global", "edit.undo", vec![names(&["Cmd", "Y"])]);
    saved.clear("global", "edit.undo");
    assert!(saved.scope("global").unwrap().get("edit.undo").is_none());
}

#[test]
fn a_missing_file_loads_as_defaults() {
    assert!(SavedKeybinds::new().is_empty());
    assert!(ScopeOverrides::new().is_empty());
}

#[test]
fn setting_twice_replaces_and_keeps_other_scopes() {
    let mut saved = SavedKeybinds::new();
    saved.set("global", "edit.undo", vec![names(&["Mod", "Z"])]);
    saved.set("timeline", "edit.undo", vec![names(&["Mod", "U"])]);
    saved.set("global", "edit.undo", vec![names(&["Mod", "Y"])]);
    assert_eq!(saved.scope("global").unwrap().get("edit.undo"), Some(&vec![names(&["Mod", "Y"])]));
    assert_eq!(saved.scope("timeline").unwrap().get("edit.undo"), Some(&vec![names(&["Mod", "U"])]));
    assert_eq!(saved.pairs().len(), 2);
    assert!(saved.scope("piano_roll").expect("an untouched scope reads as empty").is_empty());
    saved.clear("piano_roll", "edit.undo");
    assert!(saved.scope("piano_roll").unwrap().is_empty(), "clearing an untouched scope creates nothing");
    assert_eq!(saved.pairs().len(), 2, "clearing an untouched scope adds no scope");
}

// ── bindings ──────────────────────────────────────────────────────────────

fn saved_with(scope: &str, id: &str, chords: Vec<Vec<&str>>) -> SavedKeybinds {
    let mut saved = SavedKeybinds::default();
    saved.set(scope, id, chords.into_iter().map(|c| names(&c)).collect());
    saved
}

#[test]
fn an_untouched_command_keeps_its_default() {
    let saved = SavedKeybinds::default();
    let default = cmd(KeyCode::KeyZ);
    assert_eq!(
        resolve(&saved, "global", "edit.undo", Some(&default), P),
        Some(Binding::Default(cmd(KeyCode::KeyZ)))
    );
}

#[test]
fn a_rebound_command_is_still_displayable() {
    let saved = saved_with("global", "edit.undo", vec![vec!["Mod", "Y"]]);
    let binding = resolve(&saved, "global", "edit.undo", Some(&cmd(KeyCode::KeyZ)), P).expect("resolved");
    assert!(binding.is_customized());
    let chord = binding.chord().expect("a custom binding still has a chord");
    assert_eq!(chord.keys(P), cmd(KeyCode::KeyY).keys(P));
}

#[test]
fn unbinding_is_not_the_same_as_never_touching() {
    let saved = saved_with("global", "edit.undo", vec![]);
    let binding = resolve(&saved, "global", "edit.undo", Some(&cmd(KeyCode::KeyZ)), P);
    assert_eq!(binding, Some(Binding::Unbound));
    assert!(binding.unwrap().chord().is_none());
    assert!(is_unbound(&saved, "global", "edit.undo", P));
}

#[test]
fn an_unusable_saved_binding_falls_back_rather_than_stranding_the_command() {
    let saved = saved_with("global", "edit.undo", vec![vec!["NoSuchKey"]]);
    let default = cmd(KeyCode::KeyZ);
    assert_eq!(
        resolve(&saved, "global", "edit.undo", Some(&default), P),
        Some(Binding::Default(cmd(KeyCode::KeyZ)))
    );
}

#[test]
fn scopes_do_not_leak_into_each_other() {
    let saved = saved_with("timeline", "edit.undo", vec![vec!["Mod", "Y"]]);
    assert_eq!(
        resolve(&saved, "global", "edit.undo", Some(&key(KeyCode::KeyZ)), P),
        Some(Binding::Default(key(KeyCode::KeyZ)))
    );
}

#[test]
fn rebinding_records_and_resolves_back() {
    let mut saved = SavedKeybinds::new();
    let got = rebind(&mut saved, Some(4), None, "edit.undo", Some(&cmd(KeyCode::KeyY)), P);
    assert_eq!(got, Ok(4));
    assert_eq!(
        saved.scope(GLOBAL_SCOPE).unwrap().get("edit.undo"),
        Some(&vec![names(&[MOD_NAME, "Y"])])
    );
    let applied = saved_keybind(&saved, "global", "edit.undo", &cmd(KeyCode::KeyZ), P).expect("rebound");
    assert_eq!(applied.keys(P), cmd(KeyCode::KeyY).keys(P));

    assert_eq!(rebind(&mut saved, Some(4), Some("timeline"), "edit.undo", None, P), Ok(4));
    assert!(is_unbound(&saved, "timeline", "edit.undo", P));

    assert_eq!(reset_binding(&mut saved, Some(4), None, "edit.undo"), Ok(4));
    assert!(saved.scope("global").unwrap().get("edit.undo").is_none());
}

#[test]
fn rebinding_an_unknown_command_is_refused() {
    let mut saved = SavedKeybinds::new();
    assert_eq!(
        rebind(&mut saved, None, None, "nope", Some(&cmd(KeyCode::KeyY)), P),
        Err(RebindError::UnknownCommand)
    );
    assert_eq!(reset_binding(&mut saved, None, None, "nope"), Err(RebindError::UnknownCommand));
    assert!(saved.is_empty());
    assert_eq!(RebindError::UnknownCommand.message(), "no command registered with that id");
    assert_eq!(scope_or_global(None), "global");
    assert_eq!(scope_or_global(Some("timeline")), "timeline");
}

// ── commands ──────────────────────────────────────────────────────────────

#[test]
fn spawn_indexes_by_id() {
    let mut registry = CommandRegistry::default();
    assert!(registry.insert("edit.undo".to_string(), 1));
    assert_eq!(registry.len(), 1);
    assert!(registry.get("edit.undo").is_some());
}

#[test]
fn firing_an_unregistered_command_is_a_no_op() {
    let registry = CommandRegistry::new();
    assert_eq!(registry.get("edit.redo"), None);
}

#[test]
fn a_duplicate_id_is_refused_and_the_original_survives() {
    let mut registry = CommandRegistry::new();
    assert!(registry.insert("edit.undo".to_string(), 1));
    assert!(!registry.insert("edit.undo".to_string(), 2));
    assert_eq!(registry.len(), 1, "the duplicate must not be indexed");
    assert_eq!(registry.get("edit.undo"), Some(1), "the original must survive");
    registry.remove_if_owner("edit.undo", 2);
    assert_eq!(registry.get("edit.undo"), Some(1), "dropping the refused duplicate evicts nothing");
}

#[test]
fn despawning_frees_the_id() {
    let mut registry = CommandRegistry::new();
    registry.insert("edit.undo".to_string(), 1);
    registry.remove_if_owner("edit.undo", 1);
    assert!(registry.get("edit.undo").is_none());
    assert!(registry.is_empty());
}

#[test]
fn dynamic_ids_produce_the_same_components() {
    let id = CommandId("ext.foo.bar".to_string());
    assert_eq!(id.as_str(), "ext.foo.bar");
    assert_eq!(CommandLabel::new("From an extension").as_str(), "From an extension");
    assert_eq!(BindScope::default().0, "global");
}

// ── conditions ────────────────────────────────────────────────────────────

#[test]
fn condition_an_uninitialized_condition_denies_rather_than_allows() {
    assert!(!gate_verdict(true, false, Some(true)));
    assert!(!gate_verdict(true, true, None), "a gate that failed to run denies");
    assert!(gate_verdict(true, true, Some(true)));
    assert!(!gate_verdict(true, true, Some(false)));
}

#[test]
fn condition_priority_orders_and_defaults_to_zero() {
    assert_eq!(Priority::default(), Priority(0));
    assert!(Priority(10) > Priority(0));
    assert!(Priority(-1) < Priority::default());
}

#[test]
fn an_entity_with_no_gate_passes() {
    assert!(gate_verdict(false, false, None));
}

// ── dispatch ──────────────────────────────────────────────────────────────

struct Cmd {
    entity: u64,
    name: &'static str,
    chord: Chord,
    priority: i32,
    gate: Option<bool>,
    /// What the press handler returns; `Some` for a held command.
    payload: Option<u8>,
    release: bool,
}

fn plain(entity: u64, name: &'static str, chord: Chord) -> Cmd {
    Cmd { entity, name, chord, priority: 0, gate: None, payload: None, release: false }
}

/// One frame of dispatch, run from the library's decisions.
fn frame(
    cmds: &[Cmd],
    held: &[KeyCode],
    just: &[KeyCode],
    claims: &mut HeldClaims<u8>,
    log: &mut Vec<String>,
) {
    for (entity, payload) in claims.settle(held) {
        let c = cmds.iter().find(|c| c.entity == entity).unwrap();
        log.push(format!("{}-off:{payload}", c.name));
    }
    let bound: Vec<Candidate> = cmds
        .iter()
        .map(|c| Candidate {
            entity: c.entity,
            chord: ChordKeys::of(&c.chord, P),
            priority: c.priority,
            has_release: c.release,
        })
        .collect();
    let candidates = collect_candidates(&bound, held, just);
    let passing: Vec<bool> = candidates
        .iter()
        .map(|cand| {
            let c = cmds.iter().find(|c| c.entity == cand.entity).unwrap();
            gate_verdict(c.gate.is_some(), true, c.gate)
        })
        .collect();
    for winner in pick_winners(&candidates, &passing) {
        let c = cmds.iter().find(|c| c.entity == winner.entity).unwrap();
        log.push(c.name.to_string());
        claims.record_press(winner.chord.clone(), winner.entity, c.payload, winner.has_release);
    }
}

#[test]
fn a_bound_chord_runs_its_handler() {
    let cmds = [plain(1, "split", key(KeyCode::KeyS))];
    let (mut claims, mut log) = (HeldClaims::new(), Vec::new());
    frame(&cmds, &[KeyCode::KeyS], &[KeyCode::KeyS], &mut claims, &mut log);
    assert_eq!(log, vec!["split"]);
}

#[test]
fn a_held_chord_does_not_refire_every_frame() {
    let cmds = [plain(1, "split", key(KeyCode::KeyS))];
    let (mut claims, mut log) = (HeldClaims::new(), Vec::new());
    frame(&cmds, &[KeyCode::KeyS], &[KeyCode::KeyS], &mut claims, &mut log);
    frame(&cmds, &[KeyCode::KeyS], &[], &mut claims, &mut log);
    frame(&cmds, &[KeyCode::KeyS], &[], &mut claims, &mut log);
    assert_eq!(log, vec!["split"]);
}

#[test]
fn a_failing_condition_blocks_the_command() {
    let mut cmds = [plain(1, "split", key(KeyCode::KeyS))];
    cmds[0].gate = Some(false);
    let (mut claims, mut log) = (HeldClaims::new(), Vec::new());
    frame(&cmds, &[KeyCode::KeyS], &[KeyCode::KeyS], &mut claims, &mut log);
    assert!(log.is_empty(), "gate shut");
    cmds[0].gate = Some(true);
    frame(&cmds, &[], &[], &mut claims, &mut log);
    frame(&cmds, &[KeyCode::KeyS], &[KeyCode::KeyS], &mut claims, &mut log);
    assert_eq!(log, vec!["split"]);
}

#[test]
fn priority_decides_between_two_applicable_commands() {
    let mut note = plain(1, "delete-note", key(KeyCode::Delete));
    note.priority = 10;
    let cmds = [note, plain(2, "delete-track", key(KeyCode::Delete))];
    let (mut claims, mut log) = (HeldClaims::new(), Vec::new());
    frame(&cmds, &[KeyCode::Delete], &[KeyCode::Delete], &mut claims, &mut log);
    assert_eq!(log, vec!["delete-note"], "only the winner runs");
}

#[test]
fn a_lower_priority_command_wins_when_the_higher_one_is_gated_out() {
    let mut note = plain(1, "delete-note", key(KeyCode::Delete));
    note.priority = 10;
    note.gate = Some(false);
    let cmds = [note, plain(2, "delete-track", key(KeyCode::Delete))];
    let (mut claims, mut log) = (HeldClaims::new(), Vec::new());
    frame(&cmds, &[KeyCode::Delete], &[KeyCode::Delete], &mut claims, &mut log);
    assert_eq!(log, vec!["delete-track"]);
}

#[test]
fn a_tie_goes_to_the_first_registered() {
    let cmds = [plain(1, "first", key(KeyCode::Delete)), plain(2, "second", key(KeyCode::Delete))];
    let (mut claims, mut log) = (HeldClaims::new(), Vec::new());
    frame(&cmds, &[KeyCode::Delete], &[KeyCode::Delete], &mut claims, &mut log);
    assert_eq!(log, vec!["first"]);
}

#[test]
fn a_chord_needs_every_key() {
    let cmds = [plain(1, "save", cmd(KeyCode::KeyS))];
    let (mut claims, mut log) = (HeldClaims::new(), Vec::new());
    frame(&cmds, &[KeyCode::KeyS], &[KeyCode::KeyS], &mut claims, &mut log);
    assert!(log.is_empty());
    frame(&cmds, &[KeyCode::KeyS, KeyCode::ControlLeft], &[KeyCode::ControlLeft], &mut claims, &mut log);
    assert_eq!(log, vec!["save"]);
}

fn note(gate: Option<bool>) -> Cmd {
    Cmd {
        entity: 7,
        name: "note",
        chord: key(KeyCode::KeyA),
        priority: 0,
        gate,
        payload: Some(60),
        release: true,
    }
}

#[test]
fn press_and_release_pair_up() {
    let cmds = [note(None)];
    let (mut claims, mut log) = (HeldClaims::new(), Vec::new());
    frame(&cmds, &[KeyCode::KeyA], &[KeyCode::KeyA], &mut claims, &mut log);
    assert_eq!(log, vec!["note"]);
    frame(&cmds, &[], &[], &mut claims, &mut log);
    assert_eq!(log, vec!["note", "note-off:60"]);
}

#[test]
fn release_ignores_a_condition_that_flipped_mid_hold() {
    let mut cmds = [note(Some(true))];
    let (mut claims, mut log) = (HeldClaims::new(), Vec::new());
    frame(&cmds, &[KeyCode::KeyA], &[KeyCode::KeyA], &mut claims, &mut log);
    cmds[0].gate = Some(false);
    frame(&cmds, &[], &[], &mut claims, &mut log);
    assert_eq!(log, vec!["note", "note-off:60"], "the release still reaches its claimant");
}

#[test]
fn a_declined_press_records_no_claim() {
    let mut n = note(None);
    n.payload = None;
    let cmds = [n];
    let (mut claims, mut log) = (HeldClaims::new(), Vec::new());
    frame(&cmds, &[KeyCode::KeyA], &[KeyCode::KeyA], &mut claims, &mut log);
    frame(&cmds, &[], &[], &mut claims, &mut log);
    assert_eq!(log, vec!["note"]);
    assert!(claims.is_empty());
    let mut other: HeldClaims<u8> = HeldClaims::new();
    let outcome = other.record_press(ChordKeys::of(&key(KeyCode::KeyA), P), 7, Some(60), false);
    assert_eq!(outcome, PressOutcome::Dropped, "a payload with nowhere to go records nothing");
    assert!(other.is_empty());
}

#[test]
fn releasing_any_key_of_a_chord_settles_the_claim() {
    let mut held = note(None);
    held.chord = cmd(KeyCode::KeyA);
    let cmds = [held];
    let (mut claims, mut log) = (HeldClaims::new(), Vec::new());
    frame(
        &cmds,
        &[KeyCode::ControlLeft, KeyCode::KeyA],
        &[KeyCode::ControlLeft, KeyCode::KeyA],
        &mut claims,
        &mut log,
    );
    assert_eq!(log, vec!["note"]);
    frame(&cmds, &[KeyCode::KeyA], &[], &mut claims, &mut log);
    assert_eq!(log, vec!["note", "note-off:60"]);
}

#[test]
fn draining_releases_everything_outstanding() {
    let cmds = [note(None)];
    let (mut claims, mut log) = (HeldClaims::new(), Vec::new());
    frame(&cmds, &[KeyCode::KeyA], &[KeyCode::KeyA], &mut claims, &mut log);
    assert_eq!(claims.len(), 1);
    let drained = claims.take_all();
    assert_eq!(drained.len(), 1);
    assert_eq!(drained[0].1, 7);
    assert_eq!(drained[0].2, 60);
    assert!(claims.is_empty());
}

#[test]
fn a_headless_app_does_not_look_permanently_unfocused() {
    assert!(!window_lost_focus(&[]));
    assert!(!window_lost_focus(&[true]));
    assert!(window_lost_focus(&[false]));
}

#[test]
fn a_drained_claim_does_not_fire_again_on_the_real_release() {
    let cmds = [note(None)];
    let (mut claims, mut log) = (HeldClaims::new(), Vec::new());
    frame(&cmds, &[KeyCode::KeyA], &[KeyCode::KeyA], &mut claims, &mut log);
    claims.take_all();
    frame(&cmds, &[], &[], &mut claims, &mut log);
    assert_eq!(log, vec!["note"]);
}

#[test]
fn a_claim_on_a_chord_replaces_the_earlier_one() {
    let mut claims: HeldClaims<u8> = HeldClaims::new();
    let chord = ChordKeys::of(&key(KeyCode::KeyA), P);
    claims.insert(chord.clone(), 1, 10);
    claims.insert(chord.clone(), 2, 20);
    assert_eq!(claims.len(), 1);
    assert_eq!(claims.take(&chord), Some((2, 20)));
    assert_eq!(claims.take(&chord), None);
}

#[test]
fn chord_keys_ignore_spelling_order() {
    let a = ChordKeys::of(&Chord::Custom(vec![KeyCode::KeyS, KeyCode::ControlLeft]), P);
    let b = ChordKeys::of(&cmd(KeyCode::KeyS), P);
    assert!(a.same(&b));
    assert!(a.all_held(&[KeyCode::ControlLeft, KeyCode::KeyS, KeyCode::KeyQ]));
    assert!(!a.all_held(&[KeyCode::KeyS]));
    assert!(a.just_completed(&[KeyCode::ControlLeft, KeyCode::KeyS], &[KeyCode::KeyS]));
    assert!(!a.just_completed(&[KeyCode::ControlLeft, KeyCode::KeyS], &[]));
}

#[test]
fn settling_hands_back_only_the_released_claims() {
    let mut claims: HeldClaims<u8> = HeldClaims::new();
    claims.record_press(ChordKeys::of(&key(KeyCode::KeyA), P), 1, Some(10), true);
    claims.record_press(ChordKeys::of(&key(KeyCode::KeyB), P), 2, Some(20), true);
    claims.record_press(ChordKeys::of(&key(KeyCode::KeyC), P), 3, Some(30), true);
    let settled = claims.settle(&[KeyCode::KeyB]);
    assert_eq!(settled, vec![(1, 10), (3, 30)]);
    assert_eq!(claims.len(), 1);
    assert_eq!(claims.settle(&[KeyCode::KeyB]), vec![]);
    assert_eq!(claims.settle(&[]), vec![(2, 20)]);
    assert!(claims.is_empty());
    // A new claim on a chord replaces the earlier one.
    claims.record_press(ChordKeys::of(&key(KeyCode::KeyA), P), 1, Some(11), true);
    claims.record_press(ChordKeys::of(&key(KeyCode::KeyA), P), 4, Some(12), true);
    assert_eq!(claims.settle(&[]), vec![(4, 12)]);
}

#[test]
fn accepting_a_command_indexes_it_once_and_refuses_the_rest() {
    let mut registry = CommandRegistry::new();
    assert!(registry.accept(Some("edit.undo".to_string()), 1));
    assert_eq!(registry.len(), 1);
    assert_eq!(registry.get("edit.undo"), Some(1));
    assert!(!registry.accept(Some("edit.undo".to_string()), 2), "a duplicate is refused");
    assert!(!registry.accept(None, 3), "a bundle with no id is refused");
    assert_eq!(registry.len(), 1);
    assert_eq!(registry.get("edit.undo"), Some(1), "the first registration keeps the id");
    assert_eq!(command_name("edit.undo"), "cmd:edit.undo");
}
