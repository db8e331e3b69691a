use shellie::settings::{ActiveTab, TabId, TabOrder, ordered_tabs, tab_body, tab_exists, tab_shown};
use shellie::sorted_ids::SortedIds;
use shellie::text::{decimal_string, str_lt};
use shellie::tree_view::{FORMAT_VERSION, GroupId, TreeState};

fn devs(state: &TreeState) -> Vec<(String, bool)> {
    state.deviations()
}

fn dev(id: &str, open: bool) -> (String, bool) {
    (id.to_string(), open)
}

#[test]
fn an_untouched_group_follows_its_declaration() {
    let state = TreeState::new();
    assert!(state.is_open("open-by-default", true));
    assert!(!state.is_open("shut-by-default", false));
    assert_eq!(state.version, FORMAT_VERSION);
}

#[test]
fn closing_a_default_open_group_is_recorded() {
    let mut state = TreeState::new();
    state.toggle("src", true);
    assert!(!state.is_open("src", true));
    assert_eq!(state.len(), 1, "the deviation is recorded");
    assert_eq!(devs(&state), [dev("src", false)]);
}

#[test]
fn opening_a_default_closed_group_is_recorded() {
    let mut state = TreeState::new();
    state.toggle("target", false);
    assert!(state.is_open("target", false));
    assert_eq!(devs(&state), [dev("target", true)]);
}

#[test]
fn returning_to_the_default_clears_the_deviation() {
    let mut state = TreeState::new();
    state.toggle("src", true);
    assert_eq!(state.len(), 1);
    state.toggle("src", true);
    assert!(state.is_open("src", true));
    assert!(state.is_empty(), "agreeing with the default records nothing");
}

#[test]
fn a_group_is_never_in_both_sets() {
    let mut state = TreeState::new();
    state.set_open("a", true, false);
    state.set_open("a", false, true);
    assert_eq!(state.len(), 1);
    assert!(!state.is_open("a", true));
}

#[test]
fn a_changed_default_reaches_users_who_never_disagreed() {
    let mut state = TreeState::new();
    state.toggle("a", false);
    assert!(state.is_open("a", true), "user's choice survives");
    assert!(state.is_open("b", true), "untouched group follows the new default");
}

#[test]
fn retain_drops_what_the_host_retires() {
    let mut state = TreeState::new();
    state.set_open("live", true, false);
    state.set_open("gone", true, false);
    state.retain(&|id: &str| id == "live");
    assert_eq!(devs(&state), [dev("live", true)]);
}

#[test]
fn reset_returns_everything_to_its_default() {
    let mut state = TreeState::new();
    state.set_open("a", true, false);
    state.set_open("b", false, true);
    state.reset();
    assert!(state.is_empty());
    assert!(state.is_open("b", true));
}

#[test]
fn deviations_come_in_id_order_whichever_way_they_deviate() {
    let mut state = TreeState::default();
    state.set_open("zeta", true, false);
    state.set_open("alpha", true, false);
    state.set_open("mid", false, true);
    state.set_open("beta", false, true);
    assert_eq!(devs(&state), [dev("alpha", true), dev("beta", false), dev("mid", false), dev("zeta", true)]);
    assert_eq!(GroupId("src".to_string()).as_str(), "src");
}

#[test]
fn sorted_ids_keep_str_order_and_no_repeats() {
    let mut ids = SortedIds::new();
    for id in ["b", "a", "ab", "b", "B"] {
        ids.insert(id);
    }
    let got: Vec<&str> = ids.ids().iter().map(|s| s.as_str()).collect();
    assert_eq!(got, ["B", "a", "ab", "b"]);
    assert!(ids.contains("ab"));
    ids.remove("ab");
    assert!(!ids.contains("ab"));
    assert_eq!(ids.len(), 3);
    assert!(str_lt("a", "ab") && !str_lt("ab", "a") && !str_lt("a", "a"));
    assert!(str_lt("Z", "a"));
}

#[test]
fn numbers_write_in_decimal() {
    assert_eq!(decimal_string(0), "0");
    assert_eq!(decimal_string(7), "7");
    assert_eq!(decimal_string(1024), "1024");
    assert_eq!(decimal_string(usize::MAX), usize::MAX.to_string());
}

// ── settings tabs ─────────────────────────────────────────────────────────

#[test]
fn active_tab_matches_by_id() {
    let active = ActiveTab::at("audio");
    assert!(active.is("audio"));
    assert!(!active.is("video"));
    assert!(!ActiveTab::none().is("audio"));
    assert_eq!(active.id(), Some("audio"));
}

#[test]
fn resolve_falls_back_to_the_first_tab() {
    let saved = ActiveTab::at("retired");
    assert_eq!(saved.resolve(&["general", "audio"]), Some("general"));
}

#[test]
fn resolve_keeps_a_tab_that_still_exists() {
    let saved = ActiveTab::at("audio");
    assert_eq!(saved.resolve(&["general", "audio"]), Some("audio"));
}

#[test]
fn tab_resolve_of_nothing_is_nothing() {
    assert_eq!(ActiveTab::at("anything").resolve(&[]), None);
    assert_eq!(ActiveTab::none().resolve(&[]), None);
}

#[test]
fn tabs_order_by_declaration_then_id() {
    let tabs = vec![
        (TabOrder(20), TabId::new("keys")),
        (TabOrder(10), TabId::new("general")),
        (TabOrder(20), TabId::new("audio")),
    ];
    let got: Vec<String> = ordered_tabs(&tabs).into_iter().map(|t| t.0).collect();
    assert_eq!(got, ["general", "audio", "keys"]);
    assert_eq!(TabOrder::default(), TabOrder(0));
}

#[test]
fn only_the_active_tab_body_shows() {
    let mut active = ActiveTab::default();
    assert!(!tab_shown(&active, &TabId::new("audio")));
    active.set("audio");
    assert!(tab_shown(&active, &TabId::new("audio")));
    assert!(!tab_shown(&active, &TabId::new("general")));
}

#[test]
fn content_finds_its_body_by_id() {
    let bodies = vec![(3u64, TabId::new("general")), (5u64, TabId::new("audio"))];
    assert_eq!(tab_body(&bodies, "audio"), Some(5));
    assert_eq!(tab_body(&bodies, "video"), None);
    assert!(tab_exists(&bodies, "general"));
    assert!(!tab_exists(&[], "general"));
}

#[test]
fn deviations_come_once_each_in_id_order() {
    let mut state = TreeState::new();
    state.set_open("b", true, false);
    state.set_open("a", false, true);
    state.set_open("c", true, false);
    assert_eq!(devs(&state), [dev("a", false), dev("b", true), dev("c", true)]);
}
