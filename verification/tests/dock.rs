use shellie::dock::assembly::{NodeSizing, Slot, kept_panes, reused_entity, sized, wiring};
use shellie::dock::arrange::{adjacent_divider, chip_corners, order_by_declaration, same_ids};
use shellie::dock::chrome::{BARE, MACOS_TRAFFIC_LIGHTS, default_inset, window_inset};
use shellie::dock::mutate::{Side, remove_pane_from, replace_pane};
use shellie::dock::node::{Axis, FLEX_ONE_BITS, PaneId, PaneSize, PaneVisibility};
use shellie::dock::page::{ActiveCenterMode, ActivePage, ChipLook, PageId, center_mode_is_active, chip_look, page_shown};
use shellie::dock::persist::append_pane;
use shellie::dock::registry::PaneRegistry;
use shellie::dock::resize::{DragWrite, drag_write, flanking};
use shellie::dock::section::{Row, RowHeight, body_style, frame_title, row_height, wanted_sections};
use shellie::dock::tree::{DockLayout, DockTree, FORMAT_VERSION, TreeError, default_version};
use shellie::input::key::Platform;
use shellie::theme::base::Step;
use shellie::theme::styled::{ControlSize, Sizing};

fn flex(w: f32) -> u32 {
    w.to_bits()
}

fn row(ids: &[&str]) -> DockLayout {
    DockLayout::new(DockTree::split(Axis::Row, ids.iter().map(|id| DockTree::pane(id)).collect()))
}

fn ids(layout: &DockLayout) -> Vec<String> {
    layout.pane_ids().iter().map(|p| p.0.clone()).collect()
}

fn size_of(layout: &DockLayout, id: &str) -> Option<PaneSize> {
    layout.root.find_pane(id).map(|t| t.size())
}

// ── tree ──────────────────────────────────────────────────────────────────

#[test]
fn a_declared_pane_defaults_to_an_even_flex_weight() {
    assert_eq!(DockTree::pane("a").size(), PaneSize::Flex(flex(1.0)));
}

#[test]
fn builders_set_size_min_and_visibility() {
    let pane = DockTree::pane("a").fixed(flex(40.0));
    assert_eq!(pane.size(), PaneSize::Fixed(flex(40.0)));

    let pane = DockTree::pane("b").flex(flex(3.0)).min_size(flex(120.0)).hidden();
    assert_eq!(pane.size(), PaneSize::Flex(flex(3.0)));
    match pane {
        DockTree::Pane { min_size, visibility, .. } => {
            assert_eq!(min_size, Some(flex(120.0)));
            assert_eq!(visibility, PaneVisibility::Hidden);
        }
        _ => panic!("expected a pane"),
    }
}

#[test]
fn pane_ids_walk_depth_first_left_to_right() {
    let layout = DockLayout::new(DockTree::split(
        Axis::Column,
        vec![
            DockTree::pane("top"),
            DockTree::split(Axis::Row, vec![DockTree::pane("left"), DockTree::pane("right")]),
        ],
    ));
    assert_eq!(ids(&layout), ["top", "left", "right"]);
}

#[test]
fn a_valid_tree_validates() {
    let layout = DockLayout::new(DockTree::split(
        Axis::Row,
        vec![DockTree::pane("browser").flex(flex(1.0)), DockTree::pane("center").flex(flex(6.0))],
    ));
    assert_eq!(layout.validate(), Ok(()));
}

#[test]
fn duplicate_pane_ids_are_rejected() {
    let layout = DockLayout::new(DockTree::split(
        Axis::Row,
        vec![DockTree::pane("dup"), DockTree::pane("dup")],
    ));
    assert_eq!(layout.validate(), Err(TreeError::DuplicatePaneId("dup".into())));
}

#[test]
fn duplicate_ids_are_caught_across_nesting_levels() {
    let layout = DockLayout::new(DockTree::split(
        Axis::Column,
        vec![
            DockTree::pane("same"),
            DockTree::split(Axis::Row, vec![DockTree::pane("other"), DockTree::pane("same")]),
        ],
    ));
    assert!(matches!(layout.validate(), Err(TreeError::DuplicatePaneId(_))));
}

#[test]
fn a_split_with_one_child_is_rejected() {
    let layout = DockLayout::new(DockTree::split(Axis::Row, vec![DockTree::pane("only")]));
    assert_eq!(layout.validate(), Err(TreeError::DegenerateSplit(1)));
}

#[test]
fn an_empty_split_is_rejected() {
    let layout = DockLayout::new(DockTree::split(Axis::Row, vec![]));
    assert_eq!(layout.validate(), Err(TreeError::DegenerateSplit(0)));
}

#[test]
fn a_lone_pane_is_a_valid_root() {
    let layout = DockLayout::new(DockTree::pane("only"));
    assert_eq!(layout.validate(), Ok(()));
}

#[test]
fn find_pane_reaches_into_nested_splits() {
    let layout = DockLayout::new(DockTree::split(
        Axis::Column,
        vec![
            DockTree::pane("top"),
            DockTree::split(
                Axis::Row,
                vec![DockTree::pane("left"), DockTree::pane("right").flex(flex(9.0))],
            ),
        ],
    ));
    assert_eq!(size_of(&layout, "right"), Some(PaneSize::Flex(flex(9.0))));
    assert_eq!(layout.root.find_pane("nope"), None);
}

#[test]
fn tree_errors_read_as_messages() {
    assert_eq!(
        TreeError::DuplicatePaneId("dup".into()).message(),
        "two panes share the id \"dup\"; pane ids must be unique"
    );
    assert_eq!(
        TreeError::DegenerateSplit(1).message(),
        "a split needs at least 2 children, got 1"
    );
    assert_eq!(default_version(), FORMAT_VERSION);
    assert_eq!(FORMAT_VERSION, 1);
}

// ── node ──────────────────────────────────────────────────────────────────

#[test]
fn pane_size_defaults_to_an_even_flex_weight() {
    assert_eq!(PaneSize::default(), PaneSize::Flex(flex(1.0)));
    assert_eq!(FLEX_ONE_BITS, 1.0f32.to_bits());
}

#[test]
fn a_fixed_node_has_no_flex_weight() {
    assert_eq!(PaneSize::Flex(flex(2.0)).flex(), Some(flex(2.0)));
    assert_eq!(PaneSize::Fixed(flex(40.0)).flex(), None);
}

#[test]
fn visibility_defaults_to_shown() {
    assert_eq!(PaneVisibility::default(), PaneVisibility::Shown);
    assert!(PaneVisibility::default().is_shown());
    assert!(!PaneVisibility::Hidden.is_shown());
}

#[test]
fn a_pane_id_can_be_built_from_anything_stringy() {
    assert_eq!(PaneId::new("browser").as_str(), "browser");
    assert_eq!(PaneId::new(&String::from("center")).as_str(), "center");
}

// ── mutate ────────────────────────────────────────────────────────────────

#[test]
fn removing_the_second_of_two_panes_collapses_the_split() {
    let mut layout = row(&["a", "b"]);
    let (root, removed) = remove_pane_from(layout.root, "b");
    layout.root = root;
    assert!(removed);
    assert!(matches!(layout.root, DockTree::Pane { .. }));
    assert_eq!(ids(&layout), ["a"]);
    assert_eq!(layout.validate(), Ok(()));
}

#[test]
fn collapsing_promotes_the_survivors_size() {
    let mut layout = DockLayout::new(DockTree::split(
        Axis::Column,
        vec![
            DockTree::pane("top"),
            DockTree::split(Axis::Row, vec![DockTree::pane("a"), DockTree::pane("b")]).flex(flex(5.0)),
        ],
    ));
    let (root, removed) = remove_pane_from(layout.root, "b");
    layout.root = root;
    assert!(removed);
    assert_eq!(size_of(&layout, "a"), Some(PaneSize::Flex(flex(5.0))));
}

#[test]
fn removing_one_of_three_leaves_the_split_intact() {
    let mut layout = row(&["a", "b", "c"]);
    let (root, removed) = remove_pane_from(layout.root, "b");
    layout.root = root;
    assert!(removed);
    assert!(matches!(layout.root, DockTree::Split { .. }));
    assert_eq!(ids(&layout), ["a", "c"]);
    assert_eq!(layout.validate(), Ok(()));
}

#[test]
fn removing_an_unknown_id_changes_nothing() {
    let mut layout = row(&["a", "b"]);
    let (root, removed) = remove_pane_from(layout.root, "nope");
    layout.root = root;
    assert!(!removed);
    assert_eq!(ids(&layout), ["a", "b"]);
}

#[test]
fn nested_removal_collapses_every_level_it_empties() {
    let mut layout = DockLayout::new(DockTree::split(
        Axis::Column,
        vec![
            DockTree::pane("keep"),
            DockTree::split(
                Axis::Row,
                vec![
                    DockTree::pane("x"),
                    DockTree::split(Axis::Column, vec![DockTree::pane("y"), DockTree::pane("z")]),
                ],
            ),
        ],
    ));
    let (root, removed_y) = remove_pane_from(layout.root, "y");
    let (root, removed_z) = remove_pane_from(root, "z");
    layout.root = root;
    assert!(removed_y && removed_z);
    assert_eq!(ids(&layout), ["keep", "x"]);
    assert_eq!(layout.validate(), Ok(()));
}

#[test]
fn replace_pane_swaps_a_leaf_for_a_split() {
    let mut layout = row(&["a", "b"]);
    let (root, replaced) = replace_pane(layout.root, "b", Axis::Column, Side::After, DockTree::pane("new"));
    layout.root = root;
    assert!(replaced);
    assert_eq!(ids(&layout), ["a", "b", "new"]);
    assert_eq!(layout.validate(), Ok(()));
}

#[test]
fn replace_pane_reports_a_miss() {
    let mut layout = row(&["a", "b"]);
    let (root, replaced) = replace_pane(layout.root, "nope", Axis::Row, Side::After, DockTree::pane("x"));
    layout.root = root;
    assert!(!replaced);
    assert_eq!(ids(&layout), ["a", "b"]);
}

#[test]
fn splitting_moving_and_removing_through_the_layout() {
    let mut layout = row(&["a", "b"]);
    assert!(layout.split_pane("b", Axis::Column, "c", Side::Before));
    assert_eq!(ids(&layout), ["a", "c", "b"]);
    assert!(!layout.split_pane("b", Axis::Column, "a", Side::After), "a duplicate id is refused");
    assert!(!layout.split_pane("nope", Axis::Column, "d", Side::After), "an unknown target is refused");
    assert!(layout.move_pane("a", "b", Axis::Row, Side::After));
    assert_eq!(ids(&layout), ["c", "b", "a"]);
    assert_eq!(layout.validate(), Ok(()));
    assert!(layout.remove_pane("c"));
    assert_eq!(ids(&layout), ["b", "a"]);
    assert!(!layout.remove_pane("c"));
    assert_eq!(layout.validate(), Ok(()));
}

#[test]
fn splitting_in_a_pane_and_removing_it_restores_the_pane_order() {
    let mut layout = DockLayout::new(DockTree::split(
        Axis::Row,
        vec![DockTree::pane("a"), DockTree::split(Axis::Column, vec![DockTree::pane("b"), DockTree::pane("c")])],
    ));
    let before = ids(&layout);
    assert!(layout.split_pane("b", Axis::Row, "n", Side::After));
    assert_eq!(ids(&layout), ["a", "b", "n", "c"]);
    assert!(layout.remove_pane("n"));
    assert_eq!(ids(&layout), before);
    assert_eq!(layout.validate(), Ok(()));
}

#[test]
fn a_runtime_split_comes_back_unchanged_from_apply() {
    let declared = row(&["a", "b"]);
    let mut live = row(&["a", "b"]);
    assert!(live.split_pane("a", Axis::Column, "scratch", Side::After));
    let saved = DockLayout::capture(Some(&live)).expect("a live layout with panes is captured");
    let applied = saved.apply(&declared).expect("the save is buildable");
    assert_eq!(applied.root, live.root);
    assert_eq!(ids(&applied), ["a", "scratch", "b"]);
}

// ── persist (keeping unknown panes) ──────────────────────────────────────

#[test]
fn persist_an_identical_save_reconciles_to_itself() {
    let declared = row(&["a", "b"]);
    let saved = row(&["a", "b"]);
    assert_eq!(saved.reconcile_against(&declared).root, saved.root);
}

#[test]
fn a_saved_pane_the_build_does_not_declare_is_kept() {
    let declared = row(&["a", "b"]);
    let saved = row(&["a", "b", "user_made"]);
    let out = saved.reconcile_against(&declared);
    assert_eq!(ids(&out), ["a", "b", "user_made"]);
    assert_eq!(out.validate(), Ok(()));
}

#[test]
fn a_host_can_prune_ids_it_knows_are_retired() {
    let mut saved = row(&["a", "b", "retired"]);
    let dropped = saved.retain_panes(|id| id != "retired");
    assert_eq!(dropped, ["retired"]);
    assert_eq!(ids(&saved), ["a", "b"]);
    assert_eq!(saved.validate(), Ok(()));
}

#[test]
fn pruning_everything_leaves_the_layout_alone() {
    let mut saved = row(&["a", "b"]);
    let dropped = saved.retain_panes(|_| false);
    assert!(dropped.is_empty());
    assert_eq!(ids(&saved), ["a", "b"]);
}

#[test]
fn pruning_collapses_a_split_it_empties() {
    let mut saved = DockLayout::new(DockTree::split(
        Axis::Column,
        vec![
            DockTree::pane("keep"),
            DockTree::split(Axis::Row, vec![DockTree::pane("x"), DockTree::pane("y")]).flex(flex(5.0)),
        ],
    ));
    saved.retain_panes(|id| id != "y");
    assert_eq!(ids(&saved), ["keep", "x"]);
    assert_eq!(size_of(&saved, "x"), Some(PaneSize::Flex(flex(5.0))));
    assert_eq!(saved.validate(), Ok(()));
}

#[test]
fn pruning_by_a_list_of_known_ids() {
    let mut saved = row(&["a", "b", "retired"]);
    let dropped = saved.retain_pane_ids(&vec!["a".to_string(), "b".to_string()]);
    assert_eq!(dropped, ["retired"]);
    assert_eq!(ids(&saved), ["a", "b"]);
}

#[test]
fn persist_a_saved_layout_missing_a_declared_pane_gains_it_back() {
    let declared = row(&["a", "b", "new"]);
    let saved = row(&["a", "b"]);
    let out = saved.reconcile_against(&declared);
    assert_eq!(ids(&out), ["a", "b", "new"]);
    assert_eq!(out.validate(), Ok(()));
}

#[test]
fn persist_a_new_pane_keeps_the_size_it_was_declared_with() {
    let declared = DockLayout::new(DockTree::split(
        Axis::Row,
        vec![DockTree::pane("a"), DockTree::pane("new").fixed(flex(40.0)).min_size(flex(10.0))],
    ));
    let saved = DockLayout::new(DockTree::pane("a"));
    let out = saved.reconcile_against(&declared);
    assert_eq!(size_of(&out, "new"), Some(PaneSize::Fixed(flex(40.0))));
}

#[test]
fn a_save_sharing_no_panes_gains_the_declared_ones_and_keeps_its_own() {
    let declared = row(&["a", "b"]);
    let saved = row(&["x", "y"]);
    let out = saved.reconcile_against(&declared);
    assert_eq!(ids(&out), ["x", "y", "a", "b"]);
    assert_eq!(out.validate(), Ok(()));
}

#[test]
fn persist_user_sizes_survive_reconciliation() {
    let declared = row(&["a", "b"]);
    let mut saved = row(&["a", "b"]);
    if let DockTree::Split { children, .. } = &mut saved.root {
        children[0] = DockTree::pane("a").flex(flex(3.7));
    }
    let out = saved.reconcile_against(&declared);
    assert_eq!(size_of(&out, "a"), Some(PaneSize::Flex(flex(3.7))));
}

#[test]
fn persist_capture_returns_none_before_anything_is_built() {
    assert!(DockLayout::capture(None).is_none());
    let empty = DockLayout::new(DockTree::split(Axis::Row, vec![]));
    assert!(DockLayout::capture(Some(&empty)).is_none(), "a tree with no panes is not saved");
}

#[test]
fn persist_capture_reads_the_live_layout() {
    let live = row(&["a", "b"]);
    let captured = DockLayout::capture(Some(&live)).expect("a built layout");
    assert_eq!(ids(&captured), ["a", "b"]);
}

#[test]
fn applying_a_broken_save_keeps_the_declared_layout() {
    let declared = row(&["a", "b"]);
    let broken = row(&["a", "a"]);
    assert!(broken.apply(&declared).is_none());
    let good = row(&["b", "a"]);
    let applied = good.apply(&declared).expect("a buildable save");
    assert_eq!(ids(&applied), ["b", "a"]);
}

// ── persist (dropping unknown panes) ─────────────────────────────────────

#[test]
fn an_identical_save_reconciles_to_itself() {
    let declared = row(&["a", "b"]);
    let saved = row(&["a", "b"]);
    assert_eq!(saved.reconcile_dropping_unknown(&declared).root, saved.root);
}

#[test]
fn a_saved_layout_naming_an_unknown_pane_drops_it() {
    let declared = row(&["a", "b"]);
    let saved = row(&["a", "b", "removed"]);
    let out = saved.reconcile_dropping_unknown(&declared);
    assert_eq!(ids(&out), ["a", "b"]);
    assert_eq!(out.validate(), Ok(()));
}

#[test]
fn a_saved_layout_missing_a_declared_pane_gains_it_back() {
    let declared = row(&["a", "b", "new"]);
    let saved = row(&["a", "b"]);
    let out = saved.reconcile_dropping_unknown(&declared);
    assert_eq!(ids(&out), ["a", "b", "new"]);
    assert_eq!(out.validate(), Ok(()));
}

#[test]
fn a_new_pane_keeps_the_size_it_was_declared_with() {
    let declared = DockLayout::new(DockTree::split(
        Axis::Row,
        vec![DockTree::pane("a"), DockTree::pane("new").fixed(flex(40.0)).min_size(flex(10.0))],
    ));
    let saved = DockLayout::new(DockTree::pane("a"));
    let out = saved.reconcile_dropping_unknown(&declared);
    assert_eq!(size_of(&out, "new"), Some(PaneSize::Fixed(flex(40.0))));
}

#[test]
fn dropping_a_pane_collapses_the_split_it_empties() {
    let declared = row(&["keep"]);
    let saved = DockLayout::new(DockTree::split(
        Axis::Column,
        vec![
            DockTree::pane("keep"),
            DockTree::split(Axis::Row, vec![DockTree::pane("gone_a"), DockTree::pane("gone_b")]),
        ],
    ));
    let out = saved.reconcile_dropping_unknown(&declared);
    assert_eq!(ids(&out), ["keep"]);
    assert_eq!(out.validate(), Ok(()));
}

#[test]
fn a_save_sharing_no_panes_falls_back_to_the_declared_tree() {
    let declared = row(&["a", "b"]);
    let saved = row(&["x", "y"]);
    let out = saved.reconcile_dropping_unknown(&declared);
    assert_eq!(ids(&out), ["a", "b"]);
}

#[test]
fn user_sizes_survive_reconciliation() {
    let declared = row(&["a", "b"]);
    let mut saved = row(&["a", "b"]);
    if let DockTree::Split { children, .. } = &mut saved.root {
        children[0] = DockTree::pane("a").flex(flex(3.7));
    }
    let out = saved.reconcile_dropping_unknown(&declared);
    assert_eq!(size_of(&out, "a"), Some(PaneSize::Flex(flex(3.7))));
}

#[test]
fn capture_returns_none_before_anything_is_built() {
    assert!(DockLayout::capture(None).is_none());
}

#[test]
fn capture_reads_the_live_layout() {
    let live = row(&["a", "b"]);
    let captured = DockLayout::capture(Some(&live)).expect("a built layout");
    assert_eq!(ids(&captured), ["a", "b"]);
    assert_eq!(captured.version, live.version);
}

// ── registry ──────────────────────────────────────────────────────────────

#[test]
fn a_registered_pane_is_found_by_id() {
    let mut registry = PaneRegistry::default();
    registry.insert(&PaneId::new("browser"), 7);
    assert_eq!(registry.get("browser"), Some(7));
    assert!(registry.contains("browser"));
    assert_eq!(registry.len(), 1);
}

#[test]
fn an_unknown_id_is_absent_rather_than_an_error() {
    let registry = PaneRegistry::default();
    assert_eq!(registry.get("nope"), None);
    assert!(registry.is_empty());
}

#[test]
fn clearing_drops_every_entry() {
    let mut registry = PaneRegistry::default();
    registry.insert(&PaneId::new("a"), 1);
    registry.insert(&PaneId::new("b"), 2);
    registry.clear();
    assert!(registry.is_empty());
}

#[test]
fn re_inserting_an_id_repoints_it() {
    let mut registry = PaneRegistry::default();
    registry.insert(&PaneId::new("a"), 1);
    registry.insert(&PaneId::new("a"), 2);
    assert_eq!(registry.get("a"), Some(2));
    assert_eq!(registry.len(), 1);
    assert_eq!(registry.pairs().len(), 1);
}

// ── pages ─────────────────────────────────────────────────────────────────

#[test]
fn active_page_matches_by_id() {
    let active = ActivePage::at("timeline");
    assert!(active.is("timeline"));
    assert!(!active.is("spectral"));
    assert!(!ActivePage::none().is("timeline"));
    assert_eq!(active.id(), Some("timeline"));
}

#[test]
fn resolve_falls_back_to_the_first_available_page() {
    let saved = ActivePage::at("retired");
    assert_eq!(saved.resolve(&["timeline", "spectral"]), Some("timeline"));
}

#[test]
fn resolve_keeps_a_page_that_still_exists() {
    let saved = ActivePage::at("spectral");
    assert_eq!(saved.resolve(&["timeline", "spectral"]), Some("spectral"));
}

#[test]
fn page_resolve_of_nothing_is_nothing() {
    assert_eq!(ActivePage::at("anything").resolve(&[]), None);
    assert_eq!(ActivePage::none().resolve(&[]), None);
}

#[test]
fn resolve_with_no_active_page_picks_the_first() {
    assert_eq!(ActivePage::none().resolve(&["a", "b"]), Some("a"));
}

#[test]
fn only_the_active_page_shows() {
    let mut active = ActivePage::default();
    assert!(!page_shown(&active, &PageId::new("timeline")));
    active.set("spectral");
    assert!(page_shown(&active, &PageId::new("spectral")));
    assert!(!page_shown(&active, &PageId::new("timeline")));
}

#[test]
fn active_center_mode_matches_by_id() {
    let active = ActiveCenterMode(Some("timeline"));
    assert!(active.is("timeline"));
    assert!(!active.is("spectral"));
    assert!(!ActiveCenterMode(None).is("timeline"));
}

#[test]
fn is_active_is_false_when_no_mode_resource_exists() {
    assert!(!center_mode_is_active(None, "timeline"));
    assert!(center_mode_is_active(Some(&ActiveCenterMode(Some("timeline"))), "timeline"));
}

// ── page strip ───────────────────────────────────────────────────────────

fn chip_ids(pages: &[(&str, i32)]) -> Vec<String> {
    let entries: Vec<(i32, String, ())> =
        pages.iter().map(|(id, order)| (*order, id.to_string(), ())).collect();
    order_by_declaration(entries).into_iter().map(|(_, id, _)| id).collect()
}

#[test]
fn a_chip_appears_for_every_page() {
    assert_eq!(chip_ids(&[("timeline", 10), ("spectral", 20)]), ["timeline", "spectral"]);
}

#[test]
fn chips_follow_page_order_not_spawn_order() {
    assert_eq!(chip_ids(&[("last", 30), ("first", 10), ("middle", 20)]), ["first", "middle", "last"]);
}

#[test]
fn equal_orders_break_ties_on_id() {
    assert_eq!(chip_ids(&[("b", 10), ("a", 10), ("c", 5)]), ["c", "a", "b"]);
}

#[test]
fn a_page_registered_after_the_strip_still_gets_a_chip() {
    let before = chip_ids(&[("timeline", 10)]);
    let after = chip_ids(&[("timeline", 10), ("spectral", 20)]);
    assert!(!same_ids(&before, &after), "the strip must rebuild");
    assert_eq!(after, ["timeline", "spectral"]);
}

#[test]
fn a_removed_page_takes_its_chip_with_it() {
    let before = chip_ids(&[("timeline", 10), ("doomed", 20)]);
    let after = chip_ids(&[("timeline", 10)]);
    assert!(!same_ids(&before, &after));
    assert_eq!(after, ["timeline"]);
}

#[test]
fn only_the_outer_corners_are_rounded() {
    let first = chip_corners(0, 3);
    let middle = chip_corners(1, 3);
    let last = chip_corners(2, 3);
    assert!(first.round_left && !first.round_right);
    assert!(!middle.round_left && !middle.round_right);
    assert!(!last.round_left && last.round_right);
}

#[test]
fn a_lone_chip_rounds_both_ends() {
    let only = chip_corners(0, 1);
    assert!(only.round_left && only.round_right);
}

#[test]
fn the_strip_reads_a_selection_it_did_not_make() {
    let active = ActivePage::at("spectral");
    assert!(page_shown(&active, &PageId::new("spectral")));
    assert!(!page_shown(&active, &PageId::new("timeline")));
}

#[test]
fn a_strip_whose_pages_did_not_change_keeps_its_chips() {
    let built = chip_ids(&[("a", 10), ("b", 20)]);
    let wanted = chip_ids(&[("b", 20), ("a", 10)]);
    assert!(same_ids(&built, &wanted));
}

#[test]
fn a_strip_charting_a_pane_with_no_pages_is_empty_not_broken() {
    assert!(chip_ids(&[]).is_empty());
}

// ── sections ──────────────────────────────────────────────────────────────

#[test]
fn frames_follow_order_not_declaration() {
    let declared = vec![
        (30, "late".to_string(), (1u64, true)),
        (10, "early".to_string(), (2u64, true)),
        (20, "middle".to_string(), (3u64, true)),
    ];
    let wanted = wanted_sections(declared);
    let ids: Vec<&str> = wanted.iter().map(|(id, _)| id.as_str()).collect();
    assert_eq!(ids, ["early", "middle", "late"]);
    assert_eq!(wanted[0].1, 2);
}

#[test]
fn a_gated_section_is_absent_rather_than_empty() {
    let declared = vec![
        (10, "shown".to_string(), (1u64, true)),
        (20, "gated".to_string(), (2u64, false)),
    ];
    let wanted = wanted_sections(declared);
    assert_eq!(wanted.len(), 1);
    assert_eq!(wanted[0].0, "shown");
}

#[test]
fn rows_default_to_a_declared_height() {
    let labelled = Row::labelled("Volume");
    assert_eq!(labelled.label(), Some("Volume"));
    assert_eq!(labelled.height(), RowHeight::Control);
    let grown = Row::full_width().grows();
    assert_eq!(grown.label(), None);
    assert_eq!(grown.height(), RowHeight::Content);
    assert_eq!(RowHeight::default(), RowHeight::Control);
}

// ── visibility ────────────────────────────────────────────────────────────

#[test]
fn hiding_a_pane_hides_its_divider() {
    // left, divider, right
    let siblings = [1u64, 2, 3];
    let dividers = [false, true, false];
    assert_eq!(adjacent_divider(&siblings, &dividers, 1), Some(2));
}

#[test]
fn hiding_the_last_child_hides_the_preceding_divider() {
    let siblings = [1u64, 2, 3];
    let dividers = [false, true, false];
    assert_eq!(adjacent_divider(&siblings, &dividers, 3), Some(2));
}

#[test]
fn a_lone_child_has_no_divider_to_hide() {
    assert_eq!(adjacent_divider(&[1u64], &[false], 1), None);
    assert_eq!(adjacent_divider(&[1u64], &[false], 9), None);
}

// ── window chrome ─────────────────────────────────────────────────────────

#[test]
fn the_default_reserves_room_only_where_the_os_overlaps() {
    assert_eq!(default_inset(Platform::MacOs).leading, MACOS_TRAFFIC_LIGHTS);
    assert_eq!(default_inset(Platform::Other).leading, BARE);
}

#[test]
fn the_inset_is_never_negative_or_absurd() {
    for v in [MACOS_TRAFFIC_LIGHTS, BARE] {
        assert!(v > 0 && v < 200, "{v} is not a plausible inset");
    }
}

#[test]
fn syncing_off_macos_touches_nothing_at_all() {
    assert_eq!(window_inset(Platform::Other, true).leading, BARE);
    assert_eq!(window_inset(Platform::Other, false).leading, BARE);
    assert_eq!(window_inset(Platform::MacOs, false).leading, BARE);
    assert_eq!(window_inset(Platform::MacOs, true).leading, MACOS_TRAFFIC_LIGHTS);
}

#[test]
fn clicking_a_chip_selects_its_page() {
    let mut active = ActivePage::none();
    active.set("spectral");
    assert_eq!(active.id(), Some("spectral"));
}

fn frame_ids(declared: &[(&str, i32, bool)]) -> Vec<String> {
    let entries: Vec<(i32, String, (u64, bool))> = declared
        .iter()
        .enumerate()
        .map(|(i, (id, order, open))| (*order, id.to_string(), (i as u64, *open)))
        .collect();
    wanted_sections(entries).into_iter().map(|(id, _)| id).collect()
}

#[test]
fn a_frame_appears_for_every_declared_section() {
    assert_eq!(frame_ids(&[("audio", 10, true), ("midi", 20, true)]), ["audio", "midi"]);
}

#[test]
fn a_section_declared_later_still_gets_a_frame() {
    let before = frame_ids(&[("audio", 10, true)]);
    let after = frame_ids(&[("audio", 10, true), ("midi", 20, true)]);
    assert!(!same_ids(&before, &after));
    assert_eq!(after, ["audio", "midi"]);
}

#[test]
fn a_gate_that_opens_brings_its_section_back() {
    assert_eq!(frame_ids(&[("audio", 10, true), ("midi", 20, false)]), ["audio"]);
    assert_eq!(frame_ids(&[("audio", 10, true), ("midi", 20, true)]), ["audio", "midi"]);
}

#[test]
fn a_settled_stack_is_not_rebuilt() {
    let built = frame_ids(&[("audio", 10, true), ("midi", 20, true)]);
    let wanted = frame_ids(&[("midi", 20, true), ("audio", 10, true)]);
    assert!(same_ids(&built, &wanted));
}

// ── assembly ──────────────────────────────────────────────────────────────

#[test]
fn n_children_produce_n_minus_one_dividers() {
    let slots = wiring(3);
    assert_eq!(slots, vec![Slot::Child(0), Slot::Divider, Slot::Child(1), Slot::Divider, Slot::Child(2)]);
    assert_eq!(slots.iter().filter(|s| **s == Slot::Divider).count(), 2);
    assert_eq!(wiring(1), vec![Slot::Child(0)]);
    assert!(wiring(0).is_empty());
}

#[test]
fn content_parented_into_a_pane_survives_a_layout_change() {
    let existing = vec![(10u64, PaneId::new("a")), (11u64, PaneId::new("b"))];
    let next = DockTree::split(Axis::Row, vec![DockTree::pane("a").flex(flex(3.0)), DockTree::pane("b")]);
    let kept = kept_panes(&existing, &next);
    assert_eq!(kept.len(), 2);
    assert_eq!(reused_entity(&kept, "a"), Some(10));
    assert_eq!(reused_entity(&kept, "b"), Some(11));
}

#[test]
fn a_pane_dropped_from_the_layout_takes_its_content_with_it() {
    let existing = vec![(10u64, PaneId::new("a")), (11u64, PaneId::new("doomed"))];
    let kept = kept_panes(&existing, &DockTree::pane("a"));
    assert_eq!(kept.len(), 1);
    assert_eq!(reused_entity(&kept, "doomed"), None, "a dropped pane is not reused");
    assert_eq!(reused_entity(&kept, "a"), Some(10));
}

#[test]
fn an_invalid_layout_is_refused_rather_than_half_built() {
    let layout = DockLayout::new(DockTree::split(Axis::Row, vec![DockTree::pane("dup"), DockTree::pane("dup")]));
    assert!(layout.validate().is_err(), "a duplicate id must build nothing");
}

#[test]
fn a_node_is_sized_along_its_parents_axis() {
    let flex_row = sized(PaneSize::Flex(flex(2.0)), Axis::Row);
    assert_eq!(flex_row, NodeSizing { main_is_width: true, grow: flex(2.0), shrinks: true, basis: 0 });
    let fixed_col = sized(PaneSize::Fixed(flex(40.0)), Axis::Column);
    assert_eq!(fixed_col, NodeSizing { main_is_width: false, grow: 0, shrinks: false, basis: flex(40.0) });
}

#[test]
fn entries_with_equal_keys_keep_the_order_they_came_in() {
    let entries = vec![
        (1, "b".to_string(), "first b"),
        (0, "a".to_string(), "first a"),
        (1, "b".to_string(), "second b"),
        (0, "a".to_string(), "second a"),
    ];
    let got: Vec<&str> = order_by_declaration(entries).into_iter().map(|e| e.2).collect();
    assert_eq!(got, ["first a", "second a", "first b", "second b"]);
}

#[test]
fn the_chosen_chip_is_painted_selected_whatever_the_pointer_does() {
    let pane = ActivePage::at("timeline");
    assert_eq!(chip_look(Some(&pane), "timeline", false), (ChipLook::Selected, true));
    assert_eq!(chip_look(Some(&pane), "timeline", true), (ChipLook::Selected, true));
    assert_eq!(chip_look(Some(&pane), "spectral", true), (ChipLook::Hovered, false));
    assert_eq!(chip_look(Some(&pane), "spectral", false), (ChipLook::Resting, false));
    assert_eq!(chip_look(None, "timeline", true), (ChipLook::Hovered, false));
}

#[test]
fn a_drag_writes_only_the_side_that_can_move() {
    assert_eq!(drag_write(false, false), DragWrite::TradeFlex);
    assert_eq!(drag_write(true, false), DragWrite::ResizePrev);
    assert_eq!(drag_write(false, true), DragWrite::ResizeNext);
    assert_eq!(drag_write(true, true), DragWrite::Nothing);
    assert_eq!(flanking(1, 3), Some((0, 2)));
    assert_eq!(flanking(0, 3), None);
    assert_eq!(flanking(2, 3), None);
}

#[test]
fn a_card_takes_its_title_from_the_first_section_with_its_id() {
    let sections = vec![
        ("audio".to_string(), "Audio"),
        ("plain".to_string(), ""),
        ("audio".to_string(), "Later audio"),
    ];
    assert_eq!(frame_title(&sections, "audio"), Some("Audio"));
    assert_eq!(frame_title(&sections, "plain"), None, "an empty label draws no title");
    assert_eq!(frame_title(&sections, "gone"), None);
}

#[test]
fn a_control_row_has_a_declared_height_and_a_growing_row_has_none() {
    let sizing = Sizing::default();
    assert_eq!(row_height(&Row::labelled("Gain"), ControlSize::Sm, &sizing), Some(28));
    assert_eq!(row_height(&Row::full_width(), ControlSize::Md, &sizing), Some(32));
    assert_eq!(row_height(&Row::labelled("Notes").grows(), ControlSize::Sm, &sizing), None);
    let body = body_style(Step::new(2), Step::new(1));
    assert_eq!(body.padding_x, Some(Step::new(2)));
    assert_eq!(body.row_gap, Some(Step::new(1)));
    assert_eq!(body.padding_y, None);
}

#[test]
fn the_chosen_chip_is_painted_apart_from_the_rest() {
    let pane = ActivePage::at("timeline");
    let chosen = chip_look(Some(&pane), "timeline", false);
    let other = chip_look(Some(&pane), "spectral", false);
    assert_ne!(chosen, other);
}

#[test]
fn pruning_keeps_the_listed_panes_and_reports_the_rest_in_order() {
    let tree = DockTree::split(
        Axis::Row,
        vec![DockTree::pane("a"), DockTree::split(Axis::Column, vec![DockTree::pane("b"), DockTree::pane("c")])],
    );
    let keep = vec!["a".to_string(), "c".to_string()];
    let mut dropped = vec!["earlier".to_string()];
    let pruned = tree.prune(&keep, &mut dropped).expect("something is kept");
    assert_eq!(pruned.pane_ids().iter().map(|p| p.0.clone()).collect::<Vec<_>>(), ["a", "c"]);
    assert_eq!(dropped, ["earlier", "b"]);
    assert_eq!(DockLayout::new(pruned).validate(), Ok(()), "the emptied split collapsed");
    let mut none_dropped = Vec::new();
    assert!(DockTree::pane("x").prune(&keep, &mut none_dropped).is_none());
    assert_eq!(none_dropped, ["x"]);
}

#[test]
fn appending_a_pane_puts_it_last_as_declared() {
    let declared = DockTree::split(Axis::Row, vec![DockTree::pane("a"), DockTree::pane("new").hidden()]);
    let root = append_pane(DockTree::pane("a"), &declared, &PaneId::new("new"));
    assert_eq!(root.pane_ids().iter().map(|p| p.0.clone()).collect::<Vec<_>>(), ["a", "new"]);
    assert!(matches!(
        root.find_pane("new"),
        Some(DockTree::Pane { visibility: PaneVisibility::Hidden, .. })
    ));
    let fresh = append_pane(root, &declared, &PaneId::new("extra"));
    assert!(matches!(
        fresh.find_pane("extra"),
        Some(DockTree::Pane { visibility: PaneVisibility::Shown, .. })
    ));
    assert_eq!(fresh.pane_ids().len(), 3);
}

#[test]
fn moving_works_in_a_tree_that_would_not_validate() {
    let mut layout = row(&["a", "b", "a", "c"]);
    assert!(layout.validate().is_err());
    assert!(layout.move_pane("c", "a", Axis::Column, Side::Before));
    assert_eq!(ids(&layout), ["c", "a", "b", "a"]);
}
