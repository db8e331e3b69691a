use shellie::theme::base::{Base, Step};
use shellie::theme::scale::{Scale, ScalePoint};
use shellie::theme::styled::{ControlSize, Sizing, StyledNode};
use shellie::theme::tokens::{TextScale, spacing_points, type_ramp};
use shellie::theme::surface::{
    Emphasis, EntryState, Paint, PaletteRole, Reactivity, StepAmount, Surface, entry_state, visuals,
};

/// A point's value in logical pixels.
fn px(p: ScalePoint) -> f32 {
    p.root as f32 * 2f32.powi(p.octave as i32)
}

fn every_base() -> Vec<Base> {
    (1u8..=127).filter_map(|n| Base::new(n * 2)).collect()
}

fn every_step() -> Vec<Step> {
    (-4i8..=8).map(Step::new).collect()
}

#[test]
fn an_odd_base_is_rejected() {
    for odd in [1u8, 3, 5, 7, 9, 15, 255] {
        assert!(Base::new(odd).is_none(), "{odd} is odd and must be refused");
    }
    for even in [2u8, 4, 6, 8, 12, 16, 254] {
        assert!(Base::new(even).is_some(), "{even} is even and usable");
    }
}

#[test]
fn a_zero_base_is_rejected() {
    assert!(Base::new(0).is_none());
}

#[test]
fn an_octave_is_two_steps() {
    assert_eq!(Step::base().octave_up(), Step::new(2));
    assert_eq!(Step::new(3).octave_down(), Step::new(1));
}

#[test]
fn stepping_saturates_rather_than_wrapping() {
    assert_eq!(Step::new(i8::MAX).octave_up(), Step::new(i8::MAX));
    assert_eq!(Step::new(i8::MIN).octave_down(), Step::new(i8::MIN));
}

#[test]
fn steps_order_by_index() {
    assert!(Step::new(-1) < Step::base());
    assert!(Step::base() < Step::new(1));
}

#[test]
fn an_octave_is_exactly_a_doubling() {
    for base in every_base() {
        let scale = Scale::new(base);
        for step in every_step() {
            let here = px(scale.at(step));
            let octave = px(scale.at(step.octave_up()));
            assert_eq!(octave, here * 2.0, "base {}, step {}", base.px(), step.index());
        }
    }
}

#[test]
fn every_valid_base_yields_whole_pixels() {
    for base in every_base() {
        let scale = Scale::new(base);
        for step in (0i8..=8).map(Step::new) {
            let v = px(scale.at(step));
            assert_eq!(v.fract(), 0.0, "base {} step {} gave {v}", base.px(), step.index());
        }
    }
}

#[test]
fn an_odd_base_would_have_gone_fractional() {
    let odd_strand = 3.0f32 * 1.5;
    assert_eq!(odd_strand, 4.5, "step 1 from base 3 is a half-pixel");
    assert_ne!(odd_strand.fract(), 0.0);
}

#[test]
fn the_strands_interleave_as_documented() {
    let scale = Scale::new(Base::four());
    let got: Vec<f32> = (0i8..8).map(|n| px(scale.at(Step::new(n)))).collect();
    assert_eq!(got, vec![4.0, 6.0, 8.0, 12.0, 16.0, 24.0, 32.0, 48.0]);
}

#[test]
fn steps_below_the_base_continue_the_pattern() {
    let scale = Scale::new(Base::four());
    assert_eq!(px(scale.at(Step::new(-1))), 3.0);
    assert_eq!(px(scale.at(Step::new(-2))), 2.0);
    assert_eq!(px(scale.at(Step::new(-3))), 1.5);

    let mut prev = f32::NEG_INFINITY;
    for step in every_step() {
        let v = px(scale.at(step));
        assert!(v > prev, "step {} broke monotonicity", step.index());
        prev = v;
    }
}

#[test]
fn stepping_twice_is_not_stepping_by_two() {
    let scale = Scale::new(Base::four());
    let once_then_once = px(scale.at(Step::new(1))) * 1.5;
    let straight_to_two = px(scale.at(Step::new(2)));
    assert_ne!(once_then_once, straight_to_two);
}

#[test]
fn the_scale_is_not_closed_under_addition() {
    let scale = Scale::new(Base::four());
    let members: Vec<f32> = (0i8..6).map(|n| px(scale.at(Step::new(n)))).collect();
    let off_scale = members
        .iter()
        .flat_map(|a| members.iter().map(move |b| a + b))
        .filter(|sum| !members.contains(sum))
        .count();
    assert!(off_scale > 0);
}

#[test]
fn radii_come_off_the_same_scale_as_gaps() {
    let scale = Scale::new(Base::four());
    for step in every_step() {
        assert_eq!(px(scale.radius_at(step)), px(scale.at(step)));
    }
}

#[test]
fn the_eight_base_scale_has_exact_points() {
    let scale = Scale::new(Base::eight());
    assert_eq!(scale.at(Step::new(1)), ScalePoint { root: 12, octave: 0 });
    assert_eq!(scale.at(Step::new(-1)), ScalePoint { root: 12, octave: -1 });
    assert_eq!(scale.at(Step::new(5)), ScalePoint { root: 12, octave: 2 });
    assert_eq!(scale.base().px(), 8);
}

#[test]
fn a_styled_node_resolves_only_what_it_declares() {
    let scale = Scale::new(Base::four());
    let node = StyledNode::new().padding(Step::new(2)).radius(Step::new(1)).height(ControlSize::Lg);
    let points = node.resolve(scale, &Sizing::default());
    assert_eq!(points.padding_x.map(px), Some(8.0));
    assert_eq!(points.padding_y.map(px), Some(8.0));
    assert_eq!(points.radius.map(px), Some(6.0));
    assert_eq!(points.column_gap, None);
    assert_eq!(points.row_gap, None);
    assert_eq!(points.width, None);
    assert_eq!(points.height, Some(ScalePoint { root: 44, octave: 0 }));
    assert_eq!(ControlSize::default(), ControlSize::Md);
}

#[test]
fn a_filled_control_steps_its_role_for_each_state() {
    let r = visuals(Surface::Filled, Emphasis::Primary, Reactivity::Fills);
    assert_eq!(r.fill, Paint::Role(PaletteRole::Primary));
    assert_eq!(r.fill_hover, Paint::Stepped(PaletteRole::Primary, StepAmount::Hover));
    assert_eq!(r.fill_pressed, Paint::Stepped(PaletteRole::Primary, StepAmount::Press));
    assert_eq!(r.fill_selected, Paint::Stepped(PaletteRole::Primary, StepAmount::Select));
    assert_eq!(r.edge, Paint::Nothing);
    assert!(!r.has_edge);
    assert_eq!(r.text, Paint::Role(PaletteRole::PrimaryForeground));
}

#[test]
fn an_outline_control_draws_the_border_and_text_on_the_page() {
    let r = visuals(Surface::Outline, Emphasis::Neutral, Reactivity::Fills);
    assert_eq!(r.fill, Paint::Nothing);
    assert_eq!(r.fill_hover, Paint::Role(PaletteRole::Muted));
    assert_eq!(r.edge, Paint::Role(PaletteRole::Border));
    assert!(r.has_edge);
    assert_eq!(r.text, Paint::Role(PaletteRole::Foreground));
}

#[test]
fn an_inert_bare_control_still_shows_selection() {
    let r = visuals(Surface::Bare, Emphasis::Destructive, Reactivity::Inert);
    assert_eq!(r.fill_hover, Paint::Nothing);
    assert_eq!(r.fill_pressed, Paint::Nothing);
    assert_eq!(r.fill_selected, Paint::Stepped(PaletteRole::Destructive, StepAmount::Select));
    assert_eq!(r.text, Paint::Role(PaletteRole::Destructive));
    assert!(!r.has_edge);
}

#[test]
fn the_step_amounts_are_ordered() {
    assert_eq!(StepAmount::Select.hundredths(), 4);
    assert_eq!(StepAmount::Hover.hundredths(), 8);
    assert_eq!(StepAmount::Press.hundredths(), 14);
    assert_eq!(Surface::default(), Surface::Filled);
    assert_eq!(Emphasis::default(), Emphasis::Neutral);
    assert_eq!(Reactivity::default(), Reactivity::Fills);
}

#[test]
fn the_default_spacing_reproduces_the_shipped_ladder() {
    let s = spacing_points(Scale::new(Base::default()));
    let got: Vec<f32> = [s.xxs, s.xs, s.sm, s.md, s.lg, s.xl, s.xxl].into_iter().map(px).collect();
    assert_eq!(got, vec![2.0, 4.0, 8.0, 16.0, 24.0, 32.0, 48.0]);
    let radii: Vec<f32> = [
        s.corner_radius_micro,
        s.corner_radius_tiny,
        s.corner_radius_small,
        s.corner_radius,
        s.corner_radius_large,
    ]
    .into_iter()
    .map(px)
    .collect();
    assert_eq!(radii, vec![2.0, 4.0, 6.0, 8.0, 12.0]);
}

#[test]
fn the_type_ramp_shifts_by_a_notch() {
    let m = type_ramp(TextScale::default());
    assert_eq!([m.xxs, m.xs, m.sm, m.base, m.lg, m.xl, m.xxl], [8, 10, 12, 14, 16, 18, 24]);
    let s = type_ramp(TextScale::Small);
    assert_eq!([s.xxs, s.xs, s.sm, s.base, s.lg, s.xl, s.xxl], [6, 8, 10, 12, 14, 16, 22]);
    let l = type_ramp(TextScale::Large);
    assert_eq!([l.xxs, l.xxl], [10, 26]);
}

#[test]
fn the_generated_spacing_reproduces_the_shipped_values() {
    let s = spacing_points(Scale::new(Base::default()));
    assert_eq!(
        (px(s.xxs), px(s.xs), px(s.sm), px(s.md), px(s.lg), px(s.xl), px(s.xxl)),
        (2.0, 4.0, 8.0, 16.0, 24.0, 32.0, 48.0)
    );
    assert_eq!(
        (
            px(s.corner_radius_micro),
            px(s.corner_radius_tiny),
            px(s.corner_radius_small),
            px(s.corner_radius),
            px(s.corner_radius_large),
        ),
        (2.0, 4.0, 6.0, 8.0, 12.0)
    );
}

#[test]
fn the_odd_radius_is_the_second_strand() {
    let scale = Scale::new(Base::four());
    assert_eq!(px(scale.at(Step::new(1))), 6.0);
    assert_eq!(px(spacing_points(scale).corner_radius_small), 6.0);
}

#[test]
fn a_coarser_base_scales_the_whole_ladder() {
    let s = spacing_points(Scale::new(Base::eight()));
    let four = spacing_points(Scale::new(Base::default()));
    assert_eq!(px(s.xs), px(four.xs) * 2.0);
    assert_eq!(px(s.sm), px(four.sm) * 2.0);
    assert_eq!(px(s.md), px(four.md) * 2.0);
    assert_eq!(px(s.corner_radius_small), px(four.corner_radius_small) * 2.0);
}

#[test]
fn the_default_typography_is_unchanged() {
    let t = type_ramp(TextScale::default());
    assert_eq!((t.xxs, t.xs, t.sm, t.base, t.lg, t.xl, t.xxl), (8, 10, 12, 14, 16, 18, 24));
}

#[test]
fn the_text_scale_shifts_the_ramp_and_keeps_its_steps() {
    let med = type_ramp(TextScale::Medium);
    let big = type_ramp(TextScale::Large);
    assert_eq!(big.base - med.base, 2);
    assert_eq!(big.sm - med.sm, big.lg - med.lg);
    let small = type_ramp(TextScale::Small);
    assert!(small.xxs > 0, "no entry may shift to zero or below");
}

#[test]
fn a_declared_step_becomes_a_pixel_value() {
    let points = StyledNode::new().padding_x(Step::new(2)).resolve(Scale::new(Base::four()), &Sizing::default());
    assert_eq!(points.padding_x.map(px), Some(8.0));
    assert_eq!(points.padding_y, None, "untouched, because the declaration said nothing");
}

#[test]
fn an_undeclared_field_is_left_alone() {
    let points = StyledNode::new().radius(Step::new(1)).resolve(Scale::new(Base::four()), &Sizing::default());
    assert_eq!(points.radius.map(px), Some(6.0));
    assert_eq!(points.padding_x, None);
    assert_eq!(points.height, None);
    assert_eq!(points.width, None);
}

#[test]
fn a_square_sets_both_axes() {
    let points = StyledNode::new().square(Step::new(3)).resolve(Scale::new(Base::four()), &Sizing::default());
    assert_eq!(points.width.map(px), Some(12.0));
    assert_eq!(points.height.map(px), Some(12.0));
}

#[test]
fn every_styled_node_follows_a_base_change() {
    let node = StyledNode::new().padding(Step::new(2)).column_gap(Step::new(0)).row_gap(Step::new(1));
    let four = node.resolve(Scale::new(Base::four()), &Sizing::default());
    let eight = node.resolve(Scale::new(Base::eight()), &Sizing::default());
    assert_eq!(eight.padding_x.map(px), four.padding_x.map(|p| px(p) * 2.0));
    assert_eq!(eight.column_gap.map(px), four.column_gap.map(|p| px(p) * 2.0));
    assert_eq!(eight.row_gap.map(px), four.row_gap.map(|p| px(p) * 2.0));
}

#[test]
fn an_inert_control_ignores_the_pointer_but_not_selection() {
    for surface in [Surface::Outline, Surface::Bare] {
        for emphasis in [Emphasis::Primary, Emphasis::Secondary, Emphasis::Destructive, Emphasis::Neutral] {
            let r = visuals(surface, emphasis, Reactivity::Inert);
            assert_eq!(r.fill_hover, Paint::Nothing);
            assert_eq!(r.fill_pressed, Paint::Nothing);
            assert_ne!(r.fill_selected, Paint::Nothing);
        }
    }
}

#[test]
fn an_edge_and_its_width_agree() {
    for surface in [Surface::Filled, Surface::Outline, Surface::Bare] {
        for reactivity in [Reactivity::Fills, Reactivity::Inert] {
            let r = visuals(surface, Emphasis::Neutral, reactivity);
            assert_eq!(r.has_edge, r.edge != Paint::Nothing);
        }
    }
}

#[test]
fn every_reactive_combination_gives_three_distinct_fills() {
    for surface in [Surface::Filled, Surface::Outline, Surface::Bare] {
        for emphasis in [Emphasis::Primary, Emphasis::Secondary, Emphasis::Destructive, Emphasis::Neutral] {
            let r = visuals(surface, emphasis, Reactivity::Fills);
            assert_ne!(r.fill, r.fill_hover);
            assert_ne!(r.fill_hover, r.fill_pressed);
            assert_ne!(r.fill, r.fill_pressed);
            assert_ne!(r.fill_selected, r.fill_hover);
        }
    }
}

#[test]
fn selection_wins_over_hover() {
    assert_eq!(entry_state(true, true), EntryState::Selected);
    assert_eq!(entry_state(true, false), EntryState::Selected);
    assert_eq!(entry_state(false, true), EntryState::Hovered);
    assert_eq!(entry_state(false, false), EntryState::Resting);
}

#[test]
fn the_default_scale_is_on_the_default_base() {
    assert_eq!(Scale::default().base(), Base::four());
    assert_eq!(Scale::new(Base::default()), Scale::default());
    assert_eq!(Scale::new(Base::eight()).base(), Base::eight());
    assert_ne!(Scale::new(Base::eight()), Scale::default());
}

#[test]
fn a_control_height_resolves_through_the_declared_sizes() {
    let scale = Scale::new(Base::four());
    let sizing = Sizing::default();
    assert_eq!(sizing.get(ControlSize::Sm), 28);
    let small = StyledNode::new().height(ControlSize::Sm).resolve(scale, &sizing);
    assert_eq!(small.height, Some(ScalePoint { root: 28, octave: 0 }));
    assert_eq!(small.width, None);
    let tall = Sizing { control_sm: 32, control_md: 36, control_lg: 48 };
    let md = StyledNode::new().height(ControlSize::Md).resolve(scale, &tall);
    assert_eq!(md.height, Some(ScalePoint { root: 36, octave: 0 }));
    // A square box sets both sides, and its side wins over a control height.
    let boxed = StyledNode::new().height(ControlSize::Lg).square(Step::new(4)).resolve(scale, &sizing);
    assert_eq!(boxed.width, Some(scale.at(Step::new(4))));
    assert_eq!(boxed.height, Some(scale.at(Step::new(4))));
    assert_eq!(px(boxed.height.unwrap()), 16.0);
    let padded = StyledNode::new().padding_x(Step::new(2)).resolve(scale, &sizing);
    assert_eq!(px(padded.padding_x.unwrap()), 8.0);
    assert_eq!(padded.height, None);
}

#[test]
fn text_answers_to_whatever_is_actually_behind_it() {
    let filled = visuals(Surface::Filled, Emphasis::Primary, Reactivity::Fills);
    assert_eq!(filled.text, Paint::Role(PaletteRole::PrimaryForeground));
    let bare = visuals(Surface::Bare, Emphasis::Primary, Reactivity::Fills);
    assert_eq!(bare.text, Paint::Role(PaletteRole::Primary));
}
