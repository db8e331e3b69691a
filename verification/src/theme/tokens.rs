//! The named tokens a theme hands out: spacing read off the scale, and the
//! type ramp.

use vstd::prelude::*;

use super::base::Step;
use super::scale::{Scale, ScalePoint};

verus! {

/// The spacing ladder: the scale evaluated at the steps the named tokens sit
/// on. The step assignments are the only place the ladder is declared.
#[derive(Clone, Copy, Debug)]
pub struct SpacingPoints {
    /// Step −2.
    pub xxs: ScalePoint,
    /// Step 0: the base itself.
    pub xs: ScalePoint,
    /// Step 2.
    pub sm: ScalePoint,
    /// Step 4.
    pub md: ScalePoint,
    /// Step 5.
    pub lg: ScalePoint,
    /// Step 6.
    pub xl: ScalePoint,
    /// Step 7.
    pub xxl: ScalePoint,
    /// Step −2.
    pub corner_radius_micro: ScalePoint,
    /// Step 0.
    pub corner_radius_tiny: ScalePoint,
    /// Step 1.
    pub corner_radius_small: ScalePoint,
    /// Step 2.
    pub corner_radius: ScalePoint,
    /// Step 3.
    pub corner_radius_large: ScalePoint,
}

/// Evaluate the scale at the steps the named tokens sit on.
pub fn spacing_points(scale: Scale) -> (r: SpacingPoints)
    ensures
        r.xxs == scale.spec_at(Step::spec_new(-2i8)),
        r.xs == scale.spec_at(Step::spec_new(0)),
        r.sm == scale.spec_at(Step::spec_new(2)),
        r.md == scale.spec_at(Step::spec_new(4)),
        r.lg == scale.spec_at(Step::spec_new(5)),
        r.xl == scale.spec_at(Step::spec_new(6)),
        r.xxl == scale.spec_at(Step::spec_new(7)),
        r.corner_radius_micro == scale.spec_at(Step::spec_new(-2i8)),
        r.corner_radius_tiny == scale.spec_at(Step::spec_new(0)),
        r.corner_radius_small == scale.spec_at(Step::spec_new(1)),
        r.corner_radius == scale.spec_at(Step::spec_new(2)),
        r.corner_radius_large == scale.spec_at(Step::spec_new(3)),
{
    SpacingPoints {
        xxs: scale.at(Step::new(-2)),
        xs: scale.at(Step::new(0)),
        sm: scale.at(Step::new(2)),
        md: scale.at(Step::new(4)),
        lg: scale.at(Step::new(5)),
        xl: scale.at(Step::new(6)),
        xxl: scale.at(Step::new(7)),
        corner_radius_micro: scale.at(Step::new(-2)),
        corner_radius_tiny: scale.at(Step::new(0)),
        corner_radius_small: scale.at(Step::new(1)),
        corner_radius: scale.at(Step::new(2)),
        corner_radius_large: scale.at(Step::new(3)),
    }
}

/// How large text runs: the whole ramp shifted by a notch.
#[derive(Clone, Copy, PartialEq, Eq, Debug, Structural)]
pub enum TextScale {
    Small,
    Medium,
    Large,
}

impl Default for TextScale {
    fn default() -> (r: Self)
        ensures
            r == TextScale::Medium,
    {
        TextScale::Medium
    }
}

/// The type ramp, in whole logical pixels. Curated rather than generated:
/// type has to survive hinting and optical size, which no ratio models.
#[derive(Clone, Copy, PartialEq, Eq, Debug, Structural)]
pub struct TypeRamp {
    pub xxs: u8,
    pub xs: u8,
    pub sm: u8,
    pub base: u8,
    pub lg: u8,
    pub xl: u8,
    pub xxl: u8,
}

/// The shift a text scale applies to every entry of the medium ramp.
pub open spec fn ramp_shift(text: TextScale) -> int {
    match text {
        TextScale::Small => -2,
        TextScale::Medium => 0,
        TextScale::Large => 2,
    }
}

/// The ramp at a text scale: the medium ladder 8/10/12/14/16/18/24, every
/// entry shifted by the same signed amount, so the hand-picked gaps between
/// entries are kept.
pub fn type_ramp(text: TextScale) -> (r: TypeRamp)
    ensures
        r.xxs == 8 + ramp_shift(text),
        r.xs == 10 + ramp_shift(text),
        r.sm == 12 + ramp_shift(text),
        r.base == 14 + ramp_shift(text),
        r.lg == 16 + ramp_shift(text),
        r.xl == 18 + ramp_shift(text),
        r.xxl == 24 + ramp_shift(text),
{
    let medium = TypeRamp { xxs: 8, xs: 10, sm: 12, base: 14, lg: 16, xl: 18, xxl: 24 };
    match text {
        TextScale::Medium => medium,
        TextScale::Small => TypeRamp {
            xxs: medium.xxs - 2,
            xs: medium.xs - 2,
            sm: medium.sm - 2,
            base: medium.base - 2,
            lg: medium.lg - 2,
            xl: medium.xl - 2,
            xxl: medium.xxl - 2,
        },
        TextScale::Large => TypeRamp {
            xxs: medium.xxs + 2,
            xs: medium.xs + 2,
            sm: medium.sm + 2,
            base: medium.base + 2,
            lg: medium.lg + 2,
            xl: medium.xl + 2,
            xxl: medium.xxl + 2,
        },
    }
}


/// Each notch of text scale moves every entry of the ramp by the same two
/// pixels, with the medium ramp unshifted.
pub proof fn lemma_a_notch_is_two_pixels()
    ensures
        ramp_shift(TextScale::Medium) == 0,
        ramp_shift(TextScale::Large) - ramp_shift(TextScale::Medium) == 2,
        ramp_shift(TextScale::Medium) - ramp_shift(TextScale::Small) == 2,
{
}

} // verus!
