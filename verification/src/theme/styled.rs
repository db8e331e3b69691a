//! Declaring a node's spacing on the scale rather than in pixels.
//!
//! A [`StyledNode`] names steps and a control size; resolving it against a
//! [`Scale`] gives each declared field its exact scale point, which the host
//! writes into its layout node. Fields left unset are left alone.

use vstd::prelude::*;

use super::base::Step;
use super::scale::{Scale, ScalePoint};

verus! {

/// Which of the three declared control heights a widget wants. Two controls
/// sharing a size sit on the same baseline in a row.
#[derive(Clone, Copy, PartialEq, Eq, Debug, Structural)]
pub enum ControlSize {
    /// Dense rows: menu items, list rows, compact toolbars.
    Sm,
    /// The default: buttons, inputs, selects.
    Md,
    /// Title bars and primary actions.
    Lg,
}

impl Default for ControlSize {
    fn default() -> (r: Self)
        ensures
            r == ControlSize::Md,
    {
        ControlSize::Md
    }
}

/// The declared control heights, in whole logical pixels.
///
/// Declared, not generated: a control height answers to hit targets, so it
/// stays put when the spacing grid gets coarser.
#[derive(Clone, Copy, PartialEq, Eq, Structural, Debug)]
pub struct Sizing {
    /// Dense rows.
    pub control_sm: u16,
    /// Buttons, inputs, selects.
    pub control_md: u16,
    /// Title bars and primary actions.
    pub control_lg: u16,
}

/// The declared height for a control size.
pub open spec fn control_height(sizing: Sizing, size: ControlSize) -> u16 {
    match size {
        ControlSize::Sm => sizing.control_sm,
        ControlSize::Md => sizing.control_md,
        ControlSize::Lg => sizing.control_lg,
    }
}

impl Sizing {
    /// The declared height for a control size.
    pub fn get(&self, size: ControlSize) -> (r: u16)
        ensures
            r == control_height(*self, size),
    {
        match size {
            ControlSize::Sm => self.control_sm,
            ControlSize::Md => self.control_md,
            ControlSize::Lg => self.control_lg,
        }
    }
}

/// The heights in use by default: 28, 32 and 44.
impl Default for Sizing {
    fn default() -> (r: Self)
        ensures
            r.control_sm == 28 && r.control_md == 32 && r.control_lg == 44,
    {
        Sizing { control_sm: 28, control_md: 32, control_lg: 44 }
    }
}

/// Spacing and size declared on the scale.
#[derive(Clone, Copy, Debug)]
pub struct StyledNode {
    /// Left and right padding.
    pub padding_x: Option<Step>,
    /// Top and bottom padding.
    pub padding_y: Option<Step>,
    /// Gap between children in a row.
    pub column_gap: Option<Step>,
    /// Gap between children in a column.
    pub row_gap: Option<Step>,
    /// Corner radius.
    pub radius: Option<Step>,
    /// Height from a declared control size.
    pub height: Option<ControlSize>,
    /// A square box, width and height both, for icons and glyph slots.
    pub square: Option<Step>,
}

impl StyledNode {
    /// A declaration with nothing set.
    pub fn new() -> (r: Self)
        ensures
            r.padding_x is None && r.padding_y is None && r.column_gap is None && r.row_gap is None
                && r.radius is None && r.height is None && r.square is None,
    {
        StyledNode {
            padding_x: None,
            padding_y: None,
            column_gap: None,
            row_gap: None,
            radius: None,
            height: None,
            square: None,
        }
    }

    /// Horizontal padding at `step`.
    pub fn padding_x(self, step: Step) -> (r: Self)
        ensures
            r == (StyledNode { padding_x: Some(step), ..self }),
    {
        StyledNode { padding_x: Some(step), ..self }
    }

    /// Vertical padding at `step`.
    pub fn padding_y(self, step: Step) -> (r: Self)
        ensures
            r == (StyledNode { padding_y: Some(step), ..self }),
    {
        StyledNode { padding_y: Some(step), ..self }
    }

    /// Padding on both axes at `step`.
    pub fn padding(self, step: Step) -> (r: Self)
        ensures
            r == (StyledNode { padding_x: Some(step), padding_y: Some(step), ..self }),
    {
        self.padding_x(step).padding_y(step)
    }

    /// Row-direction gap at `step`.
    pub fn column_gap(self, step: Step) -> (r: Self)
        ensures
            r == (StyledNode { column_gap: Some(step), ..self }),
    {
        StyledNode { column_gap: Some(step), ..self }
    }

    /// Column-direction gap at `step`.
    pub fn row_gap(self, step: Step) -> (r: Self)
        ensures
            r == (StyledNode { row_gap: Some(step), ..self }),
    {
        StyledNode { row_gap: Some(step), ..self }
    }

    /// Corner radius at `step`.
    pub fn radius(self, step: Step) -> (r: Self)
        ensures
            r == (StyledNode { radius: Some(step), ..self }),
    {
        StyledNode { radius: Some(step), ..self }
    }

    /// Height from a declared control size.
    pub fn height(self, size: ControlSize) -> (r: Self)
        ensures
            r == (StyledNode { height: Some(size), ..self }),
    {
        StyledNode { height: Some(size), ..self }
    }

    /// A square box at `step`, width and height together.
    pub fn square(self, step: Step) -> (r: Self)
        ensures
            r == (StyledNode { square: Some(step), ..self }),
    {
        StyledNode { square: Some(step), ..self }
    }

    /// Each declared field resolved: steps on `scale`, a control height
    /// through `sizing`. A square box sets both width and height, and its
    /// height wins over a control height declared beside it.
    pub fn resolve(&self, scale: Scale, sizing: &Sizing) -> (r: StyledPoints)
        ensures
            r.padding_x == opt_at(scale, self.padding_x),
            r.padding_y == opt_at(scale, self.padding_y),
            r.column_gap == opt_at(scale, self.column_gap),
            r.row_gap == opt_at(scale, self.row_gap),
            r.radius == opt_at(scale, self.radius),
            r.width == opt_at(scale, self.square),
            r.height == resolved_height(scale, *sizing, self.height, self.square),
    {
        let height = match self.square {
            Some(step) => Some(scale.at(step)),
            None => match self.height {
                Some(size) => Some(ScalePoint { root: sizing.get(size), octave: 0 }),
                None => None,
            },
        };
        StyledPoints {
            padding_x: at_opt(scale, self.padding_x),
            padding_y: at_opt(scale, self.padding_y),
            column_gap: at_opt(scale, self.column_gap),
            row_gap: at_opt(scale, self.row_gap),
            radius: at_opt(scale, self.radius),
            width: at_opt(scale, self.square),
            height,
        }
    }
}

impl Default for StyledNode {
    fn default() -> (r: Self)
        ensures
            r.padding_x is None && r.padding_y is None && r.column_gap is None && r.row_gap is None
                && r.radius is None && r.height is None && r.square is None,
    {
        StyledNode::new()
    }
}

/// The height a node resolves to: a square box's side where one is declared,
/// else the declared control height in whole pixels, else none.
pub open spec fn resolved_height(
    scale: Scale,
    sizing: Sizing,
    height: Option<ControlSize>,
    square: Option<Step>,
) -> Option<ScalePoint> {
    match square {
        Some(step) => Some(scale.spec_at(step)),
        None => match height {
            Some(size) => Some(ScalePoint { root: control_height(sizing, size), octave: 0 }),
            None => None,
        },
    }
}

/// A declared step's point on the scale, if one was declared.
pub open spec fn opt_at(scale: Scale, step: Option<Step>) -> Option<ScalePoint> {
    match step {
        Some(s) => Some(scale.spec_at(s)),
        None => None,
    }
}

fn at_opt(scale: Scale, step: Option<Step>) -> (r: Option<ScalePoint>)
    ensures
        r == opt_at(scale, step),
{
    match step {
        Some(s) => Some(scale.at(s)),
        None => None,
    }
}

/// A [`StyledNode`] resolved on a scale: each declared field's exact point.
#[derive(Clone, Copy, Debug)]
pub struct StyledPoints {
    pub padding_x: Option<ScalePoint>,
    pub padding_y: Option<ScalePoint>,
    pub column_gap: Option<ScalePoint>,
    pub row_gap: Option<ScalePoint>,
    pub radius: Option<ScalePoint>,
    pub width: Option<ScalePoint>,
    pub height: Option<ScalePoint>,
}

} // verus!
