//! Control surfaces: one recipe instead of a copy per widget.
//!
//! A control's colours follow from three choices: whether it has a fill, an
//! edge, both or neither ([`Surface`]); which palette role it draws from
//! ([`Emphasis`]); and whether the pointer gives it a fill ([`Reactivity`]).
//! [`visuals`] resolves them to a [`SurfaceRecipe`]: for each state, which
//! palette colour is drawn and how far it is stepped away from the surface
//! behind. The host turns each [`Paint`] into a colour.

use vstd::prelude::*;

verus! {

/// Whether a control has a fill, an edge, both, or neither.
#[derive(Clone, Copy, PartialEq, Eq, Hash, Debug, Structural)]
pub enum Surface {
    /// A solid fill, no edge.
    Filled,
    /// No fill, a one-pixel edge.
    Outline,
    /// Neither: the control is its content until something happens.
    Bare,
}

/// Which palette role a control draws from.
#[derive(Clone, Copy, PartialEq, Eq, Hash, Debug, Structural)]
pub enum Emphasis {
    /// The one action a surface wants you to take.
    Primary,
    /// A real action, subordinate to the primary one.
    Secondary,
    /// Destructive and irreversible.
    Destructive,
    /// No weight of its own.
    Neutral,
}

/// Whether the pointer gets a fill in response.
#[derive(Clone, Copy, PartialEq, Eq, Hash, Debug, Structural)]
pub enum Reactivity {
    /// The pointer produces a fill.
    Fills,
    /// The pointer produces nothing here; feedback is the content's job.
    Inert,
}

impl Default for Surface {
    fn default() -> (r: Self)
        ensures
            r == Surface::Filled,
    {
        Surface::Filled
    }
}

impl Default for Emphasis {
    fn default() -> (r: Self)
        ensures
            r == Emphasis::Neutral,
    {
        Emphasis::Neutral
    }
}

impl Default for Reactivity {
    fn default() -> (r: Self)
        ensures
            r == Reactivity::Fills,
    {
        Reactivity::Fills
    }
}

/// A colour of the palette, by role.
#[derive(Clone, Copy, PartialEq, Eq, Hash, Debug, Structural)]
pub enum PaletteRole {
    Primary,
    PrimaryForeground,
    Secondary,
    SecondaryForeground,
    Destructive,
    DestructiveForeground,
    Muted,
    Foreground,
    Border,
}

/// How far a state moves a colour away from the surface behind it.
#[derive(Clone, Copy, PartialEq, Eq, Hash, Debug, Structural)]
pub enum StepAmount {
    /// Selected but not hovered: below hover, so hover still lifts away.
    Select,
    /// Under the pointer.
    Hover,
    /// Held: further in the same direction, never back.
    Press,
}

impl StepAmount {
    /// The amount in hundredths of the distance to the surface behind.
    pub open spec fn spec_hundredths(self) -> u8 {
        match self {
            StepAmount::Select => 4,
            StepAmount::Hover => 8,
            StepAmount::Press => 14,
        }
    }

    /// The amount in hundredths of the distance to the surface behind.
    pub fn hundredths(self) -> (r: u8)
        ensures
            r == self.spec_hundredths(),
    {
        match self {
            StepAmount::Select => 4,
            StepAmount::Hover => 8,
            StepAmount::Press => 14,
        }
    }
}

/// What is drawn: nothing, a palette colour, or a palette colour stepped
/// away from the surface behind.
#[derive(Clone, Copy, PartialEq, Eq, Hash, Debug, Structural)]
pub enum Paint {
    Nothing,
    Role(PaletteRole),
    Stepped(PaletteRole, StepAmount),
}

/// A control's paints in each state, its edge and its text.
#[derive(Clone, Copy, PartialEq, Eq, Debug, Structural)]
pub struct SurfaceRecipe {
    /// Fill at rest.
    pub fill: Paint,
    /// Fill under the pointer.
    pub fill_hover: Paint,
    /// Fill while held.
    pub fill_pressed: Paint,
    /// Fill when selected but not hovered.
    pub fill_selected: Paint,
    /// Edge at rest; `Paint::Nothing` when the surface has no edge.
    pub edge: Paint,
    /// Whether the edge is drawn: a one-pixel hairline, else none.
    pub has_edge: bool,
    /// Text and icon colour.
    pub text: Paint,
}

/// The resting fill for a filled control, and the hover fill for a reactive
/// fill-less one.
pub open spec fn spec_fill_role(e: Emphasis) -> PaletteRole {
    match e {
        Emphasis::Primary => PaletteRole::Primary,
        Emphasis::Secondary => PaletteRole::Secondary,
        Emphasis::Destructive => PaletteRole::Destructive,
        Emphasis::Neutral => PaletteRole::Muted,
    }
}

/// Text drawn on an emphasis's fill.
pub open spec fn spec_on_fill(e: Emphasis) -> PaletteRole {
    match e {
        Emphasis::Primary => PaletteRole::PrimaryForeground,
        Emphasis::Secondary => PaletteRole::SecondaryForeground,
        Emphasis::Destructive => PaletteRole::DestructiveForeground,
        Emphasis::Neutral => PaletteRole::Foreground,
    }
}

impl Emphasis {
    /// The role this emphasis fills with.
    pub fn fill(self) -> (r: PaletteRole)
        ensures
            r == spec_fill_role(self),
    {
        match self {
            Emphasis::Primary => PaletteRole::Primary,
            Emphasis::Secondary => PaletteRole::Secondary,
            Emphasis::Destructive => PaletteRole::Destructive,
            Emphasis::Neutral => PaletteRole::Muted,
        }
    }

    /// The role text takes on this emphasis's fill.
    pub fn on_fill(self) -> (r: PaletteRole)
        ensures
            r == spec_on_fill(self),
    {
        match self {
            Emphasis::Primary => PaletteRole::PrimaryForeground,
            Emphasis::Secondary => PaletteRole::SecondaryForeground,
            Emphasis::Destructive => PaletteRole::DestructiveForeground,
            Emphasis::Neutral => PaletteRole::Foreground,
        }
    }
}

/// The recipe for a control.
///
/// Filled: the role at rest, stepped by hover, press and selection. Outline
/// and bare: no resting fill, so the hover fill is the role itself; an inert
/// one gets no pointer fill but still shows selection. An outline draws the
/// border as a hairline edge. Text sits on the fill for a filled control, on
/// the page otherwise.
pub open spec fn recipe(surface: Surface, emphasis: Emphasis, reactivity: Reactivity) -> SurfaceRecipe {
    let role = spec_fill_role(emphasis);
    match surface {
        Surface::Filled => SurfaceRecipe {
            fill: Paint::Role(role),
            fill_hover: Paint::Stepped(role, StepAmount::Hover),
            fill_pressed: Paint::Stepped(role, StepAmount::Press),
            fill_selected: Paint::Stepped(role, StepAmount::Select),
            edge: Paint::Nothing,
            has_edge: false,
            text: Paint::Role(spec_on_fill(emphasis)),
        },
        _ => SurfaceRecipe {
            fill: Paint::Nothing,
            fill_hover: match reactivity {
                Reactivity::Fills => Paint::Role(role),
                Reactivity::Inert => Paint::Nothing,
            },
            fill_pressed: match reactivity {
                Reactivity::Fills => Paint::Stepped(role, StepAmount::Hover),
                Reactivity::Inert => Paint::Nothing,
            },
            fill_selected: Paint::Stepped(role, StepAmount::Select),
            edge: if surface == Surface::Outline {
                Paint::Role(PaletteRole::Border)
            } else {
                Paint::Nothing
            },
            has_edge: surface == Surface::Outline,
            text: Paint::Role(
                match emphasis {
                    Emphasis::Primary => PaletteRole::Primary,
                    Emphasis::Destructive => PaletteRole::Destructive,
                    _ => PaletteRole::Foreground,
                },
            ),
        },
    }
}

/// Resolve a control's paints from the three choices.
pub fn visuals(surface: Surface, emphasis: Emphasis, reactivity: Reactivity) -> (r: SurfaceRecipe)
    ensures
        r == recipe(surface, emphasis, reactivity),
        surface == Surface::Filled ==> match (r.fill, r.text) {
            (Paint::Role(f), Paint::Role(t)) => foreground_for(f) == Some(t) && t != f,
            _ => false,
        },
{
    proof {
        lemma_filled_text_reads_on_its_fill(emphasis, reactivity);
    }
    let role = emphasis.fill();
    match surface {
        Surface::Filled => SurfaceRecipe {
            fill: Paint::Role(role),
            fill_hover: Paint::Stepped(role, StepAmount::Hover),
            fill_pressed: Paint::Stepped(role, StepAmount::Press),
            fill_selected: Paint::Stepped(role, StepAmount::Select),
            edge: Paint::Nothing,
            has_edge: false,
            text: Paint::Role(emphasis.on_fill()),
        },
        _ => {
            let (hover, pressed) = match reactivity {
                Reactivity::Fills => (Paint::Role(role), Paint::Stepped(role, StepAmount::Hover)),
                Reactivity::Inert => (Paint::Nothing, Paint::Nothing),
            };
            let outline = surface == Surface::Outline;
            SurfaceRecipe {
                fill: Paint::Nothing,
                fill_hover: hover,
                fill_pressed: pressed,
                fill_selected: Paint::Stepped(role, StepAmount::Select),
                edge: if outline {
                    Paint::Role(PaletteRole::Border)
                } else {
                    Paint::Nothing
                },
                has_edge: outline,
                text: Paint::Role(
                    match emphasis {
                        Emphasis::Primary => PaletteRole::Primary,
                        Emphasis::Destructive => PaletteRole::Destructive,
                        _ => PaletteRole::Foreground,
                    },
                ),
            }
        },
    }
}

/// Which look a selectable entry takes (a chip in a page strip, an entry in
/// a settings sidebar).
#[derive(Clone, Copy, PartialEq, Eq, Hash, Debug, Structural)]
pub enum EntryState {
    /// The chosen one, whatever the pointer does.
    Selected,
    /// Under the pointer, not chosen.
    Hovered,
    /// Neither.
    Resting,
}

/// The look of an entry: selection wins over hover, so a hover cannot
/// un-paint the chosen entry.
pub fn entry_state(selected: bool, hovered: bool) -> (r: EntryState)
    ensures
        r == if selected {
            EntryState::Selected
        } else if hovered {
            EntryState::Hovered
        } else {
            EntryState::Resting
        },
{
    if selected {
        EntryState::Selected
    } else if hovered {
        EntryState::Hovered
    } else {
        EntryState::Resting
    }
}

/// The three amounts stay ordered: selection below hover below press.
pub proof fn lemma_amounts_ordered()
    ensures
        StepAmount::Select.spec_hundredths() < StepAmount::Hover.spec_hundredths(),
        StepAmount::Hover.spec_hundredths() < StepAmount::Press.spec_hundredths(),
{
}

/// Every control the grid can express shows selection, and a selected control
/// still changes under the pointer: the selected fill differs from the
/// resting fill and from the hover fill. A reactive control's hover and press
/// differ from its rest and from each other.
pub proof fn lemma_states_distinct(surface: Surface, emphasis: Emphasis, reactivity: Reactivity)
    ensures
        recipe(surface, emphasis, reactivity).fill_selected != recipe(surface, emphasis, reactivity).fill,
        recipe(surface, emphasis, reactivity).fill_selected != recipe(
            surface,
            emphasis,
            reactivity,
        ).fill_hover,
        surface == Surface::Filled || reactivity == Reactivity::Fills ==> {
            let r = recipe(surface, emphasis, reactivity);
            &&& r.fill != r.fill_hover
            &&& r.fill_hover != r.fill_pressed
            &&& r.fill != r.fill_pressed
        },
{
}


/// The palette's pairing of a fill role with the role text on it takes.
pub open spec fn foreground_for(fill: PaletteRole) -> Option<PaletteRole> {
    match fill {
        PaletteRole::Primary => Some(PaletteRole::PrimaryForeground),
        PaletteRole::Secondary => Some(PaletteRole::SecondaryForeground),
        PaletteRole::Destructive => Some(PaletteRole::DestructiveForeground),
        PaletteRole::Muted => Some(PaletteRole::Foreground),
        _ => None,
    }
}

/// A filled control's text reads on its fill: the fill is a role, the text
/// is that role's foreground, and so never the fill's own role.
pub proof fn lemma_filled_text_reads_on_its_fill(emphasis: Emphasis, reactivity: Reactivity)
    ensures
        match (recipe(Surface::Filled, emphasis, reactivity).fill, recipe(Surface::Filled, emphasis, reactivity).text) {
            (Paint::Role(f), Paint::Role(t)) => foreground_for(f) == Some(t) && t != f,
            _ => false,
        },
{
}

/// Distinct emphases look different when filled: neither their fills nor
/// their text share a role.
pub proof fn lemma_filled_emphases_differ(a: Emphasis, b: Emphasis, reactivity: Reactivity)
    requires
        a != b,
    ensures
        recipe(Surface::Filled, a, reactivity).fill != recipe(Surface::Filled, b, reactivity).fill,
        recipe(Surface::Filled, a, reactivity).text != recipe(Surface::Filled, b, reactivity).text,
{
}


/// How the states of a control relate. A filled control's hover, press and
/// selection fills all step its resting fill's role, each by its own amount.
/// Selection looks the same on every surface. A reactive control without a
/// resting fill hovers with the filled control's resting fill and presses
/// with its hover fill; an inert one takes no pointer fill. Only an outline
/// draws an edge.
pub proof fn lemma_states_step_the_resting_role(surface: Surface, emphasis: Emphasis, reactivity: Reactivity)
    ensures
        ({
            let v = recipe(surface, emphasis, reactivity);
            let filled = recipe(Surface::Filled, emphasis, reactivity);
            &&& filled.fill matches Paint::Role(f) && filled.fill_hover == Paint::Stepped(f, StepAmount::Hover)
                && filled.fill_pressed == Paint::Stepped(f, StepAmount::Press)
                && filled.fill_selected == Paint::Stepped(f, StepAmount::Select)
            &&& v.fill_selected == filled.fill_selected
            &&& surface != Surface::Filled ==> v.fill == Paint::Nothing
            &&& surface != Surface::Filled && reactivity == Reactivity::Fills ==> v.fill_hover == filled.fill
                && v.fill_pressed == filled.fill_hover
            &&& surface != Surface::Filled && reactivity == Reactivity::Inert ==> v.fill_hover == Paint::Nothing
                && v.fill_pressed == Paint::Nothing
            &&& v.has_edge == (surface == Surface::Outline)
            &&& v.has_edge == (v.edge != Paint::Nothing)
        }),
{
}


/// A control without a resting fill draws its text on the page: a primary
/// or destructive control in its accent (the filled control's fill), any
/// other in the page's foreground; never in a fill's foreground.
pub proof fn lemma_fill_less_text_sits_on_the_page(surface: Surface, emphasis: Emphasis, reactivity: Reactivity)
    requires
        surface != Surface::Filled,
    ensures
        (emphasis == Emphasis::Primary || emphasis == Emphasis::Destructive) ==> recipe(surface, emphasis, reactivity).text
            == recipe(Surface::Filled, emphasis, reactivity).fill,
        !(emphasis == Emphasis::Primary || emphasis == Emphasis::Destructive) ==> recipe(surface, emphasis, reactivity).text
            == Paint::Role(PaletteRole::Foreground),
        recipe(surface, emphasis, reactivity).text != recipe(Surface::Filled, emphasis, reactivity).text
            || emphasis == Emphasis::Neutral,
{
}

} // verus!
