//! The vocabulary of the dock tree: pane identity, sizing, visibility, axis.

use vstd::prelude::*;

verus! {

/// The IEEE-754 bit pattern of `1.0f32`: the default flex weight.
pub const FLEX_ONE_BITS: u32 = 0x3F80_0000;

/// Stable identity for one pane.
///
/// A string rather than a marker type because a pane's content lives in code
/// the dock cannot name. This is also the persistence key, which is why an
/// unrecognised id is survivable rather than fatal.
#[derive(Debug, PartialEq, Eq, Hash, PartialOrd, Ord)]
pub struct PaneId(pub String);

impl View for PaneId {
    type V = Seq<char>;

    open spec fn view(&self) -> Seq<char> {
        self.0@
    }
}

impl Clone for PaneId {
    fn clone(&self) -> (r: Self)
        ensures
            r == *self,
    {
        PaneId(self.0.clone())
    }
}

impl PaneId {
    /// An id with the given text.
    pub fn new(id: &str) -> (r: PaneId)
        ensures
            r@ == id@,
    {
        PaneId(id.to_owned())
    }

    /// Borrow the id as a string slice.
    pub fn as_str(&self) -> (r: &str)
        ensures
            r@ == self@,
    {
        self.0.as_str()
    }
}

/// How much of its parent split a node claims.
///
/// `Flex` is a weight relative to siblings; `Fixed` is logical pixels. Each
/// carries the bit pattern of the `f32` the host declared, so a size survives
/// every tree edit bit for bit.
#[derive(Debug, Clone, Copy, PartialEq, Eq, Structural)]
pub enum PaneSize {
    /// A flex weight (bits of an `f32`), relative to siblings in the same split.
    Flex(u32),
    /// A fixed extent in logical pixels (bits of an `f32`).
    Fixed(u32),
}

impl Default for PaneSize {
    fn default() -> (r: Self)
        ensures
            r == PaneSize::Flex(FLEX_ONE_BITS),
    {
        PaneSize::Flex(FLEX_ONE_BITS)
    }
}

impl PaneSize {
    /// The flex weight's bits, or `None` for a fixed node.
    pub fn flex(self) -> (r: Option<u32>)
        ensures
            r == (match self {
                PaneSize::Flex(w) => Some(w),
                PaneSize::Fixed(_) => None::<u32>,
            }),
    {
        match self {
            PaneSize::Flex(w) => Some(w),
            PaneSize::Fixed(_) => None,
        }
    }
}

/// Floor, in logical pixels (bits of an `f32`), below which a drag will not
/// shrink a node.
#[derive(Debug, Clone, Copy, PartialEq, Eq, Structural)]
pub struct PaneMinSize(pub u32);

/// Whether a node takes part in layout.
#[derive(Debug, Clone, Copy, PartialEq, Eq, Structural)]
pub enum PaneVisibility {
    /// Takes part in layout.
    Shown,
    /// Laid out as nothing, along with its adjacent divider.
    Hidden,
}

impl Default for PaneVisibility {
    fn default() -> (r: Self)
        ensures
            r == PaneVisibility::Shown,
    {
        PaneVisibility::Shown
    }
}

impl PaneVisibility {
    /// Whether this node takes part in layout.
    pub fn is_shown(self) -> (r: bool)
        ensures
            r <==> self == PaneVisibility::Shown,
    {
        match self {
            PaneVisibility::Shown => true,
            PaneVisibility::Hidden => false,
        }
    }
}

/// Which way a split divides its children.
#[derive(Debug, Clone, Copy, PartialEq, Eq, Structural)]
pub enum Axis {
    /// Children sit left-to-right; dividers drag horizontally.
    Row,
    /// Children sit top-to-bottom; dividers drag vertically.
    Column,
}

} // verus!
