//! The two things a scale is built from: a base, and an index into it.
//!
//! [`Base`] is the one number a whole layout is derived from. [`Step`] is a
//! position on the scale, not a length: it has an order and named moves, but no
//! addition, because the ratio applied at each position depends on that
//! position's parity rather than on the distance travelled.

use vstd::prelude::*;

verus! {

/// The unit a spacing scale is generated from, in logical pixels.
///
/// Only even, non-zero values are bases: the second strand of the scale sits
/// at ×3/2 of the first, and an odd base would put it on a half pixel at the
/// very first step; zero would make every step zero.
#[derive(Clone, Copy, PartialEq, Eq, Structural, PartialOrd, Ord, Hash, Debug)]
pub struct Base(u8);

impl Base {
    /// Whether `px` can be a base: even and non-zero.
    pub open spec fn is_valid_px(px: u8) -> bool {
        px != 0 && px % 2 == 0
    }

    /// The base in logical pixels.
    pub closed spec fn spec_px(self) -> u8 {
        self.0
    }

    /// Every base that exists satisfies the constructor's rule.
    pub closed spec fn wf(self) -> bool {
        Self::is_valid_px(self.0)
    }

    /// Two bases are equal exactly when they are the same number of pixels.
    pub proof fn lemma_eq_by_px(a: Base, b: Base)
        ensures
            (a == b) <==> (a.spec_px() == b.spec_px()),
    {
    }

    /// Proof that a base built by this module is valid.
    pub proof fn lemma_valid(self)
        requires
            self.wf(),
        ensures
            Self::is_valid_px(self.spec_px()),
    {
    }

    /// The near-universal UI grid unit, and the default base: 4.
    pub fn four() -> (b: Base)
        ensures
            b.spec_px() == 4,
            b.wf(),
    {
        Base(4)
    }

    /// A coarser grid, for layouts that want fewer distinct sizes: 8.
    pub fn eight() -> (b: Base)
        ensures
            b.spec_px() == 8,
            b.wf(),
    {
        Base(8)
    }

    /// A base, if `px` is even and non-zero.
    pub fn new(px: u8) -> (r: Option<Base>)
        ensures
            r.is_some() <==> Self::is_valid_px(px),
            r matches Some(b) ==> b.spec_px() == px && b.wf(),
    {
        if px != 0 && px % 2 == 0 {
            Some(Base(px))
        } else {
            None
        }
    }

    /// The base in logical pixels.
    pub fn px(self) -> (r: u8)
        ensures
            r == self.spec_px(),
    {
        self.0
    }
}

impl Default for Base {
    fn default() -> (b: Base)
        ensures
            b.spec_px() == 4,
            b.wf(),
    {
        Base(4)
    }
}

/// A position on the spacing scale: an index, not a length.
///
/// Step 0 is the base, step 1 is ×3/2, step 2 is ×2, and so on; negative steps
/// go below the base.
#[derive(Clone, Copy, PartialEq, Eq, Structural, Ord, Hash, Debug, Default)]
pub struct Step(i8);

/// Steps order by their index.
impl PartialOrd for Step {
    fn partial_cmp(&self, other: &Step) -> (r: Option<core::cmp::Ordering>) {
        if self.0 < other.0 {
            Some(core::cmp::Ordering::Less)
        } else if self.0 == other.0 {
            Some(core::cmp::Ordering::Equal)
        } else {
            Some(core::cmp::Ordering::Greater)
        }
    }
}

impl vstd::std_specs::cmp::PartialOrdSpecImpl for Step {
    open spec fn obeys_partial_cmp_spec() -> bool {
        true
    }

    open spec fn partial_cmp_spec(&self, other: &Step) -> Option<core::cmp::Ordering> {
        if self.spec_index() < other.spec_index() {
            Some(core::cmp::Ordering::Less)
        } else if self.spec_index() == other.spec_index() {
            Some(core::cmp::Ordering::Equal)
        } else {
            Some(core::cmp::Ordering::Greater)
        }
    }
}

impl Step {
    /// The raw index.
    pub closed spec fn spec_index(self) -> i8 {
        self.0
    }

    /// Two steps are equal exactly when their indices are.
    pub proof fn lemma_eq_by_index(a: Step, b: Step)
        ensures
            (a == b) <==> (a.spec_index() == b.spec_index()),
    {
    }

    /// `index + delta`, saturating at the ends of `i8`.
    pub open spec fn saturating(index: int, delta: int) -> i8 {
        if index + delta > i8::MAX {
            i8::MAX
        } else if index + delta < i8::MIN {
            i8::MIN
        } else {
            (index + delta) as i8
        }
    }

    /// The step `delta` away from `step`, saturating at the ends of `i8`.
    pub closed spec fn saturating_step(step: Step, delta: int) -> Step {
        Step(Self::saturating(step.0 as int, delta))
    }

    /// A step's index is the index it was made from.
    pub proof fn lemma_saturating_step(step: Step, delta: int)
        ensures
            Self::saturating_step(step, delta).spec_index() == Self::saturating(step.spec_index() as int, delta),
    {
    }

    /// The base itself.
    pub fn base() -> (s: Step)
        ensures
            s.spec_index() == 0,
    {
        Step(0)
    }

    /// The step at the given index.
    pub closed spec fn spec_new(index: i8) -> Step {
        Step(index)
    }

    /// A step at the given index.
    pub fn new(index: i8) -> (s: Step)
        ensures
            s.spec_index() == index,
            s == Self::spec_new(index),
    {
        Step(index)
    }

    /// The raw index.
    pub fn index(self) -> (r: i8)
        ensures
            r == self.spec_index(),
    {
        self.0
    }

    /// The step exactly one doubling above this one, saturating rather than
    /// wrapping.
    pub fn octave_up(self) -> (s: Step)
        ensures
            s.spec_index() == Self::saturating(self.spec_index() as int, 2),
            s == Self::saturating_step(self, 2),
    {
        if self.0 > i8::MAX - 2 {
            Step(i8::MAX)
        } else {
            Step(self.0 + 2)
        }
    }

    /// The step exactly one halving below this one, saturating rather than
    /// wrapping.
    pub fn octave_down(self) -> (s: Step)
        ensures
            s.spec_index() == Self::saturating(self.spec_index() as int, -2),
            s == Self::saturating_step(self, -2),
    {
        if self.0 < i8::MIN + 2 {
            Step(i8::MIN)
        } else {
            Step(self.0 - 2)
        }
    }
}

} // verus!
