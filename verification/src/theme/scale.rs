//! The two-strand modular scale.
//!
//! The scale interleaves two strands, each a clean doubling:
//!
//! ```text
//! steps 0, 2, 4, 6:   4,  8, 16, 32     <- base × 2^k
//! steps 1, 3, 5, 7:   6, 12, 24, 48     <- base × 3/2 × 2^k
//! ```
//!
//! Consecutive steps alternate between 3:2 and 4:3, whose product is exactly
//! 2, which is what makes +2 a doubling from every position.
//!
//! A point on the scale is computed exactly, as a whole-pixel strand root and
//! a power-of-two octave; turning that into a float length is the renderer's
//! business and loses nothing, since every such value is a small integer times
//! a power of two.

use vstd::arithmetic::power2::*;
use vstd::prelude::*;

use super::base::{Base, Step};

verus! {

/// One point on the scale: `root × 2^octave` logical pixels.
///
/// `root` is the strand's value at octave zero — the base for even steps,
/// the base × 3/2 for odd ones — so it is always a whole number of pixels.
#[derive(Clone, Copy, PartialEq, Eq, Structural, Debug)]
pub struct ScalePoint {
    /// The strand's value at octave zero, in whole logical pixels.
    pub root: u16,
    /// The power of two the root is multiplied by; negative below the base.
    pub octave: i8,
}

impl ScalePoint {
    /// The point's value multiplied by `2^64`: an integer for every point, so
    /// two points compare exactly.
    pub open spec fn magnitude(self) -> int {
        self.root * pow2((self.octave + 64) as nat)
    }

    /// The point is a whole number of pixels.
    pub open spec fn is_whole(self) -> bool {
        self.octave >= 0
    }
}

/// The generated spacing scale for one [`Base`].
///
/// Values are computed, never stored per step, so there is no way to assign
/// one and break proportionality.
#[derive(Clone, Copy, PartialEq, Eq, Structural, Debug)]
pub struct Scale {
    base: Base,
}

/// The scale on the default base, four pixels.
impl Default for Scale {
    fn default() -> (s: Scale)
        ensures
            s.spec_base().spec_px() == 4,
    {
        Scale { base: Base::default() }
    }
}

/// The strand root for a step index of the given parity.
pub open spec fn strand_root(base_px: int, index: int) -> int {
    if index % 2 == 0 {
        base_px
    } else {
        base_px * 3 / 2
    }
}

impl Scale {
    /// The base this scale was generated from (spec view).
    pub closed spec fn spec_base(self) -> Base {
        self.base
    }

    /// The point at `step`: `at(n) = strand(n mod 2) × 2^(n div 2)` with
    /// floored division, so negative steps continue the same interleaving.
    pub open spec fn spec_at(self, step: Step) -> ScalePoint {
        ScalePoint {
            root: strand_root(self.spec_base().spec_px() as int, step.spec_index() as int) as u16,
            octave: (step.spec_index() as int / 2) as i8,
        }
    }

    /// A scale generated from `base`.
    pub fn new(base: Base) -> (s: Scale)
        ensures
            s.spec_base() == base,
    {
        Scale { base }
    }

    /// Two scales are equal exactly when they were generated from equal
    /// bases.
    pub proof fn lemma_eq_by_base(a: Scale, b: Scale)
        ensures
            (a == b) <==> (a.spec_base() == b.spec_base()),
    {
    }

    /// The base this scale was generated from.
    pub fn base(self) -> (b: Base)
        ensures
            b == self.spec_base(),
    {
        self.base
    }

    /// The exact point at a given step.
    pub fn at(self, step: Step) -> (p: ScalePoint)
        ensures
            p == self.spec_at(step),
    {
        let n: i16 = step.index() as i16;
        let octave: i16 = if n >= 0 {
            n / 2
        } else {
            let m: i16 = -n;
            -((m + 1) / 2)
        };
        let px: u16 = self.base.px() as u16;
        let root: u16 = if n - 2 * octave == 0 {
            px
        } else {
            px * 3 / 2
        };
        ScalePoint { root, octave: octave as i8 }
    }

    /// The radius at a given step: radii come off the same scale as gaps.
    pub fn radius_at(self, step: Step) -> (p: ScalePoint)
        ensures
            p == self.spec_at(step),
    {
        self.at(step)
    }
}

/// An octave is exactly a doubling: two steps up keeps the strand and raises
/// the power of two by one, from every position that does not saturate.
pub proof fn lemma_octave_is_a_doubling(scale: Scale, step: Step)
    requires
        step.spec_index() <= i8::MAX - 2,
    ensures
        scale.spec_at(Step::saturating_step(step, 2)).root == scale.spec_at(step).root,
        scale.spec_at(Step::saturating_step(step, 2)).octave == scale.spec_at(step).octave + 1,
        scale.spec_at(Step::saturating_step(step, 2)).magnitude() == 2 * scale.spec_at(step).magnitude(),
{
    Step::lemma_saturating_step(step, 2);
    let n = step.spec_index() as int;
    let p = scale.spec_at(step);
    let q = scale.spec_at(Step::saturating_step(step, 2));
    assert(Step::saturating_step(step, 2).spec_index() == n + 2);
    assert((n + 2) / 2 == n / 2 + 1);
    assert(-64 <= n / 2 <= 63);
    assert(q.octave == p.octave + 1);
    assert((n + 2) % 2 == n % 2);
    assert(q.root == p.root);
    let ep = (p.octave + 64) as nat;
    let eq = (q.octave + 64) as nat;
    lemma_pow2_unfold(eq);
    assert(pow2(eq) == 2 * pow2(ep));
    let pp = pow2(ep) as int;
    let r = p.root as int;
    assert(r * (2 * pp) == 2 * (r * pp)) by (nonlinear_arith);
}

/// Every step from the base upward is a whole number of pixels, and the
/// second strand is exactly ×3/2 of a valid base — nothing is rounded.
pub proof fn lemma_whole_pixels(scale: Scale, step: Step)
    requires
        scale.spec_base().wf(),
        step.spec_index() >= 0,
    ensures
        scale.spec_at(step).is_whole(),
        step.spec_index() % 2 == 1 ==> 2 * scale.spec_at(step).root == 3 * scale.spec_base().spec_px(),
        step.spec_index() % 2 == 0 ==> scale.spec_at(step).root == scale.spec_base().spec_px(),
{
    scale.spec_base().lemma_valid();
}

/// The scale increases strictly from each step to the next, across the base
/// as well as above it.
pub proof fn lemma_strictly_increasing(scale: Scale, step: Step)
    requires
        scale.spec_base().wf(),
        step.spec_index() < i8::MAX,
    ensures
        scale.spec_at(step).magnitude() < scale.spec_at(Step::saturating_step(step, 1)).magnitude(),
{
    scale.spec_base().lemma_valid();
    Step::lemma_saturating_step(step, 1);
    let b = scale.spec_base().spec_px() as int;
    let n = step.spec_index() as int;
    assert(Step::saturating_step(step, 1).spec_index() == n + 1);
    assert(-64 <= n / 2 <= 63);
    assert(-64 <= (n + 1) / 2 <= 63);
    assert(n % 2 == 0 ==> (n + 1) / 2 == n / 2 && (n + 1) % 2 == 1);
    assert(n % 2 == 1 ==> (n + 1) / 2 == n / 2 + 1 && (n + 1) % 2 == 0);
    let p = scale.spec_at(step);
    let q = scale.spec_at(Step::saturating_step(step, 1));
    let e = (p.octave + 64) as nat;
    lemma_pow2_pos(e);
    if n % 2 == 0 {
        assert(q.octave == p.octave);
        assert(p.root == b);
        assert(q.root == b * 3 / 2);
        assert(p.root < q.root);
        vstd::arithmetic::mul::lemma_mul_strict_inequality(p.root as int, q.root as int, pow2(e) as int);
    } else {
        assert(q.octave == p.octave + 1);
        assert(p.root == b * 3 / 2);
        assert(q.root == b);
        lemma_pow2_unfold((q.octave + 64) as nat);
        assert(pow2((q.octave + 64) as nat) == 2 * pow2(e));
        assert(p.root < 2 * q.root);
        vstd::arithmetic::mul::lemma_mul_strict_inequality(p.root as int, 2 * q.root, pow2(e) as int);
        vstd::arithmetic::mul::lemma_mul_is_associative(q.root as int, 2, pow2(e) as int);
        vstd::arithmetic::mul::lemma_mul_is_commutative(q.root as int, 2);
    }
}

} // verus!
