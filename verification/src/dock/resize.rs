//! Which nodes a divider drag resizes.
//!
//! A divider sits between two content nodes. Dragging it trades size between
//! exactly those two: two flex nodes trade weight, a fixed node beside a flex
//! one absorbs the whole movement in pixels (the flex side takes up the
//! slack by itself), and two fixed nodes have no weight to trade, so the seam
//! stays put. The pixel arithmetic is the host's; this is the decision.

use vstd::prelude::*;

verus! {

/// What a drag writes.
#[derive(Clone, Copy, PartialEq, Eq, Structural, Debug)]
pub enum DragWrite {
    /// Nothing moves: both neighbours are fixed.
    Nothing,
    /// Both neighbours are flex: their weights are redistributed.
    TradeFlex,
    /// Only the fixed node before the seam is resized.
    ResizePrev,
    /// Only the fixed node after the seam is resized.
    ResizeNext,
}

/// What a drag writes, given which neighbours are fixed.
pub open spec fn spec_drag_write(prev_fixed: bool, next_fixed: bool) -> DragWrite {
    if prev_fixed && next_fixed {
        DragWrite::Nothing
    } else if prev_fixed {
        DragWrite::ResizePrev
    } else if next_fixed {
        DragWrite::ResizeNext
    } else {
        DragWrite::TradeFlex
    }
}

/// What a drag writes: a fixed neighbour absorbs the movement, two flex
/// neighbours trade weight, two fixed neighbours stay put.
pub fn drag_write(prev_fixed: bool, next_fixed: bool) -> (r: DragWrite)
    ensures
        r == spec_drag_write(prev_fixed, next_fixed),
{
    if prev_fixed && next_fixed {
        DragWrite::Nothing
    } else if prev_fixed {
        DragWrite::ResizePrev
    } else if next_fixed {
        DragWrite::ResizeNext
    } else {
        DragWrite::TradeFlex
    }
}

/// The two content nodes flanking the divider at `index` among `len`
/// children: the one before it and the one after it, when both exist.
pub fn flanking(index: usize, len: usize) -> (r: Option<(usize, usize)>)
    ensures
        r is Some <==> (1 <= index && index + 1 < len),
        r matches Some(p) ==> p.0 == index - 1 && p.1 == index + 1,
{
    if index >= 1 && index < len && len - index > 1 {
        Some((index - 1, index + 1))
    } else {
        None
    }
}

} // verus!
