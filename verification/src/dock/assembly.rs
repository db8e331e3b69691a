//! Turning a declared layout into nodes: what survives a rebuild, how a split
//! is wired, and how a node is sized.
//!
//! The build reconciles rather than re-spawns: a pane that is still declared
//! keeps its entity, and with it the content some other crate parented in.
//! Splits and dividers have no identity of their own and are rebuilt freely.

use vstd::prelude::*;

use super::node::{Axis, PaneId, PaneSize};
use super::persist::id_strings;
use super::tree::{DockTree, ids};
use crate::text::contains_str;

verus! {

/// The existing panes whose id the layout still declares, in order.
pub open spec fn surviving(existing: Seq<(u64, Seq<char>)>, declared: Seq<Seq<char>>) -> Seq<
    (u64, Seq<char>),
>
    decreases existing.len(),
{
    if existing.len() == 0 {
        Seq::empty()
    } else {
        let rest = surviving(existing.drop_last(), declared);
        if declared.contains(existing.last().1) {
            rest.push(existing.last())
        } else {
            rest
        }
    }
}

/// Existing panes' mathematical form.
pub open spec fn pane_views(s: Seq<(u64, PaneId)>) -> Seq<(u64, Seq<char>)> {
    s.map_values(|p: (u64, PaneId)| (p.0, p.1@))
}

/// The existing panes that keep their entity through a rebuild: those whose
/// id the new layout still declares.
pub fn kept_panes(existing: &[(u64, PaneId)], root: &DockTree) -> (r: Vec<(u64, PaneId)>)
    ensures
        pane_views(r@) == surviving(pane_views(existing@), ids(root@)),
{
    let declared = id_strings(root);
    let ghost e = pane_views(existing@);
    let mut out: Vec<(u64, PaneId)> = Vec::new();
    let mut i: usize = 0;
    while i < existing.len()
        invariant
            i <= existing@.len(),
            e == pane_views(existing@),
            declared@.map_values(|x: String| x@) == ids(root@),
            pane_views(out@) == surviving(e.take(i as int), ids(root@)),
        decreases existing@.len() - i,
    {
        let ghost before = pane_views(out@);
        proof {
            assert(e.take(i + 1).drop_last() =~= e.take(i as int));
            assert(e.take(i + 1).last() == e[i as int]);
        }
        if contains_str(&declared, existing[i].1.as_str()) {
            let id = existing[i].1.clone();
            out.push((existing[i].0, id));
            assert(pane_views(out@) =~= before.push(e[i as int]));
        }
        i += 1;
    }
    assert(e.take(i as int) =~= e);
    out
}

/// The entity a surviving pane keeps: the first kept entry with its id.
pub open spec fn reused(kept: Seq<(u64, Seq<char>)>, id: Seq<char>) -> Option<u64>
    decreases kept.len(),
{
    if kept.len() == 0 {
        None
    } else if kept[0].1 == id {
        Some(kept[0].0)
    } else {
        reused(kept.drop_first(), id)
    }
}

/// The entity the pane `id` keeps, if it survived; `None` means spawn a
/// fresh one.
pub fn reused_entity(kept: &[(u64, PaneId)], id: &str) -> (r: Option<u64>)
    ensures
        r == reused(pane_views(kept@), id@),
{
    let ghost k = pane_views(kept@);
    let mut i: usize = 0;
    assert(k.subrange(0, k.len() as int) =~= k);
    while i < kept.len()
        invariant
            i <= kept@.len(),
            k == pane_views(kept@),
            reused(k, id@) == reused(k.subrange(i as int, k.len() as int), id@),
        decreases kept@.len() - i,
    {
        proof {
            assert(k.subrange(i as int, k.len() as int).drop_first() =~= k.subrange(i + 1, k.len() as int));
            assert(k.subrange(i as int, k.len() as int)[0] == k[i as int]);
        }
        if kept[i].1.as_str().eq(id) {
            return Some(kept[i].0);
        }
        i += 1;
    }
    None
}

/// One slot of a split's children: a child node, or the divider between two.
#[derive(Clone, Copy, Debug, PartialEq, Eq, Structural)]
pub enum Slot {
    /// The child at this index.
    Child(usize),
    /// A divider, between the children either side.
    Divider,
}

/// A split's child list: each child, with a divider between every two.
pub open spec fn wired(n: nat) -> Seq<Slot>
    decreases n,
{
    if n == 0 {
        Seq::empty()
    } else if n == 1 {
        seq![Slot::Child(0)]
    } else {
        wired((n - 1) as nat).push(Slot::Divider).push(Slot::Child((n - 1) as usize))
    }
}

/// How many dividers a child list holds.
pub open spec fn divider_count(s: Seq<Slot>) -> nat
    decreases s.len(),
{
    if s.len() == 0 {
        0
    } else {
        divider_count(s.drop_last()) + if s.last() == Slot::Divider {
            1nat
        } else {
            0nat
        }
    }
}

/// The wiring of a split with `n` children.
pub fn wiring(n: usize) -> (r: Vec<Slot>)
    requires
        n < usize::MAX / 2,
    ensures
        r@ == wired(n as nat),
{
    let mut out: Vec<Slot> = Vec::new();
    let mut i: usize = 0;
    while i < n
        invariant
            i <= n,
            n < usize::MAX / 2,
            out@ == wired(i as nat),
        decreases n - i,
    {
        if i > 0 {
            out.push(Slot::Divider);
        }
        out.push(Slot::Child(i));
        i += 1;
    }
    out
}

/// Where child `i` sits among a split's slots.
pub open spec fn child_slot(i: int) -> int {
    2 * i
}

/// `n` children are wired with `n − 1` dividers, into `2n − 1` slots, with
/// child `i` at slot `2i`.
pub proof fn lemma_wiring(n: nat)
    requires
        n >= 1,
        n < usize::MAX,
    ensures
        wired(n).len() == 2 * n - 1,
        divider_count(wired(n)) == n - 1,
        forall|i: int| 0 <= i < n ==> #[trigger] wired(n)[child_slot(i)] == Slot::Child(i as usize),
    decreases n,
{
    if n == 1 {
        assert(wired(1).drop_last() =~= Seq::<Slot>::empty());
        assert(divider_count(Seq::<Slot>::empty()) == 0);
        assert(wired(1).last() == Slot::Child(0));
    }
    if n > 1 {
        lemma_wiring((n - 1) as nat);
        let w = wired((n - 1) as nat);
        let a = w.push(Slot::Divider);
        let b = a.push(Slot::Child((n - 1) as usize));
        assert(b.drop_last() == a);
        assert(a.drop_last() == w);
        assert(divider_count(a) == divider_count(w) + 1);
        assert(divider_count(b) == divider_count(a));
        assert(wired(n) == b);
        assert forall|i: int| 0 <= i < n implies #[trigger] wired(n)[child_slot(i)] == Slot::Child(
            i as usize,
        ) by {
            if i < n - 1 {
                assert(b[child_slot(i)] == w[child_slot(i)]);
            }
        }
    }
}

/// How a node is sized along its parent's axis. The cross axis always fills
/// the parent.
#[derive(Clone, Copy, Debug, PartialEq, Eq, Structural)]
pub struct NodeSizing {
    /// Whether the parent's main axis is horizontal: the node's width is
    /// negotiated and its height fills, or the other way round.
    pub main_is_width: bool,
    /// Flex grow weight (bits of an `f32`); zero bits for a fixed node.
    pub grow: u32,
    /// Whether the node may shrink below its basis.
    pub shrinks: bool,
    /// The main-axis extent (bits of an `f32`): zero for a flex node, so its
    /// weight alone decides the split, else its fixed size.
    pub basis: u32,
}

/// Size a node along its parent's axis: a flex node grows by its weight from
/// a zero basis, so its content cannot widen it; a fixed node neither grows
/// nor shrinks from its declared size.
pub fn sized(size: PaneSize, parent_axis: Axis) -> (r: NodeSizing)
    ensures
        r.main_is_width == (parent_axis == Axis::Row),
        match size {
            PaneSize::Flex(w) => r.grow == w && r.shrinks && r.basis == 0,
            PaneSize::Fixed(px) => r.grow == 0 && !r.shrinks && r.basis == px,
        },
{
    let main_is_width = match parent_axis {
        Axis::Row => true,
        Axis::Column => false,
    };
    match size {
        PaneSize::Flex(w) => NodeSizing { main_is_width, grow: w, shrinks: true, basis: 0 },
        PaneSize::Fixed(px) => NodeSizing { main_is_width, grow: 0, shrinks: false, basis: px },
    }
}

} // verus!
