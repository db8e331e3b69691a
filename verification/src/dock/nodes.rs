//! Nodes of a tree, and where a split puts what it splits.

use vstd::prelude::*;

use super::mutate::{Side, beside, lemma_replace_shape, replace_shape, wrap};
use super::node::{Axis, PaneSize, FLEX_ONE_BITS};
use super::shape::{first_where, lemma_first_where, lemma_ids_of_contains, lemma_with_size};
use super::tree::{TreeShape, ids, size_of, splits_ok};

verus! {

/// Every node at or below `t`, `t` first, then its children's nodes in order.
pub open spec fn nodes(t: TreeShape) -> Seq<TreeShape>
    decreases t,
{
    match t {
        TreeShape::Pane { .. } => seq![t],
        TreeShape::Split { children, .. } => seq![t] + nodes_of(children),
    }
}

/// The nodes at or below a run of siblings, in order.
pub open spec fn nodes_of(cs: Seq<TreeShape>) -> Seq<TreeShape>
    decreases cs,
{
    if cs.len() == 0 {
        Seq::<TreeShape>::empty()
    } else {
        nodes_of(cs.drop_last()) + nodes(cs.last())
    }
}

/// Whether `n` is a node of `t`: `t` itself, or a node of one of its children.
pub open spec fn is_node_of(t: TreeShape, n: TreeShape) -> bool {
    nodes(t).contains(n)
}

proof fn lemma_seq_contains_concat(a: Seq<TreeShape>, b: Seq<TreeShape>, n: TreeShape)
    ensures
        (a.contains(n) || b.contains(n)) ==> (a + b).contains(n),
{
    if a.contains(n) {
        let k = choose|k: int| 0 <= k < a.len() && a[k] == n;
        assert((a + b)[k] == n);
    } else if b.contains(n) {
        let k = choose|k: int| 0 <= k < b.len() && b[k] == n;
        assert((a + b)[a.len() + k] == n);
    }
}

/// A node of a child is a node of the run.
proof fn lemma_node_of_child(cs: Seq<TreeShape>, i: int, n: TreeShape)
    requires
        0 <= i < cs.len(),
        nodes(cs[i]).contains(n),
    ensures
        nodes_of(cs).contains(n),
    decreases cs.len(),
{
    lemma_seq_contains_concat(nodes_of(cs.drop_last()), nodes(cs.last()), n);
    if i < cs.len() - 1 {
        assert(cs.drop_last()[i] == cs[i]);
        lemma_node_of_child(cs.drop_last(), i, n);
    }
}

/// A node is a node of itself.
proof fn lemma_node_of_self(t: TreeShape)
    ensures
        is_node_of(t, t),
{
    match t {
        TreeShape::Pane { .. } => {
            assert(nodes(t)[0] == t);
        },
        TreeShape::Split { children, .. } => {
            assert(nodes(t)[0] == t);
        },
    }
}

/// A node of a split's child is a node of the split.
proof fn lemma_node_of_split(t: TreeShape, i: int, n: TreeShape)
    requires
        t is Split,
        0 <= i < t->children.len(),
        is_node_of(t->children[i], n),
    ensures
        is_node_of(t, n),
{
    lemma_node_of_child(t->children, i, n);
    lemma_seq_contains_concat(seq![t], nodes_of(t->children), n);
}

/// Splitting puts the target and the new node side by side along the
/// requested axis: the result has a split along `axis` with exactly two
/// children, holding the target's id and the new node's ids on the requested
/// side, each half weighted evenly, and taking the share of a pane of the old
/// tree named `id`.
pub proof fn lemma_split_is_along_the_requested_axis(
    t: TreeShape,
    id: Seq<char>,
    axis: Axis,
    side: Side,
    new: TreeShape,
) -> (np: (TreeShape, TreeShape))
    requires
        ids(t).contains(id),
        splits_ok(new),
    ensures
        is_node_of(replace_shape(t, id, axis, side, new), np.0),
        np.0 is Split,
        np.0->axis == axis,
        np.0->children.len() == 2,
        size_of(np.0->children[0]) == PaneSize::Flex(FLEX_ONE_BITS),
        size_of(np.0->children[1]) == PaneSize::Flex(FLEX_ONE_BITS),
        ids(np.0) == beside(id, side, ids(new)),
        is_node_of(t, np.1),
        np.1 is Pane,
        np.1->Pane_id == id,
        np.0->Split_size == size_of(np.1),
    decreases t,
{
    match t {
        TreeShape::Pane { id: pid, .. } => {
            assert(ids(t) =~= seq![pid]);
            assert(ids(t)[0] == pid);
            let k = lemma_replace_shape(t, id, axis, side, new);
            let w = wrap(t, axis, side, new);
            lemma_with_size(t, PaneSize::Flex(FLEX_ONE_BITS));
            lemma_with_size(new, PaneSize::Flex(FLEX_ONE_BITS));
            assert(replace_shape(t, id, axis, side, new) == w);
            lemma_node_of_self(w);
            lemma_node_of_self(t);
            assert(ids(t).take(0) + beside(id, side, ids(new)) + ids(t).skip(1) =~= beside(id, side, ids(new)));
            let np = (w, t);
            assert(is_node_of(replace_shape(t, id, axis, side, new), np.0));
            assert(is_node_of(t, np.1));
            np
        },
        TreeShape::Split { axis: a, size, children } => {
            let p = |c: TreeShape| ids(c).contains(id);
            lemma_first_where(children, p);
            let c = lemma_ids_of_contains(children, id);
            let j = first_where(children, p);
            assert(j < children.len()) by {
                assert(p(children[c]));
            }
            let child = children[j];
            let (n, pane) = lemma_split_is_along_the_requested_axis(child, id, axis, side, new);
            let r = replace_shape(t, id, axis, side, new);
            let upd = children.update(j, replace_shape(child, id, axis, side, new));
            assert(r == TreeShape::Split { axis: a, size, children: upd });
            assert(upd[j] == replace_shape(child, id, axis, side, new));
            lemma_node_of_split(r, j, n);
            lemma_node_of_split(t, j, pane);
            (n, pane)
        },
    }
}

} // verus!
