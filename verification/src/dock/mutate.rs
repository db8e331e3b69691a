//! Changing the tree at runtime.
//!
//! Every edit rewrites the declared [`DockLayout`] rather than live entities,
//! which keeps "declared", "restored from disk" and "rearranged by the user" on
//! one code path. Each public edit reports whether it changed anything, which
//! is when a rebuild is due.

use vstd::prelude::*;

use super::node::{Axis, PaneId, PaneSize, PaneVisibility, FLEX_ONE_BITS};
use super::shape::{collapse, first_where, lemma_collapse, lemma_first_where, lemma_first_where_is, lemma_ids_of_around, lemma_ids_of_contains, lemma_ids_of_contains_child, lemma_ids_of_push, lemma_ids_of_remove, lemma_ids_of_single, lemma_ids_of_update, lemma_ids_nonempty, lemma_no_dup_remove, lemma_with_size};
use super::nodes::{is_node_of, lemma_split_is_along_the_requested_axis};
use super::tree::{
    DockLayout, DockTree, TreeShape, all_splits_ok, find, ids, ids_of, lemma_all_splits_ok,
    lemma_find, lemma_shapes_of, shapes_of, size_of, splits_ok, valid, with_size,
};

verus! {

/// Which side of a target a pane goes on.
#[derive(Debug, Clone, Copy, PartialEq, Eq, Structural)]
pub enum Side {
    /// Left of, or above, the target.
    Before,
    /// Right of, or below, the target.
    After,
}

/// A pane named `id`.
pub open spec fn is_pane_named(t: TreeShape, id: Seq<char>) -> bool {
    t matches TreeShape::Pane { id: pid, .. } && pid == id
}

/// A split holding a pane named `id` somewhere below it.
pub open spec fn holds_pane(t: TreeShape, id: Seq<char>) -> bool {
    t is Split && ids(t).contains(id)
}

/// `t` with the pane `id` removed: a direct child pane first, else the first
/// child split that holds it; a split left with one child collapses into it.
pub open spec fn remove_shape(t: TreeShape, id: Seq<char>) -> TreeShape
    decreases t,
{
    match t {
        TreeShape::Pane { .. } => t,
        TreeShape::Split { axis, size, children } => {
            let i = first_where(children, |c: TreeShape| is_pane_named(c, id));
            if 0 <= i < children.len() {
                collapse(TreeShape::Split { axis, size, children: children.remove(i) })
            } else {
                let j = first_where(children, |c: TreeShape| holds_pane(c, id));
                if 0 <= j < children.len() {
                    collapse(
                        TreeShape::Split {
                            axis,
                            size,
                            children: children.update(j, remove_shape(children[j], id)),
                        },
                    )
                } else {
                    t
                }
            }
        },
    }
}

/// A node that does not hold `id` below it is unchanged by removal.
pub proof fn lemma_remove_absent(t: TreeShape, id: Seq<char>)
    requires
        !holds_pane(t, id),
    ensures
        remove_shape(t, id) == t,
{
    match t {
        TreeShape::Pane { .. } => {},
        TreeShape::Split { children, .. } => {
            let pn = |c: TreeShape| is_pane_named(c, id);
            let ph = |c: TreeShape| holds_pane(c, id);
            lemma_first_where(children, pn);
            lemma_first_where(children, ph);
            let i = first_where(children, pn);
            if i < children.len() {
                assert(ids(children[i]) =~= seq![id]);
                assert(ids(children[i])[0] == id);
                lemma_ids_of_contains_child(children, i, id);
            }
            let j = first_where(children, ph);
            if j < children.len() {
                lemma_ids_of_contains_child(children, j, id);
            }
        },
    }
}

/// Removing a pane from a buildable split: the result is buildable and its
/// ids are the old ones with that one occurrence taken out.
pub proof fn lemma_remove_shape(t: TreeShape, id: Seq<char>) -> (k: int)
    requires
        holds_pane(t, id),
        splits_ok(t),
    ensures
        0 <= k < ids(t).len(),
        ids(t)[k] == id,
        ids(remove_shape(t, id)) == ids(t).remove(k),
        splits_ok(remove_shape(t, id)),
    decreases t,
{
    let axis = t->axis;
    let size = t->Split_size;
    let children = t->children;
    let pn = |c: TreeShape| is_pane_named(c, id);
    let ph = |c: TreeShape| holds_pane(c, id);
    lemma_first_where(children, pn);
    lemma_first_where(children, ph);
    lemma_all_splits_ok(children);
    let i = first_where(children, pn);
    if i < children.len() {
        let rest = children.remove(i);
        let s = TreeShape::Split { axis, size, children: rest };
        lemma_ids_of_around(children, i);
        lemma_ids_of_remove(children, i);
        assert(ids(children[i]) =~= seq![id]);
        let a = ids_of(children.take(i));
        let b = ids_of(children.skip(i + 1));
        assert(ids(t) == a + seq![id] + b);
        assert((a + seq![id] + b)[a.len() as int] == id);
        assert((a + seq![id] + b).remove(a.len() as int) =~= a + b);
        assert forall|q: int| 0 <= q < rest.len() implies #[trigger] splits_ok(rest[q]) by {
            if q < i {
                assert(rest[q] == children[q]);
            } else {
                assert(rest[q] == children[q + 1]);
            }
        }
        lemma_all_splits_ok(rest);
        lemma_collapse(s);
        a.len() as int
    } else {
        let c = lemma_ids_of_contains(children, id);
        assert(ph(children[c]) || pn(children[c])) by {
            if children[c] is Pane {
                assert(ids(children[c]) =~= seq![children[c]->Pane_id]);
                assert(ids(children[c])[0] == children[c]->Pane_id);
            }
        }
        let j = first_where(children, ph);
        assert(j < children.len()) by {
            if !pn(children[c]) {
                assert(ph(children[c]));
            } else {
                assert(!pn(children[c]));
            }
        }
        let child = children[j];
        let k2 = lemma_remove_shape(child, id);
        let nc = remove_shape(child, id);
        let upd = children.update(j, nc);
        lemma_ids_of_around(children, j);
        lemma_ids_of_update(children, j, nc);
        let a = ids_of(children.take(j));
        let b = ids_of(children.skip(j + 1));
        assert(ids(t) == a + ids(child) + b);
        assert((a + ids(child) + b)[a.len() + k2] == id);
        assert((a + ids(child) + b).remove(a.len() + k2) =~= a + ids(child).remove(k2) + b);
        assert forall|q: int| 0 <= q < upd.len() implies #[trigger] splits_ok(upd[q]) by {
            if q != j {
                assert(upd[q] == children[q]);
            }
        }
        lemma_all_splits_ok(upd);
        lemma_collapse(TreeShape::Split { axis, size, children: upd });
        a.len() + k2
    }
}

/// `t` with the pane `id` wrapped into a new split beside `new`: the split
/// takes the pane's share, and the two halves divide it evenly.
pub open spec fn wrap(pane: TreeShape, axis: Axis, side: Side, new: TreeShape) -> TreeShape {
    TreeShape::Split {
        axis,
        size: size_of(pane),
        children: match side {
            Side::Before => seq![
                with_size(new, PaneSize::Flex(FLEX_ONE_BITS)),
                with_size(pane, PaneSize::Flex(FLEX_ONE_BITS)),
            ],
            Side::After => seq![
                with_size(pane, PaneSize::Flex(FLEX_ONE_BITS)),
                with_size(new, PaneSize::Flex(FLEX_ONE_BITS)),
            ],
        },
    }
}

/// The ids two siblings placed on `side` contribute.
pub open spec fn beside(target: Seq<char>, side: Side, added: Seq<Seq<char>>) -> Seq<Seq<char>> {
    match side {
        Side::Before => added + seq![target],
        Side::After => seq![target] + added,
    }
}

/// `t` with the first pane named `id` replaced by `wrap(pane, ..)`.
pub open spec fn replace_shape(t: TreeShape, id: Seq<char>, axis: Axis, side: Side, new: TreeShape) -> TreeShape
    decreases t,
{
    match t {
        TreeShape::Pane { id: pid, .. } => if pid == id {
            wrap(t, axis, side, new)
        } else {
            t
        },
        TreeShape::Split { axis: a, size, children } => {
            let j = first_where(children, |c: TreeShape| ids(c).contains(id));
            if 0 <= j < children.len() {
                TreeShape::Split {
                    axis: a,
                    size,
                    children: children.update(j, replace_shape(children[j], id, axis, side, new)),
                }
            } else {
                t
            }
        },
    }
}

/// Replacing a pane keeps the tree's splits buildable and puts `new`'s ids
/// beside the target's one occurrence.
#[verifier::spinoff_prover]
#[verifier::rlimit(50)]
pub proof fn lemma_replace_shape(t: TreeShape, id: Seq<char>, axis: Axis, side: Side, new: TreeShape) -> (k: int)
    requires
        ids(t).contains(id),
        splits_ok(t),
        splits_ok(new),
    ensures
        0 <= k < ids(t).len(),
        ids(t)[k] == id,
        ids(replace_shape(t, id, axis, side, new)) == ids(t).take(k) + beside(id, side, ids(new)) + ids(t).skip(k + 1),
        splits_ok(replace_shape(t, id, axis, side, new)),
    decreases t,
{
    match t {
        TreeShape::Pane { id: pid, .. } => {
            assert(ids(t) =~= seq![pid]);
            assert(ids(t)[0] == pid);
            let w = wrap(t, axis, side, new);
            let one = PaneSize::Flex(FLEX_ONE_BITS);
            lemma_with_size(new, one);
            lemma_with_size(t, one);
            let wc = w->children;
            lemma_ids_of_single(wc[0]);
            lemma_ids_of_push(seq![wc[0]], wc[1]);
            assert(seq![wc[0]].push(wc[1]) =~= wc);
            lemma_all_splits_ok(wc);
            assert(ids(t).take(0) + beside(id, side, ids(new)) + ids(t).skip(1) =~= beside(id, side, ids(new)));
            assert(ids(w) =~= beside(id, side, ids(new)));
            0
        },
        TreeShape::Split { axis: a, size, children } => {
            let p = |c: TreeShape| ids(c).contains(id);
            lemma_first_where(children, p);
            let c = lemma_ids_of_contains(children, id);
            let j = first_where(children, p);
            assert(j < children.len()) by {
                assert(p(children[c]));
            }
            lemma_all_splits_ok(children);
            let child = children[j];
            let k2 = lemma_replace_shape(child, id, axis, side, new);
            let nc = replace_shape(child, id, axis, side, new);
            let upd = children.update(j, nc);
            lemma_ids_of_around(children, j);
            lemma_ids_of_update(children, j, nc);
            let x = ids_of(children.take(j));
            let y = ids_of(children.skip(j + 1));
            let ic = ids(child);
            assert(ids(t) == x + ic + y);
            assert((x + ic + y)[x.len() + k2] == id);
            assert((x + ic + y).take(x.len() + k2) =~= x + ic.take(k2));
            assert((x + ic + y).skip(x.len() + k2 + 1) =~= ic.skip(k2 + 1) + y);
            assert(x + (ic.take(k2) + beside(id, side, ids(new)) + ic.skip(k2 + 1)) + y
                =~= (x + ic.take(k2)) + beside(id, side, ids(new)) + (ic.skip(k2 + 1) + y));
            assert forall|q: int| 0 <= q < upd.len() implies #[trigger] splits_ok(upd[q]) by {
                if q != j {
                    assert(upd[q] == children[q]);
                }
            }
            lemma_all_splits_ok(upd);
            x.len() + k2
        },
    }
}

/// Splitting a new pane in beside a target and then removing that pane gives
/// back the same panes in the same order.
pub proof fn lemma_split_then_remove_restores_ids(
    t: TreeShape,
    target: Seq<char>,
    axis: Axis,
    side: Side,
    new_pane: Seq<char>,
)
    requires
        splits_ok(t),
        ids(t).contains(target),
        !ids(t).contains(new_pane),
    ensures
        ids(remove_shape(replace_shape(t, target, axis, side, DockTree::pane_shape(new_pane)), new_pane))
            == ids(t),
{
    let n = DockTree::pane_shape(new_pane);
    let k = lemma_replace_shape(t, target, axis, side, n);
    let r = replace_shape(t, target, axis, side, n);
    let before = ids(t).take(k);
    let after = ids(t).skip(k + 1);
    assert(ids(n) =~= seq![new_pane]);
    let p: int = match side {
        Side::Before => k,
        Side::After => k + 1,
    };
    let mid = beside(target, side, seq![new_pane]);
    assert(ids(r) == before + mid + after);
    assert(ids(r)[p] == new_pane);
    assert(ids(r).remove(p) =~= ids(t));
    assert(r is Split) by {
        if r is Pane {
            assert(ids(r).len() == 1);
        }
    }
    assert(ids(r).contains(new_pane));
    let k2 = lemma_remove_shape(r, new_pane);
    assert(k2 == p) by {
        if k2 != p {
            assert(ids(r)[k2] == new_pane);
            if k2 < k {
                assert(ids(t)[k2] == new_pane);
            } else if k2 > k + 1 {
                assert(ids(t)[k2 - 1] == new_pane);
            } else {
                assert(ids(r)[k2] == target);
                assert(ids(t)[k] == target);
            }
        }
    }
}

/// A node that does not hold `id` is unchanged by replacement.
pub proof fn lemma_replace_absent(t: TreeShape, id: Seq<char>, axis: Axis, side: Side, new: TreeShape)
    requires
        !ids(t).contains(id),
    ensures
        replace_shape(t, id, axis, side, new) == t,
{
    match t {
        TreeShape::Pane { id: pid, .. } => {
            assert(ids(t) =~= seq![pid]);
            if pid == id {
                assert(ids(t)[0] == id);
            }
        },
        TreeShape::Split { children, .. } => {
            let p = |c: TreeShape| ids(c).contains(id);
            lemma_first_where(children, p);
            let j = first_where(children, p);
            if j < children.len() {
                lemma_ids_of_contains_child(children, j, id);
            }
        },
    }
}

/// Some child of a run that holds `id` is a pane of that id or a split
/// holding it.
pub proof fn lemma_some_child_holds(cs: Seq<TreeShape>, id: Seq<char>)
    ensures
        ids_of(cs).contains(id) <==> (first_where(cs, |c: TreeShape| is_pane_named(c, id)) < cs.len()
            || first_where(cs, |c: TreeShape| holds_pane(c, id)) < cs.len()),
{
    let pn = |c: TreeShape| is_pane_named(c, id);
    let ph = |c: TreeShape| holds_pane(c, id);
    lemma_first_where(cs, pn);
    lemma_first_where(cs, ph);
    if ids_of(cs).contains(id) {
        let c = lemma_ids_of_contains(cs, id);
        if cs[c] is Pane {
            assert(ids(cs[c]) =~= seq![cs[c]->Pane_id]);
            assert(ids(cs[c])[0] == cs[c]->Pane_id);
            assert(pn(cs[c]));
        } else {
            assert(ph(cs[c]));
        }
    }
    let i = first_where(cs, pn);
    if i < cs.len() {
        assert(ids(cs[i]) =~= seq![id]);
        assert(ids(cs[i])[0] == id);
        lemma_ids_of_contains_child(cs, i, id);
    }
    let j = first_where(cs, ph);
    if j < cs.len() {
        lemma_ids_of_contains_child(cs, j, id);
    }
}

/// Putting two ids where one stood keeps a sequence duplicate-free when the
/// added one is new.
pub proof fn lemma_no_dup_beside(s: Seq<Seq<char>>, k: int, side: Side, y: Seq<char>)
    requires
        s.no_duplicates(),
        0 <= k < s.len(),
        !s.contains(y),
    ensures
        (s.take(k) + beside(s[k], side, seq![y]) + s.skip(k + 1)).no_duplicates(),
{
    let r = s.take(k) + beside(s[k], side, seq![y]) + s.skip(k + 1);
    let n = s.len();
    assert(r.len() == n + 1);
    // Each position of `r` comes from `s` or is `y`.
    let src = |i: int| if i < k { i } else if i > k + 1 { i - 1 } else if (side == Side::Before) == (i == k + 1) { k } else { -1 };
    assert forall|i: int| 0 <= i < r.len() implies (src(i) == -1 ==> r[i] == y) && (src(i) != -1 ==> 0 <= src(i) < n && r[i] == s[src(i)]) by {
        if i < k {
        } else if i > k + 1 {
        } else {
        }
    }
    assert forall|i: int, j: int| 0 <= i < r.len() && 0 <= j < r.len() && i != j implies r[i] != r[j] by {
        if src(i) == -1 && src(j) != -1 {
            assert(s.contains(r[j]));
        } else if src(j) == -1 && src(i) != -1 {
            assert(s.contains(r[i]));
        } else if src(i) != -1 && src(j) != -1 {
            assert(src(i) != src(j));
        }
    }
}

impl DockTree {
    /// Whether this node is a pane named `id`.
    pub fn is_pane_named(&self, id: &str) -> (r: bool)
        ensures
            r == is_pane_named(self@, id@),
    {
        match self {
            DockTree::Pane { id: pid, .. } => pid.as_str().eq(id),
            DockTree::Split { .. } => false,
        }
    }

    /// Whether this node holds a pane named `id`, itself or below.
    pub fn holds(&self, id: &str) -> (r: bool)
        ensures
            r == ids(self@).contains(id@),
    {
        proof {
            lemma_find(self@, id@);
        }
        self.find_pane(id).is_some()
    }
}

impl Clone for DockTree {
    #[verifier::loop_isolation(false)]
    fn clone(&self) -> (r: Self)
        ensures
            r@ == self@,
        decreases self,
    {
        match self {
            DockTree::Pane { id, size, min_size, visibility } => DockTree::Pane {
                id: id.clone(),
                size: *size,
                min_size: *min_size,
                visibility: *visibility,
            },
            DockTree::Split { axis, size, children } => {
                let mut out: Vec<DockTree> = Vec::new();
                let mut i: usize = 0;
                proof {
                    lemma_shapes_of(children@);
                }
                while i < children.len()
                    invariant
                        i <= children.len(),
                        shapes_of(out@) == shapes_of(children@).take(i as int),
                    decreases children.len() - i,
                {
                    proof {
                        assert(decreases_to!(*self => children@[i as int]));
                    }
                    let c = children[i].clone();
                    let ghost before = out@;
                    out.push(c);
                    proof {
                        assert(out@.drop_last() =~= before);
                        assert(shapes_of(children@).take(i + 1) =~= shapes_of(children@).take(i as int).push(children@[i as int]@));
                    }
                    i += 1;
                }
                assert(shapes_of(children@).take(i as int) =~= shapes_of(children@));
                DockTree::Split { axis: *axis, size: *size, children: out }
            },
        }
    }
}

/// The first child that is a pane named `id`, or the run's length.
fn first_pane_named(children: &Vec<DockTree>, id: &str) -> (r: usize)
    ensures
        r as int == first_where(shapes_of(children@), |c: TreeShape| is_pane_named(c, id@)),
{
    proof {
        lemma_shapes_of(children@);
    }
    let ghost cs = shapes_of(children@);
    let mut i: usize = 0;
    while i < children.len()
        invariant
            i <= children.len(),
            cs == shapes_of(children@),
            cs.len() == children.len(),
            forall|k: int| 0 <= k < cs.len() ==> #[trigger] cs[k] == children@[k]@,
            forall|k: int| 0 <= k < i ==> !#[trigger] is_pane_named(cs[k], id@),
        decreases children.len() - i,
    {
        if children[i].is_pane_named(id) {
            proof {
                lemma_first_where_is(cs, |c: TreeShape| is_pane_named(c, id@), i as int);
            }
            return i;
        }
        i += 1;
    }
    proof {
        lemma_first_where_is(cs, |c: TreeShape| is_pane_named(c, id@), i as int);
    }
    i
}

/// The first child that is a split holding `id`, or the run's length.
fn first_split_holding(children: &Vec<DockTree>, id: &str) -> (r: usize)
    ensures
        r as int == first_where(shapes_of(children@), |c: TreeShape| holds_pane(c, id@)),
{
    proof {
        lemma_shapes_of(children@);
    }
    let ghost cs = shapes_of(children@);
    let mut i: usize = 0;
    while i < children.len()
        invariant
            i <= children.len(),
            cs == shapes_of(children@),
            cs.len() == children.len(),
            forall|k: int| 0 <= k < cs.len() ==> #[trigger] cs[k] == children@[k]@,
            forall|k: int| 0 <= k < i ==> !#[trigger] holds_pane(cs[k], id@),
        decreases children.len() - i,
    {
        let is_split = match &children[i] {
            DockTree::Split { .. } => true,
            DockTree::Pane { .. } => false,
        };
        if is_split && children[i].holds(id) {
            proof {
                lemma_first_where_is(cs, |c: TreeShape| holds_pane(c, id@), i as int);
            }
            return i;
        }
        i += 1;
    }
    proof {
        lemma_first_where_is(cs, |c: TreeShape| holds_pane(c, id@), i as int);
    }
    i
}

/// The first child holding `id` at or below it, or the run's length.
fn first_holding(children: &Vec<DockTree>, id: &str) -> (r: usize)
    ensures
        r as int == first_where(shapes_of(children@), |c: TreeShape| ids(c).contains(id@)),
{
    proof {
        lemma_shapes_of(children@);
    }
    let ghost cs = shapes_of(children@);
    let mut i: usize = 0;
    while i < children.len()
        invariant
            i <= children.len(),
            cs == shapes_of(children@),
            cs.len() == children.len(),
            forall|k: int| 0 <= k < cs.len() ==> #[trigger] cs[k] == children@[k]@,
            forall|k: int| 0 <= k < i ==> !#[trigger] ids(cs[k]).contains(id@),
        decreases children.len() - i,
    {
        if children[i].holds(id) {
            proof {
                lemma_first_where_is(cs, |c: TreeShape| ids(c).contains(id@), i as int);
            }
            return i;
        }
        i += 1;
    }
    proof {
        lemma_first_where_is(cs, |c: TreeShape| ids(c).contains(id@), i as int);
    }
    i
}

/// A split of one is that child, which inherits the split's share.
fn collapse_if_single(tree: DockTree) -> (r: DockTree)
    ensures
        r@ == collapse(tree@),
{
    match tree {
        DockTree::Split { axis, size, mut children } => {
            proof {
                lemma_shapes_of(children@);
            }
            if children.len() == 1 {
                let survivor = children.remove(0);
                survivor.with_size(size)
            } else {
                DockTree::Split { axis, size, children }
            }
        },
        other => other,
    }
}

/// Drop the pane named `id`, collapsing any split it leaves with one child.
/// Reports whether a pane was removed.
pub fn remove_pane_from(tree: DockTree, id: &str) -> (r: (DockTree, bool))
    ensures
        r.0@ == remove_shape(tree@, id@),
        r.1 == holds_pane(tree@, id@),
    decreases tree@,
{
    let ghost t = tree@;
    match tree {
        DockTree::Split { axis, size, mut children } => {
            let ghost cs = shapes_of(children@);
            proof {
                lemma_shapes_of(children@);
                lemma_some_child_holds(cs, id@);
                lemma_first_where(cs, |c: TreeShape| is_pane_named(c, id@));
                lemma_first_where(cs, |c: TreeShape| holds_pane(c, id@));
            }
            let i = first_pane_named(&children, id);
            if i < children.len() {
                children.remove(i);
                proof {
                    lemma_shapes_of(children@);
                    assert(shapes_of(children@) =~= cs.remove(i as int));
                }
                return (collapse_if_single(DockTree::Split { axis, size, children }), true);
            }
            let j = first_split_holding(&children, id);
            if j < children.len() {
                let child = children.remove(j);
                proof {
                    assert(child@ == cs[j as int]);
                    assert(decreases_to!(t => cs[j as int]));
                }
                let (nc, _) = remove_pane_from(child, id);
                children.insert(j, nc);
                proof {
                    lemma_shapes_of(children@);
                    assert(shapes_of(children@) =~= cs.update(j as int, remove_shape(cs[j as int], id@)));
                }
                return (collapse_if_single(DockTree::Split { axis, size, children }), true);
            }
            (DockTree::Split { axis, size, children }, false)
        },
        pane => (pane, false),
    }
}

/// Wrap the first pane named `id` into a split beside `new`. Reports whether
/// such a pane was found.
pub fn replace_pane(tree: DockTree, id: &str, axis: Axis, side: Side, new: DockTree) -> (r: (DockTree, bool))
    ensures
        r.0@ == replace_shape(tree@, id@, axis, side, new@),
        r.1 == ids(tree@).contains(id@),
    decreases tree@,
{
    let ghost t = tree@;
    let named = tree.is_pane_named(id);
    let holds = tree.holds(id);
    match tree {
        DockTree::Split { axis: a, size, mut children } => {
            let ghost cs = shapes_of(children@);
            proof {
                lemma_shapes_of(children@);
                lemma_first_where(cs, |c: TreeShape| ids(c).contains(id@));
            }
            let j = first_holding(&children, id);
            if j < children.len() {
                let child = children.remove(j);
                proof {
                    assert(child@ == cs[j as int]);
                    assert(decreases_to!(t => cs[j as int]));
                }
                let (nc, _) = replace_pane(child, id, axis, side, new);
                children.insert(j, nc);
                proof {
                    lemma_shapes_of(children@);
                    assert(shapes_of(children@) =~= cs.update(j as int, replace_shape(cs[j as int], id@, axis, side, new@)));
                    lemma_ids_of_contains_child(cs, j as int, id@);
                }
                return (DockTree::Split { axis: a, size, children }, true);
            }
            proof {
                if ids_of(cs).contains(id@) {
                    let c = lemma_ids_of_contains(cs, id@);
                    assert((|c: TreeShape| ids(c).contains(id@))(cs[c]));
                }
            }
            (DockTree::Split { axis: a, size, children }, false)
        },
        pane => {
            if named {
                proof {
                    assert(ids(t) =~= seq![id@]);
                    assert(ids(t)[0] == id@);
                }
                let share = pane.size();
                let mut children: Vec<DockTree> = Vec::new();
                match side {
                    Side::Before => {
                        children.push(new.flex(FLEX_ONE_BITS));
                        children.push(pane.flex(FLEX_ONE_BITS));
                    },
                    Side::After => {
                        children.push(pane.flex(FLEX_ONE_BITS));
                        children.push(new.flex(FLEX_ONE_BITS));
                    },
                }
                proof {
                    lemma_shapes_of(children@);
                }
                let w = DockTree::Split { axis, size: share, children };
                proof {
                    assert(shapes_of(children@) =~= wrap(t, axis, side, new@)->children);
                }
                (w, true)
            } else {
                proof {
                    let pid = t->Pane_id;
                    assert(ids(t) =~= seq![pid]);
                    if ids(t).contains(id@) {
                        assert(ids(t)[0] == id@);
                    }
                }
                (pane, false)
            }
        },
    }
}

impl DockLayout {
    /// Take the root out, leaving a placeholder pane behind.
    fn take_root(&mut self) -> (r: DockTree)
        ensures
            r@ == old(self).root@,
            final(self).version == old(self).version,
    {
        let mut root = DockTree::pane("");
        core::mem::swap(&mut root, &mut self.root);
        root
    }

    /// Split `target` along `axis`, putting a new pane `new_pane` on `side`.
    ///
    /// The new split takes the target's share and the two panes divide it
    /// evenly. Nothing changes if `target` is not a pane of the tree or if
    /// `new_pane` already is one; the result says whether the tree changed.
    pub fn split_pane(&mut self, target: &str, axis: Axis, new_pane: &str, side: Side) -> (changed: bool)
        ensures
            changed == (ids(old(self).root@).contains(target@) && !ids(old(self).root@).contains(new_pane@)),
            changed ==> final(self).root@ == replace_shape(
                old(self).root@,
                target@,
                axis,
                side,
                DockTree::pane_shape(new_pane@),
            ),
            !changed ==> final(self).root@ == old(self).root@,
            final(self).version == old(self).version,
            changed && valid(old(self).root@) ==> valid(final(self).root@) && exists|k: int|
                0 <= k < ids(old(self).root@).len() && ids(old(self).root@)[k] == target@
                    && ids(final(self).root@) == ids(old(self).root@).take(k) + beside(target@, side, seq![new_pane@])
                    + ids(old(self).root@).skip(k + 1),
            changed ==> exists|n: TreeShape|
                #![trigger is_node_of(final(self).root@, n)]
                is_node_of(final(self).root@, n) && n is Split && n->axis == axis && n->children.len() == 2
                    && ids(n) == beside(target@, side, seq![new_pane@]),
    {
        let ghost old_root = self.root@;
        if self.root.holds(new_pane) {
            return false;
        }
        if !self.root.holds(target) {
            return false;
        }
        let root = self.take_root();
        let fresh = DockTree::pane(new_pane);
        let (r, replaced) = replace_pane(root, target, axis, side, fresh);
        self.root = r;
        proof {
            let np = DockTree::pane_shape(new_pane@);
            assert(ids(np) =~= seq![new_pane@]);
            if replaced {
                let (n, _) = lemma_split_is_along_the_requested_axis(old_root, target@, axis, side, np);
                assert(is_node_of(self.root@, n));
            }
            if valid(old_root) {
                let k = lemma_replace_shape(old_root, target@, axis, side, np);
                assert(ids(old_root)[k] == target@);
                lemma_no_dup_beside(ids(old_root), k, side, new_pane@);
            }
        }
        replaced
    }

    /// Remove `target` from the tree.
    ///
    /// A split left with a single child is replaced by that child, which
    /// inherits the split's share. Nothing changes if `target` is not a pane
    /// of the tree, or if it is the last pane; the result says whether the
    /// tree changed.
    pub fn remove_pane(&mut self, target: &str) -> (changed: bool)
        ensures
            changed == (ids(old(self).root@).contains(target@) && ids(old(self).root@).len() >= 2),
            changed ==> final(self).root@ == remove_shape(old(self).root@, target@),
            !changed ==> final(self).root@ == old(self).root@,
            final(self).version == old(self).version,
            changed && valid(old(self).root@) ==> valid(final(self).root@) && exists|k: int|
                0 <= k < ids(old(self).root@).len() && ids(old(self).root@)[k] == target@
                    && ids(final(self).root@) == ids(old(self).root@).remove(k),
    {
        let ghost old_root = self.root@;
        if !self.root.holds(target) {
            return false;
        }
        let ids_now = self.pane_ids();
        proof {
            assert(ids_now@.map_values(|p: PaneId| p@).len() == ids_now@.len());
        }
        if ids_now.len() <= 1 {
            return false;
        }
        proof {
            if old_root is Pane {
                assert(ids(old_root) =~= seq![old_root->Pane_id]);
            }
        }
        let root = self.take_root();
        let (r, removed) = remove_pane_from(root, target);
        self.root = r;
        proof {
            if valid(old_root) {
                let k = lemma_remove_shape(old_root, target@);
                lemma_no_dup_remove(ids(old_root), k);
            }
        }
        removed
    }

    /// Move `target` next to `into`, on `side`: remove, then split `into`.
    ///
    /// Nothing changes if the two are the same pane or either is missing.
    /// The result says whether the move completed, which is when a rebuild is
    /// due.
    pub fn move_pane(&mut self, target: &str, into: &str, axis: Axis, side: Side) -> (changed: bool)
        ensures
            !(target@ != into@ && ids(old(self).root@).contains(target@) && ids(old(self).root@).contains(into@))
                ==> !changed && final(self).root@ == old(self).root@,
            final(self).version == old(self).version,
            target@ != into@ && ids(old(self).root@).contains(target@) && ids(old(self).root@).contains(into@)
                ==> final(self).root@ == replace_shape(
                    remove_shape(old(self).root@, target@),
                    into@,
                    axis,
                    side,
                    find(old(self).root@, target@).unwrap(),
                ) && changed == ids(remove_shape(old(self).root@, target@)).contains(into@),
            valid(old(self).root@) && target@ != into@ && ids(old(self).root@).contains(target@)
                && ids(old(self).root@).contains(into@) ==> changed && valid(final(self).root@)
                && final(self).root@ == replace_shape(
                    remove_shape(old(self).root@, target@),
                    into@,
                    axis,
                    side,
                    find(old(self).root@, target@).unwrap(),
                ) && exists|k1: int, k2: int|
                    0 <= k1 < ids(old(self).root@).len() && ids(old(self).root@)[k1] == target@
                        && 0 <= k2 < ids(old(self).root@).remove(k1).len()
                        && ids(old(self).root@).remove(k1)[k2] == into@
                        && ids(final(self).root@) == ids(old(self).root@).remove(k1).take(k2)
                            + beside(into@, side, seq![target@]) + ids(old(self).root@).remove(k1).skip(k2 + 1),
    {
        let ghost old_root = self.root@;
        if target.eq(into) {
            return false;
        }
        let moved = match self.root.find_pane(target) {
            Some(p) => p.clone(),
            None => {
                proof {
                    lemma_find(old_root, target@);
                }
                return false;
            },
        };
        proof {
            lemma_find(old_root, target@);
        }
        if !self.root.holds(into) {
            return false;
        }
        let ghost mid_shape = remove_shape(old_root, target@);
        let root = self.take_root();
        let (mid, removed) = remove_pane_from(root, target);
        if !removed {
            self.root = mid;
            proof {
                lemma_remove_absent(old_root, target@);
                assert(holds_pane(old_root, target@)) by {
                    if old_root is Pane {
                        assert(ids(old_root) =~= seq![old_root->Pane_id]);
                        assert(ids(old_root)[0] == target@);
                        assert(ids(old_root).contains(into@));
                        let q = choose|q: int| 0 <= q < ids(old_root).len() && ids(old_root)[q] == into@;
                        assert(q == 0);
                    }
                }
            }
            return false;
        }
        let ghost moved_shape = moved@;
        let (r, replaced) = replace_pane(mid, into, axis, side, moved);
        self.root = r;
        proof {
            if valid(old_root) {
                let k1 = lemma_remove_shape(old_root, target@);
                let s = ids(old_root);
                lemma_no_dup_remove(s, k1);
                let m = s.remove(k1);
                // `into` survives the removal of a different id.
                let q = choose|q: int| 0 <= q < s.len() && s[q] == into@;
                assert(q != k1);
                let q2 = if q < k1 { q } else { q - 1 };
                assert(m[q2] == into@);
                assert(ids(mid_shape).contains(into@));
                let ms = moved_shape;
                assert(ms matches TreeShape::Pane { id: pid, .. } && pid == target@);
                assert(splits_ok(ms));
                assert(ids(ms) =~= seq![target@]);
                let k2 = lemma_replace_shape(mid_shape, into@, axis, side, ms);
                lemma_no_dup_beside(m, k2, side, target@);
            }
        }
        replaced
    }
}

impl DockTree {
    /// The shape of a fresh pane named `id`: flex weight 1, visible, no minimum.
    pub open spec fn pane_shape(id: Seq<char>) -> TreeShape {
        TreeShape::Pane {
            id,
            size: PaneSize::Flex(FLEX_ONE_BITS),
            min_size: None,
            visibility: PaneVisibility::Shown,
        }
    }
}


/// Removing one pane of a split of two leaves the other in the split's
/// place, carrying the split's share, whichever side the pane was on.
pub proof fn lemma_removal_collapses_into_the_survivor(
    axis: Axis,
    size: PaneSize,
    pane: TreeShape,
    other: TreeShape,
    id: Seq<char>,
)
    requires
        pane is Pane,
        pane->Pane_id == id,
        !(other is Pane && other->Pane_id == id),
    ensures
        remove_shape(TreeShape::Split { axis, size, children: seq![pane, other] }, id) == with_size(other, size),
        remove_shape(TreeShape::Split { axis, size, children: seq![other, pane] }, id) == with_size(other, size),
        size_of(with_size(other, size)) == size,
        ids(with_size(other, size)) == ids(other),
{
    let pn = |c: TreeShape| is_pane_named(c, id);
    let a = seq![pane, other];
    let b = seq![other, pane];
    lemma_first_where(a, pn);
    lemma_first_where(b, pn);
    assert(pn(a[0]));
    assert(!pn(b[0]));
    assert(pn(b[1]));
    assert(a.remove(0) =~= seq![other]);
    assert(b.remove(1) =~= seq![other]);
    lemma_with_size(other, size);
}

} // verus!
