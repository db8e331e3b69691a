//! Saving and restoring a layout across builds.
//!
//! A saved layout is reconciled against the one the running build declares:
//! panes the build declares that the save predates are appended, each with
//! the size it was declared with; panes the save has that the build does not
//! declare are kept, since the dock cannot tell a retired panel from one the
//! user made at runtime. A host that knows better prunes explicitly.

use vstd::prelude::*;

use crate::text::views;

use super::node::{Axis, PaneId, PaneSize, PaneVisibility, FLEX_ONE_BITS};
use super::shape::{lemma_ids_nonempty, lemma_ids_of_concat, lemma_ids_of_push, lemma_ids_of_single, lemma_with_size};
use super::tree::{
    DockLayout, DockTree, TreeShape, all_splits_ok, find, ids, ids_of, lemma_all_splits_ok,
    lemma_find, lemma_find_in, lemma_find_in_prefix, find_in, lemma_shapes_of, shapes_of, splits_ok, valid,
    with_size, FORMAT_VERSION,
};

verus! {

/// The elements of `s` whose membership in `keep` is `want`, in order.
pub open spec fn select(s: Seq<Seq<char>>, keep: Seq<Seq<char>>, want: bool) -> Seq<Seq<char>>
    decreases s.len(),
{
    if s.len() == 0 {
        Seq::<Seq<char>>::empty()
    } else {
        select(s.drop_last(), keep, want) + if keep.contains(s.last()) == want {
            seq![s.last()]
        } else {
            Seq::<Seq<char>>::empty()
        }
    }
}

/// `select` distributes over concatenation.
pub proof fn lemma_select_concat(a: Seq<Seq<char>>, b: Seq<Seq<char>>, keep: Seq<Seq<char>>, want: bool)
    ensures
        select(a + b, keep, want) == select(a, keep, want) + select(b, keep, want),
    decreases b.len(),
{
    if b.len() == 0 {
        assert(a + b =~= a);
        assert(select(a, keep, want) + select(b, keep, want) =~= select(a, keep, want));
    } else {
        lemma_select_concat(a, b.drop_last(), keep, want);
        assert((a + b).drop_last() =~= a + b.drop_last());
        assert((a + b).last() == b.last());
        let tail = if keep.contains(b.last()) == want {
            seq![b.last()]
        } else {
            Seq::<Seq<char>>::empty()
        };
        assert(select(a, keep, want) + select(b.drop_last(), keep, want) + tail
            =~= select(a, keep, want) + (select(b.drop_last(), keep, want) + tail));
    }
}

/// What `select` holds: exactly the elements of `s` on the wanted side.
pub proof fn lemma_select_contains(s: Seq<Seq<char>>, keep: Seq<Seq<char>>, want: bool, x: Seq<char>)
    ensures
        select(s, keep, want).contains(x) <==> (s.contains(x) && keep.contains(x) == want),
    decreases s.len(),
{
    if s.len() > 0 {
        lemma_select_contains(s.drop_last(), keep, want, x);
        let a = select(s.drop_last(), keep, want);
        let tail = if keep.contains(s.last()) == want {
            seq![s.last()]
        } else {
            Seq::<Seq<char>>::empty()
        };
        if (a + tail).contains(x) {
            let k = choose|k: int| 0 <= k < (a + tail).len() && (a + tail)[k] == x;
            if k < a.len() {
                assert(a[k] == x);
            } else {
                assert(tail[k - a.len()] == x);
                assert(s[s.len() - 1] == x);
            }
        }
        if s.contains(x) && keep.contains(x) == want {
            let k = choose|k: int| 0 <= k < s.len() && s[k] == x;
            if k < s.len() - 1 {
                assert(s.drop_last()[k] == x);
                let j = choose|j: int| 0 <= j < a.len() && a[j] == x;
                assert((a + tail)[j] == x);
            } else {
                assert((a + tail)[a.len() as int] == x);
            }
        }
    }
}

/// `select` of a duplicate-free sequence is duplicate-free.
pub proof fn lemma_select_no_dup(s: Seq<Seq<char>>, keep: Seq<Seq<char>>, want: bool)
    requires
        s.no_duplicates(),
    ensures
        select(s, keep, want).no_duplicates(),
    decreases s.len(),
{
    if s.len() > 0 {
        let init = s.drop_last();
        assert(init.no_duplicates()) by {
            assert forall|i: int, j: int| 0 <= i < init.len() && 0 <= j < init.len() && i != j implies init[i] != init[j] by {
                assert(init[i] == s[i] && init[j] == s[j]);
            }
        }
        lemma_select_no_dup(init, keep, want);
        let a = select(init, keep, want);
        if keep.contains(s.last()) == want {
            lemma_select_contains(init, keep, want, s.last());
            if init.contains(s.last()) {
                let k = choose|k: int| 0 <= k < init.len() && init[k] == s.last();
                assert(s[k] == s[s.len() - 1]);
            }
            assert(a + seq![s.last()] =~= a.push(s.last()));
            assert forall|i: int, j: int| 0 <= i < a.push(s.last()).len() && 0 <= j < a.push(s.last()).len() && i != j implies a.push(s.last())[i] != a.push(s.last())[j] by {
                if i < a.len() && j == a.len() {
                    assert(a.contains(a[i]));
                } else if j < a.len() && i == a.len() {
                    assert(a.contains(a[j]));
                }
            }
        } else {
            assert(a + Seq::<Seq<char>>::empty() =~= a);
        }
    }
}

/// A node pruned to the panes whose ids `keep` lists; `None` if nothing is left.
/// A split left with one child collapses into it, which inherits its share.
pub open spec fn prune_shape(t: TreeShape, keep: Seq<Seq<char>>) -> Option<TreeShape>
    decreases t,
{
    match t {
        TreeShape::Pane { id, .. } => if keep.contains(id) {
            Some(t)
        } else {
            None
        },
        TreeShape::Split { axis, size, children } => {
            let kept = prune_all(children, keep);
            if kept.len() == 0 {
                None
            } else if kept.len() == 1 {
                Some(with_size(kept[0], size))
            } else {
                Some(TreeShape::Split { axis, size, children: kept })
            }
        },
    }
}

/// `prune_shape` over a run of siblings, dropping those that vanish.
pub open spec fn prune_all(cs: Seq<TreeShape>, keep: Seq<Seq<char>>) -> Seq<TreeShape>
    decreases cs,
{
    if cs.len() == 0 {
        Seq::<TreeShape>::empty()
    } else {
        prune_all(cs.drop_last(), keep) + match prune_shape(cs.last(), keep) {
            Some(p) => seq![p],
            None => Seq::<TreeShape>::empty(),
        }
    }
}

/// The ids of an optional node.
pub open spec fn ids_opt(t: Option<TreeShape>) -> Seq<Seq<char>> {
    match t {
        Some(p) => ids(p),
        None => Seq::<Seq<char>>::empty(),
    }
}

/// Pruning keeps exactly the listed ids, in order, leaves every split with at
/// least two children, and leaves nothing exactly when no id is listed.
pub proof fn lemma_prune(t: TreeShape, keep: Seq<Seq<char>>)
    ensures
        ids_opt(prune_shape(t, keep)) == select(ids(t), keep, true),
        prune_shape(t, keep) matches Some(p) ==> splits_ok(p),
        prune_shape(t, keep) is None <==> select(ids(t), keep, true).len() == 0,
    decreases t,
{
    lemma_prune_shape(t, keep);
    if let Some(p) = prune_shape(t, keep) {
        lemma_ids_nonempty(p);
    }
}

proof fn lemma_prune_shape(t: TreeShape, keep: Seq<Seq<char>>)
    ensures
        ids_opt(prune_shape(t, keep)) == select(ids(t), keep, true),
        prune_shape(t, keep) matches Some(p) ==> splits_ok(p),
    decreases t,
{
    match t {
        TreeShape::Pane { id, .. } => {
            assert(ids(t) =~= seq![id]);
            assert(seq![id].drop_last() =~= Seq::<Seq<char>>::empty());
            assert(select(seq![id], keep, true) =~= select(Seq::<Seq<char>>::empty(), keep, true) + if keep.contains(id) {
                seq![id]
            } else {
                Seq::<Seq<char>>::empty()
            });
            assert(select(Seq::<Seq<char>>::empty(), keep, true) == Seq::<Seq<char>>::empty());
        },
        TreeShape::Split { axis, size, children } => {
            lemma_prune_all(children, keep);
            let kept = prune_all(children, keep);
            lemma_all_splits_ok(kept);
            if kept.len() == 1 {
                assert(kept =~= seq![kept[0]]);
                lemma_ids_of_single(kept[0]);
                lemma_with_size(kept[0], size);
            }
            if kept.len() == 0 {
                assert(ids_of(kept) == Seq::<Seq<char>>::empty());
            }
        },
    }
}

/// `lemma_prune` for a run of siblings.
pub proof fn lemma_prune_all(cs: Seq<TreeShape>, keep: Seq<Seq<char>>)
    ensures
        ids_of(prune_all(cs, keep)) == select(ids_of(cs), keep, true),
        all_splits_ok(prune_all(cs, keep)),
    decreases cs,
{
    if cs.len() == 0 {
        assert(select(Seq::<Seq<char>>::empty(), keep, true) == Seq::<Seq<char>>::empty());
    } else {
        let init = cs.drop_last();
        lemma_prune_all(init, keep);
        lemma_prune_shape(cs.last(), keep);
        let a = prune_all(init, keep);
        let tail = match prune_shape(cs.last(), keep) {
            Some(p) => seq![p],
            None => Seq::<TreeShape>::empty(),
        };
        lemma_ids_of_concat(a, tail);
        lemma_select_concat(ids_of(init), ids(cs.last()), keep, true);
        match prune_shape(cs.last(), keep) {
            Some(p) => {
                lemma_ids_of_single(p);
                assert(a + tail =~= a.push(p));
            },
            None => {
                assert(ids_of(tail) == Seq::<Seq<char>>::empty());
                assert(a + tail =~= a);
                assert(ids_of(a) + ids_of(tail) =~= ids_of(a));
            },
        }
        lemma_all_splits_ok(a);
        lemma_all_splits_ok(a + tail);
        assert forall|i: int| 0 <= i < (a + tail).len() implies #[trigger] splits_ok((a + tail)[i]) by {
            if i < a.len() {
                assert((a + tail)[i] == a[i]);
            }
        }
    }
}

/// The pane appended for an id the save predates: the declared pane's size,
/// minimum and visibility if the declaration has such a pane, defaults if not.
pub open spec fn fresh_pane(declared: TreeShape, id: Seq<char>) -> TreeShape {
    match find(declared, id) {
        Some(TreeShape::Pane { size, min_size, visibility, .. }) => TreeShape::Pane {
            id,
            size,
            min_size,
            visibility,
        },
        _ => TreeShape::Pane {
            id,
            size: PaneSize::Flex(FLEX_ONE_BITS),
            min_size: None,
            visibility: PaneVisibility::Shown,
        },
    }
}

/// `root` with `p` appended: as the last child of a root split, or beside a
/// lone root pane in a new row.
pub open spec fn append_shape(root: TreeShape, p: TreeShape) -> TreeShape {
    match root {
        TreeShape::Split { axis, size, children } => TreeShape::Split {
            axis,
            size,
            children: children.push(p),
        },
        _ => TreeShape::Split {
            axis: Axis::Row,
            size: PaneSize::Flex(FLEX_ONE_BITS),
            children: seq![root, p],
        },
    }
}

/// `root` with a fresh pane appended, in order, for every id of `wanted`
/// that `present` does not list.
pub open spec fn append_missing(
    root: TreeShape,
    declared: TreeShape,
    wanted: Seq<Seq<char>>,
    present: Seq<Seq<char>>,
) -> TreeShape
    decreases wanted.len(),
{
    if wanted.len() == 0 {
        root
    } else {
        let r = append_missing(root, declared, wanted.drop_last(), present);
        if present.contains(wanted.last()) {
            r
        } else {
            append_shape(r, fresh_pane(declared, wanted.last()))
        }
    }
}

/// Appending a pane adds its id at the end and keeps splits buildable.
pub proof fn lemma_append_shape(root: TreeShape, p: TreeShape)
    requires
        p is Pane,
    ensures
        ids(append_shape(root, p)) == ids(root).push(p->Pane_id),
        splits_ok(root) ==> splits_ok(append_shape(root, p)),
{
    assert(ids(p) =~= seq![p->Pane_id]);
    match root {
        TreeShape::Split { children, .. } => {
            lemma_ids_of_push(children, p);
            lemma_all_splits_ok(children);
            lemma_all_splits_ok(children.push(p));
            if splits_ok(root) {
                assert forall|i: int| 0 <= i < children.push(p).len() implies #[trigger] splits_ok(children.push(p)[i]) by {
                    if i < children.len() {
                        assert(children.push(p)[i] == children[i]);
                    } else {
                        assert(children.push(p)[i] == p);
                    }
                }
            }
        },
        _ => {
            lemma_ids_of_single(root);
            lemma_ids_of_push(seq![root], p);
            assert(seq![root].push(p) =~= seq![root, p]);
            lemma_all_splits_ok(seq![root, p]);
        },
    }
}

/// A fresh pane is a pane of the requested id.
pub proof fn lemma_fresh_pane(declared: TreeShape, id: Seq<char>)
    ensures
        fresh_pane(declared, id) is Pane,
        fresh_pane(declared, id)->Pane_id == id,
{
}

/// Appending the missing ids: the ids grow by exactly those of `wanted` that
/// `present` lacks, and buildable splits stay buildable.
pub proof fn lemma_append_missing(
    root: TreeShape,
    declared: TreeShape,
    wanted: Seq<Seq<char>>,
    present: Seq<Seq<char>>,
)
    ensures
        ids(append_missing(root, declared, wanted, present)) == ids(root) + select(wanted, present, false),
        splits_ok(root) ==> splits_ok(append_missing(root, declared, wanted, present)),
    decreases wanted.len(),
{
    if wanted.len() == 0 {
        assert(ids(root) + select(wanted, present, false) =~= ids(root));
    } else {
        lemma_append_missing(root, declared, wanted.drop_last(), present);
        let r = append_missing(root, declared, wanted.drop_last(), present);
        let id = wanted.last();
        if present.contains(id) {
            assert(select(wanted, present, false) =~= select(wanted.drop_last(), present, false));
        } else {
            lemma_fresh_pane(declared, id);
            lemma_append_shape(r, fresh_pane(declared, id));
            assert(ids(root) + select(wanted.drop_last(), present, false) + seq![id]
                =~= (ids(root) + select(wanted.drop_last(), present, false)).push(id));
        }
    }
}

/// Two duplicate-free sequences with nothing in common concatenate without
/// duplicates.
pub proof fn lemma_no_dup_concat(a: Seq<Seq<char>>, b: Seq<Seq<char>>)
    requires
        a.no_duplicates(),
        b.no_duplicates(),
        forall|x: Seq<char>| a.contains(x) ==> !b.contains(x),
    ensures
        (a + b).no_duplicates(),
{
    assert forall|i: int, j: int| 0 <= i < (a + b).len() && 0 <= j < (a + b).len() && i != j implies (a + b)[i] != (a + b)[j] by {
        if i < a.len() && j >= a.len() {
            assert(a.contains((a + b)[i]));
            assert(b[j - a.len()] == (a + b)[j]);
        } else if j < a.len() && i >= a.len() {
            assert(a.contains((a + b)[j]));
            assert(b[i - a.len()] == (a + b)[i]);
        } else if i >= a.len() && j >= a.len() {
            assert(b[i - a.len()] == (a + b)[i]);
            assert(b[j - a.len()] == (a + b)[j]);
        }
    }
}

/// The missing ids never repeat what is present, so appending them to a
/// duplicate-free tree stays duplicate-free.
pub proof fn lemma_appended_ids_fresh(present: Seq<Seq<char>>, wanted: Seq<Seq<char>>)
    requires
        present.no_duplicates(),
        wanted.no_duplicates(),
    ensures
        (present + select(wanted, present, false)).no_duplicates(),
{
    lemma_select_no_dup(wanted, present, false);
    assert forall|x: Seq<char>| present.contains(x) implies !select(wanted, present, false).contains(x) by {
        lemma_select_contains(wanted, present, false, x);
    }
    lemma_no_dup_concat(present, select(wanted, present, false));
}

/// The tree a save reconciles to: the save, plus a fresh pane for every id
/// the declaration has and the save lacks.
pub open spec fn reconcile_shape(saved: TreeShape, declared: TreeShape) -> TreeShape {
    append_missing(saved, declared, ids(declared), ids(saved))
}

/// The tree a save reconciles to when unknown panes are dropped first: the
/// save pruned to declared ids (the declaration itself if nothing survives),
/// plus a fresh pane for every declared id that is still missing.
pub open spec fn reconcile_dropping_shape(saved: TreeShape, declared: TreeShape) -> TreeShape {
    let base = match prune_shape(saved, ids(declared)) {
        Some(p) => p,
        None => declared,
    };
    append_missing(base, declared, ids(declared), ids(base))
}

proof fn lemma_append_nothing(
    root: TreeShape,
    declared: TreeShape,
    wanted: Seq<Seq<char>>,
    present: Seq<Seq<char>>,
)
    requires
        forall|x: Seq<char>| wanted.contains(x) ==> present.contains(x),
    ensures
        append_missing(root, declared, wanted, present) == root,
    decreases wanted.len(),
{
    if wanted.len() > 0 {
        assert forall|x: Seq<char>| wanted.drop_last().contains(x) implies present.contains(x) by {
            let k = choose|k: int| 0 <= k < wanted.drop_last().len() && wanted.drop_last()[k] == x;
            assert(wanted[k] == x);
        }
        lemma_append_nothing(root, declared, wanted.drop_last(), present);
        assert(wanted[wanted.len() - 1] == wanted.last());
    }
}

/// An identical save reconciles to itself: a layout saved from this very
/// declaration comes back unchanged.
pub proof fn lemma_identical_save_reconciles_to_itself(t: TreeShape)
    ensures
        reconcile_shape(t, t) == t,
{
    lemma_append_nothing(t, t, ids(t), ids(t));
}

/// A save that already holds every declared pane, such as one captured after
/// a runtime split, comes back from reconciliation exactly as saved.
pub proof fn lemma_covering_save_comes_back_unchanged(saved: TreeShape, declared: TreeShape)
    requires
        forall|x: Seq<char>| ids(declared).contains(x) ==> ids(saved).contains(x),
    ensures
        reconcile_shape(saved, declared) == saved,
{
    lemma_append_nothing(saved, declared, ids(declared), ids(saved));
}

proof fn lemma_find_after_append(root: TreeShape, p: TreeShape, id: Seq<char>)
    requires
        ids(root).contains(id),
    ensures
        find(append_shape(root, p), id) == find(root, id),
{
    lemma_find(root, id);
    match root {
        TreeShape::Split { children, .. } => {
            let cs = children.push(p);
            assert(cs.take(children.len() as int) =~= children);
            lemma_find_in_prefix(cs, children.len() as int, id);
        },
        _ => {
            let cs = seq![root, p];
            assert(cs.take(1) =~= seq![root]);
            assert(seq![root].drop_last() =~= Seq::<TreeShape>::empty());
            assert(seq![root].last() == root);
            assert(find_in(Seq::<TreeShape>::empty(), id).is_none());
            assert(find_in(seq![root], id) == find(root, id));
            lemma_find_in_prefix(cs, 1, id);
        },
    }
}

proof fn lemma_find_after_append_missing(
    root: TreeShape,
    declared: TreeShape,
    wanted: Seq<Seq<char>>,
    present: Seq<Seq<char>>,
    id: Seq<char>,
)
    requires
        ids(root).contains(id),
    ensures
        find(append_missing(root, declared, wanted, present), id) == find(root, id),
    decreases wanted.len(),
{
    if wanted.len() > 0 {
        lemma_find_after_append_missing(root, declared, wanted.drop_last(), present, id);
        let r = append_missing(root, declared, wanted.drop_last(), present);
        if !present.contains(wanted.last()) {
            lemma_append_missing(root, declared, wanted.drop_last(), present);
            let k = choose|k: int| 0 <= k < ids(root).len() && ids(root)[k] == id;
            assert(ids(r)[k] == id);
            lemma_find_after_append(r, fresh_pane(declared, wanted.last()), id);
        }
    }
}

/// User choices survive reconciliation: every pane the save holds comes back
/// exactly as saved (its size, minimum and visibility), whatever the
/// declaration says of it.
pub proof fn lemma_saved_panes_survive(saved: TreeShape, declared: TreeShape, id: Seq<char>)
    requires
        ids(saved).contains(id),
    ensures
        find(reconcile_shape(saved, declared), id) == find(saved, id),
{
    lemma_find_after_append_missing(saved, declared, ids(declared), ids(saved), id);
}

proof fn lemma_find_appended_new(root: TreeShape, p: TreeShape, id: Seq<char>)
    requires
        !ids(root).contains(id),
        p is Pane,
        p->Pane_id == id,
    ensures
        find(append_shape(root, p), id) == Some(p),
{
    lemma_find(root, id);
    match root {
        TreeShape::Split { children, .. } => {
            let cs = children.push(p);
            lemma_find_in(children, id);
            assert(cs.drop_last() =~= children);
            assert(cs.last() == p);
            assert(find_in(children, id).is_none());
            assert(find(p, id) == Some(p));
            assert(find_in(cs, id) == Some(p));
        },
        _ => {
            let cs = seq![root, p];
            assert(cs.drop_last() =~= seq![root]);
            assert(seq![root].drop_last() =~= Seq::<TreeShape>::empty());
            assert(seq![root].last() == root);
            assert(find_in(Seq::<TreeShape>::empty(), id).is_none());
            assert(find_in(seq![root], id).is_none());
            assert(cs.last() == p);
            assert(find(p, id) == Some(p));
            assert(find_in(cs, id) == Some(p));
        },
    }
}

/// Appending a pane the save predates: the ids grow by exactly that id, at
/// the end; the pane is found there as the build declares it; a buildable
/// tree stays buildable.
pub proof fn lemma_append_pane(root: TreeShape, declared: TreeShape, id: Seq<char>)
    requires
        !ids(root).contains(id),
    ensures
        ids(append_shape(root, fresh_pane(declared, id))) == ids(root).push(id),
        find(append_shape(root, fresh_pane(declared, id)), id) == Some(fresh_pane(declared, id)),
        splits_ok(root) ==> splits_ok(append_shape(root, fresh_pane(declared, id))),
{
    lemma_fresh_pane(declared, id);
    lemma_append_shape(root, fresh_pane(declared, id));
    lemma_find_appended_new(root, fresh_pane(declared, id), id);
}

proof fn lemma_find_fresh(
    root: TreeShape,
    declared: TreeShape,
    wanted: Seq<Seq<char>>,
    present: Seq<Seq<char>>,
    id: Seq<char>,
)
    requires
        !present.contains(id),
        !ids(root).contains(id),
    ensures
        wanted.contains(id) ==> find(append_missing(root, declared, wanted, present), id) == Some(
            fresh_pane(declared, id),
        ),
        !wanted.contains(id) ==> !ids(append_missing(root, declared, wanted, present)).contains(id),
    decreases wanted.len(),
{
    if wanted.len() == 0 {
    } else {
        let w = wanted.drop_last();
        let last = wanted.last();
        lemma_find_fresh(root, declared, w, present, id);
        let r = append_missing(root, declared, w, present);
        assert(wanted[wanted.len() - 1] == last);
        assert(wanted.contains(id) ==> w.contains(id) || last == id) by {
            if wanted.contains(id) {
                let k = choose|k: int| 0 <= k < wanted.len() && wanted[k] == id;
                if k < w.len() {
                    assert(w[k] == id);
                }
            }
        }
        assert(w.contains(id) ==> wanted.contains(id)) by {
            if w.contains(id) {
                let k = choose|k: int| 0 <= k < w.len() && w[k] == id;
                assert(wanted[k] == id);
            }
        }
        if !present.contains(last) {
            let p = fresh_pane(declared, last);
            lemma_fresh_pane(declared, last);
            lemma_append_shape(r, p);
            if w.contains(id) {
                lemma_find(r, id);
                lemma_find_after_append(r, p, id);
            } else if last == id {
                lemma_find_appended_new(r, p, id);
            } else {
                assert(!ids(r).push(last).contains(id)) by {
                    if ids(r).push(last).contains(id) {
                        let k = choose|k: int| 0 <= k < ids(r).push(last).len() && ids(r).push(last)[k] == id;
                        assert(ids(r)[k] == id);
                    }
                }
            }
        }
    }
}

/// A pane the save predates comes back with the size, minimum and visibility
/// it was declared with.
pub proof fn lemma_new_pane_keeps_its_declared_size(saved: TreeShape, declared: TreeShape, id: Seq<char>)
    requires
        ids(declared).contains(id),
        !ids(saved).contains(id),
    ensures
        find(reconcile_shape(saved, declared), id) == Some(fresh_pane(declared, id)),
{
    lemma_find_fresh(saved, declared, ids(declared), ids(saved), id);
}

impl DockTree {
    /// Prune to the panes whose ids `keep` lists, appending the ids of the
    /// others to `dropped` in layout order.
    #[verifier::loop_isolation(false)]
    pub fn prune(self, keep: &Vec<String>, dropped: &mut Vec<String>) -> (r: Option<DockTree>)
        ensures
            match r {
                Some(t) => prune_shape(self@, keep@.map_values(|x: String| x@)) == Some(t@),
                None => prune_shape(self@, keep@.map_values(|x: String| x@)) is None,
            },
            final(dropped)@.map_values(|x: String| x@) == old(dropped)@.map_values(|x: String| x@)
                + select(ids(self@), keep@.map_values(|x: String| x@), false),
            r is None <==> select(ids(self@), keep@.map_values(|x: String| x@), true).len() == 0,
            r matches Some(t) ==> ids(t@) == select(ids(self@), keep@.map_values(|x: String| x@), true)
                && splits_ok(t@),
        decreases self@,
    {
        let ghost t = self@;
        let ghost kv = keep@.map_values(|x: String| x@);
        proof {
            lemma_prune(t, kv);
        }
        match self {
            DockTree::Pane { id, size, min_size, visibility } => {
                proof {
                    assert(ids(t) =~= seq![id@]);
                    assert(seq![id@].drop_last() =~= Seq::<Seq<char>>::empty());
                    assert(select(Seq::<Seq<char>>::empty(), kv, false) == Seq::<Seq<char>>::empty());
                }
                if crate::text::contains_str(keep, id.as_str()) {
                    proof {
                        assert(select(seq![id@], kv, false) =~= Seq::<Seq<char>>::empty());
                        assert(dropped@.map_values(|x: String| x@) + Seq::<Seq<char>>::empty()
                            =~= dropped@.map_values(|x: String| x@));
                    }
                    Some(DockTree::Pane { id, size, min_size, visibility })
                } else {
                    let ghost before = dropped@.map_values(|x: String| x@);
                    dropped.push(id.0.clone());
                    proof {
                        assert(select(seq![id@], kv, false) =~= seq![id@]);
                        assert(dropped@.map_values(|x: String| x@) =~= before + seq![id@]);
                    }
                    None
                }
            },
            DockTree::Split { axis, size, mut children } => {
                let ghost cs = shapes_of(children@);
                let ghost start = dropped@.map_values(|x: String| x@);
                proof {
                    lemma_shapes_of(children@);
                }
                let mut kept: Vec<DockTree> = Vec::new();
                let mut i: usize = 0;
                let n = children.len();
                while children.len() > 0
                    invariant
                        i + children.len() == n,
                        n == cs.len(),
                        shapes_of(children@) == cs.skip(i as int),
                        shapes_of(kept@) == prune_all(cs.take(i as int), kv),
                        dropped@.map_values(|x: String| x@) == start + select(ids_of(cs.take(i as int)), kv, false),
                    decreases children.len(),
                {
                    proof {
                        lemma_shapes_of(children@);
                    }
                    let ghost old_ch = children@;
                    let c = children.remove(0);
                    proof {
                        assert(c == old_ch[0]);
                        assert(shapes_of(old_ch)[0] == cs.skip(i as int)[0]);
                        assert(c@ == cs[i as int]);
                        lemma_shapes_of(children@);
                        assert forall|k: int| 0 <= k < children@.len() implies shapes_of(children@)[k] == cs.skip(i + 1)[k] by {
                            assert(children@[k] == old_ch[k + 1]);
                            assert(shapes_of(old_ch)[k + 1] == cs.skip(i as int)[k + 1]);
                        }
                        assert(decreases_to!(t => cs[i as int]));
                        lemma_shapes_of(children@);
                        assert(shapes_of(children@) =~= cs.skip(i + 1));
                        assert(cs.take(i + 1).drop_last() =~= cs.take(i as int));
                        assert(cs.take(i + 1).last() == cs[i as int]);
                        lemma_select_concat(ids_of(cs.take(i as int)), ids(cs[i as int]), kv, false);
                    }
                    let ghost before_kept = kept@;
                    match c.prune(keep, dropped) {
                        Some(p) => {
                            kept.push(p);
                            proof {
                                assert(kept@.drop_last() =~= before_kept);
                            }
                        },
                        None => {
                            proof {
                                assert(prune_all(cs.take(i as int), kv) + Seq::<TreeShape>::empty()
                                    =~= prune_all(cs.take(i as int), kv));
                            }
                        },
                    }
                    proof {
                        assert(start + select(ids_of(cs.take(i as int)), kv, false) + select(ids(cs[i as int]), kv, false)
                            =~= start + (select(ids_of(cs.take(i as int)), kv, false) + select(ids(cs[i as int]), kv, false)));
                    }
                    i += 1;
                }
                proof {
                    assert(cs.take(i as int) =~= cs);
                    lemma_shapes_of(kept@);
                }
                if kept.len() == 0 {
                    None
                } else if kept.len() == 1 {
                    let survivor = kept.remove(0);
                    Some(survivor.with_size(size))
                } else {
                    Some(DockTree::Split { axis, size, children: kept })
                }
            },
        }
    }

    /// Append `p` to this root: as a last child if it is a split, beside it
    /// in a new row if it is a lone pane.
    fn append(self, p: DockTree) -> (r: DockTree)
        ensures
            r@ == append_shape(self@, p@),
    {
        match self {
            DockTree::Split { axis, size, mut children } => {
                let ghost before = children@;
                children.push(p);
                proof {
                    lemma_shapes_of(before);
                    lemma_shapes_of(children@);
                    assert(shapes_of(children@) =~= shapes_of(before).push(p@));
                }
                DockTree::Split { axis, size, children }
            },
            pane => {
                let mut children: Vec<DockTree> = Vec::new();
                children.push(pane);
                children.push(p);
                proof {
                    lemma_shapes_of(children@);
                    assert(shapes_of(children@) =~= seq![children@[0]@, children@[1]@]);
                }
                DockTree::split(Axis::Row, children)
            },
        }
    }

    /// The pane to append for `id`, taking size, minimum and visibility from
    /// the declared tree when it has such a pane.
    fn fresh_from(declared: &DockTree, id: &PaneId) -> (r: DockTree)
        ensures
            r@ == fresh_pane(declared@, id@),
    {
        proof {
            lemma_find(declared@, id@);
        }
        match declared.find_pane(id.as_str()) {
            Some(DockTree::Pane { size, min_size, visibility, .. }) => DockTree::Pane {
                id: id.clone(),
                size: *size,
                min_size: *min_size,
                visibility: *visibility,
            },
            _ => DockTree::Pane {
                id: id.clone(),
                size: PaneSize::Flex(FLEX_ONE_BITS),
                min_size: None,
                visibility: PaneVisibility::Shown,
            },
        }
    }
}


/// `root` with the pane `id` appended, as the build declares it: its size,
/// minimum and visibility from `declared`, defaults if `declared` has no
/// such pane. A root split gets it as its last child; a lone root pane is
/// put beside it in a new row.
pub fn append_pane(root: DockTree, declared: &DockTree, id: &PaneId) -> (r: DockTree)
    ensures
        r@ == append_shape(root@, fresh_pane(declared@, id@)),
        ids(r@) == ids(root@).push(id@),
        splits_ok(root@) ==> splits_ok(r@),
        !ids(root@).contains(id@) ==> find(r@, id@) == Some(fresh_pane(declared@, id@)),
{
    proof {
        lemma_fresh_pane(declared@, id@);
        lemma_append_shape(root@, fresh_pane(declared@, id@));
        if !ids(root@).contains(id@) {
            lemma_append_pane(root@, declared@, id@);
        }
    }
    let p = DockTree::fresh_from(declared, id);
    root.append(p)
}

/// `root` with a fresh pane appended for every id of `declared` that
/// `present` does not list.
fn append_missing_panes(root: DockTree, declared: &DockTree, present: &Vec<String>) -> (r: DockTree)
    ensures
        r@ == append_missing(root@, declared@, ids(declared@), present@.map_values(|x: String| x@)),
{
    let wanted = declared.pane_ids();
    let ghost w = wanted@.map_values(|p: PaneId| p@);
    let ghost pv = present@.map_values(|x: String| x@);
    let mut root = root;
    let ghost root0 = root@;
    let mut i: usize = 0;
    while i < wanted.len()
        invariant
            i <= wanted.len(),
            w == wanted@.map_values(|p: PaneId| p@),
            w == ids(declared@),
            pv == present@.map_values(|x: String| x@),
            root@ == append_missing(root0, declared@, w.take(i as int), pv),
        decreases wanted.len() - i,
    {
        proof {
            assert(w.take(i + 1).drop_last() =~= w.take(i as int));
            assert(w.take(i + 1).last() == w[i as int]);
            assert(w[i as int] == wanted@[i as int]@);
        }
        if !crate::text::contains_str(present, wanted[i].as_str()) {
            root = append_pane(root, declared, &wanted[i]);
        }
        i += 1;
    }
    proof {
        assert(w.take(i as int) =~= w);
    }
    root
}

/// The ids of a tree, as strings.
pub(crate) fn id_strings(t: &DockTree) -> (r: Vec<String>)
    ensures
        r@.map_values(|x: String| x@) == ids(t@),
{
    let ids_now = t.pane_ids();
    let mut out: Vec<String> = Vec::new();
    let mut i: usize = 0;
    while i < ids_now.len()
        invariant
            i <= ids_now.len(),
            out@.map_values(|x: String| x@) == ids_now@.map_values(|p: PaneId| p@).take(i as int),
        decreases ids_now.len() - i,
    {
        let ghost before = out@;
        let x = ids_now[i].0.clone();
        out.push(x);
        proof {
            assert(out@ =~= before.push(x));
            assert(x@ == ids_now@[i as int]@);
            assert(out@.map_values(|x: String| x@) =~= before.map_values(|x: String| x@).push(x@));
            assert(out@.map_values(|x: String| x@) =~= ids_now@.map_values(|p: PaneId| p@).take(i + 1));
        }
        i += 1;
    }
    assert(ids_now@.map_values(|p: PaneId| p@).take(i as int) =~= ids_now@.map_values(|p: PaneId| p@));
    out
}

impl DockLayout {
    /// A copy of the live layout to save, or `None` before one is built or
    /// while it has no pane: a save during startup must not write an empty
    /// tree over a good file.
    pub fn capture(live: Option<&DockLayout>) -> (r: Option<DockLayout>)
        ensures
            r is Some <==> (live matches Some(l) && ids(l.root@).len() > 0),
            r matches Some(l) ==> l.root@ == live.unwrap().root@ && l.version == live.unwrap().version,
    {
        match live {
            Some(layout) => {
                let ids_now = layout.pane_ids();
                proof {
                    assert(ids_now@.map_values(|p: PaneId| p@).len() == ids_now@.len());
                }
                if ids_now.len() == 0 {
                    None
                } else {
                    Some(DockLayout { version: layout.version, root: layout.root.clone() })
                }
            },
            None => None,
        }
    }

    /// Reconcile this saved layout against the layout this build declares.
    ///
    /// Panes the build declares that the save predates are appended, each
    /// with its declared size; panes only the save has are kept. The result
    /// is at the current schema version.
    pub fn reconcile_against(&self, declared: &DockLayout) -> (r: DockLayout)
        ensures
            r.version == FORMAT_VERSION,
            r.root@ == reconcile_shape(self.root@, declared.root@),
            ids(r.root@) == ids(self.root@) + select(ids(declared.root@), ids(self.root@), false),
            valid(self.root@) && valid(declared.root@) ==> valid(r.root@),
    {
        let present = id_strings(&self.root);
        let root = append_missing_panes(self.root.clone(), &declared.root, &present);
        proof {
            lemma_append_missing(self.root@, declared.root@, ids(declared.root@), ids(self.root@));
            if valid(self.root@) && valid(declared.root@) {
                lemma_appended_ids_fresh(ids(self.root@), ids(declared.root@));
            }
        }
        DockLayout { version: FORMAT_VERSION, root }
    }

    /// Reconcile this saved layout against the declared one under the
    /// stricter policy: saved panes the build no longer declares are dropped
    /// first, as for a host whose panes are all declared and whose retired
    /// panels should disappear. [`reconcile_against`](Self::reconcile_against)
    /// is the lenient policy, which keeps them.
    ///
    /// If nothing of the save survives, the declared tree is used. Panes the
    /// build declares that are still missing are then appended.
    pub fn reconcile_dropping_unknown(&self, declared: &DockLayout) -> (r: DockLayout)
        ensures
            r.version == FORMAT_VERSION,
            r.root@ == reconcile_dropping_shape(self.root@, declared.root@),
            valid(self.root@) && valid(declared.root@) ==> valid(r.root@),
    {
        let known = id_strings(&declared.root);
        let mut dropped: Vec<String> = Vec::new();
        let base = match self.root.clone().prune(&known, &mut dropped) {
            Some(p) => p,
            None => declared.root.clone(),
        };
        let present = id_strings(&base);
        let root = append_missing_panes(base, &declared.root, &present);
        proof {
            let pr = prune_shape(self.root@, ids(declared.root@));
            lemma_prune(self.root@, ids(declared.root@));
            lemma_append_missing(base@, declared.root@, ids(declared.root@), ids(base@));
            if valid(self.root@) && valid(declared.root@) {
                if pr is Some {
                    lemma_select_no_dup(ids(self.root@), ids(declared.root@), true);
                }
                lemma_appended_ids_fresh(ids(base@), ids(declared.root@));
            }
        }
        DockLayout { version: FORMAT_VERSION, root }
    }

    /// Reconcile and check: the reconciled layout if it is buildable, `None`
    /// (keep the declared layout) if it is not.
    pub fn apply(&self, declared: &DockLayout) -> (r: Option<DockLayout>)
        ensures
            r is Some <==> valid(reconcile_shape(self.root@, declared.root@)),
            r matches Some(l) ==> l.root@ == reconcile_shape(self.root@, declared.root@),
    {
        let reconciled = self.reconcile_against(declared);
        match reconciled.validate() {
            Ok(()) => Some(reconciled),
            Err(_) => None,
        }
    }

    /// Keep only panes whose ids `keep` lists, collapsing emptied splits, and
    /// return the ids dropped, in layout order.
    ///
    /// If nothing would survive, the layout is left as it is and nothing is
    /// reported dropped: a tree with no panes is not a layout.
    pub fn retain_pane_ids(&mut self, keep: &Vec<String>) -> (dropped: Vec<String>)
        ensures
            final(self).version == old(self).version,
            match prune_shape(old(self).root@, keep@.map_values(|x: String| x@)) {
                Some(p) => final(self).root@ == p && dropped@.map_values(|x: String| x@) == select(
                    ids(old(self).root@),
                    keep@.map_values(|x: String| x@),
                    false,
                ),
                None => final(self).root@ == old(self).root@ && dropped@.len() == 0,
            },
            valid(old(self).root@) ==> valid(final(self).root@),
            ids(final(self).root@) == if prune_shape(old(self).root@, keep@.map_values(|x: String| x@)) is Some {
                select(ids(old(self).root@), keep@.map_values(|x: String| x@), true)
            } else {
                ids(old(self).root@)
            },
    {
        let mut dropped: Vec<String> = Vec::new();
        let ghost before = dropped@.map_values(|x: String| x@);
        assert(before =~= Seq::<Seq<char>>::empty());
        let ghost kv = keep@.map_values(|x: String| x@);
        proof {
            lemma_prune(self.root@, kv);
            if valid(self.root@) {
                lemma_select_no_dup(ids(self.root@), kv, true);
            }
        }
        match self.root.clone().prune(keep, &mut dropped) {
            Some(p) => {
                self.root = p;
                proof {
                    assert(dropped@.map_values(|x: String| x@) =~= select(ids(old(self).root@), kv, false));
                }
                dropped
            },
            None => Vec::new(),
        }
    }
}

impl DockLayout {
    /// Drop panes the host says are gone: `keep` is asked once per pane, in
    /// layout order, and the panes it refuses are removed as by
    /// [`retain_pane_ids`](Self::retain_pane_ids). Returns the dropped ids.
    pub fn retain_panes(&mut self, keep: impl Fn(&str) -> bool) -> (dropped: Vec<String>)
        requires
            forall|s: &str| keep.requires((s,)),
        ensures
            final(self).version == old(self).version,
            exists|kept: Seq<Seq<char>>|
                #![trigger prune_shape(old(self).root@, kept)]
            {
                &&& forall|x: Seq<char>| #[trigger] kept.contains(x) ==> ids(old(self).root@).contains(x)
                    && exists|s: &str| s@ == x && keep.ensures((s,), true)
                &&& forall|x: Seq<char>| ids(old(self).root@).contains(x) && !#[trigger] kept.contains(x)
                    ==> exists|s: &str| s@ == x && keep.ensures((s,), false)
                &&& match prune_shape(old(self).root@, kept) {
                    Some(p) => final(self).root@ == p && dropped@.map_values(|x: String| x@) == select(
                        ids(old(self).root@),
                        kept,
                        false,
                    ),
                    None => final(self).root@ == old(self).root@ && dropped@.len() == 0,
                }
            },
            valid(old(self).root@) ==> valid(final(self).root@),
    {
        let ghost old_root = self.root@;
        let all = id_strings(&self.root);
        let ghost av = all@.map_values(|x: String| x@);
        let mut kept: Vec<String> = Vec::new();
        let mut i: usize = 0;
        while i < all.len()
            invariant
                i <= all.len(),
                forall|s: &str| keep.requires((s,)),
                av == all@.map_values(|x: String| x@),
                forall|x: Seq<char>| #[trigger] views(kept@).contains(x)
                    ==> av.take(i as int).contains(x) && exists|s: &str| s@ == x && keep.ensures((s,), true),
                forall|x: Seq<char>| av.take(i as int).contains(x) && !#[trigger] views(kept@).contains(x)
                    ==> exists|s: &str| s@ == x && keep.ensures((s,), false),
            decreases all.len() - i,
        {
            let ghost before = views(kept@);
            let s = all[i].as_str();
            let b = keep(s);
            if b {
                kept.push(all[i].clone());
                proof {
                    assert(views(kept@) =~= before.push(av[i as int]));
                }
            } else {
                proof {
                    assert(views(kept@) =~= before);
                }
            }
            proof {
                let now = views(kept@);
                assert(av.take(i + 1) =~= av.take(i as int).push(av[i as int]));
                assert forall|x: Seq<char>| #[trigger] now.contains(x) implies av.take(i + 1).contains(x)
                    && exists|s: &str| s@ == x && keep.ensures((s,), true) by {
                    if before.contains(x) {
                        let t0 = av.take(i as int);
                        let k = choose|k: int| 0 <= k < t0.len() && t0[k] == x;
                        assert(av.take(i + 1)[k] == x);
                    } else {
                        let k = choose|k: int| 0 <= k < now.len() && now[k] == x;
                        assert(k == before.len());
                        assert(av.take(i + 1)[i as int] == x);
                    }
                }
                assert forall|x: Seq<char>| av.take(i + 1).contains(x) && !#[trigger] now.contains(x)
                    implies exists|s: &str| s@ == x && keep.ensures((s,), false) by {
                    let t1 = av.take(i + 1);
                    let k = choose|k: int| 0 <= k < t1.len() && t1[k] == x;
                    if k < i {
                        assert(av.take(i as int)[k] == x);
                        if before.contains(x) {
                            let j = choose|j: int| 0 <= j < before.len() && before[j] == x;
                            assert(now[j] == x);
                        }
                    } else {
                        if b {
                            assert(now[before.len() as int] == x);
                        }
                    }
                }
            }
            i += 1;
        }
        proof {
            assert(av.take(i as int) =~= av);
        }
        let dropped = self.retain_pane_ids(&kept);
        proof {
            let kv = views(kept@);
            assert(kv == kept@.map_values(|x: String| x@));
            assert(av == ids(old_root));
            let _ = prune_shape(old_root, kv);
        }
        dropped
    }
}

} // verus!
