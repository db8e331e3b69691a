//! Facts about tree shapes that the edits rely on: how pane ids concatenate
//! across siblings, and how the buildability rule survives slicing.

use vstd::prelude::*;

use super::tree::{TreeShape, ids, ids_of, splits_ok, all_splits_ok, lemma_all_splits_ok, with_size, size_of};

verus! {

/// The first sibling satisfying `p`, or the run's length if none does.
pub closed spec fn first_where(cs: Seq<TreeShape>, p: spec_fn(TreeShape) -> bool) -> int {
    if exists|i: int| 0 <= i < cs.len() && #[trigger] p(cs[i]) {
        choose|i: int| 0 <= i < cs.len() && p(cs[i]) && forall|k: int| 0 <= k < i ==> !#[trigger] p(cs[k])
    } else {
        cs.len() as int
    }
}

/// `first_where` is the least index satisfying `p`.
pub proof fn lemma_first_where(cs: Seq<TreeShape>, p: spec_fn(TreeShape) -> bool)
    ensures
        0 <= first_where(cs, p) <= cs.len(),
        first_where(cs, p) < cs.len() ==> p(cs[first_where(cs, p)]),
        forall|k: int| 0 <= k < first_where(cs, p) ==> !#[trigger] p(cs[k]),
{
    if exists|i: int| 0 <= i < cs.len() && #[trigger] p(cs[i]) {
        lemma_least_exists(cs, p, cs.len() as int);
    }
}

/// Any run with a satisfying index below `n` has a least one.
proof fn lemma_least_exists(cs: Seq<TreeShape>, p: spec_fn(TreeShape) -> bool, n: int)
    requires
        0 <= n <= cs.len(),
        exists|i: int| 0 <= i < n && #[trigger] p(cs[i]),
    ensures
        exists|i: int| 0 <= i < cs.len() && p(cs[i]) && forall|k: int| 0 <= k < i ==> !#[trigger] p(cs[k]),
    decreases n,
{
    if exists|i: int| 0 <= i < n - 1 && #[trigger] p(cs[i]) {
        lemma_least_exists(cs, p, n - 1);
    } else {
        assert(p(cs[n - 1]));
        assert forall|k: int| 0 <= k < n - 1 implies !#[trigger] p(cs[k]) by {}
    }
}

/// A scan that stopped at the first satisfying index found `first_where`.
pub proof fn lemma_first_where_is(cs: Seq<TreeShape>, p: spec_fn(TreeShape) -> bool, i: int)
    requires
        0 <= i <= cs.len(),
        i < cs.len() ==> p(cs[i]),
        forall|k: int| 0 <= k < i ==> !#[trigger] p(cs[k]),
    ensures
        first_where(cs, p) == i,
{
    lemma_first_where(cs, p);
    let f = first_where(cs, p);
    if f < i {
        assert(!p(cs[f]));
    }
    if i < f {
        assert(!p(cs[i]));
    }
}

/// Pane ids distribute over concatenated runs.
pub proof fn lemma_ids_of_concat(a: Seq<TreeShape>, b: Seq<TreeShape>)
    ensures
        ids_of(a + b) == ids_of(a) + ids_of(b),
    decreases b.len(),
{
    if b.len() == 0 {
        assert(a + b =~= a);
        assert(ids_of(a) + ids_of(b) =~= ids_of(a));
    } else {
        lemma_ids_of_concat(a, b.drop_last());
        assert((a + b).drop_last() =~= a + b.drop_last());
        assert((a + b).last() == b.last());
        assert(ids_of(a) + ids_of(b.drop_last()) + ids(b.last()) =~= ids_of(a) + (ids_of(b.drop_last()) + ids(b.last())));
    }
}

/// The ids of one node.
pub proof fn lemma_ids_of_single(t: TreeShape)
    ensures
        ids_of(seq![t]) == ids(t),
{
    assert(seq![t].drop_last() =~= Seq::<TreeShape>::empty());
    assert(ids_of(Seq::<TreeShape>::empty()) == Seq::<Seq<char>>::empty());
    assert(ids_of(seq![t]) == ids_of(seq![t].drop_last()) + ids(t));
    assert(Seq::<Seq<char>>::empty() + ids(t) =~= ids(t));
}

/// A run's ids around one sibling.
pub proof fn lemma_ids_of_around(cs: Seq<TreeShape>, i: int)
    requires
        0 <= i < cs.len(),
    ensures
        ids_of(cs) == ids_of(cs.take(i)) + ids(cs[i]) + ids_of(cs.skip(i + 1)),
{
    assert(cs =~= cs.take(i) + seq![cs[i]] + cs.skip(i + 1));
    lemma_ids_of_concat(cs.take(i) + seq![cs[i]], cs.skip(i + 1));
    lemma_ids_of_concat(cs.take(i), seq![cs[i]]);
    lemma_ids_of_single(cs[i]);
}

/// A run's ids with one sibling replaced.
pub proof fn lemma_ids_of_update(cs: Seq<TreeShape>, i: int, x: TreeShape)
    requires
        0 <= i < cs.len(),
    ensures
        ids_of(cs.update(i, x)) == ids_of(cs.take(i)) + ids(x) + ids_of(cs.skip(i + 1)),
{
    let u = cs.update(i, x);
    lemma_ids_of_around(u, i);
    assert(u.take(i) =~= cs.take(i));
    assert(u.skip(i + 1) =~= cs.skip(i + 1));
}

/// A run's ids with one sibling removed.
pub proof fn lemma_ids_of_remove(cs: Seq<TreeShape>, i: int)
    requires
        0 <= i < cs.len(),
    ensures
        ids_of(cs.remove(i)) == ids_of(cs.take(i)) + ids_of(cs.skip(i + 1)),
{
    assert(cs.remove(i) =~= cs.take(i) + cs.skip(i + 1));
    lemma_ids_of_concat(cs.take(i), cs.skip(i + 1));
}

/// A run's ids with one sibling appended.
pub proof fn lemma_ids_of_push(cs: Seq<TreeShape>, x: TreeShape)
    ensures
        ids_of(cs.push(x)) == ids_of(cs) + ids(x),
{
    assert(cs.push(x).drop_last() =~= cs);
}

/// If a run holds an id, some sibling does.
pub proof fn lemma_ids_of_contains(cs: Seq<TreeShape>, id: Seq<char>) -> (i: int)
    requires
        ids_of(cs).contains(id),
    ensures
        0 <= i < cs.len(),
        ids(cs[i]).contains(id),
    decreases cs.len(),
{
    let a = ids_of(cs.drop_last());
    let b = ids(cs.last());
    let k = choose|k: int| 0 <= k < ids_of(cs).len() && ids_of(cs)[k] == id;
    if k < a.len() {
        assert(a[k] == id);
        let j = lemma_ids_of_contains(cs.drop_last(), id);
        assert(cs.drop_last()[j] == cs[j]);
        j
    } else {
        assert(b[k - a.len()] == id);
        (cs.len() - 1) as int
    }
}

/// If a sibling holds an id, the run does.
pub proof fn lemma_ids_of_contains_child(cs: Seq<TreeShape>, i: int, id: Seq<char>)
    requires
        0 <= i < cs.len(),
        ids(cs[i]).contains(id),
    ensures
        ids_of(cs).contains(id),
{
    lemma_ids_of_around(cs, i);
    let k = choose|k: int| 0 <= k < ids(cs[i]).len() && ids(cs[i])[k] == id;
    let a = ids_of(cs.take(i));
    assert((a + ids(cs[i]) + ids_of(cs.skip(i + 1)))[a.len() + k] == id);
}

/// Every node holds at least one pane, provided its splits are not empty.
pub proof fn lemma_ids_nonempty(t: TreeShape)
    requires
        splits_ok(t),
    ensures
        ids(t).len() >= 1,
    decreases t,
{
    match t {
        TreeShape::Pane { .. } => {},
        TreeShape::Split { children, .. } => {
            lemma_all_splits_ok(children);
            lemma_ids_nonempty(children[0]);
            lemma_ids_of_around(children, 0);
        },
    }
}

/// Dropping one element keeps a sequence duplicate-free.
pub proof fn lemma_no_dup_remove<A>(s: Seq<A>, k: int)
    requires
        s.no_duplicates(),
        0 <= k < s.len(),
    ensures
        s.remove(k).no_duplicates(),
        !s.remove(k).contains(s[k]),
{
    let r = s.remove(k);
    assert forall|i: int, j: int| 0 <= i < r.len() && 0 <= j < r.len() && i != j implies r[i] != r[j] by {
        let si = if i < k { i } else { i + 1 };
        let sj = if j < k { j } else { j + 1 };
        assert(r[i] == s[si]);
        assert(r[j] == s[sj]);
    }
    if r.contains(s[k]) {
        let i = choose|i: int| 0 <= i < r.len() && r[i] == s[k];
        let si = if i < k { i } else { i + 1 };
        assert(r[i] == s[si]);
    }
}

/// A split of one is its child, which inherits the split's share.
pub open spec fn collapse(t: TreeShape) -> TreeShape {
    match t {
        TreeShape::Split { size, children, .. } => if children.len() == 1 {
            with_size(children[0], size)
        } else {
            t
        },
        _ => t,
    }
}

/// A node's ids do not depend on its share.
pub proof fn lemma_with_size(t: TreeShape, s: super::node::PaneSize)
    ensures
        ids(with_size(t, s)) == ids(t),
        splits_ok(with_size(t, s)) == splits_ok(t),
        size_of(with_size(t, s)) == s,
{
}

/// Collapsing keeps the ids, and leaves no split of one behind.
pub proof fn lemma_collapse(t: TreeShape)
    ensures
        ids(collapse(t)) == ids(t),
        (t matches TreeShape::Split { children, .. } && children.len() >= 1 && all_splits_ok(children))
            ==> splits_ok(collapse(t)),
{
    match t {
        TreeShape::Split { size, children, .. } => {
            if children.len() == 1 {
                lemma_ids_of_single(children[0]);
                assert(children =~= seq![children[0]]);
                lemma_all_splits_ok(children);
                lemma_with_size(children[0], size);
            }
        },
        _ => {},
    }
}

} // verus!
