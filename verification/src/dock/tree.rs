//! The declared tree: what a host asks for, and what goes to disk.
//!
//! Plain data, no entities. One type serves three jobs that would otherwise
//! drift apart: a host declares a [`DockLayout`], a saved layout deserializes
//! into the same type, and a runtime rearrangement edits it in place.

use vstd::prelude::*;

use super::node::{Axis, PaneId, PaneSize, PaneVisibility, FLEX_ONE_BITS};
use crate::text::{debug_quoted, debug_text, decimal, decimal_string};

verus! {

/// The current persisted schema version.
pub const FORMAT_VERSION: u32 = 1;

/// The schema version a file without one is read as.
pub fn default_version() -> (r: u32)
    ensures
        r == FORMAT_VERSION,
{
    FORMAT_VERSION
}

/// One node of a declared tree.
#[derive(Debug, PartialEq)]
pub enum DockTree {
    /// A leaf that content parents into.
    Pane {
        /// Stable identity, and the key content looks this pane up by.
        id: PaneId,
        /// Share of the parent split.
        size: PaneSize,
        /// Floor below which a drag will not shrink this pane (bits of an `f32`).
        min_size: Option<u32>,
        /// Whether the pane takes part in layout.
        visibility: PaneVisibility,
    },
    /// A branch dividing its children along one axis.
    Split {
        /// Which way children are laid out.
        axis: Axis,
        /// Share of the parent split.
        size: PaneSize,
        /// Child nodes, in layout order.
        children: Vec<DockTree>,
    },
}

/// The mathematical shape of a [`DockTree`]: the same tree with sequences in
/// place of vectors and character sequences in place of ids.
pub enum TreeShape {
    /// A leaf.
    Pane { id: Seq<char>, size: PaneSize, min_size: Option<u32>, visibility: PaneVisibility },
    /// A branch.
    Split { axis: Axis, size: PaneSize, children: Seq<TreeShape> },
}

/// The shape of one tree.
pub open spec fn shape_of(t: DockTree) -> TreeShape
    decreases t,
{
    match t {
        DockTree::Pane { id, size, min_size, visibility } => TreeShape::Pane {
            id: id@,
            size,
            min_size,
            visibility,
        },
        DockTree::Split { axis, size, children } => TreeShape::Split {
            axis,
            size,
            children: shapes_of(children@),
        },
    }
}

/// The shapes of a sequence of trees, element by element.
pub open spec fn shapes_of(s: Seq<DockTree>) -> Seq<TreeShape>
    decreases s,
{
    if s.len() == 0 {
        Seq::<TreeShape>::empty()
    } else {
        shapes_of(s.drop_last()).push(shape_of(s.last()))
    }
}

impl View for DockTree {
    type V = TreeShape;

    open spec fn view(&self) -> TreeShape {
        shape_of(*self)
    }
}

/// `shapes_of` maps element by element.
pub proof fn lemma_shapes_of(s: Seq<DockTree>)
    ensures
        shapes_of(s).len() == s.len(),
        forall|i: int| 0 <= i < s.len() ==> #[trigger] shapes_of(s)[i] == shape_of(s[i]),
    decreases s.len(),
{
    if s.len() > 0 {
        lemma_shapes_of(s.drop_last());
    }
}

/// A node's share of its parent split.
pub open spec fn size_of(t: TreeShape) -> PaneSize {
    match t {
        TreeShape::Pane { size, .. } => size,
        TreeShape::Split { size, .. } => size,
    }
}

/// The same node with its share replaced.
pub open spec fn with_size(t: TreeShape, s: PaneSize) -> TreeShape {
    match t {
        TreeShape::Pane { id, min_size, visibility, .. } => TreeShape::Pane {
            id,
            size: s,
            min_size,
            visibility,
        },
        TreeShape::Split { axis, children, .. } => TreeShape::Split { axis, size: s, children },
    }
}

/// Every pane id at or below a node, depth-first, left to right.
pub open spec fn ids(t: TreeShape) -> Seq<Seq<char>>
    decreases t,
{
    match t {
        TreeShape::Pane { id, .. } => seq![id],
        TreeShape::Split { children, .. } => ids_of(children),
    }
}

/// The pane ids of a run of sibling nodes, in order.
pub open spec fn ids_of(cs: Seq<TreeShape>) -> Seq<Seq<char>>
    decreases cs,
{
    if cs.len() == 0 {
        Seq::<Seq<char>>::empty()
    } else {
        ids_of(cs.drop_last()) + ids(cs.last())
    }
}

/// Every split has at least two children, at every depth.
pub open spec fn splits_ok(t: TreeShape) -> bool
    decreases t,
{
    match t {
        TreeShape::Pane { .. } => true,
        TreeShape::Split { children, .. } => children.len() >= 2 && all_splits_ok(children),
    }
}

/// `splits_ok` for every node of a run of siblings.
pub open spec fn all_splits_ok(cs: Seq<TreeShape>) -> bool
    decreases cs,
{
    cs.len() == 0 || (all_splits_ok(cs.drop_last()) && splits_ok(cs.last()))
}

/// A buildable tree: no pane id twice, and no split of fewer than two.
pub open spec fn valid(t: TreeShape) -> bool {
    splits_ok(t) && ids(t).no_duplicates()
}

/// The first pane named `id`, depth-first, left to right.
pub open spec fn find(t: TreeShape, id: Seq<char>) -> Option<TreeShape>
    decreases t,
{
    match t {
        TreeShape::Pane { id: pid, .. } => if pid == id {
            Some(t)
        } else {
            None
        },
        TreeShape::Split { children, .. } => find_in(children, id),
    }
}

/// The first pane named `id` among a run of siblings.
pub open spec fn find_in(cs: Seq<TreeShape>, id: Seq<char>) -> Option<TreeShape>
    decreases cs,
{
    if cs.len() == 0 {
        None
    } else {
        match find_in(cs.drop_last(), id) {
            Some(p) => Some(p),
            None => find(cs.last(), id),
        }
    }
}

/// Prefixes of a run of siblings: the ids of `take(i + 1)` extend those of `take(i)`.
pub proof fn lemma_ids_of_take(cs: Seq<TreeShape>, i: int)
    requires
        0 <= i < cs.len(),
    ensures
        ids_of(cs.take(i + 1)) == ids_of(cs.take(i)) + ids(cs[i]),
{
    assert(cs.take(i + 1).drop_last() =~= cs.take(i));
}

/// `all_splits_ok` is `splits_ok` of every element.
pub proof fn lemma_all_splits_ok(cs: Seq<TreeShape>)
    ensures
        all_splits_ok(cs) <==> forall|i: int| 0 <= i < cs.len() ==> #[trigger] splits_ok(cs[i]),
    decreases cs.len(),
{
    if cs.len() > 0 {
        lemma_all_splits_ok(cs.drop_last());
        if forall|i: int| 0 <= i < cs.len() ==> #[trigger] splits_ok(cs[i]) {
            assert forall|i: int| 0 <= i < cs.drop_last().len() implies #[trigger] splits_ok(cs.drop_last()[i]) by {
                assert(splits_ok(cs[i]));
            }
            assert(splits_ok(cs[cs.len() - 1]));
        }
        if all_splits_ok(cs) {
            assert forall|i: int| 0 <= i < cs.len() implies #[trigger] splits_ok(cs[i]) by {
                if i < cs.len() - 1 {
                    assert(cs[i] == cs.drop_last()[i]);
                }
            }
        }
    }
}

/// `find` finds exactly the ids that `ids` lists, and what it finds is a pane
/// of that id.
pub proof fn lemma_find(t: TreeShape, id: Seq<char>)
    ensures
        find(t, id).is_some() <==> ids(t).contains(id),
        find(t, id) matches Some(p) ==> (p matches TreeShape::Pane { id: pid, .. } && pid == id),
    decreases t,
{
    match t {
        TreeShape::Pane { id: pid, .. } => {
            if pid == id {
                assert(ids(t)[0] == id);
            }
        },
        TreeShape::Split { children, .. } => {
            lemma_find_in(children, id);
        },
    }
}

/// `lemma_find` for a run of siblings.
pub proof fn lemma_find_in(cs: Seq<TreeShape>, id: Seq<char>)
    ensures
        find_in(cs, id).is_some() <==> ids_of(cs).contains(id),
        find_in(cs, id) matches Some(p) ==> (p matches TreeShape::Pane { id: pid, .. } && pid == id),
    decreases cs,
{
    if cs.len() > 0 {
        lemma_find_in(cs.drop_last(), id);
        lemma_find(cs.last(), id);
        let a = ids_of(cs.drop_last());
        let b = ids(cs.last());
        assert(ids_of(cs) == a + b);
        if a.contains(id) {
            let k = choose|k: int| 0 <= k < a.len() && a[k] == id;
            assert((a + b)[k] == id);
        }
        if b.contains(id) {
            let k = choose|k: int| 0 <= k < b.len() && b[k] == id;
            assert((a + b)[a.len() + k] == id);
        }
        if (a + b).contains(id) {
            let k = choose|k: int| 0 <= k < (a + b).len() && (a + b)[k] == id;
            if k < a.len() {
                assert(a[k] == id);
            } else {
                assert(b[k - a.len()] == id);
            }
        }
    }
}

impl DockTree {
    /// A leaf with the given id, a flex weight of 1, visible, no minimum.
    pub fn pane(id: &str) -> (t: DockTree)
        ensures
            t@ == (TreeShape::Pane {
                id: id@,
                size: PaneSize::Flex(FLEX_ONE_BITS),
                min_size: None,
                visibility: PaneVisibility::Shown,
            }),
    {
        DockTree::Pane {
            id: PaneId::new(id),
            size: PaneSize::Flex(FLEX_ONE_BITS),
            min_size: None,
            visibility: PaneVisibility::Shown,
        }
    }

    /// A branch over `children`, laid out along `axis`, with a flex weight of 1.
    pub fn split(axis: Axis, children: Vec<DockTree>) -> (t: DockTree)
        ensures
            t@ == (TreeShape::Split {
                axis,
                size: PaneSize::Flex(FLEX_ONE_BITS),
                children: shapes_of(children@),
            }),
    {
        DockTree::Split { axis, size: PaneSize::Flex(FLEX_ONE_BITS), children }
    }

    /// This node's share of its parent split.
    pub fn size(&self) -> (s: PaneSize)
        ensures
            s == size_of(self@),
    {
        match self {
            DockTree::Pane { size, .. } => *size,
            DockTree::Split { size, .. } => *size,
        }
    }

    /// The same node with its share replaced.
    pub fn with_size(self, s: PaneSize) -> (t: DockTree)
        ensures
            t@ == with_size(self@, s),
    {
        match self {
            DockTree::Pane { id, min_size, visibility, .. } => DockTree::Pane {
                id,
                size: s,
                min_size,
                visibility,
            },
            DockTree::Split { axis, children, .. } => DockTree::Split { axis, size: s, children },
        }
    }

    /// Claim `weight` (bits of an `f32`) share of the parent split.
    pub fn flex(self, weight: u32) -> (t: DockTree)
        ensures
            t@ == with_size(self@, PaneSize::Flex(weight)),
    {
        self.with_size(PaneSize::Flex(weight))
    }

    /// Claim exactly `px` (bits of an `f32`) logical pixels.
    pub fn fixed(self, px: u32) -> (t: DockTree)
        ensures
            t@ == with_size(self@, PaneSize::Fixed(px)),
    {
        self.with_size(PaneSize::Fixed(px))
    }

    /// Refuse to shrink below `px` (bits of an `f32`). Only a pane has a
    /// minimum; a split is returned unchanged.
    pub fn min_size(self, px: u32) -> (t: DockTree)
        ensures
            t@ == (match self@ {
                TreeShape::Pane { id, size, visibility, .. } => TreeShape::Pane {
                    id,
                    size,
                    min_size: Some(px),
                    visibility,
                },
                s => s,
            }),
    {
        match self {
            DockTree::Pane { id, size, visibility, .. } => DockTree::Pane {
                id,
                size,
                min_size: Some(px),
                visibility,
            },
            other => other,
        }
    }

    /// Start hidden. Only a pane has a visibility; a split is unchanged.
    pub fn hidden(self) -> (t: DockTree)
        ensures
            t@ == (match self@ {
                TreeShape::Pane { id, size, min_size, .. } => TreeShape::Pane {
                    id,
                    size,
                    min_size,
                    visibility: PaneVisibility::Hidden,
                },
                s => s,
            }),
    {
        match self {
            DockTree::Pane { id, size, min_size, .. } => DockTree::Pane {
                id,
                size,
                min_size,
                visibility: PaneVisibility::Hidden,
            },
            other => other,
        }
    }

    /// Append every pane id at or below this node to `out`.
    #[verifier::loop_isolation(false)]
    fn collect_ids(&self, out: &mut Vec<PaneId>)
        ensures
            final(out)@.map_values(|p: PaneId| p@) == old(out)@.map_values(|p: PaneId| p@) + ids(self@),
        decreases self,
    {
        match self {
            DockTree::Pane { id, .. } => {
                let ghost before = out@.map_values(|p: PaneId| p@);
                out.push(id.clone());
                assert(out@.map_values(|p: PaneId| p@) =~= before + seq![id@]);
            },
            DockTree::Split { children, .. } => {
                let ghost start = out@.map_values(|p: PaneId| p@);
                let ghost cs = shapes_of(children@);
                proof {
                    lemma_shapes_of(children@);
                }
                let mut i: usize = 0;
                while i < children.len()
                    invariant
                        i <= children.len(),
                        cs == shapes_of(children@),
                        cs.len() == children.len(),
                        out@.map_values(|p: PaneId| p@) == start + ids_of(cs.take(i as int)),
                    decreases children.len() - i,
                {
                    proof {
                        assert(decreases_to!(*self => children@[i as int]));
                        lemma_ids_of_take(cs, i as int);
                    }
                    children[i].collect_ids(out);
                    proof {
                        assert(cs[i as int] == children@[i as int]@);
                        assert(start + ids_of(cs.take(i as int)) + ids(cs[i as int]) =~= start + ids_of(cs.take(i + 1)));
                    }
                    i += 1;
                }
                assert(cs.take(i as int) =~= cs);
            },
        }
    }

    /// Every pane id at or below this node, depth-first, left to right.
    pub fn pane_ids(&self) -> (r: Vec<PaneId>)
        ensures
            r@.map_values(|p: PaneId| p@) == ids(self@),
    {
        let mut out: Vec<PaneId> = Vec::new();
        self.collect_ids(&mut out);
        assert(out@.map_values(|p: PaneId| p@) =~= Seq::<Seq<char>>::empty() + ids(self@));
        out
    }

    /// Find a pane by id, anywhere at or below this node.
    #[verifier::loop_isolation(false)]
    pub fn find_pane(&self, id: &str) -> (r: Option<&DockTree>)
        ensures
            r.is_some() <==> find(self@, id@).is_some(),
            r matches Some(p) ==> find(self@, id@) == Some(p@),
        decreases self,
    {
        match self {
            DockTree::Pane { id: pane_id, .. } => {
                if pane_id.as_str().eq(id) {
                    Some(self)
                } else {
                    None
                }
            },
            DockTree::Split { children, .. } => {
                let ghost cs = shapes_of(children@);
                proof {
                    lemma_shapes_of(children@);
                }
                let mut i: usize = 0;
                while i < children.len()
                    invariant
                        i <= children.len(),
                        cs == shapes_of(children@),
                        cs.len() == children.len(),
                        find_in(cs.take(i as int), id@).is_none(),
                    decreases children.len() - i,
                {
                    proof {
                        assert(decreases_to!(*self => children@[i as int]));
                        assert(cs.take(i + 1).drop_last() =~= cs.take(i as int));
                        assert(cs[i as int] == children@[i as int]@);
                    }
                    let found = children[i].find_pane(id);
                    if found.is_some() {
                        proof {
                            assert(cs.take(i + 1).last() == cs[i as int]);
                            assert(find_in(cs.take(i + 1), id@) == find(cs[i as int], id@));
                            lemma_find_in_prefix(cs, i + 1, id@);
                        }
                        return found;
                    }
                    i += 1;
                }
                assert(cs.take(i as int) =~= cs);
                None
            },
        }
    }
}

/// Once a prefix of siblings finds a pane, the whole run finds the same one.
pub proof fn lemma_find_in_prefix(cs: Seq<TreeShape>, k: int, id: Seq<char>)
    requires
        0 <= k <= cs.len(),
        find_in(cs.take(k), id).is_some(),
    ensures
        find_in(cs, id) == find_in(cs.take(k), id),
    decreases cs.len() - k,
{
    if k < cs.len() {
        assert(cs.take(k + 1).drop_last() =~= cs.take(k));
        lemma_find_in_prefix(cs, k + 1, id);
    } else {
        assert(cs.take(k) =~= cs);
    }
}

/// Why a declared tree cannot be built.
#[derive(Debug, PartialEq, Eq)]
pub enum TreeError {
    /// Two panes share an id: some content would parent into the wrong pane.
    DuplicatePaneId(String),
    /// A split with fewer than two children: nothing to divide.
    DegenerateSplit(usize),
}

/// The mathematical form of a [`TreeError`].
pub enum TreeFault {
    /// A pane id met a second time.
    Duplicate(Seq<char>),
    /// A split with this many children, fewer than two.
    Degenerate(nat),
}

impl View for TreeError {
    type V = TreeFault;

    open spec fn view(&self) -> TreeFault {
        match self {
            TreeError::DuplicatePaneId(id) => TreeFault::Duplicate(id@),
            TreeError::DegenerateSplit(n) => TreeFault::Degenerate(*n as nat),
        }
    }
}

impl TreeError {
    /// The message a host shows for this error: the id quoted as `Debug`
    /// writes it, or the number of children found.
    pub fn message(&self) -> (r: String)
        ensures
            r@ == match self@ {
                TreeFault::Duplicate(id) => "two panes share the id "@ + debug_text(id)
                    + "; pane ids must be unique"@,
                TreeFault::Degenerate(n) => "a split needs at least 2 children, got "@ + decimal(n),
            },
    {
        match self {
            TreeError::DuplicatePaneId(id) => {
                let mut r = String::from_str("two panes share the id ");
                let quoted = debug_quoted(id.as_str());
                r.append(quoted.as_str());
                r.append("; pane ids must be unique");
                r
            },
            TreeError::DegenerateSplit(n) => {
                let mut r = String::from_str("a split needs at least 2 children, got ");
                let digits = decimal_string(*n);
                r.append(digits.as_str());
                r
            },
        }
    }
}

/// Depth-first validation: the first problem met, in layout order, or the
/// ids seen so far extended by this node's.
pub open spec fn check(t: TreeShape, seen: Seq<Seq<char>>) -> Result<Seq<Seq<char>>, TreeFault>
    decreases t,
{
    match t {
        TreeShape::Pane { id, .. } => if seen.contains(id) {
            Err(TreeFault::Duplicate(id))
        } else {
            Ok(seen.push(id))
        },
        TreeShape::Split { children, .. } => if children.len() < 2 {
            Err(TreeFault::Degenerate(children.len()))
        } else {
            check_all(children, seen)
        },
    }
}

/// `check` over a run of siblings, left to right.
pub open spec fn check_all(cs: Seq<TreeShape>, seen: Seq<Seq<char>>) -> Result<Seq<Seq<char>>, TreeFault>
    decreases cs,
{
    if cs.len() == 0 {
        Ok(seen)
    } else {
        match check_all(cs.drop_last(), seen) {
            Err(e) => Err(e),
            Ok(s2) => check(cs.last(), s2),
        }
    }
}

/// A prefix of a sequence without duplicates has none.
pub proof fn lemma_no_dup_prefix<A>(a: Seq<A>, b: Seq<A>)
    requires
        (a + b).no_duplicates(),
    ensures
        a.no_duplicates(),
        b.no_duplicates(),
        forall|x: A| a.contains(x) ==> !b.contains(x),
{
    assert forall|i: int, j: int| 0 <= i < a.len() && 0 <= j < a.len() && i != j implies a[i] != a[j] by {
        assert((a + b)[i] == a[i]);
        assert((a + b)[j] == a[j]);
    }
    assert forall|i: int, j: int| 0 <= i < b.len() && 0 <= j < b.len() && i != j implies b[i] != b[j] by {
        assert((a + b)[a.len() + i] == b[i]);
        assert((a + b)[a.len() + j] == b[j]);
    }
    assert forall|x: A| a.contains(x) implies !b.contains(x) by {
        let i = choose|i: int| 0 <= i < a.len() && a[i] == x;
        if b.contains(x) {
            let j = choose|j: int| 0 <= j < b.len() && b[j] == x;
            assert((a + b)[i] == x);
            assert((a + b)[a.len() + j] == x);
        }
    }
}

/// Appending one element keeps a sequence duplicate-free exactly when the
/// element is new.
pub proof fn lemma_no_dup_push<A>(a: Seq<A>, x: A)
    requires
        a.no_duplicates(),
    ensures
        a.push(x).no_duplicates() <==> !a.contains(x),
{
    if a.contains(x) {
        let i = choose|i: int| 0 <= i < a.len() && a[i] == x;
        assert(a.push(x)[i] == a.push(x)[a.len() as int]);
    } else {
        assert forall|i: int, j: int| 0 <= i < a.push(x).len() && 0 <= j < a.push(x).len() && i != j implies a.push(x)[i] != a.push(x)[j] by {
            if i < a.len() && j < a.len() {
            } else if i < a.len() {
                assert(a[i] != x);
            } else if j < a.len() {
                assert(a[j] != x);
            }
        }
    }
}

/// Validation succeeds exactly on buildable trees, and then has seen every id.
pub proof fn lemma_check(t: TreeShape, seen: Seq<Seq<char>>)
    requires
        seen.no_duplicates(),
    ensures
        check(t, seen) is Ok <==> (splits_ok(t) && (seen + ids(t)).no_duplicates()),
        check(t, seen) is Ok ==> check(t, seen)->Ok_0 == seen + ids(t),
    decreases t,
{
    match t {
        TreeShape::Pane { id, .. } => {
            assert(seen + ids(t) =~= seen.push(id));
            lemma_no_dup_push(seen, id);
        },
        TreeShape::Split { children, .. } => {
            lemma_check_all(children, seen);
        },
    }
}

/// `lemma_check` for a run of siblings.
pub proof fn lemma_check_all(cs: Seq<TreeShape>, seen: Seq<Seq<char>>)
    requires
        seen.no_duplicates(),
    ensures
        check_all(cs, seen) is Ok <==> (all_splits_ok(cs) && (seen + ids_of(cs)).no_duplicates()),
        check_all(cs, seen) is Ok ==> check_all(cs, seen)->Ok_0 == seen + ids_of(cs),
    decreases cs,
{
    if cs.len() == 0 {
        assert(seen + ids_of(cs) =~= seen);
    } else {
        let init = cs.drop_last();
        let last = cs.last();
        lemma_check_all(init, seen);
        let s1 = seen + ids_of(init);
        assert(seen + ids_of(cs) =~= s1 + ids(last));
        if (seen + ids_of(cs)).no_duplicates() {
            lemma_no_dup_prefix(s1, ids(last));
        }
        if check_all(init, seen) is Ok {
            lemma_check(last, s1);
        }
    }
}

impl DockTree {
    /// Validate this node depth-first, extending `seen` with its pane ids.
    #[verifier::loop_isolation(false)]
    fn check_node(&self, seen: &mut Vec<String>) -> (r: Result<(), TreeError>)
        ensures
            match check(self@, old(seen)@.map_values(|x: String| x@)) {
                Ok(s2) => r is Ok && final(seen)@.map_values(|x: String| x@) == s2,
                Err(e) => r matches Err(err) && err@ == e,
            },
        decreases self,
    {
        match self {
            DockTree::Pane { id, .. } => {
                if crate::text::contains_str(seen, id.as_str()) {
                    Err(TreeError::DuplicatePaneId(id.0.clone()))
                } else {
                    let ghost before = seen@.map_values(|x: String| x@);
                    seen.push(id.0.clone());
                    assert(seen@.map_values(|x: String| x@) =~= before.push(id@));
                    Ok(())
                }
            },
            DockTree::Split { children, .. } => {
                proof {
                    lemma_shapes_of(children@);
                }
                if children.len() < 2 {
                    return Err(TreeError::DegenerateSplit(children.len()));
                }
                let ghost start = seen@.map_values(|x: String| x@);
                let ghost cs = shapes_of(children@);
                proof {
                    lemma_shapes_of(children@);
                }
                let mut i: usize = 0;
                while i < children.len()
                    invariant
                        i <= children.len(),
                        cs == shapes_of(children@),
                        cs.len() == children.len(),
                        check_all(cs.take(i as int), start) == Ok::<Seq<Seq<char>>, TreeFault>(
                            seen@.map_values(|x: String| x@),
                        ),
                    decreases children.len() - i,
                {
                    proof {
                        assert(decreases_to!(*self => children@[i as int]));
                        assert(cs.take(i + 1).drop_last() =~= cs.take(i as int));
                        assert(cs[i as int] == children@[i as int]@);
                    }
                    let r = children[i].check_node(seen);
                    if r.is_err() {
                        proof {
                            lemma_check_all_prefix_err(cs, i + 1, start);
                        }
                        return r;
                    }
                    i += 1;
                }
                assert(cs.take(i as int) =~= cs);
                Ok(())
            },
        }
    }

    /// Check the tree below this node is buildable.
    pub fn validate(&self) -> (r: Result<(), TreeError>)
        ensures
            r is Ok <==> valid(self@),
            r matches Err(e) ==> check(self@, Seq::empty()) == Err::<Seq<Seq<char>>, TreeFault>(e@),
    {
        let mut seen: Vec<String> = Vec::new();
        assert(seen@.map_values(|x: String| x@) =~= Seq::<Seq<char>>::empty());
        proof {
            lemma_check(self@, Seq::empty());
            assert(Seq::<Seq<char>>::empty() + ids(self@) =~= ids(self@));
        }
        self.check_node(&mut seen)
    }
}

/// Once a prefix of siblings fails validation, the whole run fails the same way.
pub proof fn lemma_check_all_prefix_err(cs: Seq<TreeShape>, k: int, seen: Seq<Seq<char>>)
    requires
        0 <= k <= cs.len(),
        check_all(cs.take(k), seen) is Err,
    ensures
        check_all(cs, seen) == check_all(cs.take(k), seen),
    decreases cs.len() - k,
{
    if k < cs.len() {
        assert(cs.take(k + 1).drop_last() =~= cs.take(k));
        lemma_check_all_prefix_err(cs, k + 1, seen);
    } else {
        assert(cs.take(k) =~= cs);
    }
}

/// The layout a host wants.
#[derive(Debug, PartialEq)]
pub struct DockLayout {
    /// Schema version of the persisted form.
    pub version: u32,
    /// The root node.
    pub root: DockTree,
}

impl DockLayout {
    /// A layout with `root` at the top, at the current schema version.
    pub fn new(root: DockTree) -> (l: DockLayout)
        ensures
            l.version == FORMAT_VERSION,
            l.root@ == root@,
    {
        DockLayout { version: FORMAT_VERSION, root }
    }

    /// Every pane id in the tree, depth-first, left to right.
    pub fn pane_ids(&self) -> (r: Vec<PaneId>)
        ensures
            r@.map_values(|p: PaneId| p@) == ids(self.root@),
    {
        self.root.pane_ids()
    }

    /// Check the tree is buildable: no duplicate pane id, no split of fewer
    /// than two children. The error is the first problem in layout order.
    pub fn validate(&self) -> (r: Result<(), TreeError>)
        ensures
            r is Ok <==> valid(self.root@),
            r matches Err(e) ==> check(self.root@, Seq::empty()) == Err::<Seq<Seq<char>>, TreeFault>(e@),
    {
        self.root.validate()
    }
}

} // verus!
