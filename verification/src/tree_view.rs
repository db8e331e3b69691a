//! Which groups of a tree view are open.
//!
//! The state records **deviations from the declared default**:
//!
//! - in `opened`: open, whatever the default says
//! - in `closed`: closed, whatever the default says
//! - in neither: whatever the group's declaration says
//!
//! An id is never in both, and agreeing with the default clears the deviation
//! entirely. That keeps the saved file a small diff, and a host that changes a
//! default later has it take effect for every user who never disagreed.

use vstd::prelude::*;

use crate::sorted_ids::{SortedIds, strictly_sorted};
use crate::text::{chars_lt, lemma_lt_total, lemma_lt_transitive, str_lt, views};

verus! {

/// Bump when the on-disk shape changes incompatibly.
pub const FORMAT_VERSION: u32 = 1;

/// A group's stable id.
#[derive(Debug, Hash)]
pub struct GroupId(pub String);

impl GroupId {
    pub fn as_str(&self) -> (r: &str)
        ensures
            r@ == self.0@,
    {
        self.0.as_str()
    }
}

/// Whether a group is open, given the deviations and its declared default.
pub open spec fn open_in(
    opened: Set<Seq<char>>,
    closed: Set<Seq<char>>,
    group: Seq<char>,
    default_open: bool,
) -> bool {
    if opened.contains(group) {
        true
    } else if closed.contains(group) {
        false
    } else {
        default_open
    }
}

/// The deviations after a group is set open or closed: it is recorded only
/// where it differs from its default.
pub open spec fn after_set(
    opened: Set<Seq<char>>,
    closed: Set<Seq<char>>,
    group: Seq<char>,
    open: bool,
    default_open: bool,
) -> (Set<Seq<char>>, Set<Seq<char>>) {
    let o = opened.remove(group);
    let c = closed.remove(group);
    if open == default_open {
        (o, c)
    } else if open {
        (o.insert(group), c)
    } else {
        (o, c.insert(group))
    }
}

/// Per-tree expansion, stored as deviations from the declared defaults.
#[derive(Debug)]
pub struct TreeState {
    /// On-disk format version.
    pub version: u32,
    opened: SortedIds,
    closed: SortedIds,
}

impl TreeState {
    /// The on-disk format version.
    pub closed spec fn format(&self) -> u32 {
        self.version
    }

    /// Groups the user opened that would otherwise be closed.
    pub closed spec fn opened(&self) -> Set<Seq<char>> {
        self.opened@
    }

    /// Groups the user closed that would otherwise be open.
    pub closed spec fn closed(&self) -> Set<Seq<char>> {
        self.closed@
    }

    /// Both sets are well formed, and no group is in both.
    pub closed spec fn wf(&self) -> bool {
        &&& self.opened.wf()
        &&& self.closed.wf()
        &&& self.opened@.disjoint(self.closed@)
    }

    /// Fresh state: every group sits at its declared default.
    pub fn new() -> (r: Self)
        ensures
            r.wf(),
            r.format() == FORMAT_VERSION,
            r.opened() == Set::<Seq<char>>::empty(),
            r.closed() == Set::<Seq<char>>::empty(),
    {
        TreeState { version: FORMAT_VERSION, opened: SortedIds::new(), closed: SortedIds::new() }
    }

    /// Is `group` open, given what its declaration says by default?
    pub fn is_open(&self, group: &str, default_open: bool) -> (r: bool)
        requires
            self.wf(),
        ensures
            r == open_in(self.opened(), self.closed(), group@, default_open),
    {
        if self.opened.contains(group) {
            true
        } else if self.closed.contains(group) {
            false
        } else {
            default_open
        }
    }

    /// Set `group` open or closed, recording it only if it deviates from its
    /// default.
    pub fn set_open(&mut self, group: &str, open: bool, default_open: bool)
        requires
            old(self).wf(),
        ensures
            final(self).wf(),
            final(self).format() == old(self).format(),
            (final(self).opened(), final(self).closed()) == after_set(
                old(self).opened(),
                old(self).closed(),
                group@,
                open,
                default_open,
            ),
    {
        self.opened.remove(group);
        self.closed.remove(group);
        if open == default_open {
            return;
        }
        if open {
            self.opened.insert(group);
        } else {
            self.closed.insert(group);
        }
    }

    /// Flip `group`.
    pub fn toggle(&mut self, group: &str, default_open: bool)
        requires
            old(self).wf(),
        ensures
            final(self).wf(),
            final(self).format() == old(self).format(),
            (final(self).opened(), final(self).closed()) == after_set(
                old(self).opened(),
                old(self).closed(),
                group@,
                !open_in(old(self).opened(), old(self).closed(), group@, default_open),
                default_open,
            ),
    {
        let now = self.is_open(group, default_open);
        self.set_open(group, !now, default_open);
    }

    /// Forget every deviation: every group returns to its declared default.
    pub fn reset(&mut self)
        requires
            old(self).wf(),
        ensures
            final(self).wf(),
            final(self).format() == old(self).format(),
            final(self).opened() == Set::<Seq<char>>::empty(),
            final(self).closed() == Set::<Seq<char>>::empty(),
    {
        self.opened.clear();
        self.closed.clear();
    }

    /// Drop deviations for groups the host says are gone: those `keep`
    /// rejects.
    pub fn retain(&mut self, keep: &impl Fn(&str) -> bool)
        requires
            old(self).wf(),
            forall|s: &str| keep.requires((s,)),
        ensures
            final(self).wf(),
            final(self).format() == old(self).format(),
            final(self).opened().subset_of(old(self).opened()),
            final(self).closed().subset_of(old(self).closed()),
            forall|x: Seq<char>| #[trigger]
                final(self).opened().contains(x) || final(self).closed().contains(x) ==> exists|
                    s: &str,
                | s@ == x && keep.ensures((s,), true),
            forall|x: Seq<char>|
                (old(self).opened().contains(x) && !#[trigger] final(self).opened().contains(x)) || (
                old(self).closed().contains(x) && !final(self).closed().contains(x)) ==> exists|
                    s: &str,
                | s@ == x && keep.ensures((s,), false),
    {
        self.opened.retain(keep);
        self.closed.retain(keep);
    }

    /// Every group the state has an opinion about, once each, in id order,
    /// with whether it is opened (`true`) or closed (`false`).
    pub fn deviations(&self) -> (r: Vec<(String, bool)>)
        requires
            self.wf(),
        ensures
            lists_deviations(r@.map_values(|p: (String, bool)| (p.0@, p.1)), self.opened(), self.closed()),
    {
        let o = self.opened.ids();
        let c = self.closed.ids();
        let ghost os = views(o@);
        let ghost cs = views(c@);
        proof {
            assert(os =~= self.opened.seq());
            assert(cs =~= self.closed.seq());
        }
        let mut out: Vec<(String, bool)> = Vec::new();
        let ghost mut dv: Seq<(Seq<char>, bool)> = Seq::empty();
        let mut i: usize = 0;
        let mut j: usize = 0;
        while i < o.len() || j < c.len()
            invariant
                os == views(o@),
                cs == views(c@),
                strictly_sorted(os),
                strictly_sorted(cs),
                os.to_set().disjoint(cs.to_set()),
                i <= os.len(),
                j <= cs.len(),
                out@.map_values(|p: (String, bool)| (p.0@, p.1)) == dv,
                strictly_sorted(pair_ids(dv)),
                forall|x: Seq<char>|
                    #[trigger] pair_ids(dv).contains(x) <==> (os.take(i as int).contains(x) || cs.take(
                        j as int,
                    ).contains(x)),
                forall|k: int| 0 <= k < dv.len() ==> (#[trigger] dv[k]).1 == os.to_set().contains(dv[k].0),
                forall|k: int, a: int|
                    0 <= k < dv.len() && i <= a < os.len() ==> chars_lt(#[trigger] dv[k].0, #[trigger] os[a]),
                forall|k: int, b: int|
                    0 <= k < dv.len() && j <= b < cs.len() ==> chars_lt(#[trigger] dv[k].0, #[trigger] cs[b]),
            decreases os.len() - i + cs.len() - j,
        {
            let take_opened = if i >= o.len() {
                false
            } else if j >= c.len() {
                true
            } else {
                str_lt(o[i].as_str(), c[j].as_str())
            };
            let ghost before = dv;
            let ghost x: Seq<char>;
            if take_opened {
                proof {
                    x = os[i as int];
                    assert(x == o@[i as int]@);
                    assert forall|b: int| j <= b < cs.len() implies chars_lt(x, #[trigger] cs[b]) by {
                        assert(chars_lt(x, cs[j as int]));
                        if b > j {
                            lemma_lt_transitive(x, cs[j as int], cs[b]);
                        }
                    }
                    assert(os.to_set().contains(x));
                }
                out.push((o[i].clone(), true));
                proof {
                    dv = before.push((x, true));
                    assert(os.take(i + 1) =~= os.take(i as int).push(x));
                    lemma_push_contains(os.take(i as int), x);
                }
                i += 1;
            } else {
                proof {
                    x = cs[j as int];
                    assert(x == c@[j as int]@);
                    assert(cs.to_set().contains(x));
                    assert(!os.to_set().contains(x));
                    assert forall|a: int| i <= a < os.len() implies chars_lt(x, #[trigger] os[a]) by {
                        assert(os.to_set().contains(os[i as int]));
                        assert(os[i as int] != x);
                        lemma_lt_total(os[i as int], x);
                        if a > i {
                            lemma_lt_transitive(x, os[i as int], os[a]);
                        }
                    }
                }
                out.push((c[j].clone(), false));
                proof {
                    dv = before.push((x, false));
                    assert(cs.take(j + 1) =~= cs.take(j as int).push(x));
                    lemma_push_contains(cs.take(j as int), x);
                }
                j += 1;
            }
            proof {
                assert(pair_ids(dv) =~= pair_ids(before).push(x));
                lemma_push_contains(pair_ids(before), x);
                assert(out@.map_values(|p: (String, bool)| (p.0@, p.1)) =~= dv);
                assert forall|k: int| 0 <= k < before.len() implies chars_lt(#[trigger] pair_ids(before)[k], x) by {
                    assert(pair_ids(before)[k] == before[k].0);
                }
                assert forall|k: int, a: int|
                    0 <= k < dv.len() && i <= a < os.len() implies chars_lt(#[trigger] dv[k].0, #[trigger] os[a]) by {
                    if k < before.len() {
                        assert(dv[k] == before[k]);
                        assert(chars_lt(before[k].0, os[a]));
                    }
                }
                assert forall|k: int, b: int|
                    0 <= k < dv.len() && j <= b < cs.len() implies chars_lt(#[trigger] dv[k].0, #[trigger] cs[b]) by {
                    if k < before.len() {
                        assert(dv[k] == before[k]);
                        assert(chars_lt(before[k].0, cs[b]));
                    }
                }
            }
        }
        proof {
            assert(os.take(i as int) =~= os);
            assert(cs.take(j as int) =~= cs);
            assert forall|x: Seq<char>| #[trigger] pair_ids(dv).contains(x) <==> (self.opened().contains(x)
                || self.closed().contains(x)) by {
                assert(self.opened() == os.to_set());
                assert(self.closed() == cs.to_set());
            }
        }
        out
    }

    /// How many groups deviate from their default (at most `usize::MAX`).
    pub fn len(&self) -> (r: usize)
        requires
            self.wf(),
        ensures
            r == if self.opened().len() + self.closed().len() <= usize::MAX {
                self.opened().len() + self.closed().len()
            } else {
                usize::MAX as nat
            },
    {
        let a = self.opened.len();
        let b = self.closed.len();
        a.saturating_add(b)
    }

    /// Is every group at its declared default?
    pub fn is_empty(&self) -> (r: bool)
        requires
            self.wf(),
        ensures
            r == (self.opened() == Set::<Seq<char>>::empty() && self.closed() == Set::<
                Seq<char>,
            >::empty()),
    {
        self.opened.is_empty() && self.closed.is_empty()
    }
}

impl Default for TreeState {
    fn default() -> (r: Self)
        ensures
            r.wf(),
            r.format() == FORMAT_VERSION,
            r.opened() == Set::<Seq<char>>::empty(),
            r.closed() == Set::<Seq<char>>::empty(),
    {
        TreeState::new()
    }
}

/// The ids of a list of deviations, in order.
pub open spec fn pair_ids(list: Seq<(Seq<char>, bool)>) -> Seq<Seq<char>> {
    list.map_values(|p: (Seq<char>, bool)| p.0)
}

/// `list` is every deviation once, in id order: its ids strictly increase,
/// they are exactly the groups opened or closed, and each is flagged with
/// whether it is opened.
pub open spec fn lists_deviations(
    list: Seq<(Seq<char>, bool)>,
    opened: Set<Seq<char>>,
    closed: Set<Seq<char>>,
) -> bool {
    &&& strictly_sorted(pair_ids(list))
    &&& forall|x: Seq<char>| #[trigger] pair_ids(list).contains(x) <==> (opened.contains(x) || closed.contains(x))
    &&& forall|k: int| 0 <= k < list.len() ==> (#[trigger] list[k]).1 == opened.contains(list[k].0)
}

proof fn lemma_push_contains<A>(s: Seq<A>, x: A)
    ensures
        forall|y: A| #[trigger] s.push(x).contains(y) <==> (s.contains(y) || y == x),
{
    assert forall|y: A| #[trigger] s.push(x).contains(y) <==> (s.contains(y) || y == x) by {
        if s.contains(y) {
            let i = choose|i: int| 0 <= i < s.len() && s[i] == y;
            assert(s.push(x)[i] == y);
        }
        if y == x {
            assert(s.push(x)[s.len() as int] == x);
        }
        if s.push(x).contains(y) {
            let i = choose|i: int| 0 <= i < s.len() + 1 && s.push(x)[i] == y;
            if i < s.len() {
                assert(s[i] == y);
            }
        }
    }
}

/// Setting a group open or closed makes it read so, leaves every other group
/// as it read, and never puts a group in both sets; setting it to its default
/// records nothing for it.
pub proof fn lemma_set_open_reads_back(
    opened: Set<Seq<char>>,
    closed: Set<Seq<char>>,
    group: Seq<char>,
    open: bool,
    default_open: bool,
    other: Seq<char>,
    other_default: bool,
)
    requires
        opened.disjoint(closed),
    ensures
        ({
            let (o, c) = after_set(opened, closed, group, open, default_open);
            &&& open_in(o, c, group, default_open) == open
            &&& other != group ==> open_in(o, c, other, other_default) == open_in(
                opened,
                closed,
                other,
                other_default,
            )
            &&& o.disjoint(c)
            &&& open == default_open ==> !o.contains(group) && !c.contains(group)
        }),
{
}

/// Toggling twice gives back the state it started from, and a toggle always
/// flips what the group reads.
pub proof fn lemma_toggle_twice(
    opened: Set<Seq<char>>,
    closed: Set<Seq<char>>,
    group: Seq<char>,
    default_open: bool,
)
    requires
        opened.disjoint(closed),
    ensures
        ({
            let (o1, c1) = after_set(
                opened,
                closed,
                group,
                !open_in(opened, closed, group, default_open),
                default_open,
            );
            let (o2, c2) = after_set(o1, c1, group, !open_in(o1, c1, group, default_open), default_open);
            &&& open_in(o1, c1, group, default_open) != open_in(opened, closed, group, default_open)
            &&& (!opened.contains(group) || default_open == false) && (!closed.contains(group)
                || default_open == true) ==> o2 == opened && c2 == closed
        }),
{
    let (o1, c1) = after_set(
        opened,
        closed,
        group,
        !open_in(opened, closed, group, default_open),
        default_open,
    );
    let (o2, c2) = after_set(o1, c1, group, !open_in(o1, c1, group, default_open), default_open);
    if (!opened.contains(group) || default_open == false) && (!closed.contains(group)
        || default_open == true) {
        if opened.contains(group) {
            assert(o2 =~= opened);
            assert(c2 =~= closed);
        } else if closed.contains(group) {
            assert(o2 =~= opened);
            assert(c2 =~= closed);
        } else {
            assert(o2 =~= opened);
            assert(c2 =~= closed);
        }
    }
}

/// A group the user never touched follows its declaration, whatever that
/// becomes.
pub proof fn lemma_untouched_follows_default(
    opened: Set<Seq<char>>,
    closed: Set<Seq<char>>,
    group: Seq<char>,
    default_open: bool,
)
    requires
        !opened.contains(group),
        !closed.contains(group),
    ensures
        open_in(opened, closed, group, default_open) == default_open,
{
}

} // verus!
