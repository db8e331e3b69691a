//! A set of string ids kept in `str` order, each once.
//!
//! Kept sorted so that walking it gives the same order every time: two saves
//! of the same set produce the same bytes, and a diff means something changed.

use vstd::prelude::*;

use crate::text::{chars_lt, lemma_lt_irreflexive, lemma_lt_total, lemma_lt_transitive, str_lt, views};

verus! {

/// Whether a sequence of texts is strictly increasing.
pub open spec fn strictly_sorted(s: Seq<Seq<char>>) -> bool {
    forall|a: int, b: int| 0 <= a < b < s.len() ==> chars_lt(#[trigger] s[a], #[trigger] s[b])
}

proof fn lemma_sorted_no_dup(s: Seq<Seq<char>>)
    requires
        strictly_sorted(s),
    ensures
        s.no_duplicates(),
{
    assert forall|a: int, b: int| 0 <= a < s.len() && 0 <= b < s.len() && a != b implies s[a]
        != s[b] by {
        lemma_lt_irreflexive(s[a]);
    }
}

proof fn lemma_insert_contains<A>(s: Seq<A>, j: int, x: A, y: A)
    requires
        0 <= j <= s.len(),
    ensures
        s.insert(j, x).contains(y) == (s.contains(y) || y == x),
{
    let t = s.insert(j, x);
    if s.contains(y) {
        let i = choose|i: int| 0 <= i < s.len() && s[i] == y;
        if i < j {
            assert(t[i] == y);
        } else {
            assert(t[i + 1] == y);
        }
    }
    if y == x {
        assert(t[j] == x);
    }
    if t.contains(y) {
        let i = choose|i: int| 0 <= i < t.len() && t[i] == y;
        if i < j {
            assert(s[i] == y);
        } else if i > j {
            assert(s[i - 1] == y);
        }
    }
}

proof fn lemma_remove_contains<A>(s: Seq<A>, j: int, y: A)
    requires
        0 <= j < s.len(),
        s.no_duplicates(),
    ensures
        s.remove(j).contains(y) == (s.contains(y) && y != s[j]),
{
    let t = s.remove(j);
    if s.contains(y) && y != s[j] {
        let i = choose|i: int| 0 <= i < s.len() && s[i] == y;
        if i < j {
            assert(t[i] == y);
        } else {
            assert(i != j);
            assert(t[i - 1] == y);
        }
    }
    if t.contains(y) {
        let i = choose|i: int| 0 <= i < t.len() && t[i] == y;
        if i < j {
            assert(s[i] == y);
        } else {
            assert(s[i + 1] == y);
        }
    }
}

/// A set of ids, sorted.
#[derive(Debug)]
pub struct SortedIds {
    ids: Vec<String>,
}

impl View for SortedIds {
    type V = Set<Seq<char>>;

    open spec fn view(&self) -> Set<Seq<char>> {
        self.seq().to_set()
    }
}

impl SortedIds {
    /// The ids in order.
    pub closed spec fn seq(&self) -> Seq<Seq<char>> {
        views(self.ids@)
    }

    /// The ids are strictly increasing.
    pub open spec fn wf(&self) -> bool {
        strictly_sorted(self.seq())
    }

    /// No ids.
    pub fn new() -> (r: Self)
        ensures
            r.wf(),
            r@ == Set::<Seq<char>>::empty(),
            r.seq() == Seq::<Seq<char>>::empty(),
    {
        let r = SortedIds { ids: Vec::new() };
        assert(r.seq() =~= Seq::<Seq<char>>::empty());
        assert(r@ =~= Set::<Seq<char>>::empty());
        r
    }

    /// The ids in `str` order.
    pub fn ids(&self) -> (r: &[String])
        ensures
            views(r@) == self.seq(),
    {
        self.ids.as_slice()
    }

    /// The position of the first id not before `id`, and whether it is `id`.
    fn position(&self, id: &str) -> (r: (usize, bool))
        requires
            self.wf(),
        ensures
            r.0 <= self.seq().len(),
            forall|a: int| 0 <= a < r.0 ==> chars_lt(#[trigger] self.seq()[a], id@),
            r.1 == (r.0 < self.seq().len() && self.seq()[r.0 as int] == id@),
            r.0 < self.seq().len() && !r.1 ==> chars_lt(id@, self.seq()[r.0 as int]),
    {
        let ghost s = self.seq();
        let mut j: usize = 0;
        while j < self.ids.len() && str_lt(self.ids[j].as_str(), id)
            invariant
                j <= s.len(),
                s == self.seq(),
                s.len() == self.ids@.len(),
                forall|a: int| 0 <= a < j ==> chars_lt(#[trigger] s[a], id@),
            decreases s.len() - j,
        {
            j += 1;
        }
        if j < self.ids.len() {
            let same = self.ids[j].as_str().eq(id);
            proof {
                if !same {
                    lemma_lt_total(s[j as int], id@);
                }
            }
            (j, same)
        } else {
            (j, false)
        }
    }

    /// Whether `id` is in the set.
    pub fn contains(&self, id: &str) -> (r: bool)
        requires
            self.wf(),
        ensures
            r == self@.contains(id@),
    {
        let (j, found) = self.position(id);
        proof {
            let s = self.seq();
            if found {
                assert(s[j as int] == id@);
            } else if s.contains(id@) {
                let i = choose|i: int| 0 <= i < s.len() && s[i] == id@;
                if i < j {
                    lemma_lt_irreflexive(id@);
                } else {
                    assert(chars_lt(id@, s[j as int]));
                    if i > j {
                        lemma_lt_transitive(id@, s[j as int], s[i]);
                    }
                    lemma_lt_irreflexive(id@);
                }
            }
        }
        found
    }

    /// Add `id`.
    pub fn insert(&mut self, id: &str)
        requires
            old(self).wf(),
        ensures
            final(self).wf(),
            final(self)@ == old(self)@.insert(id@),
    {
        let ghost s = self.seq();
        let (j, found) = self.position(id);
        if found {
            assert(self@ =~= s.to_set().insert(id@));
            return;
        }
        let owned = id.to_owned();
        self.ids.insert(j, owned);
        proof {
            let t = self.seq();
            assert(t =~= s.insert(j as int, id@));
            assert forall|a: int, b: int| 0 <= a < b < t.len() implies chars_lt(
                #[trigger] t[a],
                #[trigger] t[b],
            ) by {
                if b < j {
                } else if b == j {
                    assert(t[a] == s[a]);
                } else if a == j {
                    assert(t[b] == s[b - 1]);
                    if b - 1 > j {
                        lemma_lt_transitive(id@, s[j as int], s[b - 1]);
                    }
                } else if a < j {
                    assert(t[a] == s[a] && t[b] == s[b - 1]);
                    if b - 1 > j {
                        lemma_lt_transitive(id@, s[j as int], s[b - 1]);
                    }
                    lemma_lt_transitive(s[a], id@, t[b]);
                } else {
                    assert(t[a] == s[a - 1] && t[b] == s[b - 1]);
                }
            }
            assert forall|y: Seq<char>| self@.contains(y) == s.to_set().insert(id@).contains(y) by {
                lemma_insert_contains(s, j as int, id@, y);
            }
            assert(self@ =~= s.to_set().insert(id@));
        }
    }

    /// Drop `id`.
    pub fn remove(&mut self, id: &str)
        requires
            old(self).wf(),
        ensures
            final(self).wf(),
            final(self)@ == old(self)@.remove(id@),
    {
        let ghost s = self.seq();
        let (j, found) = self.position(id);
        if !found {
            proof {
                assert forall|y: Seq<char>| self@.contains(y) == s.to_set().remove(id@).contains(y) by {
                    if y == id@ && s.contains(y) {
                        let i = choose|i: int| 0 <= i < s.len() && s[i] == y;
                        lemma_lt_irreflexive(id@);
                        if i > j {
                            lemma_lt_transitive(id@, s[j as int], s[i]);
                        }
                    }
                }
                assert(self@ =~= s.to_set().remove(id@));
            }
            return;
        }
        self.ids.remove(j);
        proof {
            let t = self.seq();
            assert(t =~= s.remove(j as int));
            lemma_sorted_no_dup(s);
            assert forall|a: int, b: int| 0 <= a < b < t.len() implies chars_lt(
                #[trigger] t[a],
                #[trigger] t[b],
            ) by {
                let ai = if a < j { a } else { a + 1 };
                let bi = if b < j { b } else { b + 1 };
                assert(t[a] == s[ai] && t[b] == s[bi]);
            }
            assert forall|y: Seq<char>| self@.contains(y) == s.to_set().remove(id@).contains(y) by {
                lemma_remove_contains(s, j as int, y);
            }
            assert(self@ =~= s.to_set().remove(id@));
        }
    }

    /// Drop every id.
    pub fn clear(&mut self)
        ensures
            final(self).wf(),
            final(self)@ == Set::<Seq<char>>::empty(),
    {
        self.ids.clear();
        assert(self.seq() =~= Seq::<Seq<char>>::empty());
        assert(self@ =~= Set::<Seq<char>>::empty());
    }

    /// How many ids there are.
    pub fn len(&self) -> (r: usize)
        requires
            self.wf(),
        ensures
            r == self@.len(),
            self@.finite(),
    {
        proof {
            lemma_sorted_no_dup(self.seq());
            self.seq().unique_seq_to_set();
        }
        self.ids.len()
    }

    /// Whether there are no ids.
    pub fn is_empty(&self) -> (r: bool)
        requires
            self.wf(),
        ensures
            r == (self@ == Set::<Seq<char>>::empty()),
    {
        proof {
            if self.seq().len() > 0 {
                assert(self@.contains(self.seq()[0]));
            } else {
                assert(self@ =~= Set::<Seq<char>>::empty());
            }
        }
        self.ids.len() == 0
    }

    /// Keep the ids `keep` accepts, in order; drop the rest.
    pub fn retain(&mut self, keep: &impl Fn(&str) -> bool)
        requires
            old(self).wf(),
            forall|s: &str| keep.requires((s,)),
        ensures
            final(self).wf(),
            forall|x: Seq<char>| #[trigger]
                final(self)@.contains(x) ==> old(self)@.contains(x) && exists|s: &str|
                    s@ == x && keep.ensures((s,), true),
            forall|x: Seq<char>|
                old(self)@.contains(x) && !#[trigger] final(self)@.contains(x) ==> exists|s: &str|
                    s@ == x && keep.ensures((s,), false),
    {
        let ghost s = self.seq();
        let mut kept: Vec<String> = Vec::new();
        let mut i: usize = 0;
        while i < self.ids.len()
            invariant
                i <= s.len(),
                s == self.seq(),
                s.len() == self.ids@.len(),
                strictly_sorted(s),
                forall|s: &str| keep.requires((s,)),
                forall|a: int|
                    0 <= a < views(kept@).len() ==> exists|b: int|
                        0 <= b < i && s[b] == #[trigger] views(kept@)[a],
                strictly_sorted(views(kept@)),
                views(kept@).len() > 0 ==> exists|b: int| 0 <= b < i && s[b] == views(kept@).last(),
                forall|x: Seq<char>| #[trigger]
                    views(kept@).contains(x) ==> exists|s: &str| s@ == x && keep.ensures((s,), true),
                forall|b: int|
                    0 <= b < i && !views(kept@).contains(#[trigger] s[b]) ==> exists|t: &str|
                        t@ == s[b] && keep.ensures((t,), false),
            decreases s.len() - i,
        {
            let ghost before = views(kept@);
            let id = self.ids[i].as_str();
            if keep(id) {
                let owned = id.to_owned();
                kept.push(owned);
                proof {
                    let now = views(kept@);
                    assert(now =~= before.push(s[i as int]));
                    if before.len() > 0 {
                        let b = choose|b: int| 0 <= b < i && s[b] == before.last();
                        assert(chars_lt(s[b], s[i as int]));
                    }
                    assert forall|a: int, c: int| 0 <= a < c < now.len() implies chars_lt(
                        #[trigger] now[a],
                        #[trigger] now[c],
                    ) by {
                        if c == now.len() - 1 {
                            let b = choose|b: int| 0 <= b < i && s[b] == before[a];
                            assert(chars_lt(s[b], s[i as int]));
                        } else {
                            assert(now[a] == before[a] && now[c] == before[c]);
                        }
                    }
                    assert forall|a: int| 0 <= a < now.len() implies exists|b: int|
                        0 <= b < i + 1 && s[b] == #[trigger] now[a] by {
                        if a < before.len() {
                            assert(now[a] == before[a]);
                        } else {
                            assert(s[i as int] == now[a]);
                        }
                    }
                    assert forall|x: Seq<char>| #[trigger] now.contains(x) implies exists|t: &str|
                        t@ == x && keep.ensures((t,), true) by {
                        let a = choose|a: int| 0 <= a < now.len() && now[a] == x;
                        if a < before.len() {
                            assert(before[a] == x);
                        }
                    }
                    assert forall|b: int| 0 <= b < i + 1 && !now.contains(#[trigger] s[b]) implies exists|
                        t: &str,
                    | t@ == s[b] && keep.ensures((t,), false) by {
                        if b < i {
                            if before.contains(s[b]) {
                                let a = choose|a: int| 0 <= a < before.len() && before[a] == s[b];
                                assert(now[a] == s[b]);
                            }
                        } else {
                            assert(now[now.len() - 1] == s[b]);
                        }
                    }
                }
            } else {
                proof {
                    assert forall|b: int| 0 <= b < i + 1 && !before.contains(#[trigger] s[b]) implies exists|
                        t: &str,
                    | t@ == s[b] && keep.ensures((t,), false) by {
                        if b == i {
                            assert(id@ == s[b]);
                        }
                    }
                }
            }
            i += 1;
        }
        let ghost now = views(kept@);
        self.ids = kept;
        proof {
            assert forall|x: Seq<char>| #[trigger] self@.contains(x) implies s.to_set().contains(x)
                && exists|t: &str| t@ == x && keep.ensures((t,), true) by {
                let a = choose|a: int| 0 <= a < now.len() && now[a] == x;
                let b = choose|b: int| 0 <= b < s.len() && s[b] == now[a];
                assert(s.contains(x));
            }
            assert forall|x: Seq<char>| s.to_set().contains(x) && !#[trigger] self@.contains(x) implies exists|
                t: &str,
            | t@ == x && keep.ensures((t,), false) by {
                let b = choose|b: int| 0 <= b < s.len() && s[b] == x;
                assert(!now.contains(s[b]));
            }
        }
    }
}

} // verus!
