//! Arranging declared things in a row: pages in a strip, sections in a
//! stack, tabs in a sidebar.
//!
//! Each carries an order key and an id; the row is sorted by the key, ties
//! broken by id, so the order is total and two things at the same key do not
//! swap places between frames. A row is rebuilt only when its ids or their
//! order actually differ, so hover state survives unrelated changes.

use vstd::prelude::*;

use crate::text::{chars_lt, lemma_lt_irreflexive, lemma_lt_total, lemma_lt_transitive, str_lt, views};

verus! {

broadcast use vstd::seq_lib::group_to_multiset_ensures;

/// Whether key `a` sorts strictly before key `b`: lower order first, then
/// lower id.
pub open spec fn key_before(a: (i32, Seq<char>), b: (i32, Seq<char>)) -> bool {
    a.0 < b.0 || (a.0 == b.0 && chars_lt(a.1, b.1))
}

/// The sort key of a declared entry.
pub open spec fn entry_key<T>(e: (i32, String, T)) -> (i32, Seq<char>) {
    (e.0, e.1@)
}

/// Whether entries are in declared order: no entry sorts before an earlier one.
pub open spec fn declared_sorted<T>(s: Seq<(i32, String, T)>) -> bool {
    forall|a: int, b: int|
        0 <= a < b < s.len() ==> !key_before(entry_key(#[trigger] s[b]), entry_key(#[trigger] s[a]))
}

proof fn lemma_key_asymmetric(a: (i32, Seq<char>), b: (i32, Seq<char>))
    requires
        key_before(a, b),
    ensures
        !key_before(b, a),
{
    if a.0 == b.0 && chars_lt(b.1, a.1) {
        lemma_lt_transitive(a.1, b.1, a.1);
        lemma_lt_irreflexive(a.1);
    }
}

proof fn lemma_key_not_before_transitive(
    a: (i32, Seq<char>),
    b: (i32, Seq<char>),
    c: (i32, Seq<char>),
)
    requires
        !key_before(b, a),
        !key_before(c, b),
    ensures
        !key_before(c, a),
{
    if key_before(c, a) {
        if a.0 == b.0 && a.1 != b.1 {
            lemma_lt_total(a.1, b.1);
        }
        if a.0 == b.0 && a.1 == b.1 {
        } else {
            assert(key_before(a, b));
            if c.0 == a.0 && a.0 == b.0 {
                lemma_lt_transitive(c.1, a.1, b.1);
            }
        }
    }
}

/// Whether `(ao, a)` sorts strictly before `(bo, b)`.
pub fn declared_before(ao: i32, a: &str, bo: i32, b: &str) -> (r: bool)
    ensures
        r == key_before((ao, a@), (bo, b@)),
{
    if ao < bo {
        true
    } else if ao > bo {
        false
    } else {
        str_lt(a, b)
    }
}

/// The entries of `s` whose sort key is `k`, in the order they stand.
pub open spec fn with_key<T>(s: Seq<(i32, String, T)>, k: (i32, Seq<char>)) -> Seq<(i32, String, T)>
    decreases s.len(),
{
    if s.len() == 0 {
        Seq::empty()
    } else if entry_key(s.last()) == k {
        with_key(s.drop_last(), k).push(s.last())
    } else {
        with_key(s.drop_last(), k)
    }
}

proof fn lemma_with_key_concat<T>(a: Seq<(i32, String, T)>, b: Seq<(i32, String, T)>, k: (i32, Seq<char>))
    ensures
        with_key(a + b, k) == with_key(a, k) + with_key(b, k),
    decreases b.len(),
{
    if b.len() == 0 {
        assert(a + b =~= a);
        assert(with_key(a, k) + with_key(b, k) =~= with_key(a, k));
    } else {
        lemma_with_key_concat(a, b.drop_last(), k);
        assert((a + b).drop_last() =~= a + b.drop_last());
        assert((a + b).last() == b.last());
        if entry_key(b.last()) == k {
            assert(with_key(a, k) + with_key(b.drop_last(), k).push(b.last()) =~= (with_key(a, k)
                + with_key(b.drop_last(), k)).push(b.last()));
        }
    }
}

proof fn lemma_with_key_single<T>(x: (i32, String, T), k: (i32, Seq<char>))
    ensures
        with_key(seq![x], k) == if entry_key(x) == k {
            seq![x]
        } else {
            Seq::<(i32, String, T)>::empty()
        },
{
    let e = Seq::<(i32, String, T)>::empty();
    assert(seq![x].drop_last() =~= e);
    assert(seq![x].last() == x);
    assert(with_key(e, k) == e);
    assert(e.push(x) =~= seq![x]);
    assert(with_key(seq![x], k) == if entry_key(x) == k {
        with_key(e, k).push(x)
    } else {
        with_key(e, k)
    });
}

proof fn lemma_with_key_none<T>(s: Seq<(i32, String, T)>, k: (i32, Seq<char>))
    requires
        forall|t: int| 0 <= t < s.len() ==> entry_key(#[trigger] s[t]) != k,
    ensures
        with_key(s, k) == Seq::<(i32, String, T)>::empty(),
    decreases s.len(),
{
    if s.len() > 0 {
        assert(entry_key(s[s.len() - 1]) != k);
        lemma_with_key_none(s.drop_last(), k);
    }
}

/// Sort entries into declared order: by order key, then by id. Equal keys
/// keep the order they came in.
pub fn order_by_declaration<T>(entries: Vec<(i32, String, T)>) -> (r: Vec<(i32, String, T)>)
    ensures
        declared_sorted(r@),
        r@.to_multiset() == entries@.to_multiset(),
        forall|k: (i32, Seq<char>)| #[trigger] with_key(r@, k) == with_key(entries@, k),
{
    let ghost orig = entries@;
    let mut rest = entries;
    let mut out: Vec<(i32, String, T)> = Vec::new();
    while rest.len() > 0
        invariant
            declared_sorted(out@),
            out@.to_multiset().add(rest@.to_multiset()) == orig.to_multiset(),
            rest@ == orig.take(rest@.len() as int),
            rest@.len() <= orig.len(),
            forall|k: (i32, Seq<char>)| #[trigger] with_key(out@, k) == with_key(orig.skip(rest@.len() as int), k),
        decreases rest@.len(),
    {
        let ghost before_rest = rest@;
        let x = rest.pop().unwrap();
        proof {
            assert(before_rest =~= rest@.push(x));
        }
        let mut j: usize = 0;
        while j < out.len() && declared_before(out[j].0, out[j].1.as_str(), x.0, x.1.as_str())
            invariant
                j <= out@.len(),
                declared_sorted(out@),
                forall|t: int| 0 <= t < j ==> key_before(entry_key(#[trigger] out@[t]), entry_key(x)),
            decreases out@.len() - j,
        {
            j += 1;
        }
        let ghost before = out@;
        let ghost kx = entry_key(x);
        out.insert(j, x);
        proof {
            let now = out@;
            assert forall|a: int, b: int| 0 <= a < b < now.len() implies !key_before(
                entry_key(#[trigger] now[b]),
                entry_key(#[trigger] now[a]),
            ) by {
                if b < j {
                } else if b == j {
                    assert(now[a] == before[a]);
                    lemma_key_asymmetric(entry_key(before[a]), kx);
                } else if a == j {
                    assert(now[b] == before[b - 1]);
                    if b - 1 > j {
                        lemma_key_not_before_transitive(kx, entry_key(before[j as int]), entry_key(before[b - 1]));
                    }
                } else if a < j {
                    assert(now[a] == before[a] && now[b] == before[b - 1]);
                    lemma_key_asymmetric(entry_key(before[a]), kx);
                    if b - 1 > j {
                        lemma_key_not_before_transitive(kx, entry_key(before[j as int]), entry_key(before[b - 1]));
                    }
                    lemma_key_not_before_transitive(entry_key(before[a]), kx, entry_key(before[b - 1]));
                } else {
                    assert(now[a] == before[a - 1] && now[b] == before[b - 1]);
                }
            }
            assert(now.remove(j as int) =~= before);
            assert(now.to_multiset() =~= before.to_multiset().insert(now[j as int]));
            assert(now.to_multiset().add(rest@.to_multiset()) =~= orig.to_multiset());
            let n = rest@.len() as int;
            assert(orig.skip(n) =~= seq![x] + orig.skip(n + 1)) by {
                assert(before_rest == orig.take(n + 1));
                assert(orig[n] == before_rest[n]);
            }
            assert(rest@ =~= orig.take(n)) by {
                assert(before_rest == orig.take(n + 1));
            }
            assert(now =~= before.take(j as int) + seq![x] + before.skip(j as int));
            assert(before =~= before.take(j as int) + before.skip(j as int));
            assert forall|k: (i32, Seq<char>)| #[trigger] with_key(now, k) == with_key(orig.skip(n), k) by {
                lemma_with_key_concat(before.take(j as int) + seq![x], before.skip(j as int), k);
                lemma_with_key_concat(before.take(j as int), seq![x], k);
                lemma_with_key_concat(before.take(j as int), before.skip(j as int), k);
                lemma_with_key_concat(seq![x], orig.skip(n + 1), k);
                lemma_with_key_single(x, k);
                if entry_key(x) == k {
                    assert forall|t: int| 0 <= t < before.take(j as int).len() implies entry_key(
                        #[trigger] before.take(j as int)[t],
                    ) != k by {
                        assert(before.take(j as int)[t] == before[t]);
                        assert(key_before(entry_key(before[t]), kx));
                        lemma_key_asymmetric(entry_key(before[t]), kx);
                    }
                    lemma_with_key_none(before.take(j as int), k);
                    assert(with_key(now, k) =~= seq![x] + with_key(before.skip(j as int), k));
                    assert(with_key(before, k) =~= with_key(before.skip(j as int), k));
                } else {
                    assert(with_key(now, k) =~= with_key(before, k));
                }
            }
        }
    }
    proof {
        assert(orig.skip(0) =~= orig);
        assert(rest@.to_multiset() =~= vstd::multiset::Multiset::<(i32, String, T)>::empty());
        assert(out@.to_multiset().add(rest@.to_multiset()) =~= out@.to_multiset());
    }
    out
}

/// Whether a built row already shows exactly the wanted ids, in order.
pub fn same_ids(existing: &[String], wanted: &[String]) -> (r: bool)
    ensures
        r == (views(existing@) == views(wanted@)),
{
    if existing.len() != wanted.len() {
        proof {
            assert(views(existing@).len() != views(wanted@).len());
        }
        return false;
    }
    let mut i: usize = 0;
    while i < existing.len()
        invariant
            i <= existing@.len(),
            existing@.len() == wanted@.len(),
            forall|t: int| 0 <= t < i ==> existing@[t]@ == wanted@[t]@,
        decreases existing@.len() - i,
    {
        if !existing[i].as_str().eq(wanted[i].as_str()) {
            proof {
                assert(views(existing@)[i as int] != views(wanted@)[i as int]);
            }
            return false;
        }
        i += 1;
    }
    assert(views(existing@) =~= views(wanted@));
    true
}

/// Which outer corners of a chip in a row are rounded: the row reads as one
/// pill, so only its ends are.
#[derive(Clone, Copy, Debug, PartialEq, Eq, Structural)]
pub struct ChipCorners {
    /// Top-left and bottom-left.
    pub round_left: bool,
    /// Top-right and bottom-right.
    pub round_right: bool,
}

/// The corners of the chip at `index` in a row of `count`: the first rounds
/// its left end, the last its right; a lone chip rounds both.
pub fn chip_corners(index: usize, count: usize) -> (r: ChipCorners)
    ensures
        r.round_left == (index == 0),
        r.round_right == (index == if count == 0 {
            0
        } else {
            count - 1
        }),
{
    let last = count.saturating_sub(1);
    ChipCorners { round_left: index == 0, round_right: index == last }
}

/// The position of the first occurrence of `e`.
pub open spec fn first_index(s: Seq<u64>, e: u64) -> Option<int>
    decreases s.len(),
{
    if s.len() == 0 {
        None
    } else if s.last() != e {
        match first_index(s.drop_last(), e) {
            Some(i) => Some(i),
            None => None,
        }
    } else {
        match first_index(s.drop_last(), e) {
            Some(i) => Some(i),
            None => Some(s.len() - 1),
        }
    }
}

proof fn lemma_first_index(s: Seq<u64>, e: u64, i: int)
    requires
        0 <= i < s.len(),
        s[i] == e,
        forall|t: int| 0 <= t < i ==> s[t] != e,
    ensures
        first_index(s, e) == Some(i),
    decreases s.len(),
{
    if i < s.len() - 1 {
        lemma_first_index(s.drop_last(), e, i);
    } else {
        lemma_first_index_none(s.drop_last(), e);
    }
}

proof fn lemma_first_index_none(s: Seq<u64>, e: u64)
    requires
        forall|t: int| 0 <= t < s.len() ==> s[t] != e,
    ensures
        first_index(s, e) is None,
    decreases s.len(),
{
    if s.len() > 0 {
        lemma_first_index_none(s.drop_last(), e);
    }
}

/// The divider that separates a node from the rest of its split: the
/// sibling before it if that is a divider, otherwise the one after it if that
/// is. `None` for a node not among the siblings, or with no divider beside it.
pub open spec fn divider_beside(siblings: Seq<u64>, dividers: Seq<bool>, entity: u64) -> Option<u64> {
    match first_index(siblings, entity) {
        None => None,
        Some(i) => if i > 0 && dividers[i - 1] {
            Some(siblings[i - 1])
        } else if i + 1 < siblings.len() && dividers[i + 1] {
            Some(siblings[i + 1])
        } else {
            None
        },
    }
}

/// The divider beside `entity` among `siblings`, where `dividers[i]` says
/// whether sibling `i` is one. Hiding a node hides this divider too, so a
/// hidden pane leaves no floating seam.
pub fn adjacent_divider(siblings: &[u64], dividers: &[bool], entity: u64) -> (r: Option<u64>)
    requires
        dividers@.len() == siblings@.len(),
    ensures
        r == divider_beside(siblings@, dividers@, entity),
{
    let mut i: usize = 0;
    while i < siblings.len() && siblings[i] != entity
        invariant
            i <= siblings@.len(),
            forall|t: int| 0 <= t < i ==> siblings@[t] != entity,
        decreases siblings@.len() - i,
    {
        i += 1;
    }
    if i == siblings.len() {
        proof {
            lemma_first_index_none(siblings@, entity);
        }
        return None;
    }
    proof {
        lemma_first_index(siblings@, entity, i as int);
    }
    if i > 0 && dividers[i - 1] {
        Some(siblings[i - 1])
    } else if i + 1 < siblings.len() && dividers[i + 1] {
        Some(siblings[i + 1])
    } else {
        None
    }
}

} // verus!
