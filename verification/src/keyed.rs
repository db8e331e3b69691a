//! String-keyed entry lists: a vector of `(key, value)` pairs in which no key
//! occurs twice, read as a map from key text to value.
//!
//! The stores that key by a user-chosen string (keybind overrides by scope and
//! command id) keep their entries this way, so what a lookup returns after a
//! write is proved rather than taken on trust from a hasher.

use vstd::prelude::*;

verus! {

/// The key texts of an entry list, in order.
pub open spec fn keys_of<V>(s: Seq<(String, V)>) -> Seq<Seq<char>> {
    s.map_values(|p: (String, V)| p.0@)
}

/// An entry list read as a map, each value seen through `f`. Later entries
/// win, though in a well-formed list no key repeats.
pub open spec fn keyed_map<V, W>(s: Seq<(String, V)>, f: spec_fn(V) -> W) -> Map<Seq<char>, W>
    decreases s.len(),
{
    if s.len() == 0 {
        Map::empty()
    } else {
        keyed_map(s.drop_last(), f).insert(s.last().0@, f(s.last().1))
    }
}

proof fn lemma_keys_drop_last<V>(s: Seq<(String, V)>)
    requires
        s.len() > 0,
    ensures
        keys_of(s.drop_last()) == keys_of(s).drop_last(),
        keys_of(s) == keys_of(s.drop_last()).push(s.last().0@),
{
    assert(keys_of(s.drop_last()) =~= keys_of(s).drop_last());
    assert(keys_of(s) =~= keys_of(s.drop_last()).push(s.last().0@));
}

proof fn lemma_no_dup_drop_last<V>(s: Seq<(String, V)>)
    requires
        s.len() > 0,
        keys_of(s).no_duplicates(),
    ensures
        keys_of(s.drop_last()).no_duplicates(),
        !keys_of(s.drop_last()).contains(s.last().0@),
{
    lemma_keys_drop_last(s);
    let k = keys_of(s);
    if keys_of(s.drop_last()).contains(s.last().0@) {
        let j = choose|j: int| 0 <= j < k.len() - 1 && keys_of(s.drop_last())[j] == s.last().0@;
        assert(k[j] == k[k.len() - 1]);
    }
}

/// The keys of the map are the keys of the list.
pub proof fn lemma_keyed_dom<V, W>(s: Seq<(String, V)>, f: spec_fn(V) -> W, key: Seq<char>)
    ensures
        keyed_map(s, f).dom().contains(key) == keys_of(s).contains(key),
    decreases s.len(),
{
    if s.len() > 0 {
        lemma_keyed_dom(s.drop_last(), f, key);
        lemma_keys_drop_last(s);
        let k = keys_of(s);
        if k.contains(key) && key != s.last().0@ {
            let j = choose|j: int| 0 <= j < k.len() && k[j] == key;
            assert(j != k.len() - 1);
            assert(keys_of(s.drop_last())[j] == key);
        }
        if keys_of(s.drop_last()).contains(key) {
            let j = choose|j: int|
                0 <= j < keys_of(s.drop_last()).len() && keys_of(s.drop_last())[j] == key;
            assert(k[j] == key);
        }
        if key == s.last().0@ {
            assert(k[k.len() - 1] == key);
        }
    }
}

/// In a list without repeated keys, each entry is what the map holds for its key.
pub proof fn lemma_keyed_lookup<V, W>(s: Seq<(String, V)>, f: spec_fn(V) -> W, i: int)
    requires
        0 <= i < s.len(),
        keys_of(s).no_duplicates(),
    ensures
        keyed_map(s, f).dom().contains(s[i].0@),
        keyed_map(s, f)[s[i].0@] == f(s[i].1),
    decreases s.len(),
{
    if i < s.len() - 1 {
        lemma_no_dup_drop_last(s);
        lemma_keyed_lookup(s.drop_last(), f, i);
        lemma_keys_drop_last(s);
        assert(keys_of(s)[i] != keys_of(s)[s.len() - 1]);
    }
}

/// Replacing an entry's value sets the map at its key.
pub proof fn lemma_keyed_update<V, W>(s: Seq<(String, V)>, f: spec_fn(V) -> W, i: int, v: V)
    requires
        0 <= i < s.len(),
        keys_of(s).no_duplicates(),
    ensures
        keyed_map(s.update(i, (s[i].0, v)), f) == keyed_map(s, f).insert(s[i].0@, f(v)),
        keys_of(s.update(i, (s[i].0, v))) == keys_of(s),
    decreases s.len(),
{
    let t = s.update(i, (s[i].0, v));
    assert(keys_of(t) =~= keys_of(s));
    if i == s.len() - 1 {
        assert(t.drop_last() =~= s.drop_last());
        assert(keyed_map(t, f) =~= keyed_map(s, f).insert(s[i].0@, f(v)));
    } else {
        lemma_no_dup_drop_last(s);
        lemma_keys_drop_last(s);
        assert(t.drop_last() =~= s.drop_last().update(i, (s[i].0, v)));
        lemma_keyed_update(s.drop_last(), f, i, v);
        assert(keys_of(s)[i] != keys_of(s)[s.len() - 1]);
        assert(keyed_map(t, f) =~= keyed_map(s, f).insert(s[i].0@, f(v)));
    }
}

/// Removing an entry removes its key from the map.
pub proof fn lemma_keyed_remove<V, W>(s: Seq<(String, V)>, f: spec_fn(V) -> W, i: int)
    requires
        0 <= i < s.len(),
        keys_of(s).no_duplicates(),
    ensures
        keyed_map(s.remove(i), f) == keyed_map(s, f).remove(s[i].0@),
        keys_of(s.remove(i)) == keys_of(s).remove(i),
        keys_of(s.remove(i)).no_duplicates(),
    decreases s.len(),
{
    let t = s.remove(i);
    assert(keys_of(t) =~= keys_of(s).remove(i));
    lemma_no_dup_drop_last(s);
    lemma_keys_drop_last(s);
    if i == s.len() - 1 {
        assert(t =~= s.drop_last());
        lemma_keyed_dom(s.drop_last(), f, s.last().0@);
        assert(keyed_map(t, f) =~= keyed_map(s, f).remove(s[i].0@));
    } else {
        assert(t.drop_last() =~= s.drop_last().remove(i));
        assert(t.last() == s.last());
        lemma_keyed_remove(s.drop_last(), f, i);
        assert(keys_of(s)[i] != keys_of(s)[s.len() - 1]);
        assert(keyed_map(t, f) =~= keyed_map(s, f).remove(s[i].0@));
    }
    let k = keys_of(s);
    assert forall|a: int, b: int|
        0 <= a < keys_of(t).len() && 0 <= b < keys_of(t).len() && a != b implies keys_of(t)[a]
        != keys_of(t)[b] by {
        let ai = if a < i { a } else { a + 1 };
        let bi = if b < i { b } else { b + 1 };
        assert(keys_of(t)[a] == k[ai]);
        assert(keys_of(t)[b] == k[bi]);
    }
}

/// Appending an entry under a new key keeps keys unrepeated.
pub proof fn lemma_keyed_push<V>(s: Seq<(String, V)>, key: String, v: V)
    requires
        keys_of(s).no_duplicates(),
        !keys_of(s).contains(key@),
    ensures
        keys_of(s.push((key, v))) == keys_of(s).push(key@),
        keys_of(s.push((key, v))).no_duplicates(),
{
    let t = s.push((key, v));
    assert(keys_of(t) =~= keys_of(s).push(key@));
    let k = keys_of(t);
    assert forall|a: int, b: int| 0 <= a < k.len() && 0 <= b < k.len() && a != b implies k[a]
        != k[b] by {
        if a == s.len() {
            assert(keys_of(s)[b] == k[b]);
        } else if b == s.len() {
            assert(keys_of(s)[a] == k[a]);
        } else {
            assert(keys_of(s)[a] == k[a]);
            assert(keys_of(s)[b] == k[b]);
        }
    }
}

/// A list without repeated keys has as many map keys as entries.
pub proof fn lemma_keyed_len<V, W>(s: Seq<(String, V)>, f: spec_fn(V) -> W)
    requires
        keys_of(s).no_duplicates(),
    ensures
        keyed_map(s, f).dom().finite(),
        keyed_map(s, f).dom().len() == s.len(),
    decreases s.len(),
{
    if s.len() > 0 {
        lemma_no_dup_drop_last(s);
        lemma_keyed_len(s.drop_last(), f);
        lemma_keyed_dom(s.drop_last(), f, s.last().0@);
    }
}

/// The index of the entry under `key`, if there is one.
pub fn find_key<V>(entries: &Vec<(String, V)>, key: &str) -> (r: Option<usize>)
    ensures
        match r {
            Some(i) => i < entries@.len() && entries@[i as int].0@ == key@,
            None => !keys_of(entries@).contains(key@),
        },
{
    let ghost k = keys_of(entries@);
    let mut i: usize = 0;
    while i < entries.len()
        invariant
            i <= entries@.len(),
            k == keys_of(entries@),
            forall|j: int| 0 <= j < i ==> k[j] != key@,
        decreases entries@.len() - i,
    {
        if entries[i].0.as_str().eq(key) {
            return Some(i);
        }
        assert(k[i as int] == entries@[i as int].0@);
        i += 1;
    }
    proof {
        if k.contains(key@) {
            let j = choose|j: int| 0 <= j < k.len() && k[j] == key@;
            assert(k[j] != key@);
        }
    }
    None
}

} // verus!
