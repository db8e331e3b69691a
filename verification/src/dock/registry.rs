//! Finding a pane by id.
//!
//! Content parents itself into a pane, so the lookup happens often: a panel
//! that spawns once still polls until its pane exists. The registry maps each
//! live pane's id to its entity (as `u64` bits) and is rebuilt whenever the
//! tree changes structurally.

use vstd::prelude::*;

use super::node::PaneId;
use crate::keyed::{
    find_key, keyed_map, keys_of, lemma_keyed_dom, lemma_keyed_len, lemma_keyed_lookup,
    lemma_keyed_push, lemma_keyed_update,
};

verus! {

/// The entity bits as a function value.
pub open spec fn pane_entity_fn() -> spec_fn(u64) -> u64 {
    |e: u64| e
}

/// `PaneId -> entity` for the live tree.
#[derive(Debug)]
pub struct PaneRegistry {
    by_id: Vec<(String, u64)>,
}

impl View for PaneRegistry {
    type V = Map<Seq<char>, u64>;

    open spec fn view(&self) -> Map<Seq<char>, u64> {
        keyed_map(self.entries(), pane_entity_fn())
    }
}

impl PaneRegistry {
    /// The entries, in the order they were first written.
    pub closed spec fn entries(&self) -> Seq<(String, u64)> {
        self.by_id@
    }

    /// No id appears twice.
    pub open spec fn wf(&self) -> bool {
        keys_of(self.entries()).no_duplicates()
    }

    /// An empty registry: what a dock reads before its first build.
    pub fn new() -> (r: Self)
        ensures
            r.wf(),
            r@ == Map::<Seq<char>, u64>::empty(),
    {
        let r = PaneRegistry { by_id: Vec::new() };
        assert(keys_of(r.entries()) =~= Seq::<Seq<char>>::empty());
        r
    }

    /// The entity for `id`, if that pane is in the current tree.
    pub fn get(&self, id: &str) -> (r: Option<u64>)
        requires
            self.wf(),
        ensures
            r is Some == self@.dom().contains(id@),
            r matches Some(e) ==> e == self@[id@],
    {
        match find_key(&self.by_id, id) {
            Some(i) => {
                proof {
                    lemma_keyed_lookup(self.entries(), pane_entity_fn(), i as int);
                }
                Some(self.by_id[i].1)
            },
            None => {
                proof {
                    lemma_keyed_dom(self.entries(), pane_entity_fn(), id@);
                }
                None
            },
        }
    }

    /// Whether `id` names a pane in the current tree.
    pub fn contains(&self, id: &str) -> (r: bool)
        requires
            self.wf(),
        ensures
            r == self@.dom().contains(id@),
    {
        self.get(id).is_some()
    }

    /// How many panes the tree has.
    pub fn len(&self) -> (r: usize)
        requires
            self.wf(),
        ensures
            r == self@.dom().len(),
    {
        proof {
            lemma_keyed_len(self.entries(), pane_entity_fn());
        }
        self.by_id.len()
    }

    /// Whether the tree has no panes: true before the first build.
    pub fn is_empty(&self) -> (r: bool)
        requires
            self.wf(),
        ensures
            r == (self@.dom().len() == 0),
    {
        proof {
            lemma_keyed_len(self.entries(), pane_entity_fn());
        }
        self.by_id.len() == 0
    }

    /// Every pane as `(id, entity)`.
    pub fn pairs(&self) -> (r: &[(String, u64)])
        ensures
            r@ == self.entries(),
    {
        self.by_id.as_slice()
    }

    /// Drop every entry.
    pub fn clear(&mut self)
        ensures
            final(self).wf(),
            final(self)@ == Map::<Seq<char>, u64>::empty(),
    {
        self.by_id.clear();
        assert(keys_of(self.entries()) =~= Seq::<Seq<char>>::empty());
    }

    /// Point `id` at `entity`. Re-inserting an id repoints it: a rebuild
    /// spawns fresh entities for the same ids.
    pub fn insert(&mut self, id: &PaneId, entity: u64)
        requires
            old(self).wf(),
        ensures
            final(self).wf(),
            final(self)@ == old(self)@.insert(id@, entity),
    {
        let ghost before = self.entries();
        match find_key(&self.by_id, id.as_str()) {
            Some(i) => {
                let ghost name = self.by_id@[i as int].0;
                self.by_id[i].1 = entity;
                proof {
                    assert(self.entries() =~= before.update(i as int, (name, entity)));
                    lemma_keyed_update(before, pane_entity_fn(), i as int, entity);
                }
            },
            None => {
                let name = id.0.clone();
                self.by_id.push((name, entity));
                proof {
                    lemma_keyed_push(before, name, entity);
                    assert(self.entries().drop_last() =~= before);
                    assert(self.entries().last() == (name, entity));
                }
            },
        }
    }
}

impl Default for PaneRegistry {
    fn default() -> (r: Self)
        ensures
            r.wf(),
            r@ == Map::<Seq<char>, u64>::empty(),
    {
        PaneRegistry::new()
    }
}

} // verus!
