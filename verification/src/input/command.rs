//! Commands: what a keypress can do, and the index of them by id.
//!
//! A command is an entity of the host's; what the library keeps is its
//! identity, its binding and its tie-break, and `command id -> entity`.
//! Entities are carried as their `u64` bits.

use vstd::prelude::*;

use super::chord::Chord;
use super::binding::GLOBAL_SCOPE;
use bevy::platform::collections::HashMap;

verus! {

/// Stable string identity of a command. Also the persistence key for keybind
/// overrides, so changing it discards users' customizations for the command.
#[derive(Debug, Hash)]
pub struct CommandId(pub String);

impl CommandId {
    pub fn as_str(&self) -> (r: &str)
        ensures
            r@ == self.0@,
    {
        self.0.as_str()
    }
}

/// Human-readable name, for the palette and the keybind settings list.
#[derive(Debug)]
pub struct CommandLabel(pub String);

impl CommandLabel {
    pub fn new(label: &str) -> (r: Self)
        ensures
            r.0@ == label@,
    {
        CommandLabel(label.to_owned())
    }

    pub fn as_str(&self) -> (r: &str)
        ensures
            r@ == self.0@,
    {
        self.0.as_str()
    }
}

/// The chord that triggers a command.
#[derive(Debug)]
pub struct Keybind(pub Chord);

/// The scope a command's binding belongs to, for persistence grouping. It
/// does not gate dispatch.
#[derive(Debug)]
pub struct BindScope(pub String);

impl Default for BindScope {
    fn default() -> (r: Self)
        ensures
            r.0@ == GLOBAL_SCOPE@,
    {
        BindScope(GLOBAL_SCOPE.to_owned())
    }
}

/// `bevy_platform`'s hash map, which the registry keeps its index in.
#[verifier::external_type_specification]
#[verifier::external_body]
#[verifier::reject_recursive_types(K)]
#[verifier::reject_recursive_types(V)]
#[verifier::reject_recursive_types(S)]
pub struct ExHashMap<K, V, S>(HashMap<K, V, S>);

/// `bevy_platform`'s default hasher, the map's third parameter.
#[verifier::external_type_specification]
#[verifier::external_body]
pub struct ExFixedHasher(bevy::platform::hash::FixedHasher);

/// An index from id text to entity bits.
pub type IdIndex = HashMap<String, u64>;

/// What an id index holds: each id's text and the entity registered under it.
pub uninterp spec fn index_contents(m: HashMap<String, u64>) -> Map<Seq<char>, u64>;

/// `HashMap::new`: an empty map.
#[verifier::external_body]
fn index_new() -> (r: IdIndex)
    ensures
        index_contents(r).dom() == Set::<Seq<char>>::empty(),
{
    HashMap::new()
}

/// `HashMap::get`, looking a `String` key up by its text: the value stored
/// under that text, if any.
#[verifier::external_body]
fn index_get(m: &HashMap<String, u64>, id: &str) -> (r: Option<u64>)
    ensures
        r is Some == index_contents(*m).dom().contains(id@),
        r matches Some(e) ==> e == index_contents(*m)[id@],
{
    m.get(id).copied()
}

/// `HashMap::insert`: the map now holds `entity` under `id`; what it held
/// there before is returned.
#[verifier::external_body]
fn index_insert(m: &mut HashMap<String, u64>, id: String, entity: u64) -> (r: Option<u64>)
    ensures
        index_contents(*final(m)) == index_contents(*old(m)).insert(id@, entity),
        r is Some == index_contents(*old(m)).dom().contains(id@),
        r matches Some(e) ==> e == index_contents(*old(m))[id@],
{
    m.insert(id, entity)
}

/// `HashMap::remove`, by a key's text: the map no longer holds `id`; what it
/// held there is returned.
#[verifier::external_body]
fn index_remove(m: &mut HashMap<String, u64>, id: &str) -> (r: Option<u64>)
    ensures
        index_contents(*final(m)) == index_contents(*old(m)).remove(id@),
        r is Some == index_contents(*old(m)).dom().contains(id@),
        r matches Some(e) ==> e == index_contents(*old(m))[id@],
{
    m.remove(id)
}

/// `HashMap::len`: how many keys the map holds.
#[verifier::external_body]
fn index_len(m: &HashMap<String, u64>) -> (r: usize)
    ensures
        r == index_contents(*m).dom().len(),
{
    m.len()
}

/// `HashMap::iter`, each entry copied out as `(id, entity)`: every key once,
/// in an order the map does not promise.
#[verifier::external_body]
fn index_entries(m: &HashMap<String, u64>) -> (r: Vec<(String, u64)>)
    ensures
        r@.len() == index_contents(*m).dom().len(),
        forall|i: int|
            0 <= i < r@.len() ==> index_contents(*m).dom().contains((#[trigger] r@[i]).0@)
                && index_contents(*m)[r@[i].0@] == r@[i].1,
        forall|i: int, j: int| 0 <= i < j < r@.len() ==> (#[trigger] r@[i]).0@ != (#[trigger] r@[j]).0@,
{
    m.iter().map(|(id, e)| (id.clone(), *e)).collect()
}

/// `command id -> entity`.
///
/// It makes firing by id a lookup rather than a scan, and it makes duplicate
/// ids visible: the first registration wins, so a built-in cannot be
/// displaced by an extension that reuses its id.
#[derive(Debug)]
pub struct CommandRegistry {
    by_id: HashMap<String, u64>,
}

impl View for CommandRegistry {
    type V = Map<Seq<char>, u64>;

    closed spec fn view(&self) -> Map<Seq<char>, u64> {
        index_contents(self.by_id)
    }
}

impl CommandRegistry {
    /// A registry only ever holds finitely many ids.
    #[verifier::type_invariant]
    closed spec fn finite_ids(self) -> bool {
        index_contents(self.by_id).dom().finite()
    }

    /// An empty registry.
    pub fn new() -> (r: Self)
        ensures
            r@ == Map::<Seq<char>, u64>::empty(),
            r@.dom().finite(),
    {
        let by_id = index_new();
        proof {
            assert(index_contents(by_id).dom() =~= Set::<Seq<char>>::empty());
        }
        CommandRegistry { by_id }
    }

    /// The entity registered under `id`.
    pub fn get(&self, id: &str) -> (r: Option<u64>)
        ensures
            r is Some == self@.dom().contains(id@),
            r matches Some(e) ==> e == self@[id@],
    {
        index_get(&self.by_id, id)
    }

    /// How many ids are registered.
    pub fn len(&self) -> (r: usize)
        ensures
            r == self@.dom().len(),
    {
        index_len(&self.by_id)
    }

    /// Whether no id is registered.
    pub fn is_empty(&self) -> (r: bool)
        ensures
            r == (self@.dom().len() == 0),
    {
        index_len(&self.by_id) == 0
    }

    /// The registrations as `(id, entity)` pairs, each id once, in no
    /// promised order.
    pub fn pairs(&self) -> (r: Vec<(String, u64)>)
        ensures
            r@.len() == self@.dom().len(),
            forall|i: int|
                0 <= i < r@.len() ==> self@.dom().contains((#[trigger] r@[i]).0@) && self@[r@[i].0@]
                    == r@[i].1,
            forall|i: int, j: int| 0 <= i < j < r@.len() ==> (#[trigger] r@[i]).0@ != (#[trigger] r@[j]).0@,
    {
        index_entries(&self.by_id)
    }

    /// Register `id -> entity`, refusing a duplicate: the first registration
    /// wins. Whether it was accepted is returned.
    pub fn insert(&mut self, id: String, entity: u64) -> (r: bool)
        ensures
            r == !old(self)@.dom().contains(id@),
            final(self)@ == registered(old(self)@, id@, entity),
            final(self)@.dom().finite(),
            final(self)@.dom().len() == old(self)@.dom().len() + if r {
                1int
            } else {
                0int
            },
    {
        proof {
            use_type_invariant(&*self);
        }
        if index_get(&self.by_id, id.as_str()).is_some() {
            return false;
        }
        let mut by_id = index_new();
        std::mem::swap(&mut by_id, &mut self.by_id);
        index_insert(&mut by_id, id, entity);
        self.by_id = by_id;
        true
    }

    /// Accept a freshly spawned command entity. One whose bundle carries no id,
    /// or whose id is already registered, is refused (the first registration
    /// keeps the id) and the host despawns it; otherwise it is registered.
    /// Whether it was accepted is returned.
    pub fn accept(&mut self, id: Option<String>, entity: u64) -> (r: bool)
        ensures
            r == (id matches Some(s) && !old(self)@.dom().contains(s@)),
            r ==> final(self)@ == old(self)@.insert(id.unwrap()@, entity),
            !r ==> final(self)@ == old(self)@,
            final(self)@.dom().finite(),
            final(self)@.dom().len() == old(self)@.dom().len() + if r {
                1int
            } else {
                0int
            },
    {
        proof {
            use_type_invariant(&*self);
        }
        match id {
            Some(s) => self.insert(s, entity),
            None => false,
        }
    }

    /// Drop `id`, but only if `entity` is the one registered under it.
    ///
    /// The entity check matters: a refused duplicate is dropped while still
    /// carrying the id it failed to claim, and its removal must not evict the
    /// first owner's entry.
    pub fn remove_if_owner(&mut self, id: &str, entity: u64)
        ensures
            final(self)@ == freed(old(self)@, id@, entity),
            final(self)@.dom().finite(),
    {
        proof {
            use_type_invariant(&*self);
        }
        if index_get(&self.by_id, id) == Some(entity) {
            let mut by_id = index_new();
            std::mem::swap(&mut by_id, &mut self.by_id);
            index_remove(&mut by_id, id);
            self.by_id = by_id;
        }
    }
}

impl Default for CommandRegistry {
    fn default() -> (r: Self)
        ensures
            r@ == Map::<Seq<char>, u64>::empty(),
            r@.dom().finite(),
    {
        CommandRegistry::new()
    }
}

/// The name a command entity carries: `cmd:` then its id.
pub fn command_name(id: &str) -> (r: String)
    ensures
        r@ == "cmd:"@ + id@,
{
    let mut name = String::from_str("cmd:");
    name.append(id);
    name
}

/// The registry after a registration: unchanged where the id is taken.
pub open spec fn registered(m: Map<Seq<char>, u64>, id: Seq<char>, entity: u64) -> Map<
    Seq<char>,
    u64,
> {
    if m.dom().contains(id) {
        m
    } else {
        m.insert(id, entity)
    }
}

/// The registry after an entity gives up an id: unchanged unless it owns it.
pub open spec fn freed(m: Map<Seq<char>, u64>, id: Seq<char>, entity: u64) -> Map<Seq<char>, u64> {
    if m.dom().contains(id) && m[id] == entity {
        m.remove(id)
    } else {
        m
    }
}

/// The first registration wins: a duplicate is refused, and dropping the
/// refused duplicate afterwards leaves the first one registered.
pub proof fn lemma_first_registration_wins(
    m: Map<Seq<char>, u64>,
    id: Seq<char>,
    incumbent: u64,
    duplicate: u64,
)
    requires
        m.dom().contains(id),
        m[id] == incumbent,
        incumbent != duplicate,
    ensures
        registered(m, id, duplicate) == m,
        freed(registered(m, id, duplicate), id, duplicate) == m,
{
}

/// Registering a fresh id and then dropping it by the same entity restores the
/// registry: a despawned command frees its id.
pub proof fn lemma_register_then_free(m: Map<Seq<char>, u64>, id: Seq<char>, entity: u64)
    requires
        !m.dom().contains(id),
    ensures
        registered(m, id, entity)[id] == entity,
        freed(registered(m, id, entity), id, entity) == m,
{
    assert(m.insert(id, entity).remove(id) =~= m);
}

} // verus!
