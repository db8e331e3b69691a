//! User keybind customizations.
//!
//! Overrides are stored as `scope -> command_id -> chords`, never by action:
//! a command id is a string the author chose and is expected to keep stable,
//! so an unknown id at load time is ignorable (the binding just falls back to
//! its default) rather than actively wrong.
//!
//! An empty chord list is meaningful: it records "the user unbound this",
//! which is different from "the user never touched it" (an absent id).
//! Reading and writing the file is the host's business.

use vstd::prelude::*;

use crate::keyed::{
    find_key, keyed_map, keys_of, lemma_keyed_dom, lemma_keyed_lookup, lemma_keyed_push,
    lemma_keyed_remove, lemma_keyed_update,
};

verus! {

/// A chord as stored on disk: its key names.
pub type SerializedChord = Vec<String>;

/// The mathematical form of a list of stored chords.
pub open spec fn chords_view(v: Vec<SerializedChord>) -> Seq<Seq<Seq<char>>> {
    v.deep_view()
}

/// [`chords_view`] as a function value.
pub open spec fn chords_fn() -> spec_fn(Vec<SerializedChord>) -> Seq<Seq<Seq<char>>> {
    |v: Vec<SerializedChord>| chords_view(v)
}

/// Overrides for one scope: `command_id -> the chords bound to it`.
#[derive(Debug)]
pub struct ScopeOverrides {
    entries: Vec<(String, Vec<SerializedChord>)>,
}

impl View for ScopeOverrides {
    type V = Map<Seq<char>, Seq<Seq<Seq<char>>>>;

    open spec fn view(&self) -> Self::V {
        keyed_map(self.entries(), chords_fn())
    }
}

impl ScopeOverrides {
    /// The entries, in the order they were first written.
    pub closed spec fn entries(&self) -> Seq<(String, Vec<SerializedChord>)> {
        self.entries@
    }

    /// No command id appears twice.
    pub open spec fn wf(&self) -> bool {
        keys_of(self.entries()).no_duplicates()
    }

    /// A scope with no overrides.
    pub fn new() -> (r: Self)
        ensures
            r.wf(),
            r@ == Map::<Seq<char>, Seq<Seq<Seq<char>>>>::empty(),
    {
        let r = ScopeOverrides { entries: Vec::new() };
        assert(keys_of(r.entries()) =~= Seq::<Seq<char>>::empty());
        r
    }

    /// The chords recorded for a command, if any.
    pub fn get(&self, command_id: &str) -> (r: Option<&Vec<SerializedChord>>)
        requires
            self.wf(),
        ensures
            r is Some == self@.dom().contains(command_id@),
            r matches Some(v) ==> chords_view(*v) == self@[command_id@],
    {
        match find_key(&self.entries, command_id) {
            Some(i) => {
                proof {
                    lemma_keyed_lookup(self.entries(), chords_fn(), i as int);
                }
                Some(&self.entries[i].1)
            },
            None => {
                proof {
                    lemma_keyed_dom(self.entries(), chords_fn(), command_id@);
                }
                None
            },
        }
    }

    /// Record the chords for a command, replacing what was there.
    pub fn insert(&mut self, command_id: &str, chords: Vec<SerializedChord>)
        requires
            old(self).wf(),
        ensures
            final(self).wf(),
            final(self)@ == old(self)@.insert(command_id@, chords_view(chords)),
    {
        let ghost before = self.entries();
        match find_key(&self.entries, command_id) {
            Some(i) => {
                let ghost name = self.entries@[i as int].0;
                self.entries[i].1 = chords;
                proof {
                    assert(self.entries() =~= before.update(i as int, (name, chords)));
                    lemma_keyed_update(before, chords_fn(), i as int, chords);
                }
            },
            None => {
                let name = command_id.to_owned();
                self.entries.push((name, chords));
                proof {
                    lemma_keyed_push(before, name, chords);
                    assert(self.entries().drop_last() =~= before);
                    assert(self.entries().last() == (name, chords));
                }
            },
        }
    }

    /// Forget the chords for a command.
    pub fn remove(&mut self, command_id: &str)
        requires
            old(self).wf(),
        ensures
            final(self).wf(),
            final(self)@ == old(self)@.remove(command_id@),
    {
        let ghost before = self.entries();
        match find_key(&self.entries, command_id) {
            Some(i) => {
                self.entries.remove(i);
                proof {
                    lemma_keyed_remove(before, chords_fn(), i as int);
                }
            },
            None => {
                proof {
                    lemma_keyed_dom(before, chords_fn(), command_id@);
                    assert(keyed_map(before, chords_fn()).remove(command_id@) =~= keyed_map(
                        before,
                        chords_fn(),
                    ));
                }
            },
        }
    }

    /// Whether no command is overridden.
    pub fn is_empty(&self) -> (r: bool)
        ensures
            r == (self@.dom() == Set::<Seq<char>>::empty()),
    {
        proof {
            if self.entries().len() > 0 {
                let k = self.entries().last().0@;
                lemma_keyed_dom(self.entries(), chords_fn(), k);
                assert(keys_of(self.entries())[self.entries().len() - 1] == k);
            } else {
                assert(self@.dom() =~= Set::<Seq<char>>::empty());
            }
        }
        self.entries.len() == 0
    }

    /// The overrides as `(command_id, chords)` pairs.
    pub fn pairs(&self) -> (r: &[(String, Vec<SerializedChord>)])
        ensures
            r@ == self.entries(),
    {
        self.entries.as_slice()
    }
}

/// [`ScopeOverrides`]' view as a function value.
pub open spec fn scope_fn() -> spec_fn(ScopeOverrides) -> Map<Seq<char>, Seq<Seq<Seq<char>>>> {
    |o: ScopeOverrides| o@
}

/// Every user keybind override, grouped by scope. Anything absent falls back
/// to the binding declared at registration.
#[derive(Debug)]
pub struct SavedKeybinds {
    scopes: Vec<(String, ScopeOverrides)>,
    /// What an untouched scope reads as: no overrides.
    untouched: ScopeOverrides,
}

/// The overrides after one is recorded: the scope is created if untouched.
pub open spec fn with_override(
    m: Map<Seq<char>, Map<Seq<char>, Seq<Seq<Seq<char>>>>>,
    scope: Seq<char>,
    command_id: Seq<char>,
    chords: Seq<Seq<Seq<char>>>,
) -> Map<Seq<char>, Map<Seq<char>, Seq<Seq<Seq<char>>>>> {
    let inner = if m.dom().contains(scope) {
        m[scope]
    } else {
        Map::empty()
    };
    m.insert(scope, inner.insert(command_id, chords))
}

/// The overrides after one is forgotten: an untouched scope stays untouched.
pub open spec fn without_override(
    m: Map<Seq<char>, Map<Seq<char>, Seq<Seq<Seq<char>>>>>,
    scope: Seq<char>,
    command_id: Seq<char>,
) -> Map<Seq<char>, Map<Seq<char>, Seq<Seq<Seq<char>>>>> {
    if m.dom().contains(scope) {
        m.insert(scope, m[scope].remove(command_id))
    } else {
        m
    }
}

impl View for SavedKeybinds {
    type V = Map<Seq<char>, Map<Seq<char>, Seq<Seq<Seq<char>>>>>;

    open spec fn view(&self) -> Self::V {
        keyed_map(self.scope_entries(), scope_fn())
    }
}

impl SavedKeybinds {
    /// The scopes, in the order they were first written.
    pub closed spec fn scope_entries(&self) -> Seq<(String, ScopeOverrides)> {
        self.scopes@
    }

    /// What an untouched scope reads as.
    pub closed spec fn untouched_scope(&self) -> ScopeOverrides {
        self.untouched
    }

    /// No scope appears twice, each is well formed, and an untouched scope
    /// reads as holding no overrides.
    pub open spec fn wf(&self) -> bool {
        &&& keys_of(self.scope_entries()).no_duplicates()
        &&& self.untouched_scope().wf()
        &&& self.untouched_scope()@ == Map::<Seq<char>, Seq<Seq<Seq<char>>>>::empty()
        &&& forall|i: int|
            0 <= i < self.scope_entries().len() ==> (#[trigger] self.scope_entries()[i]).1.wf()
    }

    /// No overrides at all.
    pub fn new() -> (r: Self)
        ensures
            r.wf(),
            r@ == Map::<Seq<char>, Map<Seq<char>, Seq<Seq<Seq<char>>>>>::empty(),
    {
        let r = SavedKeybinds { scopes: Vec::new(), untouched: ScopeOverrides::new() };
        assert(keys_of(r.scope_entries()) =~= Seq::<Seq<char>>::empty());
        r
    }

    /// Overrides for one scope, or an empty map if the scope is untouched.
    pub fn scope(&self, scope: &str) -> (r: Option<&ScopeOverrides>)
        requires
            self.wf(),
        ensures
            r matches Some(o) && o.wf() && o@ == if self@.dom().contains(scope@) {
                self@[scope@]
            } else {
                Map::<Seq<char>, Seq<Seq<Seq<char>>>>::empty()
            },
    {
        match find_key(&self.scopes, scope) {
            Some(i) => {
                proof {
                    lemma_keyed_lookup(self.scope_entries(), scope_fn(), i as int);
                    assert(self.scope_entries()[i as int].1.wf());
                }
                Some(&self.scopes[i].1)
            },
            None => {
                proof {
                    lemma_keyed_dom(self.scope_entries(), scope_fn(), scope@);
                }
                Some(&self.untouched)
            },
        }
    }

    /// Record an override. Pass an empty `chords` to record "unbound".
    pub fn set(&mut self, scope: &str, command_id: &str, chords: Vec<SerializedChord>)
        requires
            old(self).wf(),
        ensures
            final(self).wf(),
            final(self)@ == with_override(old(self)@, scope@, command_id@, chords_view(chords)),
    {
        let ghost before = self.scope_entries();
        match find_key(&self.scopes, scope) {
            Some(i) => {
                proof {
                    lemma_keyed_lookup(before, scope_fn(), i as int);
                    assert(before[i as int].1.wf());
                }
                let ghost name = self.scopes@[i as int].0;
                let ghost old_inner = self.scopes@[i as int].1;
                self.scopes[i].1.insert(command_id, chords);
                proof {
                    let new_inner = self.scopes@[i as int].1;
                    assert(self.scope_entries() =~= before.update(i as int, (name, new_inner)));
                    lemma_keyed_update(before, scope_fn(), i as int, new_inner);
                    assert forall|j: int| 0 <= j < self.scope_entries().len() implies (
                    #[trigger] self.scope_entries()[j]).1.wf() by {
                        if j != i {
                            assert(self.scope_entries()[j] == before[j]);
                        }
                    }
                }
            },
            None => {
                let mut inner = ScopeOverrides::new();
                inner.insert(command_id, chords);
                let name = scope.to_owned();
                self.scopes.push((name, inner));
                proof {
                    lemma_keyed_dom(before, scope_fn(), scope@);
                    lemma_keyed_push(before, name, inner);
                    assert(self.scope_entries().drop_last() =~= before);
                    assert(self.scope_entries().last() == (name, inner));
                    assert(inner@ =~= Map::<Seq<char>, Seq<Seq<Seq<char>>>>::empty().insert(
                        command_id@,
                        chords_view(chords),
                    ));
                    assert forall|j: int| 0 <= j < self.scope_entries().len() implies (
                    #[trigger] self.scope_entries()[j]).1.wf() by {
                        if j < before.len() {
                            assert(self.scope_entries()[j] == before[j]);
                        }
                    }
                }
            },
        }
    }

    /// Forget an override, restoring the registered default.
    pub fn clear(&mut self, scope: &str, command_id: &str)
        requires
            old(self).wf(),
        ensures
            final(self).wf(),
            final(self)@ == without_override(old(self)@, scope@, command_id@),
    {
        let ghost before = self.scope_entries();
        match find_key(&self.scopes, scope) {
            Some(i) => {
                proof {
                    lemma_keyed_lookup(before, scope_fn(), i as int);
                    assert(before[i as int].1.wf());
                }
                let ghost name = self.scopes@[i as int].0;
                self.scopes[i].1.remove(command_id);
                proof {
                    let new_inner = self.scopes@[i as int].1;
                    assert(self.scope_entries() =~= before.update(i as int, (name, new_inner)));
                    lemma_keyed_update(before, scope_fn(), i as int, new_inner);
                    assert forall|j: int| 0 <= j < self.scope_entries().len() implies (
                    #[trigger] self.scope_entries()[j]).1.wf() by {
                        if j != i {
                            assert(self.scope_entries()[j] == before[j]);
                        }
                    }
                }
            },
            None => {
                proof {
                    lemma_keyed_dom(before, scope_fn(), scope@);
                }
            },
        }
    }

    /// Whether no scope has been touched.
    pub fn is_empty(&self) -> (r: bool)
        ensures
            r == (self@.dom() == Set::<Seq<char>>::empty()),
    {
        proof {
            if self.scope_entries().len() > 0 {
                let k = self.scope_entries().last().0@;
                lemma_keyed_dom(self.scope_entries(), scope_fn(), k);
                assert(keys_of(self.scope_entries())[self.scope_entries().len() - 1] == k);
            } else {
                assert(self@.dom() =~= Set::<Seq<char>>::empty());
            }
        }
        self.scopes.len() == 0
    }

    /// The scopes as `(scope, overrides)` pairs.
    pub fn pairs(&self) -> (r: &[(String, ScopeOverrides)])
        ensures
            r@ == self.scope_entries(),
    {
        self.scopes.as_slice()
    }
}

impl Default for SavedKeybinds {
    fn default() -> (r: Self)
        ensures
            r.wf(),
            r@ == Map::<Seq<char>, Map<Seq<char>, Seq<Seq<Seq<char>>>>>::empty(),
    {
        SavedKeybinds::new()
    }
}

/// What is recorded reads back: after an override is set, its scope holds
/// exactly those chords for the command, and every other command and scope
/// reads as before.
pub proof fn lemma_set_reads_back(
    m: Map<Seq<char>, Map<Seq<char>, Seq<Seq<Seq<char>>>>>,
    scope: Seq<char>,
    command_id: Seq<char>,
    chords: Seq<Seq<Seq<char>>>,
    other_scope: Seq<char>,
    other_command: Seq<char>,
)
    ensures
        with_override(m, scope, command_id, chords).dom().contains(scope),
        with_override(m, scope, command_id, chords)[scope].dom().contains(command_id),
        with_override(m, scope, command_id, chords)[scope][command_id] == chords,
        other_command != command_id && m.dom().contains(scope) ==> (with_override(
            m,
            scope,
            command_id,
            chords,
        )[scope].dom().contains(other_command) == m[scope].dom().contains(other_command) && with_override(
            m,
            scope,
            command_id,
            chords,
        )[scope][other_command] == m[scope][other_command]),
        other_scope != scope ==> with_override(m, scope, command_id, chords).dom().contains(
            other_scope,
        ) == m.dom().contains(other_scope) && with_override(m, scope, command_id, chords)[other_scope]
            == m[other_scope],
{
}

/// Clearing an override restores the default: the command is absent from its
/// scope afterwards, whatever was recorded for it, and nothing else changes.
pub proof fn lemma_clear_restores_default(
    m: Map<Seq<char>, Map<Seq<char>, Seq<Seq<Seq<char>>>>>,
    scope: Seq<char>,
    command_id: Seq<char>,
    chords: Seq<Seq<Seq<char>>>,
)
    ensures
        !without_override(with_override(m, scope, command_id, chords), scope, command_id)[scope].dom().contains(
            command_id,
        ),
        !m.dom().contains(scope) || !m[scope].dom().contains(command_id) ==> without_override(
            with_override(m, scope, command_id, chords),
            scope,
            command_id,
        ) == (if m.dom().contains(scope) {
            m
        } else {
            m.insert(scope, Map::empty())
        }),
{
    let w = with_override(m, scope, command_id, chords);
    let c = without_override(w, scope, command_id);
    if m.dom().contains(scope) && !m[scope].dom().contains(command_id) {
        assert(m[scope].insert(command_id, chords).remove(command_id) =~= m[scope]);
        assert(c =~= m);
    }
    if !m.dom().contains(scope) {
        assert(Map::<Seq<char>, Seq<Seq<Seq<char>>>>::empty().insert(command_id, chords).remove(
            command_id,
        ) =~= Map::<Seq<char>, Seq<Seq<Seq<char>>>>::empty());
    }
}

} // verus!
