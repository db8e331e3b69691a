//! A settings dialog's tabs: their order in the sidebar and which one shows.

use vstd::prelude::*;

use crate::dock::arrange::{declared_sorted, entry_key, order_by_declaration};
use crate::dock::page::{resolve_choice, resolved_choice, str_views};
use crate::text::views;

verus! {

/// Stable identity for a tab.
#[derive(Debug, Hash)]
pub struct TabId(pub String);

impl TabId {
    /// An id with the given text.
    pub fn new(id: &str) -> (r: Self)
        ensures
            r.0@ == id@,
    {
        TabId(id.to_owned())
    }

    /// Borrow the id as a string slice.
    pub fn as_str(&self) -> (r: &str)
        ensures
            r@ == self.0@,
    {
        self.0.as_str()
    }
}

/// The sidebar text of a tab.
#[derive(Debug)]
pub struct TabLabel(pub String);

/// Sort key for the sidebar; lower goes first.
#[derive(Clone, Copy, Debug, PartialEq, Eq, PartialOrd, Ord, Hash, Structural)]
pub struct TabOrder(pub i32);

impl Default for TabOrder {
    fn default() -> (r: Self)
        ensures
            r.0 == 0,
    {
        TabOrder(0)
    }
}

/// The ids of declared entries, in order.
pub open spec fn ids_of_entries(s: Seq<(i32, String, ())>) -> Seq<Seq<char>> {
    s.map_values(|e: (i32, String, ())| e.1@)
}

/// The tabs a host has declared, in sidebar order: by [`TabOrder`], then by
/// [`TabId`], so the order is a declaration rather than an accident of which
/// system ran first. `tabs` holds each tab's order key and id.
pub fn ordered_tabs(tabs: &[(TabOrder, TabId)]) -> (r: Vec<TabId>)
    ensures
        exists|sorted: Seq<(i32, String, ())>|
            #![trigger declared_sorted(sorted)]
            declared_sorted(sorted) && sorted.to_multiset() == tabs@.map_values(
                |t: (TabOrder, TabId)| (t.0.0, t.1.0, ()),
            ).to_multiset() && r@.map_values(|t: TabId| t.0@) == ids_of_entries(sorted),
{
    let mut entries: Vec<(i32, String, ())> = Vec::new();
    let mut i: usize = 0;
    while i < tabs.len()
        invariant
            i <= tabs@.len(),
            entries@ == tabs@.take(i as int).map_values(|t: (TabOrder, TabId)| (t.0.0, t.1.0, ())),
        decreases tabs@.len() - i,
    {
        let id = tabs[i].1.0.clone();
        entries.push((tabs[i].0.0, id, ()));
        assert(entries@ =~= tabs@.take(i + 1).map_values(|t: (TabOrder, TabId)| (t.0.0, t.1.0, ())));
        i += 1;
    }
    assert(tabs@.take(i as int) =~= tabs@);
    let sorted = order_by_declaration(entries);
    let ghost sv = sorted@;
    let mut out: Vec<TabId> = Vec::new();
    let mut j: usize = 0;
    while j < sorted.len()
        invariant
            j <= sorted@.len(),
            sv == sorted@,
            out@.map_values(|t: TabId| t.0@) == ids_of_entries(sv.take(j as int)),
        decreases sorted@.len() - j,
    {
        let ghost before = out@.map_values(|t: TabId| t.0@);
        let id = sorted[j].1.clone();
        assert(id@ == sv[j as int].1@);
        out.push(TabId(id));
        assert(out@.map_values(|t: TabId| t.0@) =~= before.push(sv[j as int].1@));
        assert(ids_of_entries(sv.take(j + 1)) =~= ids_of_entries(sv.take(j as int)).push(sv[j as int].1@));
        j += 1;
    }
    assert(sv.take(j as int) =~= sv);
    out
}

/// Which tab of a settings dialog is showing. `None` shows no tab: the honest
/// state before a host has chosen, or when no tabs are declared yet.
#[derive(Debug)]
pub struct ActiveTab(pub Option<TabId>);

impl ActiveTab {
    /// The active id's text, if any.
    pub open spec fn current(&self) -> Option<Seq<char>> {
        match self.0 {
            Some(t) => Some(t.0@),
            None => None,
        }
    }

    /// Start with `id` showing.
    pub fn at(id: &str) -> (r: Self)
        ensures
            r.current() == Some(id@),
    {
        ActiveTab(Some(TabId::new(id)))
    }

    /// Show nothing.
    pub fn none() -> (r: Self)
        ensures
            r.current() is None,
    {
        ActiveTab(None)
    }

    /// Whether `id` is the active tab.
    pub fn is(&self, id: &str) -> (r: bool)
        ensures
            r == (self.current() == Some(id@)),
    {
        match &self.0 {
            Some(a) => a.as_str().eq(id),
            None => false,
        }
    }

    /// Switch to `id`.
    pub fn set(&mut self, id: &str)
        ensures
            final(self).current() == Some(id@),
    {
        self.0 = Some(TabId::new(id));
    }

    /// The active id, if any.
    pub fn id(&self) -> (r: Option<&str>)
        ensures
            match self.current() {
                Some(x) => r matches Some(s) && s@ == x,
                None => r is None,
            },
    {
        match &self.0 {
            Some(t) => Some(t.as_str()),
            None => None,
        }
    }

    /// The active id if `available` contains it, else the first of
    /// `available` (expected in sidebar order): a save naming a tab this build
    /// no longer ships must not leave the dialog blank.
    pub fn resolve<'a>(&self, available: &[&'a str]) -> (r: Option<&'a str>)
        ensures
            match resolved_choice(self.current(), str_views(available@)) {
                Some(x) => r matches Some(s) && s@ == x,
                None => r is None,
            },
    {
        resolve_choice(self.id(), available)
    }
}

impl Default for ActiveTab {
    fn default() -> (r: Self)
        ensures
            r.current() is None,
    {
        ActiveTab::none()
    }
}

/// Whether a tab's body shows: exactly when it is the active tab.
pub fn tab_shown(active: &ActiveTab, tab: &TabId) -> (r: bool)
    ensures
        r == (active.current() == Some(tab.0@)),
{
    active.is(tab.as_str())
}

/// The first body carrying `id`, among `(entity, tab id)` pairs.
pub open spec fn first_body(bodies: Seq<(u64, Seq<char>)>, id: Seq<char>) -> Option<u64>
    decreases bodies.len(),
{
    if bodies.len() == 0 {
        None
    } else if bodies[0].1 == id {
        Some(bodies[0].0)
    } else {
        first_body(bodies.drop_first(), id)
    }
}

/// The bodies' mathematical form.
pub open spec fn body_views(bodies: Seq<(u64, TabId)>) -> Seq<(u64, Seq<char>)> {
    bodies.map_values(|b: (u64, TabId)| (b.0, b.1.0@))
}

/// The body entity for tab `id`, if that tab exists yet. "Not built yet" and
/// "no such tab" are the same answer: content polls until its body appears.
pub fn tab_body(bodies: &[(u64, TabId)], id: &str) -> (r: Option<u64>)
    ensures
        r == first_body(body_views(bodies@), id@),
{
    let ghost b = body_views(bodies@);
    let mut i: usize = 0;
    proof {
        assert(b.subrange(0, b.len() as int) =~= b);
    }
    while i < bodies.len()
        invariant
            i <= bodies@.len(),
            b == body_views(bodies@),
            first_body(b, id@) == first_body(b.subrange(i as int, b.len() as int), id@),
        decreases bodies@.len() - i,
    {
        proof {
            assert(b.subrange(i as int, b.len() as int).drop_first() =~= b.subrange(i + 1, b.len() as int));
            assert(b.subrange(i as int, b.len() as int)[0] == b[i as int]);
        }
        if bodies[i].1.as_str().eq(id) {
            return Some(bodies[i].0);
        }
        i += 1;
    }
    None
}

/// Whether `id` names a live tab body.
pub fn tab_exists(bodies: &[(u64, TabId)], id: &str) -> (r: bool)
    ensures
        r == first_body(body_views(bodies@), id@) is Some,
{
    tab_body(bodies, id).is_some()
}

} // verus!
