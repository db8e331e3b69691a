//! Pages: several contents sharing one pane, one showing at a time.
//!
//! Which page shows is a choice held on the pane. A restored session may name
//! a page this build no longer ships; resolving against what is available
//! falls back to the first rather than leaving the pane blank.

use vstd::prelude::*;

use crate::text::views;

verus! {

/// Stable identity for a page, unique within its pane.
#[derive(Debug, Hash)]
pub struct PageId(pub String);

impl PageId {
    /// An id with the given text.
    pub fn new(id: &str) -> (r: Self)
        ensures
            r.0@ == id@,
    {
        PageId(id.to_owned())
    }

    /// Borrow the id as a string slice.
    pub fn as_str(&self) -> (r: &str)
        ensures
            r@ == self.0@,
    {
        self.0.as_str()
    }
}

/// Sort key for a chooser; lower goes first.
#[derive(Clone, Copy, Debug, PartialEq, Eq, PartialOrd, Ord, Hash, Structural)]
pub struct PageOrder(pub i32);

impl Default for PageOrder {
    fn default() -> (r: Self)
        ensures
            r.0 == 0,
    {
        PageOrder(0)
    }
}

/// The text views of a list of string slices.
pub open spec fn str_views(s: Seq<&str>) -> Seq<Seq<char>> {
    s.map_values(|x: &str| x@)
}

/// The choice a pane resolves to: the active id if `available` holds it,
/// else the first available, else nothing.
pub open spec fn resolved_choice(active: Option<Seq<char>>, available: Seq<Seq<char>>) -> Option<
    Seq<char>,
> {
    match active {
        Some(a) => if available.contains(a) {
            Some(a)
        } else if available.len() > 0 {
            Some(available[0])
        } else {
            None
        },
        None => if available.len() > 0 {
            Some(available[0])
        } else {
            None
        },
    }
}

/// The active id if `available` contains it, else the first of `available`.
///
/// `available` is expected in the order a chooser would show, so the fallback
/// is the first page rather than an arbitrary one.
pub fn resolve_choice<'a>(active: Option<&str>, available: &[&'a str]) -> (r: Option<&'a str>)
    ensures
        match resolved_choice(
            match active {
                Some(a) => Some(a@),
                None => None,
            },
            str_views(available@),
        ) {
            Some(x) => r matches Some(s) && s@ == x,
            None => r is None,
        },
{
    let ghost av = str_views(available@);
    if let Some(a) = active {
        let mut i: usize = 0;
        while i < available.len()
            invariant
                i <= available@.len(),
                active == Some(a),
                av == str_views(available@),
                forall|t: int| 0 <= t < i ==> av[t] != a@,
            decreases available@.len() - i,
        {
            if available[i].eq(a) {
                assert(av[i as int] == a@);
                assert(av.contains(a@));
                return Some(available[i]);
            }
            i += 1;
        }
        proof {
            if av.contains(a@) {
                let t = choose|t: int| 0 <= t < av.len() && av[t] == a@;
                assert(av[t] != a@);
            }
        }
    }
    if available.len() > 0 {
        Some(available[0])
    } else {
        None
    }
}

/// Which page of a pane is showing. `None` shows no page at all: the honest
/// state before a host has chosen.
#[derive(Debug)]
pub struct ActivePage(pub Option<PageId>);

impl ActivePage {
    /// The active id's text, if any.
    pub open spec fn current(&self) -> Option<Seq<char>> {
        match self.0 {
            Some(p) => Some(p.0@),
            None => None,
        }
    }

    /// Start with `id` showing.
    pub fn at(id: &str) -> (r: Self)
        ensures
            r.current() == Some(id@),
    {
        ActivePage(Some(PageId::new(id)))
    }

    /// Show nothing.
    pub fn none() -> (r: Self)
        ensures
            r.current() is None,
    {
        ActivePage(None)
    }

    /// Whether `id` is the active page.
    pub fn is(&self, id: &str) -> (r: bool)
        ensures
            r == (self.current() == Some(id@)),
    {
        match &self.0 {
            Some(active) => active.as_str().eq(id),
            None => false,
        }
    }

    /// Switch to `id`.
    pub fn set(&mut self, id: &str)
        ensures
            final(self).current() == Some(id@),
    {
        self.0 = Some(PageId::new(id));
    }

    /// The active id, if any.
    pub fn id(&self) -> (r: Option<&str>)
        ensures
            match self.current() {
                Some(x) => r matches Some(s) && s@ == x,
                None => r is None,
            },
    {
        match &self.0 {
            Some(p) => Some(p.as_str()),
            None => None,
        }
    }

    /// The active id if `available` contains it, else the first of
    /// `available`: a save naming a page this build no longer ships must not
    /// leave the pane blank.
    pub fn resolve<'a>(&self, available: &[&'a str]) -> (r: Option<&'a str>)
        ensures
            match resolved_choice(self.current(), str_views(available@)) {
                Some(x) => r matches Some(s) && s@ == x,
                None => r is None,
            },
    {
        resolve_choice(self.id(), available)
    }
}

impl Default for ActivePage {
    fn default() -> (r: Self)
        ensures
            r.current() is None,
    {
        ActivePage::none()
    }
}

/// Whether a page shows: exactly when it is the pane's active page.
pub fn page_shown(active: &ActivePage, page: &PageId) -> (r: bool)
    ensures
        r == (active.current() == Some(page.0@)),
{
    active.is(page.as_str())
}

/// How a page chip's background is painted.
#[derive(Clone, Copy, PartialEq, Eq, Structural, Debug)]
pub enum ChipLook {
    /// Neither selected nor under the pointer.
    Resting,
    /// Under the pointer, not selected.
    Hovered,
    /// The pane's active page, whatever the pointer does.
    Selected,
}

/// Whether a chip's page is the active page of the pane it belongs to; a
/// chip whose pane is gone is not selected.
pub open spec fn chip_selected(pane: Option<ActivePage>, page: Seq<char>) -> bool {
    pane matches Some(a) && a.current() == Some(page)
}

/// How a page chip shows: selected, else hovered, else resting; and whether
/// it carries the checked mark and the selected glyph colour, which it does
/// exactly when selected.
pub fn chip_look(pane: Option<&ActivePage>, page: &str, hovered: bool) -> (r: (ChipLook, bool))
    ensures
        r.1 == chip_selected(
            match pane {
                Some(a) => Some(*a),
                None => None,
            },
            page@,
        ),
        r.0 == if r.1 {
            ChipLook::Selected
        } else if hovered {
            ChipLook::Hovered
        } else {
            ChipLook::Resting
        },
{
    let selected = match pane {
        Some(active) => active.is(page),
        None => false,
    };
    let look = if selected {
        ChipLook::Selected
    } else if hovered {
        ChipLook::Hovered
    } else {
        ChipLook::Resting
    };
    (look, selected)
}

/// Whether `id` is the active page of some pane.
pub fn page_is_active(panes: &[ActivePage], id: &str) -> (r: bool)
    ensures
        r == exists|i: int| 0 <= i < panes@.len() && panes@[i].current() == Some(id@),
{
    let mut i: usize = 0;
    while i < panes.len()
        invariant
            i <= panes@.len(),
            forall|t: int| 0 <= t < i ==> panes@[t].current() != Some(id@),
        decreases panes@.len() - i,
    {
        if panes[i].is(id) {
            return true;
        }
        i += 1;
    }
    false
}

/// The center mode showing, if any: one mode's content at a time fills the
/// center of the window.
#[derive(Clone, Copy, Debug)]
pub struct ActiveCenterMode(pub Option<&'static str>);

impl ActiveCenterMode {
    /// Whether `id` is the showing mode.
    pub fn is(&self, id: &str) -> (r: bool)
        ensures
            r == (self.0 matches Some(a) && a@ == id@),
    {
        match self.0 {
            Some(a) => a.eq(id),
            None => false,
        }
    }
}

/// Whether the mode `id` is showing; with no center mode recorded at all,
/// none is.
pub fn center_mode_is_active(active: Option<&ActiveCenterMode>, id: &str) -> (r: bool)
    ensures
        r == (active matches Some(m) && (m.0 matches Some(a) && a@ == id@)),
{
    match active {
        Some(m) => m.is(id),
        None => false,
    }
}

/// A resolved choice is always one of the available ids, the active one
/// wherever it is still available, and there is none only when nothing is
/// available: a restored session never blanks a pane that has pages.
pub proof fn lemma_resolved_is_available(active: Option<Seq<char>>, available: Seq<Seq<char>>)
    ensures
        resolved_choice(active, available) matches Some(x) ==> available.contains(x),
        resolved_choice(active, available) is None <==> available.len() == 0,
        active is Some && available.contains(active.unwrap()) ==> resolved_choice(active, available) == active,
{
    if available.len() > 0 {
        assert(available.contains(available[0]));
    }
}

} // verus!
