//! Sections: titled cards stacked in a panel, each holding rows.
//!
//! A row's cell is the only thing content can reach, which is what keeps a
//! section from altering the panel's geometry. A section whose gate does not
//! pass gets no card at all rather than an empty one.

use vstd::prelude::*;

use super::arrange::{declared_sorted, order_by_declaration, with_key};
use crate::theme::base::Step;
use crate::theme::styled::{ControlSize, Sizing, StyledNode, control_height};

verus! {

/// Stable identity for a section.
#[derive(Debug, Hash)]
pub struct SectionId(pub String);

impl SectionId {
    /// Borrow the id as a string slice.
    pub fn as_str(&self) -> (r: &str)
        ensures
            r@ == self.0@,
    {
        self.0.as_str()
    }
}

/// Sort key for a stack; lower goes first.
#[derive(Clone, Copy, Debug, PartialEq, Eq, PartialOrd, Ord, Hash, Structural)]
pub struct SectionOrder(pub i32);

impl Default for SectionOrder {
    fn default() -> (r: Self)
        ensures
            r.0 == 0,
    {
        SectionOrder(0)
    }
}

/// How tall a row is.
#[derive(Debug, Clone, Copy, PartialEq, Eq, Structural)]
pub enum RowHeight {
    /// A declared height from the theme's control sizes: the row cannot be
    /// grown by what goes in it, so the rows below never shift.
    Control,
    /// Sized by its content: a deliberate opt-out for content that cannot
    /// state a height up front. Its cell still declares a width and clips.
    Content,
}

impl Default for RowHeight {
    fn default() -> (r: Self)
        ensures
            r == RowHeight::Control,
    {
        RowHeight::Control
    }
}

/// What a row looks like.
#[derive(Debug, Clone, Copy)]
pub struct Row {
    label: Option<&'static str>,
    height: RowHeight,
}

impl Row {
    pub closed spec fn spec_label(self) -> Option<&'static str> {
        self.label
    }

    pub closed spec fn spec_height(self) -> RowHeight {
        self.height
    }

    /// A label on the left, the caller's content in a fixed cell on the right.
    pub fn labelled(label: &'static str) -> (r: Self)
        ensures
            r.spec_label() == Some(label),
            r.spec_height() == RowHeight::Control,
    {
        Row { label: Some(label), height: RowHeight::Control }
    }

    /// No label; the cell spans the row.
    pub fn full_width() -> (r: Self)
        ensures
            r.spec_label() is None,
            r.spec_height() == RowHeight::Control,
    {
        Row { label: None, height: RowHeight::Control }
    }

    /// Let the row size to its content.
    pub fn grows(self) -> (r: Self)
        ensures
            r.spec_label() == self.spec_label(),
            r.spec_height() == RowHeight::Content,
    {
        Row { label: self.label, height: RowHeight::Content }
    }

    /// The row's label, if it has one.
    pub fn label(&self) -> (r: Option<&'static str>)
        ensures
            r == self.spec_label(),
    {
        self.label
    }

    /// How tall the row is.
    pub fn height(&self) -> (r: RowHeight)
        ensures
            r == self.spec_height(),
    {
        self.height
    }
}

/// A row's declared height in whole pixels: the section's control height
/// for a control row, none for a row that sizes to its content.
pub fn row_height(row: &Row, control: ControlSize, sizing: &Sizing) -> (r: Option<u16>)
    ensures
        r == match row.spec_height() {
            RowHeight::Control => Some(control_height(*sizing, control)),
            RowHeight::Content => None,
        },
{
    match row.height() {
        RowHeight::Control => Some(sizing.get(control)),
        RowHeight::Content => None,
    }
}

/// The spacing a section body declares: padding on both sides at
/// `body_padding`, and `row_gap` between its rows; nothing else.
pub fn body_style(body_padding: Step, row_gap: Step) -> (r: StyledNode)
    ensures
        r.padding_x == Some(body_padding),
        r.row_gap == Some(row_gap),
        r.padding_y is None && r.column_gap is None && r.radius is None && r.height is None
            && r.square is None,
{
    StyledNode::new().padding_x(body_padding).row_gap(row_gap)
}

/// The index of the first declared section named `id`, if any.
pub open spec fn first_named(sections: Seq<(String, &'static str)>, id: Seq<char>) -> Option<int>
    decreases sections.len(),
{
    if sections.len() == 0 {
        None
    } else {
        match first_named(sections.drop_last(), id) {
            Some(i) => Some(i),
            None => if sections.last().0@ == id {
                Some(sections.len() - 1)
            } else {
                None
            },
        }
    }
}

/// The title a section's card draws: the label of the first declared section
/// with that id, and none when there is no such section or its label is
/// empty, so an unlabelled card draws no title at all.
pub fn frame_title(sections: &[(String, &'static str)], id: &str) -> (r: Option<&'static str>)
    ensures
        r == match first_named(sections@, id@) {
            Some(i) => if sections@[i].1@.len() > 0 {
                Some(sections@[i].1)
            } else {
                None
            },
            None => None,
        },
{
    let mut i: usize = 0;
    while i < sections.len()
        invariant
            i <= sections@.len(),
            first_named(sections@.take(i as int), id@) is None,
        decreases sections@.len() - i,
    {
        proof {
            assert(sections@.take(i + 1).drop_last() =~= sections@.take(i as int));
            assert(sections@.take(i + 1).last() == sections@[i as int]);
        }
        if sections[i].0.as_str().eq(id) {
            proof {
                lemma_first_named_prefix(sections@, i + 1, id@);
            }
            let label = sections[i].1;
            let empty = label.eq("");
            proof {
                reveal_strlit("");
                assert(""@.len() == 0);
                if label@.len() == 0 {
                    assert(label@ =~= ""@);
                }
            }
            if empty {
                return None;
            } else {
                return Some(label);
            }
        }
        i += 1;
    }
    proof {
        assert(sections@.take(i as int) =~= sections@);
    }
    None
}

proof fn lemma_first_named_prefix(s: Seq<(String, &'static str)>, k: int, id: Seq<char>)
    requires
        0 <= k <= s.len(),
        first_named(s.take(k), id) is Some,
    ensures
        first_named(s, id) == first_named(s.take(k), id),
    decreases s.len() - k,
{
    if k < s.len() {
        assert(s.take(k + 1).drop_last() =~= s.take(k));
        lemma_first_named_prefix(s, k + 1, id);
    } else {
        assert(s.take(k) =~= s);
    }
}

/// The ids and entities of the entries whose gate passed, in order.
pub open spec fn passing_entries(s: Seq<(i32, String, (u64, bool))>) -> Seq<(Seq<char>, u64)>
    decreases s.len(),
{
    if s.len() == 0 {
        Seq::empty()
    } else {
        let rest = passing_entries(s.drop_last());
        if s.last().2.1 {
            rest.push((s.last().1@, s.last().2.0))
        } else {
            rest
        }
    }
}

/// The sections a stack should show, in order: each declared section is
/// `(order, id, (entity, gate passed))`; they are sorted by order then id,
/// with sections of equal order and id kept in the order they were declared,
/// and those whose gate did not pass are dropped.
pub fn wanted_sections(declared: Vec<(i32, String, (u64, bool))>) -> (r: Vec<(String, u64)>)
    ensures
        exists|sorted: Seq<(i32, String, (u64, bool))>|
            #![trigger declared_sorted(sorted)]
            declared_sorted(sorted) && sorted.to_multiset() == declared@.to_multiset()
                && (forall|k: (i32, Seq<char>)| #[trigger] with_key(sorted, k) == with_key(declared@, k))
                && r@.map_values(|p: (String, u64)| (p.0@, p.1)) == passing_entries(sorted),
{
    let sorted = order_by_declaration(declared);
    let ghost sv = sorted@;
    let mut out: Vec<(String, u64)> = Vec::new();
    let mut i: usize = 0;
    while i < sorted.len()
        invariant
            i <= sorted@.len(),
            sv == sorted@,
            out@.map_values(|p: (String, u64)| (p.0@, p.1)) == passing_entries(sv.take(i as int)),
        decreases sorted@.len() - i,
    {
        let ghost before = out@.map_values(|p: (String, u64)| (p.0@, p.1));
        proof {
            assert(sv.take(i + 1).drop_last() =~= sv.take(i as int));
            assert(sv.take(i + 1).last() == sv[i as int]);
        }
        if (sorted[i].2).1 {
            let id = sorted[i].1.clone();
            assert(id@ == sv[i as int].1@);
            out.push((id, (sorted[i].2).0));
            assert(out@.map_values(|p: (String, u64)| (p.0@, p.1)) =~= before.push(
                (sv[i as int].1@, sv[i as int].2.0),
            ));
        }
        i += 1;
    }
    assert(sv.take(i as int) =~= sv);
    out
}

} // verus!
