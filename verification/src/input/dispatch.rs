//! Turning key presses into command handler calls: the decisions.
//!
//! Each frame, for every chord that became pressed, the commands bound to it
//! whose condition holds compete, and the highest priority wins (the first
//! registered, on a tie). A winner whose handler returned a payload and that
//! has a release handler records a claim on the chord, and when any key of a
//! claimed chord comes up the payload goes back to the command that claimed
//! it. Its condition is not checked again: conditions describe whether an
//! action should start, and a held action's world changes while it is held.
//!
//! The host runs the handlers and reads the keyboard; everything it decides
//! with is here.

use vstd::prelude::*;

use super::chord::{Chord, chord_keys};
use super::key::{KeyCode, Platform};

verus! {

broadcast use vstd::seq_lib::group_to_multiset_ensures;

/// Whether a key list is in key order.
pub open spec fn key_sorted(s: Seq<KeyCode>) -> bool {
    forall|i: int, j: int| 0 <= i < j < s.len() ==> s[i].spec_code() <= s[j].spec_code()
}

/// The keys of a chord, sorted, so that a chord's identity does not depend on
/// the order its keys were spelled in.
#[derive(Debug)]
pub struct ChordKeys(Vec<KeyCode>);

impl View for ChordKeys {
    type V = Seq<KeyCode>;

    closed spec fn view(&self) -> Seq<KeyCode> {
        self.0@
    }
}

/// A key list sorted into key order.
fn sorted_keys(ks: &[KeyCode]) -> (r: Vec<KeyCode>)
    ensures
        key_sorted(r@),
        r@.to_multiset() == ks@.to_multiset(),
{
    let mut out: Vec<KeyCode> = Vec::new();
    let mut i: usize = 0;
    while i < ks.len()
        invariant
            i <= ks@.len(),
            key_sorted(out@),
            out@.to_multiset() == ks@.take(i as int).to_multiset(),
        decreases ks@.len() - i,
    {
        let k = ks[i];
        let code = k.code();
        let mut j: usize = 0;
        while j < out.len() && out[j].code() <= code
            invariant
                j <= out@.len(),
                key_sorted(out@),
                code == k.spec_code(),
                forall|t: int| 0 <= t < j ==> out@[t].spec_code() <= code,
            decreases out@.len() - j,
        {
            j += 1;
        }
        let ghost before = out@;
        out.insert(j, k);
        proof {
            assert forall|a: int, b: int| 0 <= a < b < out@.len() implies out@[a].spec_code()
                <= out@[b].spec_code() by {
                if b < j {
                } else if b == j {
                    assert(out@[a] == before[a]);
                } else if a == j {
                    assert(out@[b] == before[b - 1]);
                    assert(j < before.len());
                    assert(before[j as int].spec_code() > code);
                    if b - 1 > j {
                        assert(before[j as int].spec_code() <= before[b - 1].spec_code());
                    }
                } else if a < j {
                    assert(out@[b] == before[b - 1]);
                    assert(out@[a] == before[a]);
                } else {
                    assert(out@[b] == before[b - 1]);
                    assert(out@[a] == before[a - 1]);
                }
            }
            assert(out@.remove(j as int) =~= before);
            assert(out@[j as int] == k);
            assert(out@.to_multiset() =~= before.to_multiset().insert(k));
            assert(ks@.take(i + 1) =~= ks@.take(i as int).push(k));
        }
        i += 1;
    }
    assert(ks@.take(i as int) =~= ks@);
    out
}

impl ChordKeys {
    /// The keys of `chord` on `platform`, sorted.
    pub fn of(chord: &Chord, platform: Platform) -> (r: Self)
        ensures
            key_sorted(r@),
            r@.to_multiset() == chord_keys(chord@, platform).to_multiset(),
    {
        let keys = chord.keys(platform);
        ChordKeys(sorted_keys(keys.as_slice()))
    }

    /// The keys, sorted.
    pub fn keys(&self) -> (r: &[KeyCode])
        ensures
            r@ == self@,
    {
        self.0.as_slice()
    }

    /// Whether two chords have the same keys.
    pub fn same(&self, other: &ChordKeys) -> (r: bool)
        ensures
            r == (self@ == other@),
    {
        if self.0.len() != other.0.len() {
            return false;
        }
        let mut i: usize = 0;
        while i < self.0.len()
            invariant
                i <= self@.len(),
                self@.len() == other@.len(),
                forall|t: int| 0 <= t < i ==> self@[t] == other@[t],
            decreases self@.len() - i,
        {
            if self.0[i] != other.0[i] {
                return false;
            }
            i += 1;
        }
        assert(self@ =~= other@);
        true
    }

    /// Every key of the chord is held.
    pub fn all_held(&self, held: &[KeyCode]) -> (r: bool)
        ensures
            r == all_held(self@, held@),
    {
        if self.0.len() == 0 {
            return false;
        }
        let mut i: usize = 0;
        while i < self.0.len()
            invariant
                i <= self@.len(),
                forall|t: int| 0 <= t < i ==> held@.contains(#[trigger] self@[t]),
            decreases self@.len() - i,
        {
            if !contains_key(held, self.0[i]) {
                return false;
            }
            i += 1;
        }
        true
    }

    /// The chord just became fully held: every key down, and one of them went
    /// down this frame. That is what stops a held chord from firing again on
    /// every frame.
    pub fn just_completed(&self, held: &[KeyCode], just_pressed: &[KeyCode]) -> (r: bool)
        ensures
            r == just_completed(self@, held@, just_pressed@),
    {
        if !self.all_held(held) {
            return false;
        }
        let mut i: usize = 0;
        while i < self.0.len()
            invariant
                i <= self@.len(),
                all_held(self@, held@),
                forall|t: int| 0 <= t < i ==> !just_pressed@.contains(#[trigger] self@[t]),
            decreases self@.len() - i,
        {
            if contains_key(just_pressed, self.0[i]) {
                assert(just_pressed@.contains(self@[i as int]));
                return true;
            }
            i += 1;
        }
        false
    }
}

impl Clone for ChordKeys {
    fn clone(&self) -> (r: Self)
        ensures
            r@ == self@,
    {
        ChordKeys(super::key::key_vec(self.0.as_slice()))
    }
}

/// Whether a chord's keys are all held: a chord with no keys never is.
pub open spec fn all_held(chord: Seq<KeyCode>, held: Seq<KeyCode>) -> bool {
    chord.len() > 0 && forall|t: int| 0 <= t < chord.len() ==> held.contains(#[trigger] chord[t])
}

/// Whether a chord just became fully held.
pub open spec fn just_completed(
    chord: Seq<KeyCode>,
    held: Seq<KeyCode>,
    just_pressed: Seq<KeyCode>,
) -> bool {
    all_held(chord, held) && exists|t: int| 0 <= t < chord.len() && just_pressed.contains(#[trigger] chord[t])
}

/// Whether a key list holds `k`.
fn contains_key(ks: &[KeyCode], k: KeyCode) -> (r: bool)
    ensures
        r == ks@.contains(k),
{
    let mut i: usize = 0;
    while i < ks.len()
        invariant
            i <= ks@.len(),
            forall|t: int| 0 <= t < i ==> ks@[t] != k,
        decreases ks@.len() - i,
    {
        if ks[i] == k {
            assert(ks@[i as int] == k);
            return true;
        }
        i += 1;
    }
    false
}

/// A claim's mathematical form: the chord, the claiming entity, the payload.
pub open spec fn claim_view<P>(c: (ChordKeys, u64, P)) -> (Seq<KeyCode>, u64, P) {
    (c.0@, c.1, c.2)
}

/// The claims other than those on `chord`, in order.
pub open spec fn without_chord<P>(s: Seq<(Seq<KeyCode>, u64, P)>, chord: Seq<KeyCode>) -> Seq<
    (Seq<KeyCode>, u64, P),
>
    decreases s.len(),
{
    if s.len() == 0 {
        s
    } else {
        let rest = without_chord(s.drop_last(), chord);
        if s.last().0 == chord {
            rest
        } else {
            rest.push(s.last())
        }
    }
}

proof fn lemma_without_chord_remove<P>(s: Seq<(Seq<KeyCode>, u64, P)>, chord: Seq<KeyCode>, i: int)
    requires
        0 <= i < s.len(),
        s[i].0 == chord,
    ensures
        without_chord(s.remove(i), chord) == without_chord(s, chord),
    decreases s.len(),
{
    if i == s.len() - 1 {
        assert(s.remove(i) =~= s.drop_last());
    } else {
        assert(s.remove(i).drop_last() =~= s.drop_last().remove(i));
        assert(s.remove(i).last() == s.last());
        lemma_without_chord_remove(s.drop_last(), chord, i);
    }
}

proof fn lemma_without_chord_absent<P>(s: Seq<(Seq<KeyCode>, u64, P)>, chord: Seq<KeyCode>)
    requires
        forall|t: int| 0 <= t < s.len() ==> (#[trigger] s[t]).0 != chord,
    ensures
        without_chord(s, chord) == s,
    decreases s.len(),
{
    if s.len() > 0 {
        lemma_without_chord_absent(s.drop_last(), chord);
        assert(s.drop_last().push(s.last()) =~= s);
        assert(s[s.len() - 1].0 != chord);
    }
}

/// No two claims share a chord.
pub open spec fn claims_unique<P>(s: Seq<(Seq<KeyCode>, u64, P)>) -> bool {
    forall|a: int, b: int| 0 <= a < b < s.len() ==> (#[trigger] s[a]).0 != (#[trigger] s[b]).0
}

/// Presses waiting for their release, one per chord: the chord, the command
/// that claimed it, and the payload its press handler returned.
#[derive(Debug)]
pub struct HeldClaims<P> {
    claims: Vec<(ChordKeys, u64, P)>,
}

impl<P> View for HeldClaims<P> {
    type V = Seq<(Seq<KeyCode>, u64, P)>;

    closed spec fn view(&self) -> Seq<(Seq<KeyCode>, u64, P)> {
        self.claims@.map_values(|c: (ChordKeys, u64, P)| claim_view(c))
    }
}

impl<P> HeldClaims<P> {
    /// No claims.
    pub fn new() -> (r: Self)
        ensures
            r@ == Seq::<(Seq<KeyCode>, u64, P)>::empty(),
    {
        let r = HeldClaims { claims: Vec::new() };
        assert(r@ =~= Seq::<(Seq<KeyCode>, u64, P)>::empty());
        r
    }

    /// Record a claim, replacing any earlier one on the same chord.
    pub fn insert(&mut self, chord: ChordKeys, entity: u64, payload: P)
        ensures
            final(self)@ == without_chord(old(self)@, chord@).push((chord@, entity, payload)),
    {
        let ghost start = self@;
        let mut i: usize = 0;
        while i < self.claims.len()
            invariant
                i <= self@.len(),
                self@.len() == self.claims@.len(),
                without_chord(self@, chord@) == without_chord(start, chord@),
                forall|t: int| 0 <= t < i ==> (#[trigger] self@[t]).0 != chord@,
            decreases self@.len() - i,
        {
            if self.claims[i].0.same(&chord) {
                let ghost before = self@;
                self.claims.remove(i);
                proof {
                    assert(self@ =~= before.remove(i as int));
                    lemma_without_chord_remove(before, chord@, i as int);
                }
            } else {
                i += 1;
            }
        }
        proof {
            lemma_without_chord_absent(self@, chord@);
        }
        let ghost mid = self@;
        let ghost cv = chord@;
        self.claims.push((chord, entity, payload));
        assert(self@ =~= mid.push((cv, entity, payload)));
    }

    /// Take the claim on `chord`, if there is one: the first, where a list
    /// built by [`insert`](Self::insert) holds at most one.
    pub fn take(&mut self, chord: &ChordKeys) -> (r: Option<(u64, P)>)
        ensures
            r is None ==> final(self)@ == old(self)@ && forall|t: int|
                0 <= t < old(self)@.len() ==> (#[trigger] old(self)@[t]).0 != chord@,
            r matches Some((e, p)) ==> exists|i: int|
                0 <= i < old(self)@.len() && old(self)@[i] == (chord@, e, p) && final(self)@ == old(
                    self,
                )@.remove(i) && forall|t: int| 0 <= t < i ==> (#[trigger] old(self)@[t]).0 != chord@,
    {
        let mut i: usize = 0;
        while i < self.claims.len()
            invariant
                i <= self@.len(),
                self@.len() == self.claims@.len(),
                self@ == old(self)@,
                forall|t: int| 0 <= t < i ==> (#[trigger] self@[t]).0 != chord@,
            decreases self@.len() - i,
        {
            if self.claims[i].0.same(chord) {
                let ghost before = self@;
                let (_, entity, payload) = self.claims.remove(i);
                assert(self@ =~= before.remove(i as int));
                assert(before[i as int] == (chord@, entity, payload));
                return Some((entity, payload));
            }
            i += 1;
        }
        None
    }

    /// Take every claim, in the order they were made.
    pub fn take_all(&mut self) -> (r: Vec<(ChordKeys, u64, P)>)
        ensures
            r@.map_values(|c: (ChordKeys, u64, P)| claim_view(c)) == old(self)@,
            final(self)@ == Seq::<(Seq<KeyCode>, u64, P)>::empty(),
    {
        let mut out: Vec<(ChordKeys, u64, P)> = Vec::new();
        std::mem::swap(&mut out, &mut self.claims);
        assert(self@ =~= Seq::<(Seq<KeyCode>, u64, P)>::empty());
        out
    }

    /// How many claims are outstanding.
    pub fn len(&self) -> (r: usize)
        ensures
            r == self@.len(),
    {
        self.claims.len()
    }

    /// Whether no claim is outstanding.
    pub fn is_empty(&self) -> (r: bool)
        ensures
            r == (self@.len() == 0),
    {
        self.claims.len() == 0
    }

    /// Settle the claims whose chords are no longer fully held: each is taken
    /// out and handed back once, as its claiming entity and payload, in claim
    /// order. Claims whose keys are all still down stay as they were.
    ///
    /// The host calls each returned entity's release handler with its
    /// payload, whatever that command's condition says now: a press that was
    /// accepted is always paired with its release.
    pub fn settle(&mut self, held: &[KeyCode]) -> (r: Vec<(u64, P)>)
        ensures
            final(self)@ == kept_claims(old(self)@, held@),
            r@ == settled_claims(old(self)@, held@),
    {
        let ghost s = self@;
        let mut rest: Vec<(ChordKeys, u64, P)> = Vec::new();
        std::mem::swap(&mut rest, &mut self.claims);
        let mut out: Vec<(u64, P)> = Vec::new();
        let ghost mut k: int = 0;
        proof {
            assert(rest@.map_values(|c: (ChordKeys, u64, P)| claim_view(c)) =~= s.skip(0));
            assert(self@ =~= Seq::<(Seq<KeyCode>, u64, P)>::empty());
            assert(s.take(0) =~= Seq::<(Seq<KeyCode>, u64, P)>::empty());
        }
        while rest.len() > 0
            invariant
                0 <= k <= s.len(),
                rest@.map_values(|c: (ChordKeys, u64, P)| claim_view(c)) == s.skip(k),
                self@ == kept_claims(s.take(k), held@),
                out@ == settled_claims(s.take(k), held@),
            decreases rest@.len(),
        {
            let ghost before_rest = rest@;
            let ghost before_self = self@;
            let ghost before_out = out@;
            let c = rest.remove(0);
            proof {
                let fv = before_rest.map_values(|c: (ChordKeys, u64, P)| claim_view(c));
                assert(fv == s.skip(k));
                assert(fv.len() == before_rest.len());
                assert(s.skip(k).len() == s.len() - k);
                assert(k < s.len());
                assert(c == before_rest[0]);
                assert(fv[0] == claim_view(before_rest[0]));
                assert(s.skip(k)[0] == s[k]);
                assert(claim_view(c) == s[k]);
                assert(rest@ =~= before_rest.subrange(1, before_rest.len() as int));
                assert forall|t: int| 0 <= t < rest@.len() implies #[trigger] claim_view(rest@[t]) == s.skip(k + 1)[t] by {
                    assert(rest@[t] == before_rest[t + 1]);
                    assert(fv[t + 1] == claim_view(before_rest[t + 1]));
                    assert(s.skip(k)[t + 1] == s[k + 1 + t]);
                }
                assert(rest@.map_values(|c: (ChordKeys, u64, P)| claim_view(c)) =~= s.skip(k + 1));
                assert(s.take(k + 1).drop_last() =~= s.take(k));
                assert(s.take(k + 1).last() == s[k]);
            }
            if c.0.all_held(held) {
                self.claims.push(c);
                proof {
                    assert(self@ =~= before_self.push(s[k]));
                }
            } else {
                let (_, entity, payload) = c;
                out.push((entity, payload));
            }
            proof {
                k = k + 1;
            }
        }
        proof {
            assert(s.skip(k).len() == 0);
            assert(s.take(k) =~= s);
        }
        out
    }

    /// Record what a winning press leaves behind. A payload with a release
    /// handler to go to becomes the claim on the chord, replacing any earlier
    /// one; a declined press (no payload) records nothing, so no release will
    /// follow; a payload with no release handler is dropped, and reported so
    /// the host can warn of the registration mistake.
    pub fn record_press(&mut self, chord: ChordKeys, entity: u64, payload: Option<P>, has_release: bool) -> (r: PressOutcome)
        ensures
            r == press_outcome(payload is Some, has_release),
            r == PressOutcome::Claimed ==> final(self)@ == without_chord(old(self)@, chord@).push(
                (chord@, entity, payload.unwrap()),
            ),
            r != PressOutcome::Claimed ==> final(self)@ == old(self)@,
    {
        match payload {
            Some(p) => {
                if has_release {
                    self.insert(chord, entity, p);
                    PressOutcome::Claimed
                } else {
                    PressOutcome::Dropped
                }
            },
            None => PressOutcome::Declined,
        }
    }

    /// The chords of the claims that are no longer fully held, in claim
    /// order: releasing any key of a chord settles its claim.
    pub fn released(&self, held: &[KeyCode]) -> (r: Vec<ChordKeys>)
        ensures
            r@.map_values(|c: ChordKeys| c@) == released_chords(self@, held@),
    {
        let ghost s = self@;
        let mut out: Vec<ChordKeys> = Vec::new();
        let mut i: usize = 0;
        while i < self.claims.len()
            invariant
                i <= self@.len(),
                self@.len() == self.claims@.len(),
                s == self@,
                out@.map_values(|c: ChordKeys| c@) == released_chords(s.take(i as int), held@),
            decreases self@.len() - i,
        {
            let ghost before = out@.map_values(|c: ChordKeys| c@);
            proof {
                assert(s.take(i + 1).drop_last() =~= s.take(i as int));
                assert(s.take(i + 1).last() == s[i as int]);
            }
            if !self.claims[i].0.all_held(held) {
                let c = self.claims[i].0.clone();
                out.push(c);
                assert(out@.map_values(|c: ChordKeys| c@) =~= before.push(s[i as int].0));
            }
            i += 1;
        }
        assert(s.take(i as int) =~= s);
        out
    }
}

impl<P> Default for HeldClaims<P> {
    fn default() -> (r: Self)
        ensures
            r@ == Seq::<(Seq<KeyCode>, u64, P)>::empty(),
    {
        HeldClaims::new()
    }
}

/// The claims whose chords are all still held, in claim order.
pub open spec fn kept_claims<P>(s: Seq<(Seq<KeyCode>, u64, P)>, held: Seq<KeyCode>) -> Seq<
    (Seq<KeyCode>, u64, P),
>
    decreases s.len(),
{
    if s.len() == 0 {
        s
    } else {
        let rest = kept_claims(s.drop_last(), held);
        if all_held(s.last().0, held) {
            rest.push(s.last())
        } else {
            rest
        }
    }
}

/// The entity and payload of each claim whose chord is no longer fully held,
/// in claim order.
pub open spec fn settled_claims<P>(s: Seq<(Seq<KeyCode>, u64, P)>, held: Seq<KeyCode>) -> Seq<(u64, P)>
    decreases s.len(),
{
    if s.len() == 0 {
        Seq::empty()
    } else {
        let rest = settled_claims(s.drop_last(), held);
        if all_held(s.last().0, held) {
            rest
        } else {
            rest.push((s.last().1, s.last().2))
        }
    }
}

/// What became of a winning press.
#[derive(Clone, Copy, PartialEq, Eq, Structural, Debug)]
pub enum PressOutcome {
    /// The payload is held until the chord is released.
    Claimed,
    /// The handler declined: no claim, so no release will follow.
    Declined,
    /// A payload came back but the command has no release handler.
    Dropped,
}

/// What becomes of a press, given whether its handler returned a payload and
/// whether the command has a release handler.
pub open spec fn press_outcome(payload_returned: bool, has_release: bool) -> PressOutcome {
    if !payload_returned {
        PressOutcome::Declined
    } else if has_release {
        PressOutcome::Claimed
    } else {
        PressOutcome::Dropped
    }
}

/// The chords of the claims no longer fully held, in claim order.
pub open spec fn released_chords<P>(s: Seq<(Seq<KeyCode>, u64, P)>, held: Seq<KeyCode>) -> Seq<
    Seq<KeyCode>,
>
    decreases s.len(),
{
    if s.len() == 0 {
        Seq::empty()
    } else {
        let rest = released_chords(s.drop_last(), held);
        if all_held(s.last().0, held) {
            rest
        } else {
            rest.push(s.last().0)
        }
    }
}

/// Recording a claim keeps at most one claim per chord.
pub proof fn lemma_insert_keeps_claims_unique<P>(
    s: Seq<(Seq<KeyCode>, u64, P)>,
    chord: Seq<KeyCode>,
    entity: u64,
    payload: P,
)
    requires
        claims_unique(s),
    ensures
        claims_unique(without_chord(s, chord).push((chord, entity, payload))),
    decreases s.len(),
{
    lemma_without_chord_subset(s, chord);
    let w = without_chord(s, chord);
    let t = w.push((chord, entity, payload));
    lemma_without_chord_unique(s, chord);
    assert forall|a: int, b: int| 0 <= a < b < t.len() implies (#[trigger] t[a]).0 != (
    #[trigger] t[b]).0 by {
        if b == w.len() {
            assert(t[a] == w[a]);
        } else {
            assert(t[a] == w[a]);
            assert(t[b] == w[b]);
        }
    }
}

proof fn lemma_without_chord_subset<P>(s: Seq<(Seq<KeyCode>, u64, P)>, chord: Seq<KeyCode>)
    ensures
        forall|t: int|
            0 <= t < without_chord(s, chord).len() ==> (#[trigger] without_chord(s, chord)[t]).0
                != chord && s.contains(without_chord(s, chord)[t]),
    decreases s.len(),
{
    if s.len() > 0 {
        lemma_without_chord_subset(s.drop_last(), chord);
        let rest = without_chord(s.drop_last(), chord);
        assert forall|t: int| 0 <= t < without_chord(s, chord).len() implies (
        #[trigger] without_chord(s, chord)[t]).0 != chord && s.contains(
            without_chord(s, chord)[t],
        ) by {
            if t < rest.len() {
                assert(without_chord(s, chord)[t] == rest[t]);
                assert(s.drop_last().contains(rest[t]));
                let j = choose|j: int| 0 <= j < s.drop_last().len() && s.drop_last()[j] == rest[t];
                assert(s[j] == rest[t]);
            } else {
                assert(s[s.len() - 1] == s.last());
            }
        }
    }
}

proof fn lemma_without_chord_unique<P>(s: Seq<(Seq<KeyCode>, u64, P)>, chord: Seq<KeyCode>)
    requires
        claims_unique(s),
    ensures
        claims_unique(without_chord(s, chord)),
    decreases s.len(),
{
    if s.len() > 0 {
        let init = s.drop_last();
        assert(claims_unique(init)) by {
            assert forall|a: int, b: int| 0 <= a < b < init.len() implies (#[trigger] init[a]).0
                != (#[trigger] init[b]).0 by {
                assert(init[a] == s[a] && init[b] == s[b]);
            }
        }
        lemma_without_chord_unique(init, chord);
        lemma_without_chord_subset(init, chord);
        let rest = without_chord(init, chord);
        if s.last().0 != chord {
            let t = rest.push(s.last());
            assert forall|a: int, b: int| 0 <= a < b < t.len() implies (#[trigger] t[a]).0 != (
            #[trigger] t[b]).0 by {
                assert(t[a] == rest[a]);
                if b == rest.len() {
                    assert(init.contains(rest[a]));
                    let j = choose|j: int| 0 <= j < init.len() && init[j] == rest[a];
                    assert(s[j] == init[j]);
                    assert(s[s.len() - 1] == s.last());
                } else {
                    assert(t[b] == rest[b]);
                }
            }
        }
    }
}

/// A command that might fire, gathered before any handler runs.
#[derive(Debug)]
pub struct Candidate {
    pub entity: u64,
    pub chord: ChordKeys,
    pub priority: i32,
    pub has_release: bool,
}

/// A candidate's mathematical form.
pub struct CandidateView {
    pub entity: u64,
    pub chord: Seq<KeyCode>,
    pub priority: i32,
    pub has_release: bool,
}

impl View for Candidate {
    type V = CandidateView;

    open spec fn view(&self) -> CandidateView {
        CandidateView {
            entity: self.entity,
            chord: self.chord@,
            priority: self.priority,
            has_release: self.has_release,
        }
    }
}

impl Clone for Candidate {
    fn clone(&self) -> (r: Self)
        ensures
            r@ == self@,
    {
        Candidate {
            entity: self.entity,
            chord: self.chord.clone(),
            priority: self.priority,
            has_release: self.has_release,
        }
    }
}

/// The candidates' mathematical forms.
pub open spec fn candidate_views(s: Seq<Candidate>) -> Seq<CandidateView> {
    s.map_values(|c: Candidate| c@)
}

/// The bound commands whose chord just became fully held, in order.
pub open spec fn completed(
    bound: Seq<CandidateView>,
    held: Seq<KeyCode>,
    just_pressed: Seq<KeyCode>,
) -> Seq<CandidateView>
    decreases bound.len(),
{
    if bound.len() == 0 {
        Seq::empty()
    } else {
        let rest = completed(bound.drop_last(), held, just_pressed);
        if just_completed(bound.last().chord, held, just_pressed) {
            rest.push(bound.last())
        } else {
            rest
        }
    }
}

/// The commands that compete this frame: those whose chord just became
/// fully held.
pub fn collect_candidates(bound: &[Candidate], held: &[KeyCode], just_pressed: &[KeyCode]) -> (r:
    Vec<Candidate>)
    ensures
        candidate_views(r@) == completed(candidate_views(bound@), held@, just_pressed@),
{
    let ghost b = candidate_views(bound@);
    let mut out: Vec<Candidate> = Vec::new();
    let mut i: usize = 0;
    while i < bound.len()
        invariant
            i <= bound@.len(),
            b == candidate_views(bound@),
            candidate_views(out@) == completed(b.take(i as int), held@, just_pressed@),
        decreases bound@.len() - i,
    {
        let ghost before = candidate_views(out@);
        proof {
            assert(b.take(i + 1).drop_last() =~= b.take(i as int));
            assert(b.take(i + 1).last() == bound@[i as int]@);
        }
        if bound[i].chord.just_completed(held, just_pressed) {
            let c = bound[i].clone();
            out.push(c);
            assert(candidate_views(out@) =~= before.push(bound@[i as int]@));
        }
        i += 1;
    }
    assert(b.take(i as int) =~= b);
    out
}

/// The index of the winner so far on `chord`, if there is one.
pub open spec fn winner_on(w: Seq<CandidateView>, chord: Seq<KeyCode>) -> Option<int>
    decreases w.len(),
{
    if w.len() == 0 {
        None
    } else if w.last().chord == chord {
        Some(w.len() - 1)
    } else {
        winner_on(w.drop_last(), chord)
    }
}

/// Per chord, the highest-priority candidate whose condition passed; on a
/// tie, the earlier one. Winners come in the order their chord first passed.
pub open spec fn winners(cs: Seq<CandidateView>, passing: Seq<bool>) -> Seq<CandidateView>
    decreases cs.len(),
{
    if cs.len() == 0 || passing.len() != cs.len() {
        Seq::empty()
    } else {
        let w = winners(cs.drop_last(), passing.drop_last());
        let c = cs.last();
        if !passing.last() {
            w
        } else {
            match winner_on(w, c.chord) {
                Some(j) => if w[j].priority < c.priority {
                    w.update(j, c)
                } else {
                    w
                },
                None => w.push(c),
            }
        }
    }
}

proof fn lemma_winner_on(w: Seq<CandidateView>, chord: Seq<KeyCode>)
    ensures
        winner_on(w, chord) matches Some(j) ==> 0 <= j < w.len() && w[j].chord == chord,
        winner_on(w, chord) is None ==> forall|t: int| 0 <= t < w.len() ==> (#[trigger] w[t]).chord
            != chord,
    decreases w.len(),
{
    if w.len() > 0 {
        lemma_winner_on(w.drop_last(), chord);
        if w.last().chord != chord {
            assert forall|t: int| 0 <= t < w.len() - 1 implies w[t] == w.drop_last()[t] by {}
        }
    }
}

/// Keep, per chord, the highest-priority candidate whose condition holds.
/// `passing[i]` is whether candidate `i`'s condition held.
pub fn pick_winners(candidates: &[Candidate], passing: &[bool]) -> (r: Vec<Candidate>)
    requires
        passing@.len() == candidates@.len(),
    ensures
        candidate_views(r@) == winners(candidate_views(candidates@), passing@),
{
    let ghost cs = candidate_views(candidates@);
    let mut out: Vec<Candidate> = Vec::new();
    let mut i: usize = 0;
    while i < candidates.len()
        invariant
            i <= candidates@.len(),
            passing@.len() == candidates@.len(),
            cs == candidate_views(candidates@),
            candidate_views(out@) == winners(cs.take(i as int), passing@.take(i as int)),
        decreases candidates@.len() - i,
    {
        let ghost w = candidate_views(out@);
        proof {
            assert(cs.take(i + 1).drop_last() =~= cs.take(i as int));
            assert(passing@.take(i + 1).drop_last() =~= passing@.take(i as int));
            assert(cs.take(i + 1).last() == candidates@[i as int]@);
            assert(passing@.take(i + 1).last() == passing@[i as int]);
        }
        if passing[i] {
            let c = &candidates[i];
            let mut j: usize = out.len();
            assert(w.take(j as int) =~= w);
            while j > 0 && !out[j - 1].chord.same(&c.chord)
                invariant
                    j <= out@.len(),
                    w == candidate_views(out@),
                    winner_on(w, c@.chord) == winner_on(w.take(j as int), c@.chord),
                decreases j,
            {
                proof {
                    assert(w.take(j as int).drop_last() =~= w.take(j - 1));
                    assert(w.take(j as int).last() == w[j - 1]);
                }
                j -= 1;
            }
            if j > 0 {
                proof {
                    assert(w.take(j as int).last() == w[j - 1]);
                    assert(winner_on(w, c@.chord) == Some(j - 1));
                }
                if out[j - 1].priority < c.priority {
                    let cc = c.clone();
                    out.set(j - 1, cc);
                    assert(candidate_views(out@) =~= w.update(j - 1, c@));
                }
            } else {
                proof {
                    assert(w.take(0) =~= Seq::<CandidateView>::empty());
                }
                let cc = c.clone();
                out.push(cc);
                assert(candidate_views(out@) =~= w.push(c@));
            }
        }
        i += 1;
    }
    assert(cs.take(i as int) =~= cs);
    assert(passing@.take(i as int) =~= passing@);
    out
}

/// Every winner is a candidate whose condition passed.
pub open spec fn winners_passed(cs: Seq<CandidateView>, passing: Seq<bool>, w: Seq<CandidateView>) -> bool {
    forall|t: int|
        0 <= t < w.len() ==> exists|i: int| 0 <= i < cs.len() && passing[i] && cs[i] == #[trigger] w[t]
}

/// No two winners share a chord.
pub open spec fn winners_distinct(w: Seq<CandidateView>) -> bool {
    forall|a: int, b: int| 0 <= a < b < w.len() ==> (#[trigger] w[a]).chord != (#[trigger] w[b]).chord
}

/// Every passing candidate is matched by a winner on its chord with at least
/// its priority.
pub open spec fn winners_dominate(cs: Seq<CandidateView>, passing: Seq<bool>, w: Seq<CandidateView>) -> bool {
    forall|i: int|
        0 <= i < cs.len() && #[trigger] passing[i] ==> exists|t: int|
            0 <= t < w.len() && (#[trigger] w[t]).chord == cs[i].chord && w[t].priority
                >= cs[i].priority
}

proof fn lemma_winners_passed(cs: Seq<CandidateView>, passing: Seq<bool>)
    requires
        passing.len() == cs.len(),
    ensures
        winners_passed(cs, passing, winners(cs, passing)),
    decreases cs.len(),
{
    if cs.len() > 0 {
        let pc = cs.drop_last();
        let pp = passing.drop_last();
        lemma_winners_passed(pc, pp);
        let w = winners(pc, pp);
        let c = cs.last();
        let n = cs.len() - 1;
        let r = winners(cs, passing);
        lemma_winner_on(w, c.chord);
        assert forall|t: int| 0 <= t < r.len() implies exists|i: int|
            0 <= i < cs.len() && passing[i] && cs[i] == #[trigger] r[t] by {
            if passing.last() && r[t] == c {
                assert(cs[n] == c && passing[n]);
            } else {
                assert(r[t] == w[t]);
                let i = choose|i: int| 0 <= i < pc.len() && pp[i] && pc[i] == w[t];
                assert(cs[i] == pc[i] && passing[i] == pp[i]);
            }
        }
    }
}

proof fn lemma_winners_distinct(cs: Seq<CandidateView>, passing: Seq<bool>)
    requires
        passing.len() == cs.len(),
    ensures
        winners_distinct(winners(cs, passing)),
    decreases cs.len(),
{
    if cs.len() > 0 {
        let pc = cs.drop_last();
        let pp = passing.drop_last();
        lemma_winners_distinct(pc, pp);
        let w = winners(pc, pp);
        let c = cs.last();
        let r = winners(cs, passing);
        lemma_winner_on(w, c.chord);
        assert forall|a: int, b: int| 0 <= a < b < r.len() implies (#[trigger] r[a]).chord != (
        #[trigger] r[b]).chord by {
            if passing.last() {
                match winner_on(w, c.chord) {
                    Some(j) => {
                        assert(r[a].chord == w[a].chord);
                        assert(r[b].chord == w[b].chord);
                    },
                    None => {
                        if b == w.len() {
                            assert(r[a] == w[a]);
                        } else {
                            assert(r[a] == w[a] && r[b] == w[b]);
                        }
                    },
                }
            } else {
                assert(r[a] == w[a] && r[b] == w[b]);
            }
        }
    }
}

proof fn lemma_winners_dominate(cs: Seq<CandidateView>, passing: Seq<bool>)
    requires
        passing.len() == cs.len(),
    ensures
        winners_dominate(cs, passing, winners(cs, passing)),
    decreases cs.len(),
{
    if cs.len() > 0 {
        let pc = cs.drop_last();
        let pp = passing.drop_last();
        lemma_winners_dominate(pc, pp);
        let w = winners(pc, pp);
        let c = cs.last();
        let n = cs.len() - 1;
        let r = winners(cs, passing);
        lemma_winner_on(w, c.chord);
        assert forall|i: int| 0 <= i < cs.len() && #[trigger] passing[i] implies exists|t: int|
            0 <= t < r.len() && (#[trigger] r[t]).chord == cs[i].chord && r[t].priority
                >= cs[i].priority by {
            if i < n {
                assert(pp[i] == passing[i] && pc[i] == cs[i]);
                let t = choose|t: int|
                    0 <= t < w.len() && (#[trigger] w[t]).chord == pc[i].chord && w[t].priority
                        >= pc[i].priority;
                if passing.last() {
                    match winner_on(w, c.chord) {
                        Some(j) => {
                            if w[j].priority < c.priority && t == j {
                                assert(r[j] == c);
                            } else {
                                assert(r[t] == w[t]);
                            }
                        },
                        None => {
                            assert(r[t] == w[t]);
                        },
                    }
                } else {
                    assert(r[t] == w[t]);
                }
            } else {
                assert(cs[i] == c);
                match winner_on(w, c.chord) {
                    Some(j) => {
                        assert(r[j].chord == c.chord);
                    },
                    None => {
                        assert(r[w.len() as int] == c);
                    },
                }
            }
        }
    }
}

/// Candidate `i` is the one its chord goes to: it passed, and among the
/// passing candidates on its chord, every earlier one has strictly lower
/// priority and no later one has higher.
pub open spec fn first_with_top_priority(cs: Seq<CandidateView>, passing: Seq<bool>, i: int) -> bool {
    &&& 0 <= i < cs.len()
    &&& passing[i]
    &&& forall|k: int|
        0 <= k < cs.len() && passing[k] && (#[trigger] cs[k]).chord == cs[i].chord ==> (k < i
            ==> cs[k].priority < cs[i].priority) && (k > i ==> cs[k].priority <= cs[i].priority)
}

/// Every winner is the earliest of the top-priority passing candidates on
/// its chord.
pub open spec fn winners_earliest(cs: Seq<CandidateView>, passing: Seq<bool>, w: Seq<CandidateView>) -> bool {
    forall|t: int|
        0 <= t < w.len() ==> exists|i: int| first_with_top_priority(cs, passing, i) && cs[i] == #[trigger] w[t]
}

proof fn lemma_winners_earliest(cs: Seq<CandidateView>, passing: Seq<bool>)
    requires
        passing.len() == cs.len(),
    ensures
        winners_earliest(cs, passing, winners(cs, passing)),
    decreases cs.len(),
{
    if cs.len() > 0 {
        let pc = cs.drop_last();
        let pp = passing.drop_last();
        lemma_winners_earliest(pc, pp);
        lemma_winners_distinct(pc, pp);
        lemma_winners_dominate(pc, pp);
        let w = winners(pc, pp);
        let c = cs.last();
        let n = cs.len() - 1;
        let r = winners(cs, passing);
        lemma_winner_on(w, c.chord);
        assert(cs[n] == c);
        assert forall|k: int| 0 <= k < n implies #[trigger] cs[k] == pc[k] && passing[k] == pp[k] by {}
        // An index that was the earliest top candidate among the first `n`
        // stays so when the last candidate is on another chord or loses.
        assert forall|i: int|
            first_with_top_priority(pc, pp, i) && (!passing[n] || cs[i].chord != c.chord || c.priority
                <= cs[i].priority) implies first_with_top_priority(cs, passing, i) by {
            assert(cs[i] == pc[i]);
            assert forall|k: int|
                0 <= k < cs.len() && passing[k] && (#[trigger] cs[k]).chord == cs[i].chord implies (k < i
                    ==> cs[k].priority < cs[i].priority) && (k > i ==> cs[k].priority <= cs[i].priority) by {
                if k < n {
                    assert(pc[k] == cs[k]);
                    assert(pp[k] == passing[k]);
                }
            }
        }
        assert forall|t: int| 0 <= t < r.len() implies exists|i: int|
            first_with_top_priority(cs, passing, i) && cs[i] == #[trigger] r[t] by {
            if !passing.last() {
                assert(r[t] == w[t]);
                let i = choose|i: int| first_with_top_priority(pc, pp, i) && pc[i] == #[trigger] w[t];
                assert(first_with_top_priority(cs, passing, i));
            } else {
                match winner_on(w, c.chord) {
                    Some(j) => {
                        if w[j].priority < c.priority && t == j {
                            assert(r[t] == c);
                            let ij = choose|ij: int| first_with_top_priority(pc, pp, ij) && pc[ij] == #[trigger] w[j];
                            assert forall|k: int|
                                0 <= k < cs.len() && passing[k] && (#[trigger] cs[k]).chord == cs[n].chord implies (k
                                    < n ==> cs[k].priority < cs[n].priority) && (k > n ==> cs[k].priority
                                    <= cs[n].priority) by {
                                if k < n {
                                    assert(pc[k] == cs[k] && pp[k] == passing[k]);
                                    assert(pc[k].chord == pc[ij].chord);
                                    if k != ij {
                                        assert(pc[k].priority <= pc[ij].priority);
                                    }
                                }
                            }
                            assert(first_with_top_priority(cs, passing, n));
                        } else {
                            assert(r[t] == w[t]);
                            let i = choose|i: int| first_with_top_priority(pc, pp, i) && pc[i] == #[trigger] w[t];
                            if t != j {
                                assert(w[t].chord != w[j].chord);
                            }
                            assert(first_with_top_priority(cs, passing, i));
                        }
                    },
                    None => {
                        if t < w.len() {
                            assert(r[t] == w[t]);
                            let i = choose|i: int| first_with_top_priority(pc, pp, i) && pc[i] == #[trigger] w[t];
                            assert(w[t].chord != c.chord);
                            assert(first_with_top_priority(cs, passing, i));
                        } else {
                            assert(r[t] == c);
                            assert forall|k: int|
                                0 <= k < cs.len() && passing[k] && (#[trigger] cs[k]).chord == cs[n].chord implies (k
                                    < n ==> cs[k].priority < cs[n].priority) && (k > n ==> cs[k].priority
                                    <= cs[n].priority) by {
                                if k < n {
                                    assert(pc[k] == cs[k] && pp[k] == passing[k]);
                                    assert(pp[k]);
                                    let tt = choose|tt: int|
                                        0 <= tt < w.len() && (#[trigger] w[tt]).chord == pc[k].chord
                                            && w[tt].priority >= pc[k].priority;
                                    assert(w[tt].chord != c.chord);
                                }
                            }
                            assert(first_with_top_priority(cs, passing, n));
                        }
                    },
                }
            }
        }
    }
}

/// Per chord, the highest-priority passing candidate wins, the earliest of
/// them on a tie; a candidate whose condition failed never does, and one
/// chord fires one command.
pub proof fn lemma_winners_ok(cs: Seq<CandidateView>, passing: Seq<bool>)
    requires
        passing.len() == cs.len(),
    ensures
        winners_passed(cs, passing, winners(cs, passing)),
        winners_distinct(winners(cs, passing)),
        winners_dominate(cs, passing, winners(cs, passing)),
        winners_earliest(cs, passing, winners(cs, passing)),
{
    lemma_winners_passed(cs, passing);
    lemma_winners_distinct(cs, passing);
    lemma_winners_dominate(cs, passing);
    lemma_winners_earliest(cs, passing);
}

/// True when a window exists and none of them has focus.
///
/// The "a window exists" half matters: a headless app, with no window at
/// all, would otherwise look permanently unfocused and drain every held claim
/// the frame after it was made.
pub fn window_lost_focus(focused: &[bool]) -> (r: bool)
    ensures
        r == (focused@.len() > 0 && forall|t: int| 0 <= t < focused@.len() ==> !focused@[t]),
{
    if focused.len() == 0 {
        return false;
    }
    let mut i: usize = 0;
    while i < focused.len()
        invariant
            i <= focused@.len(),
            forall|t: int| 0 <= t < i ==> !focused@[t],
        decreases focused@.len() - i,
    {
        if focused[i] {
            return false;
        }
        i += 1;
    }
    true
}

} // verus!
