//! Per-actor shared state: a name, a color and two meeting counters, each
//! held in an atomic so that any worker thread may update it.
use std::sync::atomic::{AtomicU8, AtomicUsize, Ordering};
use vstd::prelude::*;
use crate::color::Color;

verus! {

/// The code under which a color is stored in an atomic byte.
pub open spec fn color_code(c: Color) -> u8 {
    match c {
        Color::Red => 0,
        Color::Yellow => 1,
        Color::Blue => 2,
    }
}

/// The color a stored byte stands for; codes above 2 read as blue.
pub open spec fn color_of_code(b: u8) -> Color {
    if b == 0 {
        Color::Red
    } else if b == 1 {
        Color::Yellow
    } else {
        Color::Blue
    }
}

/// Reading back a stored color gives that color.
pub proof fn lemma_color_code_round_trip(c: Color)
    ensures
        color_of_code(color_code(c)) == c,
{
}

pub fn encode_color(c: Color) -> (r: u8)
    ensures
        r == color_code(c),
{
    match c {
        Color::Red => 0,
        Color::Yellow => 1,
        Color::Blue => 2,
    }
}

pub fn decode_color(b: u8) -> (r: Color)
    ensures
        r == color_of_code(b),
{
    if b == 0 {
        Color::Red
    } else if b == 1 {
        Color::Yellow
    } else {
        Color::Blue
    }
}

/// A color that threads may read and replace concurrently.
pub struct AtomicColor(AtomicU8);

impl AtomicColor {
    pub fn new(c: Color) -> (r: AtomicColor) {
        AtomicColor(AtomicU8::new(encode_color(c)))
    }

    /// The color currently stored.
    pub fn load(&self, order: Ordering) -> (r: Color) {
        decode_color(self.0.load(order))
    }

    /// Replaces the stored color.
    pub fn store(&self, color: Color, order: Ordering) {
        self.0.store(encode_color(color), order)
    }
}

/// An actor id: 1 to 15 name an actor, 0 stands for no actor.
#[derive(Clone, Copy, Debug, PartialEq, Eq, Structural)]
pub struct Chameneos {
    pub idx: u64,
}

impl Chameneos {
    /// Whether this id names an actor rather than standing for none.
    pub fn is_valid(&self) -> (r: bool)
        ensures
            r == (self.idx != 0),
    {
        self.idx != 0
    }
}

/// The state of one actor during a run.
pub struct ChameneosState {
    name: u8,
    color: AtomicColor,
    meet_count: AtomicUsize,
    meet_same_count: AtomicUsize,
}

impl ChameneosState {
    /// An actor of the given name and color that has not met anyone yet.
    pub fn new(name: u8, color: Color) -> (r: ChameneosState)
        ensures
            r.name() == name,
    {
        ChameneosState {
            name,
            color: AtomicColor::new(color),
            meet_count: AtomicUsize::new(0),
            meet_same_count: AtomicUsize::new(0),
        }
    }

    pub closed spec fn name_spec(&self) -> u8 {
        self.name
    }

    /// The actor's name, fixed at construction.
    #[verifier::when_used_as_spec(name_spec)]
    pub fn name(&self) -> (r: u8)
        ensures
            r == self.name_spec(),
    {
        self.name
    }

    /// The actor's current color.
    pub fn color(&self) -> (r: Color) {
        self.color.load(Ordering::Acquire)
    }

    /// Records one meeting of this actor: one more meeting, one more
    /// meeting with a namesake when `same` holds, and the new color.
    pub fn meet(&self, same: bool, color: Color) {
        self.meet_count.fetch_add(1, Ordering::AcqRel);
        if same {
            self.meet_same_count.fetch_add(1, Ordering::AcqRel);
        }
        self.color.store(color, Ordering::Release);
    }

    /// The counters `(meetings, meetings with a namesake)`.
    pub fn counts(&self) -> (r: (usize, usize)) {
        (self.meet_count.load(Ordering::SeqCst), self.meet_same_count.load(Ordering::SeqCst))
    }
}

/// A model of the meetings counters: how many meetings of the list `ms`
/// actor `i` takes part in. Each entry is the pair of ids of a meeting's
/// two participants, and both count it, as `ChameneosState::meet` is
/// called on both. The atomic counters themselves are not tied to it.
pub open spec fn meet_tally(ms: Seq<(nat, nat)>, i: nat) -> nat
    decreases ms.len(),
{
    if ms.len() == 0 {
        0
    } else {
        meet_tally(ms.drop_last(), i) + (if ms.last().0 == i {
            1nat
        } else {
            0nat
        }) + (if ms.last().1 == i {
            1nat
        } else {
            0nat
        })
    }
}

/// A model of the namesake counters over the list `ms`, names being ids: a
/// meeting counts for both participants when their names agree.
pub open spec fn same_tally(ms: Seq<(nat, nat)>, i: nat) -> nat
    decreases ms.len(),
{
    if ms.len() == 0 {
        0
    } else {
        let (a, b) = ms.last();
        same_tally(ms.drop_last(), i) + if a == b {
            (if a == i {
                1nat
            } else {
                0nat
            }) + (if b == i {
                1nat
            } else {
                0nat
            })
        } else {
            0nat
        }
    }
}

/// The meetings counters of actors `0..k`, summed.
pub open spec fn tally_sum(ms: Seq<(nat, nat)>, k: nat) -> nat
    decreases k,
{
    if k == 0 {
        0
    } else {
        tally_sum(ms, (k - 1) as nat) + meet_tally(ms, (k - 1) as nat)
    }
}

proof fn lemma_tally_sum_last(ms: Seq<(nat, nat)>, k: nat)
    requires
        ms.len() > 0,
    ensures
        tally_sum(ms, k) == tally_sum(ms.drop_last(), k) + (if ms.last().0 < k {
            1nat
        } else {
            0nat
        }) + (if ms.last().1 < k {
            1nat
        } else {
            0nat
        }),
    decreases k,
{
    if k > 0 {
        lemma_tally_sum_last(ms, (k - 1) as nat);
    }
}

proof fn lemma_tally_sum_empty(ms: Seq<(nat, nat)>, k: nat)
    requires
        ms.len() == 0,
    ensures
        tally_sum(ms, k) == 0,
    decreases k,
{
    if k > 0 {
        lemma_tally_sum_empty(ms, (k - 1) as nat);
    }
}

/// Of any list of meetings between actors `0..=actors`: every meeting is
/// counted twice in the model of the counters, once by each participant,
/// so over all actors the modelled counters add up to twice the number of
/// meetings in the list. This is a statement about the list, not about
/// the atomic counters of a run.
pub proof fn lemma_meet_total(ms: Seq<(nat, nat)>, actors: nat)
    requires
        forall|j: int| 0 <= j < ms.len() ==> #[trigger] ms[j].0 <= actors && ms[j].1 <= actors,
    ensures
        tally_sum(ms, actors + 1) == 2 * ms.len(),
    decreases ms.len(),
{
    if ms.len() == 0 {
        lemma_tally_sum_empty(ms, actors + 1);
    } else {
        let prefix = ms.drop_last();
        assert forall|j: int| 0 <= j < prefix.len() implies #[trigger] prefix[j].0 <= actors
            && prefix[j].1 <= actors by {
            assert(prefix[j] == ms[j]);
        }
        lemma_meet_total(prefix, actors);
        lemma_tally_sum_last(ms, actors + 1);
        assert(ms.last() == ms[ms.len() - 1]);
        assert(ms[ms.len() - 1].0 <= actors && ms[ms.len() - 1].1 <= actors);
    }
}

/// Of any list of meetings: in the model of the counters, no actor meets a
/// namesake more often than it meets at all. This is a statement about the
/// list, not about the atomic counters of a run.
pub proof fn lemma_same_within_meet(ms: Seq<(nat, nat)>, i: nat)
    ensures
        same_tally(ms, i) <= meet_tally(ms, i),
    decreases ms.len(),
{
    if ms.len() > 0 {
        lemma_same_within_meet(ms.drop_last(), i);
    }
}

} // verus!
