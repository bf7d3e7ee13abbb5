//! The event model: one recorded action, and a recording as a sequence of them.
//!
//! Pointer coordinates are carried as the bit pattern of a 64-bit IEEE-754
//! number (what `to_bits` gives). The engine stores and hands them on and
//! never computes with them, so two positions are the same exactly when their
//! bit patterns are.

use vstd::prelude::*;
use crate::keys::{Button, Key};

verus! {

/// A button going down or up, with the pointer's place at that moment.
#[derive(Clone, Copy, Debug, PartialEq, Eq, Structural)]
pub struct MouseEventButton {
    pub x: u64,
    pub y: u64,
    pub button: Button,
}

/// The pointer arriving at an absolute place.
#[derive(Clone, Copy, Debug, PartialEq, Eq, Structural)]
pub struct MouseEventMove {
    pub x: u64,
    pub y: u64,
}

/// One entry of a recording.
#[derive(Clone, Copy, Debug, PartialEq, Eq, Structural)]
pub enum Event {
    KeyPress(Key),
    KeyRelease(Key),
    MousePress(MouseEventButton),
    MouseRelease(MouseEventButton),
    MouseMove(MouseEventMove),
    /// A delay in milliseconds, to be honoured before the next entry.
    Wait(u64),
}

impl Event {
    /// Whether the entry is a delay.
    pub open spec fn is_wait(self) -> bool {
        self is Wait
    }

    /// Whether the entry is a mouse action: a button going down or up, or a move.
    pub open spec fn is_mouse(self) -> bool {
        self is MousePress || self is MouseRelease || self is MouseMove
    }
}

/// A recording: the entries in the order in which they are to be replayed.
#[derive(Clone, Debug, PartialEq, Eq)]
pub struct RecordedEvents {
    pub events: Vec<Event>,
}

impl View for RecordedEvents {
    type V = Seq<Event>;

    open spec fn view(&self) -> Seq<Event> {
        self.events@
    }
}

impl Default for RecordedEvents {
    fn default() -> (out: Self)
        ensures
            out@ == Seq::<Event>::empty(),
    {
        RecordedEvents { events: Vec::new() }
    }
}

/// A delay sits at every even place of `s` and nowhere else: the shape of a
/// recording in which each action is preceded by exactly one delay.
pub open spec fn paced(s: Seq<Event>) -> bool {
    forall|i: int| 0 <= i < s.len() ==> (#[trigger] s[i].is_wait() <==> i % 2 == 0)
}

/// A paced recording that does not end in a delay.
pub open spec fn complete(s: Seq<Event>) -> bool {
    paced(s) && s.len() % 2 == 0
}

/// In a paced recording the first entry is a delay and no two delays are
/// neighbours.
pub proof fn lemma_paced_has_no_adjacent_waits(s: Seq<Event>)
    requires
        paced(s),
    ensures
        s.len() > 0 ==> s[0].is_wait(),
        forall|i: int|
            0 <= i && i + 1 < s.len() ==> !(s[i].is_wait() && #[trigger] s[i + 1].is_wait()),
{
    assert forall|i: int| 0 <= i && i + 1 < s.len() implies !(s[i].is_wait() && #[trigger] s[i
        + 1].is_wait()) by {
        assert(s[i].is_wait() <==> i % 2 == 0);
        assert(s[i + 1].is_wait() <==> (i + 1) % 2 == 0);
    }
}

/// A complete recording is empty or ends in an action.
pub proof fn lemma_complete_ends_in_action(s: Seq<Event>)
    requires
        complete(s),
    ensures
        s.len() > 0 ==> !s.last().is_wait(),
{
    if s.len() > 0 {
        assert(s[s.len() - 1].is_wait() <==> (s.len() - 1) % 2 == 0);
    }
}

} // verus!
