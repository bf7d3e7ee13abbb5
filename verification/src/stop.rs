//! The stop gesture: a fixed sequence of key presses that ends a capture.
//!
//! The detector looks at the keys pressed since the last mouse action. When
//! they end with the configured pattern, the gesture is cut out of the
//! recording: everything from the press that began the gesture goes, and so
//! does the delay that was left in front of it. Key releases that arrived
//! while the gesture was being typed belong to the gesture and go with it,
//! whichever key they release.

use vstd::prelude::*;
use crate::event::{complete, paced, Event};
use crate::keys::Key;

verus! {

/// `keys` ends with `pattern`.
pub open spec fn ends_with(keys: Seq<Key>, pattern: Seq<Key>) -> bool {
    pattern.len() <= keys.len() && keys.skip(keys.len() - pattern.len()) == pattern
}

/// What the detector answers: the pattern is not empty and `recent` ends with it.
/// An empty pattern never matches.
pub open spec fn stop_matched(recent: Seq<Key>, pattern: Seq<Key>) -> bool {
    pattern.len() > 0 && ends_with(recent, pattern)
}

/// The keys of the presses in `s`, in order.
pub open spec fn press_keys(s: Seq<Event>) -> Seq<Key>
    decreases s.len(),
{
    if s.len() == 0 {
        Seq::empty()
    } else {
        match s.last() {
            Event::KeyPress(k) => press_keys(s.drop_last()).push(k),
            _ => press_keys(s.drop_last()),
        }
    }
}

/// The keys pressed in `s` since its last mouse action, in order.
pub open spec fn recent_keys(s: Seq<Event>) -> Seq<Key>
    decreases s.len(),
{
    if s.len() == 0 {
        Seq::empty()
    } else {
        match s.last() {
            Event::KeyPress(k) => recent_keys(s.drop_last()).push(k),
            Event::KeyRelease(_) | Event::Wait(_) => recent_keys(s.drop_last()),
            _ => Seq::empty(),
        }
    }
}

/// `events` read from the end, entries dropped until each key of `pattern`,
/// last key first, has met a press of that key; the press that meets the
/// first key is the last entry dropped. An empty pattern drops nothing; a
/// pattern that is not met drops everything.
pub open spec fn without_gesture(events: Seq<Event>, pattern: Seq<Key>) -> Seq<Event>
    decreases events.len(),
{
    if pattern.len() == 0 || events.len() == 0 {
        events
    } else if events.last() == Event::KeyPress(pattern.last()) {
        without_gesture(events.drop_last(), pattern.drop_last())
    } else {
        without_gesture(events.drop_last(), pattern)
    }
}

/// `events` without the delays at its end.
pub open spec fn without_trailing_waits(events: Seq<Event>) -> Seq<Event>
    decreases events.len(),
{
    if events.len() > 0 && events.last().is_wait() {
        without_trailing_waits(events.drop_last())
    } else {
        events
    }
}

/// The finished recording: the gesture cut out, and no delay left at the end.
pub open spec fn finished(events: Seq<Event>, pattern: Seq<Key>) -> Seq<Event> {
    without_trailing_waits(without_gesture(events, pattern))
}

/// Whether the keys in `recent` end with the stop pattern, compared from the
/// most recent key backwards.
pub fn stop_match(recent: &Vec<Key>, pattern: &Vec<Key>) -> (hit: bool)
    ensures
        hit == stop_matched(recent@, pattern@),
{
    let n = pattern.len();
    let m = recent.len();
    if n == 0 || n > m {
        return false;
    }
    let mut i: usize = n;
    while i > 0
        invariant
            i <= n <= m,
            n == pattern.len(),
            m == recent.len(),
            forall|j: int| i <= j < n ==> recent@[m - n + j] == pattern@[j],
        decreases i,
    {
        i = i - 1;
        if recent[m - n + i] != pattern[i] {
            assert(recent@.skip(m - n)[i as int] == recent@[m - n + i]);
            return false;
        }
    }
    assert(recent@.skip(m - n) =~= pattern@);
    true
}

/// Cuts the stop gesture out of `events` and drops the delays left at the end.
pub fn trim_stop_gesture(events: &mut Vec<Event>, pattern: &Vec<Key>)
    ensures
        final(events)@ == finished(old(events)@, pattern@),
{
    let mut left: usize = pattern.len();
    assert(pattern@.take(left as int) =~= pattern@);
    while left > 0 && events.len() > 0
        invariant
            left <= pattern.len(),
            without_gesture(events@, pattern@.take(left as int)) == without_gesture(
                old(events)@,
                pattern@,
            ),
        decreases events.len(),
    {
        let ghost before = events@;
        let ghost wanted = pattern@.take(left as int);
        let last = events[events.len() - 1];
        events.pop();
        assert(events@ == before.drop_last());
        assert(wanted.last() == pattern@[left - 1]);
        if last == Event::KeyPress(pattern[left - 1]) {
            left = left - 1;
            assert(pattern@.take(left as int) =~= wanted.drop_last());
        }
    }
    while events.len() > 0 && is_wait(&events[events.len() - 1])
        invariant
            without_trailing_waits(events@) == finished(old(events)@, pattern@),
        decreases events.len(),
    {
        let ghost before = events@;
        events.pop();
        assert(events@ == before.drop_last());
    }
}

/// Whether the entry is a delay.
pub fn is_wait(e: &Event) -> (w: bool)
    ensures
        w == e.is_wait(),
{
    match e {
        Event::Wait(_) => true,
        _ => false,
    }
}

/// Cutting the gesture and the delays at the end leaves a beginning of the
/// recording.
pub proof fn lemma_finished_is_prefix(events: Seq<Event>, pattern: Seq<Key>)
    ensures
        finished(events, pattern).len() <= events.len(),
        finished(events, pattern) == events.take(finished(events, pattern).len() as int),
{
    lemma_without_gesture_is_prefix(events, pattern);
    let cut = without_gesture(events, pattern);
    lemma_without_trailing_waits_is_prefix(cut);
    let f = without_trailing_waits(cut);
    assert(f =~= events.take(f.len() as int));
}

/// The finished recording is empty or ends in an action.
pub proof fn lemma_finished_ends_in_action(events: Seq<Event>, pattern: Seq<Key>)
    ensures
        finished(events, pattern).len() > 0 ==> !finished(events, pattern).last().is_wait(),
{
    lemma_no_trailing_wait_left(without_gesture(events, pattern));
}

/// Where the keys pressed since the last mouse action end with the pattern,
/// the cut falls on the press that began the gesture: that entry is a press
/// of the pattern's first key, the presses from there on are exactly the
/// pattern, and no mouse action lies among them.
pub proof fn lemma_gesture_cut(events: Seq<Event>, pattern: Seq<Key>)
    requires
        stop_matched(recent_keys(events), pattern),
    ensures
        without_gesture(events, pattern).len() < events.len(),
        without_gesture(events, pattern) == events.take(
            without_gesture(events, pattern).len() as int,
        ),
        events[without_gesture(events, pattern).len() as int] == Event::KeyPress(pattern[0]),
        press_keys(events.skip(without_gesture(events, pattern).len() as int)) == pattern,
        forall|i: int|
            without_gesture(events, pattern).len() <= i < events.len() ==> !(
            #[trigger] events[i]).is_mouse(),
    decreases events.len(),
{
    let recent = recent_keys(events);
    assert(events.len() > 0);
    let rest = events.drop_last();
    let last = events.last();
    let n = events.len() as int;
    match last {
        Event::KeyPress(k) => {
            let before = recent_keys(rest);
            assert(recent == before.push(k));
            assert(recent.skip(recent.len() - pattern.len())[pattern.len() - 1] == k);
            assert(pattern.last() == k);
            let shorter = pattern.drop_last();
            if shorter.len() == 0 {
                assert(without_gesture(rest, shorter) == rest);
                assert(rest =~= events.take(n - 1));
                assert(events.skip(n - 1) =~= seq![last]);
                assert(seq![last].drop_last() =~= Seq::<Event>::empty());
                assert(seq![last].last() == last);
                assert(press_keys(Seq::<Event>::empty()) =~= Seq::<Key>::empty());
                assert(press_keys(seq![last]) =~= seq![k]);
                assert(pattern =~= seq![k]);
            } else {
                assert(before.skip(before.len() - shorter.len()) =~= recent.skip(
                    recent.len() - pattern.len(),
                ).drop_last());
                lemma_gesture_cut(rest, shorter);
                let c = without_gesture(rest, shorter).len() as int;
                assert(rest.take(c) =~= events.take(c));
                assert(events.skip(c).drop_last() =~= rest.skip(c));
                assert(press_keys(events.skip(c)) == press_keys(rest.skip(c)).push(k));
                assert(pattern =~= shorter.push(k));
                assert(shorter[0] == pattern[0]);
                assert forall|i: int| c <= i < events.len() implies !(
                #[trigger] events[i]).is_mouse() by {
                    if i < n - 1 {
                        assert(events[i] == rest[i]);
                    }
                }
            }
        },
        Event::KeyRelease(_) | Event::Wait(_) => {
            assert(recent == recent_keys(rest));
            lemma_gesture_cut(rest, pattern);
            let c = without_gesture(rest, pattern).len() as int;
            assert(rest.take(c) =~= events.take(c));
            assert(events.skip(c).drop_last() =~= rest.skip(c));
            assert(press_keys(events.skip(c)) == press_keys(rest.skip(c)));
            assert forall|i: int| c <= i < events.len() implies !(
            #[trigger] events[i]).is_mouse() by {
                if i < n - 1 {
                    assert(events[i] == rest[i]);
                }
            }
        },
        _ => {
            assert(recent.len() == 0);
        },
    }
}

/// In a paced recording whose recent key presses end with the pattern, the
/// finished recording is what stood before the delay in front of the press
/// that began the gesture, and it is complete.
pub proof fn lemma_finished_of_paced(events: Seq<Event>, pattern: Seq<Key>)
    requires
        paced(events),
        stop_matched(recent_keys(events), pattern),
    ensures
        1 <= without_gesture(events, pattern).len() < events.len(),
        finished(events, pattern) == events.take(without_gesture(events, pattern).len() - 1),
        complete(finished(events, pattern)),
{
    lemma_gesture_cut(events, pattern);
    let c = without_gesture(events, pattern).len() as int;
    assert(!events[c].is_wait());
    assert(c % 2 != 0);
    let cut = events.take(c);
    assert(cut.last() == events[c - 1]);
    assert(events[c - 1].is_wait());
    assert(cut.drop_last() =~= events.take(c - 1));
    let kept = events.take(c - 1);
    if c - 1 > 0 {
        assert(kept.last() == events[c - 2]);
        assert(!events[c - 2].is_wait());
    }
    assert(without_trailing_waits(kept) == kept);
    assert(without_trailing_waits(cut) == without_trailing_waits(kept));
}

proof fn lemma_without_gesture_is_prefix(events: Seq<Event>, pattern: Seq<Key>)
    ensures
        without_gesture(events, pattern).len() <= events.len(),
        without_gesture(events, pattern) == events.take(
            without_gesture(events, pattern).len() as int,
        ),
    decreases events.len(),
{
    if pattern.len() == 0 || events.len() == 0 {
        assert(events.take(events.len() as int) =~= events);
    } else {
        let rest = events.drop_last();
        let p = if events.last() == Event::KeyPress(pattern.last()) {
            pattern.drop_last()
        } else {
            pattern
        };
        lemma_without_gesture_is_prefix(rest, p);
        let c = without_gesture(rest, p).len() as int;
        assert(rest.take(c) =~= events.take(c));
    }
}

proof fn lemma_without_trailing_waits_is_prefix(events: Seq<Event>)
    ensures
        without_trailing_waits(events).len() <= events.len(),
        without_trailing_waits(events) == events.take(without_trailing_waits(events).len() as int),
    decreases events.len(),
{
    if events.len() > 0 && events.last().is_wait() {
        let rest = events.drop_last();
        lemma_without_trailing_waits_is_prefix(rest);
        let c = without_trailing_waits(rest).len() as int;
        assert(rest.take(c) =~= events.take(c));
    } else {
        assert(events.take(events.len() as int) =~= events);
    }
}

proof fn lemma_no_trailing_wait_left(events: Seq<Event>)
    ensures
        without_trailing_waits(events).len() > 0 ==> !without_trailing_waits(
            events,
        ).last().is_wait(),
    decreases events.len(),
{
    if events.len() > 0 && events.last().is_wait() {
        lemma_no_trailing_wait_left(events.drop_last());
    }
}

} // verus!
