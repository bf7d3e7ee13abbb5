//! What holds of every capture, whatever the input.
//!
//! `well_formed` is the invariant of the capture state machine. The lemmas
//! below show that a capture starts in it and never leaves it, and draw from
//! it what a user of a recording relies on.

use vstd::prelude::*;
use crate::capture::{
    classify, dragging, elapsed, extended, outcome, pause, recent_after, run, start, step,
    Capture, Notification, Outcome, Point, Stamped,
};
use crate::config::{CaptureConfig, WaitStrategy};
use crate::event::{
    complete, lemma_complete_ends_in_action, lemma_paced_has_no_adjacent_waits, paced, Event,
    MouseEventButton, MouseEventMove,
};
use crate::keys::{Button, Key};
use crate::stop::{
    finished, lemma_finished_of_paced, lemma_gesture_cut, press_keys, recent_keys, stop_matched,
    without_gesture,
};

verus! {

/// The invariant of a capture.
///
/// The recording is paced and begins with the initial delay. At no point of
/// it did the keys pressed since the last mouse action end with the stop
/// pattern. Under a constant wait strategy every later delay is the constant.
/// While the capture runs, the recording is the initial delay alone or ends
/// in an action, and the state's bookkeeping agrees with it; once the capture
/// is over, the recording is complete.
pub open spec fn well_formed(cfg: CaptureConfig, s: Capture) -> bool {
    &&& paced(s.events)
    &&& s.events.len() > 0 ==> s.events[0] == Event::Wait(cfg.initial_wait_ms)
    &&& forall|k: int|
        0 <= k <= s.events.len() ==> !stop_matched(
            recent_keys(#[trigger] s.events.take(k)),
            cfg.stop_keystrokes,
        )
    &&& cfg.wait_strategy matches WaitStrategy::ConstantMS(ms) ==> forall|i: int|
        2 <= i < s.events.len() && i % 2 == 0 ==> #[trigger] s.events[i] == Event::Wait(ms)
    &&& if s.stopped {
        s.events.len() % 2 == 0
    } else {
        &&& s.events.len() == 1 || (s.events.len() >= 2 && s.events.len() % 2 == 0)
        &&& s.recent == recent_keys(s.events)
        &&& (s.last is None <==> s.events.len() == 1)
    }
}

/// A capture starts well formed.
pub proof fn lemma_start_well_formed(cfg: CaptureConfig)
    ensures
        well_formed(cfg, start(cfg)),
{
    let s = start(cfg);
    assert(s.events.drop_last() =~= Seq::<Event>::empty());
    assert(recent_keys(Seq::<Event>::empty()) =~= Seq::empty());
    assert(recent_keys(s.events) =~= Seq::empty());
    assert forall|k: int| 0 <= k <= s.events.len() implies !stop_matched(
        recent_keys(#[trigger] s.events.take(k)),
        cfg.stop_keystrokes,
    ) by {
        if k == 0 {
            assert(s.events.take(0) =~= Seq::<Event>::empty());
        } else {
            assert(s.events.take(1) =~= s.events);
        }
    }
}

/// No notification takes a capture out of the invariant.
pub proof fn lemma_step_well_formed(cfg: CaptureConfig, s: Capture, n: Notification, now: u64)
    requires
        well_formed(cfg, s),
    ensures
        well_formed(cfg, step(cfg, s, n, now)),
{
    if !s.stopped && classify(n, cfg.record_non_drag_mouse_moves, dragging(s.held)) is Some {
        lemma_recorded(cfg, s, n, now);
    }
}

/// Every state that a capture can reach is well formed.
pub proof fn lemma_run_well_formed(cfg: CaptureConfig, input: Seq<Stamped>)
    ensures
        well_formed(cfg, run(cfg, input)),
    decreases input.len(),
{
    if input.len() == 0 {
        lemma_start_well_formed(cfg);
    } else {
        lemma_run_well_formed(cfg, input.drop_last());
        lemma_step_well_formed(
            cfg,
            run(cfg, input.drop_last()),
            input.last().notification,
            input.last().at_ms,
        );
    }
}

/// Whatever the input, a recording that holds anything begins with a delay,
/// no two delays in it are neighbours, and each of its actions has a delay
/// right in front of it. While the capture runs the recording is never empty.
pub proof fn lemma_recording_is_paced(cfg: CaptureConfig, input: Seq<Stamped>)
    ensures
        ({
            let r = run(cfg, input).events;
            &&& !run(cfg, input).stopped ==> r.len() > 0
            &&& r.len() > 0 ==> r[0] == Event::Wait(cfg.initial_wait_ms)
            &&& forall|i: int|
                0 <= i && i + 1 < r.len() ==> !(r[i].is_wait() && #[trigger] r[i + 1].is_wait())
            &&& forall|i: int|
                0 <= i < r.len() && !(#[trigger] r[i]).is_wait() ==> i > 0 && r[i - 1].is_wait()
        }),
{
    lemma_run_well_formed(cfg, input);
    let r = run(cfg, input).events;
    lemma_paced_has_no_adjacent_waits(r);
    assert forall|i: int| 0 <= i < r.len() && !(#[trigger] r[i]).is_wait() implies i > 0 && r[i
        - 1].is_wait() by {
        assert(r[i].is_wait() <==> i % 2 == 0);
        assert(r[i - 1].is_wait() <==> (i - 1) % 2 == 0);
    }
}

/// `all` is cut in front of the stop gesture when `kept` entries are kept:
/// the next entry is the delay in front of the press that began the gesture,
/// the presses from there on are exactly the pattern, and no mouse action
/// lies among them.
pub open spec fn cut_before_gesture(all: Seq<Event>, pattern: Seq<Key>, kept: int) -> bool {
    &&& 0 <= kept && kept + 1 < all.len()
    &&& all[kept].is_wait()
    &&& pattern.len() > 0
    &&& all[kept + 1] == Event::KeyPress(pattern[0])
    &&& press_keys(all.skip(kept + 1)) == pattern
    &&& forall|i: int| kept < i < all.len() ==> !(#[trigger] all[i]).is_mouse()
}

/// When a notification completes the stop gesture, the finished recording is
/// a beginning of the recording as it stood before the notification, cut in
/// front of the gesture. It is complete, so it does not end in a delay, and
/// the keys pressed in it since its last mouse action do not end with the
/// stop pattern: nothing of the gesture is left.
pub proof fn lemma_finished_holds_no_gesture(
    cfg: CaptureConfig,
    s: Capture,
    n: Notification,
    now: u64,
)
    requires
        well_formed(cfg, s),
        !s.stopped,
        step(cfg, s, n, now).stopped,
    ensures
        ({
            let f = step(cfg, s, n, now).events;
            &&& f.len() <= s.events.len()
            &&& f == s.events.take(f.len() as int)
            &&& cut_before_gesture(
                extended(
                    cfg.wait_strategy,
                    s,
                    classify(n, cfg.record_non_drag_mouse_moves, dragging(s.held))->0,
                    now,
                ),
                cfg.stop_keystrokes,
                f.len() as int,
            )
            &&& complete(f)
            &&& f.len() > 0 ==> !f.last().is_wait()
            &&& !stop_matched(recent_keys(f), cfg.stop_keystrokes)
        }),
{
    lemma_recorded(cfg, s, n, now);
    let f = step(cfg, s, n, now).events;
    lemma_complete_ends_in_action(f);
    assert(f.take(f.len() as int) =~= f);
}

/// Whatever the input, a finished recording is complete, so it is empty or
/// ends in an action, and the keys pressed in it since its last mouse action
/// do not end with the stop pattern.
pub proof fn lemma_finished_recording(cfg: CaptureConfig, input: Seq<Stamped>)
    requires
        run(cfg, input).stopped,
    ensures
        complete(run(cfg, input).events),
        run(cfg, input).events.len() > 0 ==> !run(cfg, input).events.last().is_wait(),
        !stop_matched(recent_keys(run(cfg, input).events), cfg.stop_keystrokes),
{
    lemma_run_well_formed(cfg, input);
    let f = run(cfg, input).events;
    lemma_complete_ends_in_action(f);
    assert(f.take(f.len() as int) =~= f);
}

/// Once a capture is over, nothing changes it any more: every notification
/// is ignored. So a recording is finished, and due to be stored, once only.
pub proof fn lemma_nothing_follows_the_end(
    cfg: CaptureConfig,
    s: Capture,
    n: Notification,
    now: u64,
)
    requires
        s.stopped,
    ensures
        step(cfg, s, n, now) == s,
        outcome(cfg, s, n, now) == Outcome::Ignored,
{
}

/// With a constant wait strategy, every action of a recording but the first
/// has exactly the constant as the delay in front of it, whenever the
/// notifications arrived.
pub proof fn lemma_constant_waits(cfg: CaptureConfig, input: Seq<Stamped>, ms: u64, i: int)
    requires
        cfg.wait_strategy == WaitStrategy::ConstantMS(ms),
        2 < i < run(cfg, input).events.len(),
        !run(cfg, input).events[i].is_wait(),
    ensures
        run(cfg, input).events[i - 1] == Event::Wait(ms),
{
    lemma_run_well_formed(cfg, input);
    let r = run(cfg, input).events;
    assert(r[i].is_wait() <==> i % 2 == 0);
}

/// With the actual wait strategy, an action that does not end the capture is
/// recorded behind the time that passed since the action before it.
pub proof fn lemma_actual_wait(cfg: CaptureConfig, s: Capture, n: Notification, now: u64)
    requires
        cfg.wait_strategy == WaitStrategy::Actual,
        !s.stopped,
        s.last is Some,
        classify(n, cfg.record_non_drag_mouse_moves, dragging(s.held)) is Some,
        !step(cfg, s, n, now).stopped,
    ensures
        step(cfg, s, n, now).events == s.events.push(Event::Wait(elapsed(s.last->0, now))).push(
            classify(n, cfg.record_non_drag_mouse_moves, dragging(s.held))->0,
        ),
        s.last->0 <= now ==> elapsed(s.last->0, now) == now - s.last->0,
{
    let action = classify(n, cfg.record_non_drag_mouse_moves, dragging(s.held))->0;
    let w = Event::Wait(elapsed(s.last->0, now));
    assert(s.events + seq![w] + seq![action] =~= s.events.push(w).push(action));
}

/// A move of the pointer while no button is held leaves the recording as it
/// is, unless such moves are asked for.
pub proof fn lemma_idle_move_is_dropped(cfg: CaptureConfig, s: Capture, at: Point, now: u64)
    requires
        !cfg.record_non_drag_mouse_moves,
        forall|button: Button| !s.held.contains(button),
    ensures
        step(cfg, s, Notification::MouseMoved(at), now).events == s.events,
        step(cfg, s, Notification::MouseMoved(at), now).recent == s.recent,
        step(cfg, s, Notification::MouseMoved(at), now).held == s.held,
{
}

/// A move of the pointer while a button is held adds exactly one move to the
/// recording, behind its delay, whatever other buttons went down or came up
/// in the meantime.
pub proof fn lemma_drag_move_is_recorded(
    cfg: CaptureConfig,
    s: Capture,
    button: Button,
    at: Point,
    now: u64,
)
    requires
        !s.stopped,
        s.held.contains(button),
    ensures
        step(cfg, s, Notification::MouseMoved(at), now).events == extended(
            cfg.wait_strategy,
            s,
            Event::MouseMove(MouseEventMove { x: at.x, y: at.y }),
            now,
        ),
        !step(cfg, s, Notification::MouseMoved(at), now).stopped,
        step(cfg, s, Notification::MouseMoved(at), now).held == s.held,
{
    assert(dragging(s.held));
    assert(recent_after(s.recent, Event::MouseMove(MouseEventMove { x: at.x, y: at.y }))
        =~= Seq::empty());
}

/// A button that goes down in a running capture is held from then on, and
/// the capture runs on.
pub proof fn lemma_pressed_button_is_held(
    cfg: CaptureConfig,
    s: Capture,
    at: Point,
    button: Button,
    now: u64,
)
    requires
        !s.stopped,
    ensures
        step(cfg, s, Notification::MouseButtonDown(at, button), now).held.contains(button),
        !step(cfg, s, Notification::MouseButtonDown(at, button), now).stopped,
{
    let press = Event::MousePress(MouseEventButton { x: at.x, y: at.y, button });
    assert(recent_after(s.recent, press) =~= Seq::empty());
}

/// `n` tells that `button` came up.
pub open spec fn releases(n: Notification, button: Button) -> bool {
    n matches Notification::MouseButtonUp(_, up) && up == button
}

/// A button stays held until it comes up itself: no other notification, and
/// no release of another button, lets go of it.
pub proof fn lemma_button_stays_held(
    cfg: CaptureConfig,
    s: Capture,
    button: Button,
    n: Notification,
    now: u64,
)
    requires
        s.held.contains(button),
        !releases(n, button),
    ensures
        step(cfg, s, n, now).held.contains(button),
{
}

/// No release of `button` is among `input`.
pub open spec fn no_release_of(button: Button, input: Seq<Stamped>) -> bool {
    forall|i: int| 0 <= i < input.len() ==> !releases((#[trigger] input[i]).notification, button)
}

/// A button that is held after `before` is still held after whatever
/// follows, as long as no release of that button is among it.
pub proof fn lemma_held_until_released(
    cfg: CaptureConfig,
    before: Seq<Stamped>,
    after: Seq<Stamped>,
    button: Button,
)
    requires
        run(cfg, before).held.contains(button),
        no_release_of(button, after),
    ensures
        run(cfg, before + after).held.contains(button),
    decreases after.len(),
{
    if after.len() == 0 {
        assert(before + after =~= before);
    } else {
        let all = before + after;
        assert(all.drop_last() =~= before + after.drop_last());
        assert(all.last() == after[after.len() - 1]);
        assert(no_release_of(button, after.drop_last())) by {
            assert forall|i: int| 0 <= i < after.drop_last().len() implies !releases(
                (#[trigger] after.drop_last()[i]).notification,
                button,
            ) by {
                assert(after.drop_last()[i] == after[i]);
            }
        }
        lemma_held_until_released(cfg, before, after.drop_last(), button);
        lemma_button_stays_held(
            cfg,
            run(cfg, all.drop_last()),
            button,
            all.last().notification,
            all.last().at_ms,
        );
    }
}

/// A button that comes up is held no longer, and every other button is held
/// as before.
pub proof fn lemma_released_button_is_let_go(
    cfg: CaptureConfig,
    s: Capture,
    at: Point,
    button: Button,
    now: u64,
)
    requires
        !s.stopped,
    ensures
        !step(cfg, s, Notification::MouseButtonUp(at, button), now).held.contains(button),
        forall|other: Button|
            other != button ==> (step(
                cfg,
                s,
                Notification::MouseButtonUp(at, button),
                now,
            ).held.contains(other) <==> s.held.contains(other)),
{
}

proof fn lemma_recorded(cfg: CaptureConfig, s: Capture, n: Notification, now: u64)
    requires
        well_formed(cfg, s),
        !s.stopped,
        classify(n, cfg.record_non_drag_mouse_moves, dragging(s.held)) is Some,
    ensures
        well_formed(cfg, step(cfg, s, n, now)),
        step(cfg, s, n, now).events.len() <= s.events.len() || !step(cfg, s, n, now).stopped,
        step(cfg, s, n, now).stopped ==> step(cfg, s, n, now).events == s.events.take(
            step(cfg, s, n, now).events.len() as int,
        ),
        step(cfg, s, n, now).stopped ==> cut_before_gesture(
            extended(
                cfg.wait_strategy,
                s,
                classify(n, cfg.record_non_drag_mouse_moves, dragging(s.held))->0,
                now,
            ),
            cfg.stop_keystrokes,
            step(cfg, s, n, now).events.len() as int,
        ),
{
    let action = classify(n, cfg.record_non_drag_mouse_moves, dragging(s.held))->0;
    let p = pause(cfg.wait_strategy, s.last, now);
    let mid = s.events + p;
    let all = mid + seq![action];
    let len = s.events.len() as int;
    let pattern = cfg.stop_keystrokes;
    let next = step(cfg, s, n, now);
    assert(!action.is_wait());
    assert(s.events.take(len) =~= s.events);

    // the delay changes nothing about the recent keys
    assert(recent_keys(mid) == recent_keys(s.events)) by {
        if p.len() > 0 {
            assert(mid.drop_last() =~= s.events);
            assert(mid.last().is_wait());
        } else {
            assert(mid =~= s.events);
        }
    }
    assert(all.drop_last() =~= mid);
    assert(all.last() == action);
    assert(recent_keys(all) == recent_after(s.recent, action));

    assert(paced(all)) by {
        assert forall|i: int| 0 <= i < all.len() implies (#[trigger] all[i].is_wait() <==> i % 2
            == 0) by {
            if i < len {
                assert(all[i] == s.events[i]);
            }
        }
    }
    assert(all[0] == s.events[0]);

    assert forall|k: int| 0 <= k < all.len() implies !stop_matched(
        recent_keys(#[trigger] all.take(k)),
        pattern,
    ) by {
        if k <= len {
            assert(all.take(k) =~= s.events.take(k));
        } else {
            assert(all.take(k) =~= mid);
        }
    }

    if stop_matched(recent_after(s.recent, action), pattern) {
        lemma_gesture_cut(all, pattern);
        lemma_finished_of_paced(all, pattern);
        let c = without_gesture(all, pattern).len() as int;
        let f = finished(all, pattern);
        assert(f == all.take(c - 1));
        assert(c - 1 <= len);
        assert(all =~= extended(cfg.wait_strategy, s, action, now));
        assert(all[c - 1].is_wait());
        assert(f =~= s.events.take(c - 1));
        assert forall|k: int| 0 <= k <= f.len() implies !stop_matched(
            recent_keys(#[trigger] f.take(k)),
            pattern,
        ) by {
            assert(f.take(k) =~= s.events.take(k));
        }
        assert(next.events == f);
    } else {
        assert(all.take(all.len() as int) =~= all);
        assert(next.events == all);
        assert(well_formed(cfg, next));
    }
}

} // verus!
