//! The capture state machine: from a stream of input notifications to a
//! finished recording.
//!
//! A capture is described twice. `step` is its definition, a function from
//! the state before a notification to the state after it; `Recorder` is the
//! machine that runs it, one notification at a time, and `record` runs it over
//! a whole stream. Time comes in with each notification, as milliseconds on a
//! clock that does not run backwards.

use vstd::prelude::*;
use crate::config::{CaptureConfig, Config, WaitStrategy};
use crate::event::{complete, Event, MouseEventButton, MouseEventMove, RecordedEvents};
use crate::invariants::{
    lemma_finished_recording, lemma_start_well_formed, lemma_step_well_formed, well_formed,
};
use crate::keys::{Button, Key};
use crate::stop::{finished, recent_keys, stop_match, stop_matched, trim_stop_gesture};

verus! {

/// A place of the pointer, each coordinate as the bit pattern of a 64-bit
/// IEEE-754 number.
#[derive(Clone, Copy, Debug, PartialEq, Eq, Structural)]
pub struct Point {
    pub x: u64,
    pub y: u64,
}

/// What an input source reports. A button comes without a place.
#[derive(Clone, Copy, Debug, PartialEq, Eq, Structural)]
pub enum RawEvent {
    KeyPress(Key),
    KeyRelease(Key),
    ButtonPress(Button),
    ButtonRelease(Button),
    MouseMove { x: u64, y: u64 },
    Wheel { delta_x: i64, delta_y: i64 },
}

/// What the capture is told of. A button comes with the pointer's place.
#[derive(Clone, Copy, Debug, PartialEq, Eq, Structural)]
pub enum Notification {
    KeyDown(Key),
    KeyUp(Key),
    MouseButtonDown(Point, Button),
    MouseButtonUp(Point, Button),
    MouseMoved(Point),
    /// Anything else, such as the wheel. It leaves no trace.
    Other,
}

/// A notification and the time at which it arrived.
#[derive(Clone, Copy, Debug, PartialEq, Eq, Structural)]
pub struct Stamped {
    pub notification: Notification,
    pub at_ms: u64,
}

/// What a notification did to the capture.
#[derive(Clone, Copy, Debug, PartialEq, Eq, Structural)]
pub enum Outcome {
    /// The capture was over already: nothing changed.
    Ignored,
    /// The notification stands for no action: nothing was recorded.
    Dropped,
    /// An action was recorded and the capture goes on.
    Recorded,
    /// The action completed the stop gesture: the recording is finished and
    /// is to be stored now.
    Finished,
}

/// The state of a capture.
pub struct Capture {
    /// The recording so far; once the capture is over, the finished recording.
    pub events: Seq<Event>,
    /// The keys pressed since the last mouse action.
    pub recent: Seq<Key>,
    /// The mouse buttons that are held down.
    pub held: Set<Button>,
    /// Where the pointer was last seen.
    pub pointer: Point,
    /// When the last action was recorded, if one was.
    pub last: Option<u64>,
    /// Whether the capture is over.
    pub stopped: bool,
}

/// The notification that a report of the input source stands for, with the
/// pointer last seen at `pointer`.
pub open spec fn located(pointer: Point, raw: RawEvent) -> Notification {
    match raw {
        RawEvent::KeyPress(key) => Notification::KeyDown(key),
        RawEvent::KeyRelease(key) => Notification::KeyUp(key),
        RawEvent::ButtonPress(button) => Notification::MouseButtonDown(pointer, button),
        RawEvent::ButtonRelease(button) => Notification::MouseButtonUp(pointer, button),
        RawEvent::MouseMove { x, y } => Notification::MouseMoved(Point { x, y }),
        RawEvent::Wheel { .. } => Notification::Other,
    }
}

/// Whether some button is held down: whether a move of the pointer is a drag.
pub open spec fn dragging(held: Set<Button>) -> bool {
    exists|button: Button| held.contains(button)
}

/// The action that a notification stands for, if any. A move of the pointer
/// counts only while a button is held, unless `record_moves` asks for all.
pub open spec fn classify(n: Notification, record_moves: bool, dragging: bool) -> Option<Event> {
    match n {
        Notification::KeyDown(key) => Some(Event::KeyPress(key)),
        Notification::KeyUp(key) => Some(Event::KeyRelease(key)),
        Notification::MouseButtonDown(at, button) => Some(
            Event::MousePress(MouseEventButton { x: at.x, y: at.y, button }),
        ),
        Notification::MouseButtonUp(at, button) => Some(
            Event::MouseRelease(MouseEventButton { x: at.x, y: at.y, button }),
        ),
        Notification::MouseMoved(at) => if record_moves || dragging {
            Some(Event::MouseMove(MouseEventMove { x: at.x, y: at.y }))
        } else {
            None
        },
        Notification::Other => None,
    }
}

/// The milliseconds from `last` to `now`; none where the clock ran backwards.
pub open spec fn elapsed(last: u64, now: u64) -> u64 {
    if now >= last {
        (now - last) as u64
    } else {
        0
    }
}

/// The delay recorded in front of an action that arrives at `now`. The first
/// action of a capture gets none: the recording's initial delay stands in
/// front of it.
pub open spec fn pause(strategy: WaitStrategy, last: Option<u64>, now: u64) -> Seq<Event> {
    match last {
        None => Seq::empty(),
        Some(at) => match strategy {
            WaitStrategy::Actual => seq![Event::Wait(elapsed(at, now))],
            WaitStrategy::ConstantMS(ms) => seq![Event::Wait(ms)],
        },
    }
}

/// The recording once `action`, which arrives at `now`, is added behind its
/// delay.
pub open spec fn extended(
    strategy: WaitStrategy,
    s: Capture,
    action: Event,
    now: u64,
) -> Seq<Event> {
    s.events + pause(strategy, s.last, now) + seq![action]
}

/// The keys pressed since the last mouse action, once `action` is recorded:
/// a press joins them, a release leaves them alone, a mouse action clears them.
pub open spec fn recent_after(recent: Seq<Key>, action: Event) -> Seq<Key> {
    match action {
        Event::KeyPress(key) => recent.push(key),
        Event::KeyRelease(_) | Event::Wait(_) => recent,
        _ => Seq::empty(),
    }
}

/// The buttons that are held once `n` has arrived: a press adds its button,
/// a release takes out its button and no other.
pub open spec fn held_after(held: Set<Button>, n: Notification) -> Set<Button> {
    match n {
        Notification::MouseButtonDown(_, button) => held.insert(button),
        Notification::MouseButtonUp(_, button) => held.remove(button),
        _ => held,
    }
}

/// Where the pointer was last seen once `n` has arrived.
pub open spec fn pointer_after(pointer: Point, n: Notification) -> Point {
    match n {
        Notification::MouseMoved(at) => at,
        _ => pointer,
    }
}

/// The state in which a capture starts: the recording holds the initial delay.
pub open spec fn start(cfg: CaptureConfig) -> Capture {
    Capture {
        events: seq![Event::Wait(cfg.initial_wait_ms)],
        recent: Seq::empty(),
        held: Set::empty(),
        pointer: Point { x: 0, y: 0 },
        last: None,
        stopped: false,
    }
}

/// The state after the notification `n` that arrives at `now`.
///
/// A capture that is over stays as it is. Otherwise the notification is
/// classified; an action is recorded behind its delay, and the keys pressed
/// since the last mouse action are brought up to date. When they end with
/// the stop pattern, the capture is over and the recording is finished.
pub open spec fn step(cfg: CaptureConfig, s: Capture, n: Notification, now: u64) -> Capture {
    if s.stopped {
        s
    } else {
        match classify(n, cfg.record_non_drag_mouse_moves, dragging(s.held)) {
            None => Capture {
                held: held_after(s.held, n),
                pointer: pointer_after(s.pointer, n),
                ..s
            },
            Some(action) => {
                let events = extended(cfg.wait_strategy, s, action, now);
                let recent = recent_after(s.recent, action);
                let over = stop_matched(recent, cfg.stop_keystrokes);
                Capture {
                    events: if over {
                        finished(events, cfg.stop_keystrokes)
                    } else {
                        events
                    },
                    recent,
                    held: held_after(s.held, n),
                    pointer: pointer_after(s.pointer, n),
                    last: Some(now),
                    stopped: over,
                }
            },
        }
    }
}

/// What the notification `n` that arrives at `now` does to the capture.
pub open spec fn outcome(cfg: CaptureConfig, s: Capture, n: Notification, now: u64) -> Outcome {
    if s.stopped {
        Outcome::Ignored
    } else if classify(n, cfg.record_non_drag_mouse_moves, dragging(s.held)) is None {
        Outcome::Dropped
    } else if step(cfg, s, n, now).stopped {
        Outcome::Finished
    } else {
        Outcome::Recorded
    }
}

/// The state of a capture that has been told of all of `input`, in order.
pub open spec fn run(cfg: CaptureConfig, input: Seq<Stamped>) -> Capture
    decreases input.len(),
{
    if input.len() == 0 {
        start(cfg)
    } else {
        step(cfg, run(cfg, input.drop_last()), input.last().notification, input.last().at_ms)
    }
}

/// A capture in progress. It is a plain value: where notifications arrive on
/// a thread of their own, the caller keeps it behind one lock.
#[derive(Debug)]
pub struct Recorder {
    cfg: Config,
    events: Vec<Event>,
    recent_keys: Vec<Key>,
    held_buttons: Vec<Button>,
    mouse_pos: Point,
    last_event_ms: Option<u64>,
    stopped: bool,
}

impl View for Recorder {
    type V = Capture;

    closed spec fn view(&self) -> Capture {
        Capture {
            events: self.events@,
            recent: self.recent_keys@,
            held: self.held_buttons@.to_set(),
            pointer: self.mouse_pos,
            last: self.last_event_ms,
            stopped: self.stopped,
        }
    }
}

impl Recorder {
    /// The settings that the capture goes by.
    pub closed spec fn config(&self) -> CaptureConfig {
        self.cfg@
    }

    /// Starts a capture.
    pub fn new(cfg: Config) -> (recorder: Recorder)
        ensures
            recorder.config() == cfg@,
            recorder@ == start(cfg@),
            well_formed(recorder.config(), recorder@),
    {
        proof {
            lemma_start_well_formed(cfg@);
        }
        let mut events = Vec::new();
        events.push(Event::Wait(cfg.recording_initial_wait_ms));
        let recorder = Recorder {
            cfg,
            events,
            recent_keys: Vec::new(),
            held_buttons: Vec::new(),
            mouse_pos: Point { x: 0, y: 0 },
            last_event_ms: None,
            stopped: false,
        };
        assert(recorder.events@ =~= start(cfg@).events);
        assert(recorder.held_buttons@.to_set() =~= Set::<Button>::empty());
        recorder
    }

    /// Tells the capture of a notification that arrived at `now_ms`.
    pub fn notify(&mut self, n: Notification, now_ms: u64) -> (out: Outcome)
        ensures
            final(self).config() == old(self).config(),
            final(self)@ == step(old(self).config(), old(self)@, n, now_ms),
            out == outcome(old(self).config(), old(self)@, n, now_ms),
            well_formed(old(self).config(), old(self)@) ==> well_formed(
                final(self).config(),
                final(self)@,
            ),
    {
        proof {
            if well_formed(self.config(), self@) {
                lemma_step_well_formed(self.config(), self@, n, now_ms);
            }
        }
        if self.stopped {
            return Outcome::Ignored;
        }
        let dragging = is_dragging(&self.held_buttons);
        let produced = match n {
            Notification::KeyDown(key) => Some(Event::KeyPress(key)),
            Notification::KeyUp(key) => Some(Event::KeyRelease(key)),
            Notification::MouseButtonDown(at, button) => {
                hold(&mut self.held_buttons, button);
                Some(Event::MousePress(MouseEventButton { x: at.x, y: at.y, button }))
            },
            Notification::MouseButtonUp(at, button) => {
                self.held_buttons = released(&self.held_buttons, button);
                Some(Event::MouseRelease(MouseEventButton { x: at.x, y: at.y, button }))
            },
            Notification::MouseMoved(at) => {
                self.mouse_pos = at;
                if self.cfg.record_non_drag_mouse_moves || dragging {
                    Some(Event::MouseMove(MouseEventMove { x: at.x, y: at.y }))
                } else {
                    None
                }
            },
            Notification::Other => None,
        };
        match produced {
            None => Outcome::Dropped,
            Some(action) => {
                match self.last_event_ms {
                    Some(at) => {
                        let ms = match self.cfg.wait_strategy {
                            WaitStrategy::Actual => if now_ms >= at {
                                now_ms - at
                            } else {
                                0
                            },
                            WaitStrategy::ConstantMS(ms) => ms,
                        };
                        self.events.push(Event::Wait(ms));
                    },
                    None => {},
                }
                self.events.push(action);
                self.last_event_ms = Some(now_ms);
                match action {
                    Event::KeyPress(key) => {
                        self.recent_keys.push(key);
                    },
                    Event::KeyRelease(_) => {},
                    _ => {
                        self.recent_keys.clear();
                    },
                }
                assert(self.events@ =~= old(self).events@ + pause(
                    self.cfg.wait_strategy,
                    old(self).last_event_ms,
                    now_ms,
                ) + seq![action]);
                assert(self.recent_keys@ =~= recent_after(old(self).recent_keys@, action));
                if stop_match(&self.recent_keys, &self.cfg.stop_keystrokes) {
                    trim_stop_gesture(&mut self.events, &self.cfg.stop_keystrokes);
                    self.stopped = true;
                    Outcome::Finished
                } else {
                    Outcome::Recorded
                }
            },
        }
    }

    /// Tells the capture of a report of the input source that arrived at
    /// `now_ms`. A button is taken to act where the pointer was last seen.
    pub fn observe(&mut self, raw: RawEvent, now_ms: u64) -> (out: Outcome)
        ensures
            final(self).config() == old(self).config(),
            final(self)@ == step(
                old(self).config(),
                old(self)@,
                located(old(self)@.pointer, raw),
                now_ms,
            ),
            out == outcome(
                old(self).config(),
                old(self)@,
                located(old(self)@.pointer, raw),
                now_ms,
            ),
            well_formed(old(self).config(), old(self)@) ==> well_formed(
                final(self).config(),
                final(self)@,
            ),
    {
        let n = match raw {
            RawEvent::KeyPress(key) => Notification::KeyDown(key),
            RawEvent::KeyRelease(key) => Notification::KeyUp(key),
            RawEvent::ButtonPress(button) => Notification::MouseButtonDown(self.mouse_pos, button),
            RawEvent::ButtonRelease(button) => Notification::MouseButtonUp(self.mouse_pos, button),
            RawEvent::MouseMove { x, y } => Notification::MouseMoved(Point { x, y }),
            RawEvent::Wheel { .. } => Notification::Other,
        };
        self.notify(n, now_ms)
    }

    /// Whether the capture is over.
    pub fn is_stopped(&self) -> (over: bool)
        ensures
            over == self@.stopped,
    {
        self.stopped
    }

    /// The recording as it stands; once the capture is over, the finished
    /// recording. It stays at hand for as long as the recorder does, so that
    /// storing it can be tried again.
    pub fn recording(&self) -> (recording: RecordedEvents)
        ensures
            recording@ == self@.events,
    {
        RecordedEvents { events: self.events.clone() }
    }
}

/// Whether some button is among `held`.
fn is_dragging(held: &Vec<Button>) -> (some: bool)
    ensures
        some == dragging(held@.to_set()),
{
    if held.len() > 0 {
        assert(held@.contains(held@[0]));
        assert(held@.to_set().contains(held@[0]));
        true
    } else {
        assert forall|button: Button| !held@.to_set().contains(button) by {
            if held@.contains(button) {
                let i = choose|i: int| 0 <= i < held@.len() && held@[i] == button;
            }
        }
        false
    }
}

/// Puts `button` among `held`, unless it is there.
fn hold(held: &mut Vec<Button>, button: Button)
    ensures
        final(held)@.to_set() == old(held)@.to_set().insert(button),
{
    let mut i: usize = 0;
    while i < held.len()
        invariant
            i <= held.len(),
            held@ == old(held)@,
            forall|j: int| 0 <= j < i ==> held@[j] != button,
        decreases held.len() - i,
    {
        if held[i] == button {
            assert(held@.contains(button));
            assert(held@.to_set() =~= held@.to_set().insert(button));
            return ;
        }
        i = i + 1;
    }
    held.push(button);
    assert forall|b: Button| final(held)@.to_set().contains(b) <==> old(held)@.to_set().insert(
        button,
    ).contains(b) by {
        let before = old(held)@;
        let after = before.push(button);
        if before.contains(b) {
            let j = choose|j: int| 0 <= j < before.len() && before[j] == b;
            assert(after[j] == b);
        }
        if b == button {
            assert(after[before.len() as int] == b);
        }
        if after.contains(b) {
            let j = choose|j: int| 0 <= j < after.len() && after[j] == b;
            if j < before.len() {
                assert(before[j] == b);
            }
        }
    }
    assert(final(held)@.to_set() =~= old(held)@.to_set().insert(button));
}

/// `held` without `button`.
fn released(held: &Vec<Button>, button: Button) -> (rest: Vec<Button>)
    ensures
        rest@.to_set() == held@.to_set().remove(button),
{
    let mut rest: Vec<Button> = Vec::new();
    let mut i: usize = 0;
    while i < held.len()
        invariant
            i <= held.len(),
            forall|b: Button|
                rest@.contains(b) <==> (b != button && held@.take(i as int).contains(b)),
        decreases held.len() - i,
    {
        let ghost seen = held@.take(i as int);
        let ghost kept = rest@;
        let next = held[i];
        if next != button {
            rest.push(next);
        }
        assert forall|b: Button| rest@.contains(b) <==> (b != button && held@.take(
            i + 1,
        ).contains(b)) by {
            let more = held@.take(i + 1);
            assert(more.drop_last() =~= seen);
            assert(more.last() == next);
            if seen.contains(b) {
                let j = choose|j: int| 0 <= j < seen.len() && seen[j] == b;
                assert(more[j] == b);
            }
            if more.contains(b) {
                let j = choose|j: int| 0 <= j < more.len() && more[j] == b;
                if j < seen.len() {
                    assert(seen[j] == b);
                }
            }
            if kept.contains(b) {
                let j = choose|j: int| 0 <= j < kept.len() && kept[j] == b;
                assert(rest@[j] == b);
            }
            if rest@.contains(b) {
                let j = choose|j: int| 0 <= j < rest@.len() && rest@[j] == b;
                if j < kept.len() {
                    assert(kept[j] == b);
                }
            }
            if b == next && next != button {
                assert(rest@[kept.len() as int] == b);
                assert(more[i as int] == b);
            }
        }
        i = i + 1;
    }
    assert(held@.take(i as int) =~= held@);
    assert(rest@.to_set() =~= held@.to_set().remove(button));
    rest
}

/// Runs a capture over `input` and gives the finished recording, or nothing
/// where the stop gesture never came. What follows the gesture is ignored.
pub fn record(cfg: &Config, input: &Vec<Stamped>) -> (out: Option<RecordedEvents>)
    ensures
        match out {
            Some(recording) => {
                &&& run(cfg@, input@).stopped
                &&& recording@ == run(cfg@, input@).events
                &&& complete(recording@)
                &&& !stop_matched(recent_keys(recording@), cfg@.stop_keystrokes)
            },
            None => !run(cfg@, input@).stopped,
        },
{
    proof {
        if run(cfg@, input@).stopped {
            lemma_finished_recording(cfg@, input@);
        }
    }
    let mut recorder = Recorder::new(cfg.clone());
    let mut i: usize = 0;
    while i < input.len()
        invariant
            i <= input.len(),
            recorder.config() == cfg@,
            recorder@ == run(cfg@, input@.take(i as int)),
        decreases input.len() - i,
    {
        let stamped = input[i];
        recorder.notify(stamped.notification, stamped.at_ms);
        assert(input@.take(i + 1).drop_last() =~= input@.take(i as int));
        i = i + 1;
    }
    assert(input@.take(i as int) =~= input@);
    if recorder.is_stopped() {
        Some(recorder.recording())
    } else {
        None
    }
}

} // verus!
