//! The replay engine: from a recording to the actions that reproduce it.
//!
//! The engine decides, the caller acts. `Playback` hands out one action at a
//! time, a sleep or an input to inject, in the order in which they are due;
//! the caller performs it and asks for the next. When an injection fails the
//! caller says so, and the playback gives up the entry it belongs to and goes
//! on with the next one.

use vstd::prelude::*;
use vstd::string::*;
use crate::event::{Event, RecordedEvents};
use crate::keys::{Button, Key};

verus! {

/// How long to let the pointer settle, in milliseconds, between moving it and
/// acting on a button: some platforms press where the pointer is, not where
/// they are told.
pub const SETTLE_MS: u64 = 1;

/// An input to inject.
#[derive(Clone, Copy, Debug, PartialEq, Eq, Structural)]
pub enum Injection {
    KeyPress(Key),
    KeyRelease(Key),
    ButtonPress(Button),
    ButtonRelease(Button),
    /// Move the pointer to an absolute place.
    MouseMove { x: u64, y: u64 },
}

/// One thing for the caller to do.
#[derive(Clone, Copy, Debug, PartialEq, Eq, Structural)]
pub enum Action {
    /// Block for this many milliseconds.
    Sleep(u64),
    Inject(Injection),
}

/// The actions that reproduce one entry of a recording, in order. A button
/// acts where it was recorded: the pointer is moved there first and given
/// time to settle.
pub open spec fn actions_of(e: Event) -> Seq<Action> {
    match e {
        Event::KeyPress(key) => seq![Action::Inject(Injection::KeyPress(key))],
        Event::KeyRelease(key) => seq![Action::Inject(Injection::KeyRelease(key))],
        Event::MousePress(m) => seq![
            Action::Inject(Injection::MouseMove { x: m.x, y: m.y }),
            Action::Sleep(SETTLE_MS),
            Action::Inject(Injection::ButtonPress(m.button)),
        ],
        Event::MouseRelease(m) => seq![
            Action::Inject(Injection::MouseMove { x: m.x, y: m.y }),
            Action::Sleep(SETTLE_MS),
            Action::Inject(Injection::ButtonRelease(m.button)),
        ],
        Event::MouseMove(m) => seq![Action::Inject(Injection::MouseMove { x: m.x, y: m.y })],
        Event::Wait(ms) => seq![Action::Sleep(ms)],
    }
}

/// The actions that reproduce a recording once, entry by entry.
pub open spec fn plan(events: Seq<Event>) -> Seq<Action>
    decreases events.len(),
{
    if events.len() == 0 {
        Seq::empty()
    } else {
        actions_of(events.first()) + plan(events.drop_first())
    }
}

/// `p`, `times` times over.
pub open spec fn repeated(p: Seq<Action>, times: nat) -> Seq<Action>
    decreases times,
{
    if times == 0 {
        Seq::empty()
    } else {
        p + repeated(p, (times - 1) as nat)
    }
}

impl Event {
    /// The actions that reproduce this entry, in order.
    pub fn simulate(&self) -> (todo: Vec<Action>)
        ensures
            todo@ == actions_of(*self),
    {
        let mut todo = Vec::new();
        let mut i: usize = 0;
        let n = action_count(self);
        while i < n
            invariant
                i <= n,
                n == actions_of(*self).len(),
                todo@ == actions_of(*self).take(i as int),
            decreases n - i,
        {
            todo.push(action_at(self, i));
            assert(todo@ =~= actions_of(*self).take(i + 1));
            i = i + 1;
        }
        assert(todo@ =~= actions_of(*self));
        todo
    }
}

/// How many actions reproduce the entry.
fn action_count(e: &Event) -> (n: usize)
    ensures
        n == actions_of(*e).len(),
        n >= 1,
{
    match e {
        Event::MousePress(_) | Event::MouseRelease(_) => 3,
        _ => 1,
    }
}

/// The action at place `i` among those that reproduce the entry.
fn action_at(e: &Event, i: usize) -> (a: Action)
    requires
        i < actions_of(*e).len(),
    ensures
        a == actions_of(*e)[i as int],
{
    match e {
        Event::KeyPress(key) => Action::Inject(Injection::KeyPress(*key)),
        Event::KeyRelease(key) => Action::Inject(Injection::KeyRelease(*key)),
        Event::MousePress(m) => if i == 0 {
            Action::Inject(Injection::MouseMove { x: m.x, y: m.y })
        } else if i == 1 {
            Action::Sleep(SETTLE_MS)
        } else {
            Action::Inject(Injection::ButtonPress(m.button))
        },
        Event::MouseRelease(m) => if i == 0 {
            Action::Inject(Injection::MouseMove { x: m.x, y: m.y })
        } else if i == 1 {
            Action::Sleep(SETTLE_MS)
        } else {
            Action::Inject(Injection::ButtonRelease(m.button))
        },
        Event::MouseMove(m) => Action::Inject(Injection::MouseMove { x: m.x, y: m.y }),
        Event::Wait(ms) => Action::Sleep(*ms),
    }
}

/// Where a playback stands.
pub struct Cursor {
    /// The recording that is played.
    pub events: Seq<Event>,
    /// How many passes over the recording are not done yet, the one in
    /// progress among them.
    pub passes_left: nat,
    /// The entry that the pass in progress has come to.
    pub index: nat,
    /// How many actions of that entry have been handed out.
    pub sub: nat,
    /// How many injections the caller has reported as failed.
    pub failures: nat,
}

/// The cursor points into the recording.
pub open spec fn in_bounds(c: Cursor) -> bool {
    &&& c.index <= c.events.len()
    &&& if c.index < c.events.len() {
        c.sub <= actions_of(c.events[c.index as int]).len()
    } else {
        c.sub == 0
    }
}

/// The actions that are still due, in order.
pub open spec fn pending(c: Cursor) -> Seq<Action> {
    if c.passes_left == 0 {
        Seq::empty()
    } else {
        let rest_of_pass = if c.index < c.events.len() {
            actions_of(c.events[c.index as int]).skip(c.sub as int) + plan(
                c.events.skip(c.index as int + 1),
            )
        } else {
            Seq::empty()
        };
        rest_of_pass + repeated(plan(c.events), (c.passes_left - 1) as nat)
    }
}

/// The cursor moved on to the entry and the pass that the next action comes
/// from: past an entry whose actions are all handed out, and from the end of
/// a pass to the start of the next.
pub open spec fn settled(c: Cursor) -> Cursor {
    if c.passes_left == 0 || c.events.len() == 0 {
        c
    } else {
        let c = if c.index < c.events.len() && c.sub >= actions_of(c.events[c.index as int]).len() {
            Cursor { index: c.index + 1, sub: 0, ..c }
        } else {
            c
        };
        if c.index >= c.events.len() {
            Cursor { passes_left: (c.passes_left - 1) as nat, index: 0, sub: 0, ..c }
        } else {
            c
        }
    }
}

/// Whether nothing is left to hand out, for a settled cursor.
pub open spec fn exhausted(c: Cursor) -> bool {
    c.passes_left == 0 || c.events.len() == 0
}

/// The cursor after the next action has been handed out; where nothing is
/// left, the settled cursor.
pub open spec fn advanced(c: Cursor) -> Cursor {
    let c = settled(c);
    if exhausted(c) {
        c
    } else {
        Cursor { sub: c.sub + 1, ..c }
    }
}

/// The action that is handed out next, if one is left.
pub open spec fn upcoming(c: Cursor) -> Option<Action> {
    let c = settled(c);
    if exhausted(c) {
        None
    } else {
        Some(actions_of(c.events[c.index as int])[c.sub as int])
    }
}

/// The cursor after a failed injection: the entry in progress is given up,
/// and the failure is counted, as far as the counter goes.
pub open spec fn abandoned(c: Cursor) -> Cursor {
    let failures = if c.failures < usize::MAX {
        c.failures + 1
    } else {
        c.failures
    };
    if c.index < c.events.len() && c.sub > 0 {
        Cursor { index: c.index + 1, sub: 0, failures, ..c }
    } else {
        Cursor { failures, ..c }
    }
}

/// Why a stored recording could not be had.
#[derive(Clone, Debug, PartialEq, Eq)]
pub enum DecodeError {
    /// No recording of that name could be read.
    Unreadable,
    /// The stored text is not a recording. It comes with the decoder's words.
    Malformed(String),
}

/// What is reported when the recording called `name` could not be had: the
/// name and the cause.
pub open spec fn diagnostic(name: Seq<char>, error: DecodeError) -> Seq<char> {
    match error {
        DecodeError::Unreadable => "macro \""@ + name + "\" not found"@,
        DecodeError::Malformed(cause) => "failed to decode macro \""@ + name + "\": "@ + cause@,
    }
}

impl DecodeError {
    /// The report for the recording called `name`.
    pub fn describe(&self, name: &str) -> (report: String)
        ensures
            report@ == diagnostic(name@, *self),
    {
        match self {
            DecodeError::Unreadable => {
                let mut report = "macro \"".to_owned();
                report.append(name);
                report.append("\" not found");
                report
            },
            DecodeError::Malformed(cause) => {
                let mut report = "failed to decode macro \"".to_owned();
                report.append(name);
                report.append("\": ");
                report.append(cause.as_str());
                report
            },
        }
    }
}

/// How a replay begins.
#[derive(Debug)]
pub enum Replay {
    /// There is nothing to replay; with the report of why.
    NothingToReplay(String),
    /// The recording is at hand and the replay can go ahead.
    Ready(Playback),
}

/// Begins the replay of the recording called `name`, `repeat` times over,
/// from what reading and decoding it gave. A recording that could not be had
/// is no failure of the caller's: there is nothing to replay, and the report
/// says why.
pub fn start_playback(
    name: &str,
    stored: Result<RecordedEvents, DecodeError>,
    repeat: usize,
) -> (replay: Replay)
    ensures
        match stored {
            Ok(recording) => replay matches Replay::Ready(playback) && playback@ == (Cursor {
                events: recording@,
                passes_left: repeat as nat,
                index: 0,
                sub: 0,
                failures: 0,
            }) && in_bounds(playback@) && pending(playback@) == repeated(
                plan(recording@),
                repeat as nat,
            ),
            Err(error) => replay matches Replay::NothingToReplay(report) && report@ == diagnostic(
                name@,
                error,
            ),
        },
{
    match stored {
        Ok(recording) => Replay::Ready(Playback::new(recording, repeat)),
        Err(error) => Replay::NothingToReplay(error.describe(name)),
    }
}

/// A replay of a recording, some number of times over.
#[derive(Debug)]
pub struct Playback {
    events: Vec<Event>,
    passes_left: usize,
    index: usize,
    sub: usize,
    failures: usize,
}

impl View for Playback {
    type V = Cursor;

    closed spec fn view(&self) -> Cursor {
        Cursor {
            events: self.events@,
            passes_left: self.passes_left as nat,
            index: self.index as nat,
            sub: self.sub as nat,
            failures: self.failures as nat,
        }
    }
}

impl Playback {
    /// A replay of `recording`, `repeat` times over, with nothing done yet.
    /// Each pass starts afresh: no timing is carried from one pass to the next.
    pub fn new(recording: RecordedEvents, repeat: usize) -> (playback: Playback)
        ensures
            playback@ == (Cursor {
                events: recording@,
                passes_left: repeat as nat,
                index: 0,
                sub: 0,
                failures: 0,
            }),
            in_bounds(playback@),
            pending(playback@) == repeated(plan(recording@), repeat as nat),
    {
        let playback = Playback {
            events: recording.events,
            passes_left: repeat,
            index: 0,
            sub: 0,
            failures: 0,
        };
        proof {
            lemma_pending_at_start(playback@);
        }
        playback
    }

    /// Hands out the next action, or nothing when the replay is done.
    pub fn next(&mut self) -> (action: Option<Action>)
        ensures
            final(self)@ == advanced(old(self)@),
            action == upcoming(old(self)@),
            in_bounds(old(self)@) ==> in_bounds(final(self)@),
            in_bounds(old(self)@) ==> match action {
                Some(a) => pending(old(self)@).len() > 0 && a == pending(old(self)@)[0] && pending(
                    final(self)@,
                ) == pending(old(self)@).skip(1),
                None => pending(old(self)@).len() == 0 && pending(final(self)@).len() == 0,
            },
    {
        proof {
            lemma_next(self@);
        }
        let len = self.events.len();
        if self.passes_left == 0 || len == 0 {
            return None;
        }
        if self.index < len && self.sub >= action_count(&self.events[self.index]) {
            self.index = self.index + 1;
            self.sub = 0;
        }
        if self.index >= len {
            self.passes_left = self.passes_left - 1;
            self.index = 0;
            self.sub = 0;
        }
        if self.passes_left == 0 {
            return None;
        }
        let action = action_at(&self.events[self.index], self.sub);
        self.sub = self.sub + 1;
        Some(action)
    }

    /// Takes note that the injection handed out last has failed. The rest of
    /// the entry it belongs to is given up; the replay goes on with the next
    /// entry.
    pub fn injection_failed(&mut self)
        ensures
            final(self)@ == abandoned(old(self)@),
            in_bounds(old(self)@) ==> in_bounds(final(self)@),
            in_bounds(old(self)@) ==> pending(final(self)@) == pending(old(self)@).skip(
                skipped_by_failure(old(self)@) as int,
            ),
    {
        proof {
            lemma_abandoned(self@);
        }
        if self.index < self.events.len() && self.sub > 0 {
            self.index = self.index + 1;
            self.sub = 0;
        }
        if self.failures < usize::MAX {
            self.failures = self.failures + 1;
        }
    }

    /// How many injections have been reported as failed.
    pub fn failures(&self) -> (n: usize)
        ensures
            n == self@.failures,
    {
        self.failures
    }

    /// Whether the replay is done.
    pub fn is_done(&self) -> (done: bool)
        ensures
            done == (upcoming(self@) is None),
            in_bounds(self@) ==> done == (pending(self@).len() == 0),
    {
        proof {
            lemma_next(self@);
        }
        let len = self.events.len();
        if self.passes_left == 0 || len == 0 {
            return true;
        }
        let past_entry = self.index < len && self.sub >= action_count(&self.events[self.index]);
        let at_end = self.index >= len || (past_entry && self.index + 1 >= len);
        at_end && self.passes_left == 1
    }
}

/// How many of the pending actions a failure gives up: what is left of the
/// entry in progress.
pub open spec fn skipped_by_failure(c: Cursor) -> nat {
    if c.passes_left > 0 && c.index < c.events.len() && c.sub > 0 {
        (actions_of(c.events[c.index as int]).len() - c.sub) as nat
    } else {
        0
    }
}

/// A plan is the first entry's actions followed by the plan of the rest.
proof fn lemma_plan_skip(events: Seq<Event>, i: int)
    requires
        0 <= i < events.len(),
    ensures
        plan(events.skip(i)) == actions_of(events[i]) + plan(events.skip(i + 1)),
{
    let tail = events.skip(i);
    assert(tail.first() == events[i]);
    assert(tail.drop_first() =~= events.skip(i + 1));
}

/// An empty plan, however often repeated, is empty.
proof fn lemma_repeated_empty(times: nat)
    ensures
        repeated(Seq::empty(), times) == Seq::<Action>::empty(),
    decreases times,
{
    if times > 0 {
        lemma_repeated_empty((times - 1) as nat);
        assert(Seq::<Action>::empty() + Seq::<Action>::empty() =~= Seq::<Action>::empty());
    }
}

proof fn lemma_pending_at_start(c: Cursor)
    requires
        c.index == 0,
        c.sub == 0,
    ensures
        in_bounds(c),
        pending(c) == repeated(plan(c.events), c.passes_left),
{
    if c.passes_left > 0 {
        if c.events.len() > 0 {
            lemma_plan_skip(c.events, 0);
            assert(c.events.skip(0) =~= c.events);
            assert(actions_of(c.events[0]).skip(0) =~= actions_of(c.events[0]));
        } else {
            assert(plan(c.events) =~= Seq::<Action>::empty());
            lemma_repeated_empty(c.passes_left);
            lemma_repeated_empty((c.passes_left - 1) as nat);
        }
    }
}

proof fn lemma_settled(c: Cursor)
    requires
        in_bounds(c),
    ensures
        in_bounds(settled(c)),
        pending(settled(c)) == pending(c),
        !exhausted(settled(c)) ==> settled(c).index < c.events.len() && settled(c).sub < actions_of(
            c.events[settled(c).index as int],
        ).len(),
        exhausted(settled(c)) ==> pending(c).len() == 0,
        settled(c).events == c.events,
        settled(c).failures == c.failures,
{
    let len = c.events.len();
    if c.passes_left == 0 {
    } else if len == 0 {
        assert(plan(c.events) =~= Seq::<Action>::empty());
        lemma_repeated_empty((c.passes_left - 1) as nat);
    } else {
        let c1 = if c.index < len && c.sub >= actions_of(c.events[c.index as int]).len() {
            Cursor { index: c.index + 1, sub: 0, ..c }
        } else {
            c
        };
        assert(in_bounds(c1));
        assert(pending(c1) =~= pending(c)) by {
            if c.index < len && c.sub >= actions_of(c.events[c.index as int]).len() {
                assert(actions_of(c.events[c.index as int]).skip(c.sub as int) =~= Seq::<
                    Action,
                >::empty());
                if c.index + 1 < len {
                    lemma_plan_skip(c.events, c.index as int + 1);
                    assert(actions_of(c.events[c.index as int + 1]).skip(0) =~= actions_of(
                        c.events[c.index as int + 1],
                    ));
                } else {
                    assert(c.events.skip(c.index as int + 1) =~= Seq::<Event>::empty());
                }
            }
        }
        if c1.index >= len {
            let c2 = Cursor { passes_left: (c1.passes_left - 1) as nat, index: 0, sub: 0, ..c1 };
            assert(pending(c1) =~= repeated(plan(c.events), (c1.passes_left - 1) as nat));
            lemma_pending_at_start(c2);
        }
    }
}

proof fn lemma_next(c: Cursor)
    ensures
        in_bounds(c) ==> in_bounds(advanced(c)),
        in_bounds(c) ==> match upcoming(c) {
            Some(a) => pending(c).len() > 0 && a == pending(c)[0] && pending(advanced(c))
                == pending(c).skip(1),
            None => pending(c).len() == 0 && pending(advanced(c)).len() == 0,
        },
{
    if in_bounds(c) {
        lemma_settled(c);
        let s = settled(c);
        if !exhausted(s) {
            let acts = actions_of(s.events[s.index as int]);
            let n = Cursor { sub: s.sub + 1, ..s };
            let rest = plan(s.events.skip(s.index as int + 1)) + repeated(
                plan(s.events),
                (s.passes_left - 1) as nat,
            );
            assert(pending(s) =~= acts.skip(s.sub as int) + rest);
            assert(pending(n) =~= acts.skip(s.sub as int + 1) + rest);
            assert(pending(n) =~= pending(s).skip(1));
            assert(pending(s)[0] == acts[s.sub as int]);
        }
    }
}

proof fn lemma_abandoned(c: Cursor)
    ensures
        in_bounds(c) ==> in_bounds(abandoned(c)),
        in_bounds(c) ==> pending(abandoned(c)) == pending(c).skip(skipped_by_failure(c) as int),
{
    if in_bounds(c) {
        let a = abandoned(c);
        if c.index < c.events.len() && c.sub > 0 {
            if c.passes_left > 0 {
                let acts = actions_of(c.events[c.index as int]);
                let later = repeated(plan(c.events), (c.passes_left - 1) as nat);
                if c.index + 1 < c.events.len() {
                    lemma_plan_skip(c.events, c.index as int + 1);
                    assert(actions_of(c.events[c.index as int + 1]).skip(0) =~= actions_of(
                        c.events[c.index as int + 1],
                    ));
                    assert(pending(a) =~= plan(c.events.skip(c.index as int + 1)) + later);
                } else {
                    assert(c.events.skip(c.index as int + 1) =~= Seq::<Event>::empty());
                    assert(pending(a) =~= later);
                }
                let rest = plan(c.events.skip(c.index as int + 1));
                assert(pending(c) =~= acts.skip(c.sub as int) + rest + later);
                assert(pending(a) =~= pending(c).skip(acts.len() - c.sub));
            } else {
                assert(pending(a) =~= pending(c).skip(0));
            }
        } else {
            assert(pending(a) =~= pending(c).skip(0));
        }
    }
}

} // verus!
