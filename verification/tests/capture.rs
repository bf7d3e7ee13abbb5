use macronizer::capture::{record, Notification, Outcome, Point, RawEvent, Recorder, Stamped};
use macronizer::config::{Config, WaitStrategy};
use macronizer::event::{Event, MouseEventButton, MouseEventMove};
use macronizer::keys::{Button, Key};

fn config(stop: Vec<Key>, wait_strategy: WaitStrategy, moves: bool, initial: u64) -> Config {
    Config {
        stop_keystrokes: stop,
        wait_strategy,
        countdown_seconds: 3,
        record_non_drag_mouse_moves: moves,
        recording_initial_wait_ms: initial,
    }
}

fn at(notification: Notification, at_ms: u64) -> Stamped {
    Stamped { notification, at_ms }
}

fn point(x: f64, y: f64) -> Point {
    Point { x: x.to_bits(), y: y.to_bits() }
}

fn is_wait(e: &Event) -> bool {
    matches!(e, Event::Wait(_))
}

#[test]
fn escape_three_times_ends_the_capture_and_leaves_no_trace() {
    let cfg = config(
        vec![Key::Escape, Key::Escape, Key::Escape],
        WaitStrategy::ConstantMS(100),
        false,
        100,
    );
    let input = vec![
        at(Notification::KeyDown(Key::KeyA), 10),
        at(Notification::KeyUp(Key::KeyA), 20),
        at(Notification::KeyDown(Key::Escape), 30),
        at(Notification::KeyDown(Key::Escape), 40),
        at(Notification::KeyDown(Key::Escape), 50),
    ];
    let recording = record(&cfg, &input).expect("the stop gesture was typed");
    assert_eq!(
        recording.events,
        vec![
            Event::Wait(100),
            Event::KeyPress(Key::KeyA),
            Event::Wait(100),
            Event::KeyRelease(Key::KeyA),
        ]
    );
}

#[test]
fn a_capture_starts_with_the_initial_wait_alone() {
    let recorder = Recorder::new(config(vec![Key::Escape], WaitStrategy::Actual, false, 250));
    assert!(!recorder.is_stopped());
    assert_eq!(recorder.recording().events, vec![Event::Wait(250)]);
}

#[test]
fn the_first_action_follows_the_initial_wait_under_either_strategy() {
    for strategy in [WaitStrategy::Actual, WaitStrategy::ConstantMS(50)] {
        let mut recorder = Recorder::new(config(vec![Key::Escape], strategy, false, 300));
        assert_eq!(recorder.notify(Notification::KeyDown(Key::KeyQ), 7_000), Outcome::Recorded);
        assert_eq!(
            recorder.recording().events,
            vec![Event::Wait(300), Event::KeyPress(Key::KeyQ)]
        );
    }
}

#[test]
fn constant_strategy_ignores_the_clock() {
    let mut recorder =
        Recorder::new(config(vec![Key::Escape], WaitStrategy::ConstantMS(50), false, 100));
    recorder.notify(Notification::KeyDown(Key::KeyA), 0);
    recorder.notify(Notification::KeyUp(Key::KeyA), 5);
    recorder.notify(Notification::KeyDown(Key::KeyB), 90_000);
    recorder.notify(Notification::KeyUp(Key::KeyB), 90_001);
    assert_eq!(
        recorder.recording().events,
        vec![
            Event::Wait(100),
            Event::KeyPress(Key::KeyA),
            Event::Wait(50),
            Event::KeyRelease(Key::KeyA),
            Event::Wait(50),
            Event::KeyPress(Key::KeyB),
            Event::Wait(50),
            Event::KeyRelease(Key::KeyB),
        ]
    );
}

#[test]
fn actual_strategy_measures_the_gap() {
    let mut recorder = Recorder::new(config(vec![Key::Escape], WaitStrategy::Actual, false, 100));
    recorder.notify(Notification::KeyDown(Key::KeyA), 1_000);
    recorder.notify(Notification::KeyUp(Key::KeyA), 1_120);
    let events = recorder.recording().events;
    assert_eq!(
        events,
        vec![
            Event::Wait(100),
            Event::KeyPress(Key::KeyA),
            Event::Wait(120),
            Event::KeyRelease(Key::KeyA),
        ]
    );
    match events[2] {
        Event::Wait(ms) => assert!((105..=135).contains(&ms)),
        _ => panic!("a wait stands in front of the release"),
    }
}

#[test]
fn actual_strategy_measures_from_the_last_recorded_action() {
    let mut recorder = Recorder::new(config(vec![Key::Escape], WaitStrategy::Actual, false, 100));
    recorder.notify(Notification::KeyDown(Key::KeyA), 1_000);
    assert_eq!(recorder.notify(Notification::MouseMoved(point(1.0, 1.0)), 1_050), Outcome::Dropped);
    assert_eq!(recorder.notify(Notification::Other, 1_060), Outcome::Dropped);
    recorder.notify(Notification::KeyUp(Key::KeyA), 1_200);
    assert_eq!(
        recorder.recording().events,
        vec![
            Event::Wait(100),
            Event::KeyPress(Key::KeyA),
            Event::Wait(200),
            Event::KeyRelease(Key::KeyA),
        ]
    );
}

#[test]
fn a_clock_that_ran_backwards_gives_no_wait_at_all() {
    let mut recorder = Recorder::new(config(vec![Key::Escape], WaitStrategy::Actual, false, 100));
    recorder.notify(Notification::KeyDown(Key::KeyA), 500);
    recorder.notify(Notification::KeyUp(Key::KeyA), 400);
    assert_eq!(recorder.recording().events[2], Event::Wait(0));
}

#[test]
fn a_move_with_no_button_held_is_dropped() {
    let mut recorder =
        Recorder::new(config(vec![Key::Escape], WaitStrategy::ConstantMS(10), false, 100));
    let before = recorder.recording();
    assert_eq!(recorder.notify(Notification::MouseMoved(point(3.0, 4.0)), 9), Outcome::Dropped);
    assert_eq!(recorder.recording(), before);
}

#[test]
fn a_move_with_a_button_held_is_recorded_once() {
    let mut recorder =
        Recorder::new(config(vec![Key::Escape], WaitStrategy::ConstantMS(10), false, 100));
    recorder.notify(Notification::MouseButtonDown(point(1.0, 2.0), Button::Left), 1);
    let before = recorder.recording().events;
    assert_eq!(recorder.notify(Notification::MouseMoved(point(3.0, 4.0)), 2), Outcome::Recorded);
    let after = recorder.recording().events;
    assert_eq!(after.len(), before.len() + 2);
    assert_eq!(after[..before.len()], before[..]);
    assert_eq!(after[before.len()], Event::Wait(10));
    assert_eq!(
        after[before.len() + 1],
        Event::MouseMove(MouseEventMove { x: 3.0f64.to_bits(), y: 4.0f64.to_bits() })
    );
    recorder.notify(Notification::MouseButtonUp(point(3.0, 4.0), Button::Left), 3);
    assert_eq!(recorder.notify(Notification::MouseMoved(point(5.0, 6.0)), 4), Outcome::Dropped);
}

#[test]
fn a_drag_goes_on_while_another_button_comes_and_goes() {
    let cfg = config(vec![Key::Escape], WaitStrategy::ConstantMS(10), false, 100);
    let here = point(1.0, 2.0);
    let input = vec![
        at(Notification::MouseButtonDown(here, Button::Left), 1),
        at(Notification::MouseButtonDown(here, Button::Right), 2),
        at(Notification::MouseButtonUp(here, Button::Right), 3),
        at(Notification::MouseMoved(point(3.0, 4.0)), 4),
        at(Notification::KeyDown(Key::Escape), 5),
    ];
    let pressed = |button| {
        Event::MousePress(MouseEventButton { x: 1.0f64.to_bits(), y: 2.0f64.to_bits(), button })
    };
    let right_up = Event::MouseRelease(MouseEventButton {
        x: 1.0f64.to_bits(),
        y: 2.0f64.to_bits(),
        button: Button::Right,
    });
    assert_eq!(
        record(&cfg, &input).unwrap().events,
        vec![
            Event::Wait(100),
            pressed(Button::Left),
            Event::Wait(10),
            pressed(Button::Right),
            Event::Wait(10),
            right_up,
            Event::Wait(10),
            Event::MouseMove(MouseEventMove { x: 3.0f64.to_bits(), y: 4.0f64.to_bits() }),
        ]
    );
}

#[test]
fn a_move_is_dropped_once_every_button_is_up_again() {
    let mut recorder =
        Recorder::new(config(vec![Key::Escape], WaitStrategy::ConstantMS(10), false, 100));
    let here = point(1.0, 2.0);
    recorder.notify(Notification::MouseButtonDown(here, Button::Left), 1);
    recorder.notify(Notification::MouseButtonDown(here, Button::Left), 2);
    recorder.notify(Notification::MouseButtonDown(here, Button::Middle), 3);
    recorder.notify(Notification::MouseButtonUp(here, Button::Middle), 4);
    assert_eq!(recorder.notify(Notification::MouseMoved(here), 5), Outcome::Recorded);
    recorder.notify(Notification::MouseButtonUp(here, Button::Left), 6);
    assert_eq!(recorder.notify(Notification::MouseMoved(here), 7), Outcome::Dropped);
    let stray = Notification::MouseButtonUp(here, Button::Right);
    assert_eq!(recorder.notify(stray, 8), Outcome::Recorded);
    assert_eq!(recorder.notify(Notification::MouseMoved(here), 9), Outcome::Dropped);
}

#[test]
fn every_move_is_recorded_when_asked_for() {
    let mut recorder =
        Recorder::new(config(vec![Key::Escape], WaitStrategy::ConstantMS(10), true, 100));
    assert_eq!(recorder.notify(Notification::MouseMoved(point(3.0, 4.0)), 9), Outcome::Recorded);
    assert_eq!(
        recorder.recording().events,
        vec![
            Event::Wait(100),
            Event::MouseMove(MouseEventMove { x: 3.0f64.to_bits(), y: 4.0f64.to_bits() }),
        ]
    );
}

#[test]
fn other_notifications_leave_no_trace_and_keep_the_gesture_alive() {
    let mut recorder = Recorder::new(config(
        vec![Key::KeyA, Key::KeyB],
        WaitStrategy::ConstantMS(10),
        false,
        100,
    ));
    recorder.notify(Notification::KeyDown(Key::KeyA), 1);
    assert_eq!(recorder.notify(Notification::Other, 2), Outcome::Dropped);
    assert_eq!(recorder.notify(Notification::KeyDown(Key::KeyB), 3), Outcome::Finished);
}

#[test]
fn a_dropped_move_keeps_the_gesture_alive() {
    let mut recorder = Recorder::new(config(
        vec![Key::KeyA, Key::KeyB],
        WaitStrategy::ConstantMS(10),
        false,
        100,
    ));
    recorder.notify(Notification::KeyDown(Key::KeyA), 1);
    assert_eq!(recorder.notify(Notification::MouseMoved(point(1.0, 1.0)), 2), Outcome::Dropped);
    assert_eq!(recorder.notify(Notification::KeyDown(Key::KeyB), 3), Outcome::Finished);
}

#[test]
fn a_mouse_action_breaks_a_gesture_in_progress() {
    let mut recorder = Recorder::new(config(
        vec![Key::KeyA, Key::KeyB],
        WaitStrategy::ConstantMS(10),
        false,
        100,
    ));
    recorder.notify(Notification::KeyDown(Key::KeyA), 1);
    recorder.notify(Notification::MouseButtonDown(point(0.0, 0.0), Button::Right), 2);
    assert_eq!(recorder.notify(Notification::KeyDown(Key::KeyB), 3), Outcome::Recorded);
    assert!(!recorder.is_stopped());
    assert_eq!(recorder.recording().events.len(), 6);
}

#[test]
fn a_key_release_does_not_break_a_gesture_in_progress() {
    let mut recorder = Recorder::new(config(
        vec![Key::KeyA, Key::KeyB],
        WaitStrategy::ConstantMS(10),
        false,
        100,
    ));
    recorder.notify(Notification::KeyDown(Key::KeyX), 1);
    recorder.notify(Notification::KeyUp(Key::KeyX), 2);
    recorder.notify(Notification::KeyDown(Key::KeyA), 3);
    recorder.notify(Notification::KeyUp(Key::KeyA), 4);
    assert_eq!(recorder.notify(Notification::KeyDown(Key::KeyB), 5), Outcome::Finished);
    assert_eq!(
        recorder.recording().events,
        vec![
            Event::Wait(100),
            Event::KeyPress(Key::KeyX),
            Event::Wait(10),
            Event::KeyRelease(Key::KeyX),
        ]
    );
}

#[test]
fn the_finished_recording_has_no_trailing_gesture_and_no_orphan_wait() {
    let cfg = config(vec![Key::KeyA, Key::KeyB], WaitStrategy::ConstantMS(10), false, 100);
    let input = vec![
        at(Notification::KeyDown(Key::KeyQ), 1),
        at(Notification::KeyDown(Key::KeyX), 2),
        at(Notification::KeyDown(Key::KeyA), 3),
        at(Notification::KeyDown(Key::KeyB), 4),
    ];
    let recording = record(&cfg, &input).expect("the stop gesture was typed");
    assert_eq!(
        recording.events,
        vec![
            Event::Wait(100),
            Event::KeyPress(Key::KeyQ),
            Event::Wait(10),
            Event::KeyPress(Key::KeyX),
        ]
    );
    assert!(!is_wait(recording.events.last().unwrap()));
    assert!(!recording.events.contains(&Event::KeyPress(Key::KeyA)));
    assert!(!recording.events.contains(&Event::KeyPress(Key::KeyB)));
}

#[test]
fn a_gesture_typed_at_once_leaves_an_empty_recording() {
    let cfg = config(vec![Key::Escape], WaitStrategy::Actual, false, 100);
    let input = vec![at(Notification::KeyDown(Key::Escape), 1)];
    assert_eq!(record(&cfg, &input).unwrap().events, vec![]);
}

#[test]
fn without_stop_keys_a_capture_never_ends() {
    let cfg = config(vec![], WaitStrategy::ConstantMS(10), false, 100);
    let input = vec![
        at(Notification::KeyDown(Key::Escape), 1),
        at(Notification::Other, 2),
        at(Notification::KeyUp(Key::Escape), 3),
    ];
    assert_eq!(record(&cfg, &input), None);
    let mut recorder = Recorder::new(cfg);
    assert_eq!(recorder.notify(Notification::Other, 1), Outcome::Dropped);
    assert_eq!(recorder.notify(Notification::KeyDown(Key::Escape), 2), Outcome::Recorded);
    assert!(!recorder.is_stopped());
}

#[test]
fn a_stream_without_the_gesture_gives_no_recording() {
    let cfg = config(vec![Key::Escape, Key::Escape], WaitStrategy::ConstantMS(10), false, 100);
    let input = vec![
        at(Notification::KeyDown(Key::Escape), 1),
        at(Notification::KeyDown(Key::KeyA), 2),
        at(Notification::KeyDown(Key::Escape), 3),
    ];
    assert_eq!(record(&cfg, &input), None);
    assert_eq!(record(&cfg, &vec![]), None);
}

#[test]
fn what_follows_the_gesture_is_ignored() {
    let cfg = config(vec![Key::Escape], WaitStrategy::ConstantMS(10), false, 100);
    let mut recorder = Recorder::new(cfg);
    recorder.notify(Notification::KeyDown(Key::KeyA), 1);
    assert_eq!(recorder.notify(Notification::KeyDown(Key::Escape), 2), Outcome::Finished);
    assert!(recorder.is_stopped());
    let finished = recorder.recording();
    assert_eq!(recorder.notify(Notification::KeyDown(Key::KeyB), 3), Outcome::Ignored);
    assert_eq!(recorder.notify(Notification::Other, 4), Outcome::Ignored);
    assert_eq!(recorder.recording(), finished);
    assert_eq!(finished.events, vec![Event::Wait(100), Event::KeyPress(Key::KeyA)]);
}

#[test]
fn a_recording_in_progress_alternates_waits_and_actions() {
    let mut recorder = Recorder::new(config(vec![Key::Escape], WaitStrategy::Actual, true, 100));
    let notes = [
        Notification::KeyDown(Key::KeyA),
        Notification::Other,
        Notification::MouseMoved(point(1.0, 2.0)),
        Notification::MouseButtonDown(point(1.0, 2.0), Button::Left),
        Notification::MouseButtonUp(point(1.0, 2.0), Button::Left),
        Notification::KeyUp(Key::KeyA),
    ];
    for (i, n) in notes.iter().enumerate() {
        recorder.notify(*n, 10 * i as u64);
        let events = recorder.recording().events;
        assert!(is_wait(&events[0]));
        for pair in events.windows(2) {
            assert!(!(is_wait(&pair[0]) && is_wait(&pair[1])));
        }
        for (j, e) in events.iter().enumerate() {
            assert_eq!(is_wait(e), j % 2 == 0);
        }
    }
}

#[test]
fn a_button_is_recorded_where_the_notification_puts_it() {
    let mut recorder =
        Recorder::new(config(vec![Key::Escape], WaitStrategy::ConstantMS(10), false, 100));
    recorder.notify(Notification::MouseMoved(point(7.0, 8.0)), 1);
    recorder.notify(Notification::MouseButtonDown(point(10.0, 20.0), Button::Middle), 2);
    assert_eq!(
        recorder.recording().events,
        vec![
            Event::Wait(100),
            Event::MousePress(MouseEventButton {
                x: 10.0f64.to_bits(),
                y: 20.0f64.to_bits(),
                button: Button::Middle,
            }),
        ]
    );
}

#[test]
fn a_raw_button_acts_where_the_pointer_was_last_seen() {
    let mut recorder =
        Recorder::new(config(vec![Key::Escape], WaitStrategy::ConstantMS(10), false, 100));
    assert_eq!(recorder.observe(RawEvent::ButtonPress(Button::Left), 1), Outcome::Recorded);
    assert_eq!(recorder.observe(RawEvent::ButtonRelease(Button::Left), 2), Outcome::Recorded);
    let moved = RawEvent::MouseMove { x: 30.5f64.to_bits(), y: 40.25f64.to_bits() };
    assert_eq!(recorder.observe(moved, 3), Outcome::Dropped);
    assert_eq!(recorder.observe(RawEvent::Wheel { delta_x: 0, delta_y: -1 }, 4), Outcome::Dropped);
    assert_eq!(recorder.observe(RawEvent::ButtonPress(Button::Unknown(8)), 5), Outcome::Recorded);
    assert_eq!(recorder.observe(RawEvent::KeyPress(Key::Unknown(300)), 6), Outcome::Recorded);
    assert_eq!(recorder.observe(RawEvent::KeyRelease(Key::Unknown(300)), 7), Outcome::Recorded);
    let origin = MouseEventButton { x: 0, y: 0, button: Button::Left };
    assert_eq!(0.0f64.to_bits(), 0);
    assert_eq!(
        recorder.recording().events,
        vec![
            Event::Wait(100),
            Event::MousePress(origin),
            Event::Wait(10),
            Event::MouseRelease(origin),
            Event::Wait(10),
            Event::MousePress(MouseEventButton {
                x: 30.5f64.to_bits(),
                y: 40.25f64.to_bits(),
                button: Button::Unknown(8),
            }),
            Event::Wait(10),
            Event::KeyPress(Key::Unknown(300)),
            Event::Wait(10),
            Event::KeyRelease(Key::Unknown(300)),
        ]
    );
}
