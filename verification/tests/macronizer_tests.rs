use macronizer::capture::{Notification, Outcome, Point, Recorder};
use macronizer::config::Config;
use macronizer::keys::{Button, Key};
use macronizer::macronizer::{
    start_playback, Event, MouseEventButton, MouseEventMove, RecordedEvents,
};
use macronizer::replay::{Action, DecodeError, Injection, Replay};
use std::cell::RefCell;

const MOCK_KEY: Key = Key::Unknown(0);

/// Stands where the input source and the input sink would: it types what it
/// is told to, and notes what it is asked to inject.
struct MockListener {
    triggered: RefCell<Vec<(String, String)>>,
    waited: RefCell<Vec<u64>>,
}

fn key_name(key: Key) -> String {
    if key == MOCK_KEY {
        "MockKey".to_string()
    } else {
        format!("{:?}", key)
    }
}

fn button_name(button: Button) -> String {
    match button {
        Button::Left => "Button1".to_string(),
        Button::Middle => "Button2".to_string(),
        Button::Right => "Button3".to_string(),
        Button::Unknown(n) => format!("Button{}", n),
    }
}

fn button_named(name: &str) -> Button {
    match name {
        "Button1" => Button::Left,
        "Button2" => Button::Middle,
        "Button3" => Button::Right,
        _ => panic!("no such button"),
    }
}

impl MockListener {
    fn new() -> Self {
        MockListener { triggered: RefCell::new(Vec::new()), waited: RefCell::new(Vec::new()) }
    }

    fn note(&self, kind: &str, detail: &str) {
        self.triggered.borrow_mut().push((kind.to_string(), detail.to_string()));
    }

    fn perform(&self, action: Action) {
        match action {
            Action::Sleep(ms) => self.waited.borrow_mut().push(ms),
            Action::Inject(Injection::KeyPress(key)) => self.note("KeyPress", &key_name(key)),
            Action::Inject(Injection::KeyRelease(key)) => self.note("KeyRelease", &key_name(key)),
            Action::Inject(Injection::ButtonPress(b)) => self.note("ButtonPress", &button_name(b)),
            Action::Inject(Injection::ButtonRelease(b)) => {
                self.note("ButtonRelease", &button_name(b))
            }
            Action::Inject(Injection::MouseMove { x, y }) => {
                self.note("MouseMove", &format!("{}-{}", f64::from_bits(x), f64::from_bits(y)))
            }
        }
    }

    fn was_event_triggered(&self, kind: &str, detail: &str) -> bool {
        self.triggered.borrow().iter().any(|(k, d)| k == kind && d == detail)
    }

    fn was_wait_condition_met(&self) -> bool {
        !self.waited.borrow().is_empty()
    }

    fn get_triggered_events_len(&self) -> usize {
        self.triggered.borrow().len()
    }
}

/// Types the mock key, clicks and drags, then types the stop gesture.
fn start_recording(_name: &str, _listener: &MockListener) -> RecordedEvents {
    let cfg = Config::default();
    let stop = cfg.stop_keystrokes.clone();
    let mut recorder = Recorder::new(cfg);
    let here = Point { x: 100f64.to_bits(), y: 150f64.to_bits() };
    let mut now = 0;
    let mut typed = vec![
        Notification::KeyDown(MOCK_KEY),
        Notification::MouseButtonDown(here, button_named("Button1")),
        Notification::MouseMoved(here),
    ];
    typed.extend(stop.into_iter().map(Notification::KeyDown));
    for n in typed {
        now += 10;
        recorder.notify(n, now);
    }
    assert!(recorder.is_stopped());
    recorder.recording()
}

fn play(name: &str, stored: RecordedEvents, listener: &MockListener) {
    match start_playback(name, Ok(stored), 1) {
        Replay::Ready(mut playback) => {
            while let Some(action) = playback.next() {
                listener.perform(action);
            }
        }
        Replay::NothingToReplay(report) => panic!("{}", report),
    }
}

fn handle_stop_keystroke(listener: &MockListener) {
    let cfg = Config::default();
    let stop = cfg.stop_keystrokes.clone();
    let mut recorder = Recorder::new(cfg);
    let mut now = 0;
    for key in stop {
        now += 10;
        if recorder.notify(Notification::KeyDown(key), now) == Outcome::Finished {
            listener.note("Stop", "");
        }
    }
}

fn simulate(listener: &MockListener, event: Event) {
    for action in event.simulate() {
        listener.perform(action);
    }
}

fn simulate_wait(listener: &MockListener) {
    simulate(listener, Event::Wait(100));
}

fn simulate_button_press(listener: &MockListener, button: &str) {
    let m = MouseEventButton { x: 0, y: 0, button: button_named(button) };
    simulate(listener, Event::MousePress(m));
}

fn simulate_button_release(listener: &MockListener, button: &str) {
    let m = MouseEventButton { x: 0, y: 0, button: button_named(button) };
    simulate(listener, Event::MouseRelease(m));
}

fn simulate_mouse_movement(listener: &MockListener, x: i32, y: i32) {
    let m = MouseEventMove { x: f64::from(x).to_bits(), y: f64::from(y).to_bits() };
    simulate(listener, Event::MouseMove(m));
}

#[test]
fn macronizer_tests_test_record_event() {
    let mock_listener = MockListener::new();

    let recorded_events = start_recording("test_macro", &mock_listener);
    let actions: Vec<Event> = recorded_events
        .events
        .iter()
        .copied()
        .filter(|e| !matches!(e, Event::Wait(_)))
        .collect();

    // Expect KeyPress, ButtonPress, and MouseMove events
    assert_eq!(actions.len(), 3);
    assert_eq!(actions[0], Event::KeyPress(MOCK_KEY));
    assert_eq!(key_name(MOCK_KEY), "MockKey");
    match actions[1] {
        Event::MousePress(m) => assert_eq!(button_name(m.button), "Button1"),
        _ => panic!("a button press was recorded second"),
    }
    assert!(matches!(actions[2], Event::MouseMove(_)));
}

#[test]
fn macronizer_tests_test_playback_function() {
    let mock_listener = MockListener::new();

    let stored = start_recording("test_macro", &mock_listener);
    play("test_macro", stored, &mock_listener);

    assert!(mock_listener.was_event_triggered("KeyPress", "MockKey"));
}

#[test]
fn macronizer_tests_test_handle_stop_keystrokes() {
    let mock_listener = MockListener::new();

    handle_stop_keystroke(&mock_listener);

    assert!(mock_listener.was_event_triggered("Stop", ""));
}

#[test]
fn macronizer_tests_test_wait_strategies() {
    let mock_listener = MockListener::new();

    simulate_wait(&mock_listener);

    assert!(mock_listener.was_wait_condition_met());
}

#[test]
fn macronizer_tests_test_simulated_event_types() {
    let mock_listener = MockListener::new();

    simulate_button_press(&mock_listener, "Button1");
    simulate_button_release(&mock_listener, "Button1");
    simulate_mouse_movement(&mock_listener, 100, 150);

    assert!(mock_listener.was_event_triggered("ButtonPress", "Button1"));
    assert!(mock_listener.was_event_triggered("ButtonRelease", "Button1"));
    assert!(mock_listener.was_event_triggered("MouseMove", "100-150"));
}

#[test]
fn macronizer_tests_test_edge_cases() {
    let mock_listener = MockListener::new();

    // an empty macro file holds no recording: there is nothing to replay
    let stored = Err(DecodeError::Malformed("missing field `events`".into()));
    match start_playback("empty_macro", stored, 1) {
        Replay::NothingToReplay(report) => assert!(report.contains("empty_macro")),
        Replay::Ready(_) => panic!("an empty file holds no recording"),
    }

    assert_eq!(mock_listener.get_triggered_events_len(), 0);
}
