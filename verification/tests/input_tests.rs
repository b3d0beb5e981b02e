use steptrace::input::{
    key_event, key_to_char, Action, InputEvent, Key, LoopEvent, Recorder, BUFFER_INTERVAL_MS,
    CLICK_SETTLE_MS, ENTER_SETTLE_MS,
};
use steptrace::model::StepEvent;

const TYPED_KEYS: [(Key, char); 47] = [
    (Key::KeyA, 'a'),
    (Key::KeyB, 'b'),
    (Key::KeyC, 'c'),
    (Key::KeyD, 'd'),
    (Key::KeyE, 'e'),
    (Key::KeyF, 'f'),
    (Key::KeyG, 'g'),
    (Key::KeyH, 'h'),
    (Key::KeyI, 'i'),
    (Key::KeyJ, 'j'),
    (Key::KeyK, 'k'),
    (Key::KeyL, 'l'),
    (Key::KeyM, 'm'),
    (Key::KeyN, 'n'),
    (Key::KeyO, 'o'),
    (Key::KeyP, 'p'),
    (Key::KeyQ, 'q'),
    (Key::KeyR, 'r'),
    (Key::KeyS, 's'),
    (Key::KeyT, 't'),
    (Key::KeyU, 'u'),
    (Key::KeyV, 'v'),
    (Key::KeyW, 'w'),
    (Key::KeyX, 'x'),
    (Key::KeyY, 'y'),
    (Key::KeyZ, 'z'),
    (Key::Num0, '0'),
    (Key::Num1, '1'),
    (Key::Num2, '2'),
    (Key::Num3, '3'),
    (Key::Num4, '4'),
    (Key::Num5, '5'),
    (Key::Num6, '6'),
    (Key::Num7, '7'),
    (Key::Num8, '8'),
    (Key::Num9, '9'),
    (Key::Space, ' '),
    (Key::Minus, '-'),
    (Key::Equal, '='),
    (Key::LeftBracket, '['),
    (Key::RightBracket, ']'),
    (Key::SemiColon, ';'),
    (Key::Quote, '\''),
    (Key::Comma, ','),
    (Key::Dot, '.'),
    (Key::Slash, '/'),
    (Key::BackSlash, '\\'),
];

fn press(c: char) -> LoopEvent {
    LoopEvent::Input(InputEvent::KeyPress(c))
}

fn enter() -> LoopEvent {
    LoopEvent::Input(InputEvent::KeyEnter)
}

fn captured_step(a: Action) -> (StepEvent, Option<String>, u64) {
    match a {
        Action::CaptureStep { event, input_text, settle_ms } => (event, input_text, settle_ms),
        _ => panic!("expected a step capture"),
    }
}

#[test]
fn keys_type_their_characters() {
    for (k, c) in TYPED_KEYS {
        assert_eq!(key_to_char(k), Some(c));
        assert_eq!(key_event(k), Some(InputEvent::KeyPress(c)));
    }
    let mut chars: Vec<char> = TYPED_KEYS.iter().map(|&(_, c)| c).collect();
    chars.sort();
    chars.dedup();
    assert_eq!(chars.len(), TYPED_KEYS.len());
}

#[test]
fn other_keys_type_nothing() {
    assert_eq!(key_to_char(Key::Return), None);
    assert_eq!(key_to_char(Key::Other), None);
    assert_eq!(key_event(Key::Return), Some(InputEvent::KeyEnter));
    assert_eq!(key_event(Key::Other), None);
}

#[test]
fn enter_hands_over_what_was_typed() {
    let mut r = Recorder::new();
    assert_eq!(r.keystrokes, "");
    for c in "ls -l".chars() {
        assert!(matches!(r.handle(true, press(c)), Action::Ignore));
    }
    assert_eq!(r.keystrokes, "ls -l");
    let (event, text, settle) = captured_step(r.handle(true, enter()));
    assert_eq!(event, StepEvent::KeyEnter);
    assert_eq!(text.as_deref(), Some("ls -l"));
    assert_eq!(settle, ENTER_SETTLE_MS);
    assert_eq!(r.keystrokes, "");
    // A second Enter with nothing typed hands over no text.
    let (_, text, _) = captured_step(r.handle(true, enter()));
    assert_eq!(text, None);
}

#[test]
fn clicks_capture_steps_and_keep_typed_text() {
    let mut r = Recorder::new();
    r.handle(true, press('a'));
    let (event, text, settle) =
        captured_step(r.handle(true, LoopEvent::Input(InputEvent::LeftClick { x: 3, y: -4 })));
    assert_eq!(event, StepEvent::LeftClick { x: 3, y: -4 });
    assert_eq!(text, None);
    assert_eq!(settle, CLICK_SETTLE_MS);
    let (event, _, _) =
        captured_step(r.handle(true, LoopEvent::Input(InputEvent::RightClick { x: 0, y: 9 })));
    assert_eq!(event, StepEvent::RightClick { x: 0, y: 9 });
    assert_eq!(r.keystrokes, "a");
}

#[test]
fn input_is_ignored_when_not_recording() {
    let mut r = Recorder::new();
    r.handle(true, press('x'));
    for ev in [
        press('y'),
        enter(),
        LoopEvent::Input(InputEvent::LeftClick { x: 1, y: 1 }),
        LoopEvent::Input(InputEvent::RightClick { x: 1, y: 1 }),
    ] {
        assert!(matches!(r.handle(false, ev), Action::Ignore));
        assert_eq!(r.keystrokes, "x");
    }
}

#[test]
fn timeouts_drive_the_buffer() {
    let mut r = Recorder::new();
    assert!(matches!(
        r.handle(true, LoopEvent::Timeout { since_buffer_ms: BUFFER_INTERVAL_MS - 1 }),
        Action::Ignore
    ));
    assert!(matches!(
        r.handle(true, LoopEvent::Timeout { since_buffer_ms: BUFFER_INTERVAL_MS }),
        Action::CaptureBuffer
    ));
    assert!(matches!(
        r.handle(false, LoopEvent::Timeout { since_buffer_ms: 10_000 }),
        Action::RestartBufferTimer
    ));
    assert!(matches!(
        r.handle(false, LoopEvent::Timeout { since_buffer_ms: 0 }),
        Action::Ignore
    ));
    assert!(matches!(r.handle(true, LoopEvent::Disconnected), Action::Stop));
    assert!(matches!(r.handle(false, LoopEvent::Disconnected), Action::Stop));
}

#[test]
fn settle_times_and_interval() {
    assert_eq!(BUFFER_INTERVAL_MS, 3000);
    assert_eq!(CLICK_SETTLE_MS, 50);
    assert_eq!(ENTER_SETTLE_MS, 100);
}
