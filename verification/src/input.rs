//! Global input and the decisions of the recording loop: which keys type
//! which characters, and what the recorder does with each input event.
//!
//! Listening to the keyboard and mouse, sleeping, grabbing the screen and the
//! loop itself are done outside the library; for each event the loop asks
//! `Recorder::handle` what to do and does it.
use vstd::prelude::*;
use crate::model::StepEvent;
use crate::text::push_char;

verus! {

/// The keys the recorder distinguishes.
#[derive(Debug, Clone, Copy, PartialEq, Eq, Structural)]
pub enum Key {
    KeyA,
    KeyB,
    KeyC,
    KeyD,
    KeyE,
    KeyF,
    KeyG,
    KeyH,
    KeyI,
    KeyJ,
    KeyK,
    KeyL,
    KeyM,
    KeyN,
    KeyO,
    KeyP,
    KeyQ,
    KeyR,
    KeyS,
    KeyT,
    KeyU,
    KeyV,
    KeyW,
    KeyX,
    KeyY,
    KeyZ,
    Num0,
    Num1,
    Num2,
    Num3,
    Num4,
    Num5,
    Num6,
    Num7,
    Num8,
    Num9,
    Space,
    Minus,
    Equal,
    LeftBracket,
    RightBracket,
    SemiColon,
    Quote,
    Comma,
    Dot,
    Slash,
    BackSlash,
    Return,
    Other,
}

/// The character a key types, for the letter, digit and punctuation keys
/// (letters in lower case, without regard to Shift).
pub open spec fn key_char(key: Key) -> Option<char> {
    match key {
        Key::KeyA => Some('a'),
        Key::KeyB => Some('b'),
        Key::KeyC => Some('c'),
        Key::KeyD => Some('d'),
        Key::KeyE => Some('e'),
        Key::KeyF => Some('f'),
        Key::KeyG => Some('g'),
        Key::KeyH => Some('h'),
        Key::KeyI => Some('i'),
        Key::KeyJ => Some('j'),
        Key::KeyK => Some('k'),
        Key::KeyL => Some('l'),
        Key::KeyM => Some('m'),
        Key::KeyN => Some('n'),
        Key::KeyO => Some('o'),
        Key::KeyP => Some('p'),
        Key::KeyQ => Some('q'),
        Key::KeyR => Some('r'),
        Key::KeyS => Some('s'),
        Key::KeyT => Some('t'),
        Key::KeyU => Some('u'),
        Key::KeyV => Some('v'),
        Key::KeyW => Some('w'),
        Key::KeyX => Some('x'),
        Key::KeyY => Some('y'),
        Key::KeyZ => Some('z'),
        Key::Num0 => Some('0'),
        Key::Num1 => Some('1'),
        Key::Num2 => Some('2'),
        Key::Num3 => Some('3'),
        Key::Num4 => Some('4'),
        Key::Num5 => Some('5'),
        Key::Num6 => Some('6'),
        Key::Num7 => Some('7'),
        Key::Num8 => Some('8'),
        Key::Num9 => Some('9'),
        Key::Space => Some(' '),
        Key::Minus => Some('-'),
        Key::Equal => Some('='),
        Key::LeftBracket => Some('['),
        Key::RightBracket => Some(']'),
        Key::SemiColon => Some(';'),
        Key::Quote => Some('\''),
        Key::Comma => Some(','),
        Key::Dot => Some('.'),
        Key::Slash => Some('/'),
        Key::BackSlash => Some('\\'),
        _ => None,
    }
}

/// The character a key types, if it types one.
pub fn key_to_char(key: Key) -> (r: Option<char>)
    ensures
        r == key_char(key),
{
    match key {
        Key::KeyA => Some('a'),
        Key::KeyB => Some('b'),
        Key::KeyC => Some('c'),
        Key::KeyD => Some('d'),
        Key::KeyE => Some('e'),
        Key::KeyF => Some('f'),
        Key::KeyG => Some('g'),
        Key::KeyH => Some('h'),
        Key::KeyI => Some('i'),
        Key::KeyJ => Some('j'),
        Key::KeyK => Some('k'),
        Key::KeyL => Some('l'),
        Key::KeyM => Some('m'),
        Key::KeyN => Some('n'),
        Key::KeyO => Some('o'),
        Key::KeyP => Some('p'),
        Key::KeyQ => Some('q'),
        Key::KeyR => Some('r'),
        Key::KeyS => Some('s'),
        Key::KeyT => Some('t'),
        Key::KeyU => Some('u'),
        Key::KeyV => Some('v'),
        Key::KeyW => Some('w'),
        Key::KeyX => Some('x'),
        Key::KeyY => Some('y'),
        Key::KeyZ => Some('z'),
        Key::Num0 => Some('0'),
        Key::Num1 => Some('1'),
        Key::Num2 => Some('2'),
        Key::Num3 => Some('3'),
        Key::Num4 => Some('4'),
        Key::Num5 => Some('5'),
        Key::Num6 => Some('6'),
        Key::Num7 => Some('7'),
        Key::Num8 => Some('8'),
        Key::Num9 => Some('9'),
        Key::Space => Some(' '),
        Key::Minus => Some('-'),
        Key::Equal => Some('='),
        Key::LeftBracket => Some('['),
        Key::RightBracket => Some(']'),
        Key::SemiColon => Some(';'),
        Key::Quote => Some('\''),
        Key::Comma => Some(','),
        Key::Dot => Some('.'),
        Key::Slash => Some('/'),
        Key::BackSlash => Some('\\'),
        _ => None,
    }
}

/// No two keys type the same character.
pub proof fn law_keys_type_distinct_chars(a: Key, b: Key)
    requires
        key_char(a) is Some,
        key_char(a) == key_char(b),
    ensures
        a == b,
{
}

/// An input event, with the pointer position already in whole pixels.
#[derive(Debug, Clone, Copy, PartialEq, Eq, Structural)]
pub enum InputEvent {
    LeftClick { x: i32, y: i32 },
    RightClick { x: i32, y: i32 },
    KeyEnter,
    KeyPress(char),
}

/// The input event of a key press: Enter, a typed character, or nothing.
pub open spec fn key_input(key: Key) -> Option<InputEvent> {
    match key {
        Key::Return => Some(InputEvent::KeyEnter),
        _ => match key_char(key) {
            Some(c) => Some(InputEvent::KeyPress(c)),
            None => None,
        },
    }
}

/// The input event of a key press.
pub fn key_event(key: Key) -> (r: Option<InputEvent>)
    ensures
        r == key_input(key),
{
    match key {
        Key::Return => Some(InputEvent::KeyEnter),
        _ => match key_to_char(key) {
            Some(c) => Some(InputEvent::KeyPress(c)),
            None => None,
        },
    }
}

/// What reaches the recording loop: an input event, a wait that timed out
/// (with the milliseconds since the last buffer capture), or the end of the
/// input stream.
#[derive(Debug, Clone, Copy, PartialEq, Eq, Structural)]
pub enum LoopEvent {
    Input(InputEvent),
    Timeout { since_buffer_ms: u64 },
    Disconnected,
}

/// How often, in milliseconds, a background capture goes to the buffer.
pub const BUFFER_INTERVAL_MS: u64 = 3000u64;

/// How long, in milliseconds, to let the screen settle after a click.
pub const CLICK_SETTLE_MS: u64 = 50u64;

/// How long, in milliseconds, to let the screen settle after Enter.
pub const ENTER_SETTLE_MS: u64 = 100u64;

/// What the recording loop does next.
pub enum Action {
    /// Nothing.
    Ignore,
    /// Wait `settle_ms`, grab a screenshot and, if that works, add a step
    /// for `event` with `input_text`.
    CaptureStep { event: StepEvent, input_text: Option<String>, settle_ms: u64 },
    /// Grab a screenshot for the buffer, then restart the buffer timer.
    CaptureBuffer,
    /// Restart the buffer timer.
    RestartBufferTimer,
    /// Stop the loop.
    Stop,
}

/// An action with its texts as plain values.
pub enum ActionView {
    Ignore,
    CaptureStep { event: StepEvent, input_text: Option<Seq<char>>, settle_ms: u64 },
    CaptureBuffer,
    RestartBufferTimer,
    Stop,
}

impl View for Action {
    type V = ActionView;

    open spec fn view(&self) -> ActionView {
        match self {
            Action::Ignore => ActionView::Ignore,
            Action::CaptureStep { event, input_text, settle_ms } => ActionView::CaptureStep {
                event: *event,
                input_text: input_text.deep_view(),
                settle_ms: *settle_ms,
            },
            Action::CaptureBuffer => ActionView::CaptureBuffer,
            Action::RestartBufferTimer => ActionView::RestartBufferTimer,
            Action::Stop => ActionView::Stop,
        }
    }
}

/// What the loop does for an event, given the characters typed since the
/// last Enter and whether the manager is recording; and what is typed after.
/// Input is dropped while not recording. Enter hands over the typed text
/// (none when nothing was typed) and clears it.
pub open spec fn step(typed: Seq<char>, recording: bool, ev: LoopEvent) -> (Seq<char>, ActionView) {
    match ev {
        LoopEvent::Input(input) => if !recording {
            (typed, ActionView::Ignore)
        } else {
            match input {
                InputEvent::LeftClick { x, y } => (
                    typed,
                    ActionView::CaptureStep {
                        event: StepEvent::LeftClick { x, y },
                        input_text: None,
                        settle_ms: CLICK_SETTLE_MS,
                    },
                ),
                InputEvent::RightClick { x, y } => (
                    typed,
                    ActionView::CaptureStep {
                        event: StepEvent::RightClick { x, y },
                        input_text: None,
                        settle_ms: CLICK_SETTLE_MS,
                    },
                ),
                InputEvent::KeyEnter => (
                    Seq::empty(),
                    ActionView::CaptureStep {
                        event: StepEvent::KeyEnter,
                        input_text: if typed.len() == 0 {
                            None
                        } else {
                            Some(typed)
                        },
                        settle_ms: ENTER_SETTLE_MS,
                    },
                ),
                InputEvent::KeyPress(c) => (typed.push(c), ActionView::Ignore),
            }
        },
        LoopEvent::Timeout { since_buffer_ms } => if since_buffer_ms >= BUFFER_INTERVAL_MS {
            if recording {
                (typed, ActionView::CaptureBuffer)
            } else {
                (typed, ActionView::RestartBufferTimer)
            }
        } else {
            (typed, ActionView::Ignore)
        },
        LoopEvent::Disconnected => (typed, ActionView::Stop),
    }
}

/// The state the recording loop keeps between events: the characters typed
/// since the last Enter.
pub struct Recorder {
    pub keystrokes: String,
}

impl Recorder {
    /// A recorder with nothing typed.
    pub fn new() -> (r: Recorder)
        ensures
            r.keystrokes@ == Seq::<char>::empty(),
    {
        Recorder { keystrokes: String::new() }
    }

    /// Decides what to do for an event.
    pub fn handle(&mut self, recording: bool, ev: LoopEvent) -> (r: Action)
        ensures
            (final(self).keystrokes@, r@) == step(old(self).keystrokes@, recording, ev),
    {
        match ev {
            LoopEvent::Input(input) => {
                if !recording {
                    return Action::Ignore;
                }
                match input {
                    InputEvent::LeftClick { x, y } => Action::CaptureStep {
                        event: StepEvent::LeftClick { x, y },
                        input_text: None,
                        settle_ms: CLICK_SETTLE_MS,
                    },
                    InputEvent::RightClick { x, y } => Action::CaptureStep {
                        event: StepEvent::RightClick { x, y },
                        input_text: None,
                        settle_ms: CLICK_SETTLE_MS,
                    },
                    InputEvent::KeyEnter => {
                        let mut typed = String::new();
                        std::mem::swap(&mut typed, &mut self.keystrokes);
                        let input_text = if typed.as_str().unicode_len() == 0 {
                            None
                        } else {
                            Some(typed)
                        };
                        Action::CaptureStep {
                            event: StepEvent::KeyEnter,
                            input_text,
                            settle_ms: ENTER_SETTLE_MS,
                        }
                    },
                    InputEvent::KeyPress(c) => {
                        push_char(&mut self.keystrokes, c);
                        Action::Ignore
                    },
                }
            },
            LoopEvent::Timeout { since_buffer_ms } => {
                if since_buffer_ms >= BUFFER_INTERVAL_MS {
                    if recording {
                        Action::CaptureBuffer
                    } else {
                        Action::RestartBufferTimer
                    }
                } else {
                    Action::Ignore
                }
            },
            LoopEvent::Disconnected => Action::Stop,
        }
    }
}

/// The event of typing `c`.
pub open spec fn key_press(c: char) -> LoopEvent {
    LoopEvent::Input(InputEvent::KeyPress(c))
}

/// The events of typing the given characters in order.
pub open spec fn typed_chars(keys: Seq<char>) -> Seq<LoopEvent>
    decreases keys.len(),
{
    if keys.len() == 0 {
        Seq::empty()
    } else {
        typed_chars(keys.drop_last()).push(key_press(keys.last()))
    }
}

/// What is typed after a run of events, starting from `typed`, while the
/// manager is recording.
pub open spec fn typed_after(typed: Seq<char>, evs: Seq<LoopEvent>) -> Seq<char>
    decreases evs.len(),
{
    if evs.len() == 0 {
        typed
    } else {
        step(typed_after(typed, evs.drop_last()), true, evs.last()).0
    }
}

/// While recording, key presses are collected in order, and the Enter that
/// follows hands over exactly the characters typed since the previous Enter
/// (none when no character was typed), leaving nothing typed.
pub proof fn law_enter_hands_over_typed_text(chars: Seq<char>)
    ensures
        typed_after(Seq::empty(), typed_chars(chars)) == chars,
        step(chars, true, LoopEvent::Input(InputEvent::KeyEnter)) == (
            Seq::<char>::empty(),
            ActionView::CaptureStep {
                event: StepEvent::KeyEnter,
                input_text: if chars.len() == 0 {
                    None
                } else {
                    Some(chars)
                },
                settle_ms: ENTER_SETTLE_MS,
            },
        ),
    decreases chars.len(),
{
    if chars.len() > 0 {
        law_enter_hands_over_typed_text(chars.drop_last());
        assert(typed_chars(chars).drop_last() =~= typed_chars(chars.drop_last()));
        assert(chars.drop_last().push(chars.last()) =~= chars);
    }
}

/// While recording, a click captures a step for that click, after the click
/// settle time, carrying no typed text; what was typed is kept, untouched,
/// for the next Enter.
pub proof fn law_clicks_carry_no_text(typed: Seq<char>, x: i32, y: i32)
    ensures
        step(typed, true, LoopEvent::Input(InputEvent::LeftClick { x, y })) == (
            typed,
            ActionView::CaptureStep {
                event: StepEvent::LeftClick { x, y },
                input_text: None,
                settle_ms: CLICK_SETTLE_MS,
            },
        ),
        step(typed, true, LoopEvent::Input(InputEvent::RightClick { x, y })) == (
            typed,
            ActionView::CaptureStep {
                event: StepEvent::RightClick { x, y },
                input_text: None,
                settle_ms: CLICK_SETTLE_MS,
            },
        ),
{
}

/// Waiting never touches what is typed: a wait shorter than the buffer
/// interval does nothing; a longer one captures for the buffer while
/// recording and otherwise only restarts the timer; the end of the input
/// stream stops the loop.
pub proof fn law_waits_drive_the_buffer(typed: Seq<char>, recording: bool, ms: u64)
    ensures
        ms < BUFFER_INTERVAL_MS ==> step(typed, recording, LoopEvent::Timeout { since_buffer_ms: ms })
            == (typed, ActionView::Ignore),
        ms >= BUFFER_INTERVAL_MS && recording ==> step(
            typed,
            recording,
            LoopEvent::Timeout { since_buffer_ms: ms },
        ) == (typed, ActionView::CaptureBuffer),
        ms >= BUFFER_INTERVAL_MS && !recording ==> step(
            typed,
            recording,
            LoopEvent::Timeout { since_buffer_ms: ms },
        ) == (typed, ActionView::RestartBufferTimer),
        step(typed, recording, LoopEvent::Disconnected) == (typed, ActionView::Stop),
{
}

/// While not recording, no input changes what is typed or leads to a
/// capture.
pub proof fn law_input_ignored_when_not_recording(typed: Seq<char>, input: InputEvent)
    ensures
        step(typed, false, LoopEvent::Input(input)) == (typed, ActionView::Ignore),
{
}

} // verus!
