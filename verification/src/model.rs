//! The recording session model: capture modes, recording states, recorded
//! steps, the rolling buffer of background captures, and the session that
//! holds them.
use vstd::prelude::*;
use vstd::string::*;
use crate::clock::{now, Timestamp};
use crate::ids::{is_random_uuid, new_id};
use crate::text::{append_i64, append_str, dec_int, text};

verus! {

// ---------------------------------------------------------------------------
// Capture modes and recording states
// ---------------------------------------------------------------------------

/// What a screenshot covers.
#[derive(Debug, Clone, Copy, PartialEq, Eq, Structural)]
pub enum CaptureMode {
    FullScreen,
    Window(u32),
    Region { x: i32, y: i32, w: u32, h: u32 },
}

impl Default for CaptureMode {
    fn default() -> (r: Self)
        ensures
            r == CaptureMode::FullScreen,
    {
        CaptureMode::FullScreen
    }
}

/// Where the recorder stands.
#[derive(Debug, Clone, Copy, PartialEq, Eq, Structural)]
pub enum RecordingState {
    Idle,
    Recording,
    Paused,
    Stopped,
}

impl Default for RecordingState {
    fn default() -> (r: Self)
        ensures
            r == RecordingState::Idle,
    {
        RecordingState::Idle
    }
}

/// The name of a recording state, as `Debug` writes it.
pub open spec fn state_name(s: RecordingState) -> Seq<char> {
    match s {
        RecordingState::Idle => "Idle"@,
        RecordingState::Recording => "Recording"@,
        RecordingState::Paused => "Paused"@,
        RecordingState::Stopped => "Stopped"@,
    }
}

impl RecordingState {
    /// The name of the state, as `Debug` writes it.
    pub fn name(&self) -> (r: String)
        ensures
            r@ == state_name(*self),
    {
        match self {
            RecordingState::Idle => text("Idle"),
            RecordingState::Recording => text("Recording"),
            RecordingState::Paused => text("Paused"),
            RecordingState::Stopped => text("Stopped"),
        }
    }
}

// ---------------------------------------------------------------------------
// Step events
// ---------------------------------------------------------------------------

/// What made a step.
#[derive(Debug, Clone, Copy, PartialEq, Eq, Structural)]
pub enum StepEvent {
    LeftClick { x: i32, y: i32 },
    RightClick { x: i32, y: i32 },
    KeyEnter,
    WindowSwitch,
    Manual,
}

/// The caption written for an event in the named window (`"unknown"` when
/// the window has no title).
pub open spec fn description_text(e: StepEvent, window_title: Option<Seq<char>>) -> Seq<char> {
    let target = match window_title {
        Some(t) => t,
        None => "unknown"@,
    };
    match e {
        StepEvent::LeftClick { x, y } => "Left-clicked on '"@ + target + "' at ("@ + dec_int(
            x as int,
        ) + ", "@ + dec_int(y as int) + ")"@,
        StepEvent::RightClick { x, y } => "Right-clicked on '"@ + target + "' at ("@ + dec_int(
            x as int,
        ) + ", "@ + dec_int(y as int) + ")"@,
        StepEvent::KeyEnter => "Pressed Enter in '"@ + target + "'"@,
        StepEvent::WindowSwitch => "Switched to '"@ + target + "'"@,
        StepEvent::Manual => "Manual capture"@,
    }
}

/// An event as `Debug` writes it.
pub open spec fn event_debug_text(e: StepEvent) -> Seq<char> {
    match e {
        StepEvent::LeftClick { x, y } => "LeftClick { x: "@ + dec_int(x as int) + ", y: "@
            + dec_int(y as int) + " }"@,
        StepEvent::RightClick { x, y } => "RightClick { x: "@ + dec_int(x as int) + ", y: "@
            + dec_int(y as int) + " }"@,
        StepEvent::KeyEnter => "KeyEnter"@,
        StepEvent::WindowSwitch => "WindowSwitch"@,
        StepEvent::Manual => "Manual"@,
    }
}

impl StepEvent {
    /// The caption for this event in the window with the given title.
    pub fn auto_description(&self, window_title: &Option<String>) -> (r: String)
        ensures
            r@ == description_text(*self, window_title.deep_view()),
    {
        let target: &str = match window_title {
            Some(t) => t.as_str(),
            None => "unknown",
        };
        match self {
            StepEvent::LeftClick { x, y } => {
                let mut s = text("Left-clicked on '");
                append_str(&mut s, target);
                append_str(&mut s, "' at (");
                append_i64(&mut s, *x as i64);
                append_str(&mut s, ", ");
                append_i64(&mut s, *y as i64);
                append_str(&mut s, ")");
                s
            },
            StepEvent::RightClick { x, y } => {
                let mut s = text("Right-clicked on '");
                append_str(&mut s, target);
                append_str(&mut s, "' at (");
                append_i64(&mut s, *x as i64);
                append_str(&mut s, ", ");
                append_i64(&mut s, *y as i64);
                append_str(&mut s, ")");
                s
            },
            StepEvent::KeyEnter => {
                let mut s = text("Pressed Enter in '");
                append_str(&mut s, target);
                append_str(&mut s, "'");
                s
            },
            StepEvent::WindowSwitch => {
                let mut s = text("Switched to '");
                append_str(&mut s, target);
                append_str(&mut s, "'");
                s
            },
            StepEvent::Manual => text("Manual capture"),
        }
    }

    /// The event as `Debug` writes it.
    pub fn debug_text(&self) -> (r: String)
        ensures
            r@ == event_debug_text(*self),
    {
        match self {
            StepEvent::LeftClick { x, y } => {
                let mut s = text("LeftClick { x: ");
                append_i64(&mut s, *x as i64);
                append_str(&mut s, ", y: ");
                append_i64(&mut s, *y as i64);
                append_str(&mut s, " }");
                s
            },
            StepEvent::RightClick { x, y } => {
                let mut s = text("RightClick { x: ");
                append_i64(&mut s, *x as i64);
                append_str(&mut s, ", y: ");
                append_i64(&mut s, *y as i64);
                append_str(&mut s, " }");
                s
            },
            StepEvent::KeyEnter => text("KeyEnter"),
            StepEvent::WindowSwitch => text("WindowSwitch"),
            StepEvent::Manual => text("Manual"),
        }
    }
}

// ---------------------------------------------------------------------------
// Steps and buffer entries
// ---------------------------------------------------------------------------

/// One recorded step.
pub struct Step {
    pub id: u128,
    pub number: u32,
    pub timestamp: Timestamp,
    pub event: StepEvent,
    pub caption: String,
    pub window_title: Option<String>,
    /// Raw screenshot bytes (PNG).
    pub screenshot_raw: Vec<u8>,
    /// Annotated screenshot bytes (PNG) with markers.
    pub screenshot_annotated: Option<Vec<u8>>,
    /// Text typed before the step (for a step made by Enter).
    pub input_text: Option<String>,
}

/// The contents of a step as plain values.
pub struct StepView {
    pub id: u128,
    pub number: u32,
    pub timestamp: int,
    pub event: StepEvent,
    pub caption: Seq<char>,
    pub window_title: Option<Seq<char>>,
    pub screenshot_raw: Seq<u8>,
    pub screenshot_annotated: Option<Seq<u8>>,
    pub input_text: Option<Seq<char>>,
}

impl View for Step {
    type V = StepView;

    open spec fn view(&self) -> StepView {
        StepView {
            id: self.id,
            number: self.number,
            timestamp: self.timestamp@,
            event: self.event,
            caption: self.caption@,
            window_title: self.window_title.deep_view(),
            screenshot_raw: self.screenshot_raw@,
            screenshot_annotated: opt_bytes(self.screenshot_annotated),
            input_text: self.input_text.deep_view(),
        }
    }
}

/// The bytes of an optional byte vector.
pub open spec fn opt_bytes(o: Option<Vec<u8>>) -> Option<Seq<u8>> {
    match o {
        Some(v) => Some(v@),
        None => None,
    }
}

/// A copy of a byte vector.
pub(crate) fn copy_bytes(v: &Vec<u8>) -> (r: Vec<u8>)
    ensures
        r@ == v@,
{
    let mut r: Vec<u8> = Vec::with_capacity(v.len());
    let mut i: usize = 0;
    while i < v.len()
        invariant
            i <= v.len(),
            r@ == v@.subrange(0, i as int),
        decreases v.len() - i,
    {
        r.push(v[i]);
        i = i + 1;
        assert(r@ =~= v@.subrange(0, i as int));
    }
    assert(r@ =~= v@);
    r
}

/// A copy of an optional text.
pub(crate) fn copy_opt_text(o: &Option<String>) -> (r: Option<String>)
    ensures
        r.deep_view() == o.deep_view(),
{
    match o {
        Some(s) => Some(s.clone()),
        None => None,
    }
}

/// A copy of optional bytes.
pub(crate) fn copy_opt_bytes(o: &Option<Vec<u8>>) -> (r: Option<Vec<u8>>)
    ensures
        opt_bytes(r) == opt_bytes(*o),
{
    match o {
        Some(v) => Some(copy_bytes(v)),
        None => None,
    }
}

impl Clone for Step {
    fn clone(&self) -> (r: Self)
        ensures
            r@ == self@,
    {
        Step {
            id: self.id,
            number: self.number,
            timestamp: self.timestamp,
            event: self.event,
            caption: self.caption.clone(),
            window_title: copy_opt_text(&self.window_title),
            screenshot_raw: copy_bytes(&self.screenshot_raw),
            screenshot_annotated: copy_opt_bytes(&self.screenshot_annotated),
            input_text: copy_opt_text(&self.input_text),
        }
    }
}

impl Step {
    /// The step with its number replaced.
    pub fn with_number(self, number: u32) -> (r: Step)
        ensures
            r@ == (StepView { number, ..self@ }),
    {
        Step { number, ..self }
    }
}

/// A background capture kept for a while, which can be promoted to a step.
pub struct BufferEntry {
    pub id: u128,
    pub timestamp: Timestamp,
    pub window_title: Option<String>,
    pub screenshot: Vec<u8>,
}

/// The contents of a buffer entry as plain values.
pub struct BufferEntryView {
    pub id: u128,
    pub timestamp: int,
    pub window_title: Option<Seq<char>>,
    pub screenshot: Seq<u8>,
}

impl View for BufferEntry {
    type V = BufferEntryView;

    open spec fn view(&self) -> BufferEntryView {
        BufferEntryView {
            id: self.id,
            timestamp: self.timestamp@,
            window_title: self.window_title.deep_view(),
            screenshot: self.screenshot@,
        }
    }
}

impl BufferEntry {
    /// A new entry for a screenshot, with a fresh identifier and the current
    /// time.
    pub fn new(screenshot: Vec<u8>, window_title: Option<String>) -> (r: Self)
        ensures
            r@.screenshot == screenshot@,
            r@.window_title == window_title.deep_view(),
            is_random_uuid(r.id),
            r@.timestamp >= 0,
    {
        BufferEntry { id: new_id(), timestamp: now(), window_title, screenshot }
    }
}

// ---------------------------------------------------------------------------
// Sessions
// ---------------------------------------------------------------------------

/// The views of a sequence of steps.
pub open spec fn steps_view(s: Seq<Step>) -> Seq<StepView> {
    s.map_values(|st: Step| st@)
}

/// The views of a sequence of buffer entries.
pub open spec fn buffer_view(s: Seq<BufferEntry>) -> Seq<BufferEntryView> {
    s.map_values(|b: BufferEntry| b@)
}

/// The view of an optional timestamp.
pub open spec fn opt_time(t: Option<Timestamp>) -> Option<int> {
    match t {
        Some(t) => Some(t@),
        None => None,
    }
}

/// A recording session.
pub struct Session {
    pub id: u128,
    pub title: String,
    pub started_at: Timestamp,
    pub stopped_at: Option<Timestamp>,
    pub capture_mode: CaptureMode,
    pub steps: Vec<Step>,
    pub buffer: Vec<BufferEntry>,
}

/// The contents of a session as plain values.
pub struct SessionView {
    pub id: u128,
    pub title: Seq<char>,
    pub started_at: int,
    pub stopped_at: Option<int>,
    pub capture_mode: CaptureMode,
    pub steps: Seq<StepView>,
    pub buffer: Seq<BufferEntryView>,
}

impl View for Session {
    type V = SessionView;

    open spec fn view(&self) -> SessionView {
        SessionView {
            id: self.id,
            title: self.title@,
            started_at: self.started_at@,
            stopped_at: opt_time(self.stopped_at),
            capture_mode: self.capture_mode,
            steps: steps_view(self.steps@),
            buffer: buffer_view(self.buffer@),
        }
    }
}

/// The number given to a step added after `len` steps: `len as u32 + 1`.
pub open spec fn next_number(len: nat) -> int {
    (len % 0x1_0000_0000) as int + 1
}

/// Whether `len as u32 + 1` stays within `u32` (it overflows when the
/// truncated length is `u32::MAX`).
pub open spec fn next_number_fits(len: nat) -> bool {
    len % 0x1_0000_0000 != 0xFFFF_FFFF
}

/// The index of the first element of `ids` equal to `id`.
pub open spec fn first_index(ids: Seq<u128>, id: u128) -> Option<int>
    decreases ids.len(),
{
    if ids.len() == 0 {
        None
    } else if ids[0] == id {
        Some(0)
    } else {
        match first_index(ids.drop_first(), id) {
            Some(i) => Some(i + 1),
            None => None,
        }
    }
}

/// `first_index` is the least index holding `id`, or `None` when none does.
pub proof fn lemma_first_index(ids: Seq<u128>, id: u128)
    ensures
        first_index(ids, id) matches Some(i) ==> 0 <= i < ids.len() && ids[i] == id && forall|
            j: int,
        | 0 <= j < i ==> ids[j] != id,
        first_index(ids, id) is None ==> forall|j: int| 0 <= j < ids.len() ==> ids[j] != id,
    decreases ids.len(),
{
    if ids.len() > 0 {
        lemma_first_index(ids.drop_first(), id);
        if ids[0] != id {
            assert forall|j: int| 1 <= j < ids.len() implies ids[j] == ids.drop_first()[j - 1] by {}
        }
    }
}

/// A least index holding `id` is what `first_index` gives.
pub proof fn lemma_first_index_is(ids: Seq<u128>, id: u128, i: int)
    requires
        0 <= i <= ids.len(),
        forall|j: int| 0 <= j < i ==> ids[j] != id,
        i < ids.len() ==> ids[i] == id,
    ensures
        first_index(ids, id) == (if i < ids.len() {
            Some(i)
        } else {
            None::<int>
        }),
{
    lemma_first_index(ids, id);
    match first_index(ids, id) {
        Some(k) => {
            if k < i {
                assert(ids[k] != id);
            }
            if i < k {
                assert(ids[i] != id);
            }
        },
        None => {
            if i < ids.len() {
                assert(ids[i] != id);
            }
        },
    }
}

/// The identifiers of a sequence of steps.
pub open spec fn step_ids(s: Seq<StepView>) -> Seq<u128> {
    s.map_values(|st: StepView| st.id)
}

/// The identifiers of a sequence of buffer entries.
pub open spec fn entry_ids(s: Seq<BufferEntryView>) -> Seq<u128> {
    s.map_values(|b: BufferEntryView| b.id)
}

/// The step that promoting a buffer entry adds: numbered after the existing
/// steps, at the entry's time, made by hand, with the entry's window title
/// and screenshot and the given caption.
pub open spec fn promoted_step(
    e: BufferEntryView,
    id: u128,
    number: int,
    caption: Seq<char>,
) -> StepView {
    StepView {
        id,
        number: number as u32,
        timestamp: e.timestamp,
        event: StepEvent::Manual,
        caption,
        window_title: e.window_title,
        screenshot_raw: e.screenshot,
        screenshot_annotated: None,
        input_text: None,
    }
}

impl Session {
    /// A new session with a fresh identifier, started now, with no steps and
    /// an empty buffer.
    pub fn new(title: String, capture_mode: CaptureMode) -> (r: Self)
        ensures
            r@.title == title@,
            r@.capture_mode == capture_mode,
            r@.stopped_at is None,
            r@.steps.len() == 0,
            r@.buffer.len() == 0,
            is_random_uuid(r.id),
            r@.started_at >= 0,
    {
        let r = Session {
            id: new_id(),
            title,
            started_at: now(),
            stopped_at: None,
            capture_mode,
            steps: Vec::new(),
            buffer: Vec::new(),
        };
        assert(r@.steps =~= Seq::<StepView>::empty());
        assert(r@.buffer =~= Seq::<BufferEntryView>::empty());
        r
    }

    /// The number the next step gets: the count of steps plus one.
    pub fn next_step_number(&self) -> (r: u32)
        requires
            next_number_fits(self.steps@.len()),
        ensures
            r == next_number(self.steps@.len()),
    {
        let len = self.steps.len() as u64;
        let t = len as u32;
        assert(t == len % 0x1_0000_0000) by (bit_vector)
            requires
                t == len as u32,
        ;
        t + 1
    }

    /// Appends a step.
    pub fn add_step(&mut self, step: Step)
        ensures
            final(self)@ == (SessionView { steps: old(self)@.steps.push(step@), ..old(self)@ }),
    {
        self.steps.push(step);
        assert(final(self)@.steps =~= old(self)@.steps.push(step@));
    }

    /// Promotes the first buffer entry with the given identifier to a step
    /// with the given caption, appended after the existing steps; `None` when
    /// no entry has that identifier.
    pub fn promote_buffer(&mut self, buffer_id: u128, caption: String) -> (r: Option<&Step>)
        requires
            next_number_fits(old(self).steps@.len()),
        ensures
            first_index(entry_ids(old(self)@.buffer), buffer_id) is None ==> r is None
                && final(self)@ == old(self)@,
            first_index(entry_ids(old(self)@.buffer), buffer_id) matches Some(i) ==> {
                &&& r is Some
                &&& final(self)@ == (SessionView {
                    steps: old(self)@.steps.push(
                        promoted_step(
                            old(self)@.buffer[i],
                            final(self)@.steps.last().id,
                            next_number(old(self)@.steps.len()),
                            caption@,
                        ),
                    ),
                    ..old(self)@
                })
                &&& is_random_uuid(final(self)@.steps.last().id)
                &&& r.unwrap()@ == final(self)@.steps.last()
            },
    {
        let found = find_entry(&self.buffer, buffer_id);
        match found {
            None => None,
            Some(i) => {
                let number = self.next_step_number();
                let entry = &self.buffer[i];
                let step = Step {
                    id: new_id(),
                    number,
                    timestamp: entry.timestamp,
                    event: StepEvent::Manual,
                    caption,
                    window_title: copy_opt_text(&entry.window_title),
                    screenshot_raw: copy_bytes(&entry.screenshot),
                    screenshot_annotated: None,
                    input_text: None,
                };
                let ghost sv = step@;
                self.steps.push(step);
                assert(self@.steps =~= old(self)@.steps.push(sv));
                let n = self.steps.len();
                Some(&self.steps[n - 1])
            },
        }
    }
}

/// The index of the first buffer entry with the given identifier.
pub fn find_entry(buffer: &Vec<BufferEntry>, id: u128) -> (r: Option<usize>)
    ensures
        r matches Some(i) ==> i < buffer@.len(),
        (match r {
            Some(i) => Some(i as int),
            None => None::<int>,
        }) == first_index(entry_ids(buffer_view(buffer@)), id),
{
    let mut i: usize = 0;
    while i < buffer.len()
        invariant
            i <= buffer.len(),
            forall|j: int| 0 <= j < i ==> (#[trigger] buffer@[j]).id != id,
        decreases buffer.len() - i,
    {
        if buffer[i].id == id {
            proof {
                lemma_first_index_is(entry_ids(buffer_view(buffer@)), id, i as int);
            }
            return Some(i);
        }
        i = i + 1;
    }
    proof {
        lemma_first_index_is(entry_ids(buffer_view(buffer@)), id, i as int);
    }
    None
}

/// The index of the first step with the given identifier.
pub fn find_step(steps: &Vec<Step>, id: u128) -> (r: Option<usize>)
    ensures
        r matches Some(i) ==> i < steps@.len(),
        (match r {
            Some(i) => Some(i as int),
            None => None::<int>,
        }) == first_index(step_ids(steps_view(steps@)), id),
{
    let mut i: usize = 0;
    while i < steps.len()
        invariant
            i <= steps.len(),
            forall|j: int| 0 <= j < i ==> (#[trigger] steps@[j]).id != id,
        decreases steps.len() - i,
    {
        if steps[i].id == id {
            proof {
                lemma_first_index_is(step_ids(steps_view(steps@)), id, i as int);
            }
            return Some(i);
        }
        i = i + 1;
    }
    proof {
        lemma_first_index_is(step_ids(steps_view(steps@)), id, i as int);
    }
    None
}

// ---------------------------------------------------------------------------
// Laws of captions
// ---------------------------------------------------------------------------

/// The fixed text of a caption before the window's title.
pub open spec fn caption_prefix(e: StepEvent) -> Seq<char> {
    match e {
        StepEvent::LeftClick { .. } => "Left-clicked on '"@,
        StepEvent::RightClick { .. } => "Right-clicked on '"@,
        StepEvent::KeyEnter => "Pressed Enter in '"@,
        StepEvent::WindowSwitch => "Switched to '"@,
        StepEvent::Manual => "Manual capture"@,
    }
}

/// The text of a caption after the window's title.
pub open spec fn caption_suffix(e: StepEvent) -> Seq<char> {
    match e {
        StepEvent::LeftClick { x, y } | StepEvent::RightClick { x, y } => "' at ("@ + dec_int(
            x as int,
        ) + ", "@ + dec_int(y as int) + ")"@,
        StepEvent::KeyEnter | StepEvent::WindowSwitch => "'"@,
        StepEvent::Manual => Seq::empty(),
    }
}

proof fn lemma_framed_injective(p: Seq<char>, a: Seq<char>, b: Seq<char>, q: Seq<char>)
    requires
        p + a + q == p + b + q,
    ensures
        a == b,
{
    assert((p + a + q).len() == (p + b + q).len());
    assert((p + a + q).len() == (p + a).len() + q.len());
    assert((p + b + q).len() == (p + b).len() + q.len());
    assert((p + a).len() == p.len() + a.len());
    assert((p + b).len() == p.len() + b.len());
    assert(a.len() == b.len());
    assert forall|i: int| 0 <= i < a.len() implies a[i] == b[i] by {
        assert((p + a)[p.len() + i] == a[i]);
        assert((p + b)[p.len() + i] == b[i]);
        assert((p + a + q)[p.len() + i] == (p + a)[p.len() + i]);
        assert((p + b + q)[p.len() + i] == (p + b)[p.len() + i]);
    }
    assert(a =~= b);
}

/// A caption names the window verbatim: for every event but a manual
/// capture it is fixed text, the window's title, and fixed text, so two
/// different titles give two different captions; a window without a title is
/// named `unknown`; a manual capture is captioned the same in every window.
pub proof fn law_caption_names_window(e: StepEvent, a: Seq<char>, b: Seq<char>)
    ensures
        !(e is Manual) ==> description_text(e, Some(a)) == caption_prefix(e) + a + caption_suffix(
            e,
        ),
        description_text(e, None) == description_text(e, Some("unknown"@)),
        !(e is Manual) && a != b ==> description_text(e, Some(a)) != description_text(e, Some(b)),
        e is Manual ==> description_text(e, Some(a)) == "Manual capture"@,
{
    if !(e is Manual) {
        assert(description_text(e, Some(a)) =~= caption_prefix(e) + a + caption_suffix(e));
        assert(description_text(e, Some(b)) =~= caption_prefix(e) + b + caption_suffix(e));
        if description_text(e, Some(a)) == description_text(e, Some(b)) {
            lemma_framed_injective(caption_prefix(e), a, b, caption_suffix(e));
        }
    }
}

/// A promoted step is the buffered capture made a manual step: it keeps the
/// capture's time, window and screenshot, takes the given identifier, number
/// and caption, and has no annotated screenshot and no typed text.
pub proof fn law_promoted_step_copies_capture(
    e: BufferEntryView,
    id: u128,
    number: int,
    caption: Seq<char>,
)
    requires
        1 <= number <= u32::MAX,
    ensures
        promoted_step(e, id, number, caption).timestamp == e.timestamp,
        promoted_step(e, id, number, caption).window_title == e.window_title,
        promoted_step(e, id, number, caption).screenshot_raw == e.screenshot,
        promoted_step(e, id, number, caption).screenshot_annotated is None,
        promoted_step(e, id, number, caption).input_text is None,
        promoted_step(e, id, number, caption).event == StepEvent::Manual,
        promoted_step(e, id, number, caption).id == id,
        promoted_step(e, id, number, caption).number == number,
        promoted_step(e, id, number, caption).caption == caption,
{
}

} // verus!
