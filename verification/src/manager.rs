//! The recording state machine that owns the current session.
use vstd::prelude::*;
use crate::clock::{now, Timestamp, MIN_SECS};
use crate::ids::{is_random_uuid, new_id};
use crate::model::{
    buffer_view, description_text, opt_bytes, entry_ids, first_index, next_number, next_number_fits,
    promoted_step, state_name, BufferEntry, BufferEntryView, CaptureMode, RecordingState, Session,
    SessionView, StepEvent, Step, StepView,
};
use crate::text::{append_str, text};

verus! {

/// The longest buffer age, in seconds, for which pruning the buffer cannot
/// take the cutoff time below the earliest time `chrono` represents
/// (`MIN_SECS`), whatever the clock reads: the clock reads at or after the
/// Unix epoch, and may read exactly it, so the bound is the distance from
/// `MIN_SECS` to the epoch. (`chrono`'s `TimeDelta::seconds` accepts far
/// longer spans, up to `i64::MAX / 1000` seconds.)
pub const MAX_BUFFER_SECONDS: u64 = (0 - MIN_SECS) as u64;

/// Central orchestrator for recording sessions.
pub struct SessionManager {
    pub state: RecordingState,
    pub session: Option<Session>,
    pub capture_mode: CaptureMode,
    pub buffer_max_seconds: u64,
}

/// The contents of a manager as plain values.
pub struct ManagerView {
    pub state: RecordingState,
    pub session: Option<SessionView>,
    pub capture_mode: CaptureMode,
    pub buffer_max_seconds: u64,
}

/// The view of an optional session.
pub open spec fn opt_session(s: Option<Session>) -> Option<SessionView> {
    match s {
        Some(s) => Some(s@),
        None => None,
    }
}

impl View for SessionManager {
    type V = ManagerView;

    open spec fn view(&self) -> ManagerView {
        ManagerView {
            state: self.state,
            session: opt_session(self.session),
            capture_mode: self.capture_mode,
            buffer_max_seconds: self.buffer_max_seconds,
        }
    }
}

// ---------------------------------------------------------------------------
// The transitions, as functions of the manager's contents
// ---------------------------------------------------------------------------

/// A manager is consistent when every state but `Idle` has a session.
pub open spec fn consistent(m: ManagerView) -> bool {
    m.state != RecordingState::Idle ==> m.session is Some
}

/// The message of a refused transition.
pub open spec fn refusal(verb: Seq<char>, s: RecordingState) -> Seq<char> {
    "Cannot "@ + verb + " from state "@ + state_name(s)
}

/// The message when an operation needs a session and there is none.
pub open spec fn no_session_text() -> Seq<char> {
    "No active session"@
}

/// A fresh session's contents.
pub open spec fn fresh_session(
    id: u128,
    title: Seq<char>,
    started_at: int,
    mode: CaptureMode,
) -> SessionView {
    SessionView {
        id,
        title,
        started_at,
        stopped_at: None,
        capture_mode: mode,
        steps: Seq::empty(),
        buffer: Seq::empty(),
    }
}

/// Starting is allowed from `Idle` and `Stopped`; it replaces the session by
/// a fresh one in the manager's capture mode and starts recording.
pub open spec fn start_spec(m: ManagerView, title: Seq<char>, id: u128, t: int) -> Option<
    ManagerView,
> {
    match m.state {
        RecordingState::Idle | RecordingState::Stopped => Some(
            ManagerView {
                state: RecordingState::Recording,
                session: Some(fresh_session(id, title, t, m.capture_mode)),
                ..m
            },
        ),
        _ => None,
    }
}

/// Pausing is allowed while recording.
pub open spec fn pause_spec(m: ManagerView) -> Option<ManagerView> {
    if m.state == RecordingState::Recording {
        Some(ManagerView { state: RecordingState::Paused, ..m })
    } else {
        None
    }
}

/// Resuming is allowed while paused.
pub open spec fn resume_spec(m: ManagerView) -> Option<ManagerView> {
    if m.state == RecordingState::Paused {
        Some(ManagerView { state: RecordingState::Recording, ..m })
    } else {
        None
    }
}

/// Stopping is allowed while recording or paused; it marks the session with
/// the time it stopped.
pub open spec fn stop_spec(m: ManagerView, t: int) -> Option<ManagerView> {
    match m.state {
        RecordingState::Recording | RecordingState::Paused => Some(
            ManagerView {
                state: RecordingState::Stopped,
                session: match m.session {
                    Some(s) => Some(SessionView { stopped_at: Some(t), ..s }),
                    None => None,
                },
                ..m
            },
        ),
        _ => None,
    }
}

/// The step that `add_step` appends to a session with `len` steps.
pub open spec fn new_step(
    id: u128,
    len: nat,
    t: int,
    event: StepEvent,
    screenshot_raw: Seq<u8>,
    screenshot_annotated: Option<Seq<u8>>,
    window_title: Option<Seq<char>>,
    input_text: Option<Seq<char>>,
) -> StepView {
    StepView {
        id,
        number: next_number(len) as u32,
        timestamp: t,
        event,
        caption: description_text(event, window_title),
        window_title,
        screenshot_raw,
        screenshot_annotated,
        input_text,
    }
}

/// The entries of a buffer at or after `cutoff`, in order.
pub open spec fn kept_entries(buf: Seq<BufferEntryView>, cutoff: int) -> Seq<BufferEntryView>
    decreases buf.len(),
{
    if buf.len() == 0 {
        Seq::empty()
    } else {
        let rest = kept_entries(buf.drop_last(), cutoff);
        if buf.last().timestamp >= cutoff {
            rest.push(buf.last())
        } else {
            rest
        }
    }
}

/// Setting the capture mode sets it on the manager and on its session.
pub open spec fn set_mode_spec(m: ManagerView, mode: CaptureMode) -> ManagerView {
    ManagerView {
        capture_mode: mode,
        session: match m.session {
            Some(s) => Some(SessionView { capture_mode: mode, ..s }),
            None => None,
        },
        ..m
    }
}

/// The outcome of an operation, with the message of its error as text.
pub open spec fn outcome(r: Result<(), String>) -> Result<(), Seq<char>> {
    match r {
        Ok(()) => Ok(()),
        Err(e) => Err(e@),
    }
}

/// What `start` does: from `Idle` or `Stopped` it succeeds with a fresh
/// session (random identifier, started at or after the epoch); otherwise it
/// is refused and nothing changes.
pub open spec fn start_post(
    m: ManagerView,
    n: ManagerView,
    title: Seq<char>,
    r: Result<(), Seq<char>>,
) -> bool {
    match m.state {
        RecordingState::Idle | RecordingState::Stopped => {
            &&& r is Ok
            &&& n.session matches Some(s) && n == start_spec(m, title, s.id, s.started_at).unwrap()
                && is_random_uuid(s.id) && s.started_at >= 0
        },
        _ => r == Err::<(), Seq<char>>(refusal("start"@, m.state)) && n == m,
    }
}

/// What `pause` does.
pub open spec fn pause_post(m: ManagerView, n: ManagerView, r: Result<(), Seq<char>>) -> bool {
    match pause_spec(m) {
        Some(p) => r is Ok && n == p,
        None => r == Err::<(), Seq<char>>(refusal("pause"@, m.state)) && n == m,
    }
}

/// What `resume` does.
pub open spec fn resume_post(m: ManagerView, n: ManagerView, r: Result<(), Seq<char>>) -> bool {
    match resume_spec(m) {
        Some(p) => r is Ok && n == p,
        None => r == Err::<(), Seq<char>>(refusal("resume"@, m.state)) && n == m,
    }
}

/// What `stop` does: from `Recording` or `Paused` it succeeds and marks the
/// session with a time at or after the epoch; otherwise it is refused and
/// nothing changes.
pub open spec fn stop_post(m: ManagerView, n: ManagerView, r: Result<(), Seq<char>>) -> bool {
    match m.state {
        RecordingState::Recording | RecordingState::Paused => {
            &&& r is Ok
            &&& exists|t: int| t >= 0 && n == #[trigger] stop_spec(m, t).unwrap()
        },
        _ => r == Err::<(), Seq<char>>(refusal("stop"@, m.state)) && n == m,
    }
}

impl SessionManager {
    /// A manager that is idle, with no session, capturing the full screen and
    /// keeping background captures for a minute.
    pub fn new() -> (r: Self)
        ensures
            r@ == (ManagerView {
                state: RecordingState::Idle,
                session: None,
                capture_mode: CaptureMode::FullScreen,
                buffer_max_seconds: 60,
            }),
    {
        SessionManager {
            state: RecordingState::Idle,
            session: None,
            capture_mode: CaptureMode::default(),
            buffer_max_seconds: 60,
        }
    }

    fn refuse(verb: &str, state: RecordingState) -> (r: Result<(), String>)
        ensures
            outcome(r) == Err::<(), Seq<char>>(refusal(verb@, state)),
    {
        let mut s = text("Cannot ");
        append_str(&mut s, verb);
        append_str(&mut s, " from state ");
        let name = state.name();
        append_str(&mut s, name.as_str());
        Err(s)
    }

    /// Starts a new session with the given title (from `Idle` or `Stopped`).
    pub fn start(&mut self, title: String) -> (r: Result<(), String>)
        ensures
            start_post(old(self)@, final(self)@, title@, outcome(r)),
    {
        match self.state {
            RecordingState::Idle | RecordingState::Stopped => {
                let s = Session::new(title, self.capture_mode);
                assert(s@.steps =~= Seq::<StepView>::empty());
                assert(s@.buffer =~= Seq::<BufferEntryView>::empty());
                assert(s@ == fresh_session(s.id, title@, s.started_at@, self.capture_mode));
                self.session = Some(s);
                self.state = RecordingState::Recording;
                Ok(())
            },
            _ => Self::refuse("start", self.state),
        }
    }

    /// Pauses recording.
    pub fn pause(&mut self) -> (r: Result<(), String>)
        ensures
            pause_post(old(self)@, final(self)@, outcome(r)),
    {
        match self.state {
            RecordingState::Recording => {
                self.state = RecordingState::Paused;
                Ok(())
            },
            _ => Self::refuse("pause", self.state),
        }
    }

    /// Resumes a paused recording.
    pub fn resume(&mut self) -> (r: Result<(), String>)
        ensures
            resume_post(old(self)@, final(self)@, outcome(r)),
    {
        match self.state {
            RecordingState::Paused => {
                self.state = RecordingState::Recording;
                Ok(())
            },
            _ => Self::refuse("resume", self.state),
        }
    }

    /// Stops recording, marking the session with the current time.
    pub fn stop(&mut self) -> (r: Result<(), String>)
        ensures
            stop_post(old(self)@, final(self)@, outcome(r)),
    {
        match self.state {
            RecordingState::Recording | RecordingState::Paused => {
                self.state = RecordingState::Stopped;
                let t = now();
                match &mut self.session {
                    Some(session) => {
                        session.stopped_at = Some(t);
                    },
                    None => {},
                }
                assert(self@ == stop_spec(old(self)@, t@).unwrap());
                Ok(())
            },
            _ => Self::refuse("stop", self.state),
        }
    }

    /// Whether the manager is recording.
    pub fn is_recording(&self) -> (r: bool)
        ensures
            r == (self@.state == RecordingState::Recording),
    {
        self.state == RecordingState::Recording
    }

    /// Records a step in the session: numbered after the existing steps,
    /// captioned from its event and window, with a fresh identifier and the
    /// current time.
    pub fn add_step(
        &mut self,
        event: StepEvent,
        screenshot_raw: Vec<u8>,
        screenshot_annotated: Option<Vec<u8>>,
        window_title: Option<String>,
        input_text: Option<String>,
    ) -> (r: Result<(), String>)
        requires
            old(self)@.session matches Some(s) ==> next_number_fits(s.steps.len()),
        ensures
            match old(self)@.session {
                None => r matches Err(e) && e@ == no_session_text() && final(self)@ == old(self)@,
                Some(s) => {
                    &&& r is Ok
                    &&& final(self)@.session matches Some(f) && f.steps.len() == s.steps.len() + 1
                        && final(self)@ == (ManagerView {
                        session: Some(
                            SessionView {
                                steps: s.steps.push(
                                    new_step(
                                        f.steps.last().id,
                                        s.steps.len(),
                                        f.steps.last().timestamp,
                                        event,
                                        screenshot_raw@,
                                        opt_bytes(screenshot_annotated),
                                        window_title.deep_view(),
                                        input_text.deep_view(),
                                    ),
                                ),
                                ..s
                            },
                        ),
                        ..old(self)@
                    }) && is_random_uuid(f.steps.last().id) && f.steps.last().timestamp >= 0
                },
            },
    {
        match &mut self.session {
            None => Err(text("No active session")),
            Some(session) => {
                let number = session.next_step_number();
                let caption = event.auto_description(&window_title);
                let t = now();
                let ghost expected = new_step(
                    0,
                    session@.steps.len(),
                    t@,
                    event,
                    screenshot_raw@,
                    opt_bytes(screenshot_annotated),
                    window_title.deep_view(),
                    input_text.deep_view(),
                );
                let step = Step {
                    id: new_id(),
                    number,
                    timestamp: t,
                    event,
                    caption,
                    window_title,
                    screenshot_raw,
                    screenshot_annotated,
                    input_text,
                };
                assert(step@ == (StepView { id: step.id, ..expected }));
                session.add_step(step);
                Ok(())
            },
        }
    }

    /// Keeps a background capture in the buffer, after dropping the entries
    /// older than the buffer's age limit: those whose time is before the
    /// capture's own time (the current time, read once) minus the limit.
    pub fn add_buffer_entry(&mut self, screenshot: Vec<u8>, window_title: Option<String>) -> (r:
        Result<(), String>)
        requires
            old(self).buffer_max_seconds <= MAX_BUFFER_SECONDS,
        ensures
            match old(self)@.session {
                None => r matches Err(e) && e@ == no_session_text() && final(self)@ == old(self)@,
                Some(s) => {
                    &&& r is Ok
                    &&& final(self)@.session matches Some(f) && f.buffer.len() >= 1
                        && final(self)@ == (ManagerView {
                        session: Some(
                            SessionView {
                                buffer: kept_entries(
                                    s.buffer,
                                    f.buffer.last().timestamp - old(self).buffer_max_seconds
                                        * 1_000_000_000,
                                ).push(f.buffer.last()),
                                ..s
                            },
                        ),
                        ..old(self)@
                    }) && f.buffer.last().screenshot == screenshot@ && f.buffer.last().window_title
                        == window_title.deep_view() && is_random_uuid(f.buffer.last().id)
                        && f.buffer.last().timestamp >= 0
                },
            },
    {
        let max = self.buffer_max_seconds;
        if self.session.is_none() {
            return Err(text("No active session"));
        }
        let mut session = self.session.take().unwrap();
        let ghost old_buffer = session@.buffer;
        let t = now();
        let entry = BufferEntry { id: new_id(), timestamp: t, window_title, screenshot };
        let cutoff = t.minus_seconds(max as i64);
        let ghost c = cutoff@;
        prune_buffer(&mut session.buffer, &cutoff);
        let ghost ev = entry@;
        assert(c == ev.timestamp - max * 1_000_000_000);
        session.buffer.push(entry);
        assert(buffer_view(session.buffer@) =~= kept_entries(old_buffer, c).push(ev));
        self.session = Some(session);
        Ok(())
    }

    /// Promotes a buffer entry to a step with the given caption.
    pub fn promote_buffer_entry(&mut self, buffer_id: u128, caption: String) -> (r: Result<
        (),
        String,
    >)
        requires
            old(self)@.session matches Some(s) ==> next_number_fits(s.steps.len()),
        ensures
            match old(self)@.session {
                None => r matches Err(e) && e@ == no_session_text() && final(self)@ == old(self)@,
                Some(s) => match first_index(entry_ids(s.buffer), buffer_id) {
                    None => r matches Err(e) && e@ == "Buffer entry not found"@ && final(self)@
                        == old(self)@,
                    Some(i) => {
                        &&& r is Ok
                        &&& final(self)@.session matches Some(f) && f.steps.len() == s.steps.len()
                            + 1 && final(self)@ == (ManagerView {
                            session: Some(
                                SessionView {
                                    steps: s.steps.push(
                                        promoted_step(
                                            s.buffer[i],
                                            f.steps.last().id,
                                            next_number(s.steps.len()),
                                            caption@,
                                        ),
                                    ),
                                    ..s
                                },
                            ),
                            ..old(self)@
                        }) && is_random_uuid(f.steps.last().id)
                    },
                },
            },
    {
        match &mut self.session {
            None => Err(text("No active session")),
            Some(session) => {
                match session.promote_buffer(buffer_id, caption) {
                    Some(_) => Ok(()),
                    None => Err(text("Buffer entry not found")),
                }
            },
        }
    }

    /// Sets the capture mode of the manager and of its session.
    pub fn set_capture_mode(&mut self, mode: CaptureMode)
        ensures
            final(self)@ == set_mode_spec(old(self)@, mode),
    {
        self.capture_mode = mode;
        match &mut self.session {
            Some(session) => {
                session.capture_mode = mode;
            },
            None => {},
        }
    }

    /// Sets how long, in seconds, background captures are kept.
    pub fn set_buffer_max_seconds(&mut self, seconds: u64)
        ensures
            final(self)@ == (ManagerView { buffer_max_seconds: seconds, ..old(self)@ }),
    {
        self.buffer_max_seconds = seconds;
    }
}

/// Drops the buffer entries that are older than `cutoff`, keeping the order
/// of the others.
pub fn prune_buffer(buffer: &mut Vec<BufferEntry>, cutoff: &Timestamp)
    ensures
        buffer_view(final(buffer)@) == kept_entries(buffer_view(old(buffer)@), cutoff@),
{
    let mut rest: Vec<BufferEntry> = Vec::new();
    std::mem::swap(&mut rest, buffer);
    let ghost all = buffer_view(rest@);
    let mut i: usize = 0;
    let n = rest.len();
    while rest.len() > 0
        invariant
            n == all.len(),
            i + rest.len() == n,
            buffer_view(rest@) == all.subrange(i as int, n as int),
            buffer_view(buffer@) == kept_entries(all.subrange(0, i as int), cutoff@),
        decreases rest.len(),
    {
        let ghost before_rest = rest@;
        let ghost tail = all.subrange(i as int, n as int);
        let e = rest.remove(0);
        assert forall|k: int| 0 <= k < rest@.len() implies #[trigger] buffer_view(rest@)[k]
            == all.subrange(i + 1, n as int)[k] by {
            assert(rest@[k] == before_rest[k + 1]);
            assert(buffer_view(before_rest)[k + 1] == tail[k + 1]);
        }
        let ghost ev = e@;
        assert(ev == all[i as int]) by {
            assert(buffer_view(before_rest)[0] == ev);
        }
        let keep = e.timestamp.at_or_after(cutoff);
        let ghost before = buffer_view(buffer@);
        if keep {
            buffer.push(e);
            assert(buffer_view(buffer@) =~= before.push(ev));
        }
        proof {
            let pre = all.subrange(0, i + 1);
            assert(pre.drop_last() =~= all.subrange(0, i as int));
            assert(pre.last() == ev);
        }
        i = i + 1;
        assert(buffer_view(rest@) =~= all.subrange(i as int, n as int));
    }
    assert(all.subrange(0, i as int) =~= all);
}

// ---------------------------------------------------------------------------
// Laws of the state machine
// ---------------------------------------------------------------------------

/// Pausing and then resuming a recording gives back the same manager.
pub proof fn law_pause_then_resume(m: ManagerView)
    requires
        m.state == RecordingState::Recording,
    ensures
        pause_spec(m) matches Some(p) && resume_spec(p) == Some(m),
{
}

/// Resuming and then pausing a paused recording gives back the same manager.
pub proof fn law_resume_then_pause(m: ManagerView)
    requires
        m.state == RecordingState::Paused,
    ensures
        resume_spec(m) matches Some(p) && pause_spec(p) == Some(m),
{
}

/// Every transition keeps a consistent manager consistent: whenever the state
/// is not `Idle` there is a session.
pub proof fn law_transitions_keep_consistency(
    m: ManagerView,
    title: Seq<char>,
    id: u128,
    t: int,
    mode: CaptureMode,
)
    requires
        consistent(m),
    ensures
        start_spec(m, title, id, t) matches Some(n) ==> consistent(n),
        pause_spec(m) matches Some(n) ==> consistent(n),
        resume_spec(m) matches Some(n) ==> consistent(n),
        stop_spec(m, t) matches Some(n) ==> consistent(n),
        consistent(set_mode_spec(m, mode)),
{
}

/// Whether the manager has a session exactly when it is not idle.
pub open spec fn session_iff_active(m: ManagerView) -> bool {
    (m.session is None) == (m.state == RecordingState::Idle)
}

/// Every operation keeps "a session exactly when not idle", as `new` sets it
/// up, and none returns to `Idle` once it is left: the transitions (allowed
/// or refused, as their contracts describe them), setting the capture mode,
/// and the edits of an existing session (`add_step`, `add_buffer_entry`,
/// `promote_buffer_entry` and the step edits replace the session by another,
/// or change nothing).
pub proof fn law_session_iff_active(
    m: ManagerView,
    n: ManagerView,
    title: Seq<char>,
    r: Result<(), Seq<char>>,
    mode: CaptureMode,
    edited: SessionView,
)
    requires
        session_iff_active(m),
    ensures
        start_post(m, n, title, r) ==> session_iff_active(n) && (m.state != RecordingState::Idle
            ==> n.state != RecordingState::Idle),
        pause_post(m, n, r) ==> session_iff_active(n) && (m.state != RecordingState::Idle
            ==> n.state != RecordingState::Idle),
        resume_post(m, n, r) ==> session_iff_active(n) && (m.state != RecordingState::Idle
            ==> n.state != RecordingState::Idle),
        stop_post(m, n, r) ==> session_iff_active(n) && (m.state != RecordingState::Idle
            ==> n.state != RecordingState::Idle),
        session_iff_active(set_mode_spec(m, mode)),
        set_mode_spec(m, mode).state == m.state,
        m.session is Some ==> session_iff_active(ManagerView { session: Some(edited), ..m }),
{
}

/// From `Stopped`, pausing, resuming and stopping are refused: a stopped
/// session is never resumed, only a new start leaves that state.
pub proof fn law_stopped_only_restarts(m: ManagerView, t: int)
    requires
        m.state == RecordingState::Stopped,
    ensures
        pause_spec(m) is None,
        resume_spec(m) is None,
        stop_spec(m, t) is None,
{
}

/// A transition that is allowed always lands in the state its name says, and
/// keeps the manager's capture mode and buffer age.
pub proof fn law_transition_targets(m: ManagerView, title: Seq<char>, id: u128, t: int)
    ensures
        start_spec(m, title, id, t) matches Some(n) ==> n.state == RecordingState::Recording
            && n.capture_mode == m.capture_mode && n.buffer_max_seconds == m.buffer_max_seconds,
        pause_spec(m) matches Some(n) ==> n.state == RecordingState::Paused && n.session
            == m.session,
        resume_spec(m) matches Some(n) ==> n.state == RecordingState::Recording && n.session
            == m.session,
        stop_spec(m, t) matches Some(n) ==> n.state == RecordingState::Stopped
            && n.capture_mode == m.capture_mode,
{
}

/// Starting succeeds exactly from `Idle` and `Stopped`, and a start that
/// succeeds begins a new recording: the session has the given title and the
/// manager's capture mode, no steps (the next step is number 1), no buffered
/// captures and no stop time; the manager records, with its capture mode and
/// buffer age unchanged. Nothing of an earlier session is carried over.
pub proof fn law_start_begins_empty_session(
    m: ManagerView,
    n: ManagerView,
    title: Seq<char>,
    r: Result<(), Seq<char>>,
)
    requires
        start_post(m, n, title, r),
    ensures
        (r is Ok) == (m.state == RecordingState::Idle || m.state == RecordingState::Stopped),
        r is Ok ==> {
            &&& n.state == RecordingState::Recording
            &&& n.capture_mode == m.capture_mode
            &&& n.buffer_max_seconds == m.buffer_max_seconds
            &&& n.session matches Some(s) && s.title == title && s.capture_mode == m.capture_mode
                && s.steps.len() == 0 && s.buffer.len() == 0 && s.stopped_at is None
                && next_number(s.steps.len()) == 1
        },
        r is Err ==> n == m,
{
}

/// Pruning keeps exactly the entries at or after the cutoff, in their order:
/// it is the buffer filtered by age, so every recent entry stays, whatever
/// the others are, and every older one goes.
pub proof fn law_pruning_is_filter_by_age(buf: Seq<BufferEntryView>, cutoff: int)
    ensures
        kept_entries(buf, cutoff) == buf.filter(|e: BufferEntryView| e.timestamp >= cutoff),
        forall|k: int|
            0 <= k < buf.len() && (#[trigger] buf[k]).timestamp >= cutoff ==> kept_entries(
                buf,
                cutoff,
            ).contains(buf[k]),
        forall|k: int|
            0 <= k < buf.len() && (#[trigger] buf[k]).timestamp < cutoff ==> !kept_entries(
                buf,
                cutoff,
            ).contains(buf[k]),
    decreases buf.len(),
{
    let pred = |e: BufferEntryView| e.timestamp >= cutoff;
    reveal(Seq::filter);
    if buf.len() > 0 {
        law_pruning_is_filter_by_age(buf.drop_last(), cutoff);
    }
    assert(kept_entries(buf, cutoff) == buf.filter(pred));
    assert forall|k: int| 0 <= k < buf.len() && (#[trigger] buf[k]).timestamp >= cutoff implies kept_entries(
        buf,
        cutoff,
    ).contains(buf[k]) by {
        buf.lemma_filter_contains(pred, k);
    }
    law_pruning_keeps_recent_entries(buf, cutoff);
}

/// Each transition's outcome: pausing, resuming and stopping succeed exactly
/// from the states that allow them; a refused one changes nothing; pausing
/// and resuming change only the state; stopping changes only the state and
/// the session's stop time (at or after the epoch), keeping its steps,
/// buffer, title and identifier.
pub proof fn law_transition_outcomes(m: ManagerView, n: ManagerView, r: Result<(), Seq<char>>)
    ensures
        pause_post(m, n, r) ==> (r is Ok) == (m.state == RecordingState::Recording) && (r is Ok
            ==> n == ManagerView { state: RecordingState::Paused, ..m }) && (r is Err ==> n == m),
        resume_post(m, n, r) ==> (r is Ok) == (m.state == RecordingState::Paused) && (r is Ok
            ==> n == ManagerView { state: RecordingState::Recording, ..m }) && (r is Err ==> n
            == m),
        stop_post(m, n, r) ==> (r is Ok) == (m.state == RecordingState::Recording || m.state
            == RecordingState::Paused) && (r is Err ==> n == m),
        stop_post(m, n, r) && r is Ok ==> {
            &&& n.state == RecordingState::Stopped
            &&& n.capture_mode == m.capture_mode
            &&& n.buffer_max_seconds == m.buffer_max_seconds
            &&& (m.session matches Some(s) ==> (n.session matches Some(f) && f.steps == s.steps
                && f.buffer == s.buffer && f.title == s.title && f.id == s.id && f.started_at
                == s.started_at && f.capture_mode == s.capture_mode && (f.stopped_at matches Some(
                t,
            ) && t >= 0)))
            &&& (m.session is None ==> n.session is None)
        },
{
}

/// A recorded step carries what it was recorded with: its event, screenshots,
/// window and typed text, the time and identifier given, the next number
/// after the existing steps, and the caption written for its event in its
/// window.
pub proof fn law_recorded_step_carries_its_event(
    id: u128,
    len: nat,
    t: int,
    event: StepEvent,
    raw: Seq<u8>,
    annotated: Option<Seq<u8>>,
    window_title: Option<Seq<char>>,
    input_text: Option<Seq<char>>,
)
    requires
        len < u32::MAX,
    ensures
        ({
            let st = new_step(id, len, t, event, raw, annotated, window_title, input_text);
            &&& st.id == id && st.timestamp == t && st.event == event
            &&& st.number == len + 1
            &&& st.screenshot_raw == raw && st.screenshot_annotated == annotated
            &&& st.window_title == window_title && st.input_text == input_text
            &&& st.caption == description_text(event, window_title)
        }),
{
    assert(len % 0x1_0000_0000 == len);
}

/// Every entry kept after pruning is at or after the cutoff, and pruning
/// never adds an entry.
pub proof fn law_pruning_keeps_recent_entries(buf: Seq<BufferEntryView>, cutoff: int)
    ensures
        kept_entries(buf, cutoff).len() <= buf.len(),
        forall|k: int|
            0 <= k < kept_entries(buf, cutoff).len() ==> #[trigger] kept_entries(
                buf,
                cutoff,
            )[k].timestamp >= cutoff,
        forall|k: int|
            0 <= k < kept_entries(buf, cutoff).len() ==> buf.contains(
                #[trigger] kept_entries(buf, cutoff)[k],
            ),
    decreases buf.len(),
{
    if buf.len() > 0 {
        law_pruning_keeps_recent_entries(buf.drop_last(), cutoff);
        let rest = kept_entries(buf.drop_last(), cutoff);
        assert forall|k: int| 0 <= k < kept_entries(buf, cutoff).len() implies buf.contains(
            #[trigger] kept_entries(buf, cutoff)[k],
        ) by {
            if k < rest.len() {
                let x = rest[k];
                let j = choose|j: int| 0 <= j < buf.drop_last().len() && buf.drop_last()[j] == x;
                assert(buf[j] == x);
            } else {
                assert(buf[buf.len() - 1] == buf.last());
            }
        }
    }
}

/// Pruning keeps every entry at or after the cutoff.
pub proof fn law_pruning_keeps_all_recent(buf: Seq<BufferEntryView>, cutoff: int)
    requires
        forall|k: int| 0 <= k < buf.len() ==> (#[trigger] buf[k]).timestamp >= cutoff,
    ensures
        kept_entries(buf, cutoff) == buf,
    decreases buf.len(),
{
    if buf.len() > 0 {
        law_pruning_keeps_all_recent(buf.drop_last(), cutoff);
        assert(buf.drop_last().push(buf.last()) =~= buf);
    } else {
        assert(buf =~= Seq::<BufferEntryView>::empty());
    }
}

} // verus!
