//! The operations the front end invokes on the recorder, and the records it
//! is shown.
use vstd::prelude::*;
use crate::clock::{
    clock_text, date_clock_text, local_time_text, FOUR_DIGIT_YEAR_FIRST, FOUR_DIGIT_YEAR_LAST,
};
use crate::ids::{base64_encode, base64_standard, id_text, parse_id, uuid_parse, uuid_text};
use crate::manager::{
    no_session_text, outcome, pause_post, resume_post, set_mode_spec, start_post, stop_post,
    ManagerView, SessionManager,
};
use crate::model::{
    copy_opt_text, event_debug_text, find_step, first_index, state_name, step_ids, steps_view, CaptureMode,
    SessionView, Step, StepView,
};
use crate::text::{
    append_i64, append_str, dec_int, dec_nat, int_error_message, parse_i32, parse_int_spec,
    parse_u32, split, split_on, text, trim, trimmed,
};

verus! {

// ---------------------------------------------------------------------------
// Records for the front end
// ---------------------------------------------------------------------------

/// A step as the front end lists it.
#[derive(Debug, Clone)]
pub struct StepDto {
    pub id: String,
    pub number: u32,
    pub timestamp: String,
    pub event_type: String,
    pub caption: String,
    pub window_title: Option<String>,
    pub input_text: Option<String>,
    pub has_screenshot: bool,
}

/// A buffer entry as the front end lists it.
#[derive(Debug, Clone)]
pub struct BufferEntryDto {
    pub id: String,
    pub timestamp: String,
    pub window_title: Option<String>,
}

/// The recorder's status as the front end shows it.
#[derive(Debug, Clone)]
pub struct SessionStatusDto {
    pub state: String,
    pub step_count: usize,
    pub buffer_count: usize,
    pub capture_mode: String,
}

/// How the status names a capture mode.
pub open spec fn mode_text(m: CaptureMode) -> Seq<char> {
    match m {
        CaptureMode::FullScreen => "fullscreen"@,
        CaptureMode::Window(id) => "window:"@ + dec_nat(id as nat),
        CaptureMode::Region { x, y, w, h } => "region:"@ + dec_nat(w as nat) + "x"@ + dec_nat(
            h as nat,
        ) + "+"@ + dec_int(x as int) + "+"@ + dec_int(y as int),
    }
}

/// The name of a capture mode as the status shows it.
pub fn capture_mode_text(m: &CaptureMode) -> (r: String)
    ensures
        r@ == mode_text(*m),
{
    match m {
        CaptureMode::FullScreen => text("fullscreen"),
        CaptureMode::Window(id) => {
            let mut s = text("window:");
            append_i64(&mut s, *id as i64);
            s
        },
        CaptureMode::Region { x, y, w, h } => {
            let mut s = text("region:");
            append_i64(&mut s, *w as i64);
            append_str(&mut s, "x");
            append_i64(&mut s, *h as i64);
            append_str(&mut s, "+");
            append_i64(&mut s, *x as i64);
            append_str(&mut s, "+");
            append_i64(&mut s, *y as i64);
            s
        },
    }
}

// ---------------------------------------------------------------------------
// Recording control
// ---------------------------------------------------------------------------

/// Starts recording a new session with the given title.
pub fn start_recording(mgr: &mut SessionManager, title: String) -> (r: Result<(), String>)
    ensures
        start_post(old(mgr)@, final(mgr)@, title@, outcome(r)),
{
    mgr.start(title)
}

/// Stops recording.
pub fn stop_recording(mgr: &mut SessionManager) -> (r: Result<(), String>)
    ensures
        stop_post(old(mgr)@, final(mgr)@, outcome(r)),
{
    mgr.stop()
}

/// Pauses recording.
pub fn pause_recording(mgr: &mut SessionManager) -> (r: Result<(), String>)
    ensures
        pause_post(old(mgr)@, final(mgr)@, outcome(r)),
{
    mgr.pause()
}

/// Resumes a paused recording.
pub fn resume_recording(mgr: &mut SessionManager) -> (r: Result<(), String>)
    ensures
        resume_post(old(mgr)@, final(mgr)@, outcome(r)),
{
    mgr.resume()
}

// ---------------------------------------------------------------------------
// Listings
// ---------------------------------------------------------------------------

/// The recorder's state, the number of steps and buffered captures (none
/// without a session), and the capture mode.
pub fn get_session_status(mgr: &SessionManager) -> (r: SessionStatusDto)
    ensures
        r.state@ == state_name(mgr@.state),
        r.step_count == (match mgr@.session {
            Some(s) => s.steps.len(),
            None => 0,
        }),
        r.buffer_count == (match mgr@.session {
            Some(s) => s.buffer.len(),
            None => 0,
        }),
        r.capture_mode@ == mode_text(mgr@.capture_mode),
{
    let (step_count, buffer_count) = match &mgr.session {
        Some(s) => (s.steps.len(), s.buffer.len()),
        None => (0, 0),
    };
    SessionStatusDto {
        state: mgr.state.name(),
        step_count,
        buffer_count,
        capture_mode: capture_mode_text(&mgr.capture_mode),
    }
}

/// Whether a time (nanoseconds since the epoch) lies where the local year has
/// four digits in every time zone.
pub open spec fn four_digit_year(t: int) -> bool {
    FOUR_DIGIT_YEAR_FIRST * 1_000_000_000 <= t < (FOUR_DIGIT_YEAR_LAST + 1) * 1_000_000_000
}

/// How a step is listed, but for its time, which is written in the local
/// time zone as `YYYY-MM-DD HH:MM:SS` (see `get_steps`).
pub open spec fn step_listed(d: StepDto, s: StepView) -> bool {
    &&& d.id@ == uuid_text(s.id)
    &&& d.number == s.number
    &&& d.event_type@ == event_debug_text(s.event)
    &&& d.caption@ == s.caption
    &&& d.window_title.deep_view() == s.window_title
    &&& d.input_text.deep_view() == s.input_text
    &&& d.has_screenshot == (s.screenshot_raw.len() > 0)
}

/// The steps of the session, in order.
pub fn get_steps(mgr: &SessionManager) -> (r: Result<Vec<StepDto>, String>)
    ensures
        mgr@.session is None ==> (r matches Err(e) && e@ == no_session_text()),
        mgr@.session matches Some(s) ==> (r matches Ok(v) && v@.len() == s.steps.len() && forall|
            i: int,
        | 0 <= i < v@.len() ==> step_listed(#[trigger] v@[i], s.steps[i])),
        mgr@.session matches Some(s) ==> (r matches Ok(v) && forall|i: int|
            0 <= i < v@.len() && four_digit_year(s.steps[i].timestamp) ==> date_clock_text(
                (#[trigger] v@[i]).timestamp@,
            )),
{
    match &mgr.session {
        None => Err(text("No active session")),
        Some(session) => {
            let mut out: Vec<StepDto> = Vec::new();
            let mut i: usize = 0;
            while i < session.steps.len()
                invariant
                    i <= session.steps.len(),
                    out@.len() == i,
                    forall|k: int|
                        0 <= k < i ==> step_listed(
                            #[trigger] out@[k],
                            steps_view(session.steps@)[k],
                        ),
                    forall|k: int|
                        0 <= k < i && four_digit_year(steps_view(session.steps@)[k].timestamp)
                            ==> date_clock_text((#[trigger] out@[k]).timestamp@),
                decreases session.steps.len() - i,
            {
                let s = &session.steps[i];
                let dto = StepDto {
                    id: id_text(s.id),
                    number: s.number,
                    timestamp: local_time_text(&s.timestamp, "%Y-%m-%d %H:%M:%S"),
                    event_type: s.event.debug_text(),
                    caption: s.caption.clone(),
                    window_title: copy_opt_text(&s.window_title),
                    input_text: copy_opt_text(&s.input_text),
                    has_screenshot: s.screenshot_raw.len() != 0,
                };
                out.push(dto);
                i = i + 1;
            }
            Ok(out)
        },
    }
}

/// How a buffer entry is listed: its time is a time of day `HH:MM:SS` in the
/// local time zone.
pub open spec fn entry_listed(d: BufferEntryDto, e: crate::model::BufferEntryView) -> bool {
    &&& d.id@ == uuid_text(e.id)
    &&& d.window_title.deep_view() == e.window_title
    &&& clock_text(d.timestamp@)
}

/// The buffered background captures, in order.
pub fn get_buffer_entries(mgr: &SessionManager) -> (r: Result<Vec<BufferEntryDto>, String>)
    ensures
        mgr@.session is None ==> (r matches Err(e) && e@ == no_session_text()),
        mgr@.session matches Some(s) ==> (r matches Ok(v) && v@.len() == s.buffer.len() && forall|
            i: int,
        | 0 <= i < v@.len() ==> entry_listed(#[trigger] v@[i], s.buffer[i])),
{
    match &mgr.session {
        None => Err(text("No active session")),
        Some(session) => {
            let mut out: Vec<BufferEntryDto> = Vec::new();
            let mut i: usize = 0;
            while i < session.buffer.len()
                invariant
                    i <= session.buffer.len(),
                    out@.len() == i,
                    forall|k: int|
                        0 <= k < i ==> entry_listed(
                            #[trigger] out@[k],
                            crate::model::buffer_view(session.buffer@)[k],
                        ),
                decreases session.buffer.len() - i,
            {
                let b = &session.buffer[i];
                let dto = BufferEntryDto {
                    id: id_text(b.id),
                    timestamp: local_time_text(&b.timestamp, "%H:%M:%S"),
                    window_title: copy_opt_text(&b.window_title),
                };
                out.push(dto);
                i = i + 1;
            }
            Ok(out)
        },
    }
}

/// The screenshot shown for a step: the annotated one when there is one,
/// else the raw one.
pub open spec fn shown_screenshot(s: StepView) -> Seq<u8> {
    match s.screenshot_annotated {
        Some(a) => a,
        None => s.screenshot_raw,
    }
}

/// The base64 text of the screenshot of the first step with the given
/// identifier.
pub fn get_step_screenshot(mgr: &SessionManager, step_id: &str) -> (r: Result<String, String>)
    ensures
        mgr@.session is None ==> (r matches Err(e) && e@ == no_session_text()),
        mgr@.session matches Some(s) ==> match uuid_parse(step_id@) {
            Err(msg) => r matches Err(e) && e@ == msg,
            Ok(id) => match first_index(step_ids(s.steps), id) {
                None => r matches Err(e) && e@ == "Step not found"@,
                Some(i) => r matches Ok(b) && b@ == base64_standard(shown_screenshot(s.steps[i])),
            },
        },
        mgr@.session is Some ==> forall|v: u128|
            step_id@ == uuid_text(v) ==> (uuid_parse(step_id@) == Ok::<u128, Seq<char>>(v)),
{
    match &mgr.session {
        None => Err(text("No active session")),
        Some(session) => {
            let id = match parse_id(step_id) {
                Ok(id) => id,
                Err(e) => {
                    return Err(e);
                },
            };
            match find_step(&session.steps, id) {
                None => Err(text("Step not found")),
                Some(i) => {
                    let step = &session.steps[i];
                    match &step.screenshot_annotated {
                        Some(a) => Ok(base64_encode(a.as_slice())),
                        None => Ok(base64_encode(step.screenshot_raw.as_slice())),
                    }
                },
            }
        },
    }
}

// ---------------------------------------------------------------------------
// Editing the steps
// ---------------------------------------------------------------------------

/// Promotes the buffered capture with the given identifier to a step with the
/// given caption.
pub fn promote_buffer(mgr: &mut SessionManager, buffer_id: &str, caption: String) -> (r: Result<
    (),
    String,
>)
    requires
        old(mgr)@.session matches Some(s) ==> crate::model::next_number_fits(s.steps.len()),
    ensures
        match uuid_parse(buffer_id@) {
            Err(msg) => r matches Err(e) && e@ == msg && final(mgr)@ == old(mgr)@,
            Ok(id) => match old(mgr)@.session {
                None => r matches Err(e) && e@ == no_session_text() && final(mgr)@ == old(mgr)@,
                Some(s) => match first_index(crate::model::entry_ids(s.buffer), id) {
                    None => r matches Err(e) && e@ == "Buffer entry not found"@ && final(mgr)@
                        == old(mgr)@,
                    Some(i) => {
                        &&& r is Ok
                        &&& final(mgr)@.session matches Some(f) && f.steps.len() == s.steps.len()
                            + 1 && final(mgr)@ == (ManagerView {
                            session: Some(
                                SessionView {
                                    steps: s.steps.push(
                                        crate::model::promoted_step(
                                            s.buffer[i],
                                            f.steps.last().id,
                                            crate::model::next_number(s.steps.len()),
                                            caption@,
                                        ),
                                    ),
                                    ..s
                                },
                            ),
                            ..old(mgr)@
                        }) && crate::ids::is_random_uuid(f.steps.last().id)
                    },
                },
            },
        },
        forall|v: u128|
            buffer_id@ == uuid_text(v) ==> (uuid_parse(buffer_id@) == Ok::<u128, Seq<char>>(v)),
{
    let id = match parse_id(buffer_id) {
        Ok(id) => id,
        Err(e) => {
            return Err(e);
        },
    };
    mgr.promote_buffer_entry(id, caption)
}

/// The steps with the caption of the step at `i` replaced.
pub open spec fn with_caption(steps: Seq<StepView>, i: int, caption: Seq<char>) -> Seq<StepView> {
    steps.update(i, StepView { caption, ..steps[i] })
}

/// The manager with its session's steps replaced.
pub open spec fn with_steps(m: ManagerView, steps: Seq<StepView>) -> ManagerView {
    ManagerView {
        session: match m.session {
            Some(s) => Some(SessionView { steps, ..s }),
            None => None,
        },
        ..m
    }
}

/// Sets the caption of the first step with the given identifier.
pub fn update_step_caption(mgr: &mut SessionManager, step_id: &str, caption: String) -> (r: Result<
    (),
    String,
>)
    ensures
        old(mgr)@.session is None ==> (r matches Err(e) && e@ == no_session_text() && final(mgr)@
            == old(mgr)@),
        old(mgr)@.session matches Some(s) ==> match uuid_parse(step_id@) {
            Err(msg) => r matches Err(e) && e@ == msg && final(mgr)@ == old(mgr)@,
            Ok(id) => match first_index(step_ids(s.steps), id) {
                None => r matches Err(e) && e@ == "Step not found"@ && final(mgr)@ == old(mgr)@,
                Some(i) => r is Ok && final(mgr)@ == with_steps(
                    old(mgr)@,
                    with_caption(s.steps, i, caption@),
                ),
            },
        },
        old(mgr)@.session is Some ==> forall|v: u128|
            step_id@ == uuid_text(v) ==> (uuid_parse(step_id@) == Ok::<u128, Seq<char>>(v)),
{
    if mgr.session.is_none() {
        return Err(text("No active session"));
    }
    let id = match parse_id(step_id) {
        Ok(id) => id,
        Err(e) => {
            return Err(e);
        },
    };
    let mut session = mgr.session.take().unwrap();
    let ghost before = session@;
    match find_step(&session.steps, id) {
        None => {
            mgr.session = Some(session);
            Err(text("Step not found"))
        },
        Some(i) => {
            let step = session.steps.remove(i);
            let ghost sv = step@;
            let changed = Step { caption, ..step };
            session.steps.insert(i, changed);
            assert(steps_view(session.steps@) =~= with_caption(before.steps, i as int, caption@));
            mgr.session = Some(session);
            Ok(())
        },
    }
}

/// The steps without those with the given identifier.
pub open spec fn steps_without(steps: Seq<StepView>, id: u128) -> Seq<StepView>
    decreases steps.len(),
{
    if steps.len() == 0 {
        Seq::empty()
    } else {
        let rest = steps_without(steps.drop_last(), id);
        if steps.last().id != id {
            rest.push(steps.last())
        } else {
            rest
        }
    }
}

/// The steps numbered 1, 2, 3, ... in their order.
pub open spec fn renumbered(steps: Seq<StepView>) -> Seq<StepView> {
    Seq::new(steps.len(), |i: int| StepView { number: (i + 1) as u32, ..steps[i] })
}

proof fn lemma_renumbered_push(x: Seq<StepView>, v: StepView)
    ensures
        renumbered(x.push(v)) == renumbered(x).push(StepView { number: (x.len() + 1) as u32, ..v }),
{
    assert(renumbered(x.push(v)) =~= renumbered(x).push(
        StepView { number: (x.len() + 1) as u32, ..v },
    ));
}

/// Whether the steps are numbered 1, 2, 3, ... in their order.
pub open spec fn numbered_in_order(steps: Seq<StepView>) -> bool {
    forall|i: int| 0 <= i < steps.len() ==> #[trigger] steps[i].number == i + 1
}

/// Removes every step with the given identifier and numbers the remaining
/// steps 1, 2, 3, ... in their order.
pub fn delete_step(mgr: &mut SessionManager, step_id: &str) -> (r: Result<(), String>)
    requires
        old(mgr)@.session matches Some(s) ==> s.steps.len() <= u32::MAX,
    ensures
        old(mgr)@.session is None ==> (r matches Err(e) && e@ == no_session_text() && final(mgr)@
            == old(mgr)@),
        old(mgr)@.session matches Some(s) ==> match uuid_parse(step_id@) {
            Err(msg) => r matches Err(e) && e@ == msg && final(mgr)@ == old(mgr)@,
            Ok(id) => r is Ok && final(mgr)@ == with_steps(
                old(mgr)@,
                renumbered(steps_without(s.steps, id)),
            ),
        },
        old(mgr)@.session is Some ==> forall|v: u128|
            step_id@ == uuid_text(v) ==> (uuid_parse(step_id@) == Ok::<u128, Seq<char>>(v)),
{
    if mgr.session.is_none() {
        return Err(text("No active session"));
    }
    let id = match parse_id(step_id) {
        Ok(id) => id,
        Err(e) => {
            return Err(e);
        },
    };
    let mut session = mgr.session.take().unwrap();
    let mut rest: Vec<Step> = Vec::new();
    std::mem::swap(&mut rest, &mut session.steps);
    let ghost all = steps_view(rest@);
    let n = rest.len();
    let mut kept: Vec<Step> = Vec::new();
    let mut i: usize = 0;
    while rest.len() > 0
        invariant
            n == all.len(),
            n <= u32::MAX,
            i + rest.len() == n,
            steps_view(rest@) == all.subrange(i as int, n as int),
            steps_view(kept@) == renumbered(steps_without(all.subrange(0, i as int), id)),
            kept@.len() <= i,
        decreases rest.len(),
    {
        let ghost before_rest = rest@;
        let ghost tail = all.subrange(i as int, n as int);
        let step = rest.remove(0);
        let ghost sv = step@;
        assert(sv == all[i as int]) by {
            assert(steps_view(before_rest)[0] == sv);
        }
        assert forall|k: int| 0 <= k < rest@.len() implies #[trigger] steps_view(rest@)[k]
            == all.subrange(i + 1, n as int)[k] by {
            assert(rest@[k] == before_rest[k + 1]);
            assert(steps_view(before_rest)[k + 1] == tail[k + 1]);
        }
        proof {
            let pre = all.subrange(0, i + 1);
            assert(pre.drop_last() =~= all.subrange(0, i as int));
            assert(pre.last() == sv);
        }
        if step.id != id {
            let number = (kept.len() as u32) + 1;
            let ghost prev = steps_without(all.subrange(0, i as int), id);
            kept.push(step.with_number(number));
            proof {
                lemma_renumbered_push(prev, sv);
            }
            assert(steps_view(kept@) =~= renumbered(steps_without(all.subrange(0, i + 1), id)));
        } else {
            assert(steps_view(kept@) =~= renumbered(steps_without(all.subrange(0, i + 1), id)));
        }
        i = i + 1;
        assert(steps_view(rest@) =~= all.subrange(i as int, n as int));
    }
    assert(all.subrange(0, i as int) =~= all);
    session.steps = kept;
    mgr.session = Some(session);
    Ok(())
}

/// The ids of a list of texts, read with `Uuid::parse_str`: the first error
/// met, in order, or all the values.
pub open spec fn parse_all_ids(texts: Seq<Seq<char>>) -> Result<Seq<u128>, Seq<char>>
    decreases texts.len(),
{
    if texts.len() == 0 {
        Ok(Seq::empty())
    } else {
        match parse_all_ids(texts.drop_last()) {
            Err(e) => Err(e),
            Ok(v) => match uuid_parse(texts.last()) {
                Err(e) => Err(e),
                Ok(x) => Ok(v.push(x)),
            },
        }
    }
}

/// The steps picked by the given identifiers, in that order: for each the
/// first step that has it; `None` when some identifier names no step.
pub open spec fn picked_steps(steps: Seq<StepView>, ids: Seq<u128>) -> Option<Seq<StepView>>
    decreases ids.len(),
{
    if ids.len() == 0 {
        Some(Seq::empty())
    } else {
        match picked_steps(steps, ids.drop_last()) {
            None => None,
            Some(v) => match first_index(step_ids(steps), ids.last()) {
                None => None,
                Some(i) => Some(v.push(steps[i])),
            },
        }
    }
}

/// The texts of a vector of strings.
pub open spec fn texts_of(v: Seq<String>) -> Seq<Seq<char>> {
    v.map_values(|s: String| s@)
}

/// Whether the texts are, one for one, the hyphenated forms of the given
/// identifiers (as `get_steps` lists them).
pub open spec fn names_ids(texts: Seq<Seq<char>>, ids: Seq<u128>) -> bool {
    &&& texts.len() == ids.len()
    &&& forall|j: int| 0 <= j < ids.len() ==> #[trigger] texts[j] == uuid_text(ids[j])
}

/// Replaces the steps by the steps named by the given identifiers, in that
/// order, numbered 1, 2, 3, ...; an identifier that does not parse or names
/// no step leaves the steps as they were.
pub fn reorder_steps(mgr: &mut SessionManager, step_ids_text: Vec<String>) -> (r: Result<
    (),
    String,
>)
    requires
        step_ids_text@.len() <= u32::MAX,
    ensures
        old(mgr)@.session is None ==> (r matches Err(e) && e@ == no_session_text() && final(mgr)@
            == old(mgr)@),
        old(mgr)@.session matches Some(s) ==> match parse_all_ids(texts_of(step_ids_text@)) {
            Err(msg) => r matches Err(e) && e@ == msg && final(mgr)@ == old(mgr)@,
            Ok(ids) => match picked_steps(s.steps, ids) {
                None => r matches Err(e) && e@ == "Step not found"@ && final(mgr)@ == old(mgr)@,
                Some(picked) => r is Ok && final(mgr)@ == with_steps(
                    old(mgr)@,
                    renumbered(picked),
                ),
            },
        },
        old(mgr)@.session is Some ==> forall|vs: Seq<u128>|
            #![trigger names_ids(texts_of(step_ids_text@), vs)]
            names_ids(texts_of(step_ids_text@), vs) ==> parse_all_ids(texts_of(step_ids_text@))
                == Ok::<Seq<u128>, Seq<char>>(vs),
{
    if mgr.session.is_none() {
        return Err(text("No active session"));
    }
    let ghost texts = texts_of(step_ids_text@);
    let mut ids: Vec<u128> = Vec::new();
    let mut k: usize = 0;
    while k < step_ids_text.len()
        invariant
            k <= step_ids_text@.len(),
            ids@.len() == k,
            mgr@ == old(mgr)@,
            old(mgr)@.session is Some,
            parse_all_ids(texts_of(step_ids_text@).subrange(0, k as int)) == Ok::<
                Seq<u128>,
                Seq<char>,
            >(ids@),
            texts == texts_of(step_ids_text@),
            forall|vs: Seq<u128>|
                #![trigger names_ids(texts, vs)]
                names_ids(texts, vs) ==> ids@ == vs.subrange(0, k as int),
        decreases step_ids_text@.len() - k,
    {
        let ghost pre = texts_of(step_ids_text@).subrange(0, k + 1);
        assert(pre.drop_last() =~= texts_of(step_ids_text@).subrange(0, k as int));
        assert(pre.last() == step_ids_text@[k as int]@);
        let ghost before = ids@;
        match parse_id(step_ids_text[k].as_str()) {
            Ok(id) => {
                ids.push(id);
                assert forall|vs: Seq<u128>| #[trigger]
                    names_ids(texts, vs) implies ids@ == vs.subrange(0, k + 1) by {
                    assert(texts[k as int] == uuid_text(vs[k as int]));
                    assert(ids@ =~= vs.subrange(0, k + 1));
                }
            },
            Err(e) => {
                proof {
                    lemma_parse_all_prefix_err(texts_of(step_ids_text@), k + 1);
                }
                assert forall|vs: Seq<u128>| #[trigger]
                    names_ids(texts, vs) implies parse_all_ids(texts) == Ok::<
                    Seq<u128>,
                    Seq<char>,
                >(vs) by {
                    assert(texts[k as int] == uuid_text(vs[k as int]));
                }
                return Err(e);
            },
        }
        k = k + 1;
    }
    assert forall|vs: Seq<u128>| #[trigger]
        names_ids(texts, vs) implies ids@ == vs by {
        assert(vs.subrange(0, k as int) =~= vs);
    }
    assert(texts_of(step_ids_text@).subrange(0, k as int) =~= texts_of(step_ids_text@));
    let session_ref = mgr.session.as_ref().unwrap();
    let ghost steps = steps_view(session_ref.steps@);
    let mut reordered: Vec<Step> = Vec::with_capacity(ids.len());
    let mut j: usize = 0;
    while j < ids.len()
        invariant
            j <= ids@.len(),
            ids@.len() <= u32::MAX,
            mgr@ == old(mgr)@,
            old(mgr)@.session is Some,
            mgr.session matches Some(sr) && *session_ref == sr,
            parse_all_ids(texts_of(step_ids_text@)) == Ok::<Seq<u128>, Seq<char>>(ids@),
            texts == texts_of(step_ids_text@),
            forall|vs: Seq<u128>|
                #![trigger names_ids(texts, vs)]
                names_ids(texts, vs) ==> ids@ == vs,
            reordered@.len() == j,
            steps == steps_view(session_ref.steps@),
            picked_steps(steps, ids@.subrange(0, j as int)) matches Some(p) && steps_view(
                reordered@,
            ) == renumbered(p),
        decreases ids@.len() - j,
    {
        let ghost pre = ids@.subrange(0, j + 1);
        assert(pre.drop_last() =~= ids@.subrange(0, j as int));
        assert(pre.last() == ids@[j as int]);
        let ghost p = picked_steps(steps, ids@.subrange(0, j as int)).unwrap();
        match find_step(&session_ref.steps, ids[j]) {
            None => {
                proof {
                    lemma_picked_prefix_none(steps, ids@, j + 1);
                }
                return Err(text("Step not found"));
            },
            Some(i) => {
                let copy = session_ref.steps[i].clone();
                let number = (j as u32) + 1;
                let ghost before = steps_view(reordered@);
                reordered.push(copy.with_number(number));
                proof {
                    lemma_renumbered_push(p, steps[i as int]);
                }
                assert(steps_view(reordered@) =~= renumbered(p.push(steps[i as int])));
            },
        }
        j = j + 1;
    }
    assert(ids@.subrange(0, j as int) =~= ids@);
    let mut session = mgr.session.take().unwrap();
    session.steps = reordered;
    mgr.session = Some(session);
    Ok(())
}

proof fn lemma_parse_all_prefix_err(texts: Seq<Seq<char>>, k: int)
    requires
        0 < k <= texts.len(),
        parse_all_ids(texts.subrange(0, k - 1)) is Ok,
        uuid_parse(texts[k - 1]) is Err,
    ensures
        parse_all_ids(texts) == Err::<Seq<u128>, Seq<char>>(uuid_parse(texts[k - 1])->Err_0),
    decreases texts.len() - k,
{
    if k < texts.len() {
        assert(texts.drop_last().subrange(0, k - 1) =~= texts.subrange(0, k - 1));
        assert(texts.drop_last()[k - 1] == texts[k - 1]);
        lemma_parse_all_prefix_err(texts.drop_last(), k);
    } else {
        assert(texts.drop_last() =~= texts.subrange(0, k - 1));
    }
}

proof fn lemma_picked_prefix_none(steps: Seq<StepView>, ids: Seq<u128>, k: int)
    requires
        0 < k <= ids.len(),
        picked_steps(steps, ids.subrange(0, k - 1)) is Some,
        first_index(step_ids(steps), ids[k - 1]) is None,
    ensures
        picked_steps(steps, ids) is None,
    decreases ids.len() - k,
{
    if k < ids.len() {
        assert(ids.drop_last().subrange(0, k - 1) =~= ids.subrange(0, k - 1));
        assert(ids.drop_last()[k - 1] == ids[k - 1]);
        lemma_picked_prefix_none(steps, ids.drop_last(), k);
    } else {
        assert(ids.drop_last() =~= ids.subrange(0, k - 1));
    }
}

// ---------------------------------------------------------------------------
// Capture mode
// ---------------------------------------------------------------------------

/// The region read from parsed parameters: four numbers `x, y, w, h`, the
/// width and height converted with `as u32`.
pub open spec fn region_of(parts: Seq<i32>) -> Result<CaptureMode, Seq<char>> {
    if parts.len() != 4 {
        Err("Region requires 4 params: x,y,w,h"@)
    } else {
        Ok(CaptureMode::Region { x: parts[0], y: parts[1], w: parts[2] as u32, h: parts[3] as u32 })
    }
}

/// The numbers of the comma-separated pieces, each trimmed and read as an
/// `i32`: the message of the first piece that does not read, or the numbers.
pub open spec fn parse_all_i32(pieces: Seq<Seq<char>>) -> Result<Seq<i32>, Seq<char>>
    decreases pieces.len(),
{
    if pieces.len() == 0 {
        Ok(Seq::empty())
    } else {
        match parse_all_i32(pieces.drop_last()) {
            Err(e) => Err(e),
            Ok(v) => match parse_int_spec(trimmed(pieces.last()), i32::MIN as int, i32::MAX as int) {
                Err(e) => Err(int_error_message(e)),
                Ok(x) => Ok(v.push(x as i32)),
            },
        }
    }
}

/// The capture mode a request names, or the message of why it is refused.
pub open spec fn requested_mode(mode: Seq<char>, params: Option<Seq<char>>) -> Result<
    CaptureMode,
    Seq<char>,
> {
    if mode == "fullscreen"@ {
        Ok(CaptureMode::FullScreen)
    } else if mode == "window"@ {
        match params {
            None => Err("Window ID required"@),
            Some(p) => match parse_int_spec(p, 0, u32::MAX as int) {
                Err(e) => Err(int_error_message(e)),
                Ok(id) => Ok(CaptureMode::Window(id as u32)),
            },
        }
    } else if mode == "region"@ {
        match params {
            None => Err("Region params required (x,y,w,h)"@),
            Some(p) => match parse_all_i32(split_on(p, ',')) {
                Err(e) => Err(e),
                Ok(parts) => region_of(parts),
            },
        }
    } else {
        Err("Unknown capture mode: "@ + mode)
    }
}

/// Reads the region parameters `x,y,w,h`.
fn parse_region(p: &str) -> (r: Result<CaptureMode, String>)
    ensures
        match parse_all_i32(split_on(p@, ',')) {
            Err(msg) => r matches Err(e) && e@ == msg,
            Ok(parts) => match region_of(parts) {
                Ok(m) => r == Ok::<CaptureMode, String>(m),
                Err(msg) => r matches Err(e) && e@ == msg,
            },
        },
{
    let pieces = split(p, ',');
    let ghost texts = split_on(p@, ',');
    let mut parts: Vec<i32> = Vec::new();
    let mut k: usize = 0;
    while k < pieces.len()
        invariant
            texts == split_on(p@, ','),
            pieces@.len() == texts.len(),
            forall|i: int| 0 <= i < pieces@.len() ==> (#[trigger] pieces@[i])@ == texts[i],
            k <= pieces.len(),
            parse_all_i32(texts.subrange(0, k as int)) == Ok::<Seq<i32>, Seq<char>>(parts@),
        decreases pieces.len() - k,
    {
        let ghost pre = texts.subrange(0, k + 1);
        assert(pre.drop_last() =~= texts.subrange(0, k as int));
        assert(pre.last() == texts[k as int]);
        assert(pieces@[k as int]@ == texts[k as int]);
        let piece = trim(pieces[k].as_str());
        match parse_i32(piece.as_str()) {
            Ok(v) => {
                parts.push(v);
            },
            Err(e) => {
                proof {
                    lemma_parse_all_i32_prefix_err(texts, k + 1);
                }
                return Err(e.message());
            },
        }
        k = k + 1;
    }
    assert(texts.subrange(0, k as int) =~= texts);
    if parts.len() != 4 {
        return Err(text("Region requires 4 params: x,y,w,h"));
    }
    let w: u32 = #[verifier::truncate] (parts[2] as u32);
    let h: u32 = #[verifier::truncate] (parts[3] as u32);
    Ok(CaptureMode::Region { x: parts[0], y: parts[1], w, h })
}

proof fn lemma_parse_all_i32_prefix_err(pieces: Seq<Seq<char>>, k: int)
    requires
        0 < k <= pieces.len(),
        parse_all_i32(pieces.subrange(0, k - 1)) is Ok,
        parse_int_spec(trimmed(pieces[k - 1]), i32::MIN as int, i32::MAX as int) is Err,
    ensures
        parse_all_i32(pieces) == Err::<Seq<i32>, Seq<char>>(
            int_error_message(
                parse_int_spec(trimmed(pieces[k - 1]), i32::MIN as int, i32::MAX as int)->Err_0,
            ),
        ),
    decreases pieces.len() - k,
{
    if k < pieces.len() {
        assert(pieces.drop_last().subrange(0, k - 1) =~= pieces.subrange(0, k - 1));
        assert(pieces.drop_last()[k - 1] == pieces[k - 1]);
        lemma_parse_all_i32_prefix_err(pieces.drop_last(), k);
    } else {
        assert(pieces.drop_last() =~= pieces.subrange(0, k - 1));
    }
}

/// Reads a capture-mode request: `fullscreen`; `window` with the window id
/// as parameter; `region` with `x,y,w,h` as parameter.
pub fn parse_capture_mode(mode: &str, params: Option<String>) -> (r: Result<CaptureMode, String>)
    ensures
        match requested_mode(mode@, params.deep_view()) {
            Ok(m) => r == Ok::<CaptureMode, String>(m),
            Err(msg) => r matches Err(e) && e@ == msg,
        },
{
    if crate::text::str_eq(mode, "fullscreen") {
        Ok(CaptureMode::FullScreen)
    } else if crate::text::str_eq(mode, "window") {
        match params {
            None => Err(text("Window ID required")),
            Some(p) => match parse_u32(p.as_str()) {
                Ok(id) => Ok(CaptureMode::Window(id)),
                Err(e) => Err(e.message()),
            },
        }
    } else if crate::text::str_eq(mode, "region") {
        match params {
            None => Err(text("Region params required (x,y,w,h)")),
            Some(p) => parse_region(p.as_str()),
        }
    } else {
        let mut s = text("Unknown capture mode: ");
        append_str(&mut s, mode);
        Err(s)
    }
}

/// Sets the capture mode that the request names; a refused request changes
/// nothing.
pub fn set_capture_mode(mgr: &mut SessionManager, mode: &str, params: Option<String>) -> (r: Result<
    (),
    String,
>)
    ensures
        match requested_mode(mode@, params.deep_view()) {
            Ok(m) => r is Ok && final(mgr)@ == set_mode_spec(old(mgr)@, m),
            Err(msg) => r matches Err(e) && e@ == msg && final(mgr)@ == old(mgr)@,
        },
{
    match parse_capture_mode(mode, params) {
        Ok(m) => {
            mgr.set_capture_mode(m);
            Ok(())
        },
        Err(e) => Err(e),
    }
}

} // verus!

verus! {

// ---------------------------------------------------------------------------
// Laws of the step list
// ---------------------------------------------------------------------------

/// Deleting a step leaves no step with its identifier, keeps the other steps
/// in their order (with the same contents but for their numbers), and numbers
/// the steps 1, 2, 3, ...
pub proof fn law_delete_step(steps: Seq<StepView>, id: u128)
    requires
        steps.len() <= u32::MAX,
    ensures
        numbered_in_order(renumbered(steps_without(steps, id))),
        forall|k: int|
            0 <= k < renumbered(steps_without(steps, id)).len() ==> (#[trigger] renumbered(
                steps_without(steps, id),
            )[k]).id != id,
        steps_without(steps, id).len() <= steps.len(),
        (forall|k: int| 0 <= k < steps.len() ==> (#[trigger] steps[k]).id != id)
            ==> steps_without(steps, id) == steps,
{
    lemma_steps_without(steps, id);
}

proof fn lemma_steps_without(steps: Seq<StepView>, id: u128)
    ensures
        steps_without(steps, id).len() <= steps.len(),
        forall|k: int|
            0 <= k < steps_without(steps, id).len() ==> (#[trigger] steps_without(steps, id)[k]).id
                != id,
        (forall|k: int| 0 <= k < steps.len() ==> (#[trigger] steps[k]).id != id)
            ==> steps_without(steps, id) == steps,
    decreases steps.len(),
{
    if steps.len() > 0 {
        lemma_steps_without(steps.drop_last(), id);
        if forall|k: int| 0 <= k < steps.len() ==> (#[trigger] steps[k]).id != id {
            assert forall|k: int| 0 <= k < steps.drop_last().len() implies (
            #[trigger] steps.drop_last()[k]).id != id by {
                assert(steps.drop_last()[k] == steps[k]);
            }
            assert(steps.drop_last().push(steps.last()) =~= steps);
        }
    } else {
        assert(steps =~= Seq::<StepView>::empty());
    }
}

/// Deleting a step twice is deleting it once: after the first deletion no
/// step has the identifier and the steps are numbered 1, 2, 3, ..., so the
/// second deletion leaves the manager as it is.
pub proof fn law_delete_twice(m: ManagerView, id: u128)
    requires
        m.session matches Some(s) && s.steps.len() <= u32::MAX,
    ensures
        ({
            let d = renumbered(steps_without(m.session.unwrap().steps, id));
            &&& renumbered(steps_without(d, id)) == d
            &&& with_steps(with_steps(m, d), renumbered(steps_without(d, id))) == with_steps(m, d)
        }),
{
    let steps = m.session.unwrap().steps;
    let d = renumbered(steps_without(steps, id));
    law_delete_step(steps, id);
    lemma_steps_without(d, id);
    assert forall|i: int| 0 <= i < d.len() implies #[trigger] renumbered(d)[i] == d[i] by {
        assert(d[i].number == i + 1);
        assert(((i + 1) as u32) == d[i].number);
    }
    assert(renumbered(d) =~= d);
}

/// Deleting by identifier keeps exactly the steps with another identifier,
/// in their order: the step list filtered by identifier.
pub proof fn law_delete_is_filter(steps: Seq<StepView>, id: u128)
    ensures
        steps_without(steps, id) == steps.filter(|st: StepView| st.id != id),
        forall|k: int|
            0 <= k < steps.len() && (#[trigger] steps[k]).id != id ==> steps_without(
                steps,
                id,
            ).contains(steps[k]),
    decreases steps.len(),
{
    let pred = |st: StepView| st.id != id;
    reveal(Seq::filter);
    if steps.len() > 0 {
        law_delete_is_filter(steps.drop_last(), id);
    }
    assert(steps_without(steps, id) == steps.filter(pred));
    assert forall|k: int| 0 <= k < steps.len() && (#[trigger] steps[k]).id != id implies steps_without(
        steps,
        id,
    ).contains(steps[k]) by {
        steps.lemma_filter_contains(pred, k);
    }
}

/// Reordering picks, for each requested identifier in turn, the first step
/// with that identifier, unchanged; it fails exactly when some identifier
/// names no step.
pub proof fn law_reorder_picks_steps(steps: Seq<StepView>, ids: Seq<u128>)
    ensures
        (picked_steps(steps, ids) is Some) == (forall|k: int|
            0 <= k < ids.len() ==> #[trigger] step_ids(steps).contains(ids[k])),
        picked_steps(steps, ids) matches Some(p) ==> p.len() == ids.len() && forall|k: int|
            0 <= k < ids.len() ==> exists|j: int|
                0 <= j < steps.len() && #[trigger] p[k] == steps[j] && steps[j].id == ids[k]
                    && forall|l: int| 0 <= l < j ==> steps[l].id != ids[k],
    decreases ids.len(),
{
    if ids.len() > 0 {
        let prev = ids.drop_last();
        let last = ids.last();
        law_reorder_picks_steps(steps, prev);
        crate::model::lemma_first_index(step_ids(steps), last);
        assert forall|k: int| 0 <= k < prev.len() implies prev[k] == ids[k] by {}
        let has_last = step_ids(steps).contains(last);
        assert(has_last == (first_index(step_ids(steps), last) is Some)) by {
            if has_last {
                let j = choose|j: int| 0 <= j < step_ids(steps).len() && step_ids(steps)[j] == last;
                assert(step_ids(steps)[j] == last);
            }
            match first_index(step_ids(steps), last) {
                Some(j) => {
                    assert(step_ids(steps)[j] == last);
                },
                None => {},
            }
        }
        let all_prev = forall|k: int| 0 <= k < prev.len() ==> #[trigger] step_ids(steps).contains(
            prev[k],
        );
        let all = forall|k: int| 0 <= k < ids.len() ==> #[trigger] step_ids(steps).contains(ids[k]);
        assert(all == (all_prev && has_last)) by {
            if all {
                assert forall|k: int| 0 <= k < prev.len() implies #[trigger] step_ids(
                    steps,
                ).contains(prev[k]) by {
                    assert(step_ids(steps).contains(ids[k]));
                }
                assert(step_ids(steps).contains(ids[ids.len() - 1]));
            }
            if all_prev && has_last {
                assert forall|k: int| 0 <= k < ids.len() implies #[trigger] step_ids(
                    steps,
                ).contains(ids[k]) by {
                    if k < prev.len() {
                        assert(step_ids(steps).contains(prev[k]));
                    }
                }
            }
        }
        if picked_steps(steps, ids) is Some {
            let p = picked_steps(steps, ids).unwrap();
            let j = first_index(step_ids(steps), last).unwrap();
            let q = picked_steps(steps, prev).unwrap();
            assert(p == q.push(steps[j]));
            assert forall|k: int| 0 <= k < ids.len() implies exists|j2: int|
                0 <= j2 < steps.len() && #[trigger] p[k] == steps[j2] && steps[j2].id == ids[k]
                    && forall|l: int| 0 <= l < j2 ==> steps[l].id != ids[k] by {
                if k < ids.len() - 1 {
                    assert(p[k] == q[k]);
                    assert(prev[k] == ids[k]);
                } else {
                    assert(p[k] == steps[j]);
                    assert(step_ids(steps)[j] == steps[j].id);
                    assert forall|l: int| 0 <= l < j implies steps[l].id != ids[k] by {
                        assert(step_ids(steps)[l] == steps[l].id);
                    }
                }
            }
        }
    }
}

/// Renumbering numbers the steps 1, 2, 3, ... and changes nothing else.
pub proof fn law_renumbered(steps: Seq<StepView>)
    requires
        steps.len() <= u32::MAX,
    ensures
        numbered_in_order(renumbered(steps)),
        renumbered(steps).len() == steps.len(),
        forall|k: int|
            0 <= k < steps.len() ==> (#[trigger] renumbered(steps)[k]) == (StepView {
                number: (k + 1) as u32,
                ..steps[k]
            }),
{
}

/// Reordering puts the steps in the order of the requested identifiers and
/// numbers them 1, 2, 3, ...
pub proof fn law_reorder_follows_ids(steps: Seq<StepView>, ids: Seq<u128>)
    requires
        ids.len() <= u32::MAX,
        picked_steps(steps, ids) is Some,
    ensures
        step_ids(renumbered(picked_steps(steps, ids).unwrap())) == ids,
        numbered_in_order(renumbered(picked_steps(steps, ids).unwrap())),
    decreases ids.len(),
{
    lemma_picked_ids(steps, ids);
    let p = picked_steps(steps, ids).unwrap();
    assert(step_ids(renumbered(p)) =~= step_ids(p));
}

proof fn lemma_picked_ids(steps: Seq<StepView>, ids: Seq<u128>)
    requires
        picked_steps(steps, ids) is Some,
    ensures
        step_ids(picked_steps(steps, ids).unwrap()) == ids,
    decreases ids.len(),
{
    if ids.len() == 0 {
        assert(step_ids(picked_steps(steps, ids).unwrap()) =~= ids);
    } else {
        lemma_picked_ids(steps, ids.drop_last());
        let i = first_index(step_ids(steps), ids.last()).unwrap();
        crate::model::lemma_first_index(step_ids(steps), ids.last());
        let prev = picked_steps(steps, ids.drop_last()).unwrap();
        assert(step_ids(prev.push(steps[i])) =~= step_ids(prev).push(steps[i].id));
        assert(step_ids(steps)[i] == steps[i].id);
        assert(ids.drop_last().push(ids.last()) =~= ids);
    }
}

/// Reordering the steps by their own identifiers, in their order, changes
/// nothing when no two steps share an identifier and the steps are numbered
/// 1, 2, 3, ...: every identifier picks its own step, and renumbering keeps
/// the numbers.
pub proof fn law_reorder_to_current_order(m: ManagerView)
    requires
        m.session matches Some(s) && numbered_in_order(s.steps) && forall|i: int, j: int|
            0 <= i < j < s.steps.len() ==> (#[trigger] s.steps[i]).id != (#[trigger] s.steps[j]).id,
    ensures
        m.session matches Some(s) && picked_steps(s.steps, step_ids(s.steps)) == Some(s.steps)
            && with_steps(m, renumbered(s.steps)) == m,
{
    let s = m.session.unwrap();
    lemma_picked_own(s.steps, s.steps.len() as int);
    assert(step_ids(s.steps).subrange(0, s.steps.len() as int) =~= step_ids(s.steps));
    assert(s.steps.subrange(0, s.steps.len() as int) =~= s.steps);
    assert forall|i: int| 0 <= i < s.steps.len() implies #[trigger] renumbered(s.steps)[i]
        == s.steps[i] by {
        assert(s.steps[i].number == i + 1);
        assert(((i + 1) as u32) == s.steps[i].number);
    }
    assert(renumbered(s.steps) =~= s.steps);
    assert(SessionView { steps: s.steps, ..s } == s);
}

proof fn lemma_picked_own(steps: Seq<StepView>, k: int)
    requires
        0 <= k <= steps.len(),
        forall|i: int, j: int|
            0 <= i < j < steps.len() ==> (#[trigger] steps[i]).id != (#[trigger] steps[j]).id,
    ensures
        picked_steps(steps, step_ids(steps).subrange(0, k)) == Some(steps.subrange(0, k)),
    decreases k,
{
    if k == 0 {
        assert(step_ids(steps).subrange(0, 0) =~= Seq::<u128>::empty());
        assert(steps.subrange(0, 0) =~= Seq::<StepView>::empty());
    } else {
        lemma_picked_own(steps, k - 1);
        let ids = step_ids(steps).subrange(0, k);
        assert(ids.drop_last() =~= step_ids(steps).subrange(0, k - 1));
        assert(ids.last() == steps[k - 1].id);
        assert forall|j: int| 0 <= j < k - 1 implies step_ids(steps)[j] != steps[k - 1].id by {
            assert(steps[j].id != steps[k - 1].id);
        }
        crate::model::lemma_first_index_is(step_ids(steps), steps[k - 1].id, k - 1);
        assert(steps.subrange(0, k - 1).push(steps[k - 1]) =~= steps.subrange(0, k));
    }
}

/// Changing the caption of one step changes that step's caption and nothing
/// else: the other steps stay exactly as they were, the list keeps its
/// length, and the changed step keeps its identifier, number, time, event,
/// window, screenshots and typed text.
pub proof fn law_caption_changes_one_step(steps: Seq<StepView>, i: int, caption: Seq<char>)
    requires
        0 <= i < steps.len(),
    ensures
        with_caption(steps, i, caption).len() == steps.len(),
        forall|k: int|
            0 <= k < steps.len() && k != i ==> #[trigger] with_caption(steps, i, caption)[k]
                == steps[k],
        with_caption(steps, i, caption)[i].caption == caption,
        with_caption(steps, i, caption)[i].id == steps[i].id,
        with_caption(steps, i, caption)[i].number == steps[i].number,
        with_caption(steps, i, caption)[i].timestamp == steps[i].timestamp,
        with_caption(steps, i, caption)[i].event == steps[i].event,
        with_caption(steps, i, caption)[i].window_title == steps[i].window_title,
        with_caption(steps, i, caption)[i].screenshot_raw == steps[i].screenshot_raw,
        with_caption(steps, i, caption)[i].screenshot_annotated == steps[i].screenshot_annotated,
        with_caption(steps, i, caption)[i].input_text == steps[i].input_text,
{
}

/// Changing a caption keeps the identifiers, numbers and order of the steps.
pub proof fn law_caption_keeps_steps(steps: Seq<StepView>, i: int, caption: Seq<char>)
    requires
        0 <= i < steps.len(),
    ensures
        step_ids(with_caption(steps, i, caption)) == step_ids(steps),
        forall|k: int|
            0 <= k < steps.len() ==> (#[trigger] with_caption(steps, i, caption)[k]).number
                == steps[k].number,
        with_caption(steps, i, caption)[i].caption == caption,
{
    assert(step_ids(with_caption(steps, i, caption)) =~= step_ids(steps));
}

/// A step added after steps numbered 1, 2, 3, ... gets the next number, so
/// the numbering stays in order; this holds for recorded and for promoted
/// steps alike.
pub proof fn law_added_step_keeps_numbering(steps: Seq<StepView>, added: StepView)
    requires
        numbered_in_order(steps),
        steps.len() < u32::MAX,
        added.number == crate::model::next_number(steps.len()) as u32,
    ensures
        numbered_in_order(steps.push(added)),
{
    assert(steps.len() % 0x1_0000_0000 == steps.len());
}

/// Every edit of the step list keeps the steps numbered 1, 2, 3, ... in their
/// order: a recorded step (`SessionManager::add_step`, numbered by
/// `new_step`) and a promoted step (`promote_buffer_entry`, numbered by
/// `promoted_step`) get the next number, a caption change keeps the numbers,
/// and deleting and reordering renumber the steps. (A refused edit leaves
/// the steps as they were.)
pub proof fn law_edits_keep_numbering(
    steps: Seq<StepView>,
    recorded: StepView,
    entry: crate::model::BufferEntryView,
    new_id: u128,
    caption: Seq<char>,
    i: int,
    id: u128,
    ids: Seq<u128>,
)
    requires
        numbered_in_order(steps),
        steps.len() < u32::MAX,
        ids.len() <= u32::MAX,
    ensures
        recorded.number == crate::model::next_number(steps.len()) as u32 ==> numbered_in_order(
            steps.push(recorded),
        ),
        numbered_in_order(
            steps.push(
                crate::model::promoted_step(
                    entry,
                    new_id,
                    crate::model::next_number(steps.len()),
                    caption,
                ),
            ),
        ),
        0 <= i < steps.len() ==> numbered_in_order(with_caption(steps, i, caption)),
        numbered_in_order(renumbered(steps_without(steps, id))),
        picked_steps(steps, ids) matches Some(p) ==> numbered_in_order(renumbered(p)),
{
    assert(steps.len() % 0x1_0000_0000 == steps.len());
    if 0 <= i < steps.len() {
        assert forall|k: int| 0 <= k < steps.len() implies #[trigger] with_caption(
            steps,
            i,
            caption,
        )[k].number == k + 1 by {
            assert(steps[k].number == k + 1);
        }
    }
    law_delete_step(steps, id);
    if picked_steps(steps, ids) is Some {
        law_reorder_follows_ids(steps, ids);
    }
}

/// The parameters `x,y,w,h` of a region request, in decimal.
pub open spec fn region_params(x: i32, y: i32, w: u32, h: u32) -> Seq<char> {
    dec_int(x as int) + seq![','] + dec_int(y as int) + seq![','] + dec_nat(w as nat) + seq![',']
        + dec_nat(h as nat)
}

/// A region request with the decimal parameters `x,y,w,h` (sizes up to
/// `i32::MAX`, as `set_capture_mode` reads every part as an `i32`) sets that
/// region, and the status then shows it as `region:WxH+X+Y`.
pub proof fn law_region_mode_round_trip(x: i32, y: i32, w: u32, h: u32)
    requires
        w <= i32::MAX,
        h <= i32::MAX,
    ensures
        requested_mode("region"@, Some(region_params(x, y, w, h))) == Ok::<CaptureMode, Seq<char>>(
            CaptureMode::Region { x, y, w, h },
        ),
        mode_text(CaptureMode::Region { x, y, w, h }) == "region:"@ + dec_nat(w as nat) + "x"@
            + dec_nat(h as nat) + "+"@ + dec_int(x as int) + "+"@ + dec_int(y as int),
{
    reveal_strlit("region");
    reveal_strlit("fullscreen");
    reveal_strlit("window");
    assert("region"@ != "fullscreen"@) by {
        assert("region"@[0] != "fullscreen"@[0]);
    }
    assert("region"@ != "window"@) by {
        assert("region"@[0] != "window"@[0]);
    }
    let a = dec_int(x as int);
    let b = dec_int(y as int);
    let c = dec_int(w as int);
    let d = dec_int(h as int);
    assert(c == dec_nat(w as nat));
    assert(d == dec_nat(h as nat));
    crate::text::lemma_dec_int_chars(x as int);
    crate::text::lemma_dec_int_chars(y as int);
    crate::text::lemma_dec_int_chars(w as int);
    crate::text::lemma_dec_int_chars(h as int);
    assert(crate::text::lacks(a, ','));
    assert(crate::text::lacks(b, ','));
    assert(crate::text::lacks(c, ','));
    assert(crate::text::lacks(d, ','));
    crate::text::lemma_split_whole(a, ',');
    crate::text::lemma_split_append(a, b, ',');
    crate::text::lemma_split_append(a + seq![','] + b, c, ',');
    crate::text::lemma_split_append(a + seq![','] + b + seq![','] + c, d, ',');
    let pieces = seq![a, b, c, d];
    assert(split_on(region_params(x, y, w, h), ',') =~= pieces);
    crate::text::lemma_dec_int_trimmed(x as int);
    crate::text::lemma_dec_int_trimmed(y as int);
    crate::text::lemma_dec_int_trimmed(w as int);
    crate::text::lemma_dec_int_trimmed(h as int);
    crate::text::law_parse_reads_signed_decimal_text(x as int, i32::MIN as int, i32::MAX as int);
    crate::text::law_parse_reads_signed_decimal_text(y as int, i32::MIN as int, i32::MAX as int);
    crate::text::law_parse_reads_signed_decimal_text(w as int, i32::MIN as int, i32::MAX as int);
    crate::text::law_parse_reads_signed_decimal_text(h as int, i32::MIN as int, i32::MAX as int);
    assert(pieces.drop_last() =~= seq![a, b, c]);
    assert(seq![a, b, c].drop_last() =~= seq![a, b]);
    assert(seq![a, b].drop_last() =~= seq![a]);
    assert(seq![a].drop_last() =~= Seq::<Seq<char>>::empty());
    assert(parse_all_i32(Seq::<Seq<char>>::empty()) == Ok::<Seq<i32>, Seq<char>>(Seq::empty()));
    assert(seq![a].last() == a);
    assert(Seq::<i32>::empty().push(x) =~= seq![x]);
    assert(parse_all_i32(seq![a]) == Ok::<Seq<i32>, Seq<char>>(seq![x]));
    assert(seq![a, b].last() == b);
    assert(seq![x].push(y) =~= seq![x, y]);
    assert(parse_all_i32(seq![a, b]) == Ok::<Seq<i32>, Seq<char>>(seq![x, y]));
    assert(seq![a, b, c].last() == c);
    assert(seq![x, y].push(w as i32) =~= seq![x, y, w as i32]);
    assert(parse_all_i32(seq![a, b, c]) == Ok::<Seq<i32>, Seq<char>>(seq![x, y, w as i32]));
    assert(pieces.last() == d);
    assert(seq![x, y, w as i32].push(h as i32) =~= seq![x, y, w as i32, h as i32]);
    assert(parse_all_i32(pieces) == Ok::<Seq<i32>, Seq<char>>(seq![x, y, w as i32, h as i32]));
}

/// The text that the status shows for a window mode is read back by
/// `set_capture_mode` as the same mode.
pub proof fn law_window_mode_round_trip(id: u32)
    ensures
        requested_mode("window"@, Some(dec_nat(id as nat))) == Ok::<CaptureMode, Seq<char>>(
            CaptureMode::Window(id),
        ),
{
    reveal_strlit("window");
    reveal_strlit("fullscreen");
    assert("window"@ != "fullscreen"@) by {
        assert("window"@[0] != "fullscreen"@[0]);
    }
    crate::text::law_parse_reads_decimal_text(id as nat, u32::MAX as int);
}

} // verus!
