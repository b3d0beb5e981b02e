use steptrace::clock::{now, Timestamp, MAX_SECS, MIN_SECS};
use steptrace::manager::SessionManager;
use steptrace::model::{BufferEntry, CaptureMode, RecordingState, Session, Step, StepEvent};

fn ts(secs: i64) -> Timestamp {
    Timestamp::from_parts(secs, 0).unwrap()
}

fn step(id: u128, number: u32) -> Step {
    Step {
        id,
        number,
        timestamp: ts(1_700_000_000),
        event: StepEvent::Manual,
        caption: format!("step {}", number),
        window_title: None,
        screenshot_raw: vec![1, 2, 3],
        screenshot_annotated: None,
        input_text: None,
    }
}

#[test]
fn timestamps_stay_in_chrono_range() {
    assert!(Timestamp::from_parts(MIN_SECS, 0).is_some());
    assert!(Timestamp::from_parts(MAX_SECS, 999_999_999).is_some());
    assert!(Timestamp::from_parts(MIN_SECS - 1, 0).is_none());
    assert!(Timestamp::from_parts(MAX_SECS + 1, 0).is_none());
    assert!(Timestamp::from_parts(0, 1_000_000_000).is_none());
    let t = ts(100);
    assert_eq!(t.minus_seconds(60).secs(), 40);
    assert!(t.at_or_after(&ts(100)));
    assert!(!ts(99).at_or_after(&t));
    assert!(Timestamp::from_parts(99, 5).unwrap().at_or_after(&ts(99)));
    assert!(now().secs() > 1_600_000_000);
}

#[test]
fn defaults() {
    assert_eq!(CaptureMode::default(), CaptureMode::FullScreen);
    assert_eq!(RecordingState::default(), RecordingState::Idle);
}

#[test]
fn auto_descriptions() {
    let title = Some("Terminal".to_string());
    assert_eq!(
        StepEvent::LeftClick { x: 10, y: -20 }.auto_description(&title),
        "Left-clicked on 'Terminal' at (10, -20)"
    );
    assert_eq!(
        StepEvent::RightClick { x: 0, y: 7 }.auto_description(&None),
        "Right-clicked on 'unknown' at (0, 7)"
    );
    assert_eq!(StepEvent::KeyEnter.auto_description(&title), "Pressed Enter in 'Terminal'");
    assert_eq!(StepEvent::WindowSwitch.auto_description(&None), "Switched to 'unknown'");
    assert_eq!(StepEvent::Manual.auto_description(&title), "Manual capture");
}

#[test]
fn debug_texts_match_derived_debug() {
    for e in [
        StepEvent::LeftClick { x: 1, y: 2 },
        StepEvent::RightClick { x: -3, y: 40 },
        StepEvent::KeyEnter,
        StepEvent::WindowSwitch,
        StepEvent::Manual,
    ] {
        assert_eq!(e.debug_text(), format!("{:?}", e));
    }
    for s in [RecordingState::Idle, RecordingState::Recording, RecordingState::Paused, RecordingState::Stopped] {
        assert_eq!(s.name(), format!("{:?}", s));
    }
}

#[test]
fn session_new_and_numbering() {
    let mut s = Session::new("Demo".to_string(), CaptureMode::Window(3));
    assert_eq!(s.title, "Demo");
    assert_eq!(s.capture_mode, CaptureMode::Window(3));
    assert!(s.steps.is_empty() && s.buffer.is_empty() && s.stopped_at.is_none());
    assert_eq!(s.next_step_number(), 1);
    s.add_step(step(1, 1));
    assert_eq!(s.next_step_number(), 2);
}

#[test]
fn promote_buffer_copies_the_entry() {
    let mut s = Session::new("Demo".to_string(), CaptureMode::FullScreen);
    s.add_step(step(1, 1));
    let entry = BufferEntry::new(vec![9, 9], Some("Editor".to_string()));
    let entry_id = entry.id;
    let entry_time = entry.timestamp;
    s.buffer.push(entry);
    assert!(s.promote_buffer(12345, "nothing".to_string()).is_none());
    assert_eq!(s.steps.len(), 1);
    let promoted = s.promote_buffer(entry_id, "Saved file".to_string()).unwrap();
    assert_eq!(promoted.number, 2);
    assert_eq!(promoted.caption, "Saved file");
    assert_eq!(promoted.event, StepEvent::Manual);
    assert_eq!(promoted.window_title.as_deref(), Some("Editor"));
    assert_eq!(promoted.screenshot_raw, vec![9, 9]);
    assert!(promoted.screenshot_annotated.is_none() && promoted.input_text.is_none());
    assert_eq!(promoted.timestamp.secs(), entry_time.secs());
    assert_eq!(s.steps.len(), 2);
    assert_eq!(s.buffer.len(), 1);
}

#[test]
fn state_machine_transitions() {
    let mut m = SessionManager::new();
    assert_eq!(m.state, RecordingState::Idle);
    assert!(m.session.is_none());
    assert_eq!(m.buffer_max_seconds, 60);
    assert_eq!(m.pause(), Err("Cannot pause from state Idle".to_string()));
    assert_eq!(m.resume(), Err("Cannot resume from state Idle".to_string()));
    assert_eq!(m.stop(), Err("Cannot stop from state Idle".to_string()));
    assert_eq!(m.start("First".to_string()), Ok(()));
    assert!(m.is_recording());
    assert_eq!(m.session.as_ref().unwrap().title, "First");
    assert_eq!(m.start("Again".to_string()), Err("Cannot start from state Recording".to_string()));
    assert_eq!(m.resume(), Err("Cannot resume from state Recording".to_string()));
    assert_eq!(m.pause(), Ok(()));
    assert_eq!(m.state, RecordingState::Paused);
    assert!(!m.is_recording());
    assert_eq!(m.pause(), Err("Cannot pause from state Paused".to_string()));
    assert_eq!(m.start("x".to_string()), Err("Cannot start from state Paused".to_string()));
    assert_eq!(m.resume(), Ok(()));
    assert_eq!(m.state, RecordingState::Recording);
    assert_eq!(m.stop(), Ok(()));
    assert_eq!(m.state, RecordingState::Stopped);
    assert!(m.session.as_ref().unwrap().stopped_at.is_some());
    assert_eq!(m.stop(), Err("Cannot stop from state Stopped".to_string()));
    assert_eq!(m.pause(), Err("Cannot pause from state Stopped".to_string()));
    assert_eq!(m.resume(), Err("Cannot resume from state Stopped".to_string()));
    let old_id = m.session.as_ref().unwrap().id;
    assert_eq!(m.start("Second".to_string()), Ok(()));
    let s = m.session.as_ref().unwrap();
    assert_ne!(s.id, old_id);
    assert_eq!(s.title, "Second");
    assert!(s.stopped_at.is_none());
}

#[test]
fn pause_then_resume_restores_recording() {
    let mut m = SessionManager::new();
    m.start("t".to_string()).unwrap();
    m.add_step(StepEvent::KeyEnter, vec![1], None, None, Some("ls".to_string())).unwrap();
    let before_id = m.session.as_ref().unwrap().id;
    m.pause().unwrap();
    m.resume().unwrap();
    assert_eq!(m.state, RecordingState::Recording);
    let s = m.session.as_ref().unwrap();
    assert_eq!(s.id, before_id);
    assert_eq!(s.steps.len(), 1);
}

#[test]
fn add_step_needs_a_session_and_numbers_steps() {
    let mut m = SessionManager::new();
    assert_eq!(
        m.add_step(StepEvent::Manual, vec![], None, None, None),
        Err("No active session".to_string())
    );
    m.start("t".to_string()).unwrap();
    m.add_step(StepEvent::LeftClick { x: 5, y: 6 }, vec![1, 2], Some(vec![3]), Some("Term".to_string()), None)
        .unwrap();
    m.add_step(StepEvent::KeyEnter, vec![], None, None, Some("make".to_string())).unwrap();
    let s = m.session.as_ref().unwrap();
    assert_eq!(s.steps[0].number, 1);
    assert_eq!(s.steps[1].number, 2);
    assert_eq!(s.steps[0].caption, "Left-clicked on 'Term' at (5, 6)");
    assert_eq!(s.steps[0].screenshot_annotated, Some(vec![3]));
    assert_eq!(s.steps[1].caption, "Pressed Enter in 'unknown'");
    assert_eq!(s.steps[1].input_text.as_deref(), Some("make"));
    assert_ne!(s.steps[0].id, s.steps[1].id);
}

#[test]
fn buffer_prunes_old_entries() {
    let mut m = SessionManager::new();
    assert_eq!(m.add_buffer_entry(vec![1], None), Err("No active session".to_string()));
    m.start("t".to_string()).unwrap();
    let recent = now().secs();
    {
        let s = m.session.as_mut().unwrap();
        s.buffer.push(BufferEntry { id: 1, timestamp: ts(1000), window_title: None, screenshot: vec![] });
        s.buffer.push(BufferEntry { id: 2, timestamp: ts(recent), window_title: None, screenshot: vec![] });
        s.buffer.push(BufferEntry { id: 3, timestamp: ts(2000), window_title: None, screenshot: vec![] });
    }
    m.add_buffer_entry(vec![7], Some("Win".to_string())).unwrap();
    let ids: Vec<u128> = m.session.as_ref().unwrap().buffer.iter().map(|b| b.id).collect();
    assert_eq!(ids.len(), 2);
    assert_eq!(ids[0], 2);
    let last = m.session.as_ref().unwrap().buffer.last().unwrap();
    assert_eq!(last.screenshot, vec![7]);
    assert_eq!(last.window_title.as_deref(), Some("Win"));

    // With a zero age limit, entries older than now go.
    m.set_buffer_max_seconds(0);
    assert_eq!(m.buffer_max_seconds, 0);
    {
        let s = m.session.as_mut().unwrap();
        s.buffer.push(BufferEntry { id: 9, timestamp: ts(recent - 10), window_title: None, screenshot: vec![] });
    }
    m.add_buffer_entry(vec![8], None).unwrap();
    assert!(m.session.as_ref().unwrap().buffer.iter().all(|b| b.id != 9));
}

#[test]
fn promote_buffer_entry_errors() {
    let mut m = SessionManager::new();
    assert_eq!(m.promote_buffer_entry(1, "c".to_string()), Err("No active session".to_string()));
    m.start("t".to_string()).unwrap();
    assert_eq!(m.promote_buffer_entry(1, "c".to_string()), Err("Buffer entry not found".to_string()));
    m.add_buffer_entry(vec![4], None).unwrap();
    let id = m.session.as_ref().unwrap().buffer[0].id;
    assert_eq!(m.promote_buffer_entry(id, "Kept".to_string()), Ok(()));
    let s = m.session.as_ref().unwrap();
    assert_eq!(s.steps.len(), 1);
    assert_eq!(s.steps[0].caption, "Kept");
    assert_eq!(s.steps[0].number, 1);
}

#[test]
fn capture_mode_is_set_on_manager_and_session() {
    let mut m = SessionManager::new();
    m.set_capture_mode(CaptureMode::Window(5));
    assert_eq!(m.capture_mode, CaptureMode::Window(5));
    m.start("t".to_string()).unwrap();
    assert_eq!(m.session.as_ref().unwrap().capture_mode, CaptureMode::Window(5));
    let region = CaptureMode::Region { x: 1, y: 2, w: 3, h: 4 };
    m.set_capture_mode(region);
    assert_eq!(m.capture_mode, region);
    assert_eq!(m.session.as_ref().unwrap().capture_mode, region);
}

#[test]
fn step_clone_copies_everything() {
    let mut s = step(5, 2);
    s.window_title = Some("W".to_string());
    s.screenshot_annotated = Some(vec![4, 4]);
    s.input_text = Some("txt".to_string());
    let c = s.clone();
    assert_eq!(c.id, 5);
    assert_eq!(c.number, 2);
    assert_eq!(c.caption, s.caption);
    assert_eq!(c.window_title, s.window_title);
    assert_eq!(c.screenshot_raw, s.screenshot_raw);
    assert_eq!(c.screenshot_annotated, s.screenshot_annotated);
    assert_eq!(c.input_text, s.input_text);
    assert_eq!(c.with_number(9).number, 9);
}

#[test]
fn clock_range_is_chronos_range() {
    assert!(chrono::DateTime::from_timestamp(MIN_SECS, 0).is_some());
    assert!(chrono::DateTime::from_timestamp(MIN_SECS - 1, 999_999_999).is_none());
    assert!(chrono::DateTime::from_timestamp(MAX_SECS, 999_999_999).is_some());
    assert!(chrono::DateTime::from_timestamp(MAX_SECS + 1, 0).is_none());
    assert_eq!(
        chrono::DateTime::from_timestamp(MIN_SECS, 0).unwrap().date_naive(),
        chrono::NaiveDate::MIN
    );
}

#[test]
fn buffer_cutoff_is_the_capture_time_less_the_age_limit() {
    let mut m = SessionManager::new();
    m.start("t".to_string()).unwrap();
    let recent = now().secs();
    {
        let s = m.session.as_mut().unwrap();
        s.buffer.push(BufferEntry { id: 1, timestamp: ts(recent - 30), window_title: None, screenshot: vec![] });
        s.buffer.push(BufferEntry { id: 2, timestamp: ts(recent - 120), window_title: None, screenshot: vec![] });
    }
    m.add_buffer_entry(vec![5], None).unwrap();
    let buffer = &m.session.as_ref().unwrap().buffer;
    let ids: Vec<u128> = buffer.iter().map(|b| b.id).collect();
    assert_eq!(ids.len(), 2);
    assert_eq!(ids[0], 1);
    assert!(buffer[1].timestamp.secs() >= recent);
}

#[test]
fn captions_name_the_window_verbatim() {
    let events = [
        StepEvent::LeftClick { x: 1, y: -2 },
        StepEvent::RightClick { x: 0, y: 0 },
        StepEvent::KeyEnter,
        StepEvent::WindowSwitch,
    ];
    for e in events {
        let a = e.auto_description(&Some("Editor".to_string()));
        let b = e.auto_description(&Some("Editor 2".to_string()));
        assert_ne!(a, b);
        assert!(a.contains("'Editor'"));
        assert_eq!(e.auto_description(&None), e.auto_description(&Some("unknown".to_string())));
    }
    assert_eq!(StepEvent::Manual.auto_description(&Some("X".to_string())), "Manual capture");
}
