use base64::Engine;
use steptrace::commands::{
    capture_mode_text, delete_step, get_buffer_entries, get_session_status, get_step_screenshot,
    get_steps, parse_capture_mode, pause_recording, promote_buffer, reorder_steps,
    resume_recording, set_capture_mode, start_recording, stop_recording, update_step_caption,
};
use steptrace::clock::{Timestamp, MAX_SECS, MIN_SECS};
use steptrace::manager::SessionManager;
use steptrace::model::{CaptureMode, StepEvent};

fn uuid_text(id: u128) -> String {
    uuid::Uuid::from_u128(id).to_string()
}

fn local_text(secs: i64, nanos: u32, pattern: &str) -> String {
    chrono::DateTime::from_timestamp(secs, nanos)
        .unwrap()
        .with_timezone(&chrono::Local)
        .format(pattern)
        .to_string()
}

/// A recording manager with three steps: a left click (with an annotated
/// screenshot), an Enter with typed text, and a right click without a
/// screenshot.
fn recording_with_steps() -> SessionManager {
    let mut m = SessionManager::new();
    start_recording(&mut m, "Demo".to_string()).unwrap();
    m.add_step(
        StepEvent::LeftClick { x: 5, y: 6 },
        vec![1, 2, 3],
        Some(vec![4, 5]),
        Some("Term".to_string()),
        None,
    )
    .unwrap();
    m.add_step(StepEvent::KeyEnter, vec![7], None, None, Some("ls -l".to_string())).unwrap();
    m.add_step(StepEvent::RightClick { x: -1, y: 0 }, vec![], None, Some("Files".to_string()), None)
        .unwrap();
    m
}

fn step_ids(m: &SessionManager) -> Vec<u128> {
    m.session.as_ref().unwrap().steps.iter().map(|s| s.id).collect()
}

fn step_numbers(m: &SessionManager) -> Vec<u32> {
    m.session.as_ref().unwrap().steps.iter().map(|s| s.number).collect()
}

#[test]
fn status_of_a_new_manager() {
    let m = SessionManager::new();
    let st = get_session_status(&m);
    assert_eq!(st.state, "Idle");
    assert_eq!(st.step_count, 0);
    assert_eq!(st.buffer_count, 0);
    assert_eq!(st.capture_mode, "fullscreen");
}

#[test]
fn status_follows_recording_and_mode() {
    let mut m = recording_with_steps();
    m.add_buffer_entry(vec![9], None).unwrap();
    let st = get_session_status(&m);
    assert_eq!(st.state, "Recording");
    assert_eq!(st.step_count, 3);
    assert_eq!(st.buffer_count, 1);
    pause_recording(&mut m).unwrap();
    assert_eq!(get_session_status(&m).state, "Paused");
    resume_recording(&mut m).unwrap();
    stop_recording(&mut m).unwrap();
    assert_eq!(get_session_status(&m).state, "Stopped");
    assert_eq!(stop_recording(&mut m), Err("Cannot stop from state Stopped".to_string()));
    set_capture_mode(&mut m, "window", Some("77".to_string())).unwrap();
    assert_eq!(get_session_status(&m).capture_mode, "window:77");
    set_capture_mode(&mut m, "region", Some("-5, 2,30 ,40".to_string())).unwrap();
    assert_eq!(get_session_status(&m).capture_mode, "region:30x40+-5+2");
}

#[test]
fn capture_mode_texts() {
    assert_eq!(capture_mode_text(&CaptureMode::FullScreen), "fullscreen");
    assert_eq!(capture_mode_text(&CaptureMode::Window(4294967295)), "window:4294967295");
    assert_eq!(
        capture_mode_text(&CaptureMode::Region { x: i32::MIN, y: 0, w: 0, h: u32::MAX }),
        format!("region:0x{}+{}+0", u32::MAX, i32::MIN)
    );
}

#[test]
fn steps_are_listed_in_order() {
    let m = SessionManager::new();
    assert_eq!(get_steps(&m).unwrap_err(), "No active session");
    let m = recording_with_steps();
    let list = get_steps(&m).unwrap();
    let steps = &m.session.as_ref().unwrap().steps;
    assert_eq!(list.len(), 3);
    for (d, s) in list.iter().zip(steps.iter()) {
        assert_eq!(d.id, uuid_text(s.id));
        assert_eq!(d.number, s.number);
        assert_eq!(
            d.timestamp,
            local_text(s.timestamp.secs(), s.timestamp.nanos(), "%Y-%m-%d %H:%M:%S")
        );
        assert_eq!(d.timestamp.len(), 19);
        assert_eq!(d.event_type, format!("{:?}", s.event));
        assert_eq!(d.caption, s.caption);
        assert_eq!(d.window_title, s.window_title);
        assert_eq!(d.input_text, s.input_text);
    }
    assert_eq!(list[0].event_type, "LeftClick { x: 5, y: 6 }");
    assert_eq!(list[0].caption, "Left-clicked on 'Term' at (5, 6)");
    assert!(list[0].has_screenshot);
    assert_eq!(list[1].input_text.as_deref(), Some("ls -l"));
    assert_eq!(list[2].event_type, "RightClick { x: -1, y: 0 }");
    assert!(!list[2].has_screenshot);
}

#[test]
fn buffer_entries_are_listed_in_order() {
    let mut m = SessionManager::new();
    assert_eq!(get_buffer_entries(&m).unwrap_err(), "No active session");
    start_recording(&mut m, "t".to_string()).unwrap();
    m.add_buffer_entry(vec![1], Some("A".to_string())).unwrap();
    m.add_buffer_entry(vec![2], None).unwrap();
    let list = get_buffer_entries(&m).unwrap();
    let buffer = &m.session.as_ref().unwrap().buffer;
    assert_eq!(list.len(), 2);
    for (d, b) in list.iter().zip(buffer.iter()) {
        assert_eq!(d.id, uuid_text(b.id));
        assert_eq!(d.timestamp, local_text(b.timestamp.secs(), b.timestamp.nanos(), "%H:%M:%S"));
        assert_eq!(d.timestamp.len(), 8);
        assert_eq!(d.window_title, b.window_title);
    }
    assert_eq!(list[0].window_title.as_deref(), Some("A"));
    assert_eq!(list[1].window_title, None);
}

#[test]
fn step_screenshots_prefer_the_annotated_image() {
    let m = SessionManager::new();
    assert_eq!(get_step_screenshot(&m, "x").unwrap_err(), "No active session");
    let m = recording_with_steps();
    let ids = step_ids(&m);
    let standard = base64::engine::general_purpose::STANDARD;
    assert_eq!(get_step_screenshot(&m, &uuid_text(ids[0])), Ok(standard.encode([4u8, 5])));
    assert_eq!(get_step_screenshot(&m, &uuid_text(ids[0])), Ok("BAU=".to_string()));
    assert_eq!(get_step_screenshot(&m, &uuid_text(ids[1])), Ok("Bw==".to_string()));
    assert_eq!(get_step_screenshot(&m, &uuid_text(ids[2])), Ok(String::new()));
    // The uppercase form is read as the same identifier.
    let upper = uuid_text(ids[1]).to_uppercase();
    assert_eq!(get_step_screenshot(&m, &upper), Ok("Bw==".to_string()));
    assert_eq!(
        get_step_screenshot(&m, &uuid_text(12345)).unwrap_err(),
        "Step not found"
    );
    assert_eq!(
        get_step_screenshot(&m, "zz").unwrap_err(),
        uuid::Uuid::parse_str("zz").unwrap_err().to_string()
    );
    assert_eq!(
        get_step_screenshot(&m, "").unwrap_err(),
        uuid::Uuid::parse_str("").unwrap_err().to_string()
    );
}

#[test]
fn promoting_a_buffered_capture_by_its_text_id() {
    let mut m = SessionManager::new();
    assert_eq!(
        promote_buffer(&mut m, &uuid_text(1), "c".to_string()),
        Err("No active session".to_string())
    );
    assert_eq!(
        promote_buffer(&mut m, "nope", "c".to_string()).unwrap_err(),
        uuid::Uuid::parse_str("nope").unwrap_err().to_string()
    );
    start_recording(&mut m, "t".to_string()).unwrap();
    m.add_buffer_entry(vec![3, 3], Some("Editor".to_string())).unwrap();
    let entry_id = m.session.as_ref().unwrap().buffer[0].id;
    assert_eq!(
        promote_buffer(&mut m, &uuid_text(entry_id ^ 1), "c".to_string()),
        Err("Buffer entry not found".to_string())
    );
    assert_eq!(m.session.as_ref().unwrap().steps.len(), 0);
    assert_eq!(promote_buffer(&mut m, &uuid_text(entry_id), "Saved".to_string()), Ok(()));
    let s = m.session.as_ref().unwrap();
    assert_eq!(s.steps.len(), 1);
    assert_eq!(s.steps[0].caption, "Saved");
    assert_eq!(s.steps[0].number, 1);
    assert_eq!(s.steps[0].screenshot_raw, vec![3, 3]);
    assert_eq!(s.steps[0].window_title.as_deref(), Some("Editor"));
    assert_ne!(s.steps[0].id, entry_id);
    assert_eq!(s.buffer.len(), 1);
}

#[test]
fn captions_are_updated_in_place() {
    let mut m = SessionManager::new();
    assert_eq!(
        update_step_caption(&mut m, "x", "c".to_string()),
        Err("No active session".to_string())
    );
    let mut m = recording_with_steps();
    let ids = step_ids(&m);
    assert_eq!(update_step_caption(&mut m, &uuid_text(ids[1]), "Listed files".to_string()), Ok(()));
    let s = m.session.as_ref().unwrap();
    assert_eq!(s.steps[1].caption, "Listed files");
    assert_eq!(s.steps[0].caption, "Left-clicked on 'Term' at (5, 6)");
    assert_eq!(step_ids(&m), ids);
    assert_eq!(step_numbers(&m), vec![1, 2, 3]);
    assert_eq!(
        update_step_caption(&mut m, &uuid_text(7), "c".to_string()),
        Err("Step not found".to_string())
    );
    assert_eq!(
        update_step_caption(&mut m, "g", "c".to_string()).unwrap_err(),
        uuid::Uuid::parse_str("g").unwrap_err().to_string()
    );
}

#[test]
fn deleting_a_step_renumbers_the_rest() {
    let mut m = SessionManager::new();
    assert_eq!(delete_step(&mut m, "x"), Err("No active session".to_string()));
    let mut m = recording_with_steps();
    let ids = step_ids(&m);
    assert_eq!(
        delete_step(&mut m, "bad").unwrap_err(),
        uuid::Uuid::parse_str("bad").unwrap_err().to_string()
    );
    assert_eq!(step_ids(&m), ids);
    assert_eq!(delete_step(&mut m, &uuid_text(ids[0])), Ok(()));
    assert_eq!(step_ids(&m), vec![ids[1], ids[2]]);
    assert_eq!(step_numbers(&m), vec![1, 2]);
    // An identifier of no step deletes nothing.
    assert_eq!(delete_step(&mut m, &uuid_text(1)), Ok(()));
    assert_eq!(step_ids(&m), vec![ids[1], ids[2]]);
    assert_eq!(step_numbers(&m), vec![1, 2]);
    assert_eq!(m.session.as_ref().unwrap().steps[0].input_text.as_deref(), Some("ls -l"));
}

#[test]
fn deleting_renumbers_out_of_order_numbers() {
    let mut m = recording_with_steps();
    let ids = step_ids(&m);
    for s in m.session.as_mut().unwrap().steps.iter_mut() {
        s.number = 40;
    }
    assert_eq!(delete_step(&mut m, &uuid_text(ids[1])), Ok(()));
    assert_eq!(step_numbers(&m), vec![1, 2]);
}

#[test]
fn reordering_follows_the_requested_ids() {
    let mut m = SessionManager::new();
    assert_eq!(reorder_steps(&mut m, vec![]), Err("No active session".to_string()));
    let mut m = recording_with_steps();
    let ids = step_ids(&m);
    let texts = |order: &[usize]| order.iter().map(|&i| uuid_text(ids[i])).collect::<Vec<_>>();
    assert_eq!(reorder_steps(&mut m, texts(&[2, 0, 1])), Ok(()));
    assert_eq!(step_ids(&m), vec![ids[2], ids[0], ids[1]]);
    assert_eq!(step_numbers(&m), vec![1, 2, 3]);
    assert_eq!(m.session.as_ref().unwrap().steps[1].caption, "Left-clicked on 'Term' at (5, 6)");
    // Steps left out of the list are dropped; a repeated id repeats the step.
    assert_eq!(reorder_steps(&mut m, texts(&[0, 0])), Ok(()));
    assert_eq!(step_ids(&m), vec![ids[0], ids[0]]);
    assert_eq!(step_numbers(&m), vec![1, 2]);
}

#[test]
fn reordering_refuses_unknown_or_malformed_ids() {
    let mut m = recording_with_steps();
    let ids = step_ids(&m);
    let mut request = vec![uuid_text(ids[2]), uuid_text(999)];
    assert_eq!(reorder_steps(&mut m, request.clone()), Err("Step not found".to_string()));
    assert_eq!(step_ids(&m), ids);
    assert_eq!(step_numbers(&m), vec![1, 2, 3]);
    // A malformed id is reported before any lookup.
    request.push("??".to_string());
    assert_eq!(
        reorder_steps(&mut m, request).unwrap_err(),
        uuid::Uuid::parse_str("??").unwrap_err().to_string()
    );
    assert_eq!(step_ids(&m), ids);
    // The first malformed id is the one reported.
    let r = reorder_steps(&mut m, vec!["a".to_string(), "bb".to_string()]);
    assert_eq!(r.unwrap_err(), uuid::Uuid::parse_str("a").unwrap_err().to_string());
    // An empty list clears the steps.
    assert_eq!(reorder_steps(&mut m, vec![]), Ok(()));
    assert!(step_ids(&m).is_empty());
}

#[test]
fn capture_mode_requests() {
    let p = |mode: &str, params: Option<&str>| parse_capture_mode(mode, params.map(|s| s.to_string()));
    let int_err = |s: &str| s.parse::<u32>().unwrap_err().to_string();
    let i32_err = |s: &str| s.parse::<i32>().unwrap_err().to_string();
    assert_eq!(p("fullscreen", None), Ok(CaptureMode::FullScreen));
    assert_eq!(p("fullscreen", Some("ignored")), Ok(CaptureMode::FullScreen));
    assert_eq!(p("window", Some("12")), Ok(CaptureMode::Window(12)));
    assert_eq!(p("window", Some("+12")), Ok(CaptureMode::Window(12)));
    assert_eq!(p("window", None), Err("Window ID required".to_string()));
    assert_eq!(p("window", Some("abc")), Err(int_err("abc")));
    assert_eq!(p("window", Some("")), Err(int_err("")));
    assert_eq!(p("window", Some(" 5")), Err(int_err(" 5")));
    assert_eq!(p("window", Some("-1")), Err(int_err("-1")));
    assert_eq!(p("window", Some("4294967296")), Err(int_err("4294967296")));
    assert_eq!(p("region", None), Err("Region params required (x,y,w,h)".to_string()));
    assert_eq!(
        p("region", Some("1,2,3,4")),
        Ok(CaptureMode::Region { x: 1, y: 2, w: 3, h: 4 })
    );
    assert_eq!(
        p("region", Some(" -7 ,\t8, 100,200 ")),
        Ok(CaptureMode::Region { x: -7, y: 8, w: 100, h: 200 })
    );
    // Negative sizes wrap as `as u32` does.
    assert_eq!(
        p("region", Some("0,0,-3,-1")),
        Ok(CaptureMode::Region { x: 0, y: 0, w: (-3i32) as u32, h: u32::MAX })
    );
    assert_eq!(p("region", Some("1,2,3")), Err("Region requires 4 params: x,y,w,h".to_string()));
    assert_eq!(p("region", Some("1,2,3,4,5")), Err("Region requires 4 params: x,y,w,h".to_string()));
    assert_eq!(p("region", Some("1,x,3,4")), Err(i32_err("x")));
    assert_eq!(p("region", Some("1,,3,4")), Err(i32_err("")));
    assert_eq!(p("region", Some("")), Err(i32_err("")));
    assert_eq!(p("region", Some("1,2,3,2147483648")), Err(i32_err("2147483648")));
    assert_eq!(p("region", Some("1,2,3,-2147483649")), Err(i32_err("-2147483649")));
    // The first bad part is reported even when the count is wrong too.
    assert_eq!(p("region", Some("q,2")), Err(i32_err("q")));
    assert_eq!(p("Window", Some("1")), Err("Unknown capture mode: Window".to_string()));
    assert_eq!(p("", None), Err("Unknown capture mode: ".to_string()));
}

#[test]
fn refused_capture_mode_changes_nothing() {
    let mut m = recording_with_steps();
    set_capture_mode(&mut m, "window", Some("3".to_string())).unwrap();
    assert_eq!(m.capture_mode, CaptureMode::Window(3));
    assert_eq!(m.session.as_ref().unwrap().capture_mode, CaptureMode::Window(3));
    assert_eq!(
        set_capture_mode(&mut m, "region", Some("1,2".to_string())),
        Err("Region requires 4 params: x,y,w,h".to_string())
    );
    assert_eq!(m.capture_mode, CaptureMode::Window(3));
    assert_eq!(m.session.as_ref().unwrap().capture_mode, CaptureMode::Window(3));
    assert_eq!(set_capture_mode(&mut m, "fullscreen", None), Ok(()));
    assert_eq!(m.capture_mode, CaptureMode::FullScreen);
}

#[test]
fn window_mode_text_reads_back_as_the_same_mode() {
    for id in [0u32, 7, 4096, u32::MAX] {
        let shown = capture_mode_text(&CaptureMode::Window(id));
        let param = shown.strip_prefix("window:").unwrap().to_string();
        assert_eq!(parse_capture_mode("window", Some(param)), Ok(CaptureMode::Window(id)));
    }
}

#[test]
fn fresh_step_ids_are_random_uuids() {
    let m = recording_with_steps();
    let ids = step_ids(&m);
    assert_ne!(ids[0], ids[1]);
    for id in ids {
        assert_eq!((id >> 76) & 0xf, 4);
        assert_eq!((id >> 62) & 0x3, 2);
    }
}

#[test]
fn step_times_at_the_ends_of_the_clock_range_are_written() {
    let mut m = recording_with_steps();
    {
        let steps = &mut m.session.as_mut().unwrap().steps;
        steps[0].timestamp = Timestamp::from_parts(MIN_SECS, 0).unwrap();
        steps[1].timestamp = Timestamp::from_parts(MAX_SECS, 999_999_999).unwrap();
    }
    let list = get_steps(&m).unwrap();
    assert_eq!(list[0].timestamp, local_text(MIN_SECS, 0, "%Y-%m-%d %H:%M:%S"));
    assert_eq!(list[1].timestamp, local_text(MAX_SECS, 999_999_999, "%Y-%m-%d %H:%M:%S"));
}

#[test]
fn status_shows_the_mode_that_was_set() {
    let mut m = recording_with_steps();
    set_capture_mode(&mut m, "region", Some("10,20,300,400".to_string())).unwrap();
    assert_eq!(get_session_status(&m).capture_mode, "region:300x400+10+20");
    set_capture_mode(&mut m, "window", Some("7".to_string())).unwrap();
    assert_eq!(get_session_status(&m).capture_mode, "window:7");
    set_capture_mode(&mut m, "fullscreen", None).unwrap();
    assert_eq!(get_session_status(&m).capture_mode, "fullscreen");
}

#[test]
fn reordering_to_the_current_order_changes_nothing() {
    let mut m = recording_with_steps();
    let before = get_steps(&m).unwrap();
    let texts: Vec<String> = before.iter().map(|d| d.id.clone()).collect();
    assert_eq!(reorder_steps(&mut m, texts), Ok(()));
    let after = get_steps(&m).unwrap();
    assert_eq!(before.len(), after.len());
    for (a, b) in before.iter().zip(after.iter()) {
        assert_eq!((&a.id, a.number, &a.caption, &a.event_type), (&b.id, b.number, &b.caption, &b.event_type));
        assert_eq!((&a.window_title, &a.input_text, a.has_screenshot), (&b.window_title, &b.input_text, b.has_screenshot));
    }
}

#[test]
fn screenshots_of_every_length_are_standard_base64() {
    let mut m = SessionManager::new();
    start_recording(&mut m, "t".to_string()).unwrap();
    let standard = base64::engine::general_purpose::STANDARD;
    for len in 0..8u8 {
        let bytes: Vec<u8> = (0..len).map(|b| b.wrapping_mul(97).wrapping_add(251)).collect();
        m.add_step(StepEvent::Manual, bytes.clone(), None, None, None).unwrap();
        let id = m.session.as_ref().unwrap().steps.last().unwrap().id;
        assert_eq!(get_step_screenshot(&m, &uuid_text(id)), Ok(standard.encode(&bytes)));
    }
}

#[test]
fn deleting_twice_is_deleting_once() {
    let mut m = recording_with_steps();
    let ids = step_ids(&m);
    assert_eq!(delete_step(&mut m, &uuid_text(ids[1])), Ok(()));
    let once = (step_ids(&m), step_numbers(&m));
    assert_eq!(delete_step(&mut m, &uuid_text(ids[1])), Ok(()));
    assert_eq!((step_ids(&m), step_numbers(&m)), once);
}

#[test]
fn region_parameters_read_back_as_the_same_region() {
    for (x, y, w, h) in [(0, 0, 0u32, 0u32), (-5, 7, 1920, 1080), (i32::MIN, i32::MAX, i32::MAX as u32, 1)] {
        let params = format!("{},{},{},{}", x, y, w, h);
        let mut m = SessionManager::new();
        assert_eq!(set_capture_mode(&mut m, "region", Some(params)), Ok(()));
        assert_eq!(m.capture_mode, CaptureMode::Region { x, y, w, h });
        assert_eq!(get_session_status(&m).capture_mode, format!("region:{}x{}+{}+{}", w, h, x, y));
    }
}
