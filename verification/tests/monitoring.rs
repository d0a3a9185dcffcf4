use plugin_potato_live::clock::{parse_datetime_at, LocalTime};
use plugin_potato_live::config::LiveRoom;
use plugin_potato_live::monitor::{
    check_and_notify, observe, Announce, Event, RuntimeState, Step, MAX_CONSECUTIVE_FAILURES,
    MIN_SESSION_SECS,
};
use plugin_potato_live::session::{LiveSession, TimedSession};
use plugin_potato_live::wire::{
    get_live_status, handle_task_event, is_live_task, live_status, pick_image, report_image,
    schedule_request, status_url, task_room,
};

const EAST: i32 = 8 * 3600;
const TELL: Announce = Announce { on_start: true, on_end: true };
const QUIET: Announce = Announce { on_start: false, on_end: false };

fn at(text: &str) -> LocalTime {
    parse_datetime_at(text, EAST).unwrap()
}

fn check(status: Option<u32>, state: &RuntimeState, now: &str, announce: Announce) -> Step {
    observe(status, 7, "土豆", state.clone(), at(now), EAST, announce)
}

#[test]
fn a_stream_is_recorded_from_begin_to_end() {
    let idle = RuntimeState::new(7);
    let first = check(Some(1), &idle, "2026-05-18T19:00:00+08:00", TELL);
    assert!(first.save && first.state.is_live);
    assert_eq!(first.state.current_start, Some("2026-05-18T19:00:00+08:00".to_string()));
    assert_eq!(first.event, Event::Began { announcement: Some("土豆开播啦！".to_string()) });
    let second = check(Some(1), &first.state, "2026-05-18T20:00:00+08:00", TELL);
    assert_eq!((second.save, &second.event), (false, &Event::GoesOn));
    assert_eq!(second.state, first.state);
    let third = check(None, &second.state, "2026-05-18T20:01:00+08:00", TELL);
    assert_eq!(third.event, Event::Failed { failures: 1, persistent: false });
    assert!(third.save && third.state.is_live);
    let last = check(Some(0), &third.state, "2026-05-19T02:00:00.5+08:00", TELL);
    assert!(last.save);
    assert_eq!(last.state, idle);
    assert_eq!(
        last.event,
        Event::Ended {
            session: LiveSession {
                room_id: 7,
                start: "2026-05-18T19:00:00+08:00".to_string(),
                end: "2026-05-19T02:00:00.500+08:00".to_string(),
                duration_secs: 25200,
                weekday: 1,
                start_hour: 19,
                end_hour: 2,
            },
            announce: true,
        }
    );
}

#[test]
fn a_recorded_session_is_read_back() {
    let first = check(Some(1), &RuntimeState::new(7), "2026-05-18T19:00:00.123+08:00", TELL);
    let last = check(Some(0), &first.state, "2026-05-19T02:00:00+08:00", TELL);
    match last.event {
        Event::Ended { session, .. } => {
            let duration = session.duration_secs as i64;
            let span = TimedSession::at_offset(session, -3600).unwrap().span.unwrap();
            assert_eq!(span.start.utc, at("2026-05-18T19:00:00+08:00").utc);
            assert_eq!(span.start.nanos, 123000000);
            assert_eq!(span.start.seconds_until(span.end), duration);
        }
        other => panic!("{:?}", other),
    }
}

#[test]
fn announcements_can_be_switched_off() {
    let first = check(Some(1), &RuntimeState::new(7), "2026-05-18T19:00:00+08:00", QUIET);
    assert_eq!(first.event, Event::Began { announcement: None });
    let last = check(Some(2), &first.state, "2026-05-18T20:00:00+08:00", QUIET);
    match last.event {
        Event::Ended { announce, .. } => assert!(!announce),
        other => panic!("{:?}", other),
    }
}

#[test]
fn short_streams_are_dropped() {
    let first = check(Some(1), &RuntimeState::new(7), "2026-05-18T19:00:00+08:00", TELL);
    let end = |now: &str| check(Some(0), &first.state, now, TELL);
    let short = end("2026-05-18T19:02:59.9+08:00");
    assert_eq!(short.event, Event::TooShort { seconds: MIN_SESSION_SECS as i64 - 1 });
    assert!(short.save && !short.state.is_live && short.state.current_start.is_none());
    match end("2026-05-18T19:03:00+08:00").event {
        Event::Ended { session, .. } => assert_eq!(session.duration_secs, MIN_SESSION_SECS),
        other => panic!("{:?}", other),
    }
    assert_eq!(
        end("2026-05-18T18:00:00+08:00").event,
        Event::TooShort { seconds: -3600 }
    );
}

#[test]
fn a_lost_start_gives_no_length() {
    let mut lost = RuntimeState::new(7);
    lost.is_live = true;
    let now = "2026-05-18T19:00:00+08:00";
    assert_eq!(check(Some(0), &lost, now, TELL).event, Event::TooShort { seconds: 0 });
    lost.current_start = Some("?".to_string());
    assert_eq!(check(Some(2), &lost, now, TELL).event, Event::TooShort { seconds: 0 });
}

#[test]
fn nothing_happens_while_nothing_is_streamed() {
    let mut idle = RuntimeState::new(7);
    idle.consecutive_failures = 2;
    let step = check(Some(0), &idle, "2026-05-18T19:00:00+08:00", TELL);
    assert_eq!((step.save, step.event), (true, Event::Idle));
    assert_eq!(step.state, RuntimeState::new(7));
    let step = check(Some(0), &step.state, "2026-05-18T19:01:00+08:00", TELL);
    assert_eq!((step.save, step.event), (false, Event::Idle));
    assert_eq!(step.state, RuntimeState::new(7));
}

#[test]
fn failures_are_counted_and_end_no_stream() {
    let mut state = check(Some(1), &RuntimeState::new(7), "2026-05-18T19:00:00+08:00", TELL).state;
    for failures in 1..=5u32 {
        let step = check(None, &state, "2026-05-18T20:00:00+08:00", TELL);
        assert_eq!(
            step.event,
            Event::Failed { failures, persistent: failures >= MAX_CONSECUTIVE_FAILURES }
        );
        assert!(step.save && step.state.is_live);
        assert_eq!(step.state.current_start, state.current_start);
        state = step.state;
    }
    state.consecutive_failures = u32::MAX;
    let step = check(Some(9), &state, "2026-05-18T20:00:00+08:00", TELL);
    assert_eq!((step.save, step.event), (true, Event::Unknown { status: 9 }));
    assert_eq!(step.state.consecutive_failures, 0);
    assert!(step.state.is_live);
    let again = check(Some(9), &step.state, "2026-05-18T20:01:00+08:00", TELL);
    assert_eq!((again.save, &again.event), (false, &Event::Unknown { status: 9 }));
    assert_eq!(again.state, step.state);
}

#[test]
fn a_success_between_failures_is_stored() {
    let mut state = check(Some(1), &RuntimeState::new(7), "2026-05-18T19:00:00+08:00", TELL).state;
    for _ in 0..5 {
        let failed = check(None, &state, "2026-05-18T20:00:00+08:00", TELL);
        assert_eq!(failed.event, Event::Failed { failures: 1, persistent: false });
        let fine = check(Some(1), &failed.state, "2026-05-18T20:01:00+08:00", TELL);
        assert_eq!((fine.save, &fine.event), (true, &Event::GoesOn));
        assert_eq!(fine.state.consecutive_failures, 0);
        assert_eq!(fine.state.current_start, failed.state.current_start);
        state = fine.state;
    }
}

#[test]
fn checks_by_the_machine_clock() {
    let begin = check_and_notify(Some(1), 7, "土豆", RuntimeState::new(7), TELL);
    assert_eq!(begin.event, Event::Began { announcement: Some("土豆开播啦！".to_string()) });
    let end = check_and_notify(Some(0), 7, "土豆", begin.state, TELL);
    match end.event {
        Event::TooShort { seconds } => assert!((0..20).contains(&seconds)),
        other => panic!("{:?}", other),
    }
    let failed = check_and_notify(None, 7, "土豆", RuntimeState::new(7), TELL);
    assert_eq!(failed.event, Event::Failed { failures: 1, persistent: false });
    let mut long = RuntimeState::new(7);
    long.is_live = true;
    long.current_start = Some("2020-01-01T00:00:00+08:00".to_string());
    match check_and_notify(Some(0), 7, "土豆", long, QUIET).event {
        Event::Ended { session, announce } => {
            assert!(session.duration_secs > 6 * 365 * 86400 && !announce);
            assert_eq!(session.start, "2020-01-01T00:00:00+08:00");
        }
        other => panic!("{:?}", other),
    }
}

#[test]
fn statuses_in_replies() {
    let read = |reply: &str| get_live_status(reply.as_bytes());
    assert_eq!(read(r#"{"code":0,"data":{"live_status":1}}"#), Some(1));
    assert_eq!(read(r#"{"code":0,"data":{"live_status":0}}"#), Some(0));
    assert_eq!(read(r#"{"code":0,"data":{"live_status":4294967298}}"#), Some(2));
    assert_eq!(read(r#"{"code":1,"data":{"live_status":1}}"#), None);
    assert_eq!(read(r#"{"code":"0","data":{"live_status":1}}"#), None);
    assert_eq!(read(r#"{"data":{"live_status":1}}"#), None);
    assert_eq!(read(r#"{"code":0,"data":{"live_status":-1}}"#), None);
    assert_eq!(read(r#"{"code":0,"data":{"live_status":"1"}}"#), None);
    assert_eq!(read(r#"{"code":0,"data":[1]}"#), None);
    assert_eq!(read("no reply"), None);
    assert_eq!(live_status(Some(0), Some(5)), Some(5));
    assert_eq!(live_status(Some(0), None), None);
    assert_eq!(live_status(None, Some(5)), None);
}

#[test]
fn pictures_in_replies() {
    let read = |reply: &str| report_image(true, reply.as_bytes());
    assert_eq!(read(r#"{"image_url":"a","url":"b"}"#), Some("a".to_string()));
    assert_eq!(read(r#"{"url":"b","data":{"url":"c"}}"#), Some("b".to_string()));
    assert_eq!(read(r#"{"image_url":7,"data":{"url":"c"}}"#), Some("c".to_string()));
    assert_eq!(read(r#"{"image_url":"","url":"b"}"#), None);
    assert_eq!(read(r#"{}"#), None);
    assert_eq!(read("http://a"), None);
    assert_eq!(report_image(false, br#"{"url":"b"}"#), None);
    assert_eq!(pick_image(None, None, Some("c".to_string())), Some("c".to_string()));
    assert_eq!(pick_image(None, Some(String::new()), Some("c".to_string())), None);
}

#[test]
fn the_address_of_a_status() {
    assert_eq!(
        status_url(13160979),
        "https://api.live.bilibili.com/room/v1/Room/get_info?room_id=13160979"
    );
}

#[test]
fn events_of_the_scheduler() {
    let room = |room_id: u64, name: &str| Some(LiveRoom { room_id, name: name.to_string() });
    assert_eq!(
        handle_task_event(
            r#"{"task_name":"bilibili_live_7","payload":"{\"room_id\":7,\"name\":\"土豆\"}"}"#
        ),
        room(7, "土豆")
    );
    assert_eq!(
        handle_task_event(r#"{"task_name":"bilibili_live_","payload":"{}"}"#),
        room(0, "unknown")
    );
    assert_eq!(
        handle_task_event(r#"{"task_name":"bilibili_live_7","payload":"[3]"}"#),
        room(0, "unknown")
    );
    assert_eq!(handle_task_event(r#"{"task_name":"bilibili_live_7"}"#), None);
    assert_eq!(handle_task_event(r#"{"task_name":"bilibili_live_7","payload":"{"}"#), None);
    assert_eq!(handle_task_event(r#"{"task_name":"weather","payload":"{}"}"#), None);
    assert_eq!(handle_task_event(r#"{"payload":"{}"}"#), None);
    assert_eq!(handle_task_event("tick"), None);
    assert!(is_live_task("bilibili_live_") && !is_live_task("xbilibili_live_"));
    assert_eq!(task_room(None, None), LiveRoom { room_id: 0, name: "unknown".to_string() });
}

#[test]
fn a_registered_room_is_checked() {
    for name in ["土豆", "", "a\"b\\c\n\u{1}/~", "🥔"] {
        let room = LiveRoom { room_id: u64::MAX, name: name.to_string() };
        let request = schedule_request(&room);
        let value: serde_json::Value = serde_json::from_str(&request).unwrap();
        assert_eq!(value["action"], "schedule");
        assert_eq!(value["task_name"], "bilibili_live_18446744073709551615");
        assert_eq!(value["cron"], "0 */1 * * * *");
        assert_eq!(handle_task_event(&request), Some(room));
    }
    let room = LiveRoom { room_id: 7, name: "x".to_string() };
    assert_eq!(
        schedule_request(&room),
        "{\"action\":\"schedule\",\"cron\":\"0 */1 * * * *\",\
         \"payload\":\"{\\\"name\\\":\\\"x\\\",\\\"room_id\\\":7}\",\
         \"task_name\":\"bilibili_live_7\"}"
    );
}
