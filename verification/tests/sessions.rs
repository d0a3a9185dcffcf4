use plugin_potato_live::aggregate::{
    aggregate_of, compute_average_start_minutes, recompute_aggregate, Aggregate,
};
use plugin_potato_live::calendar::Date;
use plugin_potato_live::clock::{parse_datetime_at, LocalTime};
use plugin_potato_live::segments::{
    compute_hour_distribution, compute_peak_hour, compute_weekday_distribution,
    split_session_into_segments, Segment,
};
use plugin_potato_live::session::{read_sessions, turns, LiveSession, Span, TimedSession};
use plugin_potato_live::split::{
    get_session_dates, get_session_day_seconds, split_session_by_day,
};
use plugin_potato_live::stats::{
    compute_monthly_live_days, compute_monthly_seconds, compute_today_seconds,
    compute_weekly_live_days, compute_weekly_seconds, filter_sessions_in_range,
    get_today_sessions,
};
use plugin_potato_live::streak::{compute_longest_streak, compute_streak};

const EAST: i32 = 8 * 3600;

fn live_session(start: &str, end: &str, duration_secs: u64) -> LiveSession {
    LiveSession {
        room_id: 999,
        start: start.to_string(),
        end: end.to_string(),
        duration_secs,
        weekday: 0,
        start_hour: 0,
        end_hour: 0,
    }
}

fn make_session(start: &str, end: &str, duration_secs: u64) -> TimedSession {
    TimedSession::at_offset(live_session(start, end, duration_secs), EAST).unwrap()
}

fn date(year: i32, month: u32, day: u32) -> Date {
    Date::from_ymd_opt(year, month, day).unwrap()
}

fn at(text: &str) -> LocalTime {
    parse_datetime_at(text, EAST).unwrap()
}

fn span(start: &str, end: &str) -> Span {
    Span::with_turns(at(start), at(end), EAST, EAST).unwrap()
}

#[test]
fn test_split_same_day() {
    let result = split_session_by_day(span("2026-05-15T10:00:00+08:00", "2026-05-15T14:30:00+08:00"));
    assert_eq!(result.len(), 1);
    assert_eq!(result[0].0, Date::from_ymd_opt(2026, 5, 15).unwrap());
    assert_eq!(result[0].1, 4 * 3600 + 30 * 60);
}

#[test]
fn test_split_cross_midnight() {
    let result = split_session_by_day(span("2026-05-23T23:00:00+08:00", "2026-05-24T02:00:00+08:00"));
    assert_eq!(result.len(), 2);
    assert_eq!(result[0].0, Date::from_ymd_opt(2026, 5, 23).unwrap());
    assert_eq!(result[0].1, 3600);
    assert_eq!(result[1].0, Date::from_ymd_opt(2026, 5, 24).unwrap());
    assert_eq!(result[1].1, 2 * 3600);
}

#[test]
fn test_split_multi_day() {
    let result = split_session_by_day(span("2026-05-01T12:00:00+08:00", "2026-05-03T06:00:00+08:00"));
    assert_eq!(result.len(), 3);
    assert_eq!(result[0].0, Date::from_ymd_opt(2026, 5, 1).unwrap());
    assert_eq!(result[0].1, 12 * 3600);
    assert_eq!(result[1].0, Date::from_ymd_opt(2026, 5, 2).unwrap());
    assert_eq!(result[1].1, 24 * 3600);
    assert_eq!(result[2].0, Date::from_ymd_opt(2026, 5, 3).unwrap());
    assert_eq!(result[2].1, 6 * 3600);
}

#[test]
fn test_split_invalid_range() {
    let result = split_session_by_day(span("2026-05-15T14:00:00+08:00", "2026-05-15T10:00:00+08:00"));
    assert!(result.is_empty());
    let result = split_session_by_day(span("2026-05-15T14:00:00+08:00", "2026-05-15T14:00:00+08:00"));
    assert!(result.is_empty());
    let result = split_session_by_day(span("2026-05-16T01:00:00+08:00", "2026-05-15T10:00:00+08:00"));
    assert!(result.is_empty());
}

#[test]
fn a_last_day_without_a_second_is_no_day() {
    let result = split_session_by_day(span("2026-05-15T23:00:00+08:00", "2026-05-16T00:00:00.9+08:00"));
    assert_eq!(result, vec![(date(2026, 5, 15), 3600)]);
    let timed = make_session("2026-05-15T23:00:00+08:00", "2026-05-16T00:00:00.9+08:00", 3600);
    assert_eq!(split_session_into_segments(&timed).len(), 2);
    assert_eq!(get_session_dates(&timed), vec![date(2026, 5, 15)]);
}

#[test]
fn parts_add_up_to_the_length() {
    let span = span("2026-02-27T21:17:05+08:00", "2026-03-04T03:04:06.5+08:00");
    let total: u64 = split_session_by_day(span).iter().map(|part| part.1).sum();
    assert_eq!(total as i64, span.start.seconds_until(span.end));
    for (day, secs) in split_session_by_day(span) {
        assert!(span.covers_date(day));
        assert_eq!(span.seconds_of(day), secs);
    }
    assert!(!span.covers_date(date(2026, 2, 26)));
    assert_eq!(span.seconds_of(date(2026, 3, 5)), 0);
}

#[test]
fn a_shift_of_the_clock_moves_the_turn_of_the_day() {
    let start = at("2026-05-15T22:00:00+08:00");
    let end = at("2026-05-16T02:00:00+08:00");
    let shifted = Span::with_turns(start, end, EAST - 3600, EAST).unwrap();
    let parts = split_session_by_day(shifted);
    assert_eq!(parts, vec![(date(2026, 5, 15), 3 * 3600), (date(2026, 5, 16), 2 * 3600)]);
    assert_eq!(Span::with_turns(start, end, EAST + 3 * 3600, EAST), None);
    assert_eq!(Span::with_turns(start, end, EAST, EAST - 3 * 3600), None);
}

#[test]
fn test_segments_same_day() {
    let s = make_session(
        "2026-05-15T10:00:00+08:00",
        "2026-05-15T14:30:00+08:00",
        4 * 3600 + 30 * 60,
    );
    let segs = split_session_into_segments(&s);
    assert_eq!(segs.len(), 1);
    assert_eq!(segs[0].start_time, "10:00");
    assert_eq!(segs[0].end_time, "14:30");
    assert_eq!(segs[0].duration_minutes, 270);
    assert_eq!(segs[0].crosses_midnight, false);
}

#[test]
fn test_segments_cross_midnight() {
    let s = make_session("2026-01-16T19:00:00+08:00", "2026-01-17T02:00:00+08:00", 7 * 3600);
    let segs = split_session_into_segments(&s);
    assert_eq!(segs.len(), 2);
    assert_eq!(segs[0].start_time, "19:00");
    assert_eq!(segs[0].end_time, "24:00");
    assert_eq!(segs[0].duration_minutes, 300);
    assert_eq!(segs[0].crosses_midnight, true);
    assert_eq!(segs[1].start_time, "00:00");
    assert_eq!(segs[1].end_time, "02:00");
    assert_eq!(segs[1].duration_minutes, 120);
    assert_eq!(segs[1].crosses_midnight, true);
}

#[test]
fn test_segments_cross_midnight_18_to_3() {
    let s = make_session("2026-01-19T18:00:00+08:00", "2026-01-20T03:00:00+08:00", 9 * 3600);
    let segs = split_session_into_segments(&s);
    assert_eq!(segs.len(), 2);
    assert_eq!(segs[0].start_time, "18:00");
    assert_eq!(segs[0].end_time, "24:00");
    assert_eq!(segs[0].duration_minutes, 360);
    assert_eq!(segs[0].crosses_midnight, true);
    assert_eq!(segs[1].start_time, "00:00");
    assert_eq!(segs[1].end_time, "03:00");
    assert_eq!(segs[1].duration_minutes, 180);
    assert_eq!(segs[1].crosses_midnight, true);
}

#[test]
fn segments_of_whole_days_add_up() {
    let s = make_session("2026-01-19T18:05:59+08:00", "2026-01-22T03:10:00+08:00", 0);
    let segs = split_session_into_segments(&s);
    assert_eq!(segs.len(), 4);
    assert_eq!(
        segs[1],
        Segment {
            start_time: "00:00".to_string(),
            end_time: "24:00".to_string(),
            duration_minutes: 1440,
            crosses_midnight: true,
        }
    );
    let total: u64 = segs.iter().map(|segment| segment.duration_minutes).sum();
    assert_eq!(total, 3 * 1440 + 190 - 1085);
}

#[test]
fn dates_have_their_segments() {
    let s = make_session("2026-01-19T18:05:59+08:00", "2026-01-22T03:10:00+08:00", 0);
    let segs = split_session_into_segments(&s);
    for (i, day) in get_session_dates(&s).iter().enumerate() {
        let (from, to) = s.span.unwrap().piece_of(*day);
        assert_eq!(segs[i].duration_minutes, (to - from) as u64);
        assert!(s.is_live_on(*day));
    }
    assert!(!s.is_live_on(date(2026, 1, 18)));
}

#[test]
fn sessions_without_times_have_no_days() {
    let s = make_session("soon", "2026-01-20T03:00:00+08:00", 60);
    assert!(s.start.is_none() && s.span.is_none());
    assert!(split_session_into_segments(&s).is_empty());
    assert!(get_session_dates(&s).is_empty());
    assert_eq!(get_session_day_seconds(&s, date(2026, 1, 20)), 0);
    let s = make_session("2026-01-20T03:00:00+08:00", "later", 60);
    assert!(s.start.is_some() && s.span.is_none());
    assert!(get_session_dates(&s).is_empty());
}

#[test]
fn test_session_dates_same_day() {
    let s = make_session("2026-05-10T08:00:00+08:00", "2026-05-10T12:00:00+08:00", 4 * 3600);
    let dates = get_session_dates(&s);
    assert_eq!(dates.len(), 1);
    assert_eq!(dates[0], Date::from_ymd_opt(2026, 5, 10).unwrap());
}

#[test]
fn test_session_dates_cross_midnight() {
    let s = make_session("2026-05-23T23:00:00+08:00", "2026-05-24T02:00:00+08:00", 3 * 3600);
    let dates = get_session_dates(&s);
    assert_eq!(dates.len(), 2);
    assert_eq!(dates[0], Date::from_ymd_opt(2026, 5, 23).unwrap());
    assert_eq!(dates[1], Date::from_ymd_opt(2026, 5, 24).unwrap());
}

#[test]
fn test_session_day_seconds_cross() {
    let s = make_session("2026-05-23T23:00:00+08:00", "2026-05-24T02:00:00+08:00", 3 * 3600);
    let day23 = Date::from_ymd_opt(2026, 5, 23).unwrap();
    let day24 = Date::from_ymd_opt(2026, 5, 24).unwrap();
    assert_eq!(get_session_day_seconds(&s, day23), 3600);
    assert_eq!(get_session_day_seconds(&s, day24), 7200);
}

#[test]
fn test_peak_hour() {
    let mut dist = [0u64; 24];
    dist[20] = 480;
    dist[21] = 300;
    dist[14] = 360;
    let (hour, mins) = compute_peak_hour(&dist);
    assert_eq!(hour, 20);
    assert_eq!(mins, 480);
}

#[test]
fn test_peak_hour_all_zero() {
    let dist = [0u64; 24];
    let (hour, mins) = compute_peak_hour(&dist);
    assert_eq!(hour, 0);
    assert_eq!(mins, 0);
}

#[test]
fn the_earliest_peak_counts() {
    let mut dist = [7u64; 24];
    dist[5] = 9;
    dist[23] = 9;
    assert_eq!(compute_peak_hour(&dist), (5, 9));
}

#[test]
fn hours_share_out_the_minutes() {
    let sessions = vec![
        make_session("2026-05-10T22:15:00+08:00", "2026-05-11T01:20:00+08:00", 0),
        make_session("2026-05-11T10:05:00+08:00", "2026-05-11T10:50:00+08:00", 0),
        make_session("2026-05-20T10:05:00+08:00", "2026-05-20T10:50:00+08:00", 0),
        make_session("?", "?", 0),
    ];
    let picked: Vec<&TimedSession> = sessions.iter().collect();
    let hours = compute_hour_distribution(&picked, date(2026, 5, 11), date(2026, 5, 12));
    let mut expected = [0u64; 24];
    expected[0] = 60;
    expected[1] = 20;
    expected[10] = 45;
    assert_eq!(hours, expected);
    assert_eq!(hours.iter().sum::<u64>(), 80 + 45);
    let hours = compute_hour_distribution(&picked, date(2026, 5, 10), date(2026, 5, 12));
    expected[22] = 45;
    expected[23] = 60;
    assert_eq!(hours, expected);
}

#[test]
fn hours_outside_the_range_do_not_count() {
    let sessions = vec![
        make_session("2026-05-09T23:00:00+08:00", "2026-05-10T02:00:00+08:00", 3 * 3600),
    ];
    let picked: Vec<&TimedSession> = sessions.iter().collect();
    let hours = compute_hour_distribution(&picked, date(2026, 5, 10), date(2026, 5, 10));
    let mut expected = [0u64; 24];
    expected[0] = 60;
    expected[1] = 60;
    assert_eq!(hours, expected);
    let hours = compute_hour_distribution(&picked, date(2026, 5, 9), date(2026, 5, 9));
    let mut expected = [0u64; 24];
    expected[23] = 60;
    assert_eq!(hours, expected);
    let hours = compute_hour_distribution(&picked, date(2026, 5, 11), date(2026, 5, 12));
    assert_eq!(hours, [0u64; 24]);
}

#[test]
fn turns_of_the_day_bound_a_stretch() {
    let start = at("2026-05-09T23:00:00+08:00");
    let end = at("2026-05-11T02:00:00+08:00");
    assert_eq!(
        turns(start, end),
        Some(((date(2026, 5, 9).day, 86399), (date(2026, 5, 11).day, 0)))
    );
    assert_eq!(turns(end, start), None);
    assert_eq!(turns(start, at("2026-05-09T23:30:00+08:00")), None);
}

fn three_days() -> Vec<TimedSession> {
    vec![
        make_session("2026-05-11T10:00:00+08:00", "2026-05-11T14:00:00+08:00", 4 * 3600),
        make_session("2026-05-12T10:00:00+08:00", "2026-05-12T14:00:00+08:00", 4 * 3600),
        make_session("2026-05-13T10:00:00+08:00", "2026-05-13T14:00:00+08:00", 4 * 3600),
    ]
}

#[test]
fn test_streak_consecutive() {
    let sessions = three_days();
    assert_eq!(compute_streak(&sessions, date(2026, 5, 13)), 3);
}

#[test]
fn a_streak_lasts_until_the_end_of_the_next_day() {
    let sessions = three_days();
    assert_eq!(compute_streak(&sessions, date(2026, 5, 14)), 3);
    assert_eq!(compute_streak(&sessions, date(2026, 5, 15)), 0);
    assert_eq!(compute_streak(&sessions, date(2026, 5, 12)), 2);
    assert_eq!(compute_streak(&sessions, date(2026, 5, 10)), 0);
}

#[test]
fn a_missing_day_breaks_a_streak() {
    let mut sessions = three_days();
    sessions.remove(1);
    assert_eq!(compute_streak(&sessions, date(2026, 5, 13)), 1);
    assert_eq!(compute_longest_streak(&sessions), 1);
}

#[test]
fn test_streak_empty() {
    let sessions: Vec<TimedSession> = vec![];
    assert_eq!(compute_streak(&sessions, date(2026, 5, 13)), 0);
}

#[test]
fn test_longest_streak_basic() {
    let sessions = vec![
        make_session("2026-05-10T10:00:00+08:00", "2026-05-10T12:00:00+08:00", 2 * 3600),
        make_session("2026-05-11T10:00:00+08:00", "2026-05-11T12:00:00+08:00", 2 * 3600),
        make_session("2026-05-12T10:00:00+08:00", "2026-05-12T12:00:00+08:00", 2 * 3600),
        make_session("2026-05-14T10:00:00+08:00", "2026-05-14T12:00:00+08:00", 2 * 3600),
        make_session("2026-05-15T10:00:00+08:00", "2026-05-15T12:00:00+08:00", 2 * 3600),
    ];
    assert_eq!(compute_longest_streak(&sessions), 3);
    let mut shuffled = sessions.clone();
    shuffled.reverse();
    shuffled.push(sessions[1].clone());
    assert_eq!(compute_longest_streak(&shuffled), 3);
    assert!(compute_streak(&shuffled, date(2026, 5, 15)) <= 3);
}

#[test]
fn test_longest_streak_cross_midnight() {
    let sessions = vec![
        make_session("2026-05-10T22:00:00+08:00", "2026-05-11T02:00:00+08:00", 4 * 3600),
        make_session("2026-05-11T22:00:00+08:00", "2026-05-12T02:00:00+08:00", 4 * 3600),
        make_session("2026-05-12T22:00:00+08:00", "2026-05-13T02:00:00+08:00", 4 * 3600),
    ];
    assert_eq!(compute_longest_streak(&sessions), 4);
}

#[test]
fn test_longest_streak_empty() {
    let sessions: Vec<TimedSession> = vec![];
    assert_eq!(compute_longest_streak(&sessions), 0);
}

#[test]
fn test_longest_streak_single() {
    let sessions = vec![
        make_session("2026-05-10T10:00:00+08:00", "2026-05-10T12:00:00+08:00", 2 * 3600),
    ];
    assert_eq!(compute_longest_streak(&sessions), 1);
}

#[test]
fn test_avg_start_minutes() {
    let sessions = vec![
        make_session("2026-05-10T10:00:00+08:00", "2026-05-10T12:00:00+08:00", 2 * 3600),
        make_session("2026-05-11T14:30:00+08:00", "2026-05-11T16:00:00+08:00", 2 * 3600),
    ];
    let avg = compute_average_start_minutes(&sessions);
    assert_eq!(avg, Some((10 * 60 + 14 * 60 + 30) / 2));
    assert_eq!(avg, Some(735));
}

#[test]
fn test_avg_start_minutes_empty() {
    let sessions: Vec<TimedSession> = vec![];
    assert_eq!(compute_average_start_minutes(&sessions), None);
}

#[test]
fn a_start_that_is_not_known_counts_as_midnight() {
    let sessions = vec![
        make_session("2026-05-10T10:00:00+08:00", "2026-05-10T12:00:00+08:00", 0),
        make_session("?", "2026-05-11T16:00:00+08:00", 0),
    ];
    assert_eq!(compute_average_start_minutes(&sessions), Some(300));
}

#[test]
fn figures_of_sessions() {
    let sessions = vec![
        make_session("2026-05-10T10:00:00+08:00", "2026-05-10T12:00:00+08:00", 7200),
        make_session("2026-05-11T14:30:00+08:00", "2026-05-11T16:30:00+08:00", 7200),
        make_session("2026-05-12T14:30:00+08:00", "2026-05-12T14:40:00+08:00", 600),
    ];
    assert_eq!(
        aggregate_of(&sessions),
        Aggregate {
            total_sessions: 3,
            total_seconds: 15000,
            longest_session_secs: 7200,
            longest_session_date: Some("2026-05-11T14:30:00+08:00".to_string()),
            average_start_minutes: Some((600 + 870 + 870) / 3),
        }
    );
    let figures = aggregate_of(&sessions);
    assert!(figures.longest_session_secs <= figures.total_seconds);
    assert_eq!(aggregate_of(&vec![]), Aggregate::default());
}

#[test]
fn figures_by_the_local_clock() {
    let sessions = vec![
        live_session("2026-05-10T10:00:00+08:00", "2026-05-10T12:00:00+08:00", 7200),
        live_session("2026-05-11T14:30:00+08:00", "2026-05-11T16:30:00+08:00", 600),
    ];
    let figures = recompute_aggregate(&sessions).unwrap();
    assert_eq!((figures.total_sessions, figures.total_seconds), (2, 7800));
    assert_eq!(figures.longest_session_secs, 7200);
    assert_eq!(figures.longest_session_date, Some("2026-05-10T10:00:00+08:00".to_string()));
    assert!(figures.average_start_minutes.unwrap() < 1440);
    assert_eq!(recompute_aggregate(&vec![]), Some(Aggregate::default()));
    let mut endless = sessions.clone();
    endless[0].duration_secs = u64::MAX;
    assert_eq!(recompute_aggregate(&endless), None);
}

#[test]
fn test_filter_sessions_in_range() {
    let sessions = vec![
        make_session("2026-05-10T10:00:00+08:00", "2026-05-10T12:00:00+08:00", 2 * 3600),
        make_session("2026-05-15T10:00:00+08:00", "2026-05-15T12:00:00+08:00", 2 * 3600),
        make_session("2026-05-20T10:00:00+08:00", "2026-05-20T12:00:00+08:00", 2 * 3600),
    ];
    let start = Date::from_ymd_opt(2026, 5, 12).unwrap();
    let end = Date::from_ymd_opt(2026, 5, 18).unwrap();
    let filtered = filter_sessions_in_range(&sessions, start, end);
    assert_eq!(filtered.len(), 1);
    assert_eq!(filtered[0].session.start, "2026-05-15T10:00:00+08:00");
}

#[test]
fn test_filter_sessions_cross_midnight() {
    let sessions = vec![
        make_session("2026-05-09T23:00:00+08:00", "2026-05-10T02:00:00+08:00", 3 * 3600),
    ];
    let start = Date::from_ymd_opt(2026, 5, 10).unwrap();
    let end = Date::from_ymd_opt(2026, 5, 10).unwrap();
    let filtered = filter_sessions_in_range(&sessions, start, end);
    assert_eq!(filtered.len(), 1);
}

#[test]
fn a_session_around_a_range_is_in_it() {
    let sessions = vec![
        make_session("2026-05-01T23:00:00+08:00", "2026-05-20T02:00:00+08:00", 0),
        make_session("2026-05-09T23:00:00+08:00", "2026-05-10T00:00:00+08:00", 0),
    ];
    let day = date(2026, 5, 10);
    let filtered = filter_sessions_in_range(&sessions, day, day);
    assert_eq!(filtered, vec![&sessions[0]]);
    assert_eq!(get_session_day_seconds(&sessions[1], day), 0);
    assert!(sessions[0].is_live_within(day, day) && !sessions[1].is_live_within(day, day));
    assert!(filter_sessions_in_range(&sessions, day, date(2026, 5, 9)).is_empty());
}

#[test]
fn test_get_today_sessions_empty() {
    let sessions: Vec<TimedSession> = vec![];
    let result = get_today_sessions(&sessions, date(2026, 5, 10));
    assert!(result.is_empty());
}

#[test]
fn test_weekday_distribution() {
    let sessions = vec![
        make_session("2026-05-11T10:00:00+08:00", "2026-05-11T12:00:00+08:00", 2 * 3600),
    ];
    let dist = compute_weekday_distribution(&sessions.iter().collect::<Vec<_>>());
    assert_eq!(dist[0], 120);
}

#[test]
fn weekdays_share_out_the_minutes() {
    let sessions = vec![
        make_session("2026-05-16T22:30:00+08:00", "2026-05-18T01:15:00+08:00", 0),
        make_session("2026-05-18T10:00:00+08:00", "2026-05-18T12:00:00+08:00", 0),
    ];
    let dist = compute_weekday_distribution(&sessions.iter().collect::<Vec<_>>());
    assert_eq!(dist, [75 + 120, 0, 0, 0, 0, 90, 1440]);
}

#[test]
fn distributions_count_every_segment() {
    let sessions = vec![
        make_session("2026-05-16T22:30:40+08:00", "2026-05-18T01:15:20+08:00", 0),
        make_session("2026-05-18T10:00:00+08:00", "2026-05-19T00:00:00+08:00", 0),
        make_session("2026-05-18T10:00:00+08:00", "2026-05-18T10:00:00+08:00", 0),
        make_session("?", "2026-05-18T10:00:00+08:00", 0),
    ];
    let picked: Vec<&TimedSession> = sessions.iter().collect();
    let minutes: u64 = sessions
        .iter()
        .flat_map(|s| split_session_into_segments(s))
        .map(|segment| segment.duration_minutes)
        .sum();
    let (first, last) = (date(2026, 5, 16), date(2026, 5, 18));
    let weekdays = compute_weekday_distribution(&picked);
    let hours = compute_hour_distribution(&picked, first, last);
    assert_eq!(weekdays.iter().sum::<u64>(), minutes);
    assert_eq!(hours.iter().sum::<u64>(), minutes);
    let (head, tail) = (picked[..1].to_vec(), picked[1..].to_vec());
    for day in 0..7 {
        assert_eq!(
            weekdays[day],
            compute_weekday_distribution(&head)[day] + compute_weekday_distribution(&tail)[day]
        );
    }
    for hour in 0..24 {
        assert_eq!(
            hours[hour],
            compute_hour_distribution(&head, first, last)[hour]
                + compute_hour_distribution(&tail, first, last)[hour]
        );
        assert!(hours[hour] <= 60 * 4);
    }
}

#[test]
fn sums_over_week_month_and_day() {
    let sessions = vec![
        make_session("2026-04-30T22:00:00+08:00", "2026-05-01T03:00:00+08:00", 0),
        make_session("2026-05-10T23:00:00+08:00", "2026-05-11T02:00:00+08:00", 0),
        make_session("2026-05-11T10:00:00+08:00", "2026-05-11T10:00:59.5+08:00", 0),
        make_session("2026-05-13T10:00:00+08:00", "2026-05-13T11:00:00+08:00", 0),
        make_session("?", "2026-05-13T11:00:00+08:00", 0),
    ];
    let today = date(2026, 5, 12);
    assert_eq!(compute_weekly_live_days(&sessions, today), 1);
    assert_eq!(compute_weekly_seconds(&sessions, today), 7200 + 59);
    assert_eq!(compute_monthly_live_days(&sessions, today), 3);
    assert_eq!(compute_monthly_seconds(&sessions, today), 3 * 3600 + 3600 + 7200 + 59);
    assert_eq!(compute_today_seconds(&sessions, today), 0);
    assert_eq!(compute_today_seconds(&sessions, date(2026, 5, 11)), 7259);
    assert_eq!(get_today_sessions(&sessions, date(2026, 5, 11)).len(), 2);
    let days: u64 = (1..=12).map(|d| compute_today_seconds(&sessions, date(2026, 5, d))).sum();
    assert_eq!(days, compute_monthly_seconds(&sessions, today));
}

#[test]
fn sessions_are_read_on_the_local_clock() {
    let sessions = vec![
        live_session("2026-05-10T10:00:00+08:00", "2026-05-10T12:00:00+08:00", 7200),
        live_session("?", "!", 1),
    ];
    let timed = read_sessions(&sessions).unwrap();
    assert_eq!(timed[0].session, sessions[0]);
    assert_eq!(timed[1].session, sessions[1]);
    let span = timed[0].span.unwrap();
    assert_eq!(span.start.seconds_until(span.end), 7200);
    let total: u64 = split_session_by_day(span).iter().map(|part| part.1).sum();
    assert_eq!(total, 7200);
    assert!(timed[1].start.is_none() && timed[1].span.is_none());
    let started = TimedSession::started(sessions[0].clone());
    assert_eq!(started.start, Some(span.start));
}

#[test]
fn the_local_clock_knows_the_turns_of_the_day() {
    let session = live_session("2026-05-10T10:00:00+08:00", "2026-05-13T12:00:00+08:00", 0);
    let timed = TimedSession::read(session).unwrap();
    let total: u64 = split_session_by_day(timed.span.unwrap()).iter().map(|part| part.1).sum();
    assert_eq!(total, 3 * 86400 + 7200);
}
