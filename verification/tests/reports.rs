use plugin_potato_live::aggregate::{aggregate_of, Aggregate};
use plugin_potato_live::calendar::Date;
use plugin_potato_live::clock::{local_now, parse_datetime_at, LocalTime};
use plugin_potato_live::daily::{
    build_daily_report_data, daily_report, format_offline_message, format_today_report,
    handle_daily_query, offline_message, today_report, DaySession, SignedHours,
};
use plugin_potato_live::monitor::RuntimeState;
use plugin_potato_live::report::{
    build_monthly_report_data, build_weekly_report_data, build_yearly_report_data,
    is_ordered_within, monthly_report, monthly_report_if_ordered, weekly_report,
    weekly_report_if_ordered, yearly_report, yearly_report_if_ordered, DayReport, MonthRow,
    TopMonth, WeekRow, WeekdayRow,
};
use plugin_potato_live::segments::Segment;
use plugin_potato_live::session::{LiveSession, Span, TimedSession};

const EAST: i32 = 8 * 3600;

fn session(start: &str, end: &str, duration_secs: u64, weekday: u32, hours: (u32, u32)) -> LiveSession {
    LiveSession {
        room_id: 13160979,
        start: start.to_string(),
        end: end.to_string(),
        duration_secs,
        weekday,
        start_hour: hours.0,
        end_hour: hours.1,
    }
}

fn recorded() -> Vec<LiveSession> {
    vec![
        session("2026-05-14T09:56:00.825296639+08:00", "2026-05-14T14:19:00.636183118+08:00", 15779, 3, (9, 14)),
        session("2026-05-15T10:13:00.295659940+08:00", "2026-05-15T15:24:00.272495576+08:00", 18659, 4, (10, 15)),
        session("2026-05-16T12:35:01.054997753+08:00", "2026-05-16T15:57:01.097099645+08:00", 12120, 5, (12, 15)),
        session("2026-05-18T10:15:01.035196505+08:00", "2026-05-18T14:04:01.059786791+08:00", 13740, 0, (10, 14)),
        session("2026-05-18T19:00:00+08:00", "2026-05-19T02:00:00+08:00", 25200, 0, (19, 2)),
        session("2026-04-30T22:00:00+08:00", "2026-05-01T03:00:00+08:00", 18000, 3, (22, 3)),
    ]
}

fn timed() -> Vec<TimedSession> {
    recorded().into_iter().map(|s| TimedSession::at_offset(s, EAST).unwrap()).collect()
}

fn at(text: &str) -> LocalTime {
    parse_datetime_at(text, EAST).unwrap()
}

fn today() -> Date {
    Date::from_ymd_opt(2026, 5, 19).unwrap()
}

fn segment(from: &str, to: &str, minutes: u64, crosses: bool) -> Segment {
    Segment {
        start_time: from.to_string(),
        end_time: to.to_string(),
        duration_minutes: minutes,
        crosses_midnight: crosses,
    }
}

#[test]
fn the_week_so_far() {
    let report = weekly_report(&timed(), today(), "土豆");
    assert_eq!(report.streamer_name, "土豆");
    assert_eq!(report.week_start, "2026-05-18");
    assert_eq!(report.week_end, "2026-05-19");
    assert_eq!(report.total_stream_minutes, 649);
    assert_eq!(report.stream_days, 2);
    assert_eq!(report.session_count, 3);
    assert_eq!((report.peak_hour, report.peak_hour_minutes), (0, 60));
    assert_eq!(report.longest_session_minutes, 300);
    assert_eq!(report.streak_days, 2);
    assert_eq!(
        report.daily_stats,
        vec![
            DayReport {
                date: "2026-05-18".to_string(),
                total_minutes: 529,
                session_count: 2,
                sessions: vec![
                    segment("10:15", "14:04", 229, false),
                    segment("19:00", "24:00", 300, true),
                ],
            },
            DayReport {
                date: "2026-05-19".to_string(),
                total_minutes: 120,
                session_count: 1,
                sessions: vec![segment("00:00", "02:00", 120, true)],
            },
        ]
    );
}

#[test]
fn days_make_up_the_week() {
    let report = weekly_report(&timed(), Date::from_ymd_opt(2026, 5, 17).unwrap(), "土豆");
    assert_eq!(report.daily_stats.len(), 7);
    let minutes: u64 = report.daily_stats.iter().map(|day| day.total_minutes).sum();
    let count: u64 = report.daily_stats.iter().map(|day| day.session_count).sum();
    assert_eq!(minutes, report.total_stream_minutes);
    assert_eq!(count, report.session_count);
    assert_eq!(report.stream_days, 3);
    assert_eq!(report.streak_days, 3);
}

#[test]
fn a_peak_lies_within_the_range() {
    let night = session("2026-05-17T20:00:00+08:00", "2026-05-18T01:00:00+08:00", 18000, 6, (20, 1));
    let sessions = vec![TimedSession::at_offset(night, EAST).unwrap()];
    let report = weekly_report(&sessions, today(), "x");
    assert_eq!((report.peak_hour, report.peak_hour_minutes), (0, 60));
    let report = monthly_report(&sessions, today(), "x");
    assert_eq!((report.peak_hour, report.peak_hour_minutes), (0, 60));
    let sunday = weekly_report(&sessions, Date::from_ymd_opt(2026, 5, 17).unwrap(), "x");
    assert_eq!((sunday.peak_hour, sunday.peak_hour_minutes), (20, 60));
}

#[test]
fn a_clock_that_runs_backwards_makes_no_report() {
    let sessions = timed();
    assert_eq!(
        weekly_report_if_ordered(&sessions, today(), "x"),
        Some(weekly_report(&sessions, today(), "x"))
    );
    assert_eq!(
        monthly_report_if_ordered(&sessions, today(), "x"),
        Some(monthly_report(&sessions, today(), "x"))
    );
    assert_eq!(
        yearly_report_if_ordered(&sessions, 2026, "x"),
        Some(yearly_report(&sessions, 2026, "x"))
    );
    let start = LocalTime { utc: at("2026-05-19T02:50:00+08:00").utc, nanos: 0, offset: EAST };
    let end = LocalTime { utc: start.utc + 1200, nanos: 0, offset: EAST - 3600 };
    let mut turned = sessions[0].clone();
    turned.start = Some(start);
    turned.span = Span::with_turns(start, end, EAST, EAST);
    let turned = vec![turned];
    assert!(!is_ordered_within(&turned, today(), today()));
    assert_eq!(weekly_report_if_ordered(&turned, today(), "x"), None);
    assert_eq!(monthly_report_if_ordered(&turned, today(), "x"), None);
    assert_eq!(yearly_report_if_ordered(&turned, 2026, "x"), None);
    assert!(yearly_report_if_ordered(&turned, 2025, "x").is_some());
    let before = Date::from_ymd_opt(2026, 5, 18).unwrap();
    assert!(weekly_report_if_ordered(&turned, before, "x").is_some());
}

#[test]
fn a_day_without_a_whole_minute_is_no_stream_day() {
    let brief = session("2026-05-19T10:00:10+08:00", "2026-05-19T10:00:50+08:00", 40, 1, (10, 10));
    let sessions = vec![TimedSession::at_offset(brief, EAST).unwrap()];
    let report = weekly_report(&sessions, today(), "x");
    assert_eq!((report.stream_days, report.session_count), (0, 1));
    assert_eq!((report.total_stream_minutes, report.streak_days), (0, 1));
}

#[test]
fn the_month_so_far() {
    let report = monthly_report(&timed(), today(), "土豆");
    assert_eq!(report.streamer_name, "土豆");
    assert_eq!(report.month, "2026-05");
    assert_eq!(report.total_stream_minutes, 1603);
    assert_eq!(report.stream_days, 6);
    assert_eq!(report.session_count, 6);
    assert_eq!((report.peak_hour, report.peak_hour_minutes), (13, 240));
    assert_eq!(report.longest_session_minutes, 420);
    assert_eq!(report.streak_days, 2);
    let row = |week_number, total_minutes, session_count| WeekRow {
        week_number,
        total_minutes,
        session_count,
    };
    assert_eq!(
        report.weekly_stats,
        vec![row(1, 180, 1), row(2, 0, 0), row(3, 774, 3), row(4, 649, 2)]
    );
    let minutes: u64 = report.weekly_stats.iter().map(|week| week.total_minutes).sum();
    assert_eq!(minutes, report.total_stream_minutes);
    assert_eq!(report.weekday_distribution, [529, 120, 0, 383, 491, 202, 0]);
}

#[test]
fn months_are_written_with_four_characters() {
    let written = |year: i32| {
        monthly_report(&vec![], Date::from_ymd_opt(year, 3, 5).unwrap(), "x").month
    };
    assert_eq!(written(7), "0007-03");
    assert_eq!(written(-7), "-007-03");
    assert_eq!(written(12345), "12345-03");
}

#[test]
fn the_year() {
    let report = yearly_report(&timed(), 2026, "土豆");
    assert_eq!((report.streamer_name.as_str(), report.year), ("土豆", 2026));
    assert_eq!(report.total_stream_minutes, 1723);
    assert_eq!(report.stream_days, 7);
    assert_eq!(report.session_count, 6);
    assert_eq!((report.peak_hour, report.peak_hour_minutes), (13, 240));
    assert_eq!(report.longest_session_minutes, 420);
    assert_eq!(report.longest_streak_days, 3);
    let mut months: Vec<MonthRow> =
        (1..=12).map(|month| MonthRow { month, total_minutes: 0, stream_days: 0 }).collect();
    months[3] = MonthRow { month: 4, total_minutes: 120, stream_days: 1 };
    months[4] = MonthRow { month: 5, total_minutes: 1603, stream_days: 6 };
    assert_eq!(report.monthly_stats, months);
    let top = |month, total_minutes| TopMonth { month, total_minutes };
    assert_eq!(report.top_streaming_months, vec![top(5, 1603), top(4, 120), top(1, 0)]);
    let minutes = [529, 120, 0, 383, 491, 202, 0];
    let rows: Vec<WeekdayRow> = (0..7)
        .map(|weekday| WeekdayRow {
            weekday: weekday as u32,
            total_minutes: minutes[weekday],
            session_count: 6,
        })
        .collect();
    assert_eq!(report.weekday_distribution, rows);
    let sum: u64 = report.monthly_stats.iter().map(|month| month.total_minutes).sum();
    assert_eq!(sum, report.total_stream_minutes);
}

#[test]
fn a_year_without_sessions() {
    let report = yearly_report(&timed(), 2024, "x");
    assert_eq!((report.total_stream_minutes, report.session_count), (0, 0));
    assert_eq!(report.longest_streak_days, 3);
    let months: Vec<u32> = report.top_streaming_months.iter().map(|top| top.month).collect();
    assert_eq!(months, vec![1, 2, 3]);
}

#[test]
fn equal_months_rank_by_date() {
    let hour = |text: &str, end: &str| {
        TimedSession::at_offset(session(text, end, 3600, 0, (10, 11)), EAST).unwrap()
    };
    let sessions = vec![
        hour("2026-12-01T10:00:00+08:00", "2026-12-01T11:00:00+08:00"),
        hour("2026-07-01T10:00:00+08:00", "2026-07-01T11:00:00+08:00"),
        hour("2026-03-01T10:00:00+08:00", "2026-03-01T12:00:00+08:00"),
        hour("2026-02-01T10:00:00+08:00", "2026-02-01T11:00:00+08:00"),
    ];
    let report = yearly_report(&sessions, 2026, "x");
    let months: Vec<u32> = report.top_streaming_months.iter().map(|top| top.month).collect();
    assert_eq!(months, vec![3, 2, 7]);
}

fn idle() -> RuntimeState {
    RuntimeState::new(13160979)
}

fn live_since(text: &str) -> RuntimeState {
    RuntimeState {
        room_id: 13160979,
        is_live: true,
        current_start: Some(text.to_string()),
        consecutive_failures: 0,
    }
}

#[test]
fn today_as_a_report() {
    let sessions = timed();
    let figures = aggregate_of(&sessions);
    let now = at("2026-05-19T12:00:00+08:00");
    let report = daily_report(&sessions, &idle(), &figures, now, EAST, "土豆");
    assert_eq!((report.report_type.as_str(), report.room_name.as_str()), ("daily", "土豆"));
    assert_eq!((report.date.as_str(), report.weekday), ("2026-05-19", 1));
    assert!(!report.is_live);
    assert_eq!(report.live_elapsed, SignedHours { negative: false, hundredths: 0 });
    assert_eq!(
        report.sessions,
        vec![DaySession {
            start: "19:00".to_string(),
            end: "02:00".to_string(),
            duration_hundredths: 200,
        }]
    );
    assert_eq!((report.daily_total_hundredths, report.daily_session_count), (200, 1));
    assert_eq!((report.weekly_live_days, report.weekly_total_hundredths), (2, 1082));
    assert_eq!((report.monthly_live_days, report.monthly_total_hundredths), (6, 2675));
    assert_eq!(report.streak_days, 2);
    assert_eq!(report.longest_session_hundredths, 700);
    assert_eq!(report.longest_session_date, "2026-05-18");
    assert_eq!(report.average_start_time, "13:59");
    assert_eq!((report.total_sessions, report.total_hundredths), (6, 2875));
}

#[test]
fn a_stream_under_way_shows_its_hours() {
    let figures = Aggregate::default();
    let now = at("2026-05-19T12:00:00+08:00");
    let since = |text: &str| {
        daily_report(&vec![], &live_since(text), &figures, now, EAST, "x").live_elapsed
    };
    assert_eq!(
        since("2026-05-19T10:30:00+08:00"),
        SignedHours { negative: false, hundredths: 150 }
    );
    assert_eq!(
        since("2026-05-19T12:00:01+08:00"),
        SignedHours { negative: true, hundredths: 0 }
    );
    assert_eq!(since("?"), SignedHours { negative: false, hundredths: 0 });
    let report = daily_report(&vec![], &live_since("?"), &figures, now, EAST, "x");
    assert_eq!(report.longest_session_date, "");
    assert_eq!(report.average_start_time, "暂无");
    assert!(report.is_live);
}

#[test]
fn today_as_a_text() {
    let sessions = timed();
    let figures = aggregate_of(&sessions);
    let now = at("2026-05-19T12:00:00+08:00");
    let line = "━━━━━━━━━━━━━━━━━━";
    assert_eq!(
        today_report(&sessions, &idle(), &figures, now, EAST, "土豆"),
        format!(
            "📺 土豆今日直播情况\n{line}\n🎯 今日累计：2.0h\n  · 19:00 → 02:00（2.0h）\n{line}\n\
             🔥 连续开播：2天\n📈 本周：2天 / 10.8h\n🗓 本月：6天 / 26.7h\n\
             🏆 最长纪录：7.0h（2026-05-18）\n⏰ 平均开播：13:59"
        )
    );
    assert_eq!(
        today_report(&vec![], &live_since("2026-05-19T10:30:00+08:00"), &Aggregate::default(), now, EAST, "x"),
        format!(
            "📺 x今日直播情况\n{line}\n🟢 正在直播中（已播 1.5h）\n{line}\n🔥 连续开播：0天\n\
             📈 本周：0天 / 0.0h\n🗓 本月：0天 / 0.0h\n🏆 最长纪录：0.0h（未知）\n⏰ 平均开播：暂无"
        )
    );
}

#[test]
fn a_start_in_the_future_has_a_sign() {
    let now = at("2026-05-19T12:00:00+08:00");
    let text = |start: &str| {
        today_report(&vec![], &live_since(start), &Aggregate::default(), now, EAST, "x")
    };
    assert!(text("2026-05-19T12:00:01+08:00").contains("（已播 -0.0h）"));
    assert!(text("2026-05-19T13:00:00+08:00").contains("（已播 -1.0h）"));
    assert_eq!(format!("{:.1}", -1.0f64 / 3600.0), "-0.0");
}

#[test]
fn a_day_without_a_stream() {
    let now = at("2026-05-17T12:00:00+08:00");
    let sessions = timed();
    assert_eq!(
        today_report(&sessions, &idle(), &aggregate_of(&sessions), now, EAST, "土豆"),
        "土豆今天还没有开播哦~"
    );
}

#[test]
fn the_message_at_the_end() {
    let mut sessions = timed();
    sessions.swap(4, 5);
    let figures = aggregate_of(&sessions);
    assert_eq!(
        offline_message(&sessions, &figures, today(), "土豆"),
        "土豆下播啦！\n\n⏱ 本次：7.0h\n今日累计：2.0h\n连续开播：2天\n本周：2天 / 10.8h\n\
         本月：6天 / 26.7h\n最长纪录：7.0h（2026-05-18）\n平均开播：13:59"
    );
    assert_eq!(
        offline_message(&vec![], &Aggregate::default(), today(), "x"),
        "x下播啦！\n\n⏱ 本次：0h\n今日累计：0.0h\n连续开播：暂无\n本周：0天 / 0.0h\n\
         本月：0天 / 0.0h\n最长纪录：0.0h（未知）\n平均开播：暂无"
    );
}

#[test]
fn reports_by_the_machine_clock() {
    let sessions = recorded();
    let now = local_now();
    let weekly = build_weekly_report_data(&sessions, "土豆").unwrap();
    assert_eq!(weekly.week_end, now.date_naive().text());
    assert_eq!(weekly.daily_stats.len() as u32, now.date_naive().weekday() + 1);
    let monthly = build_monthly_report_data(&sessions, "土豆").unwrap();
    assert_eq!(monthly.month, now.date_naive().text()[..7].to_string());
    let yearly = build_yearly_report_data(&sessions, "土豆").unwrap();
    assert_eq!(yearly.year, now.date_naive().ymd().0);
    assert_eq!(yearly.longest_streak_days, 3);
    let daily =
        build_daily_report_data(&sessions, &idle(), &Aggregate::default(), "土豆").unwrap();
    assert_eq!(daily.date, now.date_naive().text());
}

#[test]
fn a_session_of_this_moment_is_in_all_reports() {
    let now = local_now();
    let start = LocalTime { utc: now.utc - 1, nanos: 0, offset: now.offset };
    let end = LocalTime { utc: now.utc + 1, nanos: 0, offset: now.offset };
    let sessions = vec![session(&start.to_rfc3339(), &end.to_rfc3339(), 2, 0, (0, 0))];
    assert!(build_weekly_report_data(&sessions, "x").unwrap().streak_days >= 1);
    assert_eq!(build_monthly_report_data(&sessions, "x").unwrap().session_count, 1);
    assert!(build_yearly_report_data(&sessions, "x").unwrap().stream_days >= 1);
}

#[test]
fn sessions_that_take_no_time_never_stand_in_the_way() {
    let sessions = vec![
        session("?", "2026-05-19T02:00:00+08:00", 1, 0, (0, 0)),
        session("2026-05-19T02:00:00+08:00", "?", 1, 0, (0, 0)),
        session("2026-05-19T02:00:00+08:00", "2026-05-17T23:30:00+08:00", 1, 0, (0, 0)),
        session("2026-05-19T02:00:00+08:00", "2026-05-18T18:00:00Z", 1, 0, (0, 0)),
    ];
    let figures = Aggregate::default();
    assert_eq!(build_weekly_report_data(&sessions, "x").unwrap().session_count, 0);
    assert_eq!(build_monthly_report_data(&sessions, "x").unwrap().session_count, 0);
    assert_eq!(build_yearly_report_data(&sessions, "x").unwrap().session_count, 0);
    let daily = build_daily_report_data(&sessions, &idle(), &figures, "x").unwrap();
    assert_eq!(daily.daily_session_count, 0);
    assert_eq!(
        format_today_report(&sessions, &idle(), &figures, "x"),
        Some("x今天还没有开播哦~".to_string())
    );
    assert!(format_offline_message(&sessions, &figures, "x").is_some());
}

#[test]
fn the_picture_comes_before_the_text() {
    let figures = Aggregate::default();
    let url = "http://a/b.png".to_string();
    assert_eq!(
        handle_daily_query(Some(url.clone()), &vec![], &idle(), &figures, "土豆"),
        Some((url, true))
    );
    assert_eq!(
        handle_daily_query(None, &vec![], &idle(), &figures, "土豆"),
        Some(("土豆今天还没有开播哦~".to_string(), false))
    );
    assert_eq!(
        format_today_report(&vec![], &idle(), &figures, "土豆"),
        Some("土豆今天还没有开播哦~".to_string())
    );
    let message = format_offline_message(&vec![], &figures, "x").unwrap();
    assert!(message.starts_with("x下播啦！\n\n⏱ 本次：0h\n"));
}
