//! The report of the day, and the messages that go with a stream.
use vstd::prelude::*;

use crate::aggregate::Aggregate;
use crate::calendar;
use crate::calendar::Date;
use crate::clock;
use crate::clock::{local_now, parse_date, parse_datetime, parse_datetime_at, LocalTime};
use crate::hours;
use crate::hours::{count_hundredths, fmt_hours, push_hours};
use crate::monitor::RuntimeState;
use crate::query;
use crate::reading;
use crate::session;
use crate::session::{read_sessions, LiveSession, Span, TimedSession, MAX_SESSIONS};
use crate::split::get_session_day_seconds;
use crate::stats;
use crate::stats::{
    compute_monthly_live_days, compute_monthly_seconds, compute_today_seconds,
    compute_weekly_live_days, compute_weekly_seconds, get_today_sessions,
};
use crate::streak;
use crate::streak::compute_streak;
use crate::text;
use crate::text::{fmt_average_start_time, push_digits};

verus! {

/// A length of time in hours, rounded to hundredths. A length that rounds to
/// nothing still has its sign.
#[derive(Clone, Copy, Debug, PartialEq, Eq, Structural)]
pub struct SignedHours {
    pub negative: bool,
    pub hundredths: u64,
}

/// The distance of a number from zero.
pub open spec fn distance(n: int) -> nat {
    if n < 0 {
        (-n) as nat
    } else {
        n as nat
    }
}

impl SignedHours {
    /// Whether these are the hours of `secs` seconds.
    pub open spec fn shows(self, secs: int) -> bool {
        &&& self.negative == (secs < 0)
        &&& self.hundredths == hours::hundredths(distance(secs))
    }
}

/// When the stream under way began, on a clock that was `offset` seconds
/// ahead then; now where that is not known.
pub open spec fn live_start(state: RuntimeState, now: LocalTime, offset: i32) -> LocalTime {
    match state.current_start {
        Some(text) => match clock::moment_in_text(text@, offset) {
            Some(start) => start,
            None => now,
        },
        None => now,
    }
}

/// The seconds for which the stream under way has lasted; none where there is
/// no stream.
pub open spec fn elapsed(state: RuntimeState, now: LocalTime, offset: i32) -> int {
    if state.is_live {
        clock::seconds_between(live_start(state, now, offset), now)
    } else {
        0
    }
}

fn count_elapsed(state: &RuntimeState, now: LocalTime, start_offset: i32) -> (r: i64)
    requires
        now.valid(),
        clock::valid_offset(start_offset as int),
    ensures
        r == elapsed(*state, now, start_offset),
        r > i64::MIN,
{
    if !state.is_live {
        return 0;
    }
    let start: LocalTime = match &state.current_start {
        Some(text) => match parse_datetime_at(text, start_offset) {
            Some(start) => start,
            None => now,
        },
        None => now,
    };
    start.seconds_until(now)
}

/// The day of the longest session, or `missing` where it is not known.
pub open spec fn longest_date(figures: Aggregate, missing: Seq<char>) -> Seq<char> {
    match figures.longest_session_date {
        Some(text) => match clock::date_in_text(text@) {
            Some(day) => calendar::date_text(day),
            None => missing,
        },
        None => missing,
    }
}

fn write_longest_date(figures: &Aggregate, missing: &str) -> (r: String)
    ensures
        r@ == longest_date(*figures, missing@),
{
    match &figures.longest_session_date {
        Some(text) => match parse_date(text) {
            Some(date) => date.text(),
            None => missing.to_owned(),
        },
        None => missing.to_owned(),
    }
}

/// The time of day at which sessions start on average.
pub open spec fn average_text(figures: Aggregate) -> Seq<char> {
    match figures.average_start_minutes {
        Some(minutes) => text::clock_text(minutes as nat),
        None => "暂无"@,
    }
}

fn write_average(figures: &Aggregate) -> (r: String)
    ensures
        r@ == average_text(*figures),
{
    match figures.average_start_minutes {
        Some(minutes) => fmt_average_start_time(minutes),
        None => "暂无".to_owned(),
    }
}

/// Every session of a day is valid and has its place on the clock.
proof fn lemma_sessions_of_day(sessions: Seq<TimedSession>, day: int)
    requires
        stats::all_valid(sessions),
    ensures
        forall|i: int|
            0 <= i < stats::sessions_within(sessions, day, day).len() ==> {
                let found = #[trigger] stats::sessions_within(sessions, day, day)[i];
                found.valid() && found.span is Some
            },
    decreases sessions.len(),
{
    if sessions.len() > 0 {
        let rest = sessions.drop_last();
        assert forall|i: int| 0 <= i < rest.len() implies (#[trigger] rest[i]).valid() by {
            assert(rest[i] == sessions[i]);
        }
        lemma_sessions_of_day(rest, day);
        assert(sessions.last() == sessions[sessions.len() - 1]);
    }
}

/// A session in the report of a day.
#[derive(Clone, Debug, PartialEq, Eq)]
pub struct DaySession {
    pub start: String,
    pub end: String,
    pub duration_hundredths: u64,
}

impl DaySession {
    /// Whether this is a session, with the hours that fall on the day `day`.
    pub open spec fn shows(self, timed: TimedSession, day: int) -> bool {
        &&& self.start@ == text::clock_text(timed.span->0.start.minute_of_day())
        &&& self.end@ == text::clock_text(timed.span->0.end.minute_of_day())
        &&& self.duration_hundredths == hours::hundredths(timed.seconds_on(day))
    }
}

/// The report of a day. Lengths are in hundredths of an hour.
#[derive(Clone, Debug, PartialEq, Eq)]
pub struct DailyReport {
    pub report_type: String,
    pub room_name: String,
    pub date: String,
    pub weekday: u32,
    pub is_live: bool,
    pub live_elapsed: SignedHours,
    pub sessions: Vec<DaySession>,
    pub daily_total_hundredths: u64,
    pub daily_session_count: usize,
    pub weekly_live_days: u32,
    pub weekly_total_hundredths: u64,
    pub monthly_live_days: u32,
    pub monthly_total_hundredths: u64,
    pub streak_days: u32,
    pub longest_session_hundredths: u64,
    pub longest_session_date: String,
    pub average_start_time: String,
    pub total_sessions: u32,
    pub total_hundredths: u64,
}

impl DailyReport {
    /// Whether this is the report of the day that holds `now`. The local
    /// clock was `offset` seconds ahead when the stream under way began.
    pub open spec fn reports(
        self,
        sessions: Seq<TimedSession>,
        state: RuntimeState,
        figures: Aggregate,
        now: LocalTime,
        offset: i32,
        name: Seq<char>,
    ) -> bool {
        let today = now.day();
        let monday = calendar::monday_of(today);
        let first = calendar::month_start_of(today);
        let picked = stats::sessions_within(sessions, today, today);
        &&& self.report_type@ == "daily"@
        &&& self.room_name@ == name
        &&& self.date@ == calendar::date_text(today)
        &&& self.weekday == calendar::weekday_of(today)
        &&& self.is_live == state.is_live
        &&& self.live_elapsed.shows(elapsed(state, now, offset))
        &&& self.sessions@.len() == picked.len()
        &&& forall|i: int|
            0 <= i < picked.len() ==> (#[trigger] self.sessions@[i]).shows(*picked[i], today)
        &&& self.daily_total_hundredths == hours::hundredths(stats::day_total(sessions, today))
        &&& self.daily_session_count == picked.len()
        &&& self.weekly_live_days == stats::live_days(sessions, monday, today)
        &&& self.weekly_total_hundredths == hours::hundredths(
            stats::seconds_within(sessions, monday, today),
        )
        &&& self.monthly_live_days == stats::live_days(sessions, first, today)
        &&& self.monthly_total_hundredths == hours::hundredths(
            stats::seconds_within(sessions, first, today),
        )
        &&& self.streak_days == streak::streak_of(sessions, today)
        &&& self.longest_session_hundredths == hours::hundredths(
            figures.longest_session_secs as nat,
        )
        &&& self.longest_session_date@ == longest_date(figures, ""@)
        &&& self.average_start_time@ == average_text(figures)
        &&& self.total_sessions == figures.total_sessions
        &&& self.total_hundredths == hours::hundredths(figures.total_seconds as nat)
    }
}

/// The sessions of a day as its report lists them.
fn list_sessions(picked: &Vec<&TimedSession>, date: Date) -> (r: Vec<DaySession>)
    requires
        forall|i: int|
            0 <= i < picked@.len() ==> (#[trigger] picked@[i]).valid() && picked@[i].span is Some,
    ensures
        r@.len() == picked@.len(),
        forall|i: int|
            0 <= i < picked@.len() ==> (#[trigger] r@[i]).shows(*picked@[i], date.day as int),
{
    let mut list: Vec<DaySession> = Vec::new();
    let mut i: usize = 0;
    while i < picked.len()
        invariant
            i <= picked@.len(),
            forall|j: int|
                0 <= j < picked@.len() ==> (#[trigger] picked@[j]).valid() && picked@[j].span is Some,
            list@.len() == i,
            forall|j: int|
                0 <= j < i ==> (#[trigger] list@[j]).shows(*picked@[j], date.day as int),
        decreases picked@.len() - i,
    {
        assert(picked@[i as int].valid() && picked@[i as int].span is Some);
        let span: Span = picked[i].span.unwrap();
        list.push(
            DaySession {
                start: span.start.clock(),
                end: span.end.clock(),
                duration_hundredths: count_hundredths(get_session_day_seconds(picked[i], date)),
            },
        );
        i = i + 1;
    }
    list
}

/// The report of the day that holds `now`.
pub fn daily_report(
    sessions: &Vec<TimedSession>,
    state: &RuntimeState,
    figures: &Aggregate,
    now: LocalTime,
    start_offset: i32,
    name: &str,
) -> (r: DailyReport)
    requires
        stats::all_valid(sessions@),
        stats::sums_fit(sessions@, now.day()),
        now.valid(),
        calendar::in_calendar(calendar::monday_of(now.day())),
        clock::valid_offset(start_offset as int),
    ensures
        r.reports(sessions@, *state, *figures, now, start_offset, name@),
{
    let today: Date = now.date_naive();
    proof {
        lemma_sessions_of_day(sessions@, today.day as int);
    }
    let picked: Vec<&TimedSession> = get_today_sessions(sessions, today);
    let seconds: i64 = count_elapsed(state, now, start_offset);
    let live_elapsed = SignedHours {
        negative: seconds < 0,
        hundredths: count_hundredths(
            if seconds < 0 {
                (-seconds) as u64
            } else {
                seconds as u64
            },
        ),
    };
    DailyReport {
        report_type: "daily".to_owned(),
        room_name: name.to_owned(),
        date: today.text(),
        weekday: today.weekday(),
        is_live: state.is_live,
        live_elapsed,
        sessions: list_sessions(&picked, today),
        daily_total_hundredths: count_hundredths(compute_today_seconds(sessions, today)),
        daily_session_count: picked.len(),
        weekly_live_days: compute_weekly_live_days(sessions, today),
        weekly_total_hundredths: count_hundredths(compute_weekly_seconds(sessions, today)),
        monthly_live_days: compute_monthly_live_days(sessions, today),
        monthly_total_hundredths: count_hundredths(compute_monthly_seconds(sessions, today)),
        streak_days: compute_streak(sessions, today),
        longest_session_hundredths: count_hundredths(figures.longest_session_secs),
        longest_session_date: write_longest_date(figures, ""),
        average_start_time: write_average(figures),
        total_sessions: figures.total_sessions,
        total_hundredths: count_hundredths(figures.total_seconds),
    }
}

/// The line on the stream under way.
pub open spec fn live_line(state: RuntimeState, now: LocalTime, offset: i32) -> Seq<char> {
    let seconds = elapsed(state, now, offset);
    if !state.is_live {
        Seq::empty()
    } else if seconds < 0 {
        "🟢 正在直播中（已播 -"@ + hours::hours_text(distance(seconds)) + "h）\n"@
    } else {
        "🟢 正在直播中（已播 "@ + hours::hours_text(distance(seconds)) + "h）\n"@
    }
}

fn write_live_line(state: &RuntimeState, now: LocalTime, start_offset: i32) -> (r: String)
    requires
        now.valid(),
        clock::valid_offset(start_offset as int),
    ensures
        r@ == live_line(*state, now, start_offset),
{
    if !state.is_live {
        return String::new();
    }
    let seconds: i64 = count_elapsed(state, now, start_offset);
    let mut r: String = String::new();
    if seconds < 0 {
        r.append("🟢 正在直播中（已播 -");
        push_hours(&mut r, (-seconds) as u64);
    } else {
        r.append("🟢 正在直播中（已播 ");
        push_hours(&mut r, seconds as u64);
    }
    r.append("h）\n");
    assert(r@ =~= live_line(*state, now, start_offset));
    r
}

/// The line on what was streamed on a day, where that is anything.
pub open spec fn total_line(secs: nat) -> Seq<char> {
    if secs > 0 {
        "🎯 今日累计："@ + hours::hours_text(secs) + "h\n"@
    } else {
        Seq::empty()
    }
}

fn write_total_line(secs: u64) -> (r: String)
    ensures
        r@ == total_line(secs as nat),
{
    let mut r: String = String::new();
    if secs > 0 {
        r.append("🎯 今日累计：");
        push_hours(&mut r, secs);
        r.append("h\n");
        assert(r@ =~= total_line(secs as nat));
    }
    r
}

/// The line on one session, with the hours that fall on the day `day`.
pub open spec fn detail_line(timed: TimedSession, day: int) -> Seq<char> {
    "  · "@ + text::clock_text(timed.span->0.start.minute_of_day()) + " → "@ + text::clock_text(
        timed.span->0.end.minute_of_day(),
    ) + "（"@ + hours::hours_text(timed.seconds_on(day)) + "h）\n"@
}

/// A line for each session that has a second on the day `day`.
pub open spec fn detail_lines(picked: Seq<&TimedSession>, day: int) -> Seq<char>
    decreases picked.len(),
{
    if picked.len() == 0 {
        Seq::empty()
    } else if picked.last().seconds_on(day) > 0 {
        detail_lines(picked.drop_last(), day) + detail_line(*picked.last(), day)
    } else {
        detail_lines(picked.drop_last(), day)
    }
}

fn write_detail_line(timed: &TimedSession, span: Span, secs: u64) -> (r: String)
    requires
        timed.valid(),
        timed.span == Some(span),
    ensures
        forall|day: int|
            secs == #[trigger] timed.seconds_on(day) ==> r@ == detail_line(*timed, day),
{
    let mut r: String = String::new();
    r.append("  · ");
    r.append(span.start.clock().as_str());
    r.append(" → ");
    r.append(span.end.clock().as_str());
    r.append("（");
    push_hours(&mut r, secs);
    r.append("h）\n");
    assert forall|day: int| secs == #[trigger] timed.seconds_on(day) implies r@ == detail_line(
        *timed,
        day,
    ) by {
        assert(r@ =~= detail_line(*timed, day));
    }
    r
}

fn write_detail_lines(picked: &Vec<&TimedSession>, date: Date) -> (r: String)
    requires
        forall|i: int|
            0 <= i < picked@.len() ==> (#[trigger] picked@[i]).valid() && picked@[i].span is Some,
    ensures
        r@ == detail_lines(picked@, date.day as int),
{
    let mut r: String = String::new();
    let mut i: usize = 0;
    assert(picked@.take(0) =~= Seq::empty());
    while i < picked.len()
        invariant
            i <= picked@.len(),
            forall|j: int|
                0 <= j < picked@.len() ==> (#[trigger] picked@[j]).valid() && picked@[j].span is Some,
            r@ == detail_lines(picked@.take(i as int), date.day as int),
        decreases picked@.len() - i,
    {
        assert(picked@.take(i + 1).drop_last() =~= picked@.take(i as int));
        assert(picked@.take(i + 1).last() == picked@[i as int]);
        assert(picked@[i as int].valid() && picked@[i as int].span is Some);
        let secs: u64 = get_session_day_seconds(picked[i], date);
        if secs > 0 {
            r.append(write_detail_line(picked[i], picked[i].span.unwrap(), secs).as_str());
        }
        i = i + 1;
    }
    assert(picked@.take(i as int) =~= picked@);
    r
}

/// The report of the day that holds `now`, as a text.
pub open spec fn today_text(
    sessions: Seq<TimedSession>,
    state: RuntimeState,
    figures: Aggregate,
    now: LocalTime,
    offset: i32,
    name: Seq<char>,
) -> Seq<char> {
    let today = now.day();
    let monday = calendar::monday_of(today);
    let first = calendar::month_start_of(today);
    let picked = stats::sessions_within(sessions, today, today);
    if picked.len() == 0 && !state.is_live {
        name + "今天还没有开播哦~"@
    } else {
        "📺 "@ + name + "今日直播情况\n━━━━━━━━━━━━━━━━━━\n"@ + live_line(state, now, offset)
            + total_line(stats::day_total(sessions, today)) + detail_lines(picked, today)
            + "━━━━━━━━━━━━━━━━━━\n🔥 连续开播："@ + text::decimal(
            streak::streak_of(sessions, today),
        ) + "天\n📈 本周："@ + text::decimal(stats::live_days(sessions, monday, today)) + "天 / "@
            + hours::hours_text(stats::seconds_within(sessions, monday, today))
            + "h\n🗓 本月："@ + text::decimal(stats::live_days(sessions, first, today)) + "天 / "@
            + hours::hours_text(stats::seconds_within(sessions, first, today))
            + "h\n🏆 最长纪录："@ + hours::hours_text(figures.longest_session_secs as nat)
            + "h（"@ + longest_date(figures, "未知"@) + "）\n⏰ 平均开播："@ + average_text(figures)
    }
}

/// The report of the day that holds `now`, as a text.
pub fn today_report(
    sessions: &Vec<TimedSession>,
    state: &RuntimeState,
    figures: &Aggregate,
    now: LocalTime,
    start_offset: i32,
    name: &str,
) -> (r: String)
    requires
        stats::all_valid(sessions@),
        stats::sums_fit(sessions@, now.day()),
        now.valid(),
        calendar::in_calendar(calendar::monday_of(now.day())),
        clock::valid_offset(start_offset as int),
    ensures
        r@ == today_text(sessions@, *state, *figures, now, start_offset, name@),
{
    let today: Date = now.date_naive();
    proof {
        lemma_sessions_of_day(sessions@, today.day as int);
    }
    let picked: Vec<&TimedSession> = get_today_sessions(sessions, today);
    if picked.len() == 0 && !state.is_live {
        let mut r: String = name.to_owned();
        r.append("今天还没有开播哦~");
        return r;
    }
    let mut r: String = "📺 ".to_owned();
    r.append(name);
    r.append("今日直播情况\n━━━━━━━━━━━━━━━━━━\n");
    r.append(write_live_line(state, now, start_offset).as_str());
    r.append(write_total_line(compute_today_seconds(sessions, today)).as_str());
    r.append(write_detail_lines(&picked, today).as_str());
    r.append("━━━━━━━━━━━━━━━━━━\n🔥 连续开播：");
    push_digits(&mut r, compute_streak(sessions, today) as u64, 1);
    r.append("天\n📈 本周：");
    push_digits(&mut r, compute_weekly_live_days(sessions, today) as u64, 1);
    r.append("天 / ");
    push_hours(&mut r, compute_weekly_seconds(sessions, today));
    r.append("h\n🗓 本月：");
    push_digits(&mut r, compute_monthly_live_days(sessions, today) as u64, 1);
    r.append("天 / ");
    push_hours(&mut r, compute_monthly_seconds(sessions, today));
    r.append("h\n🏆 最长纪录：");
    push_hours(&mut r, figures.longest_session_secs);
    r.append("h（");
    r.append(write_longest_date(figures, "未知").as_str());
    r.append("）\n⏰ 平均开播：");
    r.append(write_average(figures).as_str());
    r
}

/// The message at the end of a stream on the day `today`.
pub open spec fn offline_text(
    sessions: Seq<TimedSession>,
    figures: Aggregate,
    today: int,
    name: Seq<char>,
) -> Seq<char> {
    let monday = calendar::monday_of(today);
    let first = calendar::month_start_of(today);
    name + "下播啦！\n\n⏱ 本次："@ + last_length(sessions) + "\n今日累计："@ + hours::hours_text(
        stats::day_total(sessions, today),
    ) + "h\n连续开播："@ + streak_text(streak::streak_of(sessions, today)) + "\n本周："@
        + text::decimal(stats::live_days(sessions, monday, today)) + "天 / "@ + hours::hours_text(
        stats::seconds_within(sessions, monday, today),
    ) + "h\n本月："@ + text::decimal(stats::live_days(sessions, first, today)) + "天 / "@
        + hours::hours_text(stats::seconds_within(sessions, first, today)) + "h\n最长纪录："@
        + hours::hours_text(figures.longest_session_secs as nat) + "h（"@ + longest_date(
        figures,
        "未知"@,
    ) + "）\n平均开播："@ + average_text(figures)
}

/// The recorded length of the last session.
pub open spec fn last_length(sessions: Seq<TimedSession>) -> Seq<char> {
    if sessions.len() == 0 {
        "0h"@
    } else {
        hours::hours_text(sessions.last().session.duration_secs as nat) + "h"@
    }
}

/// The length of the current run of days.
pub open spec fn streak_text(days: nat) -> Seq<char> {
    if days > 0 {
        text::decimal(days) + "天"@
    } else {
        "暂无"@
    }
}

fn write_streak(days: u32) -> (r: String)
    ensures
        r@ == streak_text(days as nat),
{
    if days == 0 {
        return "暂无".to_owned();
    }
    let mut r: String = String::new();
    push_digits(&mut r, days as u64, 1);
    r.append("天");
    assert(r@ =~= streak_text(days as nat));
    r
}

/// The message at the end of a stream on the day `today`.
pub fn offline_message(
    sessions: &Vec<TimedSession>,
    figures: &Aggregate,
    today: Date,
    name: &str,
) -> (r: String)
    requires
        stats::all_valid(sessions@),
        stats::sums_fit(sessions@, today.day as int),
        today.valid(),
        calendar::in_calendar(calendar::monday_of(today.day as int)),
    ensures
        r@ == offline_text(sessions@, *figures, today.day as int, name@),
{
    let last: String = if sessions.len() == 0 {
        "0h".to_owned()
    } else {
        fmt_hours(sessions[sessions.len() - 1].session.duration_secs)
    };
    let mut r: String = name.to_owned();
    r.append("下播啦！\n\n⏱ 本次：");
    r.append(last.as_str());
    r.append("\n今日累计：");
    push_hours(&mut r, compute_today_seconds(sessions, today));
    r.append("h\n连续开播：");
    r.append(write_streak(compute_streak(sessions, today)).as_str());
    r.append("\n本周：");
    push_digits(&mut r, compute_weekly_live_days(sessions, today) as u64, 1);
    r.append("天 / ");
    push_hours(&mut r, compute_weekly_seconds(sessions, today));
    r.append("h\n本月：");
    push_digits(&mut r, compute_monthly_live_days(sessions, today) as u64, 1);
    r.append("天 / ");
    push_hours(&mut r, compute_monthly_seconds(sessions, today));
    r.append("h\n最长纪录：");
    push_hours(&mut r, figures.longest_session_secs);
    r.append("h（");
    r.append(write_longest_date(figures, "未知").as_str());
    r.append("）\n平均开播：");
    r.append(write_average(figures).as_str());
    r
}

/// Whether the machine's time zone gives the offset for the start of the
/// stream under way, where that is known.
pub open spec fn start_given(state: RuntimeState, offset: i32) -> bool {
    state.current_start matches Some(text) ==> (clock::moment_in_text(text@, offset) matches Some(
        start,
    ) ==> reading::given_by_zone(start))
}

/// The sessions on the local clock, the current moment, and by how many
/// seconds the local clock was ahead when the stream under way began. There
/// is no answer where the local clock has none for a session, or where there
/// are too many sessions.
fn read_moment(sessions: &Vec<LiveSession>, state: &RuntimeState) -> (r: Option<
    (Vec<TimedSession>, LocalTime, i32),
>)
    ensures
        r matches Some((timed, now, offset)) ==> {
            &&& session::placed(timed@, sessions@)
            &&& timed@.len() <= MAX_SESSIONS
            &&& stats::all_valid(timed@)
            &&& stats::sums_fit(timed@, now.day())
            &&& now.valid()
            &&& now.utc >= 0
            &&& reading::shown_by_clock(now)
            &&& start_given(*state, offset)
            &&& clock::valid_offset(offset as int)
        },
        session::placed_anywhere(sessions@) && sessions@.len() <= MAX_SESSIONS ==> r is Some,
        r is None ==> sessions@.len() > MAX_SESSIONS || session::some_unplaced(sessions@),
{
    if sessions.len() > MAX_SESSIONS {
        return None;
    }
    let timed: Vec<TimedSession> = match read_sessions(sessions) {
        Some(timed) => timed,
        None => {
            return None;
        },
    };
    let now: LocalTime = local_now();
    proof {
        stats::lemma_today_sums_fit(timed@, now.day());
    }
    let offset: i32 = match &state.current_start {
        Some(text) => match parse_datetime(text) {
            Some(start) => start.offset,
            None => now.offset,
        },
        None => now.offset,
    };
    Some((timed, now, offset))
}

/// Whether this is the report of a day, for some reading of the sessions on
/// the local clock and the moment that the clock shows as now.
pub open spec fn is_daily_report(
    report: DailyReport,
    sessions: Seq<LiveSession>,
    state: RuntimeState,
    figures: Aggregate,
    name: Seq<char>,
) -> bool {
    exists|timed: Seq<TimedSession>, now: LocalTime, offset: i32|
        session::placed(timed, sessions) && now.valid() && now.utc >= 0 && reading::shown_by_clock(now)
            && clock::valid_offset(offset as int) && start_given(state, offset) && #[trigger] report.reports(
            timed,
            state,
            figures,
            now,
            offset,
            name,
        )
}

/// The report of today, by the machine's clock and time zone. There is none
/// where the local clock has no answer for a session.
pub fn build_daily_report_data(
    sessions: &Vec<LiveSession>,
    state: &RuntimeState,
    figures: &Aggregate,
    name: &str,
) -> (r: Option<DailyReport>)
    ensures
        r matches Some(report) ==> is_daily_report(report, sessions@, *state, *figures, name@),
        session::placed_anywhere(sessions@) && sessions@.len() <= MAX_SESSIONS ==> r is Some,
        sessions@.len() > MAX_SESSIONS ==> r is None,
        r is None ==> sessions@.len() > MAX_SESSIONS || session::some_unplaced(sessions@),
{
    match read_moment(sessions, state) {
        Some((timed, now, offset)) => {
            let report: DailyReport = daily_report(&timed, state, figures, now, offset, name);
            assert(session::placed(timed@, sessions@) && now.valid() && now.utc >= 0 && reading::shown_by_clock(now)
                && clock::valid_offset(offset as int) && start_given(*state, offset) && report.reports(
                timed@,
                *state,
                *figures,
                now,
                offset,
                name@,
            ));
            assert(is_daily_report(report, sessions@, *state, *figures, name@));
            Some(report)
        },
        None => None,
    }
}

/// Whether this is the text on a day, for some reading of the sessions on the
/// local clock and the moment that the clock shows as now.
pub open spec fn is_today_text(
    shown: Seq<char>,
    sessions: Seq<LiveSession>,
    state: RuntimeState,
    figures: Aggregate,
    name: Seq<char>,
) -> bool {
    exists|timed: Seq<TimedSession>, now: LocalTime, offset: i32|
        session::placed(timed, sessions) && now.valid() && now.utc >= 0 && reading::shown_by_clock(now)
            && clock::valid_offset(offset as int) && start_given(state, offset) && shown == #[trigger] today_text(
            timed,
            state,
            figures,
            now,
            offset,
            name,
        )
}

/// The report of today as a text, by the machine's clock and time zone. There
/// is none where the local clock has no answer for a session.
pub fn format_today_report(
    sessions: &Vec<LiveSession>,
    state: &RuntimeState,
    figures: &Aggregate,
    name: &str,
) -> (r: Option<String>)
    ensures
        r matches Some(shown) ==> is_today_text(shown@, sessions@, *state, *figures, name@),
        session::placed_anywhere(sessions@) && sessions@.len() <= MAX_SESSIONS ==> r is Some,
        sessions@.len() > MAX_SESSIONS ==> r is None,
        r is None ==> sessions@.len() > MAX_SESSIONS || session::some_unplaced(sessions@),
{
    match read_moment(sessions, state) {
        Some((timed, now, offset)) => {
            let shown: String = today_report(&timed, state, figures, now, offset, name);
            assert(session::placed(timed@, sessions@) && now.valid() && now.utc >= 0 && reading::shown_by_clock(now)
                && clock::valid_offset(offset as int) && start_given(*state, offset) && shown@ == today_text(
                timed@,
                *state,
                *figures,
                now,
                offset,
                name@,
            ));
            assert(is_today_text(shown@, sessions@, *state, *figures, name@));
            Some(shown)
        },
        None => None,
    }
}

/// Whether this is the message at the end of a stream, for some reading of
/// the sessions on the local clock and the date that the clock shows as today.
pub open spec fn is_offline_text(
    shown: Seq<char>,
    sessions: Seq<LiveSession>,
    figures: Aggregate,
    name: Seq<char>,
) -> bool {
    exists|timed: Seq<TimedSession>, today: Date|
        session::placed(timed, sessions) && today.valid() && today.day >= calendar::EPOCH_DAY - 1
            && reading::is_today(today.day as int) && shown == #[trigger] offline_text(
            timed,
            figures,
            today.day as int,
            name,
        )
}

/// The message at the end of a stream, by the machine's clock and time zone.
/// There is none where the local clock has no answer for a session.
pub fn format_offline_message(
    sessions: &Vec<LiveSession>,
    figures: &Aggregate,
    name: &str,
) -> (r: Option<String>)
    ensures
        r matches Some(shown) ==> is_offline_text(shown@, sessions@, *figures, name@),
        session::placed_anywhere(sessions@) && sessions@.len() <= MAX_SESSIONS ==> r is Some,
        sessions@.len() > MAX_SESSIONS ==> r is None,
        r is None ==> sessions@.len() > MAX_SESSIONS || session::some_unplaced(sessions@),
{
    if sessions.len() > MAX_SESSIONS {
        return None;
    }
    match read_sessions(sessions) {
        Some(timed) => {
            let now: LocalTime = local_now();
            let today: Date = now.date_naive();
            assert(reading::shown_by_clock(now) && now.day() == today.day);
            proof {
                stats::lemma_today_sums_fit(timed@, today.day as int);
            }
            let shown: String = offline_message(&timed, figures, today, name);
            assert(session::placed(timed@, sessions@) && today.valid() && today.day >= calendar::EPOCH_DAY - 1
            && reading::is_today(today.day as int) && shown@ == offline_text(
                timed@,
                *figures,
                today.day as int,
                name@,
            ));
            assert(is_offline_text(shown@, sessions@, *figures, name@));
            Some(shown)
        },
        None => None,
    }
}

/// Answers how today is going: with the picture of the report where there is
/// one, and with the text otherwise. The flag tells whether it is a picture.
/// There is no answer where there is no picture and the local clock has none
/// for a session.
pub fn handle_daily_query(
    image: Option<String>,
    sessions: &Vec<LiveSession>,
    state: &RuntimeState,
    figures: &Aggregate,
    name: &str,
) -> (r: Option<(String, bool)>)
    ensures
        image matches Some(url) ==> r == Some((url, true)),
        image is None ==> (r matches Some((shown, is_image)) ==> {
            &&& !is_image
            &&& is_today_text(shown@, sessions@, *state, *figures, name@)
        }),
        image is None && session::placed_anywhere(sessions@) && sessions@.len() <= MAX_SESSIONS
            ==> r is Some,
        image is None && sessions@.len() > MAX_SESSIONS ==> r is None,
        r is None ==> sessions@.len() > MAX_SESSIONS || session::some_unplaced(sessions@),
{
    if let Some(url) = image {
        return Some((url, true));
    }
    match format_today_report(sessions, state, figures, name) {
        Some(shown) => Some((shown, false)),
        None => None,
    }
}

/// A length shows its sign and its hundredths of an hour, whatever its sign is.
pub proof fn law_signed_hours_show_the_length(length: SignedHours, opposite: SignedHours, secs: int)
    requires
        length.shows(secs),
        opposite.shows(-secs),
    ensures
        length.negative <==> secs < 0,
        length.hundredths == opposite.hundredths,
        secs >= 0 ==> length.hundredths == hours::hundredths(secs as nat),
{
}

/// A stream under way has lasted since its recorded start, and no time at all
/// where that is not to be read; without a stream no time has passed.
pub proof fn law_elapsed_is_since_the_start(state: RuntimeState, now: LocalTime, offset: i32)
    ensures
        !state.is_live ==> elapsed(state, now, offset) == 0,
        state.is_live && (state.current_start matches Some(text) && clock::rfc3339_reading(
            text@,
        ) is Some) ==> {
            let read = clock::rfc3339_reading(state.current_start->0@)->0;
            elapsed(state, now, offset) == clock::seconds_between(
                LocalTime { utc: read.0, nanos: read.1, offset },
                now,
            )
        },
        state.is_live && !(state.current_start matches Some(text) && clock::rfc3339_reading(
            text@,
        ) is Some) ==> elapsed(state, now, offset) == clock::seconds_between(now, now),
        now.valid() ==> clock::seconds_between(now, now) == 0,
{
}

/// The day of the longest session is the date that its text gives on its own
/// clock, and the average start is a time of day, where they are known.
pub proof fn law_figures_are_shown(figures: Aggregate, missing: Seq<char>)
    ensures
        figures.longest_session_date is None ==> longest_date(figures, missing) == missing,
        figures.longest_session_date matches Some(text) ==> {
            &&& clock::rfc3339_reading(text@) is None ==> longest_date(figures, missing) == missing
            &&& clock::rfc3339_reading(text@) matches Some(read) ==> longest_date(figures, missing)
                == calendar::date_text(
                (LocalTime { utc: read.0, nanos: read.1, offset: read.2 }).day(),
            )
        },
        figures.average_start_minutes is None ==> average_text(figures) == "暂无"@,
        figures.average_start_minutes matches Some(minutes) ==> average_text(figures)
            == text::clock_text(minutes as nat),
{
}

/// The daily report tells of the day that holds the moment: its sessions in
/// their order with the hours that fall on it, and the days with a session and
/// the hours of the week since Monday and of the month since its first day.
pub proof fn law_daily_report_tells_of_its_day(
    report: DailyReport,
    sessions: Seq<TimedSession>,
    state: RuntimeState,
    figures: Aggregate,
    now: LocalTime,
    offset: i32,
    name: Seq<char>,
)
    requires
        now.valid(),
        report.reports(sessions, state, figures, now, offset, name),
    ensures
        ({
            let today = now.day();
            let monday = today - calendar::weekday_of(today);
            let first = today - calendar::ymd_of(today).2 + 1;
            let listed = sessions.filter(|timed: TimedSession| timed.live_within(today, today));
            &&& report.report_type@ == "daily"@
            &&& report.room_name@ == name
            &&& report.date@ == calendar::date_text(today)
            &&& report.weekday == calendar::weekday_of(today)
            &&& report.is_live == state.is_live
            &&& report.live_elapsed.negative == (elapsed(state, now, offset) < 0)
            &&& report.live_elapsed.hundredths == hours::hundredths(
                distance(elapsed(state, now, offset)),
            )
            &&& report.daily_session_count == listed.len()
            &&& report.sessions@.len() == listed.len()
            &&& forall|i: int|
                0 <= i < listed.len() ==> {
                    &&& report.sessions@[i].start@ == text::clock_text(
                        (#[trigger] listed[i]).span->0.start.minute_of_day(),
                    )
                    &&& report.sessions@[i].end@ == text::clock_text(
                        listed[i].span->0.end.minute_of_day(),
                    )
                    &&& report.sessions@[i].duration_hundredths == hours::hundredths(
                        listed[i].seconds_on(today),
                    )
                }
            &&& report.daily_total_hundredths == hours::hundredths(
                stats::seconds_within(sessions, today, today),
            )
            &&& report.weekly_live_days == stats::days_with_a_session(
                sessions,
                monday,
                today,
            ).len()
            &&& report.weekly_total_hundredths == hours::hundredths(
                stats::seconds_within(sessions, monday, today),
            )
            &&& report.monthly_live_days == stats::days_with_a_session(
                sessions,
                first,
                today,
            ).len()
            &&& report.monthly_total_hundredths == hours::hundredths(
                stats::seconds_within(sessions, first, today),
            )
            &&& report.streak_days == streak::streak_of(sessions, today)
            &&& report.longest_session_hundredths == hours::hundredths(
                figures.longest_session_secs as nat,
            )
            &&& report.longest_session_date@ == longest_date(figures, ""@)
            &&& report.average_start_time@ == average_text(figures)
            &&& report.total_sessions == figures.total_sessions
            &&& report.total_hundredths == hours::hundredths(figures.total_seconds as nat)
        }),
{
    let today = now.day();
    let first = calendar::month_start_of(today);
    let picked = stats::sessions_within(sessions, today, today);
    let listed = sessions.filter(|timed: TimedSession| timed.live_within(today, today));
    calendar::law_month_begins_on_its_first_day(today);
    stats::law_range_is_a_filter(sessions, today, today);
    stats::law_live_days_are_counted_once(sessions, calendar::monday_of(today), today);
    stats::law_live_days_are_counted_once(sessions, first, today);
    stats::law_a_day_is_a_range(sessions, today, today, today);
    assert(picked.map_values(|timed: &TimedSession| *timed) == listed);
    assert forall|i: int| 0 <= i < listed.len() implies {
        &&& report.sessions@[i].start@ == text::clock_text(
            (#[trigger] listed[i]).span->0.start.minute_of_day(),
        )
        &&& report.sessions@[i].end@ == text::clock_text(listed[i].span->0.end.minute_of_day())
        &&& report.sessions@[i].duration_hundredths == hours::hundredths(
            listed[i].seconds_on(today),
        )
    } by {
        assert(*picked[i] == listed[i]);
        assert(report.sessions@[i].shows(*picked[i], today));
    }
}

/// The lines on the sessions of a day: one for each session with a second on that
/// day, in their order, with its times and the hours that fall on the day.
pub proof fn law_each_session_has_its_line(
    picked: Seq<&TimedSession>,
    timed: &TimedSession,
    day: int,
)
    ensures
        detail_lines(Seq::empty(), day).len() == 0,
        timed.seconds_on(day) == 0 ==> detail_lines(picked.push(timed), day) == detail_lines(
            picked,
            day,
        ),
        timed.seconds_on(day) > 0 ==> detail_lines(picked.push(timed), day) == detail_lines(
            picked,
            day,
        ) + detail_line(*timed, day),
        query::has_text(
            detail_line(*timed, day),
            "  · "@ + text::clock_text(timed.span->0.start.minute_of_day()) + " → "@
                + text::clock_text(timed.span->0.end.minute_of_day()) + "（"@,
        ),
        query::has_text(
            detail_line(*timed, day),
            "（"@ + hours::hours_text(timed.seconds_on(day)) + "h）\n"@,
        ),
        detail_line(*timed, day).len() == "  · "@.len() + text::clock_text(
            timed.span->0.start.minute_of_day(),
        ).len() + " → "@.len() + text::clock_text(timed.span->0.end.minute_of_day()).len()
            + "（"@.len() + hours::hours_text(timed.seconds_on(day)).len() + "h）\n"@.len(),
{
    assert(picked.push(timed).drop_last() =~= picked);
    let from = "  · "@ + text::clock_text(timed.span->0.start.minute_of_day()) + " → "@
        + text::clock_text(timed.span->0.end.minute_of_day());
    let times = from + "（"@;
    let length = hours::hours_text(timed.seconds_on(day));
    query::lemma_stands_at_end(Seq::empty(), times);
    assert(Seq::<char>::empty() + times =~= times);
    query::lemma_stands_in_longer(times, times, length);
    query::lemma_stands_in_longer(times + length, times, "h）\n"@);
    lemma_block_three(from, "（"@, length, "h）\n"@);
}

/// The lines on the stream under way and on the whole day are there exactly if
/// there is something to say, and hold the hours.
pub proof fn law_lines_hold_their_hours(
    state: RuntimeState,
    now: LocalTime,
    offset: i32,
    secs: nat,
)
    ensures
        !state.is_live ==> live_line(state, now, offset).len() == 0,
        state.is_live && elapsed(state, now, offset) >= 0 ==> live_line(state, now, offset)
            == "🟢 正在直播中（已播 "@ + hours::hours_text(elapsed(state, now, offset) as nat)
            + "h）\n"@,
        state.is_live && elapsed(state, now, offset) < 0 ==> live_line(state, now, offset)
            == "🟢 正在直播中（已播 -"@ + hours::hours_text((-elapsed(state, now, offset)) as nat)
            + "h）\n"@,
        secs == 0 ==> total_line(secs).len() == 0,
        secs > 0 ==> total_line(secs) == "🎯 今日累计："@ + hours::hours_text(secs) + "h\n"@,
{
}

/// The text on a day without a session and without a stream says so. Any other
/// begins with the name, the stream under way, the hours of the day and its
/// sessions; then it tells the current streak, the days with a session and the
/// hours of the week since Monday and of the month since its first day, the
/// longest session with its date, and ends with the average start.
pub proof fn law_today_text_tells_the_figures(
    sessions: Seq<TimedSession>,
    state: RuntimeState,
    figures: Aggregate,
    now: LocalTime,
    offset: i32,
    name: Seq<char>,
)
    requires
        now.valid(),
    ensures
        ({
            let today = now.day();
            let monday = today - calendar::weekday_of(today);
            let first = today - calendar::ymd_of(today).2 + 1;
            let shown = today_text(sessions, state, figures, now, offset, name);
            let listed = sessions.filter(|timed: TimedSession| timed.live_within(today, today));
            let week_days = stats::days_with_a_session(sessions, monday, today).len();
            let month_days = stats::days_with_a_session(sessions, first, today).len();
            &&& listed.len() == 0 && !state.is_live ==> shown == name + "今天还没有开播哦~"@
            &&& listed.len() > 0 || state.is_live ==> {
                &&& query::has_text(shown, "📺 "@ + name + "今日直播情况\n━━━━━━━━━━━━━━━━━━\n"@
                    + live_line(state, now, offset) + total_line(
                    stats::seconds_within(sessions, today, today),
                ) + detail_lines(stats::sessions_within(sessions, today, today), today))
                &&& query::has_text(shown, "━━━━━━━━━━━━━━━━━━\n🔥 连续开播："@ + text::decimal(
                    streak::streak_of(sessions, today),
                ) + "天\n📈 本周："@)
                &&& query::has_text(shown, "天\n📈 本周："@ + text::decimal(week_days) + "天 / "@
                    + hours::hours_text(stats::seconds_within(sessions, monday, today))
                    + "h\n🗓 本月："@)
                &&& query::has_text(shown, "h\n🗓 本月："@ + text::decimal(month_days) + "天 / "@
                    + hours::hours_text(stats::seconds_within(sessions, first, today))
                    + "h\n🏆 最长纪录："@)
                &&& query::has_text(shown, "h\n🏆 最长纪录："@ + hours::hours_text(
                    figures.longest_session_secs as nat,
                ) + "h（"@ + longest_date(figures, "未知"@) + "）\n⏰ 平均开播："@)
                &&& query::has_text(shown, "）\n⏰ 平均开播："@ + average_text(figures))
                &&& shown.len() == ("📺 "@ + name + "今日直播情况\n━━━━━━━━━━━━━━━━━━\n"@).len()
                    + live_line(state, now, offset).len() + total_line(
                    stats::seconds_within(sessions, today, today),
                ).len() + detail_lines(
                    stats::sessions_within(sessions, today, today),
                    today,
                ).len() + "━━━━━━━━━━━━━━━━━━\n🔥 连续开播："@.len() + text::decimal(
                    streak::streak_of(sessions, today),
                ).len() + "天\n📈 本周："@.len() + text::decimal(week_days).len() + 2
                    * "天 / "@.len() + hours::hours_text(
                    stats::seconds_within(sessions, monday, today),
                ).len() + "h\n🗓 本月："@.len() + text::decimal(month_days).len()
                    + hours::hours_text(stats::seconds_within(sessions, first, today)).len()
                    + "h\n🏆 最长纪录："@.len() + hours::hours_text(
                    figures.longest_session_secs as nat,
                ).len() + "h（"@.len() + longest_date(figures, "未知"@).len()
                    + "）\n⏰ 平均开播："@.len() + average_text(figures).len()
            }
        }),
{
    let today = now.day();
    let monday = calendar::monday_of(today);
    let first = calendar::month_start_of(today);
    calendar::law_month_begins_on_its_first_day(today);
    stats::law_range_is_a_filter(sessions, today, today);
    stats::law_live_days_are_counted_once(sessions, monday, today);
    stats::law_live_days_are_counted_once(sessions, first, today);
    stats::law_a_day_is_a_range(sessions, today, today, today);
    let picked = stats::sessions_within(sessions, today, today);
    if picked.len() > 0 || state.is_live {
        let p0 = "📺 "@ + name + "今日直播情况\n━━━━━━━━━━━━━━━━━━\n"@ + live_line(state, now, offset)
            + total_line(stats::day_total(sessions, today)) + detail_lines(picked, today);
        let s1 = text::decimal(streak::streak_of(sessions, today));
        let s2 = text::decimal(stats::live_days(sessions, monday, today));
        let s3 = hours::hours_text(stats::seconds_within(sessions, monday, today));
        let s4 = text::decimal(stats::live_days(sessions, first, today));
        let s5 = hours::hours_text(stats::seconds_within(sessions, first, today));
        let s6 = hours::hours_text(figures.longest_session_secs as nat);
        let s7 = longest_date(figures, "未知"@);
        let s8 = average_text(figures);
        lemma_figures_stand_in_text(
            p0,
            "━━━━━━━━━━━━━━━━━━\n🔥 连续开播："@,
            s1,
            "天\n📈 本周："@,
            s2,
            "天 / "@,
            s3,
            "h\n🗓 本月："@,
            s4,
            s5,
            "h\n🏆 最长纪录："@,
            s6,
            "h（"@,
            s7,
            "）\n⏰ 平均开播："@,
            s8,
        );
    }
}

/// What stands between the words of a text that is put together from them.
proof fn lemma_figures_stand_in_text(
    p0: Seq<char>,
    a: Seq<char>,
    s1: Seq<char>,
    b: Seq<char>,
    s2: Seq<char>,
    c: Seq<char>,
    s3: Seq<char>,
    d: Seq<char>,
    s4: Seq<char>,
    s5: Seq<char>,
    e: Seq<char>,
    s6: Seq<char>,
    f: Seq<char>,
    s7: Seq<char>,
    g: Seq<char>,
    s8: Seq<char>,
)
    ensures
        ({
            let shown = p0 + a + s1 + b + s2 + c + s3 + d + s4 + c + s5 + e + s6 + f + s7 + g + s8;
            &&& query::has_text(shown, p0)
            &&& query::has_text(shown, a + s1 + b)
            &&& query::has_text(shown, b + s2 + c + s3 + d)
            &&& query::has_text(shown, d + s4 + c + s5 + e)
            &&& query::has_text(shown, e + s6 + f + s7 + g)
            &&& query::has_text(shown, g + s8)
            &&& shown.len() == p0.len() + a.len() + s1.len() + b.len() + s2.len() + 2 * c.len()
                + s3.len() + d.len() + s4.len() + s5.len() + e.len() + s6.len() + f.len() + s7.len()
                + g.len() + s8.len()
        }),
{
    let t1 = p0 + a + s1;
    let t2 = t1 + b + s2 + c + s3;
    let t3 = t2 + d + s4 + c + s5;
    let t4 = t3 + e + s6 + f + s7;
    lemma_block_two(Seq::empty(), Seq::empty(), p0);
    assert(Seq::<char>::empty() + Seq::<char>::empty() + p0 =~= p0);
    assert(Seq::<char>::empty() + p0 =~= p0);
    lemma_in_longer_two(p0, p0, a, s1);
    lemma_in_longer_four(t1, p0, b, s2, c, s3);
    lemma_to_the_end(t2, p0, d, s4, c, s5, e, s6, f, s7, g, s8);
    lemma_block_three(p0, a, s1, b);
    query::lemma_stands_in_longer(t1 + b, a + s1 + b, s2);
    lemma_in_longer_two(t1 + b + s2, a + s1 + b, c, s3);
    lemma_to_the_end(t2, a + s1 + b, d, s4, c, s5, e, s6, f, s7, g, s8);
    lemma_block_five(t1, b, s2, c, s3, d);
    query::lemma_stands_in_longer(t2 + d, b + s2 + c + s3 + d, s4);
    lemma_in_longer_two(t2 + d + s4, b + s2 + c + s3 + d, c, s5);
    lemma_in_longer_four(t3, b + s2 + c + s3 + d, e, s6, f, s7);
    lemma_in_longer_two(t4, b + s2 + c + s3 + d, g, s8);
    lemma_block_five(t2, d, s4, c, s5, e);
    query::lemma_stands_in_longer(t3 + e, d + s4 + c + s5 + e, s6);
    lemma_in_longer_two(t3 + e + s6, d + s4 + c + s5 + e, f, s7);
    lemma_in_longer_two(t4, d + s4 + c + s5 + e, g, s8);
    lemma_block_five(t3, e, s6, f, s7, g);
    query::lemma_stands_in_longer(t4 + g, e + s6 + f + s7 + g, s8);
    lemma_block_two(t4, g, s8);
}

proof fn lemma_to_the_end(
    text: Seq<char>,
    pattern: Seq<char>,
    d: Seq<char>,
    s4: Seq<char>,
    c: Seq<char>,
    s5: Seq<char>,
    e: Seq<char>,
    s6: Seq<char>,
    f: Seq<char>,
    s7: Seq<char>,
    g: Seq<char>,
    s8: Seq<char>,
)
    requires
        query::has_text(text, pattern),
    ensures
        query::has_text(text + d + s4 + c + s5 + e + s6 + f + s7 + g + s8, pattern),
{
    lemma_in_longer_four(text, pattern, d, s4, c, s5);
    lemma_in_longer_four(text + d + s4 + c + s5, pattern, e, s6, f, s7);
    lemma_in_longer_two(text + d + s4 + c + s5 + e + s6 + f + s7, pattern, g, s8);
}

proof fn lemma_regroup(a: Seq<char>, b: Seq<char>, c: Seq<char>)
    ensures
        a + (b + c) == a + b + c,
{
    assert(a + (b + c) =~= a + b + c);
}

proof fn lemma_block_two(head: Seq<char>, a: Seq<char>, b: Seq<char>)
    ensures
        query::has_text(head + a + b, a + b),
{
    query::lemma_stands_at_end(head, a + b);
    lemma_regroup(head, a, b);
}

proof fn lemma_block_three(head: Seq<char>, a: Seq<char>, b: Seq<char>, c: Seq<char>)
    ensures
        query::has_text(head + a + b + c, a + b + c),
{
    query::lemma_stands_at_end(head, a + b + c);
    lemma_regroup(head, a + b, c);
    lemma_regroup(head, a, b);
}

proof fn lemma_block_five(
    head: Seq<char>,
    a: Seq<char>,
    b: Seq<char>,
    c: Seq<char>,
    d: Seq<char>,
    e: Seq<char>,
)
    ensures
        query::has_text(head + a + b + c + d + e, a + b + c + d + e),
{
    query::lemma_stands_at_end(head, a + b + c + d + e);
    lemma_regroup(head, a + b + c + d, e);
    lemma_regroup(head, a + b + c, d);
    lemma_regroup(head, a + b, c);
    lemma_regroup(head, a, b);
}

proof fn lemma_in_longer_two(text: Seq<char>, pattern: Seq<char>, a: Seq<char>, b: Seq<char>)
    requires
        query::has_text(text, pattern),
    ensures
        query::has_text(text + a + b, pattern),
{
    query::lemma_stands_in_longer(text, pattern, a);
    query::lemma_stands_in_longer(text + a, pattern, b);
}

proof fn lemma_in_longer_four(
    text: Seq<char>,
    pattern: Seq<char>,
    a: Seq<char>,
    b: Seq<char>,
    c: Seq<char>,
    d: Seq<char>,
)
    requires
        query::has_text(text, pattern),
    ensures
        query::has_text(text + a + b + c + d, pattern),
{
    lemma_in_longer_two(text, pattern, a, b);
    lemma_in_longer_two(text + a + b, pattern, c, d);
}

/// The message at the end of a stream begins with the name, the length of the
/// last session and the hours of the day; then it tells the current streak, the
/// days with a session and the hours of the week since Monday and of the month
/// since its first day, the longest session with its date, and ends with the
/// average start.
pub proof fn law_offline_text_tells_the_figures(
    sessions: Seq<TimedSession>,
    figures: Aggregate,
    today: int,
    name: Seq<char>,
)
    requires
        calendar::in_calendar(today),
    ensures
        ({
            let monday = today - calendar::weekday_of(today);
            let first = today - calendar::ymd_of(today).2 + 1;
            let shown = offline_text(sessions, figures, today, name);
            let week_days = stats::days_with_a_session(sessions, monday, today).len();
            let month_days = stats::days_with_a_session(sessions, first, today).len();
            let streak = streak::streak_of(sessions, today);
            let run = if streak > 0 {
                text::decimal(streak) + "天"@
            } else {
                "暂无"@
            };
            let last = if sessions.len() > 0 {
                hours::hours_text(sessions[sessions.len() - 1].session.duration_secs as nat) + "h"@
            } else {
                "0h"@
            };
            &&& query::has_text(shown, name + "下播啦！\n\n⏱ 本次："@ + last + "\n今日累计："@
                + hours::hours_text(stats::seconds_within(sessions, today, today)))
            &&& query::has_text(shown, "h\n连续开播："@ + run + "\n本周："@)
            &&& query::has_text(shown, "\n本周："@ + text::decimal(week_days) + "天 / "@
                + hours::hours_text(stats::seconds_within(sessions, monday, today)) + "h\n本月："@)
            &&& query::has_text(shown, "h\n本月："@ + text::decimal(month_days) + "天 / "@
                + hours::hours_text(stats::seconds_within(sessions, first, today))
                + "h\n最长纪录："@)
            &&& query::has_text(shown, "h\n最长纪录："@ + hours::hours_text(
                figures.longest_session_secs as nat,
            ) + "h（"@ + longest_date(figures, "未知"@) + "）\n平均开播："@)
            &&& query::has_text(shown, "）\n平均开播："@ + average_text(figures))
            &&& shown.len() == (name + "下播啦！\n\n⏱ 本次："@ + last + "\n今日累计："@).len()
                + hours::hours_text(stats::seconds_within(sessions, today, today)).len()
                + "h\n连续开播："@.len() + run.len() + "\n本周："@.len() + text::decimal(
                week_days,
            ).len() + 2 * "天 / "@.len() + hours::hours_text(
                stats::seconds_within(sessions, monday, today),
            ).len() + "h\n本月："@.len() + text::decimal(month_days).len() + hours::hours_text(
                stats::seconds_within(sessions, first, today),
            ).len() + "h\n最长纪录："@.len() + hours::hours_text(
                figures.longest_session_secs as nat,
            ).len() + "h（"@.len() + longest_date(figures, "未知"@).len() + "）\n平均开播："@.len()
                + average_text(figures).len()
        }),
{
    let monday = calendar::monday_of(today);
    let first = calendar::month_start_of(today);
    calendar::law_month_begins_on_its_first_day(today);
    stats::law_live_days_are_counted_once(sessions, monday, today);
    stats::law_live_days_are_counted_once(sessions, first, today);
    stats::law_a_day_is_a_range(sessions, today, today, today);
    lemma_figures_stand_in_text(
        name + "下播啦！\n\n⏱ 本次："@ + last_length(sessions) + "\n今日累计："@ + hours::hours_text(
            stats::day_total(sessions, today),
        ),
        "h\n连续开播："@,
        streak_text(streak::streak_of(sessions, today)),
        "\n本周："@,
        text::decimal(stats::live_days(sessions, monday, today)),
        "天 / "@,
        hours::hours_text(stats::seconds_within(sessions, monday, today)),
        "h\n本月："@,
        text::decimal(stats::live_days(sessions, first, today)),
        hours::hours_text(stats::seconds_within(sessions, first, today)),
        "h\n最长纪录："@,
        hours::hours_text(figures.longest_session_secs as nat),
        "h（"@,
        longest_date(figures, "未知"@),
        "）\n平均开播："@,
        average_text(figures),
    );
}

/// What is said of today is said of the day, and of the moment, that the
/// machine's clock shows.
pub proof fn law_today_goes_by_the_clock(
    message: Seq<char>,
    shown: Seq<char>,
    report: DailyReport,
    sessions: Seq<LiveSession>,
    state: RuntimeState,
    figures: Aggregate,
    name: Seq<char>,
)
    ensures
        is_offline_text(message, sessions, figures, name) ==> exists|
            timed: Seq<TimedSession>,
            now: LocalTime,
        |
            #![trigger session::placed(timed, sessions), reading::shown_by_clock(now)]
            session::placed(timed, sessions) && reading::shown_by_clock(now) && message
                == offline_text(timed, figures, now.day(), name),
        is_today_text(shown, sessions, state, figures, name) ==> exists|
            timed: Seq<TimedSession>,
            now: LocalTime,
            offset: i32,
        |
            session::placed(timed, sessions) && reading::shown_by_clock(now)
                && shown == #[trigger] today_text(timed, state, figures, now, offset, name),
        is_daily_report(report, sessions, state, figures, name) ==> exists|now: LocalTime|
            #[trigger]
            reading::shown_by_clock(now) && report.date@ == calendar::date_text(now.day())
                && report.weekday == calendar::weekday_of(now.day()),
{
    if is_offline_text(message, sessions, figures, name) {
        let (timed, today) = choose|timed: Seq<TimedSession>, today: Date|
            session::placed(timed, sessions) && today.valid() && today.day >= calendar::EPOCH_DAY
                - 1 && reading::is_today(today.day as int) && message == #[trigger] offline_text(
                timed,
                figures,
                today.day as int,
                name,
            );
        let now = choose|now: LocalTime| #[trigger]
            reading::shown_by_clock(now) && now.valid() && now.day() == today.day;
        assert(session::placed(timed, sessions) && reading::shown_by_clock(now));
    }
    if is_daily_report(report, sessions, state, figures, name) {
        let (timed, now, offset) = choose|timed: Seq<TimedSession>, now: LocalTime, offset: i32|
            session::placed(timed, sessions) && now.valid() && now.utc >= 0
                && reading::shown_by_clock(now) && clock::valid_offset(offset as int)
                && start_given(state, offset) && #[trigger] report.reports(
                timed,
                state,
                figures,
                now,
                offset,
                name,
            );
        assert(reading::shown_by_clock(now));
    }
}

} // verus!
