//! Reports over the week, the month and the year.
use vstd::prelude::*;

use crate::calendar;
use crate::calendar::Date;
use crate::clock::{local_now, LocalTime};
use crate::reading;
use crate::segments;
use crate::segments::{
    compute_hour_distribution, compute_peak_hour, compute_weekday_distribution, Segment,
    DAY_MINUTES,
};
use crate::session;
use crate::session::{read_sessions, LiveSession, TimedSession, MAX_SESSIONS};
use crate::stats;
use crate::stats::{count_live_days, count_minutes_within, filter_sessions_in_range};
use crate::streak;
use crate::streak::{compute_longest_streak, compute_streak};
use crate::text;
use crate::text::push_digits;

verus! {

/// The most minutes that [`MAX_SESSIONS`] sessions can fill on one day.
pub const DAY_MINUTES_LIMIT: u64 = 6184752904800;

/// Whether the local clock does not run backwards within a day over any
/// session of the range.
pub open spec fn ordered_within(sessions: Seq<TimedSession>, first: int, last: int) -> bool {
    forall|i: int|
        0 <= i < sessions.len() && (#[trigger] sessions[i]).live_within(first, last)
            ==> sessions[i].span->0.ordered()
}

/// Whether these are valid sessions of the range.
pub open spec fn picked_well(picked: Seq<&TimedSession>, first: int, last: int) -> bool {
    &&& picked.len() <= MAX_SESSIONS
    &&& forall|i: int|
        0 <= i < picked.len() ==> {
            &&& (#[trigger] picked[i]).valid()
            &&& picked[i].live_within(first, last)
            &&& picked[i].span->0.ordered()
        }
}

/// The sessions of a range are some of all sessions.
proof fn lemma_sessions_within(
    sessions: Seq<TimedSession>,
    first: int,
    last: int,
    outer_first: int,
    outer_last: int,
)
    requires
        stats::countable(sessions),
        ordered_within(sessions, outer_first, outer_last),
        outer_first <= first,
        last <= outer_last,
    ensures
        picked_well(stats::sessions_within(sessions, first, last), first, last),
        stats::sessions_within(sessions, first, last).len() <= sessions.len(),
    decreases sessions.len(),
{
    if sessions.len() > 0 {
        let rest = sessions.drop_last();
        assert forall|i: int| 0 <= i < rest.len() && (#[trigger] rest[i]).live_within(
            outer_first,
            outer_last,
        ) implies rest[i].span->0.ordered() by {
            assert(rest[i] == sessions[i]);
        }
        assert forall|i: int| 0 <= i < rest.len() implies (#[trigger] rest[i]).valid() by {
            assert(rest[i] == sessions[i]);
        }
        lemma_sessions_within(rest, first, last, outer_first, outer_last);
        let end = sessions.last();
        assert(end == sessions[sessions.len() - 1]);
        if end.live_within(first, last) {
            let day = choose|day: int| first <= day <= last && #[trigger] end.live_on(day);
            assert(outer_first <= day <= outer_last && end.live_on(day));
            assert(end.live_within(outer_first, outer_last));
        }
    }
}

/// The minutes that the given sessions fill on the day `day`.
pub open spec fn day_minutes(picked: Seq<&TimedSession>, day: int) -> nat
    decreases picked.len(),
{
    if picked.len() == 0 {
        0
    } else {
        day_minutes(picked.drop_last(), day) + picked.last().span->0.minutes_on(day)
    }
}

/// The most minutes that one of the given sessions fills on the day `day`.
pub open spec fn day_longest(picked: Seq<&TimedSession>, day: int) -> nat
    decreases picked.len(),
{
    if picked.len() == 0 {
        0
    } else {
        larger(day_longest(picked.drop_last(), day), picked.last().span->0.minutes_on(day))
    }
}

pub open spec fn larger(a: nat, b: nat) -> nat {
    if a < b {
        b
    } else {
        a
    }
}

/// The sessions of one day.
pub open spec fn sessions_of<'a>(sessions: Seq<TimedSession>, day: int) -> Seq<&'a TimedSession> {
    stats::sessions_within(sessions, day, day)
}

/// The minutes that sessions fill on the days from `first` to `last`.
pub open spec fn piece_minutes(sessions: Seq<TimedSession>, first: int, last: int) -> nat
    decreases last - first + 1,
{
    if last < first {
        0
    } else {
        piece_minutes(sessions, first, last - 1) + day_minutes(sessions_of(sessions, last), last)
    }
}

/// How many of the days from `first` to `last` have a filled minute.
pub open spec fn busy_days(sessions: Seq<TimedSession>, first: int, last: int) -> nat
    decreases last - first + 1,
{
    if last < first {
        0
    } else {
        busy_days(sessions, first, last - 1) + if day_minutes(sessions_of(sessions, last), last)
            > 0 {
            1nat
        } else {
            0
        }
    }
}

/// How many sessions the days from `first` to `last` have, where a session
/// counts once on each of its days.
pub open spec fn appearances(sessions: Seq<TimedSession>, first: int, last: int) -> nat
    decreases last - first + 1,
{
    if last < first {
        0
    } else {
        appearances(sessions, first, last - 1) + sessions_of(sessions, last).len()
    }
}

/// The most minutes that one session fills on one of the days from `first`
/// to `last`.
pub open spec fn longest_piece(sessions: Seq<TimedSession>, first: int, last: int) -> nat
    decreases last - first + 1,
{
    if last < first {
        0
    } else {
        larger(
            longest_piece(sessions, first, last - 1),
            day_longest(sessions_of(sessions, last), last),
        )
    }
}

/// Whether `hour` is the first hour of the day with the most minutes among
/// the given sessions of a range, and `minutes` are those minutes.
pub open spec fn is_peak(
    hour: u32,
    minutes: u64,
    picked: Seq<&TimedSession>,
    first: Date,
    last: Date,
) -> bool {
    &&& hour < 24
    &&& minutes == segments::hour_total(picked, first, last, hour as int)
    &&& forall|h: int|
        0 <= h < 24 ==> #[trigger] segments::hour_total(picked, first, last, h) <= minutes
    &&& forall|h: int|
        0 <= h < hour ==> #[trigger] segments::hour_total(picked, first, last, h) < minutes
}

/// The first hour of the day with the most minutes, and those minutes.
fn find_peak(picked: &Vec<&TimedSession>, first: Date, last: Date) -> (r: (u32, u64))
    requires
        picked_well(picked@, first.day as int, last.day as int),
        first.day <= last.day <= first.day + 366,
    ensures
        is_peak(r.0, r.1, picked@, first, last),
{
    assert forall|h: int| 0 <= h < 24 implies #[trigger] segments::hour_total(
        picked@,
        first,
        last,
        h,
    ) <= u64::MAX by {
        segments::lemma_hour_total_bounded(picked@, first, last, h);
    }
    let hours: [u64; 24] = compute_hour_distribution(picked, first, last);
    let (hour, minutes) = compute_peak_hour(&hours);
    proof {
        let counted = hours@;
        assert(counted[hour as int] == segments::hour_total(picked@, first, last, hour as int));
        assert forall|h: int| 0 <= h < 24 implies #[trigger] segments::hour_total(
            picked@,
            first,
            last,
            h,
        ) <= minutes by {
            assert(counted[h] == segments::hour_total(picked@, first, last, h));
        }
        assert forall|h: int| 0 <= h < hour implies #[trigger] segments::hour_total(
            picked@,
            first,
            last,
            h,
        ) < minutes by {
            assert(counted[h] == segments::hour_total(picked@, first, last, h));
        }
    }
    (hour, minutes)
}

/// One day of a report over a week.
#[derive(Clone, Debug, PartialEq, Eq)]
pub struct DayReport {
    pub date: String,
    pub total_minutes: u64,
    pub session_count: u64,
    pub sessions: Vec<Segment>,
}

impl DayReport {
    /// Whether this is the report of the day `day`.
    pub open spec fn shows(self, sessions: Seq<TimedSession>, day: int) -> bool {
        let picked = sessions_of(sessions, day);
        &&& self.date@ == calendar::date_text(day)
        &&& self.total_minutes == day_minutes(picked, day)
        &&& self.session_count == picked.len()
        &&& self.sessions@.len() == picked.len()
        &&& forall|i: int|
            0 <= i < picked.len() ==> (#[trigger] self.sessions@[i]).shows(
                picked[i].span->0.piece_on(day),
                picked[i].span->0.crosses(),
            )
    }
}

/// The report of a day, and the most minutes that one session fills on it.
fn day_report(sessions: &Vec<TimedSession>, date: Date) -> (r: (DayReport, u64))
    requires
        stats::countable(sessions@),
        date.valid(),
        ordered_within(sessions@, date.day as int, date.day as int),
    ensures
        r.0.shows(sessions@, date.day as int),
        r.1 == day_longest(sessions_of(sessions@, date.day as int), date.day as int),
        r.0.session_count <= MAX_SESSIONS,
        r.0.total_minutes <= DAY_MINUTES_LIMIT,
{
    let day: Ghost<int> = Ghost(date.day as int);
    proof {
        lemma_sessions_within(sessions@, day@, day@, day@, day@);
    }
    let picked: Vec<&TimedSession> = filter_sessions_in_range(sessions, date, date);
    let mut total_minutes: u64 = 0;
    let mut longest: u64 = 0;
    let mut list: Vec<Segment> = Vec::new();
    let mut i: usize = 0;
    assert(picked@.take(0) =~= Seq::empty());
    while i < picked.len()
        invariant
            i <= picked@.len(),
            day@ == date.day,
            picked_well(picked@, day@, day@),
            total_minutes == day_minutes(picked@.take(i as int), day@),
            total_minutes <= DAY_MINUTES * i,
            longest == day_longest(picked@.take(i as int), day@),
            list@.len() == i,
            forall|j: int|
                0 <= j < i ==> (#[trigger] list@[j]).shows(
                    picked@[j].span->0.piece_on(day@),
                    picked@[j].span->0.crosses(),
                ),
        decreases picked@.len() - i,
    {
        assert(picked@.take(i + 1).drop_last() =~= picked@.take(i as int));
        assert(picked@.take(i + 1).last() == picked@[i as int]);
        assert(picked@[i as int].valid());
        if let Some(span) = picked[i].span {
            let (from, to) = span.piece_of(date);
            let minutes: u64 = (to - from) as u64;
            total_minutes = total_minutes + minutes;
            if minutes > longest {
                longest = minutes;
            }
            let crosses: bool = span.start.date_naive() != span.end.date_naive();
            list.push(Segment::new(from, to, crosses));
        }
        i = i + 1;
    }
    assert(picked@.take(i as int) =~= picked@);
    (
        DayReport {
            date: date.text(),
            total_minutes,
            session_count: picked.len() as u64,
            sessions: list,
        },
        longest,
    )
}

/// A report over the week so far.
#[derive(Clone, Debug, PartialEq, Eq)]
pub struct WeeklyReport {
    pub streamer_name: String,
    pub week_start: String,
    pub week_end: String,
    pub total_stream_minutes: u64,
    pub stream_days: u32,
    pub session_count: u64,
    pub peak_hour: u32,
    pub peak_hour_minutes: u64,
    pub longest_session_minutes: u64,
    pub streak_days: u32,
    pub daily_stats: Vec<DayReport>,
}

impl WeeklyReport {
    /// Whether this is the report from Monday to the day `today`.
    pub open spec fn reports(self, sessions: Seq<TimedSession>, today: Date, name: Seq<char>) -> bool {
        let first = calendar::monday_of(today.day as int);
        let last = today.day as int;
        &&& self.streamer_name@ == name
        &&& self.week_start@ == calendar::date_text(first)
        &&& self.week_end@ == calendar::date_text(last)
        &&& self.total_stream_minutes == piece_minutes(sessions, first, last)
        &&& self.stream_days == busy_days(sessions, first, last)
        &&& self.session_count == appearances(sessions, first, last)
        &&& is_peak(
            self.peak_hour,
            self.peak_hour_minutes,
            stats::sessions_within(sessions, first, last),
            Date { day: first as i32 },
            today,
        )
        &&& self.longest_session_minutes == longest_piece(sessions, first, last)
        &&& self.streak_days == streak::streak_of(sessions, last)
        &&& self.daily_stats@.len() == last - first + 1
        &&& forall|i: int|
            0 <= i < self.daily_stats@.len() ==> (#[trigger] self.daily_stats@[i]).shows(
                sessions,
                first + i,
            )
    }
}

/// The report over the week so far.
pub fn weekly_report(sessions: &Vec<TimedSession>, today: Date, name: &str) -> (r: WeeklyReport)
    requires
        stats::countable(sessions@),
        today.valid(),
        calendar::in_calendar(calendar::monday_of(today.day as int)),
        ordered_within(sessions@, calendar::monday_of(today.day as int), today.day as int),
    ensures
        r.reports(sessions@, today, name@),
{
    let first: Date = today.week_start();
    proof {
        lemma_sessions_within(
            sessions@,
            first.day as int,
            today.day as int,
            first.day as int,
            today.day as int,
        );
    }
    let picked: Vec<&TimedSession> = filter_sessions_in_range(sessions, first, today);
    let (peak_hour, peak_hour_minutes) = find_peak(&picked, first, today);
    let mut total_stream_minutes: u64 = 0;
    let mut stream_days: u32 = 0;
    let mut session_count: u64 = 0;
    let mut longest_session_minutes: u64 = 0;
    let mut daily_stats: Vec<DayReport> = Vec::new();
    let mut current: i32 = first.day;
    while current <= today.day
        invariant
            stats::countable(sessions@),
            first.valid(),
            today.valid(),
            first.day == calendar::monday_of(today.day as int),
            ordered_within(sessions@, first.day as int, today.day as int),
            first.day <= current <= today.day + 1,
            total_stream_minutes == piece_minutes(sessions@, first.day as int, current - 1),
            total_stream_minutes <= DAY_MINUTES_LIMIT * (current - first.day),
            stream_days == busy_days(sessions@, first.day as int, current - 1),
            stream_days <= current - first.day,
            session_count == appearances(sessions@, first.day as int, current - 1),
            session_count <= MAX_SESSIONS * (current - first.day),
            longest_session_minutes == longest_piece(sessions@, first.day as int, current - 1),
            daily_stats@.len() == current - first.day,
            forall|i: int|
                0 <= i < daily_stats@.len() ==> (#[trigger] daily_stats@[i]).shows(
                    sessions@,
                    first.day + i,
                ),
        decreases today.day + 1 - current,
    {
        assert forall|i: int| 0 <= i < sessions@.len() && (#[trigger] sessions@[i]).live_within(
            current as int,
            current as int,
        ) implies sessions@[i].span->0.ordered() by {
            assert(sessions@[i].live_on(current as int));
            assert(sessions@[i].live_within(first.day as int, today.day as int));
        }
        let (report, longest) = day_report(sessions, Date { day: current });
        if report.total_minutes > 0 {
            stream_days = stream_days + 1;
        }
        total_stream_minutes = total_stream_minutes + report.total_minutes;
        session_count = session_count + report.session_count;
        if longest > longest_session_minutes {
            longest_session_minutes = longest;
        }
        daily_stats.push(report);
        current = current + 1;
    }
    WeeklyReport {
        streamer_name: name.to_owned(),
        week_start: first.text(),
        week_end: today.text(),
        total_stream_minutes,
        stream_days,
        session_count,
        peak_hour,
        peak_hour_minutes,
        longest_session_minutes,
        streak_days: compute_streak(sessions, today),
        daily_stats,
    }
}

/// One week of a report over a month.
#[derive(Clone, Copy, Debug, PartialEq, Eq, Structural)]
pub struct WeekRow {
    pub week_number: u32,
    pub total_minutes: u64,
    pub session_count: u32,
}

/// The first day of the week `i` of the month that begins at `first`, where
/// week 0 is the one that holds `first`.
pub open spec fn week_first(first: int, i: int) -> int {
    let monday = calendar::monday_of(first) + 7 * i;
    if monday < first {
        first
    } else {
        monday
    }
}

/// The last day of that week, up to `last`.
pub open spec fn week_last(first: int, last: int, i: int) -> int {
    let sunday = calendar::monday_of(first) + 7 * i + 6;
    if sunday > last {
        last
    } else {
        sunday
    }
}

/// How many weeks have a day from `first` to `last`.
pub open spec fn weeks_within(first: int, last: int) -> int {
    (last - calendar::monday_of(first)) / 7 + 1
}

impl WeekRow {
    /// Whether this is the row of the week `i`, for the days from `first` to
    /// `last`.
    pub open spec fn shows(self, sessions: Seq<TimedSession>, first: int, last: int, i: int) -> bool {
        let from = week_first(first, i);
        let to = week_last(first, last, i);
        &&& self.week_number == i + 1
        &&& self.total_minutes == stats::minutes_within(sessions, from, to)
        &&& self.session_count == stats::sessions_within(sessions, from, to).len()
    }
}

/// The most whole minutes that one of the sessions lasted, as recorded.
pub open spec fn longest_recorded(picked: Seq<&TimedSession>) -> nat
    decreases picked.len(),
{
    if picked.len() == 0 {
        0
    } else {
        larger(longest_recorded(picked.drop_last()), picked.last().session.duration_secs as nat / 60)
    }
}

/// The most whole minutes that one of the sessions lasted, as recorded.
fn find_longest(picked: &Vec<&TimedSession>) -> (r: u64)
    ensures
        r == longest_recorded(picked@),
{
    let mut longest: u64 = 0;
    let mut i: usize = 0;
    assert(picked@.take(0) =~= Seq::empty());
    while i < picked.len()
        invariant
            i <= picked@.len(),
            longest == longest_recorded(picked@.take(i as int)),
        decreases picked@.len() - i,
    {
        assert(picked@.take(i + 1).drop_last() =~= picked@.take(i as int));
        assert(picked@.take(i + 1).last() == picked@[i as int]);
        if picked[i].session.duration_secs / 60 > longest {
            longest = picked[i].session.duration_secs / 60;
        }
        i = i + 1;
    }
    assert(picked@.take(i as int) =~= picked@);
    longest
}

/// How a month is written: the year with four characters, its sign among
/// them, then the month with two digits.
pub open spec fn month_text(year: int, month: int) -> Seq<char> {
    (if year < 0 {
        "-"@ + text::digits((-year) as nat, 3)
    } else {
        text::digits(year as nat, 4)
    }) + "-"@ + text::digits(month as nat, 2)
}

fn write_month(year: i32, month: u32) -> (r: String)
    requires
        year > i32::MIN,
    ensures
        r@ == month_text(year as int, month as int),
{
    let mut r: String = String::new();
    if year < 0 {
        r.append("-");
        push_digits(&mut r, (-year) as u64, 3);
    } else {
        push_digits(&mut r, year as u64, 4);
    }
    r.append("-");
    push_digits(&mut r, month as u64, 2);
    assert(r@ =~= month_text(year as int, month as int));
    r
}

/// Whether the weekday distribution of the sessions of a range fits.
pub open spec fn weekdays_fit(sessions: Seq<TimedSession>, first: int, last: int) -> bool {
    forall|w: int|
        0 <= w < 7 ==> #[trigger] segments::weekday_total(
            stats::sessions_within(sessions, first, last),
            w,
        ) <= u64::MAX
}

/// The weekday distribution fits where the sessions are no longer than texts
/// can tell.
pub proof fn lemma_weekdays_fit(sessions: Seq<TimedSession>, first: int, last: int)
    requires
        stats::countable(sessions),
        forall|i: int| 0 <= i < sessions.len() ==> (#[trigger] sessions[i]).readable(),
    ensures
        weekdays_fit(sessions, first, last),
{
    let picked = stats::sessions_within(sessions, first, last);
    assert forall|i: int| 0 <= i < picked.len() implies (#[trigger] picked[i]).valid()
        && picked[i].readable() by {
        stats::law_range_keeps_its_sessions(sessions, first, last, *picked[i]);
        assert(picked.contains(picked[i]));
        let j = choose|j: int| 0 <= j < sessions.len() && sessions[j] == *picked[i];
        assert(sessions[j].valid() && sessions[j].readable());
    }
    stats::law_range_keeps_its_sessions(sessions, first, last, sessions[0]);
    assert forall|w: int| 0 <= w < 7 implies #[trigger] segments::weekday_total(picked, w)
        <= u64::MAX by {
        segments::lemma_weekday_total_bounded(picked, w);
    }
}

/// A report over the month so far.
#[derive(Clone, Debug, PartialEq, Eq)]
pub struct MonthlyReport {
    pub streamer_name: String,
    pub month: String,
    pub total_stream_minutes: u64,
    pub stream_days: u32,
    pub session_count: u32,
    pub peak_hour: u32,
    pub peak_hour_minutes: u64,
    pub longest_session_minutes: u64,
    pub streak_days: u32,
    pub weekly_stats: Vec<WeekRow>,
    pub weekday_distribution: [u64; 7],
}

impl MonthlyReport {
    /// Whether this is the report from the first of the month to `today`.
    pub open spec fn reports(self, sessions: Seq<TimedSession>, today: Date, name: Seq<char>) -> bool {
        let first = calendar::month_start_of(today.day as int);
        let last = today.day as int;
        let picked = stats::sessions_within(sessions, first, last);
        let (year, month, _day) = calendar::ymd_of(last);
        &&& self.streamer_name@ == name
        &&& self.month@ == month_text(year, month)
        &&& self.total_stream_minutes == stats::minutes_within(sessions, first, last)
        &&& self.stream_days == stats::live_days(sessions, first, last)
        &&& self.session_count == picked.len()
        &&& is_peak(
            self.peak_hour,
            self.peak_hour_minutes,
            picked,
            Date { day: first as i32 },
            today,
        )
        &&& self.longest_session_minutes == longest_recorded(picked)
        &&& self.streak_days == streak::streak_of(sessions, last)
        &&& self.weekly_stats@.len() == weeks_within(first, last)
        &&& forall|i: int|
            0 <= i < self.weekly_stats@.len() ==> (#[trigger] self.weekly_stats@[i]).shows(
                sessions,
                first,
                last,
                i,
            )
        &&& forall|w: int|
            0 <= w < 7 ==> #[trigger] self.weekday_distribution@[w] == segments::weekday_total(
                picked,
                w,
            )
    }
}

/// The rows of the weeks that have a day from `first` to `last`.
fn week_rows(sessions: &Vec<TimedSession>, first: Date, last: Date) -> (r: Vec<WeekRow>)
    requires
        stats::countable(sessions@),
        first.valid(),
        last.valid(),
        first.day <= last.day < first.day + 31,
        ordered_within(sessions@, first.day as int, last.day as int),
    ensures
        r@.len() == weeks_within(first.day as int, last.day as int),
        forall|i: int|
            0 <= i < r@.len() ==> (#[trigger] r@[i]).shows(
                sessions@,
                first.day as int,
                last.day as int,
                i,
            ),
{
    let monday: Date = first.week_start();
    let mut rows: Vec<WeekRow> = Vec::new();
    let mut week: i32 = monday.day;
    while week <= last.day
        invariant
            stats::countable(sessions@),
            first.valid(),
            last.valid(),
            first.day <= last.day < first.day + 31,
            ordered_within(sessions@, first.day as int, last.day as int),
            monday.day == calendar::monday_of(first.day as int),
            week == monday.day + 7 * rows@.len(),
            week <= last.day + 7,
            forall|i: int|
                0 <= i < rows@.len() ==> (#[trigger] rows@[i]).shows(
                    sessions@,
                    first.day as int,
                    last.day as int,
                    i,
                ),
        decreases last.day + 7 - week,
    {
        let from: Date = if week < first.day {
            first
        } else {
            Date { day: week }
        };
        let to: Date = if week + 6 > last.day {
            last
        } else {
            Date { day: week + 6 }
        };
        proof {
            lemma_sessions_within(
                sessions@,
                from.day as int,
                to.day as int,
                first.day as int,
                last.day as int,
            );
        }
        rows.push(
            WeekRow {
                week_number: rows.len() as u32 + 1,
                total_minutes: count_minutes_within(sessions, from, to),
                session_count: filter_sessions_in_range(sessions, from, to).len() as u32,
            },
        );
        week = week + 7;
    }
    rows
}

/// The report over the month so far.
pub fn monthly_report(sessions: &Vec<TimedSession>, today: Date, name: &str) -> (r: MonthlyReport)
    requires
        stats::countable(sessions@),
        today.valid(),
        weekdays_fit(sessions@, calendar::month_start_of(today.day as int), today.day as int),
        ordered_within(sessions@, calendar::month_start_of(today.day as int), today.day as int),
    ensures
        r.reports(sessions@, today, name@),
{
    let (year, month, _day) = today.ymd();
    let first: Date = today.month_start();
    proof {
        lemma_sessions_within(
            sessions@,
            first.day as int,
            today.day as int,
            first.day as int,
            today.day as int,
        );
    }
    let picked: Vec<&TimedSession> = filter_sessions_in_range(sessions, first, today);
    let (peak_hour, peak_hour_minutes) = find_peak(&picked, first, today);
    MonthlyReport {
        streamer_name: name.to_owned(),
        month: write_month(year, month),
        total_stream_minutes: count_minutes_within(sessions, first, today),
        stream_days: count_live_days(sessions, first, today),
        session_count: picked.len() as u32,
        peak_hour,
        peak_hour_minutes,
        longest_session_minutes: find_longest(&picked),
        streak_days: compute_streak(sessions, today),
        weekly_stats: week_rows(sessions, first, today),
        weekday_distribution: compute_weekday_distribution(&picked),
    }
}

/// One month of a report over a year.
#[derive(Clone, Copy, Debug, PartialEq, Eq, Structural)]
pub struct MonthRow {
    pub month: u32,
    pub total_minutes: u64,
    pub stream_days: u32,
}

/// The last day of a month.
pub open spec fn month_last(year: int, month: int) -> int {
    calendar::day_number(year, month, calendar::month_length(year, month))
}

impl MonthRow {
    /// Whether this is the row of a month.
    pub open spec fn shows(self, sessions: Seq<TimedSession>, year: int, month: int) -> bool {
        let first = calendar::day_number(year, month, 1);
        let last = month_last(year, month);
        &&& self.month == month
        &&& self.total_minutes == stats::minutes_within(sessions, first, last)
        &&& self.stream_days == stats::live_days(sessions, first, last)
    }
}

/// The rows of the twelve months of a year.
fn month_rows(sessions: &Vec<TimedSession>, year: i32) -> (r: Vec<MonthRow>)
    requires
        stats::countable(sessions@),
        calendar::MIN_YEAR <= year <= calendar::MAX_YEAR,
    ensures
        r@.len() == 12,
        forall|i: int| 0 <= i < 12 ==> (#[trigger] r@[i]).shows(sessions@, year as int, i + 1),
{
    let mut rows: Vec<MonthRow> = Vec::new();
    let mut month: u32 = 1;
    while month <= 12
        invariant
            stats::countable(sessions@),
            calendar::MIN_YEAR <= year <= calendar::MAX_YEAR,
            1 <= month <= 13,
            rows@.len() == month - 1,
            forall|i: int|
                0 <= i < rows@.len() ==> (#[trigger] rows@[i]).shows(
                    sessions@,
                    year as int,
                    i + 1,
                ),
        decreases 13 - month,
    {
        assert(calendar::valid_ymd(year as int, month as int, 1));
        proof {
            calendar::lemma_ymd_unique(
                year as int,
                month as int,
                calendar::month_length(year as int, month as int),
            );
        }
        let next: Option<Date> = if month == 12 {
            None
        } else {
            Date::from_ymd_opt(year, month + 1, 1)
        };
        let last: Option<Date> = match next {
            Some(next) => Some(Date { day: next.day - 1 }),
            None => Date::from_ymd_opt(year, month, 31),
        };
        if let (Some(first), Some(last)) = (Date::from_ymd_opt(year, month, 1), last) {
            assert(last.day == month_last(year as int, month as int));
            rows.push(
                MonthRow {
                    month,
                    total_minutes: count_minutes_within(sessions, first, last),
                    stream_days: count_live_days(sessions, first, last),
                },
            );
        }
        month = month + 1;
    }
    rows
}

/// A month among the busiest of a year.
#[derive(Clone, Copy, Debug, PartialEq, Eq, Structural)]
pub struct TopMonth {
    pub month: u32,
    pub total_minutes: u64,
}

/// Whether row `a` comes before row `b`: by more minutes, and among equals
/// by the earlier month.
pub open spec fn outranks(rows: Seq<MonthRow>, a: int, b: int) -> bool {
    rows[a].total_minutes > rows[b].total_minutes || rows[a].total_minutes
        == rows[b].total_minutes && a < b
}

/// Whether `top` shows row `at`.
pub open spec fn is_row(top: TopMonth, rows: Seq<MonthRow>, at: int) -> bool {
    &&& 0 <= at < rows.len()
    &&& top.month == at + 1
    &&& top.total_minutes == rows[at].total_minutes
}

/// Whether `top` are the three rows that come before all others, in order.
pub open spec fn is_top(top: Seq<TopMonth>, rows: Seq<MonthRow>) -> bool {
    &&& top.len() == 3
    &&& forall|k: int| 0 <= k < 3 ==> is_row(#[trigger] top[k], rows, top[k].month - 1)
    &&& outranks(rows, top[0].month - 1, top[1].month - 1)
    &&& outranks(rows, top[1].month - 1, top[2].month - 1)
    &&& forall|i: int|
        0 <= i < rows.len() && i != top[0].month - 1 && i != top[1].month - 1 && i != top[2].month
            - 1 ==> #[trigger] outranks(rows, top[2].month - 1, i)
}

/// The first of the rows that row `after` comes before, and the first of all
/// where `after` is no row.
fn next_row(rows: &Vec<MonthRow>, after: usize) -> (r: usize)
    requires
        rows@.len() == 12,
        after < 12 ==> exists|i: int| 0 <= i < 12 && #[trigger] outranks(rows@, after as int, i),
    ensures
        r < 12,
        after < 12 ==> outranks(rows@, after as int, r as int),
        forall|i: int|
            0 <= i < 12 && (after < 12 ==> outranks(rows@, after as int, i)) && i != r
                ==> #[trigger] outranks(rows@, r as int, i),
{
    let mut best: usize = 12;
    let mut at: usize = 0;
    while at < 12
        invariant
            at <= 12,
            rows@.len() == 12,
            best < at || best == 12,
            best < 12 && after < 12 ==> outranks(rows@, after as int, best as int),
            best == 12 ==> after < 12 || at == 0,
            best == 12 ==> forall|i: int|
                0 <= i < at ==> !#[trigger] outranks(rows@, after as int, i),
            best < 12 ==> forall|i: int|
                0 <= i < at && (after < 12 ==> outranks(rows@, after as int, i)) && i != best
                    ==> #[trigger] outranks(rows@, best as int, i),
        decreases 12 - at,
    {
        let eligible: bool = after >= 12 || rows[after].total_minutes > rows[at].total_minutes
            || rows[after].total_minutes == rows[at].total_minutes && after < at;
        if eligible && (best == 12 || rows[at].total_minutes > rows[best].total_minutes) {
            proof {
                assert forall|i: int|
                    0 <= i < at && (after < 12 ==> outranks(rows@, after as int, i)) implies
                    #[trigger] outranks(rows@, at as int, i) by {
                    assert(best == 12 || i == best || outranks(rows@, best as int, i));
                }
            }
            best = at;
        }
        at = at + 1;
    }
    best
}

/// The three busiest months, in order.
fn top_months(rows: &Vec<MonthRow>) -> (r: Vec<TopMonth>)
    requires
        rows@.len() == 12,
    ensures
        is_top(r@, rows@),
{
    let first: usize = next_row(rows, 12);
    assert(outranks(rows@, first as int, if first == 0 {
        1
    } else {
        0
    }));
    let second: usize = next_row(rows, first);
    proof {
        let other: int = if first != 0 && second != 0 {
            0
        } else if first != 1 && second != 1 {
            1
        } else {
            2
        };
        assert(outranks(rows@, first as int, other));
        assert(outranks(rows@, second as int, other));
    }
    let third: usize = next_row(rows, second);
    let mut top: Vec<TopMonth> = Vec::new();
    top.push(TopMonth { month: first as u32 + 1, total_minutes: rows[first].total_minutes });
    top.push(TopMonth { month: second as u32 + 1, total_minutes: rows[second].total_minutes });
    top.push(TopMonth { month: third as u32 + 1, total_minutes: rows[third].total_minutes });
    assert forall|i: int|
        0 <= i < rows@.len() && i != first && i != second && i != third implies #[trigger] outranks(
        rows@,
        third as int,
        i,
    ) by {
        assert(outranks(rows@, first as int, i));
        assert(outranks(rows@, second as int, i));
    }
    top
}

/// One day of the week of a report over a year.
#[derive(Clone, Copy, Debug, PartialEq, Eq, Structural)]
pub struct WeekdayRow {
    pub weekday: u32,
    pub total_minutes: u64,
    /// The sessions of the whole year.
    pub session_count: u32,
}

/// A report over a year.
#[derive(Clone, Debug, PartialEq, Eq)]
pub struct YearlyReport {
    pub streamer_name: String,
    pub year: i32,
    pub total_stream_minutes: u64,
    pub stream_days: u32,
    pub session_count: u32,
    pub peak_hour: u32,
    pub peak_hour_minutes: u64,
    pub longest_session_minutes: u64,
    pub longest_streak_days: u32,
    pub monthly_stats: Vec<MonthRow>,
    pub top_streaming_months: Vec<TopMonth>,
    pub weekday_distribution: Vec<WeekdayRow>,
}

impl YearlyReport {
    /// Whether this is the report of the year `year`. The longest run of days
    /// is the longest of all years.
    pub open spec fn reports(self, sessions: Seq<TimedSession>, year: int, name: Seq<char>) -> bool {
        let first = calendar::day_number(year, 1, 1);
        let last = calendar::day_number(year, 12, 31);
        let picked = stats::sessions_within(sessions, first, last);
        &&& self.streamer_name@ == name
        &&& self.year == year
        &&& self.total_stream_minutes == stats::minutes_within(sessions, first, last)
        &&& self.stream_days == stats::live_days(sessions, first, last)
        &&& self.session_count == picked.len()
        &&& is_peak(
            self.peak_hour,
            self.peak_hour_minutes,
            picked,
            Date { day: first as i32 },
            Date { day: last as i32 },
        )
        &&& self.longest_session_minutes == longest_recorded(picked)
        &&& streak::is_longest_streak(sessions, self.longest_streak_days as nat)
        &&& self.monthly_stats@.len() == 12
        &&& forall|i: int|
            0 <= i < 12 ==> (#[trigger] self.monthly_stats@[i]).shows(sessions, year, i + 1)
        &&& is_top(self.top_streaming_months@, self.monthly_stats@)
        &&& self.weekday_distribution@.len() == 7
        &&& forall|w: int|
            0 <= w < 7 ==> {
                &&& (#[trigger] self.weekday_distribution@[w]).weekday == w
                &&& self.weekday_distribution@[w].total_minutes == segments::weekday_total(picked, w)
                &&& self.weekday_distribution@[w].session_count == self.session_count
            }
    }
}

/// The rows of the days of the week.
fn weekday_rows(picked: &Vec<&TimedSession>, first: Date, last: Date) -> (r: Vec<WeekdayRow>)
    requires
        picked_well(picked@, first.day as int, last.day as int),
        forall|w: int| 0 <= w < 7 ==> #[trigger] segments::weekday_total(picked@, w) <= u64::MAX,
    ensures
        r@.len() == 7,
        forall|w: int|
            0 <= w < 7 ==> {
                &&& (#[trigger] r@[w]).weekday == w
                &&& r@[w].total_minutes == segments::weekday_total(picked@, w)
                &&& r@[w].session_count == picked@.len()
            },
{
    let minutes: [u64; 7] = compute_weekday_distribution(picked);
    let mut rows: Vec<WeekdayRow> = Vec::new();
    let mut weekday: usize = 0;
    while weekday < 7
        invariant
            weekday <= 7,
            rows@.len() == weekday,
            picked@.len() <= MAX_SESSIONS,
            forall|w: int|
                0 <= w < 7 ==> #[trigger] minutes@[w] == segments::weekday_total(picked@, w),
            forall|w: int|
                0 <= w < weekday ==> {
                    &&& (#[trigger] rows@[w]).weekday == w
                    &&& rows@[w].total_minutes == segments::weekday_total(picked@, w)
                    &&& rows@[w].session_count == picked@.len()
                },
        decreases 7 - weekday,
    {
        rows.push(
            WeekdayRow {
                weekday: weekday as u32,
                total_minutes: minutes[weekday],
                session_count: picked.len() as u32,
            },
        );
        weekday = weekday + 1;
    }
    rows
}

/// The report of a year.
pub fn yearly_report(sessions: &Vec<TimedSession>, year: i32, name: &str) -> (r: YearlyReport)
    requires
        stats::countable(sessions@),
        calendar::MIN_YEAR <= year <= calendar::MAX_YEAR,
        weekdays_fit(
            sessions@,
            calendar::day_number(year as int, 1, 1),
            calendar::day_number(year as int, 12, 31),
        ),
        ordered_within(
            sessions@,
            calendar::day_number(year as int, 1, 1),
            calendar::day_number(year as int, 12, 31),
        ),
    ensures
        r.reports(sessions@, year as int, name@),
{
    assert(calendar::valid_ymd(year as int, 1, 1));
    assert(calendar::valid_ymd(year as int, 12, 31));
    let first: Date = Date::from_ymd_opt(year, 1, 1).unwrap();
    let last: Date = Date::from_ymd_opt(year, 12, 31).unwrap();
    proof {
        lemma_sessions_within(
            sessions@,
            first.day as int,
            last.day as int,
            first.day as int,
            last.day as int,
        );
    }
    let picked: Vec<&TimedSession> = filter_sessions_in_range(sessions, first, last);
    let (peak_hour, peak_hour_minutes) = find_peak(&picked, first, last);
    let monthly_stats: Vec<MonthRow> = month_rows(sessions, year);
    let top_streaming_months: Vec<TopMonth> = top_months(&monthly_stats);
    YearlyReport {
        streamer_name: name.to_owned(),
        year,
        total_stream_minutes: count_minutes_within(sessions, first, last),
        stream_days: count_live_days(sessions, first, last),
        session_count: picked.len() as u32,
        peak_hour,
        peak_hour_minutes,
        longest_session_minutes: find_longest(&picked),
        longest_streak_days: compute_longest_streak(sessions),
        monthly_stats,
        top_streaming_months,
        weekday_distribution: weekday_rows(&picked, first, last),
    }
}

/// Whether the local clock does not run backwards within a day over any
/// session of the range.
pub fn is_ordered_within(sessions: &Vec<TimedSession>, first: Date, last: Date) -> (r: bool)
    requires
        stats::all_valid(sessions@),
        first.valid(),
        last.valid(),
    ensures
        r == ordered_within(sessions@, first.day as int, last.day as int),
{
    let mut i: usize = 0;
    while i < sessions.len()
        invariant
            i <= sessions@.len(),
            stats::all_valid(sessions@),
            first.valid(),
            last.valid(),
            forall|j: int|
                0 <= j < i && (#[trigger] sessions@[j]).live_within(
                    first.day as int,
                    last.day as int,
                ) ==> sessions@[j].span->0.ordered(),
        decreases sessions@.len() - i,
    {
        if sessions[i].is_live_within(first, last) {
            if let Some(span) = sessions[i].span {
                if !span.is_ordered() {
                    return false;
                }
            }
        }
        i = i + 1;
    }
    true
}

/// Where no session takes any time, none can disturb the order of the clock.
proof fn lemma_ordered_anywhere(
    timed: Seq<TimedSession>,
    sessions: Seq<LiveSession>,
    first: int,
    last: int,
)
    requires
        session::placed(timed, sessions),
        session::placed_anywhere(sessions),
    ensures
        ordered_within(timed, first, last),
{
    assert forall|i: int|
        0 <= i < timed.len() && (#[trigger] timed[i]).live_within(first, last) implies
        timed[i].span->0.ordered() by {
        assert(timed[i].session == sessions[i]);
        assert(sessions[i].takes_no_time());
    }
}

/// The report over the week so far. There is none where the local clock runs
/// backwards within a day over a session of this week.
pub fn weekly_report_if_ordered(
    sessions: &Vec<TimedSession>,
    today: Date,
    name: &str,
) -> (r: Option<WeeklyReport>)
    requires
        stats::countable(sessions@),
        today.valid(),
        calendar::in_calendar(calendar::monday_of(today.day as int)),
    ensures
        r is Some <==> ordered_within(
            sessions@,
            calendar::monday_of(today.day as int),
            today.day as int,
        ),
        r matches Some(report) ==> report.reports(sessions@, today, name@),
{
    if is_ordered_within(sessions, today.week_start(), today) {
        Some(weekly_report(sessions, today, name))
    } else {
        None
    }
}

/// The report over the month so far. There is none where the local clock runs
/// backwards within a day over a session of this month.
pub fn monthly_report_if_ordered(
    sessions: &Vec<TimedSession>,
    today: Date,
    name: &str,
) -> (r: Option<MonthlyReport>)
    requires
        stats::countable(sessions@),
        today.valid(),
        weekdays_fit(sessions@, calendar::month_start_of(today.day as int), today.day as int),
    ensures
        r is Some <==> ordered_within(
            sessions@,
            calendar::month_start_of(today.day as int),
            today.day as int,
        ),
        r matches Some(report) ==> report.reports(sessions@, today, name@),
{
    if is_ordered_within(sessions, today.month_start(), today) {
        Some(monthly_report(sessions, today, name))
    } else {
        None
    }
}

/// The report of a year. There is none where the local clock runs backwards
/// within a day over a session of that year.
pub fn yearly_report_if_ordered(
    sessions: &Vec<TimedSession>,
    year: i32,
    name: &str,
) -> (r: Option<YearlyReport>)
    requires
        stats::countable(sessions@),
        calendar::MIN_YEAR <= year <= calendar::MAX_YEAR,
        weekdays_fit(
            sessions@,
            calendar::day_number(year as int, 1, 1),
            calendar::day_number(year as int, 12, 31),
        ),
    ensures
        r is Some <==> ordered_within(
            sessions@,
            calendar::day_number(year as int, 1, 1),
            calendar::day_number(year as int, 12, 31),
        ),
        r matches Some(report) ==> report.reports(sessions@, year as int, name@),
{
    assert(calendar::valid_ymd(year as int, 1, 1));
    assert(calendar::valid_ymd(year as int, 12, 31));
    let first: Date = Date::from_ymd_opt(year, 1, 1).unwrap();
    let last: Date = Date::from_ymd_opt(year, 12, 31).unwrap();
    if is_ordered_within(sessions, first, last) {
        Some(yearly_report(sessions, year, name))
    } else {
        None
    }
}

/// The sessions on the local clock, and today. There is no answer where the
/// local clock has none for a session, or where there are too many sessions.
fn read_today(sessions: &Vec<LiveSession>) -> (r: Option<(Vec<TimedSession>, Date)>)
    ensures
        r matches Some((timed, today)) ==> {
            &&& session::placed(timed@, sessions@)
            &&& stats::countable(timed@)
            &&& today.valid()
            &&& today.day >= calendar::EPOCH_DAY - 1
            &&& reading::is_today(today.day as int)
        },
        session::placed_anywhere(sessions@) && sessions@.len() <= MAX_SESSIONS ==> r is Some,
        r is None ==> sessions@.len() > MAX_SESSIONS || session::some_unplaced(sessions@),
{
    if sessions.len() > MAX_SESSIONS {
        return None;
    }
    match read_sessions(sessions) {
        Some(timed) => {
            let now: LocalTime = local_now();
            let today: Date = now.date_naive();
            assert(reading::shown_by_clock(now) && now.day() == today.day);
            Some((timed, today))
        },
        None => None,
    }
}

/// Whether the local clock runs backwards within a day over a session of this
/// week.
pub open spec fn week_is_disordered(sessions: Seq<LiveSession>) -> bool {
    exists|timed: Seq<TimedSession>, today: Date|
        session::placed(timed, sessions) && today.valid() && reading::is_today(today.day as int)
            && !#[trigger] ordered_within(
            timed,
            calendar::monday_of(today.day as int),
            today.day as int,
        )
}

/// Whether the local clock runs backwards within a day over a session of this
/// month.
pub open spec fn month_is_disordered(sessions: Seq<LiveSession>) -> bool {
    exists|timed: Seq<TimedSession>, today: Date|
        session::placed(timed, sessions) && today.valid() && reading::is_today(today.day as int)
            && !#[trigger] ordered_within(
            timed,
            calendar::month_start_of(today.day as int),
            today.day as int,
        )
}

/// Whether the local clock runs backwards within a day over a session of this
/// year.
pub open spec fn year_is_disordered(sessions: Seq<LiveSession>) -> bool {
    exists|timed: Seq<TimedSession>, today: Date|
        session::placed(timed, sessions) && today.valid() && reading::is_today(today.day as int)
            && !#[trigger] ordered_within(
            timed,
            calendar::day_number(calendar::ymd_of(today.day as int).0, 1, 1),
            calendar::day_number(calendar::ymd_of(today.day as int).0, 12, 31),
        )
}

/// Whether this is the report over the week so far, for some reading of the
/// sessions on the local clock and the date that the clock shows as today.
pub open spec fn is_weekly_report(
    report: WeeklyReport,
    sessions: Seq<LiveSession>,
    name: Seq<char>,
) -> bool {
    exists|timed: Seq<TimedSession>, today: Date|
        session::placed(timed, sessions) && today.valid() && today.day >= calendar::EPOCH_DAY - 1
            && reading::is_today(today.day as int) && #[trigger] report.reports(timed, today, name)
}

/// The report over the week so far, by the machine's clock and time zone. There is
/// none where the local clock has no answer for a session, or runs backwards
/// within a day over a session of this week.
pub fn build_weekly_report_data(sessions: &Vec<LiveSession>, name: &str) -> (r: Option<WeeklyReport>)
    ensures
        r matches Some(report) ==> is_weekly_report(report, sessions@, name@),
        session::placed_anywhere(sessions@) && sessions@.len() <= MAX_SESSIONS ==> r is Some,
        sessions@.len() > MAX_SESSIONS ==> r is None,
        r is None ==> sessions@.len() > MAX_SESSIONS || session::some_unplaced(sessions@)
            || week_is_disordered(sessions@),
{
    let (timed, today) = match read_today(sessions) {
        Some(read) => read,
        None => {
            return None;
        },
    };
    proof {
        if session::placed_anywhere(sessions@) {
            lemma_ordered_anywhere(
                timed@,
                sessions@,
                calendar::monday_of(today.day as int),
                today.day as int,
            );
        }
    }
    let report: Option<WeeklyReport> = weekly_report_if_ordered(&timed, today, name);
    proof {
        if report is Some {
            let found = report->0;
            assert(session::placed(timed@, sessions@) && today.valid() && today.day
                >= calendar::EPOCH_DAY - 1 && reading::is_today(today.day as int) && found.reports(timed@, today, name@));
            assert(is_weekly_report(found, sessions@, name@));
        }
    }
    report
}

/// Whether this is the report over the month so far, for some reading of the
/// sessions on the local clock and the date that the clock shows as today.
pub open spec fn is_monthly_report(
    report: MonthlyReport,
    sessions: Seq<LiveSession>,
    name: Seq<char>,
) -> bool {
    exists|timed: Seq<TimedSession>, today: Date|
        session::placed(timed, sessions) && today.valid() && today.day >= calendar::EPOCH_DAY - 1
            && reading::is_today(today.day as int) && #[trigger] report.reports(timed, today, name)
}

/// The report over the month so far, by the machine's clock and time zone. There is
/// none where the local clock has no answer for a session, or runs backwards
/// within a day over a session of this month.
pub fn build_monthly_report_data(sessions: &Vec<LiveSession>, name: &str) -> (r: Option<MonthlyReport>)
    ensures
        r matches Some(report) ==> is_monthly_report(report, sessions@, name@),
        session::placed_anywhere(sessions@) && sessions@.len() <= MAX_SESSIONS ==> r is Some,
        sessions@.len() > MAX_SESSIONS ==> r is None,
        r is None ==> sessions@.len() > MAX_SESSIONS || session::some_unplaced(sessions@)
            || month_is_disordered(sessions@),
{
    let (timed, today) = match read_today(sessions) {
        Some(read) => read,
        None => {
            return None;
        },
    };
    proof {
        lemma_weekdays_fit(timed@, calendar::month_start_of(today.day as int), today.day as int);
        if session::placed_anywhere(sessions@) {
            lemma_ordered_anywhere(
                timed@,
                sessions@,
                calendar::month_start_of(today.day as int),
                today.day as int,
            );
        }
    }
    let report: Option<MonthlyReport> = monthly_report_if_ordered(&timed, today, name);
    proof {
        if report is Some {
            let found = report->0;
            assert(session::placed(timed@, sessions@) && today.valid() && today.day
                >= calendar::EPOCH_DAY - 1 && reading::is_today(today.day as int) && found.reports(timed@, today, name@));
            assert(is_monthly_report(found, sessions@, name@));
        }
    }
    report
}

/// Whether this is the report over this year, for some reading of the
/// sessions on the local clock and the date that the clock shows as today.
pub open spec fn is_yearly_report(
    report: YearlyReport,
    sessions: Seq<LiveSession>,
    name: Seq<char>,
) -> bool {
    exists|timed: Seq<TimedSession>, today: Date|
        session::placed(timed, sessions) && today.valid() && today.day >= calendar::EPOCH_DAY - 1
            && reading::is_today(today.day as int) && #[trigger] report.reports(timed, calendar::ymd_of(today.day as int).0, name)
}

/// The report over this year, by the machine's clock and time zone. There is
/// none where the local clock has no answer for a session, or runs backwards
/// within a day over a session of this year.
pub fn build_yearly_report_data(sessions: &Vec<LiveSession>, name: &str) -> (r: Option<YearlyReport>)
    ensures
        r matches Some(report) ==> is_yearly_report(report, sessions@, name@),
        session::placed_anywhere(sessions@) && sessions@.len() <= MAX_SESSIONS ==> r is Some,
        sessions@.len() > MAX_SESSIONS ==> r is None,
        r is None ==> sessions@.len() > MAX_SESSIONS || session::some_unplaced(sessions@)
            || year_is_disordered(sessions@),
{
    let (timed, today) = match read_today(sessions) {
        Some(read) => read,
        None => {
            return None;
        },
    };
    let (year, _month, _day) = today.ymd();
    proof {
        lemma_weekdays_fit(timed@, calendar::day_number(year as int, 1, 1), calendar::day_number(year as int, 12, 31));
        if session::placed_anywhere(sessions@) {
            lemma_ordered_anywhere(
                timed@,
                sessions@,
                calendar::day_number(year as int, 1, 1),
                calendar::day_number(year as int, 12, 31),
            );
        }
    }
    let report: Option<YearlyReport> = yearly_report_if_ordered(&timed, year, name);
    proof {
        if report is Some {
            let found = report->0;
            assert(session::placed(timed@, sessions@) && today.valid() && today.day
                >= calendar::EPOCH_DAY - 1 && reading::is_today(today.day as int) && found.reports(timed@, calendar::ymd_of(today.day as int).0, name@));
            assert(is_yearly_report(found, sessions@, name@));
        }
    }
    report
}

/// The minutes and the sessions of the first `n` days of a weekly report.
pub open spec fn days_sum(rows: Seq<DayReport>, n: nat) -> (nat, nat)
    decreases n,
{
    if n == 0 {
        (0, 0)
    } else {
        let (minutes, count) = days_sum(rows, (n - 1) as nat);
        (minutes + rows[n - 1].total_minutes as nat, count + rows[n - 1].session_count as nat)
    }
}

proof fn lemma_days_sum(rows: Seq<DayReport>, sessions: Seq<TimedSession>, first: int, n: nat)
    requires
        n <= rows.len(),
        forall|i: int| 0 <= i < rows.len() ==> (#[trigger] rows[i]).shows(sessions, first + i),
    ensures
        days_sum(rows, n).0 == piece_minutes(sessions, first, first + n - 1),
        days_sum(rows, n).1 == appearances(sessions, first, first + n - 1),
    decreases n,
{
    if n > 0 {
        lemma_days_sum(rows, sessions, first, (n - 1) as nat);
        assert(rows[n - 1].shows(sessions, first + (n - 1)));
    }
}

/// The days of a weekly report add up to the whole week.
pub proof fn law_days_make_up_the_week(
    report: WeeklyReport,
    sessions: Seq<TimedSession>,
    today: Date,
    name: Seq<char>,
)
    requires
        report.reports(sessions, today, name),
    ensures
        days_sum(report.daily_stats@, report.daily_stats@.len()) == (
            report.total_stream_minutes as nat,
            report.session_count as nat,
        ),
        1 <= report.daily_stats@.len() <= 7,
{
    lemma_days_sum(
        report.daily_stats@,
        sessions,
        calendar::monday_of(today.day as int),
        report.daily_stats@.len(),
    );
}

/// The minutes of the first `n` weeks of a monthly report.
pub open spec fn weeks_sum(rows: Seq<WeekRow>, n: nat) -> nat
    decreases n,
{
    if n == 0 {
        0
    } else {
        weeks_sum(rows, (n - 1) as nat) + rows[n - 1].total_minutes as nat
    }
}

proof fn lemma_weeks_sum(
    rows: Seq<WeekRow>,
    sessions: Seq<TimedSession>,
    first: int,
    last: int,
    n: nat,
)
    requires
        first <= last,
        1 <= n <= rows.len(),
        rows.len() == weeks_within(first, last),
        forall|i: int| 0 <= i < rows.len() ==> (#[trigger] rows[i]).shows(sessions, first, last, i),
    ensures
        weeks_sum(rows, n) == stats::minutes_within(sessions, first, week_last(first, last, n - 1)),
    decreases n,
{
    assert(rows[n - 1].shows(sessions, first, last, n - 1));
    if n > 1 {
        lemma_weeks_sum(rows, sessions, first, last, (n - 1) as nat);
        stats::law_ranges_add_up(
            sessions,
            first,
            week_last(first, last, n - 2),
            week_last(first, last, n - 1),
        );
    } else {
        assert(weeks_sum(rows, 0) == 0);
    }
}

/// The weeks of a monthly report add up to the whole month.
pub proof fn law_weeks_make_up_the_month(
    report: MonthlyReport,
    sessions: Seq<TimedSession>,
    today: Date,
    name: Seq<char>,
)
    requires
        today.valid(),
        report.reports(sessions, today, name),
    ensures
        weeks_sum(report.weekly_stats@, report.weekly_stats@.len()) == report.total_stream_minutes,
{
    calendar::lemma_ymd_exists(today.day as int);
    lemma_weeks_sum(
        report.weekly_stats@,
        sessions,
        calendar::month_start_of(today.day as int),
        today.day as int,
        report.weekly_stats@.len(),
    );
}

/// The minutes and the days of the first `n` months of a yearly report.
pub open spec fn months_sum(rows: Seq<MonthRow>, n: nat) -> (nat, nat)
    decreases n,
{
    if n == 0 {
        (0, 0)
    } else {
        let (minutes, days) = months_sum(rows, (n - 1) as nat);
        (minutes + rows[n - 1].total_minutes as nat, days + rows[n - 1].stream_days as nat)
    }
}

proof fn lemma_months_sum(rows: Seq<MonthRow>, sessions: Seq<TimedSession>, year: int, n: nat)
    requires
        1 <= n <= 12,
        rows.len() == 12,
        forall|i: int| 0 <= i < 12 ==> (#[trigger] rows[i]).shows(sessions, year, i + 1),
    ensures
        months_sum(rows, n).0 == stats::minutes_within(
            sessions,
            calendar::day_number(year, 1, 1),
            month_last(year, n as int),
        ),
        months_sum(rows, n).1 == stats::live_days(
            sessions,
            calendar::day_number(year, 1, 1),
            month_last(year, n as int),
        ),
    decreases n,
{
    assert(rows[n - 1].shows(sessions, year, (n - 1) + 1));
    if n > 1 {
        lemma_months_sum(rows, sessions, year, (n - 1) as nat);
        stats::law_ranges_add_up(
            sessions,
            calendar::day_number(year, 1, 1),
            month_last(year, n - 1),
            month_last(year, n as int),
        );
    } else {
        assert(months_sum(rows, 0) == (0nat, 0nat));
    }
}

/// The months of a yearly report add up to the whole year.
pub proof fn law_months_make_up_the_year(
    report: YearlyReport,
    sessions: Seq<TimedSession>,
    year: int,
    name: Seq<char>,
)
    requires
        report.reports(sessions, year, name),
    ensures
        months_sum(report.monthly_stats@, 12) == (
            report.total_stream_minutes as nat,
            report.stream_days as nat,
        ),
{
    lemma_months_sum(report.monthly_stats@, sessions, year, 12);
}

/// The longest recorded length is an upper bound that is reached: no session
/// lasted longer, and one of them lasted as long, in whole minutes.
pub proof fn law_longest_recorded_is_reached(picked: Seq<&TimedSession>)
    ensures
        forall|i: int|
            0 <= i < picked.len() ==> (#[trigger] picked[i]).session.duration_secs / 60
                <= longest_recorded(picked),
        picked.len() > 0 ==> exists|i: int|
            0 <= i < picked.len() && (#[trigger] picked[i]).session.duration_secs / 60
                == longest_recorded(picked),
        picked.len() == 0 ==> longest_recorded(picked) == 0,
    decreases picked.len(),
{
    if picked.len() > 0 {
        let rest = picked.drop_last();
        let last = picked.last();
        law_longest_recorded_is_reached(rest);
        assert(last == picked[picked.len() - 1]);
        assert forall|i: int| 0 <= i < picked.len() implies (
        #[trigger] picked[i]).session.duration_secs / 60 <= longest_recorded(picked) by {
            if i < rest.len() {
                assert(rest[i] == picked[i]);
            }
        }
        if longest_recorded(picked) == last.session.duration_secs / 60 {
            assert(picked[picked.len() - 1].session.duration_secs / 60 == longest_recorded(picked));
        } else {
            let i = choose|i: int|
                0 <= i < rest.len() && (#[trigger] rest[i]).session.duration_secs / 60
                    == longest_recorded(rest);
            assert(picked[i] == rest[i]);
        }
    }
}

/// The minutes of the segments of a day, in order.
pub open spec fn segment_lengths(row: DayReport) -> Seq<int> {
    row.sessions@.map_values(|segment: Segment| segment.duration_minutes as int)
}

proof fn lemma_day_minutes_are_segments(
    row: DayReport,
    sessions: Seq<TimedSession>,
    day: int,
    n: nat,
)
    requires
        row.shows(sessions, day),
        n <= row.sessions@.len(),
    ensures
        day_minutes(sessions_of(sessions, day).take(n as int), day) == stats::total_of(
            segment_lengths(row).take(n as int),
        ),
        forall|i: int|
            0 <= i < n ==> (#[trigger] row.sessions@[i]).duration_minutes <= day_longest(
                sessions_of(sessions, day).take(n as int),
                day,
            ),
        day_longest(sessions_of(sessions, day).take(n as int), day) == 0 || exists|i: int|
            0 <= i < n && (#[trigger] row.sessions@[i]).duration_minutes == day_longest(
                sessions_of(sessions, day).take(n as int),
                day,
            ),
    decreases n,
{
    let picked = sessions_of(sessions, day);
    let values = segment_lengths(row);
    stats::lemma_total_of(values.take(n as int));
    if n == 0 {
        assert(picked.take(0) =~= Seq::empty());
        assert(values.take(0) =~= Seq::empty());
    } else {
        lemma_day_minutes_are_segments(row, sessions, day, (n - 1) as nat);
        assert(picked.take(n as int).drop_last() =~= picked.take(n - 1));
        assert(picked.take(n as int).last() == picked[n - 1]);
        assert(values.take(n as int).drop_last() =~= values.take(n - 1));
        assert(row.sessions@[n - 1].shows(
            picked[n - 1].span->0.piece_on(day),
            picked[n - 1].span->0.crosses(),
        ));
        let before = day_longest(picked.take(n - 1), day);
        let longest = day_longest(picked.take(n as int), day);
        if longest == before && before != 0 {
            let i = choose|i: int|
                0 <= i < n - 1 && (#[trigger] row.sessions@[i]).duration_minutes == before;
            assert(row.sessions@[i].duration_minutes == longest);
        } else {
            assert(longest == 0 || row.sessions@[n - 1].duration_minutes == longest);
        }
    }
}

/// A row of the weekly report has a segment for each session of its day, in
/// their order, and its minutes are those of the segments together. A segment
/// is as long as the times that it shows, and crosses midnight exactly if its
/// session does.
pub proof fn law_day_lists_its_sessions(row: DayReport, sessions: Seq<TimedSession>, day: int)
    requires
        row.shows(sessions, day),
    ensures
        row.date@ == calendar::date_text(day),
        row.session_count == row.sessions@.len(),
        row.total_minutes == stats::total_of(segment_lengths(row)),
        ({
            let listed = sessions.filter(|timed: TimedSession| timed.live_on(day));
            &&& row.sessions@.len() == listed.len()
            &&& forall|i: int|
                0 <= i < listed.len() ==> {
                    let (from, to) = (#[trigger] listed[i]).span->0.piece_on(day);
                    &&& row.sessions@[i].start_time@ == text::clock_text(from)
                    &&& row.sessions@[i].end_time@ == text::clock_text(to)
                    &&& row.sessions@[i].duration_minutes == to - from
                    &&& row.sessions@[i].crosses_midnight == (listed[i].span->0.start.day()
                        != listed[i].span->0.end.day())
                }
        }),
{
    let picked = sessions_of(sessions, day);
    let listed = sessions.filter(|timed: TimedSession| timed.live_on(day));
    let within = sessions.filter(|timed: TimedSession| timed.live_within(day, day));
    stats::law_range_is_a_filter(sessions, day, day);
    lemma_same_filter(sessions, day);
    lemma_day_minutes_are_segments(row, sessions, day, row.sessions@.len());
    assert(picked.take(picked.len() as int) =~= picked);
    assert(segment_lengths(row).take(row.sessions@.len() as int) =~= segment_lengths(row));
    assert(picked.map_values(|timed: &TimedSession| *timed) == listed);
    assert forall|i: int| 0 <= i < listed.len() implies {
        let (from, to) = (#[trigger] listed[i]).span->0.piece_on(day);
        &&& row.sessions@[i].start_time@ == text::clock_text(from)
        &&& row.sessions@[i].end_time@ == text::clock_text(to)
        &&& row.sessions@[i].duration_minutes == to - from
        &&& row.sessions@[i].crosses_midnight == (listed[i].span->0.start.day()
            != listed[i].span->0.end.day())
    } by {
        assert(*picked[i] == listed[i]);
        assert(row.sessions@[i].shows(
            picked[i].span->0.piece_on(day),
            picked[i].span->0.crosses(),
        ));
    }
}

proof fn lemma_same_filter(sessions: Seq<TimedSession>, day: int)
    ensures
        sessions.filter(|timed: TimedSession| timed.live_within(day, day)) == sessions.filter(
            |timed: TimedSession| timed.live_on(day),
        ),
    decreases sessions.len(),
{
    reveal(Seq::filter);
    if sessions.len() > 0 {
        lemma_same_filter(sessions.drop_last(), day);
        stats::law_a_range_holds_its_days(sessions.last(), day, day - 1, day);
    }
}

/// The rows with a filled minute.
pub open spec fn busy_rows(rows: Seq<DayReport>, n: nat) -> Set<int> {
    Set::new(|i: int| 0 <= i < n && rows[i].total_minutes > 0)
}

proof fn lemma_busy_rows(
    rows: Seq<DayReport>,
    sessions: Seq<TimedSession>,
    first: int,
    n: nat,
)
    requires
        n <= rows.len(),
        forall|i: int| 0 <= i < rows.len() ==> (#[trigger] rows[i]).shows(sessions, first + i),
    ensures
        busy_rows(rows, n).finite(),
        busy_rows(rows, n).len() == busy_days(sessions, first, first + n - 1),
        forall|i: int|
            0 <= i < n ==> forall|j: int|
                0 <= j < (#[trigger] rows[i]).sessions@.len() ==> (
                #[trigger] rows[i].sessions@[j]).duration_minutes <= longest_piece(
                    sessions,
                    first,
                    first + n - 1,
                ),
        longest_piece(sessions, first, first + n - 1) == 0 || exists|i: int, j: int|
            0 <= i < n && 0 <= j < rows[i].sessions@.len() && (
            #[trigger] rows[i].sessions@[j]).duration_minutes == longest_piece(
                sessions,
                first,
                first + n - 1,
            ),
    decreases n,
{
    if n == 0 {
        assert(busy_rows(rows, 0) =~= Set::empty());
    } else {
        lemma_busy_rows(rows, sessions, first, (n - 1) as nat);
        let row = rows[n - 1];
        let day = first + (n - 1);
        assert(row.shows(sessions, day));
        let before = busy_rows(rows, (n - 1) as nat);
        if row.total_minutes > 0 {
            assert(busy_rows(rows, n) =~= before.insert(n - 1));
        } else {
            assert(busy_rows(rows, n) =~= before);
        }
        let picked = sessions_of(sessions, day);
        lemma_day_minutes_are_segments(row, sessions, day, row.sessions@.len());
        assert(picked.take(picked.len() as int) =~= picked);
        let earlier = longest_piece(sessions, first, first + n - 2);
        let longest = longest_piece(sessions, first, first + n - 1);
        assert(longest == larger(earlier, day_longest(picked, day)));
        if longest != 0 {
            if longest == earlier {
                let (i, j) = choose|i: int, j: int|
                    0 <= i < n - 1 && 0 <= j < rows[i].sessions@.len() && (
                    #[trigger] rows[i].sessions@[j]).duration_minutes == earlier;
                assert(rows[i].sessions@[j].duration_minutes == longest);
            } else {
                let j = choose|j: int|
                    0 <= j < row.sessions@.len() && (#[trigger] row.sessions@[j]).duration_minutes
                        == longest;
                assert(rows[n - 1].sessions@[j].duration_minutes == longest);
            }
        }
    }
}

/// The weekly report counts the days with a filled minute, and its longest
/// session is the longest of all segments that its days list. Where anything
/// was streamed, some day counts.
pub proof fn law_week_sums_up_its_days(
    report: WeeklyReport,
    sessions: Seq<TimedSession>,
    today: Date,
    name: Seq<char>,
)
    requires
        report.reports(sessions, today, name),
    ensures
        ({
            let rows = report.daily_stats@;
            let longest = report.longest_session_minutes;
            &&& busy_rows(rows, rows.len()).finite()
            &&& report.stream_days == busy_rows(rows, rows.len()).len()
            &&& report.total_stream_minutes == stats::total_of(
                rows.map_values(|row: DayReport| row.total_minutes as int),
            )
            &&& report.session_count == stats::total_of(
                rows.map_values(|row: DayReport| row.sessions@.len() as int),
            )
            &&& forall|i: int, j: int|
                0 <= i < rows.len() && 0 <= j < rows[i].sessions@.len() ==> (
                #[trigger] rows[i].sessions@[j]).duration_minutes <= longest
            &&& longest == 0 || exists|i: int, j: int|
                0 <= i < rows.len() && 0 <= j < rows[i].sessions@.len() && (
                #[trigger] rows[i].sessions@[j]).duration_minutes == longest
        }),
        report.total_stream_minutes > 0 ==> report.stream_days > 0,
{
    let rows = report.daily_stats@;
    let first = calendar::monday_of(today.day as int);
    lemma_busy_rows(rows, sessions, first, rows.len());
    lemma_rows_total(rows, sessions, first, rows.len());
    let minutes = rows.map_values(|row: DayReport| row.total_minutes as int);
    let counts = rows.map_values(|row: DayReport| row.sessions@.len() as int);
    assert(minutes.take(rows.len() as int) =~= minutes);
    assert(counts.take(rows.len() as int) =~= counts);
    if report.total_stream_minutes > 0 && report.stream_days == 0 {
        lemma_no_busy_row(rows, rows.len());
    }
}

proof fn lemma_rows_total(rows: Seq<DayReport>, sessions: Seq<TimedSession>, first: int, n: nat)
    requires
        n <= rows.len(),
        forall|i: int| 0 <= i < rows.len() ==> (#[trigger] rows[i]).shows(sessions, first + i),
    ensures
        piece_minutes(sessions, first, first + n - 1) == stats::total_of(
            rows.map_values(|row: DayReport| row.total_minutes as int).take(n as int),
        ),
        appearances(sessions, first, first + n - 1) == stats::total_of(
            rows.map_values(|row: DayReport| row.sessions@.len() as int).take(n as int),
        ),
    decreases n,
{
    let minutes = rows.map_values(|row: DayReport| row.total_minutes as int);
    let counts = rows.map_values(|row: DayReport| row.sessions@.len() as int);
    stats::lemma_total_of(minutes.take(n as int));
    stats::lemma_total_of(counts.take(n as int));
    if n == 0 {
        assert(minutes.take(0) =~= Seq::empty());
        assert(counts.take(0) =~= Seq::empty());
    } else {
        lemma_rows_total(rows, sessions, first, (n - 1) as nat);
        assert(rows[n - 1].shows(sessions, first + (n - 1)));
        assert(minutes.take(n as int).drop_last() =~= minutes.take(n - 1));
        assert(counts.take(n as int).drop_last() =~= counts.take(n - 1));
    }
}

proof fn lemma_no_busy_row(rows: Seq<DayReport>, n: nat)
    requires
        n <= rows.len(),
        busy_rows(rows, rows.len()).finite(),
        busy_rows(rows, rows.len()).len() == 0,
    ensures
        stats::total_of(
            rows.map_values(|row: DayReport| row.total_minutes as int).take(n as int),
        ) == 0,
    decreases n,
{
    let minutes = rows.map_values(|row: DayReport| row.total_minutes as int);
    stats::lemma_total_of(minutes.take(n as int));
    if n == 0 {
        assert(minutes.take(0) =~= Seq::empty());
    } else {
        lemma_no_busy_row(rows, (n - 1) as nat);
        assert(minutes.take(n as int).drop_last() =~= minutes.take(n - 1));
        assert(busy_rows(rows, rows.len()) =~= Set::empty());
        assert(!busy_rows(rows, rows.len()).contains(n - 1));
    }
}

/// The weekly report speaks of the days from Monday to today, names the
/// streamer, and gives the current streak and the hour of the day with the most
/// minutes, the earliest where several have as many.
pub proof fn law_week_runs_from_monday_to_today(
    report: WeeklyReport,
    sessions: Seq<TimedSession>,
    today: Date,
    name: Seq<char>,
    hour: int,
)
    requires
        report.reports(sessions, today, name),
        0 <= hour < 24,
    ensures
        ({
            let monday = today.day - calendar::weekday_of(today.day as int);
            let picked = stats::sessions_within(sessions, monday, today.day as int);
            let minutes = segments::hour_total(picked, Date { day: monday as i32 }, today, hour);
            &&& report.streamer_name@ == name
            &&& report.week_start@ == calendar::date_text(monday)
            &&& report.week_end@ == calendar::date_text(today.day as int)
            &&& report.daily_stats@.len() == calendar::weekday_of(today.day as int) + 1
            &&& forall|i: int|
                0 <= i < report.daily_stats@.len() ==> (
                #[trigger] report.daily_stats@[i]).date@ == calendar::date_text(monday + i)
            &&& report.streak_days == streak::streak_of(sessions, today.day as int)
            &&& report.peak_hour < 24
            &&& minutes <= report.peak_hour_minutes
            &&& hour == report.peak_hour ==> minutes == report.peak_hour_minutes
            &&& hour < report.peak_hour ==> minutes < report.peak_hour_minutes
        }),
{
    let monday = calendar::monday_of(today.day as int);
    assert forall|i: int| 0 <= i < report.daily_stats@.len() implies (
    #[trigger] report.daily_stats@[i]).date@ == calendar::date_text(monday + i) by {
        assert(report.daily_stats@[i].shows(sessions, monday + i));
    }
}

/// The weeks of a month follow one another without a gap, from its first day to
/// today, and each lies between a Monday and the Sunday after it.
pub proof fn law_weeks_follow_one_another(first: int, last: int, i: int)
    requires
        first <= last,
        0 <= i < weeks_within(first, last),
    ensures
        week_first(first, 0) == first,
        week_last(first, last, weeks_within(first, last) - 1) == last,
        week_first(first, i) <= week_last(first, last, i),
        calendar::monday_of(week_first(first, i)) == calendar::monday_of(week_last(first, last, i)),
        i + 1 < weeks_within(first, last) ==> {
            &&& week_first(first, i + 1) == week_last(first, last, i) + 1
            &&& calendar::weekday_of(week_first(first, i + 1)) == 0
        },
{
}

/// Whether these figures are those of a range: how many sessions have a day in
/// it, how many of its days have a session, its minutes, and the longest
/// session by its recorded length.
pub open spec fn tells_of_range(
    session_count: int,
    stream_days: int,
    minutes: int,
    longest: int,
    sessions: Seq<TimedSession>,
    first: int,
    last: int,
) -> bool {
    let picked = sessions.filter(|timed: TimedSession| timed.live_within(first, last));
    &&& session_count == picked.len()
    &&& stream_days == stats::days_with_a_session(sessions, first, last).len()
    &&& minutes == stats::minutes_within(sessions, first, last)
    &&& forall|i: int|
        0 <= i < picked.len() ==> (#[trigger] picked[i]).session.duration_secs / 60 <= longest
    &&& picked.len() > 0 ==> exists|i: int|
        0 <= i < picked.len() && (#[trigger] picked[i]).session.duration_secs / 60 == longest
    &&& picked.len() == 0 ==> longest == 0
}

proof fn lemma_tells_of_range(sessions: Seq<TimedSession>, first: int, last: int)
    ensures
        tells_of_range(
            stats::sessions_within(sessions, first, last).len() as int,
            stats::live_days(sessions, first, last) as int,
            stats::minutes_within(sessions, first, last) as int,
            longest_recorded(stats::sessions_within(sessions, first, last)) as int,
            sessions,
            first,
            last,
        ),
{
    let picked = stats::sessions_within(sessions, first, last);
    let longest = longest_recorded(picked);
    let listed = sessions.filter(|timed: TimedSession| timed.live_within(first, last));
    stats::law_range_is_a_filter(sessions, first, last);
    stats::law_live_days_are_counted_once(sessions, first, last);
    law_longest_recorded_is_reached(picked);
    assert(picked.map_values(|timed: &TimedSession| *timed) == listed);
    assert forall|i: int| 0 <= i < listed.len() implies (
    #[trigger] listed[i]).session.duration_secs / 60 <= longest by {
        assert(*picked[i] == listed[i]);
    }
    if picked.len() > 0 {
        let i = choose|i: int|
            0 <= i < picked.len() && (#[trigger] picked[i]).session.duration_secs / 60 == longest;
        assert(*picked[i] == listed[i]);
        assert(listed[i].session.duration_secs / 60 == longest);
    }
}

/// The monthly report tells of the days from the first of the month to today,
/// and of the minutes of each day of the week.
pub proof fn law_month_tells_of_its_days(
    report: MonthlyReport,
    sessions: Seq<TimedSession>,
    today: Date,
    name: Seq<char>,
    hour: int,
    weekday: int,
)
    requires
        today.valid(),
        report.reports(sessions, today, name),
        0 <= hour < 24,
        0 <= weekday < 7,
    ensures
        ({
            let last = today.day as int;
            let first = last - calendar::ymd_of(last).2 + 1;
            let picked = stats::sessions_within(sessions, first, last);
            let minutes = segments::hour_total(picked, Date { day: first as i32 }, today, hour);
            &&& report.streamer_name@ == name
            &&& tells_of_range(
                report.session_count as int,
                report.stream_days as int,
                report.total_stream_minutes as int,
                report.longest_session_minutes as int,
                sessions,
                first,
                last,
            )
            &&& report.streak_days == streak::streak_of(sessions, last)
            &&& report.peak_hour < 24
            &&& minutes <= report.peak_hour_minutes
            &&& hour == report.peak_hour ==> minutes == report.peak_hour_minutes
            &&& hour < report.peak_hour ==> minutes < report.peak_hour_minutes
            &&& report.weekday_distribution@[weekday] == segments::weekday_total(picked, weekday)
        }),
{
    let last = today.day as int;
    calendar::law_month_begins_on_its_first_day(last);
    lemma_tells_of_range(sessions, calendar::month_start_of(last), last);
}

/// Each row of the monthly report has the number of its week, counted from 1,
/// the minutes of the days of that week, and the sessions with a day in it.
pub proof fn law_week_row_tells_of_its_week(
    report: MonthlyReport,
    sessions: Seq<TimedSession>,
    today: Date,
    name: Seq<char>,
    i: int,
)
    requires
        today.valid(),
        report.reports(sessions, today, name),
        0 <= i < report.weekly_stats@.len(),
    ensures
        ({
            let last = today.day as int;
            let first = last - calendar::ymd_of(last).2 + 1;
            let from = week_first(first, i);
            let to = week_last(first, last, i);
            let row = report.weekly_stats@[i];
            &&& row.week_number == i + 1
            &&& row.total_minutes == stats::minutes_within(sessions, from, to)
            &&& row.session_count == sessions.filter(
                |timed: TimedSession| timed.live_within(from, to),
            ).len()
            &&& report.weekly_stats@.len() == (last - calendar::monday_of(first)) / 7 + 1
        }),
{
    let last = today.day as int;
    let first = calendar::month_start_of(last);
    calendar::law_month_begins_on_its_first_day(last);
    assert(report.weekly_stats@[i].shows(sessions, first, last, i));
    stats::law_range_is_a_filter(sessions, week_first(first, i), week_last(first, last, i));
}

/// A month is written as its year, a hyphen and its number with two digits; a
/// year from 0 on has at least four digits.
pub proof fn law_month_text_names_the_month(year: int, month: int)
    requires
        year >= 0,
        1 <= month <= 12,
    ensures
        ({
            let shown = month_text(year, month);
            let split = shown.len() - 3;
            &&& split >= 4
            &&& text::number_in(shown.take(split)) == year
            &&& shown[split] == '-'
            &&& text::number_in(shown.skip(split + 1)) == month
            &&& split > 4 ==> shown[0] != '0'
        }),
{
    let shown = month_text(year, month);
    let digits = text::digits(year as nat, 4);
    let rest = text::digits(month as nat, 2);
    text::law_digits_name_the_number(year as nat, 4);
    text::law_digits_name_the_number(month as nat, 2);
    reveal_strlit("-");
    assert(text::digits(month as nat / 10, 1).len() == 1);
    assert(rest.len() == 2);
    assert(shown.take(shown.len() - 3) =~= digits);
    assert(shown.skip(shown.len() - 2) =~= rest);
}

/// A year before 0 has its sign in front, and at least three digits.
pub proof fn law_month_text_keeps_the_sign(year: int, month: int)
    requires
        year < 0,
        1 <= month <= 12,
    ensures
        ({
            let shown = month_text(year, month);
            let split = shown.len() - 3;
            &&& split >= 4
            &&& shown[0] == '-'
            &&& text::number_in(shown.subrange(1, split)) == -year
            &&& shown[split] == '-'
            &&& text::number_in(shown.skip(split + 1)) == month
            &&& split > 4 ==> shown[1] != '0'
        }),
{
    let shown = month_text(year, month);
    let digits = text::digits((-year) as nat, 3);
    let rest = text::digits(month as nat, 2);
    text::law_digits_name_the_number((-year) as nat, 3);
    text::law_digits_name_the_number(month as nat, 2);
    reveal_strlit("-");
    assert(text::digits(month as nat / 10, 1).len() == 1);
    assert(rest.len() == 2);
    assert(shown.subrange(1, shown.len() - 3) =~= digits);
    assert(shown.skip(shown.len() - 2) =~= rest);
}

/// The month in the monthly report is the one of today.
pub proof fn law_monthly_report_names_its_month(
    report: MonthlyReport,
    sessions: Seq<TimedSession>,
    today: Date,
    name: Seq<char>,
)
    requires
        report.reports(sessions, today, name),
    ensures
        report.month@ == month_text(
            calendar::ymd_of(today.day as int).0,
            calendar::ymd_of(today.day as int).1,
        ),
{
}

/// The yearly report tells of all days of its year; its longest streak is the
/// longest of all years.
pub proof fn law_year_tells_of_its_days(
    report: YearlyReport,
    sessions: Seq<TimedSession>,
    year: int,
    name: Seq<char>,
    hour: int,
    weekday: int,
)
    requires
        report.reports(sessions, year, name),
        0 <= hour < 24,
        0 <= weekday < 7,
    ensures
        ({
            let first = calendar::day_number(year, 1, 1);
            let last = calendar::day_number(year, 12, 31);
            let picked = stats::sessions_within(sessions, first, last);
            let minutes = segments::hour_total(
                picked,
                Date { day: first as i32 },
                Date { day: last as i32 },
                hour,
            );
            let row = report.weekday_distribution@[weekday];
            &&& report.streamer_name@ == name
            &&& report.year == year
            &&& tells_of_range(
                report.session_count as int,
                report.stream_days as int,
                report.total_stream_minutes as int,
                report.longest_session_minutes as int,
                sessions,
                first,
                last,
            )
            &&& streak::is_longest_streak(sessions, report.longest_streak_days as nat)
            &&& report.peak_hour < 24
            &&& minutes <= report.peak_hour_minutes
            &&& hour == report.peak_hour ==> minutes == report.peak_hour_minutes
            &&& hour < report.peak_hour ==> minutes < report.peak_hour_minutes
            &&& report.weekday_distribution@.len() == 7
            &&& row.weekday == weekday
            &&& row.total_minutes == segments::weekday_total(picked, weekday)
            &&& row.session_count == report.session_count
        }),
{
    lemma_tells_of_range(
        sessions,
        calendar::day_number(year, 1, 1),
        calendar::day_number(year, 12, 31),
    );
}

/// Each row of the yearly report has the minutes of the days of its month, and
/// counts those of its days that have a session.
pub proof fn law_month_row_tells_of_its_month(
    report: YearlyReport,
    sessions: Seq<TimedSession>,
    year: int,
    name: Seq<char>,
    month: int,
)
    requires
        report.reports(sessions, year, name),
        1 <= month <= 12,
    ensures
        ({
            let first = calendar::day_number(year, month, 1);
            let last = month_last(year, month);
            let row = report.monthly_stats@[month - 1];
            &&& report.monthly_stats@.len() == 12
            &&& row.month == month
            &&& row.total_minutes == stats::minutes_within(sessions, first, last)
            &&& row.stream_days == stats::days_with_a_session(sessions, first, last).len()
        }),
{
    assert(report.monthly_stats@[month - 1].shows(sessions, year, (month - 1) + 1));
    lemma_month_row(report.monthly_stats@[month - 1], sessions, year, month);
}

/// The months of a year follow one another without a gap, from the first to the
/// last day of the year, and so do the years.
pub proof fn law_months_follow_one_another(year: int, month: int)
    requires
        1 <= month <= 12,
    ensures
        month < 12 ==> month_last(year, month) + 1 == calendar::day_number(year, month + 1, 1),
        month == 12 ==> month_last(year, month) == calendar::day_number(year, 12, 31),
        calendar::day_number(year, 12, 31) + 1 == calendar::day_number(year + 1, 1, 1),
{
}

proof fn lemma_month_row(row: MonthRow, sessions: Seq<TimedSession>, year: int, month: int)
    requires
        row.shows(sessions, year, month),
    ensures
        ({
            let first = calendar::day_number(year, month, 1);
            let last = month_last(year, month);
            &&& row.month == month
            &&& row.total_minutes == stats::minutes_within(sessions, first, last)
            &&& row.stream_days == stats::days_with_a_session(sessions, first, last).len()
        }),
{
    stats::law_live_days_are_counted_once(
        sessions,
        calendar::day_number(year, month, 1),
        month_last(year, month),
    );
}

/// The three busiest months are three different months of the year, with their
/// minutes; they stand in order, the earlier of two equal ones first, and no
/// other month has more minutes than any of them.
pub proof fn law_top_months_have_the_most_minutes(
    report: YearlyReport,
    sessions: Seq<TimedSession>,
    year: int,
    name: Seq<char>,
    month: int,
)
    requires
        report.reports(sessions, year, name),
        1 <= month <= 12,
    ensures
        ({
            let top = report.top_streaming_months@;
            let rows = report.monthly_stats@;
            &&& top.len() == 3
            &&& forall|k: int|
                0 <= k < 3 ==> 1 <= (#[trigger] top[k]).month <= 12 && top[k].total_minutes
                    == rows[top[k].month - 1].total_minutes
            &&& top[0].total_minutes >= top[1].total_minutes >= top[2].total_minutes
            &&& top[0].total_minutes == top[1].total_minutes ==> top[0].month < top[1].month
            &&& top[1].total_minutes == top[2].total_minutes ==> top[1].month < top[2].month
            &&& top[0].month != top[1].month && top[1].month != top[2].month && top[0].month
                != top[2].month
            &&& month != top[0].month && month != top[1].month && month != top[2].month ==> {
                &&& rows[month - 1].total_minutes <= top[2].total_minutes
                &&& rows[month - 1].total_minutes == top[2].total_minutes ==> month > top[2].month
            }
        }),
{
    let top = report.top_streaming_months@;
    let rows = report.monthly_stats@;
    assert(is_row(top[0], rows, top[0].month - 1));
    assert(is_row(top[1], rows, top[1].month - 1));
    assert(is_row(top[2], rows, top[2].month - 1));
    if month != top[0].month && month != top[1].month && month != top[2].month {
        assert(outranks(rows, top[2].month - 1, month - 1));
    }
}

/// The reports that are built are those of the day that the machine's clock
/// shows: the week ends with it, and month and year are its own.
pub proof fn law_reports_go_by_the_clock(
    weekly: WeeklyReport,
    monthly: MonthlyReport,
    yearly: YearlyReport,
    sessions: Seq<LiveSession>,
    name: Seq<char>,
)
    ensures
        is_weekly_report(weekly, sessions, name) ==> exists|now: LocalTime| #[trigger]
            reading::shown_by_clock(now) && weekly.week_end@ == calendar::date_text(now.day())
                && weekly.daily_stats@.len() == calendar::weekday_of(now.day()) + 1,
        is_monthly_report(monthly, sessions, name) ==> exists|now: LocalTime| #[trigger]
            reading::shown_by_clock(now) && monthly.month@ == month_text(
                calendar::ymd_of(now.day()).0,
                calendar::ymd_of(now.day()).1,
            ),
        is_yearly_report(yearly, sessions, name) ==> exists|now: LocalTime| #[trigger]
            reading::shown_by_clock(now) && yearly.year == calendar::ymd_of(now.day()).0,
{
    if is_weekly_report(weekly, sessions, name) {
        let (timed, today) = choose|timed: Seq<TimedSession>, today: Date|
            session::placed(timed, sessions) && today.valid() && today.day >= calendar::EPOCH_DAY
                - 1 && reading::is_today(today.day as int) && #[trigger] weekly.reports(
                timed,
                today,
                name,
            );
        let now = choose|now: LocalTime| #[trigger]
            reading::shown_by_clock(now) && now.valid() && now.day() == today.day;
        assert(reading::shown_by_clock(now));
    }
    if is_monthly_report(monthly, sessions, name) {
        let (timed, today) = choose|timed: Seq<TimedSession>, today: Date|
            session::placed(timed, sessions) && today.valid() && today.day >= calendar::EPOCH_DAY
                - 1 && reading::is_today(today.day as int) && #[trigger] monthly.reports(
                timed,
                today,
                name,
            );
        let now = choose|now: LocalTime| #[trigger]
            reading::shown_by_clock(now) && now.valid() && now.day() == today.day;
        assert(reading::shown_by_clock(now));
    }
    if is_yearly_report(yearly, sessions, name) {
        let (timed, today) = choose|timed: Seq<TimedSession>, today: Date|
            session::placed(timed, sessions) && today.valid() && today.day >= calendar::EPOCH_DAY
                - 1 && reading::is_today(today.day as int) && #[trigger] yearly.reports(
                timed,
                calendar::ymd_of(today.day as int).0,
                name,
            );
        let now = choose|now: LocalTime| #[trigger]
            reading::shown_by_clock(now) && now.valid() && now.day() == today.day;
        assert(reading::shown_by_clock(now));
    }
}

} // verus!
