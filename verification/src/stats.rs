//! Counts and sums over the days of many sessions.
use vstd::prelude::*;

use crate::calendar;
use crate::calendar::Date;
use crate::clock;
use crate::session::{Span, TimedSession, MAX_SESSIONS};
use crate::split;
use crate::split::{get_session_day_seconds, DAY_SECONDS_LIMIT};

verus! {

/// The most seconds that [`MAX_SESSIONS`] sessions can put on one day.
pub const DAY_TOTAL_LIMIT: u64 = 1288490188500000;

/// Whether every session is valid.
pub open spec fn all_valid(sessions: Seq<TimedSession>) -> bool {
    forall|i: int| 0 <= i < sessions.len() ==> (#[trigger] sessions[i]).valid()
}

/// Whether every session is valid, and their number fits the counts of the
/// reports.
pub open spec fn countable(sessions: Seq<TimedSession>) -> bool {
    &&& sessions.len() <= MAX_SESSIONS
    &&& all_valid(sessions)
}

/// Whether some session has the day `day`.
pub open spec fn any_live(sessions: Seq<TimedSession>, day: int) -> bool {
    exists|i: int| 0 <= i < sessions.len() && (#[trigger] sessions[i]).live_on(day)
}

/// The seconds streamed on the day `day`.
pub open spec fn day_total(sessions: Seq<TimedSession>, day: int) -> nat
    decreases sessions.len(),
{
    if sessions.len() == 0 {
        0
    } else {
        day_total(sessions.drop_last(), day) + sessions.last().seconds_on(day)
    }
}

/// The seconds streamed on the days from `first` to `last`.
pub open spec fn seconds_within(sessions: Seq<TimedSession>, first: int, last: int) -> nat
    decreases last - first + 1,
{
    if last < first {
        0
    } else {
        seconds_within(sessions, first, last - 1) + day_total(sessions, last)
    }
}

/// The minutes streamed on the days from `first` to `last`, where each day
/// counts by its whole minutes.
pub open spec fn minutes_within(sessions: Seq<TimedSession>, first: int, last: int) -> nat
    decreases last - first + 1,
{
    if last < first {
        0
    } else {
        minutes_within(sessions, first, last - 1) + day_total(sessions, last) / 60
    }
}

/// How many of the days from `first` to `last` had a session.
pub open spec fn live_days(sessions: Seq<TimedSession>, first: int, last: int) -> nat
    decreases last - first + 1,
{
    if last < first {
        0
    } else {
        live_days(sessions, first, last - 1) + if any_live(sessions, last) {
            1nat
        } else {
            0
        }
    }
}

impl TimedSession {
    /// Whether a day from `first` to `last` belongs to the session.
    pub open spec fn live_within(self, first: int, last: int) -> bool {
        exists|day: int| first <= day <= last && #[trigger] self.live_on(day)
    }

    /// Whether a day of the range belongs to the session.
    pub fn is_live_within(&self, first: Date, last: Date) -> (r: bool)
        requires
            self.valid(),
            first.valid(),
            last.valid(),
        ensures
            r == self.live_within(first.day as int, last.day as int),
    {
        let span: Span = match self.span {
            Some(span) => span,
            None => {
                return false;
            },
        };
        if !span.start.is_before(span.end) {
            return false;
        }
        let begin: i32 = span.start.date_naive().day;
        let end: i32 = span.end.date_naive().day;
        if first.day <= begin && begin <= last.day {
            assert(self.live_on(begin as int));
            return true;
        }
        if begin < end {
            let low: i32 = if first.day > begin {
                first.day
            } else {
                begin + 1
            };
            let high: i32 = if last.day < end {
                last.day
            } else {
                end - 1
            };
            if low <= high {
                assert(self.live_on(low as int));
                return true;
            }
        }
        let r: bool = first.day <= end && end <= last.day && begin != end
            && span.last_day_starts().seconds_until(span.end) > 0;
        if r {
            assert(self.live_on(end as int));
        }
        r
    }
}

/// The sessions with a day from `first` to `last`, in their order.
pub open spec fn sessions_within<'a>(
    sessions: Seq<TimedSession>,
    first: int,
    last: int,
) -> Seq<&'a TimedSession>
    decreases sessions.len(),
{
    if sessions.len() == 0 {
        Seq::empty()
    } else {
        let rest = sessions_within(sessions.drop_last(), first, last);
        if sessions.last().live_within(first, last) {
            rest.push(&sessions.last())
        } else {
            rest
        }
    }
}

/// The sessions with a day in the range, in their order.
pub fn filter_sessions_in_range<'a>(
    sessions: &'a Vec<TimedSession>,
    range_start: Date,
    range_end: Date,
) -> (r: Vec<&'a TimedSession>)
    requires
        all_valid(sessions@),
        range_start.valid(),
        range_end.valid(),
    ensures
        r@ == sessions_within(sessions@, range_start.day as int, range_end.day as int),
{
    let mut picked: Vec<&'a TimedSession> = Vec::new();
    let mut i: usize = 0;
    while i < sessions.len()
        invariant
            i <= sessions@.len(),
            all_valid(sessions@),
            range_start.valid(),
            range_end.valid(),
            picked@ == sessions_within(
                sessions@.take(i as int),
                range_start.day as int,
                range_end.day as int,
            ),
        decreases sessions@.len() - i,
    {
        assert(sessions@.take(i + 1).drop_last() =~= sessions@.take(i as int));
        if sessions[i].is_live_within(range_start, range_end) {
            picked.push(&sessions[i]);
        }
        i = i + 1;
    }
    assert(sessions@.take(i as int) =~= sessions@);
    picked
}

/// The sessions of one day, in their order.
pub fn get_today_sessions<'a>(
    sessions: &'a Vec<TimedSession>,
    today: Date,
) -> (r: Vec<&'a TimedSession>)
    requires
        all_valid(sessions@),
        today.valid(),
    ensures
        r@ == sessions_within(sessions@, today.day as int, today.day as int),
{
    filter_sessions_in_range(sessions, today, today)
}

/// Whether some session has the day.
fn is_any_live(sessions: &Vec<TimedSession>, date: Date) -> (r: bool)
    requires
        all_valid(sessions@),
    ensures
        r == any_live(sessions@, date.day as int),
{
    let mut i: usize = 0;
    while i < sessions.len()
        invariant
            i <= sessions@.len(),
            all_valid(sessions@),
            forall|j: int| 0 <= j < i ==> !(#[trigger] sessions@[j]).live_on(date.day as int),
        decreases sessions@.len() - i,
    {
        if sessions[i].is_live_on(date) {
            return true;
        }
        i = i + 1;
    }
    false
}

/// How many days of the range had a session.
pub(crate) fn count_live_days(sessions: &Vec<TimedSession>, first: Date, last: Date) -> (r: u32)
    requires
        all_valid(sessions@),
        first.valid(),
        last.valid(),
    ensures
        r == live_days(sessions@, first.day as int, last.day as int),
{
    let mut days: u32 = 0;
    let mut current: i32 = first.day;
    while current <= last.day
        invariant
            all_valid(sessions@),
            first.valid(),
            last.valid(),
            first.day <= current,
            current <= last.day + 1 || current == first.day,
            days == live_days(sessions@, first.day as int, current - 1),
            days <= current - first.day,
        decreases last.day + 1 - current,
    {
        if is_any_live(sessions, Date { day: current }) {
            days = days + 1;
        }
        current = current + 1;
    }
    days
}

proof fn lemma_day_total_prefix(sessions: Seq<TimedSession>, i: int, day: int)
    requires
        0 <= i <= sessions.len(),
    ensures
        day_total(sessions.take(i), day) <= day_total(sessions, day),
    decreases sessions.len() - i,
{
    if i < sessions.len() {
        lemma_day_total_prefix(sessions, i + 1, day);
        assert(sessions.take(i + 1).drop_last() =~= sessions.take(i));
    } else {
        assert(sessions.take(i) =~= sessions);
    }
}

proof fn lemma_seconds_within_prefix(sessions: Seq<TimedSession>, first: int, day: int, last: int)
    requires
        first <= day <= last,
    ensures
        seconds_within(sessions, first, day) <= seconds_within(sessions, first, last),
    decreases last - day,
{
    if day < last {
        lemma_seconds_within_prefix(sessions, first, day, last - 1);
    }
}

proof fn lemma_day_total_bounded(sessions: Seq<TimedSession>, day: int)
    requires
        all_valid(sessions),
    ensures
        day_total(sessions, day) <= DAY_SECONDS_LIMIT * sessions.len(),
    decreases sessions.len(),
{
    if sessions.len() > 0 {
        let rest = sessions.drop_last();
        let end = sessions.last();
        assert(end == sessions[sessions.len() - 1]);
        assert forall|i: int| 0 <= i < rest.len() implies (#[trigger] rest[i]).valid() by {
            assert(rest[i] == sessions[i]);
        }
        lemma_day_total_bounded(rest, day);
        if let Some(span) = end.span {
            split::lemma_seconds_bounded(span, day);
        }
    }
}

/// The sums over countable sessions and no more days than a year has fit.
pub proof fn lemma_sums_fit(sessions: Seq<TimedSession>, first: int, last: int)
    requires
        countable(sessions),
        last - first <= 366,
    ensures
        first <= last ==> seconds_within(sessions, first, last) <= DAY_TOTAL_LIMIT * (last - first
            + 1),
        seconds_within(sessions, first, last) <= u64::MAX,
        minutes_within(sessions, first, last) <= seconds_within(sessions, first, last),
        day_total(sessions, last) <= DAY_TOTAL_LIMIT,
    decreases last - first + 1,
{
    lemma_day_total_bounded(sessions, last);
    if first <= last {
        lemma_sums_fit(sessions, first, last - 1);
    }
}

/// Whether the seconds of the week and of the month, up to the day `today`,
/// fit.
pub open spec fn sums_fit(sessions: Seq<TimedSession>, today: int) -> bool {
    &&& seconds_within(sessions, calendar::monday_of(today), today) <= u64::MAX
    &&& seconds_within(sessions, calendar::month_start_of(today), today) <= u64::MAX
}

/// The sums of countable sessions fit on every day.
pub proof fn lemma_today_sums_fit(sessions: Seq<TimedSession>, today: int)
    requires
        countable(sessions),
        calendar::in_calendar(today),
    ensures
        sums_fit(sessions, today),
{
    calendar::lemma_ymd_exists(today);
    lemma_sums_fit(sessions, calendar::monday_of(today), today);
    lemma_sums_fit(sessions, calendar::month_start_of(today), today);
}

/// The seconds streamed on a day.
pub(crate) fn count_day_seconds(sessions: &Vec<TimedSession>, date: Date) -> (r: u64)
    requires
        all_valid(sessions@),
        day_total(sessions@, date.day as int) <= u64::MAX,
    ensures
        r == day_total(sessions@, date.day as int),
{
    let mut total: u64 = 0;
    let mut i: usize = 0;
    while i < sessions.len()
        invariant
            i <= sessions@.len(),
            all_valid(sessions@),
            day_total(sessions@, date.day as int) <= u64::MAX,
            total == day_total(sessions@.take(i as int), date.day as int),
        decreases sessions@.len() - i,
    {
        assert(sessions@.take(i + 1).drop_last() =~= sessions@.take(i as int));
        proof {
            lemma_day_total_prefix(sessions@, i + 1, date.day as int);
        }
        total = total + get_session_day_seconds(&sessions[i], date);
        i = i + 1;
    }
    assert(sessions@.take(i as int) =~= sessions@);
    total
}

/// The seconds streamed on the days of the range.
pub(crate) fn count_seconds_within(sessions: &Vec<TimedSession>, first: Date, last: Date) -> (r: u64)
    requires
        all_valid(sessions@),
        first.valid(),
        last.valid(),
        seconds_within(sessions@, first.day as int, last.day as int) <= u64::MAX,
    ensures
        r == seconds_within(sessions@, first.day as int, last.day as int),
{
    let mut total: u64 = 0;
    let mut current: i32 = first.day;
    while current <= last.day
        invariant
            all_valid(sessions@),
            first.valid(),
            last.valid(),
            first.day <= current,
            current <= last.day + 1 || current == first.day,
            seconds_within(sessions@, first.day as int, last.day as int) <= u64::MAX,
            total == seconds_within(sessions@, first.day as int, current - 1),
        decreases last.day + 1 - current,
    {
        proof {
            lemma_seconds_within_prefix(
                sessions@,
                first.day as int,
                current as int,
                last.day as int,
            );
        }
        total = total + count_day_seconds(sessions, Date { day: current });
        current = current + 1;
    }
    total
}

/// The minutes streamed on the days of the range, each day by its whole
/// minutes.
pub(crate) fn count_minutes_within(sessions: &Vec<TimedSession>, first: Date, last: Date) -> (r: u64)
    requires
        countable(sessions@),
        first.valid(),
        last.valid(),
        last.day - first.day <= 366,
    ensures
        r == minutes_within(sessions@, first.day as int, last.day as int),
{
    let mut total: u64 = 0;
    let mut current: i32 = first.day;
    while current <= last.day
        invariant
            countable(sessions@),
            first.valid(),
            last.valid(),
            last.day - first.day <= 366,
            first.day <= current,
            current <= last.day + 1 || current == first.day,
            total == minutes_within(sessions@, first.day as int, current - 1),
            total <= DAY_TOTAL_LIMIT * (current - first.day),
        decreases last.day + 1 - current,
    {
        proof {
            lemma_sums_fit(sessions@, current as int, current as int);
        }
        total = total + count_day_seconds(sessions, Date { day: current }) / 60;
        current = current + 1;
    }
    total
}

/// How many days of this week, up to today, had a session.
pub fn compute_weekly_live_days(sessions: &Vec<TimedSession>, today: Date) -> (r: u32)
    requires
        all_valid(sessions@),
        today.valid(),
        calendar::in_calendar(calendar::monday_of(today.day as int)),
    ensures
        r == live_days(sessions@, calendar::monday_of(today.day as int), today.day as int),
{
    count_live_days(sessions, today.week_start(), today)
}

/// The seconds streamed this week, up to today.
pub fn compute_weekly_seconds(sessions: &Vec<TimedSession>, today: Date) -> (r: u64)
    requires
        all_valid(sessions@),
        today.valid(),
        calendar::in_calendar(calendar::monday_of(today.day as int)),
        seconds_within(sessions@, calendar::monday_of(today.day as int), today.day as int) <= u64::MAX,
    ensures
        r == seconds_within(sessions@, calendar::monday_of(today.day as int), today.day as int),
{
    count_seconds_within(sessions, today.week_start(), today)
}

/// How many days of this month, up to today, had a session.
pub fn compute_monthly_live_days(sessions: &Vec<TimedSession>, today: Date) -> (r: u32)
    requires
        all_valid(sessions@),
        today.valid(),
    ensures
        r == live_days(sessions@, calendar::month_start_of(today.day as int), today.day as int),
{
    count_live_days(sessions, today.month_start(), today)
}

/// The seconds streamed this month, up to today.
pub fn compute_monthly_seconds(sessions: &Vec<TimedSession>, today: Date) -> (r: u64)
    requires
        all_valid(sessions@),
        today.valid(),
        seconds_within(sessions@, calendar::month_start_of(today.day as int), today.day as int) <= u64::MAX,
    ensures
        r == seconds_within(sessions@, calendar::month_start_of(today.day as int), today.day as int),
{
    count_seconds_within(sessions, today.month_start(), today)
}

/// The seconds streamed today.
pub fn compute_today_seconds(sessions: &Vec<TimedSession>, today: Date) -> (r: u64)
    requires
        all_valid(sessions@),
        day_total(sessions@, today.day as int) <= u64::MAX,
    ensures
        r == day_total(sessions@, today.day as int),
{
    count_day_seconds(sessions, today)
}

/// A session is among those of a range exactly if it is there at all and has
/// a day in the range.
pub proof fn law_range_keeps_its_sessions(
    sessions: Seq<TimedSession>,
    first: int,
    last: int,
    timed: TimedSession,
)
    ensures
        sessions_within(sessions, first, last).contains(&timed) <==> sessions.contains(timed)
            && timed.live_within(first, last),
        sessions_within(sessions, first, last).len() <= sessions.len(),
    decreases sessions.len(),
{
    let picked = sessions_within(sessions, first, last);
    if sessions.len() > 0 {
        let rest = sessions.drop_last();
        let kept = sessions_within(rest, first, last);
        law_range_keeps_its_sessions(rest, first, last, timed);
        if picked.contains(&timed) {
            let i = choose|i: int| 0 <= i < picked.len() && picked[i] == &timed;
            if i < kept.len() {
                assert(kept[i] == &timed);
                let j = choose|j: int| 0 <= j < rest.len() && rest[j] == timed;
                assert(sessions[j] == timed);
            } else {
                assert(sessions[sessions.len() - 1] == timed);
            }
        }
        if sessions.contains(timed) && timed.live_within(first, last) {
            let j = choose|j: int| 0 <= j < sessions.len() && sessions[j] == timed;
            if j < rest.len() {
                assert(rest[j] == timed);
                let i = choose|i: int| 0 <= i < kept.len() && kept[i] == &timed;
                assert(picked[i] == &timed);
            } else {
                assert(picked[picked.len() - 1] == &timed);
            }
        }
    }
}

/// A session without a day in a range has no second in it.
pub proof fn law_other_sessions_add_nothing(timed: TimedSession, first: int, last: int, day: int)
    requires
        timed.valid(),
        !timed.live_within(first, last),
        first <= day <= last,
    ensures
        timed.seconds_on(day) == 0,
{
    assert(!timed.live_on(day));
    if let Some(span) = timed.span {
        split::law_parts_hold_all_seconds(span, day);
    }
}

/// Ranges that follow one another add up, in seconds, in minutes and in days.
pub proof fn law_ranges_add_up(sessions: Seq<TimedSession>, first: int, middle: int, last: int)
    requires
        first <= middle + 1,
        middle <= last,
    ensures
        seconds_within(sessions, first, last) == seconds_within(sessions, first, middle)
            + seconds_within(sessions, middle + 1, last),
        minutes_within(sessions, first, last) == minutes_within(sessions, first, middle)
            + minutes_within(sessions, middle + 1, last),
        live_days(sessions, first, last) == live_days(sessions, first, middle) + live_days(
            sessions,
            middle + 1,
            last,
        ),
    decreases last - middle,
{
    if middle < last {
        law_ranges_add_up(sessions, first, middle, last - 1);
    }
}

/// A range has no more days with a session than days, and its whole minutes
/// are no longer than its seconds.
pub proof fn law_range_is_bounded(sessions: Seq<TimedSession>, first: int, last: int)
    requires
        first <= last + 1,
    ensures
        live_days(sessions, first, last) <= last - first + 1,
        60 * minutes_within(sessions, first, last) <= seconds_within(sessions, first, last),
        seconds_within(sessions, first, last) <= 60 * minutes_within(sessions, first, last) + 59 * (
        last - first + 1),
    decreases last - first + 1,
{
    if first <= last {
        law_range_is_bounded(sessions, first, last - 1);
    }
}

/// What is streamed on a day is the sum of what each session has on that day:
/// nothing for no session, and one session more adds exactly its own seconds.
pub proof fn law_each_session_adds_its_seconds(
    sessions: Seq<TimedSession>,
    timed: TimedSession,
    day: int,
)
    ensures
        day_total(Seq::empty(), day) == 0,
        day_total(seq![timed], day) == timed.seconds_on(day),
        day_total(sessions.push(timed), day) == day_total(sessions, day) + timed.seconds_on(day),
{
    assert(sessions.push(timed).drop_last() =~= sessions);
    assert(seq![timed].drop_last() =~= Seq::empty());
    assert(day_total(seq![timed].drop_last(), day) == 0);
}

/// The sums over two lists of sessions add up to those over both lists
/// together, and a day has a session of both lists together exactly if it has
/// one of either.
pub proof fn law_lists_add_up(
    a: Seq<TimedSession>,
    b: Seq<TimedSession>,
    first: int,
    last: int,
)
    ensures
        day_total(a + b, last) == day_total(a, last) + day_total(b, last),
        seconds_within(a + b, first, last) == seconds_within(a, first, last) + seconds_within(
            b,
            first,
            last,
        ),
        any_live(a + b, last) <==> any_live(a, last) || any_live(b, last),
    decreases last - first + 1, b.len(),
{
    lemma_day_lists_add_up(a, b, last);
    if first <= last {
        law_lists_add_up(a, b, first, last - 1);
    }
    if any_live(a, last) {
        let i = choose|i: int| 0 <= i < a.len() && (#[trigger] a[i]).live_on(last);
        assert((a + b)[i].live_on(last));
    }
    if any_live(b, last) {
        let i = choose|i: int| 0 <= i < b.len() && (#[trigger] b[i]).live_on(last);
        assert((a + b)[a.len() + i].live_on(last));
    }
    if any_live(a + b, last) {
        let i = choose|i: int| 0 <= i < (a + b).len() && (#[trigger] (a + b)[i]).live_on(last);
        if i < a.len() {
            assert(a[i].live_on(last));
        } else {
            assert(b[i - a.len()].live_on(last));
        }
    }
}

proof fn lemma_day_lists_add_up(a: Seq<TimedSession>, b: Seq<TimedSession>, day: int)
    ensures
        day_total(a + b, day) == day_total(a, day) + day_total(b, day),
    decreases b.len(),
{
    if b.len() == 0 {
        assert(a + b =~= a);
    } else {
        lemma_day_lists_add_up(a, b.drop_last(), day);
        assert((a + b).drop_last() =~= a + b.drop_last());
        assert((a + b).last() == b.last());
    }
}

/// A range of a single day has the seconds and the whole minutes of that day,
/// and counts it exactly if it has a session; a range without a day has
/// nothing.
pub proof fn law_a_day_is_a_range(sessions: Seq<TimedSession>, day: int, first: int, last: int)
    ensures
        seconds_within(sessions, day, day) == day_total(sessions, day),
        minutes_within(sessions, day, day) == day_total(sessions, day) / 60,
        live_days(sessions, day, day) == if exists|timed: TimedSession|
            sessions.contains(timed) && #[trigger] timed.live_on(day) {
            1nat
        } else {
            0
        },
        last < first ==> {
            &&& seconds_within(sessions, first, last) == 0
            &&& minutes_within(sessions, first, last) == 0
            &&& live_days(sessions, first, last) == 0
        },
{
    assert(seconds_within(sessions, day, day - 1) == 0);
    assert(minutes_within(sessions, day, day - 1) == 0);
    assert(live_days(sessions, day, day - 1) == 0);
    if exists|timed: TimedSession| sessions.contains(timed) && #[trigger] timed.live_on(day) {
        let timed = choose|timed: TimedSession|
            sessions.contains(timed) && #[trigger] timed.live_on(day);
        let i = choose|i: int| 0 <= i < sessions.len() && sessions[i] == timed;
        assert(sessions[i].live_on(day));
    }
    if any_live(sessions, day) {
        let i = choose|i: int| 0 <= i < sessions.len() && (#[trigger] sessions[i]).live_on(day);
        assert(sessions.contains(sessions[i]));
    }
}

/// The days of a range that belong to one of the sessions.
pub open spec fn days_with_a_session(sessions: Seq<TimedSession>, first: int, last: int) -> Set<int> {
    Set::new(
        |day: int|
            first <= day <= last && exists|timed: TimedSession|
                sessions.contains(timed) && #[trigger] timed.live_on(day),
    )
}

/// The live days of a range are as many as the days that belong to one of the
/// sessions, each counted once.
pub proof fn law_live_days_are_counted_once(sessions: Seq<TimedSession>, first: int, last: int)
    ensures
        days_with_a_session(sessions, first, last).finite(),
        live_days(sessions, first, last) == days_with_a_session(sessions, first, last).len(),
    decreases last - first + 1,
{
    let days = days_with_a_session(sessions, first, last);
    if last < first {
        assert(days =~= Set::empty());
    } else {
        law_live_days_are_counted_once(sessions, first, last - 1);
        law_a_day_is_a_range(sessions, last, first, last);
        law_ranges_add_up(sessions, first, last - 1, last);
        let before = days_with_a_session(sessions, first, last - 1);
        if live_days(sessions, last, last) == 1 {
            assert(days =~= before.insert(last));
        } else {
            assert(days =~= before);
        }
    }
}

/// The sessions of a range are the sessions with a day in it, all of them, in
/// their order.
pub proof fn law_range_is_a_filter(sessions: Seq<TimedSession>, first: int, last: int)
    ensures
        sessions_within(sessions, first, last).map_values(|timed: &TimedSession| *timed)
            == sessions.filter(|timed: TimedSession| timed.live_within(first, last)),
    decreases sessions.len(),
{
    reveal(Seq::filter);
    let chosen = |timed: TimedSession| timed.live_within(first, last);
    let picked = sessions_within(sessions, first, last);
    if sessions.len() == 0 {
        assert(picked.map_values(|timed: &TimedSession| *timed) =~= Seq::empty());
    } else {
        let rest = sessions.drop_last();
        law_range_is_a_filter(rest, first, last);
        let kept = sessions_within(rest, first, last);
        if sessions.last().live_within(first, last) {
            assert(picked.map_values(|timed: &TimedSession| *timed) =~= kept.map_values(
                |timed: &TimedSession| *timed,
            ).push(sessions.last()));
        }
    }
}

/// A session has a day in a range exactly if one of the days of the range
/// belongs to it; ranges that follow one another share the days out.
pub proof fn law_a_range_holds_its_days(timed: TimedSession, first: int, middle: int, last: int)
    requires
        first <= middle + 1,
        middle <= last,
    ensures
        timed.live_within(first, last) <==> timed.live_within(first, middle) || timed.live_within(
            middle + 1,
            last,
        ),
        timed.live_within(last, last) <==> timed.live_on(last),
        timed.live_within(first, last) ==> exists|day: int|
            first <= day <= last && timed.live_on(day),
{
    if timed.live_within(first, last) {
        let day = choose|day: int| first <= day <= last && #[trigger] timed.live_on(day);
        if day <= middle {
            assert(timed.live_within(first, middle));
        } else {
            assert(timed.live_within(middle + 1, last));
        }
    }
    if timed.live_within(first, middle) {
        let day = choose|day: int| first <= day <= middle && #[trigger] timed.live_on(day);
        assert(timed.live_on(day));
    }
    if timed.live_within(middle + 1, last) {
        let day = choose|day: int| middle + 1 <= day <= last && #[trigger] timed.live_on(day);
        assert(timed.live_on(day));
    }
    if timed.live_on(last) {
        assert(timed.live_within(last, last));
    }
}

/// The lengths of the sessions together, each from its start to its end.
pub open spec fn lengths(sessions: Seq<TimedSession>) -> int {
    sessions.fold_left(
        0int,
        |sum: int, timed: TimedSession|
            sum + match timed.span {
                Some(span) => clock::seconds_between(span.start, span.end),
                None => 0,
            },
    )
}

/// Whether the session lies on a clock that does not shift, from a whole
/// second on, with no leap second, and all its days lie in the range.
pub open spec fn plain_within(timed: TimedSession, first: int, last: int) -> bool {
    &&& timed.valid()
    &&& timed.span matches Some(span) ==> {
        &&& span.steady()
        &&& span.start.nanos == 0
        &&& span.end.nanos < clock::NANOS_PER_SECOND
        &&& first <= span.first_day()
        &&& span.last_day() <= last
    }
}

proof fn lemma_plain_session(timed: TimedSession, first: int, day: int)
    requires
        timed.valid(),
        timed.span matches Some(span) ==> {
            &&& span.steady()
            &&& span.start.nanos == 0
            &&& span.end.nanos < clock::NANOS_PER_SECOND
            &&& first <= span.first_day()
        },
        first <= day + 1,
    ensures
        seconds_within(seq![timed], first, day) == match timed.span {
            Some(span) => if day < span.first_day() || !span.forward() {
                0
            } else if day < span.last_day() {
                span.first_day_seconds() + 86400 * (day - span.first_day())
            } else {
                clock::seconds_between(span.start, span.end)
            },
            None => 0,
        },
    decreases day - first + 1,
{
    if first <= day {
        lemma_plain_session(timed, first, day - 1);
        law_each_session_adds_its_seconds(Seq::empty(), timed, day);
        if let Some(span) = timed.span {
            split::lemma_seconds_bounded(span, day);
        }
    }
}

/// Over a range that holds all days of the sessions, what is streamed is the
/// sum of their lengths, on a clock that does not shift and for sessions that
/// start on a whole second.
pub proof fn law_seconds_are_the_lengths(sessions: Seq<TimedSession>, first: int, last: int)
    requires
        first <= last,
        forall|i: int|
            0 <= i < sessions.len() ==> plain_within(#[trigger] sessions[i], first, last),
    ensures
        seconds_within(sessions, first, last) == lengths(sessions),
    decreases sessions.len(),
{
    if sessions.len() == 0 {
        lemma_no_session_no_second(first, last);
        assert(sessions =~= Seq::empty());
    } else {
        let rest = sessions.drop_last();
        let timed = sessions.last();
        assert(timed == sessions[sessions.len() - 1]);
        assert forall|i: int| 0 <= i < rest.len() implies plain_within(
            #[trigger] rest[i],
            first,
            last,
        ) by {
            assert(rest[i] == sessions[i]);
        }
        law_seconds_are_the_lengths(rest, first, last);
        assert(sessions =~= rest + seq![timed]);
        law_lists_add_up(rest, seq![timed], first, last);
        lemma_plain_session(timed, first, last);
        reveal(Seq::fold_left);
    }
}

proof fn lemma_no_session_no_second(first: int, last: int)
    ensures
        seconds_within(Seq::empty(), first, last) == 0,
    decreases last - first + 1,
{
    if first <= last {
        lemma_no_session_no_second(first, last - 1);
    }
}

/// All of the numbers together.
pub open spec fn total_of(values: Seq<int>) -> int {
    values.fold_left(0int, |sum: int, value: int| sum + value)
}

/// One number more adds itself.
pub proof fn lemma_total_of(values: Seq<int>)
    ensures
        total_of(Seq::empty()) == 0,
        values.len() > 0 ==> total_of(values) == total_of(values.drop_last()) + values.last(),
{
    reveal(Seq::fold_left);
}

} // verus!
