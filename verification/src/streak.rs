//! Runs of days on which something was streamed.
use vstd::prelude::*;

use crate::calendar;
use crate::calendar::Date;
use crate::session::TimedSession;
use crate::split;
use crate::split::get_session_dates;
use crate::stats;

verus! {

/// Whether the dates follow one another, each once.
pub open spec fn increasing(dates: Seq<Date>) -> bool {
    forall|i: int, j: int| 0 <= i < j < dates.len() ==> (#[trigger] dates[i]).day < (
    #[trigger] dates[j]).day
}

/// Whether each of the `n` days up to `last` had a session.
pub open spec fn live_run(sessions: Seq<TimedSession>, last: int, n: nat) -> bool {
    forall|day: int| last - n < day <= last ==> #[trigger] stats::any_live(sessions, day)
}

/// The day that ends the current run: today, or yesterday where today has
/// no session yet.
pub open spec fn run_end(sessions: Seq<TimedSession>, today: int) -> int {
    if stats::any_live(sessions, today) {
        today
    } else {
        today - 1
    }
}

/// Whether exactly `n` days in a row, counted back from today, had a session.
pub open spec fn is_streak(sessions: Seq<TimedSession>, today: int, n: nat) -> bool {
    &&& live_run(sessions, run_end(sessions, today), n)
    &&& !stats::any_live(sessions, run_end(sessions, today) - n)
}

/// How many days in a row, counted back from today, had a session.
pub open spec fn streak_of(sessions: Seq<TimedSession>, today: int) -> nat {
    choose|n: nat| is_streak(sessions, today, n)
}

/// Only one number is the length of the current run.
pub proof fn lemma_streak_unique(sessions: Seq<TimedSession>, today: int, n: nat)
    requires
        is_streak(sessions, today, n),
    ensures
        n == streak_of(sessions, today),
{
    let m = streak_of(sessions, today);
    let end = run_end(sessions, today);
    assert(is_streak(sessions, today, m));
    if m < n {
        assert(stats::any_live(sessions, end - m));
    } else if n < m {
        assert(stats::any_live(sessions, end - n));
    }
}

/// Whether `n` is the length of the longest run of days with a session.
pub open spec fn is_longest_streak(sessions: Seq<TimedSession>, n: nat) -> bool {
    &&& exists|last: int| #[trigger] live_run(sessions, last, n)
    &&& forall|last: int| !(#[trigger] live_run(sessions, last, n + 1))
}

/// Puts a date into its place among the others, unless it is there.
fn insert_date(dates: &mut Vec<Date>, date: Date)
    requires
        increasing(old(dates)@),
    ensures
        increasing(final(dates)@),
        forall|d: Date| #[trigger] final(dates)@.contains(d) <==> d == date || old(dates)@.contains(d),
{
    let ghost before = dates@;
    let mut at: usize = dates.len();
    while at > 0 && dates[at - 1].day >= date.day
        invariant
            at <= dates@.len(),
            dates@ == before,
            increasing(before),
            forall|i: int| at <= i < dates@.len() ==> (#[trigger] dates@[i]).day >= date.day,
        decreases at,
    {
        at = at - 1;
    }
    if at < dates.len() && dates[at] == date {
        assert(before.contains(before[at as int]));
        return;
    }
    dates.insert(at, date);
    assert(dates@ =~= before.insert(at as int, date));
    assert forall|d: Date| #[trigger] dates@.contains(d) <==> d == date || before.contains(d) by {
        if before.contains(d) {
            let i = choose|i: int| 0 <= i < before.len() && before[i] == d;
            let moved = if i < at {
                i
            } else {
                i + 1
            };
            assert(dates@[moved] == d);
        }
        if d == date {
            assert(dates@[at as int] == d);
        }
        if dates@.contains(d) && d != date {
            let i = choose|i: int| 0 <= i < dates@.len() && dates@[i] == d;
            let moved = if i < at {
                i
            } else {
                i - 1
            };
            assert(before[moved] == d);
        }
    }
}

/// All days on which something was streamed, in order.
fn live_dates(sessions: &Vec<TimedSession>) -> (r: Vec<Date>)
    requires
        stats::all_valid(sessions@),
    ensures
        increasing(r@),
        forall|d: Date| #[trigger] r@.contains(d) <==> stats::any_live(sessions@, d.day as int),
        forall|i: int| 0 <= i < r@.len() ==> (#[trigger] r@[i]).valid(),
{
    let mut dates: Vec<Date> = Vec::new();
    let mut i: usize = 0;
    while i < sessions.len()
        invariant
            i <= sessions@.len(),
            stats::all_valid(sessions@),
            increasing(dates@),
            forall|d: Date| #[trigger]
                dates@.contains(d) <==> exists|j: int|
                    0 <= j < i && (#[trigger] sessions@[j]).live_on(d.day as int),
        decreases sessions@.len() - i,
    {
        let own: Vec<Date> = get_session_dates(&sessions[i]);
        let ghost before = dates@;
        let mut k: usize = 0;
        while k < own.len()
            invariant
                k <= own@.len(),
                increasing(dates@),
                forall|d: Date| #[trigger]
                    dates@.contains(d) <==> before.contains(d) || own@.take(k as int).contains(d),
            decreases own@.len() - k,
        {
            let ghost previous = dates@;
            insert_date(&mut dates, own[k]);
            assert(own@.take(k + 1) =~= own@.take(k as int).push(own@[k as int]));
            assert forall|d: Date| #[trigger]
                dates@.contains(d) <==> before.contains(d) || own@.take(k + 1).contains(d) by {
                assert(dates@.contains(d) <==> d == own@[k as int] || previous.contains(d));
                let longer = own@.take(k + 1);
                if longer.contains(d) {
                    let j = choose|j: int| 0 <= j < longer.len() && longer[j] == d;
                    if j < k {
                        assert(own@.take(k as int)[j] == d);
                    }
                }
                if own@.take(k as int).contains(d) {
                    let shorter = own@.take(k as int);
                    let j = choose|j: int| 0 <= j < shorter.len() && shorter[j] == d;
                    assert(longer[j] == d);
                }
                if d == own@[k as int] {
                    assert(longer[k as int] == d);
                }
            }
            k = k + 1;
        }
        assert(own@.take(k as int) =~= own@);
        assert forall|d: Date| #[trigger]
            dates@.contains(d) <==> exists|j: int|
                0 <= j < i + 1 && (#[trigger] sessions@[j]).live_on(d.day as int) by {
            split::law_dates_are_the_days_covered(sessions@[i as int], d);
            if sessions@[i as int].live_on(d.day as int) {
                assert(sessions@[i as int].live_on(d.day as int));
            }
        }
        i = i + 1;
    }
    assert forall|j: int| 0 <= j < dates@.len() implies (#[trigger] dates@[j]).valid() by {
        assert(dates@.contains(dates@[j]));
        let n = choose|n: int|
            0 <= n < sessions@.len() && (#[trigger] sessions@[n]).live_on(dates@[j].day as int);
        assert(sessions@[n].valid());
    }
    dates
}

/// A day with a session lies in the calendar.
proof fn lemma_live_in_calendar(sessions: Seq<TimedSession>, day: int)
    requires
        stats::all_valid(sessions),
        stats::any_live(sessions, day),
    ensures
        calendar::in_calendar(day),
{
    let i = choose|i: int| 0 <= i < sessions.len() && (#[trigger] sessions[i]).live_on(day);
    assert(sessions[i].valid());
}

/// A list of all days with a session, where they end before place `at`, shows
/// that there is none between the day before `at` and a day `day` after it.
proof fn lemma_no_day_between(
    sessions: Seq<TimedSession>,
    dates: Seq<Date>,
    at: int,
    day: int,
)
    requires
        stats::all_valid(sessions),
        increasing(dates),
        forall|d: Date| #[trigger] dates.contains(d) <==> stats::any_live(sessions, d.day as int),
        0 <= at <= dates.len(),
        at > 0 ==> dates[at - 1].day < day,
        at < dates.len() ==> day < dates[at].day,
    ensures
        !stats::any_live(sessions, day),
{
    if stats::any_live(sessions, day) {
        lemma_live_in_calendar(sessions, day);
        let date = Date { day: day as i32 };
        assert(dates.contains(date));
        let i = choose|i: int| 0 <= i < dates.len() && dates[i] == date;
        if i < at {
            assert(i == at - 1 || dates[i].day < dates[at - 1].day);
        } else {
            assert(i == at || dates[at].day < dates[i].day);
        }
    }
}

/// How many days in a row, counted back from today, had a session. While
/// today has none yet, the count begins with yesterday.
pub fn compute_streak(sessions: &Vec<TimedSession>, today: Date) -> (r: u32)
    requires
        stats::all_valid(sessions@),
        today.valid(),
    ensures
        is_streak(sessions@, today.day as int, r as nat),
        r == streak_of(sessions@, today.day as int),
{
    let dates: Vec<Date> = live_dates(sessions);
    let mut at: usize = dates.len();
    while at > 0 && dates[at - 1].day > today.day
        invariant
            at <= dates@.len(),
            forall|i: int| at <= i < dates@.len() ==> (#[trigger] dates@[i]).day > today.day,
        decreases at,
    {
        at = at - 1;
    }
    if at == 0 || dates[at - 1].day < today.day - 1 {
        proof {
            lemma_no_day_between(sessions@, dates@, at as int, today.day as int);
            lemma_no_day_between(sessions@, dates@, at as int, today.day - 1);
            lemma_streak_unique(sessions@, today.day as int, 0);
        }
        return 0;
    }
    let ghost last = dates@[at - 1].day as int;
    proof {
        assert(dates@.contains(dates@[at - 1]));
        if last < today.day {
            lemma_no_day_between(sessions@, dates@, at as int, today.day as int);
        }
    }
    let mut days: u32 = 1;
    while at >= 2 && dates[at - 2].day == dates[at - 1].day - 1
        invariant
            1 <= at <= dates@.len(),
            increasing(dates@),
            forall|d: Date| #[trigger]
                dates@.contains(d) <==> stats::any_live(sessions@, d.day as int),
            forall|i: int| 0 <= i < dates@.len() ==> (#[trigger] dates@[i]).valid(),
            calendar::in_calendar(last),
            1 <= days,
            dates@[at - 1].day == last - days + 1,
            live_run(sessions@, last, days as nat),
        decreases at,
    {
        assert(dates@.contains(dates@[at - 2]));
        at = at - 1;
        days = days + 1;
    }
    proof {
        lemma_no_day_between(sessions@, dates@, at - 1, last - days);
        lemma_streak_unique(sessions@, today.day as int, days as nat);
    }
    days
}

/// The length of the longest run of days with a session.
pub fn compute_longest_streak(sessions: &Vec<TimedSession>) -> (r: u32)
    requires
        stats::all_valid(sessions@),
    ensures
        is_longest_streak(sessions@, r as nat),
{
    let dates: Vec<Date> = live_dates(sessions);
    if dates.len() == 0 {
        proof {
            assert(live_run(sessions@, 0, 0));
            assert forall|last: int| !(#[trigger] live_run(sessions@, last, 1)) by {
                lemma_no_day_between(sessions@, dates@, 0, last);
            }
        }
        return 0;
    }
    let mut longest: u32 = 1;
    let mut current: u32 = 1;
    let mut at: usize = 1;
    let ghost mut longest_end: int = dates@[0].day as int;
    proof {
        assert(dates@.contains(dates@[0]));
        lemma_no_day_between(sessions@, dates@, 0, dates@[0].day - 1);
        assert forall|last: int| last <= dates@[0].day implies !(#[trigger] live_run(
            sessions@,
            last,
            2,
        )) by {
            if live_run(sessions@, last, 2) {
                assert(stats::any_live(sessions@, last));
                assert(stats::any_live(sessions@, last - 1));
                lemma_no_day_between(sessions@, dates@, 0, last - 1);
            }
        }
    }
    while at < dates.len()
        invariant
            1 <= at <= dates@.len(),
            stats::all_valid(sessions@),
            increasing(dates@),
            forall|d: Date| #[trigger]
                dates@.contains(d) <==> stats::any_live(sessions@, d.day as int),
            forall|i: int| 0 <= i < dates@.len() ==> (#[trigger] dates@[i]).valid(),
            1 <= current <= longest,
            current <= at,
            longest <= dates@[at - 1].day - calendar::MIN_DAY + 1,
            live_run(sessions@, longest_end, longest as nat),
            live_run(sessions@, dates@[at - 1].day as int, current as nat),
            !stats::any_live(sessions@, dates@[at - 1].day - current),
            forall|last: int|
                last <= dates@[at - 1].day ==> !(#[trigger] live_run(
                    sessions@,
                    last,
                    longest as nat + 1,
                )),
        decreases dates@.len() - at,
    {
        let ghost previous = dates@[at - 1].day as int;
        let ghost before = longest as nat;
        let ghost day = dates@[at as int].day as int;
        assert(previous < day);
        assert(dates@.contains(dates@[at as int]));
        if dates[at].day - dates[at - 1].day == 1 {
            current = current + 1;
            if current > longest {
                longest = current;
                proof {
                    longest_end = day;
                }
            }
        } else {
            current = 1;
            proof {
                lemma_no_day_between(sessions@, dates@, at as int, day - 1);
            }
        }
        proof {
            assert forall|last: int| last <= day implies !(#[trigger] live_run(
                sessions@,
                last,
                longest as nat + 1,
            )) by {
                if live_run(sessions@, last, longest as nat + 1) {
                    assert(stats::any_live(sessions@, last));
                    if last <= previous {
                        assert(live_run(sessions@, last, before + 1));
                    } else if last < day {
                        lemma_no_day_between(sessions@, dates@, at as int, last);
                    } else {
                        assert(stats::any_live(sessions@, last - current));
                    }
                }
            }
        }
        at = at + 1;
    }
    proof {
        assert forall|last: int| !(#[trigger] live_run(sessions@, last, longest as nat + 1)) by {
            if live_run(sessions@, last, longest as nat + 1) && last > dates@[at - 1].day {
                assert(stats::any_live(sessions@, last));
                lemma_no_day_between(sessions@, dates@, at as int, last);
            }
        }
    }
    longest
}

/// The current run of days is never longer than the longest one.
pub proof fn law_streak_within_longest(
    sessions: Seq<TimedSession>,
    today: int,
    streak: nat,
    longest: nat,
)
    requires
        is_streak(sessions, today, streak),
        is_longest_streak(sessions, longest),
    ensures
        streak <= longest,
{
    if streak > longest {
        assert(live_run(sessions, run_end(sessions, today), longest + 1));
    }
}

proof fn lemma_streak_from(sessions: Seq<TimedSession>, today: int, n: nat)
    requires
        stats::all_valid(sessions),
        calendar::in_calendar(today),
        live_run(sessions, run_end(sessions, today), n),
    ensures
        is_streak(sessions, today, streak_of(sessions, today)),
    decreases today - calendar::MIN_DAY + 2 - n,
{
    let end = run_end(sessions, today);
    if stats::any_live(sessions, end - n) {
        lemma_live_in_calendar(sessions, end - n);
        assert(live_run(sessions, end, n + 1));
        lemma_streak_from(sessions, today, n + 1);
    } else {
        assert(is_streak(sessions, today, n));
    }
}

/// The days of the range from `first` to `last` are live days, all of them,
/// exactly if each has a session.
proof fn lemma_run_is_all_live(sessions: Seq<TimedSession>, last: int, n: nat)
    ensures
        stats::live_days(sessions, last - n + 1, last) <= n,
        stats::live_days(sessions, last - n + 1, last) == n <==> live_run(sessions, last, n),
    decreases n,
{
    let first = last - n + 1;
    stats::law_range_is_bounded(sessions, first, last);
    if n > 0 {
        lemma_run_is_all_live(sessions, last - 1, (n - 1) as nat);
        if live_run(sessions, last, n) {
            assert(stats::any_live(sessions, last));
            assert(live_run(sessions, last - 1, (n - 1) as nat));
        }
        if stats::live_days(sessions, first, last) == n {
            assert(stats::any_live(sessions, last));
            assert forall|day: int| last - n < day <= last implies #[trigger] stats::any_live(
                sessions,
                day,
            ) by {
                if day < last {
                    assert(live_run(sessions, last - 1, (n - 1) as nat));
                }
            }
        }
    }
}

/// The current streak is a run of live days that ends today, or yesterday where
/// today has no session, and it is as long as it can be: the day before it has
/// no session.
pub proof fn law_streak_is_a_run_of_live_days(sessions: Seq<TimedSession>, today: int)
    requires
        stats::all_valid(sessions),
        calendar::in_calendar(today),
    ensures
        ({
            let streak = streak_of(sessions, today);
            let last = if stats::live_days(sessions, today, today) == 1 {
                today
            } else {
                today - 1
            };
            &&& stats::live_days(sessions, last - streak + 1, last) == streak
            &&& stats::live_days(sessions, last - streak, last - streak) == 0
        }),
{
    let streak = streak_of(sessions, today);
    let last = run_end(sessions, today);
    lemma_streak_from(sessions, today, 0);
    lemma_run_is_all_live(sessions, last, streak);
    assert(stats::live_days(sessions, today, today - 1) == 0);
    assert(stats::live_days(sessions, last - streak, last - streak - 1) == 0);
}

/// The longest streak is the length of some run of live days, and no run of
/// live days is longer.
pub proof fn law_longest_streak_is_a_run_of_live_days(
    sessions: Seq<TimedSession>,
    longest: nat,
    last: int,
)
    requires
        is_longest_streak(sessions, longest),
    ensures
        exists|end: int| #[trigger]
            stats::live_days(sessions, end - longest + 1, end) == longest,
        stats::live_days(sessions, last - longest, last) <= longest,
{
    let end = choose|end: int| #[trigger] live_run(sessions, end, longest);
    lemma_run_is_all_live(sessions, end, longest);
    assert(stats::live_days(sessions, end - longest + 1, end) == longest);
    assert(!live_run(sessions, last, longest + 1));
    lemma_run_is_all_live(sessions, last, longest + 1);
}

} // verus!
