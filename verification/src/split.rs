//! Sessions cut at the turns of the day.
use vstd::prelude::*;

use crate::calendar::Date;
use crate::clock;
use crate::clock::LocalTime;
use crate::session::{Span, TimedSession};

verus! {

/// More seconds than one local day can hold, whatever its clock does.
pub const DAY_SECONDS_LIMIT: u64 = 300000;

impl Span {
    /// The seconds that fall on the first of several days.
    pub open spec fn first_day_seconds(self) -> int {
        clock::seconds_between(self.start, self.first_day_end()) + 1
    }

    /// The seconds that fall on the last of several days.
    pub open spec fn last_day_seconds(self) -> int {
        clock::seconds_between(self.last_day_start(), self.end)
    }

    /// The seconds that fall on the day `day`.
    pub open spec fn seconds_on(self, day: int) -> int {
        if !self.forward() {
            0
        } else if !self.crosses() {
            if day == self.first_day() {
                clock::seconds_between(self.start, self.end)
            } else {
                0
            }
        } else if day == self.first_day() {
            self.first_day_seconds()
        } else if day == self.last_day() {
            self.last_day_seconds()
        } else if self.first_day() < day < self.last_day() {
            86400
        } else {
            0
        }
    }

    /// Whether the day `day` belongs to the stretch. The last of several
    /// days does only if a whole second falls on it.
    pub open spec fn covers(self, day: int) -> bool {
        &&& self.forward()
        &&& {
            ||| day == self.first_day()
            ||| self.first_day() < day < self.last_day()
            ||| day == self.last_day() && self.last_day_seconds() > 0
        }
    }

    /// How many days lie strictly between the first and the last.
    pub open spec fn middle_days(self) -> nat {
        if self.last_day() > self.first_day() + 1 {
            (self.last_day() - self.first_day() - 1) as nat
        } else {
            0
        }
    }

    /// The days of the stretch in order, each with its seconds.
    pub open spec fn day_parts(self) -> Seq<(Date, u64)> {
        if !self.forward() {
            Seq::empty()
        } else if !self.crosses() {
            seq![part(self, self.first_day())]
        } else {
            let whole = Seq::new(1 + self.middle_days(), |i: int| part(self, self.first_day() + i));
            if self.last_day_seconds() > 0 {
                whole.push(part(self, self.last_day()))
            } else {
                whole
            }
        }
    }
}

/// The day `day` with the seconds that fall on it.
pub open spec fn part(span: Span, day: int) -> (Date, u64) {
    (Date { day: day as i32 }, span.seconds_on(day) as u64)
}

/// The seconds on any day are a small number.
pub proof fn lemma_seconds_bounded(span: Span, day: int)
    requires
        span.valid(),
    ensures
        0 <= span.seconds_on(day) < DAY_SECONDS_LIMIT,
{
}

/// Cuts a stretch of time into the days of the local clock.
pub fn split_session_by_day(span: Span) -> (r: Vec<(Date, u64)>)
    requires
        span.valid(),
    ensures
        r@ == span.day_parts(),
{
    let mut parts: Vec<(Date, u64)> = Vec::new();
    if !span.start.is_before(span.end) {
        return parts;
    }
    let first: Date = span.start.date_naive();
    let last: Date = span.end.date_naive();
    proof {
        lemma_seconds_bounded(span, first.day as int);
        lemma_seconds_bounded(span, last.day as int);
    }
    if first == last {
        parts.push((first, span.start.seconds_until(span.end) as u64));
        assert(parts@ =~= span.day_parts());
        return parts;
    }
    let first_day_end: LocalTime = span.first_day_ends();
    parts.push((first, span.start.seconds_until(first_day_end) as u64 + 1));
    let mut current: i32 = first.day + 1;
    while current < last.day
        invariant
            span.valid(),
            span.forward(),
            span.crosses(),
            first.day == span.first_day(),
            last.day == span.last_day(),
            first.valid(),
            last.valid(),
            first.day < current,
            current <= last.day || current == first.day + 1,
            parts@.len() == current - first.day,
            forall|i: int|
                0 <= i < parts@.len() ==> parts@[i] == part(span, first.day + i),
        decreases last.day - current,
    {
        parts.push((Date { day: current }, 86400));
        current = current + 1;
    }
    let last_day_start: LocalTime = span.last_day_starts();
    let rest: u64 = last_day_start.seconds_until(span.end) as u64;
    if rest > 0 {
        parts.push((last, rest));
    }
    assert(parts@ =~= span.day_parts());
    parts
}

impl Span {
    /// The seconds that fall on a day.
    pub fn seconds_of(self, date: Date) -> (r: u64)
        requires
            self.valid(),
        ensures
            r == self.seconds_on(date.day as int),
            r < DAY_SECONDS_LIMIT,
    {
        proof {
            lemma_seconds_bounded(self, date.day as int);
        }
        if !self.start.is_before(self.end) {
            return 0;
        }
        let first: Date = self.start.date_naive();
        let last: Date = self.end.date_naive();
        if first == last {
            if date == first {
                self.start.seconds_until(self.end) as u64
            } else {
                0
            }
        } else if date == first {
            self.start.seconds_until(self.first_day_ends()) as u64 + 1
        } else if date == last {
            self.last_day_starts().seconds_until(self.end) as u64
        } else if first.day < date.day && date.day < last.day {
            86400
        } else {
            0
        }
    }

    /// Whether a day belongs to the stretch.
    pub fn covers_date(self, date: Date) -> (r: bool)
        requires
            self.valid(),
        ensures
            r == self.covers(date.day as int),
    {
        if !self.start.is_before(self.end) {
            return false;
        }
        let first: Date = self.start.date_naive();
        let last: Date = self.end.date_naive();
        date == first || first.day < date.day && date.day < last.day || date == last && (
        self.last_day_starts().seconds_until(self.end) > 0)
    }
}

impl TimedSession {
    /// The seconds of the session that fall on the day `day`.
    pub open spec fn seconds_on(self, day: int) -> nat {
        match self.span {
            Some(span) => span.seconds_on(day) as nat,
            None => 0,
        }
    }

    /// Whether the day `day` belongs to the session.
    pub open spec fn live_on(self, day: int) -> bool {
        self.span matches Some(span) && span.covers(day)
    }

    /// The days of the session, in order.
    pub open spec fn dates(self) -> Seq<Date> {
        match self.span {
            Some(span) => span.day_parts().map_values(|part: (Date, u64)| part.0),
            None => Seq::empty(),
        }
    }

    /// Whether a day belongs to the session.
    pub fn is_live_on(&self, date: Date) -> (r: bool)
        requires
            self.valid(),
        ensures
            r == self.live_on(date.day as int),
    {
        match self.span {
            Some(span) => span.covers_date(date),
            None => false,
        }
    }
}

/// The seconds of a session that fall on a day.
pub fn get_session_day_seconds(timed: &TimedSession, date: Date) -> (r: u64)
    requires
        timed.valid(),
    ensures
        r == timed.seconds_on(date.day as int),
        r < DAY_SECONDS_LIMIT,
{
    match timed.span {
        Some(span) => span.seconds_of(date),
        None => 0,
    }
}

/// The days that a session covers, in order.
pub fn get_session_dates(timed: &TimedSession) -> (r: Vec<Date>)
    requires
        timed.valid(),
    ensures
        r@ == timed.dates(),
{
    let mut dates: Vec<Date> = Vec::new();
    if let Some(span) = timed.span {
        let parts: Vec<(Date, u64)> = split_session_by_day(span);
        let mut i: usize = 0;
        while i < parts.len()
            invariant
                i <= parts@.len(),
                dates@ == parts@.take(i as int).map_values(|part: (Date, u64)| part.0),
            decreases parts@.len() - i,
        {
            dates.push(parts[i].0);
            i = i + 1;
        }
        assert(parts@.take(i as int) =~= parts@);
    }
    dates
}

/// The dates of a session are exactly the days that belong to it, each once.
pub proof fn law_dates_are_the_days_covered(timed: TimedSession, date: Date)
    requires
        timed.valid(),
    ensures
        timed.dates().contains(date) <==> timed.live_on(date.day as int),
        timed.dates().no_duplicates(),
{
    if let Some(span) = timed.span {
        let parts = span.day_parts();
        let dates = timed.dates();
        assert forall|i: int| 0 <= i < dates.len() implies #[trigger] dates[i] == parts[i].0 && span.covers(
            dates[i].day as int,
        ) by {}
        if span.covers(date.day as int) {
            let i = if date.day == span.last_day() && span.crosses() {
                dates.len() - 1
            } else {
                date.day - span.first_day()
            };
            assert(dates[i] == date);
        }
    }
}

/// The parts of a stretch are its days, each with the seconds that fall on
/// it, and no second falls on any other day.
pub proof fn law_parts_hold_all_seconds(span: Span, day: int)
    requires
        span.valid(),
    ensures
        span.covers(day) ==> span.day_parts().contains(part(span, day)),
        !span.covers(day) ==> span.seconds_on(day) == 0,
        forall|i: int|
            0 <= i < span.day_parts().len() ==> {
                let (date, secs) = #[trigger] span.day_parts()[i];
                &&& span.covers(date.day as int)
                &&& secs == span.seconds_on(date.day as int)
            },
{
    let parts = span.day_parts();
    if span.covers(day) {
        let i = if day == span.last_day() && span.crosses() {
            parts.len() - 1
        } else {
            day - span.first_day()
        };
        assert(parts[i] == part(span, day));
    }
    assert forall|i: int| 0 <= i < parts.len() implies {
        let (date, secs) = #[trigger] parts[i];
        &&& span.covers(date.day as int)
        &&& secs == span.seconds_on(date.day as int)
    } by {
        lemma_seconds_bounded(span, parts[i].0.day as int);
    }
}

/// All seconds of the parts together.
pub open spec fn parts_total(parts: Seq<(Date, u64)>) -> int
    decreases parts.len(),
{
    if parts.len() == 0 {
        0
    } else {
        parts_total(parts.drop_last()) + parts.last().1
    }
}

proof fn lemma_whole_days_total(span: Span, n: nat)
    requires
        span.valid(),
        span.forward(),
        span.crosses(),
        n <= span.middle_days(),
    ensures
        parts_total(Seq::new(1 + n, |i: int| part(span, span.first_day() + i)))
            == span.first_day_seconds() + 86400 * n,
    decreases n,
{
    lemma_seconds_bounded(span, span.first_day());
    let parts = Seq::new(1 + n, |i: int| part(span, span.first_day() + i));
    if n == 0 {
        assert(parts.drop_last() =~= Seq::empty());
        assert(parts_total(parts.drop_last()) == 0);
    } else {
        lemma_whole_days_total(span, (n - 1) as nat);
        assert(parts.drop_last() =~= Seq::new(n, |i: int| part(span, span.first_day() + i)));
    }
}

/// On a clock that does not shift between start and end, the parts of a
/// stretch add up to its length in whole seconds, up to one second that the
/// rounding of the parts may cost or win; where the start lies on a whole
/// second, they add up exactly.
pub proof fn law_parts_add_up(span: Span)
    requires
        span.valid(),
        span.start.nanos < clock::NANOS_PER_SECOND,
        span.end.nanos < clock::NANOS_PER_SECOND,
        span.end.offset == span.start.offset,
        span.head == span.start.offset,
        span.tail == span.start.offset,
    ensures
        span.forward() ==> {
            let length = clock::seconds_between(span.start, span.end);
            &&& length - 1 <= parts_total(span.day_parts()) <= length + 1
            &&& span.start.nanos == 0 ==> parts_total(span.day_parts()) == length
        },
        !span.forward() ==> parts_total(span.day_parts()) == 0,
{
    if span.forward() {
        let parts = span.day_parts();
        lemma_seconds_bounded(span, span.first_day());
        lemma_seconds_bounded(span, span.last_day());
        if span.crosses() {
            lemma_whole_days_total(span, span.middle_days());
            if span.last_day_seconds() > 0 {
                assert(parts.drop_last() =~= Seq::new(
                    1 + span.middle_days(),
                    |i: int| part(span, span.first_day() + i),
                ));
            }
        } else {
            assert(parts.drop_last() =~= Seq::empty());
            assert(parts_total(parts.drop_last()) == 0);
        }
    }
}

/// A stretch that stays on one day has all its seconds there. One over several
/// days has on its first day the seconds up to the last one of that day, this
/// one too, on its last day those since midnight, and a whole day in between.
pub proof fn law_seconds_fall_on_their_days(span: Span, day: int)
    requires
        span.valid(),
    ensures
        !span.start.precedes(span.end) ==> span.seconds_on(day) == 0,
        span.start.precedes(span.end) && span.start.day() == span.end.day() ==> span.seconds_on(day)
            == if day == span.start.day() {
            clock::seconds_between(span.start, span.end)
        } else {
            0
        },
        span.start.precedes(span.end) && span.start.day() != span.end.day() ==> {
            &&& day == span.start.day() ==> span.seconds_on(day) == clock::seconds_between(
                span.start,
                span.first_day_end(),
            ) + 1
            &&& day == span.end.day() ==> span.seconds_on(day) == clock::seconds_between(
                span.last_day_start(),
                span.end,
            )
            &&& span.start.day() < day < span.end.day() ==> span.seconds_on(day) == 86400
            &&& day != span.start.day() && day != span.end.day() && !(span.start.day() < day
                < span.end.day()) ==> span.seconds_on(day) == 0
        },
{
}

/// A day belongs to a stretch exactly if it is the day of its start, or a whole
/// second of it falls on that day; a stretch without length has no day.
pub proof fn law_days_are_those_with_seconds(span: Span, day: int)
    requires
        span.valid(),
    ensures
        span.covers(day) <==> span.start.precedes(span.end) && (day == span.start.day()
            || span.seconds_on(day) > 0),
{
}

/// A session has the seconds and the days of its stretch, and none without one.
pub proof fn law_session_has_the_days_of_its_stretch(timed: TimedSession, day: int)
    requires
        timed.valid(),
    ensures
        timed.span matches Some(span) ==> {
            &&& timed.seconds_on(day) == span.seconds_on(day)
            &&& timed.live_on(day) <==> span.covers(day)
        },
        timed.span is None ==> timed.seconds_on(day) == 0 && !timed.live_on(day),
{
    if let Some(span) = timed.span {
        lemma_seconds_bounded(span, day);
    }
}

/// The parts of a stretch stand in the order of their days, on a clock that
/// does not go back a day.
pub proof fn law_parts_stand_in_order(span: Span, i: int, j: int)
    requires
        span.valid(),
        span.first_day() <= span.last_day(),
        0 <= i < j < span.day_parts().len(),
    ensures
        span.day_parts()[i].0.day < span.day_parts()[j].0.day,
{
}

} // verus!
