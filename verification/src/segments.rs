//! The minutes of the day that sessions fill.
use vstd::prelude::*;

use crate::calendar;
use crate::calendar::Date;
use crate::session::{Span, TimedSession};
use crate::split::get_session_dates;
use crate::text;
use crate::text::fmt_average_start_time;

verus! {

/// The minutes of a day.
pub const DAY_MINUTES: u32 = 1440;

/// The part of a session that lies on one day, as it is reported.
#[derive(Clone, Debug, PartialEq, Eq)]
pub struct Segment {
    pub start_time: String,
    pub end_time: String,
    pub duration_minutes: u64,
    pub crosses_midnight: bool,
}

impl Segment {
    /// Whether this is the segment from minute `piece.0` to minute
    /// `piece.1` of a day.
    pub open spec fn shows(self, piece: (nat, nat), crosses: bool) -> bool {
        &&& self.start_time@ == text::clock_text(piece.0)
        &&& self.end_time@ == text::clock_text(piece.1)
        &&& self.duration_minutes == piece.1 - piece.0
        &&& self.crosses_midnight == crosses
    }

    pub(crate) fn new(from: u32, to: u32, crosses: bool) -> (r: Segment)
        requires
            from <= to,
        ensures
            r.shows((from as nat, to as nat), crosses),
    {
        Segment {
            start_time: fmt_average_start_time(from),
            end_time: fmt_average_start_time(to),
            duration_minutes: (to - from) as u64,
            crosses_midnight: crosses,
        }
    }
}

impl Span {
    /// Whether the local clock does not run backwards over a stretch that
    /// stays on one day.
    pub open spec fn ordered(self) -> bool {
        self.crosses() || self.start.minute_of_day() <= self.end.minute_of_day()
    }

    /// The minutes, from and to, that the stretch fills on the day `day`.
    pub open spec fn piece_on(self, day: int) -> (nat, nat) {
        let from = self.start.minute_of_day();
        let to = self.end.minute_of_day();
        if !self.crosses() {
            (from, to)
        } else if day == self.first_day() {
            (from, DAY_MINUTES as nat)
        } else if day == self.last_day() {
            (0, to)
        } else {
            (0, DAY_MINUTES as nat)
        }
    }

    /// The minutes that the stretch fills on each of its days, in order.
    pub open spec fn pieces(self) -> Seq<(nat, nat)> {
        if !self.crosses() {
            seq![self.piece_on(self.first_day())]
        } else {
            Seq::new(
                1 + self.middle_days(),
                |i: int| self.piece_on(self.first_day() + i),
            ).push(self.piece_on(self.last_day()))
        }
    }

    /// Whether the local clock does not run backwards over a stretch that
    /// stays on one day.
    pub fn is_ordered(self) -> (r: bool)
        requires
            self.valid(),
        ensures
            r == self.ordered(),
    {
        self.start.date_naive() != self.end.date_naive() || self.start.minutes()
            <= self.end.minutes()
    }

    /// The minutes that the stretch fills on a day.
    pub fn piece_of(self, date: Date) -> (r: (u32, u32))
        requires
            self.valid(),
            self.ordered(),
        ensures
            (r.0 as nat, r.1 as nat) == self.piece_on(date.day as int),
            r.0 <= r.1 <= DAY_MINUTES,
    {
        let first: Date = self.start.date_naive();
        let last: Date = self.end.date_naive();
        if first == last {
            (self.start.minutes(), self.end.minutes())
        } else if date == first {
            (self.start.minutes(), DAY_MINUTES)
        } else if date == last {
            (0, self.end.minutes())
        } else {
            (0, DAY_MINUTES)
        }
    }
}

/// Each date of a session has the segment of the same place.
pub proof fn law_dates_have_their_segments(timed: TimedSession, i: int)
    requires
        timed.valid(),
        timed.span is Some,
        0 <= i < timed.dates().len(),
    ensures
        i < timed.span->0.pieces().len(),
        timed.span->0.pieces()[i] == timed.span->0.piece_on(timed.dates()[i].day as int),
{
}

/// The segment of each day that a session fills, in order. A session that
/// stays on one day has a single one; otherwise the first runs to 24:00 and
/// the last begins at 00:00.
pub fn split_session_into_segments(timed: &TimedSession) -> (r: Vec<Segment>)
    requires
        timed.valid(),
        timed.span matches Some(span) ==> span.ordered(),
    ensures
        match timed.span {
            Some(span) => {
                &&& r@.len() == span.pieces().len()
                &&& forall|i: int|
                    0 <= i < r@.len() ==> (#[trigger] r@[i]).shows(span.pieces()[i], span.crosses())
            },
            None => r@.len() == 0,
        },
{
    let mut segments: Vec<Segment> = Vec::new();
    let span: Span = match timed.span {
        Some(span) => span,
        None => {
            return segments;
        },
    };
    let first: Date = span.start.date_naive();
    let last: Date = span.end.date_naive();
    if first == last {
        segments.push(Segment::new(span.start.minutes(), span.end.minutes(), false));
        return segments;
    }
    segments.push(Segment::new(span.start.minutes(), DAY_MINUTES, true));
    let mut current: i32 = first.day + 1;
    while current < last.day
        invariant
            span.valid(),
            span.crosses(),
            first.day == span.first_day(),
            last.day == span.last_day(),
            first.valid(),
            last.valid(),
            first.day < current,
            current <= last.day || current == first.day + 1,
            segments@.len() == current - first.day,
            forall|i: int|
                0 <= i < segments@.len() ==> (#[trigger] segments@[i]).shows(
                    span.piece_on(first.day + i),
                    true,
                ),
        decreases last.day - current,
    {
        segments.push(Segment::new(0, DAY_MINUTES, true));
        current = current + 1;
    }
    segments.push(Segment::new(0, span.end.minutes(), true));
    segments
}

/// The minutes of a piece that lie within the hour `hour` of the day.
pub open spec fn minutes_in_hour(piece: (nat, nat), hour: int) -> nat {
    let from = if piece.0 > 60 * hour {
        piece.0 as int
    } else {
        60 * hour
    };
    let to = if piece.1 < 60 * hour + 60 {
        piece.1 as int
    } else {
        60 * hour + 60
    };
    if from < to {
        (to - from) as nat
    } else {
        0
    }
}

/// The minutes of several pieces that lie within an hour of the day.
pub open spec fn pieces_in_hour(pieces: Seq<(nat, nat)>, hour: int) -> nat
    decreases pieces.len(),
{
    if pieces.len() == 0 {
        0
    } else {
        pieces_in_hour(pieces.drop_last(), hour) + minutes_in_hour(pieces.last(), hour)
    }
}

impl Span {
    /// The day of the piece `i`.
    pub open spec fn piece_day(self, i: int) -> int {
        if i <= self.middle_days() {
            self.first_day() + i
        } else {
            self.last_day()
        }
    }

    /// Those of the first `n` pieces that lie on a day of the range, in order.
    pub open spec fn pieces_within(self, n: nat, start: Date, end: Date) -> Seq<(nat, nat)>
        decreases n,
    {
        if n == 0 {
            Seq::empty()
        } else {
            let rest = self.pieces_within((n - 1) as nat, start, end);
            let day = self.piece_day(n - 1);
            if start.day <= day <= end.day {
                rest.push(self.piece_on(day))
            } else {
                rest
            }
        }
    }

    /// The pieces that lie on a day of the range, in order.
    pub open spec fn pieces_between(self, start: Date, end: Date) -> Seq<(nat, nat)> {
        self.pieces_within(self.pieces().len(), start, end)
    }

    /// Whether the local clock does not run backwards over the stretch, as
    /// far as that matters to the range.
    pub open spec fn ordered_between(self, start: Date, end: Date) -> bool {
        start.day <= self.first_day() <= end.day ==> self.ordered()
    }
}

/// The minutes within an hour of the day, over the days of the range.
pub open spec fn hour_total(
    sessions: Seq<&TimedSession>,
    start: Date,
    end: Date,
    hour: int,
) -> nat
    decreases sessions.len(),
{
    if sessions.len() == 0 {
        0
    } else {
        hour_total(sessions.drop_last(), start, end, hour) + match sessions.last().span {
            Some(span) => pieces_in_hour(span.pieces_between(start, end), hour),
            None => 0,
        }
    }
}

proof fn lemma_pieces_in_hour_bounded(pieces: Seq<(nat, nat)>, hour: int)
    ensures
        pieces_in_hour(pieces, hour) <= 60 * pieces.len(),
    decreases pieces.len(),
{
    if pieces.len() > 0 {
        lemma_pieces_in_hour_bounded(pieces.drop_last(), hour);
    }
}

proof fn lemma_pieces_in_hour_prefix(pieces: Seq<(nat, nat)>, i: int, hour: int)
    requires
        0 <= i <= pieces.len(),
    ensures
        pieces_in_hour(pieces.take(i), hour) <= pieces_in_hour(pieces, hour),
    decreases pieces.len() - i,
{
    if i < pieces.len() {
        lemma_pieces_in_hour_prefix(pieces, i + 1, hour);
        assert(pieces.take(i + 1).drop_last() =~= pieces.take(i));
    } else {
        assert(pieces.take(i) =~= pieces);
    }
}

proof fn lemma_hour_total_prefix(
    sessions: Seq<&TimedSession>,
    i: int,
    start: Date,
    end: Date,
    hour: int,
)
    requires
        0 <= i <= sessions.len(),
    ensures
        hour_total(sessions.take(i), start, end, hour) <= hour_total(sessions, start, end, hour),
    decreases sessions.len() - i,
{
    if i < sessions.len() {
        lemma_hour_total_prefix(sessions, i + 1, start, end, hour);
        assert(sessions.take(i + 1).drop_last() =~= sessions.take(i));
    } else {
        assert(sessions.take(i) =~= sessions);
    }
}

/// The pieces that follow one another fill each day of a range once.
proof fn lemma_pieces_within_length(span: Span, n: nat, start: Date, end: Date)
    requires
        start.day <= end.day,
        n <= 1 + span.middle_days(),
    ensures
        span.pieces_within(n, start, end).len() <= end.day - start.day + 1,
        span.first_day() + n <= end.day ==> span.pieces_within(n, start, end).len() <= if span.first_day()
            + n <= start.day {
            0
        } else {
            span.first_day() + n - start.day
        },
    decreases n,
{
    if n > 0 {
        lemma_pieces_within_length(span, (n - 1) as nat, start, end);
    }
}

/// Within a range of no more days than a year has, a session fills an hour of
/// the day with no more than so many minutes.
pub const YEAR_HOUR_LIMIT: u64 = 22080;

/// The hour distribution over no more days than a year has is bounded.
pub proof fn lemma_hour_total_bounded(
    sessions: Seq<&TimedSession>,
    start: Date,
    end: Date,
    hour: int,
)
    requires
        start.day <= end.day <= start.day + 366,
    ensures
        hour_total(sessions, start, end, hour) <= YEAR_HOUR_LIMIT * sessions.len(),
    decreases sessions.len(),
{
    if sessions.len() > 0 {
        lemma_hour_total_bounded(sessions.drop_last(), start, end, hour);
        if let Some(span) = sessions.last().span {
            let pieces = span.pieces_between(start, end);
            lemma_pieces_within_length(span, 1 + span.middle_days(), start, end);
            if span.crosses() {
                assert(span.pieces().len() == 2 + span.middle_days());
            } else {
                assert(span.pieces().len() == 1 + span.middle_days());
            }
            assert(pieces.len() <= 368);
            lemma_pieces_in_hour_bounded(pieces, hour);
        }
    }
}

impl Span {
    /// The pieces that lie on a day of the range, in order.
    fn list_pieces(self, start: Date, end: Date) -> (r: Vec<(u32, u32)>)
        requires
            self.valid(),
            self.ordered_between(start, end),
        ensures
            r@.map_values(|p: (u32, u32)| (p.0 as nat, p.1 as nat)) == self.pieces_between(
                start,
                end,
            ),
    {
        let mut pieces: Vec<(u32, u32)> = Vec::new();
        let first: Date = self.start.date_naive();
        let last: Date = self.end.date_naive();
        assert(self.pieces_within(0, start, end) =~= Seq::empty());
        if start.day <= first.day && first.day <= end.day {
            pieces.push(self.piece_of(first));
        }
        assert(pieces@.map_values(|p: (u32, u32)| (p.0 as nat, p.1 as nat)) =~= self.pieces_within(
            1,
            start,
            end,
        ));
        if first == last {
            return pieces;
        }
        let mut current: i32 = first.day + 1;
        while current < last.day
            invariant
                self.valid(),
                self.crosses(),
                first.day == self.first_day(),
                last.day == self.last_day(),
                first.valid(),
                last.valid(),
                first.day < current,
                current <= last.day || current == first.day + 1,
                pieces@.map_values(|p: (u32, u32)| (p.0 as nat, p.1 as nat)) == self.pieces_within(
                    (current - first.day) as nat,
                    start,
                    end,
                ),
            decreases last.day - current,
        {
            let ghost before = pieces@.map_values(|p: (u32, u32)| (p.0 as nat, p.1 as nat));
            if start.day <= current && current <= end.day {
                pieces.push((0, DAY_MINUTES));
                assert(pieces@.map_values(|p: (u32, u32)| (p.0 as nat, p.1 as nat)) =~= before.push(
                    (0, DAY_MINUTES as nat),
                ));
            }
            current = current + 1;
        }
        let ghost before = pieces@.map_values(|p: (u32, u32)| (p.0 as nat, p.1 as nat));
        if start.day <= last.day && last.day <= end.day {
            let piece: (u32, u32) = self.piece_of(last);
            pieces.push(piece);
            assert(pieces@.map_values(|p: (u32, u32)| (p.0 as nat, p.1 as nat)) =~= before.push(
                (piece.0 as nat, piece.1 as nat),
            ));
        }
        assert(self.pieces().len() == 2 + self.middle_days());
        pieces
    }
}

/// The minutes of a piece that lie within an hour of the day.
fn overlap(piece: (u32, u32), hour: u32) -> (r: u64)
    requires
        hour < 24,
    ensures
        r == minutes_in_hour((piece.0 as nat, piece.1 as nat), hour as int),
        r <= 60,
{
    let from: u32 = if piece.0 > 60 * hour {
        piece.0
    } else {
        60 * hour
    };
    let to: u32 = if piece.1 < 60 * hour + 60 {
        piece.1
    } else {
        60 * hour + 60
    };
    if from < to {
        (to - from) as u64
    } else {
        0
    }
}

/// Adds the minutes of a piece to the hours in which they lie.
fn add_piece(hours: &mut [u64; 24], piece: (u32, u32))
    requires
        forall|h: int|
            0 <= h < 24 ==> #[trigger] old(hours)@[h] + minutes_in_hour(
                (piece.0 as nat, piece.1 as nat),
                h,
            ) <= u64::MAX,
    ensures
        forall|h: int|
            0 <= h < 24 ==> #[trigger] final(hours)@[h] == old(hours)@[h] + minutes_in_hour(
                (piece.0 as nat, piece.1 as nat),
                h,
            ),
{
    let mut hour: usize = 0;
    while hour < 24
        invariant
            hour <= 24,
            forall|h: int|
                0 <= h < 24 ==> #[trigger] old(hours)@[h] + minutes_in_hour(
                    (piece.0 as nat, piece.1 as nat),
                    h,
                ) <= u64::MAX,
            forall|h: int|
                0 <= h < 24 ==> #[trigger] hours@[h] == old(hours)@[h] + if h < hour {
                    minutes_in_hour((piece.0 as nat, piece.1 as nat), h)
                } else {
                    0
                },
        decreases 24 - hour,
    {
        assert(hours@[hour as int] == old(hours)@[hour as int]);
        hours[hour] = hours[hour] + overlap(piece, hour as u32);
        hour = hour + 1;
    }
}

/// The minutes streamed within each hour of the day, on the days of the range.
pub fn compute_hour_distribution(
    sessions: &Vec<&TimedSession>,
    start: Date,
    end: Date,
) -> (r: [u64; 24])
    requires
        forall|i: int| 0 <= i < sessions@.len() ==> (#[trigger] sessions@[i]).valid(),
        forall|i: int|
            0 <= i < sessions@.len() ==> ((#[trigger] sessions@[i]).span matches Some(span)
                ==> span.ordered_between(start, end)),
        forall|h: int|
            0 <= h < 24 ==> #[trigger] hour_total(sessions@, start, end, h) <= u64::MAX,
    ensures
        forall|h: int| 0 <= h < 24 ==> #[trigger] r@[h] == hour_total(sessions@, start, end, h),
{
    let mut hours: [u64; 24] = [0; 24];
    let mut i: usize = 0;
    while i < sessions.len()
        invariant
            i <= sessions@.len(),
            forall|j: int| 0 <= j < sessions@.len() ==> (#[trigger] sessions@[j]).valid(),
            forall|j: int|
                0 <= j < sessions@.len() ==> ((#[trigger] sessions@[j]).span matches Some(span)
                    ==> span.ordered_between(start, end)),
            forall|h: int|
                0 <= h < 24 ==> #[trigger] hour_total(sessions@, start, end, h) <= u64::MAX,
            forall|h: int|
                0 <= h < 24 ==> #[trigger] hours@[h] == hour_total(
                    sessions@.take(i as int),
                    start,
                    end,
                    h,
                ),
        decreases sessions@.len() - i,
    {
        let ghost before = sessions@.take(i as int);
        let ghost after = sessions@.take(i + 1);
        assert(after.drop_last() =~= before);
        assert(after.last() == sessions@[i as int]);
        if let Some(span) = sessions[i].span {
            let pieces: Vec<(u32, u32)> = span.list_pieces(start, end);
            let ghost shown = span.pieces_between(start, end);
            let ghost so_far = hours@;
            let mut k: usize = 0;
            assert(shown.take(0) =~= Seq::empty());
            assert forall|h: int| 0 <= h < 24 implies #[trigger] so_far[h] + pieces_in_hour(shown, h)
                <= u64::MAX by {
                lemma_hour_total_prefix(sessions@, i + 1, start, end, h);
                assert(hour_total(sessions@, start, end, h) <= u64::MAX);
                assert(hour_total(after, start, end, h) == hour_total(before, start, end, h)
                    + pieces_in_hour(shown, h));
            }
            while k < pieces.len()
                invariant
                    k <= pieces@.len(),
                    so_far.len() == 24,
                    shown == pieces@.map_values(|p: (u32, u32)| (p.0 as nat, p.1 as nat)),
                    forall|h: int|
                        0 <= h < 24 ==> #[trigger] so_far[h] + pieces_in_hour(shown, h) <= u64::MAX,
                    forall|h: int|
                        0 <= h < 24 ==> #[trigger] hours@[h] == so_far[h] + pieces_in_hour(
                            shown.take(k as int),
                            h,
                        ),
                decreases pieces@.len() - k,
            {
                let ghost piece = (pieces@[k as int].0 as nat, pieces@[k as int].1 as nat);
                assert(shown.take(k + 1).drop_last() =~= shown.take(k as int));
                assert(shown.take(k + 1).last() == piece);
                assert forall|h: int| 0 <= h < 24 implies #[trigger] hours@[h] + minutes_in_hour(
                    piece,
                    h,
                ) <= u64::MAX by {
                    lemma_pieces_in_hour_prefix(shown, k + 1, h);
                    assert(so_far[h] + pieces_in_hour(shown, h) <= u64::MAX);
                }
                add_piece(&mut hours, pieces[k]);
                k = k + 1;
            }
            assert(shown.take(k as int) =~= shown);
        }
        i = i + 1;
    }
    assert(sessions@.take(i as int) =~= sessions@);
    hours
}

/// The hour with the most minutes and those minutes: the earliest such hour,
/// and hour 0 where there are none at all.
pub fn compute_peak_hour(hour_dist: &[u64; 24]) -> (r: (u32, u64))
    ensures
        r.0 < 24,
        r.1 == hour_dist@[r.0 as int],
        forall|h: int| 0 <= h < 24 ==> #[trigger] hour_dist@[h] <= r.1,
        forall|h: int| 0 <= h < r.0 ==> #[trigger] hour_dist@[h] < r.1,
{
    let mut peak_hour: u32 = 0;
    let mut peak_min: u64 = 0;
    let mut hour: usize = 0;
    while hour < 24
        invariant
            hour <= 24,
            peak_hour < 24,
            peak_hour <= hour,
            peak_min > 0 ==> peak_hour < hour,
            peak_min == 0 ==> peak_hour == 0,
            peak_min > 0 ==> peak_min == hour_dist@[peak_hour as int],
            forall|h: int| 0 <= h < hour ==> #[trigger] hour_dist@[h] <= peak_min,
            forall|h: int| 0 <= h < peak_hour ==> #[trigger] hour_dist@[h] < peak_min,
        decreases 24 - hour,
    {
        if hour_dist[hour] > peak_min {
            peak_min = hour_dist[hour];
            peak_hour = hour as u32;
        }
        hour = hour + 1;
    }
    assert(hour_dist@[0] <= peak_min);
    (peak_hour, peak_min)
}

impl Span {
    /// The minutes that the stretch fills on the day `day`.
    pub open spec fn minutes_on(self, day: int) -> nat {
        let piece = self.piece_on(day);
        if piece.0 < piece.1 {
            (piece.1 - piece.0) as nat
        } else {
            0
        }
    }

    /// The minutes that the stretch fills on those of the given dates that
    /// are the weekday `weekday`.
    pub open spec fn weekday_minutes(self, dates: Seq<Date>, weekday: int) -> nat
        decreases dates.len(),
    {
        if dates.len() == 0 {
            0
        } else {
            let day = dates.last().day as int;
            self.weekday_minutes(dates.drop_last(), weekday) + if calendar::weekday_of(day)
                == weekday {
                self.minutes_on(day)
            } else {
                0
            }
        }
    }
}

/// The minutes that the sessions fill on the weekday `weekday`, Monday
/// being 0.
pub open spec fn weekday_total(sessions: Seq<&TimedSession>, weekday: int) -> nat
    decreases sessions.len(),
{
    if sessions.len() == 0 {
        0
    } else {
        weekday_total(sessions.drop_last(), weekday) + match sessions.last().span {
            Some(span) => span.weekday_minutes(sessions.last().dates(), weekday),
            None => 0,
        }
    }
}

proof fn lemma_weekday_minutes_prefix(span: Span, dates: Seq<Date>, i: int, weekday: int)
    requires
        0 <= i <= dates.len(),
    ensures
        span.weekday_minutes(dates.take(i), weekday) <= span.weekday_minutes(dates, weekday),
    decreases dates.len() - i,
{
    if i < dates.len() {
        lemma_weekday_minutes_prefix(span, dates, i + 1, weekday);
        assert(dates.take(i + 1).drop_last() =~= dates.take(i));
    } else {
        assert(dates.take(i) =~= dates);
    }
}

proof fn lemma_weekday_total_prefix(sessions: Seq<&TimedSession>, i: int, weekday: int)
    requires
        0 <= i <= sessions.len(),
    ensures
        weekday_total(sessions.take(i), weekday) <= weekday_total(sessions, weekday),
    decreases sessions.len() - i,
{
    if i < sessions.len() {
        lemma_weekday_total_prefix(sessions, i + 1, weekday);
        assert(sessions.take(i + 1).drop_last() =~= sessions.take(i));
    } else {
        assert(sessions.take(i) =~= sessions);
    }
}

/// Of two days in a row, only one can be a given day of the week.
proof fn lemma_every_other_day_at_most(span: Span, dates: Seq<Date>, weekday: int)
    requires
        forall|i: int| 0 <= i < dates.len() ==> (#[trigger] dates[i]).day == dates[0].day + i,
        forall|day: int| #[trigger] span.minutes_on(day) <= DAY_MINUTES,
    ensures
        2 * span.weekday_minutes(dates, weekday) <= DAY_MINUTES * (dates.len() + 1),
    decreases dates.len(),
{
    if dates.len() >= 2 {
        let rest = dates.drop_last();
        let before = rest.drop_last();
        assert forall|i: int| 0 <= i < before.len() implies (#[trigger] before[i]).day
            == before[0].day + i by {
            assert(before[i] == dates[i]);
            assert(before[0] == dates[0]);
        }
        lemma_every_other_day_at_most(span, before, weekday);
        assert(rest.last() == dates[dates.len() - 2]);
        assert(dates.last() == dates[dates.len() - 1]);
        assert(calendar::weekday_of(rest.last().day as int) != calendar::weekday_of(
            dates.last().day as int,
        ));
        assert(span.minutes_on(rest.last().day as int) <= DAY_MINUTES);
        assert(span.weekday_minutes(rest, weekday) <= span.weekday_minutes(before, weekday)
            + DAY_MINUTES);
        assert(span.minutes_on(dates.last().day as int) <= DAY_MINUTES);
    } else if dates.len() == 1 {
        assert(span.weekday_minutes(dates.drop_last(), weekday) == 0);
        assert(span.minutes_on(dates.last().day as int) <= DAY_MINUTES);
    }
}

/// More minutes than a session of no more than [`MAX_SPAN_DAYS`] days can
/// fill on one day of the week.
pub const SESSION_WEEKDAY_LIMIT: u64 = 2700000000;

proof fn lemma_session_weekday_bounded(timed: TimedSession, weekday: int)
    requires
        timed.valid(),
        timed.readable(),
        timed.span is Some,
    ensures
        timed.span->0.weekday_minutes(timed.dates(), weekday) <= SESSION_WEEKDAY_LIMIT,
{
    let span = timed.span->0;
    let dates = timed.dates();
    assert forall|day: int| #[trigger] span.minutes_on(day) <= DAY_MINUTES by {}
    if span.forward() {
        if span.crosses() && span.last_day_seconds() > 0 {
            let rest = dates.drop_last();
            assert forall|i: int| 0 <= i < rest.len() implies (#[trigger] rest[i]).day == rest[0].day
                + i by {
                assert(rest[i] == dates[i]);
            }
            lemma_every_other_day_at_most(span, rest, weekday);
            assert(span.minutes_on(dates.last().day as int) <= DAY_MINUTES);
        } else {
            lemma_every_other_day_at_most(span, dates, weekday);
        }
    }
}

/// The weekday distribution is bounded by the number of its sessions.
pub proof fn lemma_weekday_total_bounded(sessions: Seq<&TimedSession>, weekday: int)
    requires
        forall|i: int|
            0 <= i < sessions.len() ==> (#[trigger] sessions[i]).valid() && sessions[i].readable(),
    ensures
        weekday_total(sessions, weekday) <= SESSION_WEEKDAY_LIMIT * sessions.len(),
    decreases sessions.len(),
{
    if sessions.len() > 0 {
        let last = sessions.last();
        let rest = sessions.drop_last();
        assert(last == sessions[sessions.len() - 1]);
        assert forall|i: int| 0 <= i < rest.len() implies (#[trigger] rest[i]).valid()
            && rest[i].readable() by {
            assert(rest[i] == sessions[i]);
        }
        lemma_weekday_total_bounded(rest, weekday);
        if last.span is Some {
            lemma_session_weekday_bounded(*last, weekday);
        }
    }
}

/// A valid session has valid dates, and no more than the calendar.
pub proof fn lemma_dates_valid(timed: TimedSession)
    requires
        timed.valid(),
    ensures
        forall|i: int| 0 <= i < timed.dates().len() ==> (#[trigger] timed.dates()[i]).valid(),
        timed.dates().len() <= 200000000,
{
}

/// The minutes streamed on each day of the week, Monday first. A session
/// counts with all of its days.
pub fn compute_weekday_distribution(sessions: &Vec<&TimedSession>) -> (r: [u64; 7])
    requires
        forall|i: int| 0 <= i < sessions@.len() ==> (#[trigger] sessions@[i]).valid(),
        forall|i: int|
            0 <= i < sessions@.len() ==> ((#[trigger] sessions@[i]).span matches Some(span)
                ==> span.ordered()),
        forall|w: int| 0 <= w < 7 ==> #[trigger] weekday_total(sessions@, w) <= u64::MAX,
    ensures
        forall|w: int| 0 <= w < 7 ==> #[trigger] r@[w] == weekday_total(sessions@, w),
{
    let mut dist: [u64; 7] = [0; 7];
    let mut i: usize = 0;
    while i < sessions.len()
        invariant
            i <= sessions@.len(),
            forall|j: int| 0 <= j < sessions@.len() ==> (#[trigger] sessions@[j]).valid(),
            forall|j: int|
                0 <= j < sessions@.len() ==> ((#[trigger] sessions@[j]).span matches Some(span)
                    ==> span.ordered()),
            forall|w: int| 0 <= w < 7 ==> #[trigger] weekday_total(sessions@, w) <= u64::MAX,
            forall|w: int|
                0 <= w < 7 ==> #[trigger] dist@[w] == weekday_total(sessions@.take(i as int), w),
        decreases sessions@.len() - i,
    {
        let ghost before = sessions@.take(i as int);
        let ghost after = sessions@.take(i + 1);
        assert(after.drop_last() =~= before);
        assert(after.last() == sessions@[i as int]);
        if let Some(span) = sessions[i].span {
            let dates: Vec<Date> = get_session_dates(sessions[i]);
            proof {
                lemma_dates_valid(*sessions@[i as int]);
            }
            let ghost so_far = dist@;
            let mut k: usize = 0;
            assert(dates@.take(0) =~= Seq::empty());
            assert forall|w: int| 0 <= w < 7 implies #[trigger] so_far[w] + span.weekday_minutes(
                dates@,
                w,
            ) <= u64::MAX by {
                lemma_weekday_total_prefix(sessions@, i + 1, w);
                assert(weekday_total(sessions@, w) <= u64::MAX);
                assert(weekday_total(after, w) == weekday_total(before, w) + span.weekday_minutes(
                    dates@,
                    w,
                ));
            }
            while k < dates.len()
                invariant
                    k <= dates@.len(),
                    so_far.len() == 7,
                    span.valid(),
                    span.ordered(),
                    forall|j: int| 0 <= j < dates@.len() ==> (#[trigger] dates@[j]).valid(),
                    forall|w: int|
                        0 <= w < 7 ==> #[trigger] so_far[w] + span.weekday_minutes(dates@, w)
                            <= u64::MAX,
                    forall|w: int|
                        0 <= w < 7 ==> #[trigger] dist@[w] == so_far[w] + span.weekday_minutes(
                            dates@.take(k as int),
                            w,
                        ),
                decreases dates@.len() - k,
            {
                assert(dates@.take(k + 1).drop_last() =~= dates@.take(k as int));
                assert(dates@.take(k + 1).last() == dates@[k as int]);
                let date: Date = dates[k];
                let weekday: usize = date.weekday() as usize;
                let piece: (u32, u32) = span.piece_of(date);
                proof {
                    lemma_weekday_minutes_prefix(span, dates@, k + 1, weekday as int);
                    assert(so_far[weekday as int] + span.weekday_minutes(dates@, weekday as int)
                        <= u64::MAX);
                }
                dist[weekday] = dist[weekday] + (piece.1 - piece.0) as u64;
                k = k + 1;
            }
            assert(dates@.take(k as int) =~= dates@);
        }
        i = i + 1;
    }
    assert(sessions@.take(i as int) =~= sessions@);
    dist
}

/// The minutes of several pieces together.
pub open spec fn pieces_total(pieces: Seq<(nat, nat)>) -> int
    decreases pieces.len(),
{
    if pieces.len() == 0 {
        0
    } else {
        pieces_total(pieces.drop_last()) + pieces.last().1 - pieces.last().0
    }
}

proof fn lemma_whole_pieces_total(span: Span, n: nat)
    requires
        span.crosses(),
        n <= span.middle_days(),
    ensures
        pieces_total(Seq::new(1 + n, |i: int| span.piece_on(span.first_day() + i))) == 1440 * (1 + n)
            - span.start.minute_of_day(),
    decreases n,
{
    let pieces = Seq::new(1 + n, |i: int| span.piece_on(span.first_day() + i));
    if n == 0 {
        assert(pieces.drop_last() =~= Seq::empty());
        assert(pieces_total(pieces.drop_last()) == 0);
    } else {
        lemma_whole_pieces_total(span, (n - 1) as nat);
        assert(pieces.drop_last() =~= Seq::new(n, |i: int| span.piece_on(span.first_day() + i)));
    }
}

/// The segments of a session together are as long as the local clock shows
/// from its start to its end, in minutes.
pub proof fn law_segments_add_up(span: Span)
    requires
        span.first_day() <= span.last_day(),
    ensures
        pieces_total(span.pieces()) == 1440 * (span.last_day() - span.first_day())
            + span.end.minute_of_day() - span.start.minute_of_day(),
{
    let pieces = span.pieces();
    if span.crosses() {
        lemma_whole_pieces_total(span, span.middle_days());
        assert(pieces.drop_last() =~= Seq::new(
            1 + span.middle_days(),
            |i: int| span.piece_on(span.first_day() + i),
        ));
    } else {
        assert(pieces.drop_last() =~= Seq::empty());
        assert(pieces_total(pieces.drop_last()) == 0);
    }
}

/// The minutes of a piece within the hours before `hour`, hour by hour.
pub open spec fn minutes_up_to(piece: (nat, nat), hour: nat) -> nat
    decreases hour,
{
    if hour == 0 {
        0
    } else {
        minutes_up_to(piece, (hour - 1) as nat) + minutes_in_hour(piece, hour - 1)
    }
}

proof fn lemma_minutes_up_to(piece: (nat, nat), hour: nat)
    requires
        piece.0 <= piece.1,
    ensures
        minutes_up_to(piece, hour) == if 60 * hour <= piece.0 {
            0
        } else if 60 * hour <= piece.1 {
            60 * hour - piece.0
        } else {
            piece.1 - piece.0
        },
    decreases hour,
{
    if hour > 0 {
        lemma_minutes_up_to(piece, (hour - 1) as nat);
    }
}

/// The minutes of several pieces within the hours before `hour`, hour by hour.
pub open spec fn pieces_up_to(pieces: Seq<(nat, nat)>, hour: nat) -> nat
    decreases hour,
{
    if hour == 0 {
        0
    } else {
        pieces_up_to(pieces, (hour - 1) as nat) + pieces_in_hour(pieces, hour - 1)
    }
}

proof fn lemma_one_more_piece(pieces: Seq<(nat, nat)>, hour: nat)
    requires
        pieces.len() > 0,
    ensures
        pieces_up_to(pieces, hour) == pieces_up_to(pieces.drop_last(), hour) + minutes_up_to(
            pieces.last(),
            hour,
        ),
    decreases hour,
{
    if hour > 0 {
        lemma_one_more_piece(pieces, (hour - 1) as nat);
    }
}

proof fn lemma_no_piece(hour: nat)
    ensures
        pieces_up_to(Seq::empty(), hour) == 0,
    decreases hour,
{
    if hour > 0 {
        lemma_no_piece((hour - 1) as nat);
    }
}

/// Whether every piece lies within a day.
pub open spec fn within_days(pieces: Seq<(nat, nat)>) -> bool {
    forall|i: int| 0 <= i < pieces.len() ==> (#[trigger] pieces[i]).0 <= pieces[i].1 <= DAY_MINUTES
}

/// The hours of the day share out every minute of the pieces, none twice.
pub proof fn law_hours_share_out_the_pieces(pieces: Seq<(nat, nat)>)
    requires
        within_days(pieces),
    ensures
        pieces_up_to(pieces, 24) == pieces_total(pieces),
    decreases pieces.len(),
{
    if pieces.len() == 0 {
        assert(pieces =~= Seq::empty());
        lemma_no_piece(24);
    } else {
        let last = pieces.last();
        assert(last == pieces[pieces.len() - 1]);
        assert forall|i: int| 0 <= i < pieces.drop_last().len() implies (
        #[trigger] pieces.drop_last()[i]).0 <= pieces.drop_last()[i].1 <= DAY_MINUTES by {
            assert(pieces.drop_last()[i] == pieces[i]);
        }
        law_hours_share_out_the_pieces(pieces.drop_last());
        lemma_one_more_piece(pieces, 24);
        lemma_minutes_up_to(last, 24);
    }
}

/// The hour distribution of the hours before `hour`, hour by hour.
pub open spec fn hours_up_to(
    sessions: Seq<&TimedSession>,
    start: Date,
    end: Date,
    hour: nat,
) -> nat
    decreases hour,
{
    if hour == 0 {
        0
    } else {
        hours_up_to(sessions, start, end, (hour - 1) as nat) + hour_total(
            sessions,
            start,
            end,
            hour - 1,
        )
    }
}

/// The minutes that the sessions fill on the days of the range.
pub open spec fn minutes_between(sessions: Seq<&TimedSession>, start: Date, end: Date) -> int
    decreases sessions.len(),
{
    if sessions.len() == 0 {
        0
    } else {
        minutes_between(sessions.drop_last(), start, end) + match sessions.last().span {
            Some(span) => pieces_total(span.pieces_between(start, end)),
            None => 0,
        }
    }
}

proof fn lemma_one_more_session(sessions: Seq<&TimedSession>, start: Date, end: Date, hour: nat)
    requires
        sessions.len() > 0,
    ensures
        hours_up_to(sessions, start, end, hour) == hours_up_to(
            sessions.drop_last(),
            start,
            end,
            hour,
        ) + match sessions.last().span {
            Some(span) => pieces_up_to(span.pieces_between(start, end), hour),
            None => 0,
        },
    decreases hour,
{
    if hour > 0 {
        lemma_one_more_session(sessions, start, end, (hour - 1) as nat);
    }
}

proof fn lemma_pieces_within_days(span: Span, n: nat, start: Date, end: Date)
    requires
        span.valid(),
        span.ordered_between(start, end),
        n <= span.pieces().len(),
    ensures
        within_days(span.pieces_within(n, start, end)),
    decreases n,
{
    if n > 0 {
        lemma_pieces_within_days(span, (n - 1) as nat, start, end);
    }
}

proof fn lemma_no_session(start: Date, end: Date, hour: nat)
    ensures
        hours_up_to(Seq::empty(), start, end, hour) == 0,
    decreases hour,
{
    if hour > 0 {
        lemma_no_session(start, end, (hour - 1) as nat);
    }
}

/// The hour distribution adds up to all minutes that the sessions fill on the
/// days of the range.
pub proof fn law_hour_distribution_adds_up(sessions: Seq<&TimedSession>, start: Date, end: Date)
    requires
        forall|i: int| 0 <= i < sessions.len() ==> (#[trigger] sessions[i]).valid(),
        forall|i: int|
            0 <= i < sessions.len() ==> ((#[trigger] sessions[i]).span matches Some(span)
                ==> span.ordered_between(start, end)),
    ensures
        hours_up_to(sessions, start, end, 24) == minutes_between(sessions, start, end),
    decreases sessions.len(),
{
    if sessions.len() == 0 {
        assert(sessions =~= Seq::empty());
        lemma_no_session(start, end, 24);
    } else {
        let rest = sessions.drop_last();
        let last = sessions.last();
        assert(last == sessions[sessions.len() - 1]);
        assert forall|i: int| 0 <= i < rest.len() implies (#[trigger] rest[i]).valid() && (
        rest[i].span matches Some(span) ==> span.ordered_between(start, end)) by {
            assert(rest[i] == sessions[i]);
        }
        law_hour_distribution_adds_up(rest, start, end);
        lemma_one_more_session(sessions, start, end, 24);
        if let Some(span) = last.span {
            lemma_pieces_within_days(span, span.pieces().len(), start, end);
            law_hours_share_out_the_pieces(span.pieces_between(start, end));
        }
    }
}

proof fn lemma_other_days(span: Span, n: nat, start: Date, end: Date)
    requires
        forall|i: int|
            0 <= i < n ==> !(start.day <= #[trigger] span.piece_day(i) <= end.day),
    ensures
        span.pieces_within(n, start, end).len() == 0,
    decreases n,
{
    if n > 0 {
        lemma_other_days(span, (n - 1) as nat, start, end);
        assert(!(start.day <= span.piece_day(n - 1) <= end.day));
    }
}

/// Days outside the range add nothing to the hour distribution: a session
/// none of whose days lies in the range has no minute in any hour.
pub proof fn law_other_days_fill_no_hour(span: Span, start: Date, end: Date, hour: int)
    requires
        forall|i: int|
            0 <= i < span.pieces().len() ==> !(start.day <= #[trigger] span.piece_day(i)
                <= end.day),
    ensures
        pieces_in_hour(span.pieces_between(start, end), hour) == 0,
{
    lemma_other_days(span, span.pieces().len(), start, end);
}

/// The minutes of a stretch on those of the given dates that are one of the
/// first `weekdays` days of the week.
pub open spec fn minutes_before_weekday(span: Span, dates: Seq<Date>, weekdays: nat) -> nat
    decreases weekdays,
{
    if weekdays == 0 {
        0
    } else {
        minutes_before_weekday(span, dates, (weekdays - 1) as nat) + span.weekday_minutes(
            dates,
            weekdays - 1,
        )
    }
}

/// The minutes of a stretch on the given dates.
pub open spec fn minutes_on_dates(span: Span, dates: Seq<Date>) -> nat
    decreases dates.len(),
{
    if dates.len() == 0 {
        0
    } else {
        minutes_on_dates(span, dates.drop_last()) + span.minutes_on(dates.last().day as int)
    }
}

proof fn lemma_one_more_date(span: Span, dates: Seq<Date>, weekdays: nat)
    requires
        dates.len() > 0,
    ensures
        minutes_before_weekday(span, dates, weekdays) == minutes_before_weekday(
            span,
            dates.drop_last(),
            weekdays,
        ) + if calendar::weekday_of(dates.last().day as int) < weekdays {
            span.minutes_on(dates.last().day as int)
        } else {
            0
        },
    decreases weekdays,
{
    if weekdays > 0 {
        lemma_one_more_date(span, dates, (weekdays - 1) as nat);
    }
}

proof fn lemma_no_date(span: Span, weekdays: nat)
    ensures
        minutes_before_weekday(span, Seq::empty(), weekdays) == 0,
    decreases weekdays,
{
    if weekdays > 0 {
        lemma_no_date(span, (weekdays - 1) as nat);
    }
}

/// The days of the week share out every minute that a session fills, none
/// twice.
pub proof fn law_weekdays_share_out_the_dates(span: Span, dates: Seq<Date>)
    ensures
        minutes_before_weekday(span, dates, 7) == minutes_on_dates(span, dates),
    decreases dates.len(),
{
    if dates.len() == 0 {
        assert(dates =~= Seq::empty());
        lemma_no_date(span, 7);
    } else {
        law_weekdays_share_out_the_dates(span, dates.drop_last());
        lemma_one_more_date(span, dates, 7);
    }
}

impl Span {
    /// Whether the local clock does not shift from start to end, and the end
    /// does not come before the start.
    pub open spec fn steady(self) -> bool {
        &&& self.end.offset == self.start.offset
        &&& self.head == self.start.offset
        &&& self.tail == self.start.offset
        &&& !self.end.precedes(self.start)
    }
}

/// The minutes of those of the first `n` pieces whose day is the weekday
/// `weekday`.
pub open spec fn pieces_on_weekday(span: Span, n: nat, weekday: int) -> int
    decreases n,
{
    if n == 0 {
        0
    } else {
        pieces_on_weekday(span, (n - 1) as nat, weekday) + if calendar::weekday_of(
            span.piece_day(n - 1),
        ) == weekday {
            span.pieces()[n - 1].1 - span.pieces()[n - 1].0
        } else {
            0
        }
    }
}

/// A steady stretch goes on, and ends at midnight where no second falls on its
/// last day.
proof fn lemma_steady(span: Span)
    requires
        span.valid(),
        span.steady(),
    ensures
        span.first_day() <= span.last_day(),
        span.ordered(),
        span.crosses() ==> span.forward(),
        !span.forward() ==> span.start.minute_of_day() == span.end.minute_of_day(),
        span.crosses() && span.last_day_seconds() <= 0 ==> span.end.minute_of_day() == 0,
{
}

proof fn lemma_pieces_on_weekday(timed: TimedSession, n: nat, weekday: int)
    requires
        timed.valid(),
        timed.span is Some,
        timed.span->0.steady(),
        n <= timed.dates().len(),
    ensures
        ({
            let span = timed.span->0;
            span.weekday_minutes(timed.dates().take(n as int), weekday) == pieces_on_weekday(
                span,
                n,
                weekday,
            )
        }),
    decreases n,
{
    let span = timed.span->0;
    lemma_steady(span);
    if n == 0 {
        assert(timed.dates().take(0) =~= Seq::empty());
    } else {
        let dates = timed.dates();
        lemma_pieces_on_weekday(timed, (n - 1) as nat, weekday);
        assert(dates.take(n as int).drop_last() =~= dates.take(n - 1));
        assert(dates.take(n as int).last() == dates[n - 1]);
        law_dates_have_their_segments(timed, n - 1);
        assert(span.piece_day(n - 1) == dates[n - 1].day);
    }
}

/// On a clock that does not shift, the weekday distribution counts each
/// segment of a session on the weekday of its own day.
pub proof fn law_weekdays_count_the_segments(timed: TimedSession, weekday: int)
    requires
        timed.valid(),
        timed.span is Some,
        timed.span->0.steady(),
    ensures
        ({
            let span = timed.span->0;
            span.weekday_minutes(timed.dates(), weekday) == pieces_on_weekday(
                span,
                span.pieces().len(),
                weekday,
            )
        }),
{
    let span = timed.span->0;
    let dates = timed.dates();
    lemma_steady(span);
    lemma_pieces_on_weekday(timed, dates.len(), weekday);
    assert(dates.take(dates.len() as int) =~= dates);
    if dates.len() < span.pieces().len() {
        assert(span.pieces().len() == dates.len() + 1);
        let last = span.pieces()[span.pieces().len() - 1];
        assert(last.0 == last.1);
    }
}

/// The weekday distribution of the first `weekdays` days of the week, day by
/// day.
pub open spec fn weekdays_up_to(sessions: Seq<&TimedSession>, weekdays: nat) -> nat
    decreases weekdays,
{
    if weekdays == 0 {
        0
    } else {
        weekdays_up_to(sessions, (weekdays - 1) as nat) + weekday_total(sessions, weekdays - 1)
    }
}

/// All minutes of the segments of the sessions.
pub open spec fn segment_minutes(sessions: Seq<&TimedSession>) -> int
    decreases sessions.len(),
{
    if sessions.len() == 0 {
        0
    } else {
        segment_minutes(sessions.drop_last()) + match sessions.last().span {
            Some(span) => pieces_total(span.pieces()),
            None => 0,
        }
    }
}

/// Whether every session is valid and lies on a clock that does not shift.
pub open spec fn all_steady(sessions: Seq<&TimedSession>) -> bool {
    forall|i: int|
        0 <= i < sessions.len() ==> {
            &&& (#[trigger] sessions[i]).valid()
            &&& sessions[i].span matches Some(span) ==> span.steady()
        }
}

proof fn lemma_weekdays_one_more_session(sessions: Seq<&TimedSession>, weekdays: nat)
    requires
        sessions.len() > 0,
    ensures
        weekdays_up_to(sessions, weekdays) == weekdays_up_to(sessions.drop_last(), weekdays)
            + match sessions.last().span {
            Some(span) => minutes_before_weekday(span, sessions.last().dates(), weekdays),
            None => 0,
        },
    decreases weekdays,
{
    if weekdays > 0 {
        lemma_weekdays_one_more_session(sessions, (weekdays - 1) as nat);
    }
}

proof fn lemma_weekdays_no_session(weekdays: nat)
    ensures
        weekdays_up_to(Seq::empty(), weekdays) == 0,
    decreases weekdays,
{
    if weekdays > 0 {
        lemma_weekdays_no_session((weekdays - 1) as nat);
    }
}

proof fn lemma_dates_total(timed: TimedSession, n: nat)
    requires
        timed.valid(),
        timed.span is Some,
        timed.span->0.steady(),
        n <= timed.dates().len(),
    ensures
        minutes_on_dates(timed.span->0, timed.dates().take(n as int)) == pieces_total(
            timed.span->0.pieces().take(n as int),
        ),
    decreases n,
{
    let span = timed.span->0;
    let dates = timed.dates();
    let pieces = span.pieces();
    lemma_steady(span);
    if n == 0 {
        assert(dates.take(0) =~= Seq::empty());
        assert(pieces.take(0) =~= Seq::empty());
    } else {
        lemma_dates_total(timed, (n - 1) as nat);
        law_dates_have_their_segments(timed, n - 1);
        assert(dates.take(n as int).drop_last() =~= dates.take(n - 1));
        assert(dates.take(n as int).last() == dates[n - 1]);
        assert(pieces.take(n as int).drop_last() =~= pieces.take(n - 1));
        assert(pieces.take(n as int).last() == pieces[n - 1]);
    }
}

/// On a clock that does not shift, the days of a session hold all minutes of
/// its segments.
proof fn lemma_dates_hold_the_segments(timed: TimedSession)
    requires
        timed.valid(),
        timed.span is Some,
        timed.span->0.steady(),
    ensures
        minutes_on_dates(timed.span->0, timed.dates()) == pieces_total(timed.span->0.pieces()),
{
    let span = timed.span->0;
    let dates = timed.dates();
    let pieces = span.pieces();
    lemma_steady(span);
    lemma_dates_total(timed, dates.len());
    assert(dates.take(dates.len() as int) =~= dates);
    if dates.len() < pieces.len() {
        assert(pieces.len() == dates.len() + 1);
        assert(pieces.drop_last() =~= pieces.take(dates.len() as int));
        assert(pieces.last().0 == pieces.last().1);
    } else {
        assert(pieces.take(dates.len() as int) =~= pieces);
    }
}

/// On a clock that does not shift, the weekday distribution adds up to all
/// minutes of the segments of the sessions.
pub proof fn law_weekday_distribution_adds_up(sessions: Seq<&TimedSession>)
    requires
        all_steady(sessions),
    ensures
        weekdays_up_to(sessions, 7) == segment_minutes(sessions),
    decreases sessions.len(),
{
    if sessions.len() == 0 {
        assert(sessions =~= Seq::empty());
        lemma_weekdays_no_session(7);
    } else {
        let rest = sessions.drop_last();
        let last = sessions.last();
        assert(last == sessions[sessions.len() - 1]);
        assert forall|i: int| 0 <= i < rest.len() implies {
            &&& (#[trigger] rest[i]).valid()
            &&& rest[i].span matches Some(span) ==> span.steady()
        } by {
            assert(rest[i] == sessions[i]);
        }
        law_weekday_distribution_adds_up(rest);
        lemma_weekdays_one_more_session(sessions, 7);
        if let Some(span) = last.span {
            law_weekdays_share_out_the_dates(span, last.dates());
            lemma_dates_hold_the_segments(*last);
        }
    }
}

/// The distributions of two lists of sessions add up to those of both lists
/// together.
pub proof fn law_distributions_of_lists_add_up(
    a: Seq<&TimedSession>,
    b: Seq<&TimedSession>,
    start: Date,
    end: Date,
    n: int,
)
    ensures
        weekday_total(a + b, n) == weekday_total(a, n) + weekday_total(b, n),
        hour_total(a + b, start, end, n) == hour_total(a, start, end, n) + hour_total(
            b,
            start,
            end,
            n,
        ),
    decreases b.len(),
{
    if b.len() == 0 {
        assert(a + b =~= a);
    } else {
        law_distributions_of_lists_add_up(a, b.drop_last(), start, end, n);
        assert((a + b).drop_last() =~= a + b.drop_last());
        assert((a + b).last() == b.last());
    }
}

/// Whether all days of the session lie in the range.
pub open spec fn within_range(timed: TimedSession, start: Date, end: Date) -> bool {
    forall|i: int|
        0 <= i < timed.dates().len() ==> start.day <= (#[trigger] timed.dates()[i]).day <= end.day
}

proof fn lemma_all_dates_in_range(timed: TimedSession, n: nat, start: Date, end: Date)
    requires
        timed.valid(),
        timed.span is Some,
        timed.span->0.steady(),
        within_range(timed, start, end),
        n <= timed.dates().len(),
    ensures
        timed.span->0.pieces_within(n, start, end) == timed.span->0.pieces().take(n as int),
    decreases n,
{
    let span = timed.span->0;
    lemma_steady(span);
    if n == 0 {
        assert(span.pieces().take(0) =~= Seq::empty());
    } else {
        lemma_all_dates_in_range(timed, (n - 1) as nat, start, end);
        law_dates_have_their_segments(timed, n - 1);
        assert(span.piece_day(n - 1) == timed.dates()[n - 1].day);
        assert(span.pieces().take(n as int) =~= span.pieces().take(n - 1).push(
            span.pieces()[n - 1],
        ));
    }
}

/// On a clock that does not shift, a session all of whose days lie in the
/// range counts in the hour distribution with every minute of its segments,
/// and with no more than a whole hour for each of its days.
pub proof fn law_whole_sessions_fill_the_hours(
    timed: TimedSession,
    start: Date,
    end: Date,
    hour: int,
)
    requires
        timed.valid(),
        timed.span is Some,
        timed.span->0.steady(),
        within_range(timed, start, end),
    ensures
        ({
            let span = timed.span->0;
            &&& pieces_in_hour(span.pieces_between(start, end), hour) == pieces_in_hour(
                span.pieces(),
                hour,
            )
            &&& pieces_in_hour(span.pieces(), hour) <= 60 * timed.dates().len()
            &&& pieces_total(span.pieces_between(start, end)) == pieces_total(span.pieces())
        }),
{
    let span = timed.span->0;
    let pieces = span.pieces();
    let count = timed.dates().len();
    let counted = span.pieces_between(start, end);
    lemma_steady(span);
    lemma_all_dates_in_range(timed, count, start, end);
    lemma_pieces_in_hour_bounded(pieces.take(count as int), hour);
    if count < pieces.len() {
        assert(pieces.len() == count + 1);
        assert(pieces.drop_last() =~= pieces.take(count as int));
        assert(pieces.last().0 == pieces.last().1);
        assert(minutes_in_hour(pieces.last(), hour) == 0);
        let rest = span.pieces_within(count, start, end);
        if counted.len() > rest.len() {
            assert(counted.drop_last() =~= rest);
            assert(counted.last() == pieces.last());
        } else {
            assert(counted =~= rest);
        }
    } else {
        assert(pieces.take(count as int) =~= pieces);
    }
}

/// On a clock that does not shift, the hour distribution over a range that
/// holds all days of the sessions adds up to all minutes of their segments.
pub proof fn law_hours_of_whole_sessions_add_up(
    sessions: Seq<&TimedSession>,
    start: Date,
    end: Date,
)
    requires
        all_steady(sessions),
        forall|i: int|
            0 <= i < sessions.len() ==> within_range(*#[trigger] sessions[i], start, end),
    ensures
        hours_up_to(sessions, start, end, 24) == segment_minutes(sessions),
    decreases sessions.len(),
{
    if sessions.len() == 0 {
        assert(sessions =~= Seq::empty());
        lemma_no_session(start, end, 24);
    } else {
        let rest = sessions.drop_last();
        let last = sessions.last();
        assert(last == sessions[sessions.len() - 1]);
        assert forall|i: int| 0 <= i < rest.len() implies {
            &&& (#[trigger] rest[i]).valid()
            &&& rest[i].span matches Some(span) ==> span.steady()
        } by {
            assert(rest[i] == sessions[i]);
        }
        assert forall|i: int| 0 <= i < rest.len() implies within_range(
            *#[trigger] rest[i],
            start,
            end,
        ) by {
            assert(rest[i] == sessions[i]);
        }
        law_hours_of_whole_sessions_add_up(rest, start, end);
        lemma_one_more_session(sessions, start, end, 24);
        if let Some(span) = last.span {
            lemma_steady(span);
            lemma_pieces_within_days(span, span.pieces().len(), start, end);
            law_hours_share_out_the_pieces(span.pieces_between(start, end));
            law_whole_sessions_fill_the_hours(*last, start, end, 0);
        }
    }
}

/// The segments of a session join up: the first starts with the session and the
/// last ends with it, and at each midnight between them one ends and the next
/// one starts.
pub proof fn law_segments_join_up(span: Span, i: int)
    requires
        0 <= i < span.pieces().len(),
    ensures
        i == 0 ==> span.pieces()[i].0 == span.start.minute_of_day(),
        i > 0 ==> span.pieces()[i].0 == 0,
        i == span.pieces().len() - 1 ==> span.pieces()[i].1 == span.end.minute_of_day(),
        i < span.pieces().len() - 1 ==> span.pieces()[i].1 == 1440,
        span.start.day() == span.end.day() ==> span.pieces().len() == 1,
        span.start.day() < span.end.day() ==> span.pieces().len() == span.end.day()
            - span.start.day() + 1,
{
}

/// A segment shows the times between which it lies, as long as it is between
/// them.
pub proof fn law_segment_shows_its_times(segment: Segment, piece: (nat, nat), crosses: bool)
    requires
        segment.shows(piece, crosses),
    ensures
        segment.start_time@ == text::clock_text(piece.0),
        segment.end_time@ == text::clock_text(piece.1),
        piece.0 + segment.duration_minutes == piece.1,
        segment.crosses_midnight == crosses,
{
}

/// On a day of its own, a session fills as many minutes as its piece of that day
/// is long.
pub proof fn law_minutes_of_a_day_are_its_piece(span: Span, day: int)
    requires
        span.piece_on(day).0 <= span.piece_on(day).1,
    ensures
        span.piece_on(day).0 + span.minutes_on(day) == span.piece_on(day).1,
{
}

/// The minutes of a piece that lie in an hour of the day.
pub open spec fn minutes_of_hour(piece: (nat, nat), hour: int) -> Set<int> {
    Set::new(|minute: int| piece.0 <= minute < piece.1 && minute / 60 == hour)
}

/// An hour of the day holds those minutes of a piece that begin with that hour.
pub proof fn law_hour_counts_its_minutes(piece: (nat, nat), hour: int)
    requires
        0 <= hour,
    ensures
        minutes_of_hour(piece, hour).finite(),
        minutes_in_hour(piece, hour) == minutes_of_hour(piece, hour).len(),
{
    let low = if piece.0 > 60 * hour {
        piece.0 as int
    } else {
        60 * hour
    };
    let high = if piece.1 < 60 * hour + 60 {
        piece.1 as int
    } else {
        60 * hour + 60
    };
    if low <= high {
        vstd::set_lib::lemma_int_range(low, high);
        assert(minutes_of_hour(piece, hour) =~= vstd::set_lib::set_int_range(low, high));
    } else {
        assert(minutes_of_hour(piece, hour) =~= Set::empty());
    }
}

/// The hour distribution of pieces adds up piece by piece, and that of sessions
/// session by session.
pub proof fn law_hours_add_up_one_by_one(
    pieces: Seq<(nat, nat)>,
    piece: (nat, nat),
    sessions: Seq<&TimedSession>,
    timed: &TimedSession,
    start: Date,
    end: Date,
    hour: int,
)
    ensures
        pieces_in_hour(Seq::empty(), hour) == 0,
        pieces_in_hour(pieces.push(piece), hour) == pieces_in_hour(pieces, hour) + minutes_in_hour(
            piece,
            hour,
        ),
        hour_total(Seq::empty(), start, end, hour) == 0,
        hour_total(sessions.push(timed), start, end, hour) == hour_total(
            sessions,
            start,
            end,
            hour,
        ) + match timed.span {
            Some(span) => pieces_in_hour(span.pieces_between(start, end), hour),
            None => 0,
        },
{
    assert(pieces.push(piece).drop_last() =~= pieces);
    assert(sessions.push(timed).drop_last() =~= sessions);
}

/// The weekday distribution adds up day by day of a session, and session by
/// session.
pub proof fn law_weekdays_add_up_one_by_one(
    span: Span,
    dates: Seq<Date>,
    date: Date,
    sessions: Seq<&TimedSession>,
    timed: &TimedSession,
    weekday: int,
)
    ensures
        span.weekday_minutes(Seq::empty(), weekday) == 0,
        span.weekday_minutes(dates.push(date), weekday) == span.weekday_minutes(dates, weekday)
            + if calendar::weekday_of(date.day as int) == weekday {
            span.minutes_on(date.day as int)
        } else {
            0
        },
        weekday_total(Seq::empty(), weekday) == 0,
        weekday_total(sessions.push(timed), weekday) == weekday_total(sessions, weekday)
            + match timed.span {
            Some(span) => span.weekday_minutes(timed.dates(), weekday),
            None => 0,
        },
{
    assert(dates.push(date).drop_last() =~= dates);
    assert(sessions.push(timed).drop_last() =~= sessions);
}

proof fn lemma_pieces_of_one_day(span: Span, n: nat, day: Date, hour: int)
    requires
        span.first_day() <= span.last_day(),
        n <= span.pieces().len(),
    ensures
        pieces_in_hour(span.pieces_within(n, day, day), hour) == if span.first_day() <= day.day
            < span.first_day() + n {
            minutes_in_hour(span.piece_on(day.day as int), hour)
        } else {
            0
        },
    decreases n,
{
    if n > 0 {
        lemma_pieces_of_one_day(span, (n - 1) as nat, day, hour);
        assert(span.piece_day(n - 1) == span.first_day() + n - 1);
        let rest = span.pieces_within((n - 1) as nat, day, day);
        let piece = span.piece_on(span.piece_day(n - 1));
        assert(rest.push(piece).drop_last() =~= rest);
        assert(rest.push(piece).last() == piece);
    }
}

/// Within a single day, a session counts in the hour distribution with its piece
/// of that day, and not at all where the day is none of its own.
pub proof fn law_hours_of_one_day(span: Span, day: Date, hour: int)
    requires
        span.first_day() <= span.last_day(),
    ensures
        pieces_in_hour(span.pieces_between(day, day), hour) == if span.start.day() <= day.day
            <= span.end.day() {
            minutes_in_hour(span.piece_on(day.day as int), hour)
        } else {
            0
        },
{
    lemma_pieces_of_one_day(span, span.pieces().len(), day, hour);
}

proof fn lemma_hour_ranges(span: Span, n: nat, start: Date, middle: Date, end: Date, hour: int)
    requires
        start.day <= middle.day + 1,
        middle.day < end.day,
    ensures
        pieces_in_hour(span.pieces_within(n, start, end), hour) == pieces_in_hour(
            span.pieces_within(n, start, middle),
            hour,
        ) + pieces_in_hour(
            span.pieces_within(n, Date { day: (middle.day + 1) as i32 }, end),
            hour,
        ),
    decreases n,
{
    let next = Date { day: (middle.day + 1) as i32 };
    if n > 0 {
        lemma_hour_ranges(span, (n - 1) as nat, start, middle, end, hour);
        let piece = span.piece_on(span.piece_day(n - 1));
        let a = span.pieces_within((n - 1) as nat, start, end);
        let b = span.pieces_within((n - 1) as nat, start, middle);
        let c = span.pieces_within((n - 1) as nat, next, end);
        assert(a.push(piece).drop_last() =~= a);
        assert(b.push(piece).drop_last() =~= b);
        assert(c.push(piece).drop_last() =~= c);
    }
}

/// The hour distributions over two ranges that follow one another add up to the
/// one over both together.
pub proof fn law_hours_of_ranges_add_up(
    sessions: Seq<&TimedSession>,
    start: Date,
    middle: Date,
    end: Date,
    hour: int,
)
    requires
        start.day <= middle.day + 1,
        middle.day < end.day,
    ensures
        hour_total(sessions, start, end, hour) == hour_total(sessions, start, middle, hour)
            + hour_total(sessions, Date { day: (middle.day + 1) as i32 }, end, hour),
    decreases sessions.len(),
{
    if sessions.len() > 0 {
        law_hours_of_ranges_add_up(sessions.drop_last(), start, middle, end, hour);
        if let Some(span) = sessions.last().span {
            lemma_hour_ranges(span, span.pieces().len(), start, middle, end, hour);
        }
    }
}

} // verus!
