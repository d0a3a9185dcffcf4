//! Recorded sessions, and where they lie on the local clock.
use vstd::prelude::*;

use crate::calendar::{Date, EPOCH_DAY};
use crate::clock;
use crate::clock::{
    local_time_on, parse_datetime, parse_datetime_at, LocalTime, MAX_UTC, MIN_UTC,
};
use crate::reading;

verus! {

/// As many sessions as the counts of the reports can hold.
pub const MAX_SESSIONS: usize = 4294967295;

/// More days than lie between any two moments that texts can name.
pub const MAX_SPAN_DAYS: i32 = 3700000;

/// One finished stream, as it is stored.
#[derive(Clone, Debug, PartialEq, Eq)]
pub struct LiveSession {
    pub room_id: u64,
    pub start: String,
    pub end: String,
    pub duration_secs: u64,
    pub weekday: u32,
    pub start_hour: u32,
    pub end_hour: u32,
}

impl LiveSession {
    /// Whether the machine's time zone has no place for the session: its texts
    /// name two moments, and there is none for the stretch between them.
    pub open spec fn unplaced(self) -> bool {
        exists|from: LocalTime, to: LocalTime|
            {
                &&& reading::given_by_zone(from) && reading::given_by_zone(to)
                &&& clock::moment_in_text(self.start@, from.offset) == Some(from)
                &&& clock::moment_in_text(self.end@, to.offset) == Some(to)
                &&& #[trigger] Span::unplaced(from, to)
            }
    }

    /// Whether the session takes no time, on whatever clock: one of its texts
    /// names no moment, or its end is not after its start.
    pub open spec fn takes_no_time(self) -> bool {
        match (clock::rfc3339_reading(self.start@), clock::rfc3339_reading(self.end@)) {
            (Some(start), Some(end)) => end.0 < start.0 || end.0 == start.0 && end.1 <= start.1,
            _ => true,
        }
    }

    pub(crate) fn copy(&self) -> (r: LiveSession)
        ensures
            r == *self,
    {
        LiveSession {
            room_id: self.room_id,
            start: self.start.clone(),
            end: self.end.clone(),
            duration_secs: self.duration_secs,
            weekday: self.weekday,
            start_hour: self.start_hour,
            end_hour: self.end_hour,
        }
    }
}

/// The stretch of time from `start` to `end`. `head` is the offset of the
/// local clock at 23:59:59 of the first day, and `tail` the offset at
/// 00:00:00 of the last; both matter only where the days differ.
#[derive(Clone, Copy, Debug, PartialEq, Eq, Structural)]
pub struct Span {
    pub start: LocalTime,
    pub end: LocalTime,
    pub head: i32,
    pub tail: i32,
}

/// The second since 1970 at which a clock `offset` seconds ahead shows the
/// second `second` of the day `day`.
pub open spec fn utc_of(day: int, second: int, offset: int) -> int {
    (day - EPOCH_DAY) * 86400 + second - offset
}

impl Span {
    pub open spec fn first_day(self) -> int {
        self.start.day()
    }

    pub open spec fn last_day(self) -> int {
        self.end.day()
    }

    /// Whether the local date changes between start and end.
    pub open spec fn crosses(self) -> bool {
        self.first_day() != self.last_day()
    }

    /// Whether the stretch has a positive length.
    pub open spec fn forward(self) -> bool {
        self.start.precedes(self.end)
    }

    /// Whether the machine's time zone gives the turns of the day that bound a
    /// stretch over several days.
    pub open spec fn turns_given(self) -> bool {
        self.forward() && self.crosses() ==> {
            &&& reading::given_by_zone(self.first_day_end())
            &&& reading::given_by_zone(self.last_day_start())
        }
    }

    /// 23:59:59 of the first day.
    pub open spec fn first_day_end(self) -> LocalTime {
        LocalTime {
            utc: utc_of(self.first_day(), 86399, self.head as int) as i64,
            nanos: 0,
            offset: self.head,
        }
    }

    /// 00:00:00 of the last day.
    pub open spec fn last_day_start(self) -> LocalTime {
        LocalTime {
            utc: utc_of(self.last_day(), 0, self.tail as int) as i64,
            nanos: 0,
            offset: self.tail,
        }
    }

    /// Whether the two turns of the day that bound a stretch over several
    /// days lie inside it.
    pub open spec fn turns_inside(self) -> bool {
        &&& self.first_day_end().valid()
        &&& self.last_day_start().valid()
        &&& MIN_UTC <= utc_of(self.first_day(), 86399, self.head as int) <= MAX_UTC
        &&& MIN_UTC <= utc_of(self.last_day(), 0, self.tail as int) <= MAX_UTC
        &&& clock::seconds_between(self.start, self.first_day_end()) >= 0
        &&& clock::seconds_between(self.last_day_start(), self.end) >= 0
    }

    pub open spec fn valid(self) -> bool {
        &&& self.start.valid()
        &&& self.end.valid()
        &&& self.forward() && self.crosses() ==> self.turns_inside()
    }

    /// The stretch from `start` to `end` with the given offsets at the turns
    /// of the day, where these make the turns lie inside it.
    pub fn with_turns(start: LocalTime, end: LocalTime, head: i32, tail: i32) -> (r: Option<Span>)
        requires
            start.valid(),
            end.valid(),
            clock::valid_offset(head as int),
            clock::valid_offset(tail as int),
        ensures
            r is Some <==> (Span { start, end, head, tail }).valid(),
            r matches Some(span) ==> span == (Span { start, end, head, tail }),
    {
        let span = Span { start, end, head, tail };
        let first: Date = start.date_naive();
        let last: Date = end.date_naive();
        if !start.is_before(end) || first == last {
            return Some(span);
        }
        let first_utc: i64 = (first.day as i64 - EPOCH_DAY as i64) * 86400 + 86399 - head as i64;
        let last_utc: i64 = (last.day as i64 - EPOCH_DAY as i64) * 86400 - tail as i64;
        if first_utc < MIN_UTC || first_utc > MAX_UTC || last_utc < MIN_UTC || last_utc > MAX_UTC {
            return None;
        }
        let first_day_end = LocalTime { utc: first_utc, nanos: 0, offset: head };
        let last_day_start = LocalTime { utc: last_utc, nanos: 0, offset: tail };
        assert(first_day_end == span.first_day_end());
        assert(last_day_start == span.last_day_start());
        if start.seconds_until(first_day_end) >= 0 && last_day_start.seconds_until(end) >= 0 {
            Some(span)
        } else {
            None
        }
    }

    /// Whether the machine's time zone has no place for a stretch: it refuses a
    /// turn of the day that bounds the stretch, or puts one outside of it.
    pub open spec fn unplaced(start: LocalTime, end: LocalTime) -> bool {
        &&& start.precedes(end)
        &&& start.day() != end.day()
        &&& {
            ||| reading::refused_by_zone(start.day(), 86399)
            ||| reading::refused_by_zone(end.day(), 0)
            ||| exists|a: LocalTime, b: LocalTime|
                #![trigger reading::given_by_zone(a), reading::given_by_zone(b)]
                {
                    &&& reading::given_by_zone(a) && reading::given_by_zone(b)
                    &&& a.day() == start.day() && a.second_of_day() == 86399
                    &&& b.day() == end.day() && b.second_of_day() == 0
                    &&& !(Span { start, end, head: a.offset, tail: b.offset }).valid()
                }
        }
    }

    /// The stretch from `start` to `end`, over several days, where the first
    /// day ends and the last day begins at the given moments, and these lie
    /// inside it.
    fn between_turns(
        start: LocalTime,
        end: LocalTime,
        first_day_end: LocalTime,
        last_day_start: LocalTime,
    ) -> (r: Option<Span>)
        requires
            start.valid(),
            end.valid(),
            clock::valid_offset(first_day_end.offset as int),
            clock::valid_offset(last_day_start.offset as int),
            first_day_end.day() == start.day(),
            first_day_end.second_of_day() == 86399,
            first_day_end.nanos == 0,
            last_day_start.day() == end.day(),
            last_day_start.second_of_day() == 0,
            last_day_start.nanos == 0,
        ensures
            r matches Some(span) ==> {
                &&& span.valid()
                &&& span.start == start
                &&& span.end == end
                &&& span.first_day_end() == first_day_end
                &&& span.last_day_start() == last_day_start
            },
            r is Some <==> (Span {
                start,
                end,
                head: first_day_end.offset,
                tail: last_day_start.offset,
            }).valid(),
    {
        Span::with_turns(start, end, first_day_end.offset, last_day_start.offset)
    }

    /// The stretch from `start` to `end` on the local clock. There is none
    /// where the local clock skips or repeats a turn of the day that bounds it.
    pub fn between(start: LocalTime, end: LocalTime) -> (r: Option<Span>)
        requires
            start.valid(),
            end.valid(),
        ensures
            r matches Some(span) ==> span.valid() && span.start == start && span.end == end,
            r matches Some(span) ==> span.turns_given(),
            !start.precedes(end) || start.day() == end.day() ==> r is Some,
            r is None ==> Span::unplaced(start, end),
    {
        match turns(start, end) {
            None => Span::with_turns(start, end, start.offset, end.offset),
            Some((first, last)) => match (
                local_time_on(first.0, first.1),
                local_time_on(last.0, last.1),
            ) {
                (Some(first_day_end), Some(last_day_start)) => {
                    assert(reading::given_by_zone(first_day_end) && reading::given_by_zone(
                        last_day_start,
                    ));
                    Span::between_turns(start, end, first_day_end, last_day_start)
                },
                _ => None,
            },
        }
    }
}

/// The turns of the day that bound a stretch over several days, each by its
/// day and the second of that day: 23:59:59 of the first day, and 00:00:00 of
/// the last.
pub fn turns(start: LocalTime, end: LocalTime) -> (r: Option<((i32, u32), (i32, u32))>)
    requires
        start.valid(),
        end.valid(),
    ensures
        r is Some <==> start.precedes(end) && start.day() != end.day(),
        r matches Some(t) ==> {
            &&& t.0.0 == start.day() && t.0.1 == 86399
            &&& t.1.0 == end.day() && t.1.1 == 0
        },
{
    let first: Date = start.date_naive();
    let last: Date = end.date_naive();
    if start.is_before(end) && first != last {
        Some(((first.day, 86399), (last.day, 0)))
    } else {
        None
    }
}

impl Span {
    /// 23:59:59 of the first day.
    pub fn first_day_ends(self) -> (r: LocalTime)
        requires
            self.valid(),
            self.forward() && self.crosses(),
        ensures
            r == self.first_day_end(),
            r.valid(),
    {
        let first: Date = self.start.date_naive();
        let utc: i64 = (first.day as i64 - EPOCH_DAY as i64) * 86400 + 86399 - self.head as i64;
        LocalTime { utc, nanos: 0, offset: self.head }
    }

    /// 00:00:00 of the last day.
    pub fn last_day_starts(self) -> (r: LocalTime)
        requires
            self.valid(),
            self.forward() && self.crosses(),
        ensures
            r == self.last_day_start(),
            r.valid(),
    {
        let last: Date = self.end.date_naive();
        let utc: i64 = (last.day as i64 - EPOCH_DAY as i64) * 86400 - self.tail as i64;
        LocalTime { utc, nanos: 0, offset: self.tail }
    }
}

/// A session together with its place on the local clock: its start, where the
/// session's text names a moment, and its whole stretch, where both texts do.
#[derive(Clone, Debug, PartialEq, Eq)]
pub struct TimedSession {
    pub session: LiveSession,
    pub start: Option<LocalTime>,
    pub span: Option<Span>,
}

/// Whether `time` is the moment that a text names, on some clock.
pub open spec fn names(text: Seq<char>, time: Option<LocalTime>) -> bool {
    match time {
        Some(t) => clock::moment_in_text(text, t.offset) == Some(t),
        None => clock::rfc3339_reading(text) is None,
    }
}

impl TimedSession {
    pub open spec fn valid(self) -> bool {
        &&& self.start matches Some(start) ==> start.valid()
        &&& self.span matches Some(span) ==> span.valid() && self.start == Some(span.start)
    }

    /// Whether the session lies where its texts say.
    pub open spec fn faithful(self) -> bool {
        &&& names(self.session.start@, self.start)
        &&& match self.span {
            Some(span) => names(self.session.end@, Some(span.end)),
            None => self.start is None || names(self.session.end@, None),
        }
    }

    /// Whether the machine's time zone gives all offsets of the session.
    pub open spec fn local(self) -> bool {
        &&& self.start matches Some(start) ==> reading::given_by_zone(start)
        &&& self.span matches Some(span) ==> reading::given_by_zone(span.end) && span.turns_given()
    }

    /// Whether the session is no longer than texts can tell.
    pub open spec fn readable(self) -> bool {
        self.span matches Some(span) ==> span.last_day() - span.first_day() < MAX_SPAN_DAYS
    }

    /// Whether a text of the session names a moment within a leap second.
    pub open spec fn has_leap_second(session: LiveSession) -> bool {
        ||| clock::rfc3339_reading(session.start@) matches Some(t) && t.1 >= clock::NANOS_PER_SECOND
        ||| clock::rfc3339_reading(session.end@) matches Some(t) && t.1 >= clock::NANOS_PER_SECOND
    }

    /// The session on the local clock. There is no answer where the local
    /// clock skips or repeats a turn of the day that bounds the session.
    pub fn read(session: LiveSession) -> (r: Option<TimedSession>)
        ensures
            r matches Some(timed) ==> {
                &&& timed.session == session
                &&& timed.valid()
                &&& timed.faithful()
                &&& timed.readable()
                &&& timed.local()
            },
            session.takes_no_time() ==> r is Some,
            r is None ==> session.unplaced(),
    {
        let start: Option<LocalTime> = parse_datetime(&session.start);
        match (start, parse_datetime(&session.end)) {
            (Some(from), Some(to)) => match Span::between(from, to) {
                Some(span) => Some(TimedSession { session, start, span: Some(span) }),
                None => None,
            },
            _ => Some(TimedSession { session, start, span: None }),
        }
    }

    /// The session with its start on the local clock, and no more.
    pub fn started(session: LiveSession) -> (r: TimedSession)
        ensures
            r.session == session,
            r.valid(),
            r.span is None,
            names(session.start@, r.start),
            r.local(),
    {
        let start: Option<LocalTime> = parse_datetime(&session.start);
        TimedSession { session, start, span: None }
    }

    /// The session on a clock that is always `offset` seconds ahead.
    pub fn at_offset(session: LiveSession, offset: i32) -> (r: Option<TimedSession>)
        requires
            clock::valid_offset(offset as int),
        ensures
            r matches Some(timed) ==> {
                &&& timed.session == session
                &&& timed.valid()
                &&& timed.faithful()
                &&& timed.readable()
                &&& timed.start matches Some(start) ==> start.offset == offset
                &&& timed.span matches Some(span) ==> {
                    &&& span.end.offset == offset
                    &&& span.head == offset
                    &&& span.tail == offset
                }
            },
            !TimedSession::has_leap_second(session) ==> r is Some,
            r is None ==> {
                &&& clock::moment_in_text(session.start@, offset) matches Some(start)
                &&& clock::moment_in_text(session.end@, offset) matches Some(end)
                &&& !(Span { start, end, head: offset, tail: offset }).valid()
            },
    {
        let start: Option<LocalTime> = parse_datetime_at(&session.start, offset);
        match (start, parse_datetime_at(&session.end, offset)) {
            (Some(from), Some(to)) => match Span::with_turns(from, to, offset, offset) {
                Some(span) => Some(TimedSession { session, start, span: Some(span) }),
                None => None,
            },
            _ => Some(TimedSession { session, start, span: None }),
        }
    }
}

/// Whether `timed` are the given sessions, each where its texts say, on the
/// local clock.
pub open spec fn placed(timed: Seq<TimedSession>, sessions: Seq<LiveSession>) -> bool {
    &&& timed.len() == sessions.len()
    &&& forall|i: int|
        0 <= i < timed.len() ==> {
            &&& (#[trigger] timed[i]).session == sessions[i]
            &&& timed[i].valid()
            &&& timed[i].faithful()
            &&& timed[i].readable()
            &&& timed[i].local()
        }
}

/// Whether the sessions have their place on any clock, whatever it does at
/// the turns of the day: none takes any time.
pub open spec fn placed_anywhere(sessions: Seq<LiveSession>) -> bool {
    forall|i: int| 0 <= i < sessions.len() ==> (#[trigger] sessions[i]).takes_no_time()
}

/// Whether the machine's time zone has no place for one of the sessions.
pub open spec fn some_unplaced(sessions: Seq<LiveSession>) -> bool {
    exists|i: int| 0 <= i < sessions.len() && (#[trigger] sessions[i]).unplaced()
}

/// The sessions on the local clock. There is no answer where the local clock
/// skips or repeats a turn of the day that bounds one of them.
pub fn read_sessions(sessions: &Vec<LiveSession>) -> (r: Option<Vec<TimedSession>>)
    ensures
        r matches Some(timed) ==> placed(timed@, sessions@),
        placed_anywhere(sessions@) ==> r is Some,
        r is None ==> some_unplaced(sessions@),
{
    let mut timed: Vec<TimedSession> = Vec::new();
    let mut i: usize = 0;
    while i < sessions.len()
        invariant
            i <= sessions@.len(),
            placed(timed@, sessions@.take(i as int)),
        decreases sessions@.len() - i,
    {
        match TimedSession::read(sessions[i].copy()) {
            Some(session) => {
                timed.push(session);
            },
            None => {
                return None;
            },
        }
        i = i + 1;
    }
    assert(sessions@.take(i as int) =~= sessions@);
    Some(timed)
}

/// The turns of the day that bound a stretch are 23:59:59 of the day on which
/// it starts and 00:00:00 of the day on which it ends, on the clock at those
/// turns.
pub proof fn law_turns_bound_the_days(span: Span)
    requires
        span.valid(),
        span.forward(),
        span.crosses(),
    ensures
        span.first_day_end().day() == span.start.day(),
        span.first_day_end().second_of_day() == 86399,
        span.first_day_end().offset == span.head,
        span.last_day_start().day() == span.end.day(),
        span.last_day_start().second_of_day() == 0,
        span.last_day_start().offset == span.tail,
        clock::seconds_between(span.start, span.first_day_end()) >= 0,
        clock::seconds_between(span.last_day_start(), span.end) >= 0,
{
}

/// A placed session begins and ends at the moments that its texts name, and has
/// no place where one of them names none.
pub proof fn law_session_lies_where_its_texts_say(timed: TimedSession)
    requires
        timed.valid(),
        timed.faithful(),
    ensures
        timed.start is Some <==> clock::rfc3339_reading(timed.session.start@) is Some,
        timed.span is Some <==> clock::rfc3339_reading(timed.session.start@) is Some
            && clock::rfc3339_reading(timed.session.end@) is Some,
        timed.start matches Some(start) ==> {
            let read = clock::rfc3339_reading(timed.session.start@)->0;
            start.utc == read.0 && start.nanos == read.1
        },
        timed.span matches Some(span) ==> {
            let from = clock::rfc3339_reading(timed.session.start@)->0;
            let to = clock::rfc3339_reading(timed.session.end@)->0;
            &&& span.start.utc == from.0 && span.start.nanos == from.1
            &&& span.end.utc == to.0 && span.end.nanos == to.1
        },
        timed.session.takes_no_time() <==> !(timed.span matches Some(span) && span.start.precedes(
            span.end,
        )),
{
}

} // verus!
