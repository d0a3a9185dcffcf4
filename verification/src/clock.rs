//! Moments in time, as seen on the clock of the place where the program runs.
use chrono::{DateTime, Datelike, FixedOffset, Local, NaiveDate, NaiveTime, Timelike};
use vstd::prelude::*;

use crate::calendar;
use crate::calendar::{Date, EPOCH_DAY};
use crate::reading;
use crate::text;

verus! {

/// The first second that `chrono` can represent, counted from 1970.
pub const MIN_UTC: i64 = -8334601228800;

/// The last second that `chrono` can represent.
pub const MAX_UTC: i64 = 8210266876799;

/// The first second that an RFC 3339 text can name: year 0 begins, at an
/// offset one minute short of a day.
pub const MIN_READ_UTC: i64 = -62167305540;

/// The last second that an RFC 3339 text can name: year 9999 ends.
pub const MAX_READ_UTC: i64 = 253402387139;

/// The nanoseconds from which on a moment lies within a leap second.
pub const NANOS_PER_SECOND: u32 = 1000000000;

/// Days by which seconds are moved so that none is negative.
const SHIFT_DAYS: i64 = 100000000;

/// A moment: the second since 1970 in universal time, the nanoseconds past
/// it, and the seconds by which the local clock was ahead then.
#[derive(Clone, Copy, Debug, PartialEq, Eq, Structural)]
pub struct LocalTime {
    pub utc: i64,
    pub nanos: u32,
    pub offset: i32,
}

/// A second and the nanoseconds past it; a leap second carries on the
/// nanoseconds of the last second of its minute.
pub open spec fn valid_instant(utc: int, nanos: int) -> bool {
    &&& MIN_UTC <= utc <= MAX_UTC
    &&& 0 <= nanos < 2 * NANOS_PER_SECOND
    &&& nanos >= NANOS_PER_SECOND ==> utc % 60 == 59
}

pub open spec fn valid_offset(offset: int) -> bool {
    -86400 < offset < 86400
}

/// The number of the local day, from the universal second and the offset.
pub open spec fn local_day(utc: int, offset: int) -> int {
    EPOCH_DAY + (utc + offset) / 86400
}

/// The second within the local day.
pub open spec fn local_second(utc: int, offset: int) -> int {
    (utc + offset) % 86400
}

/// The correction for a leap second that lies in the earlier moment, or in
/// the later one, by their seconds of the universal day.
pub open spec fn leap_correction(from_utc: int, from_nanos: int, to_utc: int, to_nanos: int) -> int {
    if to_utc % 86400 > from_utc % 86400 && from_nanos >= NANOS_PER_SECOND {
        1
    } else if to_utc % 86400 < from_utc % 86400 && to_nanos >= NANOS_PER_SECOND {
        -1
    } else {
        0
    }
}

/// The whole seconds from one moment to another, cut off towards zero.
pub open spec fn seconds_between(from: LocalTime, to: LocalTime) -> int {
    let nanos = to.nanos - from.nanos;
    let floor = to.utc - from.utc + leap_correction(
        from.utc as int,
        from.nanos as int,
        to.utc as int,
        to.nanos as int,
    ) + nanos / (NANOS_PER_SECOND as int);
    if floor < 0 && nanos % (NANOS_PER_SECOND as int) > 0 {
        floor + 1
    } else {
        floor
    }
}

/// What `DateTime::parse_from_rfc3339` reads in a text: second, nanoseconds
/// and offset, or nothing where it finds no date and time.
pub uninterp spec fn rfc3339_reading(text: Seq<char>) -> Option<(i64, u32, i32)>;

/// What `DateTime::to_rfc3339` writes for a second, nanoseconds and offset.
pub uninterp spec fn rfc3339_writing(utc: i64, nanos: u32, offset: i32) -> Seq<char>;

/// The date that a text names, on the clock that the text itself gives.
pub open spec fn date_in_text(text: Seq<char>) -> Option<int> {
    match rfc3339_reading(text) {
        Some((utc, _nanos, offset)) => Some(local_day(utc as int, offset as int)),
        None => None,
    }
}

/// `DateTime::parse_from_rfc3339`: the reading, split into `timestamp`,
/// `timestamp_subsec_nanos` and the offset. Years have four digits there and
/// offsets are whole minutes within a day, which bounds the numbers.
#[verifier::external_body]
fn read_rfc3339(text: &str) -> (r: Option<(i64, u32, i32)>)
    ensures
        r == rfc3339_reading(text@),
        r matches Some((utc, nanos, offset)) ==> {
            &&& MIN_READ_UTC <= utc <= MAX_READ_UTC
            &&& valid_instant(utc as int, nanos as int)
            &&& valid_offset(offset as int)
        },
{
    DateTime::parse_from_rfc3339(text).ok().map(|t| (t.timestamp(), t.timestamp_subsec_nanos(), t.offset().local_minus_utc()))
}

/// `DateTime::to_rfc3339`. What it writes is read back unchanged where the
/// offset is a whole number of minutes, which is all the format can hold,
/// and the local year has four digits, which is all that is read.
#[verifier::external_body]
fn write_rfc3339(utc: i64, nanos: u32, offset: i32) -> (r: String)
    requires
        valid_instant(utc as int, nanos as int),
        valid_offset(offset as int),
    ensures
        r@ == rfc3339_writing(utc, nanos, offset),
        offset as int % 60 == 0 && calendar::day_number(0, 1, 1) <= local_day(utc as int, offset as int)
            <= calendar::day_number(9999, 12, 31) ==> rfc3339_reading(r@) == Some((utc, nanos, offset)),
{
    let zone = FixedOffset::east_opt(offset).unwrap();
    DateTime::from_timestamp(utc, nanos).unwrap().with_timezone(&zone).to_rfc3339()
}

/// `DateTime::with_timezone` to `Local`: the same moment, with the offset of
/// the local clock. Which offset depends on the time zone of the machine; it
/// is always less than a day, and [`reading::given_by_zone`] keeps that the zone
/// gave it. On a machine whose zone is a day or more off, `chrono` panics here,
/// whatever the moment.
#[verifier::external_body]
fn local_time_at(utc: i64, nanos: u32) -> (r: LocalTime)
    requires
        valid_instant(utc as int, nanos as int),
    ensures
        r.utc == utc,
        r.nanos == nanos,
        valid_offset(r.offset as int),
        reading::given_by_zone(r),
{
    let local = DateTime::from_timestamp(utc, nanos).unwrap().with_timezone(&Local);
    LocalTime {
        utc: local.timestamp(),
        nanos: local.timestamp_subsec_nanos(),
        offset: local.offset().local_minus_utc(),
    }
}

/// `NaiveDateTime::and_local_timezone` to `Local`, of a second of a day: the
/// moment at which the local clock shows that time, where it shows it exactly
/// once. Whether it does depends on the time zone of the machine, and is kept by
/// [`reading::given_by_zone`] and [`reading::refused_by_zone`].
#[verifier::external_body]
pub(crate) fn local_time_on(number: i32, second: u32) -> (r: Option<LocalTime>)
    requires
        calendar::in_calendar(number as int),
        second < 86400,
    ensures
        r matches Some(time) ==> {
            &&& valid_instant(time.utc as int, time.nanos as int)
            &&& valid_offset(time.offset as int)
            &&& time.day() == number
            &&& time.second_of_day() == second
            &&& time.nanos == 0
            &&& reading::given_by_zone(time)
        },
        r is None ==> reading::refused_by_zone(number as int, second as int),
{
    let date = NaiveDate::from_num_days_from_ce_opt(number).unwrap();
    let time = NaiveTime::from_num_seconds_from_midnight_opt(second, 0).unwrap();
    let local = date.and_time(time).and_local_timezone(Local).single()?;
    Some(LocalTime {
        utc: local.timestamp(),
        nanos: local.timestamp_subsec_nanos(),
        offset: local.offset().local_minus_utc(),
    })
}

/// `Local::now`, with `date_naive`, `num_seconds_from_midnight` and
/// `nanosecond` of it: the number of the local day, the second of that day,
/// the nanoseconds past it and the offset. The machine's clock is past 1970
/// and never within a leap second, and `date_naive` gives a date of the
/// calendar; that the clock shows this is kept by [`reading::shown_by_clock`]. On
/// a machine whose clock is set before 1970 or past the end of
/// the calendar, or whose zone is a day or more off, `chrono` panics here.
#[verifier::external_body]
fn read_clock() -> (r: (i32, u32, u32, i32))
    ensures
        calendar::in_calendar(r.0 as int),
        r.1 < 86400,
        r.2 < NANOS_PER_SECOND,
        valid_offset(r.3 as int),
        0 <= (r.0 - EPOCH_DAY) * 86400 + r.1 - r.3 <= MAX_UTC,
        reading::shown_by_clock(
            (LocalTime {
                utc: ((r.0 - EPOCH_DAY) * 86400 + r.1 - r.3) as i64,
                nanos: r.2,
                offset: r.3,
            }),
        ),
{
    let now = Local::now();
    let day = now.date_naive().num_days_from_ce();
    (day, now.num_seconds_from_midnight(), now.nanosecond(), now.offset().local_minus_utc())
}

/// The difference of two `DateTime`s, by `TimeDelta::num_seconds`.
#[verifier::external_body]
fn count_seconds(from: LocalTime, to: LocalTime) -> (r: i64)
    requires
        valid_instant(from.utc as int, from.nanos as int),
        valid_instant(to.utc as int, to.nanos as int),
    ensures
        r == seconds_between(from, to),
{
    let start = DateTime::from_timestamp(from.utc, from.nanos).unwrap();
    let end = DateTime::from_timestamp(to.utc, to.nanos).unwrap();
    (end - start).num_seconds()
}

impl LocalTime {
    pub open spec fn day(self) -> int {
        local_day(self.utc as int, self.offset as int)
    }

    pub open spec fn second_of_day(self) -> int {
        local_second(self.utc as int, self.offset as int)
    }

    pub open spec fn minute_of_day(self) -> nat {
        (self.second_of_day() / 60) as nat
    }

    pub open spec fn valid(self) -> bool {
        &&& valid_instant(self.utc as int, self.nanos as int)
        &&& valid_offset(self.offset as int)
        &&& calendar::in_calendar(self.day())
    }

    /// Whether this moment comes before another, wherever the clocks stand.
    pub open spec fn precedes(self, other: LocalTime) -> bool {
        self.utc < other.utc || self.utc == other.utc && self.nanos < other.nanos
    }

    /// The seconds on the local clock since a day before the calendar begins.
    fn shifted(self) -> (r: u64)
        requires
            self.valid(),
        ensures
            r == self.utc + self.offset + 86400 * SHIFT_DAYS,
    {
        (self.utc + self.offset as i64 + 86400 * SHIFT_DAYS) as u64
    }

    /// The date on the local clock.
    pub fn date_naive(self) -> (r: Date)
        requires
            self.valid(),
        ensures
            r.day == self.day(),
            r.valid(),
    {
        let days: u64 = self.shifted() / 86400;
        Date { day: (days as i64 - SHIFT_DAYS as i64 + EPOCH_DAY as i64) as i32 }
    }

    /// The minutes since midnight on the local clock.
    pub fn minutes(self) -> (r: u32)
        requires
            self.valid(),
        ensures
            r == self.minute_of_day(),
            r < 1440,
    {
        (self.shifted() % 86400 / 60) as u32
    }

    /// The hour on the local clock.
    pub fn hour(self) -> (r: u32)
        requires
            self.valid(),
        ensures
            r == self.minute_of_day() / 60,
            r < 24,
    {
        self.minutes() / 60
    }

    /// The time of day as `HH:MM`.
    pub fn clock(self) -> (r: String)
        requires
            self.valid(),
        ensures
            r@ == text::clock_text(self.minute_of_day()),
    {
        text::fmt_average_start_time(self.minutes())
    }

    pub fn is_before(self, other: LocalTime) -> (r: bool)
        ensures
            r == self.precedes(other),
    {
        self.utc < other.utc || self.utc == other.utc && self.nanos < other.nanos
    }

    /// The whole seconds from this moment to another.
    pub fn seconds_until(self, other: LocalTime) -> (r: i64)
        requires
            self.valid(),
            other.valid(),
        ensures
            r == seconds_between(self, other),
    {
        count_seconds(self, other)
    }

    /// The moment as an RFC 3339 text.
    pub fn to_rfc3339(self) -> (r: String)
        requires
            self.valid(),
        ensures
            r@ == rfc3339_writing(self.utc, self.nanos, self.offset),
            self.offset as int % 60 == 0 && calendar::day_number(0, 1, 1) <= self.day() <= calendar::day_number(
                9999,
                12,
                31,
            ) ==> rfc3339_reading(r@) == Some((self.utc, self.nanos, self.offset)),
    {
        write_rfc3339(self.utc, self.nanos, self.offset)
    }
}

/// The moment that a text names, on a clock that is `offset` seconds ahead.
pub fn parse_datetime_at(text: &str, offset: i32) -> (r: Option<LocalTime>)
    requires
        valid_offset(offset as int),
    ensures
        r == moment_in_text(text@, offset),
        r matches Some(t) ==> t.valid() && MIN_READ_UTC <= t.utc <= MAX_READ_UTC,
{
    match read_rfc3339(text) {
        Some((utc, nanos, _offset)) => Some(LocalTime { utc, nanos, offset }),
        None => None,
    }
}

/// The moment that a text names, on a clock that is `offset` seconds ahead.
pub open spec fn moment_in_text(text: Seq<char>, offset: i32) -> Option<LocalTime> {
    match rfc3339_reading(text) {
        Some((utc, nanos, _offset)) => Some(LocalTime { utc, nanos, offset }),
        None => None,
    }
}

/// The moment that a text names, on the local clock.
pub fn parse_datetime(text: &str) -> (r: Option<LocalTime>)
    ensures
        r is Some <==> rfc3339_reading(text@) is Some,
        r matches Some(t) ==> {
            &&& t.valid()
            &&& r == moment_in_text(text@, t.offset)
            &&& MIN_READ_UTC <= t.utc <= MAX_READ_UTC
            &&& reading::given_by_zone(t)
        },
{
    match read_rfc3339(text) {
        Some((utc, nanos, _offset)) => Some(local_time_at(utc, nanos)),
        None => None,
    }
}

/// The date that a text names, on the clock that the text itself gives.
pub fn parse_date(text: &str) -> (r: Option<Date>)
    ensures
        r is Some <==> date_in_text(text@) is Some,
        r matches Some(date) ==> date.valid() && date_in_text(text@) == Some(date.day as int),
{
    match read_rfc3339(text) {
        Some((utc, nanos, offset)) => Some((LocalTime { utc, nanos, offset }).date_naive()),
        None => None,
    }
}

/// The current moment.
pub fn local_now() -> (r: LocalTime)
    ensures
        r.valid(),
        r.utc >= 0,
        r.nanos < NANOS_PER_SECOND,
        reading::shown_by_clock(r),
{
    let (day, second, nanos, offset) = read_clock();
    let utc: i64 = (day as i64 - EPOCH_DAY as i64) * 86400 + second as i64 - offset as i64;
    LocalTime { utc, nanos, offset }
}

/// A local clock shows the universal second moved by its offset: as a day, a
/// second of that day, and the minute that this second lies in.
pub proof fn law_clock_shows_the_moved_second(time: LocalTime)
    ensures
        (time.day() - EPOCH_DAY) * 86400 + time.second_of_day() == time.utc + time.offset,
        0 <= time.second_of_day() < 86400,
        60 * time.minute_of_day() <= time.second_of_day() < 60 * time.minute_of_day() + 60,
{
}

/// Moments come one after another, wherever the clocks stand: of two moments
/// that differ one precedes the other, and a moment between two others lies
/// between them.
pub proof fn law_moments_are_ordered(a: LocalTime, b: LocalTime, c: LocalTime)
    ensures
        a.precedes(b) ==> !b.precedes(a),
        a.precedes(b) && b.precedes(c) ==> a.precedes(c),
        !a.precedes(b) && !b.precedes(a) <==> a.utc == b.utc && a.nanos == b.nanos,
        a.utc < b.utc ==> a.precedes(b),
        a.utc == b.utc && a.nanos < b.nanos ==> a.precedes(b),
{
}

/// A text names one moment, whatever clock it is shown on, and that is what
/// reading the text gives.
pub proof fn law_text_names_one_moment(text: Seq<char>, offset: i32)
    ensures
        moment_in_text(text, offset) is Some <==> rfc3339_reading(text) is Some,
        moment_in_text(text, offset) matches Some(time) ==> {
            &&& rfc3339_reading(text) matches Some(read)
            &&& time.utc == read.0
            &&& time.nanos == read.1
            &&& time.offset == offset
        },
        rfc3339_reading(text) matches Some(read) ==> date_in_text(text) == Some(
            (LocalTime { utc: read.0, nanos: read.1, offset: read.2 }).day(),
        ),
        rfc3339_reading(text) is None ==> date_in_text(text) is None,
{
}

} // verus!
