//! Days of the proleptic Gregorian calendar, counted so that January 1 of
//! year 1 is day 1.
use chrono::{Datelike, NaiveDate};
use vstd::prelude::*;

use crate::text;

verus! {

/// The first year that `chrono` can represent.
pub const MIN_YEAR: i32 = -262143;

/// The last year that `chrono` can represent.
pub const MAX_YEAR: i32 = 262142;

/// January 1 of [`MIN_YEAR`].
pub const MIN_DAY: i32 = -95746129;

/// December 31 of [`MAX_YEAR`].
pub const MAX_DAY: i32 = 95745399;

/// January 1, 1970.
pub const EPOCH_DAY: i32 = 719163;

pub open spec fn is_leap(year: int) -> bool {
    year % 4 == 0 && (year % 100 != 0 || year % 400 == 0)
}

pub open spec fn leap_day(year: int) -> int {
    if is_leap(year) {
        1
    } else {
        0
    }
}

/// The days of a year that lie before its month `month`.
pub open spec fn days_before_month(year: int, month: int) -> int {
    if month <= 1 {
        0
    } else if month == 2 {
        31
    } else if month == 3 {
        59 + leap_day(year)
    } else if month == 4 {
        90 + leap_day(year)
    } else if month == 5 {
        120 + leap_day(year)
    } else if month == 6 {
        151 + leap_day(year)
    } else if month == 7 {
        181 + leap_day(year)
    } else if month == 8 {
        212 + leap_day(year)
    } else if month == 9 {
        243 + leap_day(year)
    } else if month == 10 {
        273 + leap_day(year)
    } else if month == 11 {
        304 + leap_day(year)
    } else if month == 12 {
        334 + leap_day(year)
    } else {
        365 + leap_day(year)
    }
}

pub open spec fn month_length(year: int, month: int) -> int {
    days_before_month(year, month + 1) - days_before_month(year, month)
}

/// The days before January 1 of `year`, counted from January 1 of year 1.
pub open spec fn days_before_year(year: int) -> int {
    365 * (year - 1) + (year - 1) / 4 - (year - 1) / 100 + (year - 1) / 400
}

/// The number of the day `year`-`month`-`day`.
pub open spec fn day_number(year: int, month: int, day: int) -> int {
    days_before_year(year) + days_before_month(year, month) + day
}

pub open spec fn valid_ymd(year: int, month: int, day: int) -> bool {
    &&& MIN_YEAR <= year <= MAX_YEAR
    &&& 1 <= month <= 12
    &&& 1 <= day <= month_length(year, month)
}

/// Year, month and day of the day with the given number.
pub open spec fn ymd_of(number: int) -> (int, int, int) {
    choose|ymd: (int, int, int)| #[trigger]
        valid_ymd(ymd.0, ymd.1, ymd.2) && day_number(ymd.0, ymd.1, ymd.2) == number
}

/// The day of the week, Monday being 0.
pub open spec fn weekday_of(number: int) -> int {
    (number - 1) % 7
}

pub open spec fn in_calendar(number: int) -> bool {
    MIN_DAY <= number <= MAX_DAY
}

/// The Monday of the week that holds the day.
pub open spec fn monday_of(number: int) -> int {
    number - weekday_of(number)
}

/// The first day of the month that holds the day.
pub open spec fn month_start_of(number: int) -> int {
    day_number(ymd_of(number).0, ymd_of(number).1, 1)
}

/// How a year is written: four digits, and a sign in front of any year that
/// is negative or needs more than four.
pub open spec fn year_text(year: int) -> Seq<char> {
    if 0 <= year <= 9999 {
        text::digits(year as nat, 4)
    } else if year < 0 {
        seq!['-'] + text::digits((-year) as nat, 4)
    } else {
        seq!['+'] + text::digits(year as nat, 4)
    }
}

/// `YYYY-MM-DD`.
pub open spec fn date_text(number: int) -> Seq<char> {
    let (year, month, day) = ymd_of(number);
    year_text(year) + seq!['-'] + text::digits(month as nat, 2) + seq!['-'] + text::digits(day as nat, 2)
}

proof fn lemma_years_in_order(a: int, b: int)
    requires
        a < b,
    ensures
        days_before_year(a) + 365 + leap_day(a) <= days_before_year(b),
{
}

proof fn lemma_months_in_order(year: int, a: int, b: int)
    requires
        1 <= a < b <= 13,
    ensures
        days_before_month(year, a) + month_length(year, a) <= days_before_month(year, b),
        days_before_month(year, b) <= 365 + leap_day(year),
{
}

/// Every day of the calendar has one year, month and day, and
/// [`ymd_of`] gives it.
pub proof fn lemma_ymd_unique(year: int, month: int, day: int)
    requires
        valid_ymd(year, month, day),
    ensures
        ymd_of(day_number(year, month, day)) == (year, month, day),
        in_calendar(day_number(year, month, day)),
{
    let number = day_number(year, month, day);
    let given = (year, month, day);
    assert(valid_ymd(given.0, given.1, given.2) && day_number(given.0, given.1, given.2) == number);
    let (y, m, d) = ymd_of(number);
    assert(valid_ymd(y, m, d) && day_number(y, m, d) == number);
    lemma_months_in_order(y, m, 13);
    lemma_months_in_order(year, month, 13);
    if y < year {
        lemma_years_in_order(y, year);
    } else if year < y {
        lemma_years_in_order(year, y);
    } else if m < month {
        lemma_months_in_order(y, m, month);
    } else if month < m {
        lemma_months_in_order(y, month, m);
    }
    if year > MIN_YEAR {
        lemma_years_in_order(MIN_YEAR as int, year);
    }
    if year < MAX_YEAR {
        lemma_years_in_order(year, MAX_YEAR as int);
    }
}

/// Every day of the calendar has a year, a month and a day.
pub proof fn lemma_ymd_exists(number: int)
    requires
        in_calendar(number),
    ensures
        ({
            let (year, month, day) = ymd_of(number);
            valid_ymd(year, month, day) && day_number(year, month, day) == number
        }),
    decreases number - MIN_DAY,
{
    let found = if number == MIN_DAY {
        (MIN_YEAR as int, 1int, 1int)
    } else {
        lemma_ymd_exists(number - 1);
        let (year, month, day) = ymd_of(number - 1);
        if day < month_length(year, month) {
            (year, month, day + 1)
        } else if month < 12 {
            (year, month + 1, 1int)
        } else {
            (year + 1, 1int, 1int)
        }
    };
    assert(valid_ymd(found.0, found.1, found.2) && day_number(found.0, found.1, found.2) == number);
}

/// A day of the calendar, by its number.
#[derive(Clone, Copy, Debug, PartialEq, Eq, Structural)]
pub struct Date {
    pub day: i32,
}

/// `NaiveDate::from_ymd_opt`, and `num_days_from_ce` of the date it makes:
/// a date comes back exactly for a year, month and day that exist within
/// the range of years, and its number is [`day_number`] of the three.
#[verifier::external_body]
fn number_from_ymd(year: i32, month: u32, day: u32) -> (r: Option<i32>)
    ensures
        r is Some <==> valid_ymd(year as int, month as int, day as int),
        r matches Some(number) ==> number == day_number(year as int, month as int, day as int),
{
    NaiveDate::from_ymd_opt(year, month, day).map(|date| date.num_days_from_ce())
}

/// `NaiveDate::from_num_days_from_ce_opt`, with `year`, `month` and `day`
/// of the date it makes: they exist, and the day's number is the one given.
#[verifier::external_body]
fn ymd_from_number(number: i32) -> (r: (i32, u32, u32))
    requires
        in_calendar(number as int),
    ensures
        valid_ymd(r.0 as int, r.1 as int, r.2 as int),
        day_number(r.0 as int, r.1 as int, r.2 as int) == number,
{
    let date = NaiveDate::from_num_days_from_ce_opt(number).unwrap();
    (date.year(), date.month(), date.day())
}

/// `NaiveDate::weekday`, counted by `num_days_from_monday`: day 1 is a
/// Monday, and the seven days follow one another.
#[verifier::external_body]
fn weekday_from_number(number: i32) -> (r: u32)
    requires
        in_calendar(number as int),
    ensures
        r == weekday_of(number as int),
{
    NaiveDate::from_num_days_from_ce_opt(number).unwrap().weekday().num_days_from_monday()
}

/// `NaiveDate::format` with `%Y-%m-%d`: the year as [`year_text`] writes
/// it, then month and day of two digits each.
#[verifier::external_body]
fn text_from_number(number: i32) -> (r: String)
    requires
        in_calendar(number as int),
    ensures
        r@ == date_text(number as int),
{
    NaiveDate::from_num_days_from_ce_opt(number).unwrap().format("%Y-%m-%d").to_string()
}

impl Date {
    pub open spec fn valid(self) -> bool {
        in_calendar(self.day as int)
    }

    /// The date of a year, month and day, where there is one.
    pub fn from_ymd_opt(year: i32, month: u32, day: u32) -> (r: Option<Date>)
        ensures
            r is Some <==> valid_ymd(year as int, month as int, day as int),
            r matches Some(date) ==> {
                &&& date.day == day_number(year as int, month as int, day as int)
                &&& date.valid()
            },
    {
        match number_from_ymd(year, month, day) {
            Some(number) => {
                proof {
                    lemma_ymd_unique(year as int, month as int, day as int);
                }
                Some(Date { day: number })
            },
            None => None,
        }
    }

    /// Year, month and day.
    pub fn ymd(self) -> (r: (i32, u32, u32))
        requires
            self.valid(),
        ensures
            (r.0 as int, r.1 as int, r.2 as int) == ymd_of(self.day as int),
            valid_ymd(r.0 as int, r.1 as int, r.2 as int),
            day_number(r.0 as int, r.1 as int, r.2 as int) == self.day,
    {
        let r = ymd_from_number(self.day);
        proof {
            lemma_ymd_unique(r.0 as int, r.1 as int, r.2 as int);
        }
        r
    }

    /// The day of the week, Monday being 0.
    pub fn weekday(self) -> (r: u32)
        requires
            self.valid(),
        ensures
            r == weekday_of(self.day as int),
            r < 7,
    {
        weekday_from_number(self.day)
    }

    /// The Monday of this date's week.
    pub fn week_start(self) -> (r: Date)
        requires
            self.valid(),
        ensures
            r.day == monday_of(self.day as int),
    {
        Date { day: self.day - self.weekday() as i32 }
    }

    /// The first day of this date's month.
    pub fn month_start(self) -> (r: Date)
        requires
            self.valid(),
        ensures
            r.day == month_start_of(self.day as int),
            r.valid(),
            self.day - 31 < r.day <= self.day,
    {
        let (year, month, _day) = self.ymd();
        match Date::from_ymd_opt(year, month, 1) {
            Some(date) => date,
            None => self,
        }
    }

    /// The date as `YYYY-MM-DD`.
    pub fn text(self) -> (r: String)
        requires
            self.valid(),
        ensures
            r@ == date_text(self.day as int),
    {
        text_from_number(self.day)
    }
}

/// A week begins on the Monday on or before each of its days, less than a week
/// earlier.
pub proof fn law_week_begins_on_monday(day: int)
    ensures
        weekday_of(monday_of(day)) == 0,
        day - 7 < monday_of(day) <= day,
        weekday_of(day + 1) == (weekday_of(day) + 1) % 7,
        weekday_of(1) == 0,
{
}

/// A month begins on its first day, in the same year and month as each of its
/// days, less than a month of 31 days earlier.
pub proof fn law_month_begins_on_its_first_day(day: int)
    requires
        in_calendar(day),
    ensures
        ymd_of(month_start_of(day)) == (ymd_of(day).0, ymd_of(day).1, 1int),
        day - 31 < month_start_of(day) <= day,
        day - month_start_of(day) + 1 == ymd_of(day).2,
{
    lemma_ymd_exists(day);
    let (year, month, _day) = ymd_of(day);
    lemma_ymd_unique(year, month, 1);
}

} // verus!
