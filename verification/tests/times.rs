use plugin_potato_live::calendar::{Date, EPOCH_DAY, MAX_DAY, MAX_YEAR, MIN_DAY, MIN_YEAR};
use plugin_potato_live::clock::{
    local_now, parse_date, parse_datetime, parse_datetime_at, LocalTime, NANOS_PER_SECOND,
};
use plugin_potato_live::hours::{count_hundredths, count_tenths, fmt_hours};
use plugin_potato_live::text::fmt_average_start_time;

fn leap(year: i64) -> bool {
    year.rem_euclid(4) == 0 && (year.rem_euclid(100) != 0 || year.rem_euclid(400) == 0)
}

fn number(year: i64, month: usize, day: i64) -> i64 {
    let lengths = [31, if leap(year) { 29 } else { 28 }, 31, 30, 31, 30, 31, 31, 30, 31, 30, 31];
    let y = year - 1;
    let before: i64 = lengths[..month - 1].iter().sum();
    365 * y + y.div_euclid(4) - y.div_euclid(100) + y.div_euclid(400) + before + day
}

#[test]
fn days_are_numbered_through() {
    let years = [-262143, -262142, -401, -400, -5, -4, -1, 0, 1, 4, 1900, 2000, 2024, 2026, 9999, 10000, 262142];
    for &year in &years {
        for month in 1..=12u32 {
            for day in [1u32, 28, 29, 30, 31] {
                let lengths =
                    [31, if leap(year) { 29 } else { 28 }, 31, 30, 31, 30, 31, 31, 30, 31, 30, 31];
                let date = Date::from_ymd_opt(year as i32, month, day);
                if day as i64 <= lengths[month as usize - 1] {
                    let date = date.unwrap();
                    assert_eq!(date.day as i64, number(year, month as usize, day as i64));
                    assert_eq!(date.ymd(), (year as i32, month, day));
                    assert_eq!(date.month_start().ymd(), (year as i32, month, 1));
                    assert_eq!(date.weekday() as i64, (date.day as i64 - 1).rem_euclid(7));
                } else {
                    assert_eq!(date, None);
                }
            }
        }
    }
}

#[test]
fn the_calendar_has_two_ends() {
    assert_eq!(Date::from_ymd_opt(MIN_YEAR, 1, 1), Some(Date { day: MIN_DAY }));
    assert_eq!(Date::from_ymd_opt(MAX_YEAR, 12, 31), Some(Date { day: MAX_DAY }));
    assert_eq!(Date::from_ymd_opt(MIN_YEAR - 1, 12, 31), None);
    assert_eq!(Date::from_ymd_opt(MAX_YEAR + 1, 1, 1), None);
    assert_eq!(Date::from_ymd_opt(1970, 1, 1), Some(Date { day: EPOCH_DAY }));
    assert_eq!(Date::from_ymd_opt(2026, 0, 1), None);
    assert_eq!(Date::from_ymd_opt(2026, 13, 1), None);
    assert_eq!(Date::from_ymd_opt(2026, 1, 0), None);
}

#[test]
fn dates_are_written() {
    let written = |y: i32, m: u32, d: u32| Date::from_ymd_opt(y, m, d).unwrap().text();
    assert_eq!(written(2026, 5, 9), "2026-05-09");
    assert_eq!(written(7, 12, 31), "0007-12-31");
    assert_eq!(written(0, 1, 1), "0000-01-01");
    assert_eq!(written(-5, 1, 1), "-0005-01-01");
    assert_eq!(written(10000, 1, 1), "+10000-01-01");
    assert_eq!(written(-262143, 1, 1), "-262143-01-01");
}

#[test]
fn weeks_begin_on_monday() {
    let date = Date::from_ymd_opt(2026, 5, 17).unwrap();
    assert_eq!(date.weekday(), 6);
    assert_eq!(date.week_start(), Date::from_ymd_opt(2026, 5, 11).unwrap());
    assert_eq!(date.week_start().weekday(), 0);
}

#[test]
fn moments_are_read() {
    let time = parse_datetime_at("2026-05-15T10:00:30.25+08:00", 8 * 3600).unwrap();
    assert_eq!(time, LocalTime { utc: 1778810430, nanos: 250000000, offset: 28800 });
    assert_eq!(time.date_naive(), Date::from_ymd_opt(2026, 5, 15).unwrap());
    assert_eq!((time.hour(), time.minutes(), time.clock()), (10, 600, "10:00".to_string()));
    let west = parse_datetime_at("2026-05-15T10:00:30.25+08:00", -11 * 3600).unwrap();
    assert_eq!(west.date_naive(), Date::from_ymd_opt(2026, 5, 14).unwrap());
    assert_eq!(west.clock(), "15:00");
    assert_eq!(parse_datetime_at("yesterday", 0), None);
    assert_eq!(parse_datetime_at("2026-05-15", 0), None);
    assert_eq!(parse_datetime_at("", 0), None);
    assert_eq!(parse_datetime("10:00"), None);
}

#[test]
fn moments_before_1970_have_their_day() {
    let time = parse_datetime_at("1969-12-31T23:59:59Z", 0).unwrap();
    assert_eq!(time.utc, -1);
    assert_eq!(time.date_naive(), Date { day: EPOCH_DAY - 1 });
    assert_eq!(time.clock(), "23:59");
}

#[test]
fn extreme_texts_stay_in_bounds() {
    let first = parse_datetime_at("0000-01-01T00:00:00+23:59", 0).unwrap();
    assert_eq!(first.utc, -62167305540);
    let last = parse_datetime_at("9999-12-31T23:59:59-23:59", 0).unwrap();
    assert_eq!(last.utc, 253402387139);
    assert_eq!(parse_datetime_at("9999-12-31T23:59:59-24:00", 0), None);
}

#[test]
fn the_date_of_a_text_goes_by_its_own_clock() {
    assert_eq!(
        parse_date("2026-05-15T00:30:00+08:00"),
        Date::from_ymd_opt(2026, 5, 15)
    );
    assert_eq!(
        parse_date("2026-05-15T00:30:00-08:00"),
        Date::from_ymd_opt(2026, 5, 15)
    );
    assert_eq!(parse_date("??"), None);
}

#[test]
fn the_local_clock_names_the_same_moment() {
    let local = parse_datetime("2026-05-15T00:30:00+08:00").unwrap();
    assert_eq!((local.utc, local.nanos), (1778776200, 0));
    assert!(local.offset.abs() < 86400);
}

#[test]
fn what_is_written_is_read_back() {
    for offset in [0, 28800, -12600, 86340, -86340] {
        for nanos in [0, 5, 120000000, 999999999] {
            let time = LocalTime { utc: 1778810430, nanos, offset };
            assert_eq!(parse_datetime_at(&time.to_rfc3339(), offset), Some(time));
        }
    }
    let leap = LocalTime { utc: 1483228799, nanos: 1500000000, offset: 0 };
    assert_eq!(leap.to_rfc3339(), "2016-12-31T23:59:60.500+00:00");
    assert_eq!(parse_datetime_at(&leap.to_rfc3339(), 0), Some(leap));
    let time = LocalTime { utc: 1778810430, nanos: 250000000, offset: 28800 };
    assert_eq!(time.to_rfc3339(), "2026-05-15T10:00:30.250+08:00");
    let ends = [
        LocalTime { utc: -62167219200, nanos: 0, offset: 0 },
        LocalTime { utc: 253402300799, nanos: 0, offset: 0 },
    ];
    for time in ends {
        assert_eq!(parse_datetime_at(&time.to_rfc3339(), 0), Some(time));
    }
}

fn whole_seconds(from: LocalTime, to: LocalTime) -> i64 {
    let second = NANOS_PER_SECOND as i64;
    let nanos = to.nanos as i64 - from.nanos as i64;
    let (a, b) = (from.utc.rem_euclid(86400), to.utc.rem_euclid(86400));
    let correction = if b > a && from.nanos >= NANOS_PER_SECOND {
        1
    } else if b < a && to.nanos >= NANOS_PER_SECOND {
        -1
    } else {
        0
    };
    let floor = to.utc - from.utc + correction + nanos.div_euclid(second);
    if floor < 0 && nanos.rem_euclid(second) > 0 {
        floor + 1
    } else {
        floor
    }
}

#[test]
fn seconds_between_moments() {
    let at = |text: &str| parse_datetime_at(text, 0).unwrap();
    let start = at("2026-05-14T09:56:00.825296639+08:00");
    let end = at("2026-05-14T14:19:00.636183118+08:00");
    assert_eq!(start.seconds_until(end), 15779);
    assert_eq!(end.seconds_until(start), -15779);
    assert!(start.is_before(end) && !end.is_before(start) && !start.is_before(start));
    let leap = at("2016-12-31T23:59:60Z");
    assert_eq!(leap.seconds_until(at("2017-01-01T00:00:00Z")), 0);
    assert_eq!(at("2016-12-31T23:59:59Z").seconds_until(leap), 1);
}

#[test]
fn seconds_between_moments_with_leap_seconds() {
    let mut moments = Vec::new();
    for utc in [-61i64, -1, 0, 59, 60, 119, 3599, 86339, 86399, 86400, 86459, 172799, 1483228799] {
        for nanos in [0u32, 1, 500000000, 999999999, 1000000000, 1000000001, 1999999999] {
            if nanos < NANOS_PER_SECOND || utc.rem_euclid(60) == 59 {
                moments.push(LocalTime { utc, nanos, offset: 0 });
            }
        }
    }
    for &from in &moments {
        for &to in &moments {
            assert_eq!(from.seconds_until(to), whole_seconds(from, to), "{:?} {:?}", from, to);
        }
    }
}

#[test]
fn the_clock_tells_the_time() {
    let now = local_now();
    assert!(now.utc > 1_700_000_000);
    assert!(now.nanos < NANOS_PER_SECOND);
    assert_eq!(now.date_naive().weekday() as i32, (now.date_naive().day - 1) % 7);
    assert!((now.minutes() as i64) == (now.utc + now.offset as i64).rem_euclid(86400) / 60);
    let later = local_now();
    assert!(!later.is_before(now));
    assert_eq!(parse_datetime(&now.to_rfc3339()).unwrap().utc, now.utc);
}

#[test]
fn test_fmt_hours() {
    assert_eq!(fmt_hours(3600), "1.0h");
    assert_eq!(fmt_hours(5400), "1.5h");
    assert_eq!(fmt_hours(10800), "3.0h");
    assert_eq!(fmt_hours(0), "0.0h");
}

#[test]
fn test_fmt_avg_time() {
    assert_eq!(fmt_average_start_time(600), "10:00");
    assert_eq!(fmt_average_start_time(735), "12:15");
    assert_eq!(fmt_average_start_time(0), "00:00");
    assert_eq!(fmt_average_start_time(1439), "23:59");
}

#[test]
fn long_times_keep_all_digits() {
    assert_eq!(fmt_average_start_time(1440), "24:00");
    assert_eq!(fmt_average_start_time(6005), "100:05");
}

fn samples() -> Vec<u64> {
    let mut list: Vec<u64> = (0..400_000).collect();
    let mut state: u64 = 88172645463325252;
    for bits in 1..64u32 {
        for _ in 0..2000 {
            state ^= state << 13;
            state ^= state >> 7;
            state ^= state << 17;
            list.push(state >> (64 - bits));
        }
        list.push((1 << bits) - 1);
        list.push(1 << bits);
        list.push((1 << bits) + 1);
    }
    list.push(u64::MAX);
    list
}

#[test]
fn hours_round_as_floating_point_does() {
    for secs in samples() {
        assert_eq!(fmt_hours(secs), format!("{:.1}h", secs as f64 / 3600.0), "{}", secs);
    }
}

#[test]
fn hundredths_round_as_floating_point_does() {
    for secs in samples() {
        let hours = (secs as f64 / 3600.0 * 100.0).round() / 100.0;
        assert_eq!(count_hundredths(secs) as f64 / 100.0, hours, "{}", secs);
    }
}

#[test]
fn tenths_are_the_nearest() {
    assert_eq!(count_tenths(179), 0);
    assert_eq!(count_tenths(181), 1);
    assert_eq!(count_tenths(25200), 70);
    for secs in 0..100_000u64 {
        let shown = 360 * count_tenths(secs);
        assert!(shown <= secs + 180 && secs <= shown + 180);
    }
}
