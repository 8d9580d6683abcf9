//! The proleptic Gregorian calendar, and the calendar date of a moment in seconds.

use vstd::prelude::*;

verus! {

/// Tells whether `y` is a leap year.
pub open spec fn is_leap(y: int) -> bool {
    y % 4 == 0 && (y % 100 != 0 || y % 400 == 0)
}

/// The number of days of the year `y`.
pub open spec fn days_in_year(y: int) -> int {
    if is_leap(y) {
        366
    } else {
        365
    }
}

/// The number of days of month `m` (1 to 12) of the year `y`.
pub open spec fn days_in_month(y: int, m: int) -> int {
    if m == 2 {
        if is_leap(y) {
            29
        } else {
            28
        }
    } else if m == 4 || m == 6 || m == 9 || m == 11 {
        30
    } else {
        31
    }
}

/// The number of days of the year `y` before month `m`.
pub open spec fn days_before_month(y: int, m: int) -> int
    decreases m,
{
    if m <= 1 {
        0
    } else {
        days_before_month(y, m - 1) + days_in_month(y, m - 1)
    }
}

/// The number of days from the start of 1970 to the start of the year `y`, negative before 1970.
pub open spec fn days_before_year(y: int) -> int
    decreases (if y >= 1970 { y - 1970 } else { 1970 - y }),
{
    if y == 1970 {
        0
    } else if y > 1970 {
        days_before_year(y - 1) + days_in_year(y - 1)
    } else {
        days_before_year(y + 1) - days_in_year(y)
    }
}

/// Tells whether year `y`, month `m`, day `d` is a date of the calendar.
pub open spec fn is_date(y: int, m: int, d: int) -> bool {
    1 <= m <= 12 && 1 <= d <= days_in_month(y, m)
}

/// The number of days from 1970-01-01 to the date `y`-`m`-`d`.
pub open spec fn day_number(y: int, m: int, d: int) -> int {
    days_before_year(y) + days_before_month(y, m) + d - 1
}

/// `days_before_year` in closed form.
proof fn lemma_days_before_year(y: int)
    ensures
        days_before_year(y) == 365 * (y - 1970) + ((y - 1) / 4 - (y - 1) / 100 + (y - 1) / 400)
            - 477,
    decreases (if y >= 1970 { y - 1970 } else { 1970 - y }),
{
    if y > 1970 {
        lemma_days_before_year(y - 1);
    } else if y < 1970 {
        lemma_days_before_year(y + 1);
    }
}

proof fn lemma_days_before_month(y: int)
    ensures
        days_before_month(y, 1) == 0,
        days_before_month(y, 2) == 31,
        ({
            let l: int = if is_leap(y) { 1 } else { 0 };
            &&& days_before_month(y, 3) == 59 + l
            &&& days_before_month(y, 4) == 90 + l
            &&& days_before_month(y, 5) == 120 + l
            &&& days_before_month(y, 6) == 151 + l
            &&& days_before_month(y, 7) == 181 + l
            &&& days_before_month(y, 8) == 212 + l
            &&& days_before_month(y, 9) == 243 + l
            &&& days_before_month(y, 10) == 273 + l
            &&& days_before_month(y, 11) == 304 + l
            &&& days_before_month(y, 12) == 334 + l
            &&& days_before_month(y, 13) == 365 + l
        }),
{
    reveal_with_fuel(days_before_month, 14);
}

/// The year of a 400-year era, counted from March, on day `doe` of the era.
proof fn lemma_year_of_era(doe: int)
    requires
        0 <= doe <= 146_096,
    ensures
        ({
            let yoe = (doe - doe / 1460 + doe / 36524 - doe / 146_096) / 365;
            let doy = doe - (365 * yoe + yoe / 4 - yoe / 100);
            &&& 0 <= yoe <= 399
            &&& 0 <= doy <= 365
            &&& doy == 365 ==> is_leap(yoe + 1)
        }),
{
}

/// The month and the day of the month on day `doy` of a year that begins in March.
proof fn lemma_month_of_year(doy: int)
    requires
        0 <= doy <= 365,
    ensures
        ({
            let mp = (5 * doy + 2) / 153;
            let d = doy - (153 * mp + 2) / 5 + 1;
            &&& 0 <= mp <= 11
            &&& 1 <= d <= 31
            &&& mp == 1 || mp == 3 || mp == 6 || mp == 8 ==> d <= 30
            &&& mp == 11 ==> d <= 29
            &&& mp == 11 && d == 29 ==> doy == 365
            &&& (153 * mp + 2) / 5 == if mp == 0 { 0int } else if mp == 1 { 31 } else if mp == 2 {
                61
            } else if mp == 3 { 92 } else if mp == 4 { 122 } else if mp == 5 { 153 } else if mp
                == 6 { 184 } else if mp == 7 { 214 } else if mp == 8 { 245 } else if mp == 9 {
                275
            } else if mp == 10 { 306 } else { 337 }
        }),
{
}

/// The date that stands on day `doy` of year `y`, counted from March.
proof fn lemma_march_year(y: int, mp: int, d: int, year: int, m: int)
    requires
        0 <= mp <= 11,
        m == if mp < 10 { mp + 3 } else { mp - 9 },
        year == if m <= 2 { y + 1 } else { y },
    ensures
        day_number(year, m, d) == 365 * y + (y / 4 - y / 100 + y / 400) - 719_468 + (153 * mp + 2)
            / 5 + d - 1,
{
    lemma_days_before_year(year);
    lemma_days_before_month(year);
    assert((y + 1 - 1) / 4 == y / 4);
}

/// The date that stands `days` days after 1970-01-01.
///
/// The day is first placed in a 400-year era, then in a year that begins in March, then in a month.
proof fn lemma_date_of_day(days: int, era: int, doe: int, yoe: int, doy: int, mp: int, d: int, m: int)
    requires
        era == (days + 719_468) / 146_097,
        doe == days + 719_468 - era * 146_097,
        yoe == (doe - doe / 1460 + doe / 36524 - doe / 146_096) / 365,
        doy == doe - (365 * yoe + yoe / 4 - yoe / 100),
        mp == (5 * doy + 2) / 153,
        d == doy - (153 * mp + 2) / 5 + 1,
        m == if mp < 10 { mp + 3 } else { mp - 9 },
    ensures
        ({
            let y = yoe + era * 400;
            let year = if m <= 2 { y + 1 } else { y };
            is_date(year, m, d) && day_number(year, m, d) == days
        }),
{
    let y = yoe + era * 400;
    let year = if m <= 2 {
        y + 1
    } else {
        y
    };
    lemma_year_of_era(doe);
    lemma_month_of_year(doy);
    lemma_march_year(y, mp, d, year, m);
    assert(y / 4 == 100 * era + yoe / 4);
    assert(y / 100 == 4 * era + yoe / 100);
    assert(y / 400 == era);
    assert(is_leap(yoe + 1) == is_leap(y + 1));
}

/// Every day has a date: year, month, day.
pub proof fn lemma_every_day_has_a_date(days: int) -> (r: (int, int, int))
    ensures
        is_date(r.0, r.1, r.2),
        day_number(r.0, r.1, r.2) == days,
{
    let era = (days + 719_468) / 146_097;
    let doe = days + 719_468 - era * 146_097;
    let yoe = (doe - doe / 1460 + doe / 36524 - doe / 146_096) / 365;
    let doy = doe - (365 * yoe + yoe / 4 - yoe / 100);
    let mp = (5 * doy + 2) / 153;
    let d = doy - (153 * mp + 2) / 5 + 1;
    let m = if mp < 10 {
        mp + 3
    } else {
        mp - 9
    };
    lemma_date_of_day(days, era, doe, yoe, doy, mp, d, m);
    let y = yoe + era * 400;
    (if m <= 2 {
        y + 1
    } else {
        y
    }, m, d)
}

/// The eras whose years an `i32` can hold.
proof fn lemma_era_fits(days: int, era: int)
    requires
        day_number(-2_147_483_600, 3, 1) <= days < day_number(2_147_483_648, 1, 1),
        era == (days + 719_468) / 146_097,
    ensures
        -5_368_709 <= era <= 5_368_709,
{
    lemma_days_before_year(-2_147_483_600);
    lemma_days_before_month(-2_147_483_600);
    lemma_days_before_year(2_147_483_648);
    lemma_days_before_month(2_147_483_648);
}

/// 1970-01-01 is day zero.
pub proof fn lemma_epoch()
    ensures
        is_date(1970, 1, 1),
        day_number(1970, 1, 1) == 0,
{
}

/// The seconds from the start of 1970 to the end of the year 2147483647.
pub proof fn lemma_last_second()
    ensures
        day_number(2_147_483_648, 1, 1) * 86_400 == 67_767_976_233_532_800,
        day_number(-2_147_483_600, 3, 1) * 86_400 <= 0,
{
    lemma_days_before_year(-2_147_483_600);
    lemma_days_before_month(-2_147_483_600);
    lemma_days_before_year(2_147_483_648);
    lemma_days_before_month(2_147_483_648);
}

/// The calendar date and the time of day of the moment `secs` seconds after the start of 1970
/// (before it, where `secs` is negative): year, month, day, hour, minute, second.
///
/// Leap seconds are not counted.
pub fn epoch_to_ymdhms(secs: i64) -> (r: (i32, u32, u32, u32, u32, u32))
    requires
        day_number(-2_147_483_600, 3, 1) * 86_400 <= secs < day_number(2_147_483_648, 1, 1)
            * 86_400,
    ensures
        is_date(r.0 as int, r.1 as int, r.2 as int),
        r.3 < 24,
        r.4 < 60,
        r.5 < 60,
        secs == day_number(r.0 as int, r.1 as int, r.2 as int) * 86_400 + r.3 * 3600 + r.4 * 60
            + r.5,
{
    let days_since_epoch: i64 = secs.checked_div_euclid(86_400).unwrap();
    let secs_today: u32 = secs.checked_rem_euclid(86_400).unwrap() as u32;
    let hour: u32 = secs_today / 3600;
    let min: u32 = (secs_today % 3600) / 60;
    let sec: u32 = secs_today % 60;
    assert(secs == days_since_epoch * 86_400 + hour * 3600 + min * 60 + sec);
    let (year, m, d) = civil_date(days_since_epoch);
    (year, m, d, hour, min, sec)
}

/// The calendar date of the day `days` days after 1970-01-01: year, month, day.
fn civil_date(days: i64) -> (r: (i32, u32, u32))
    requires
        day_number(-2_147_483_600, 3, 1) <= days < day_number(2_147_483_648, 1, 1),
    ensures
        is_date(r.0 as int, r.1 as int, r.2 as int),
        day_number(r.0 as int, r.1 as int, r.2 as int) == days,
{
    proof {
        lemma_era_fits(days as int, (days + 719_468) / 146_097);
    }
    let z: i64 = days + 719_468;
    let era: i64 = z.checked_div_euclid(146_097).unwrap();
    let doe: u32 = (z - era * 146_097) as u32;
    proof {
        lemma_year_of_era(doe as int);
    }
    let yoe: u32 = (doe - doe / 1460 + doe / 36524 - doe / 146_096) / 365;
    let doy: u32 = doe - (365 * yoe + yoe / 4 - yoe / 100);
    proof {
        lemma_month_of_year(doy as int);
    }
    let mp: u32 = (5 * doy + 2) / 153;
    let d: u32 = doy - (153 * mp + 2) / 5 + 1;
    let m: u32 = if mp < 10 {
        mp + 3
    } else {
        mp - 9
    };
    proof {
        lemma_date_of_day(
            days as int,
            era as int,
            doe as int,
            yoe as int,
            doy as int,
            mp as int,
            d as int,
            m as int,
        );
        let full: int = yoe + era * 400 + if m <= 2 { 1int } else { 0 };
        if full >= 2_147_483_648 {
            law_dates_in_order(full, m as int, d as int, 2_147_483_648, 1, 1);
        }
    }
    let y: i32 = yoe as i32 + era as i32 * 400;
    let year: i32 = if m <= 2 {
        y + 1
    } else {
        y
    };
    (year, m, d)
}

/// A later year begins on a later day, by at least the length of the earlier year.
proof fn lemma_years_in_order(y1: int, y2: int)
    requires
        y1 < y2,
    ensures
        days_before_year(y1) + days_in_year(y1) <= days_before_year(y2),
{
    lemma_days_before_year(y1);
    lemma_days_before_year(y1 + 1);
    lemma_days_before_year(y2);
    assert((y1 + 1 - 1) / 4 <= (y2 - 1) / 4);
}

/// A later month of a year begins on a later day, by at least the length of the earlier month.
proof fn lemma_months_in_order(y: int, m1: int, m2: int)
    requires
        1 <= m1 < m2 <= 13,
    ensures
        days_before_month(y, m1) + days_in_month(y, m1) <= days_before_month(y, m2),
    decreases m2 - m1,
{
    if m1 + 1 < m2 {
        lemma_months_in_order(y, m1, m2 - 1);
    }
}

/// Year, month and day order dates as the calendar does: a date that comes first by year, month
/// and day has the smaller day number.
pub proof fn law_dates_in_order(y1: int, m1: int, d1: int, y2: int, m2: int, d2: int)
    requires
        is_date(y1, m1, d1),
        is_date(y2, m2, d2),
    ensures
        day_number(y1, m1, d1) < day_number(y2, m2, d2) <==> (y1 < y2 || (y1 == y2 && (m1 < m2 || (
        m1 == m2 && d1 < d2)))),
        day_number(y1, m1, d1) == day_number(y2, m2, d2) <==> (y1 == y2 && m1 == m2 && d1 == d2),
{
    lemma_days_before_month(y1);
    lemma_days_before_month(y2);
    lemma_months_in_order(y1, m1, 13);
    lemma_months_in_order(y2, m2, 13);
    if m1 > 1 {
        lemma_months_in_order(y1, 1, m1);
    }
    if m2 > 1 {
        lemma_months_in_order(y2, 1, m2);
    }
    if y1 < y2 {
        lemma_years_in_order(y1, y2);
    } else if y2 < y1 {
        lemma_years_in_order(y2, y1);
    } else if m1 < m2 {
        lemma_months_in_order(y1, m1, m2);
    } else if m2 < m1 {
        lemma_months_in_order(y1, m2, m1);
    }
}

/// Days are counted without gaps from the start of 1970: the day after the last of a month is the first
/// of the next, and the day after the last of a year the first of the next year.
pub proof fn law_days_follow_each_other(y: int, m: int, d: int)
    ensures
        day_number(1970, 1, 1) == 0,
        day_number(y, m, d + 1) == day_number(y, m, d) + 1,
        1 <= m < 12 ==> day_number(y, m + 1, 1) == day_number(y, m, days_in_month(y, m)) + 1,
        day_number(y + 1, 1, 1) == day_number(y, 12, 31) + 1,
{
    lemma_days_before_year(y);
    lemma_days_before_year(y + 1);
    lemma_days_before_month(y);
    lemma_days_before_month(y + 1);
}

/// The lengths of the months. February has a day more in every fourth year, but for the centuries that
/// are not of a fourth century.
pub proof fn law_lengths_of_months(y: int, c: int)
    ensures
        days_in_month(y, 1) == 31,
        days_in_month(y, 3) == 31,
        days_in_month(y, 4) == 30,
        days_in_month(y, 5) == 31,
        days_in_month(y, 6) == 30,
        days_in_month(y, 7) == 31,
        days_in_month(y, 8) == 31,
        days_in_month(y, 9) == 30,
        days_in_month(y, 10) == 31,
        days_in_month(y, 11) == 30,
        days_in_month(y, 12) == 31,
        y % 4 != 0 ==> days_in_month(y, 2) == 28,
        y % 4 == 0 && y % 100 != 0 ==> days_in_month(y, 2) == 29,
        days_in_month(400 * c, 2) == 29,
        days_in_month(400 * c + 100, 2) == 28,
        days_in_month(400 * c + 200, 2) == 28,
        days_in_month(400 * c + 300, 2) == 28,
{
}

} // verus!
