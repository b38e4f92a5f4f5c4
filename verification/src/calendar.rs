//! The proleptic Gregorian calendar, counted in days from 1970-01-01.

use vstd::prelude::*;

verus! {

/// Leap years of the Gregorian calendar.
pub open spec fn is_leap(year: int) -> bool {
    year % 4 == 0 && (year % 100 != 0 || year % 400 == 0)
}

/// Number of days in `year`.
pub open spec fn year_len(year: int) -> int {
    if is_leap(year) {
        366
    } else {
        365
    }
}

/// Number of days in the given month; months are counted from 1.
pub open spec fn month_len(year: int, month: int) -> int {
    if month == 2 {
        if is_leap(year) {
            29
        } else {
            28
        }
    } else if month == 4 || month == 6 || month == 9 || month == 11 {
        30
    } else {
        31
    }
}

/// Days from 1970-01-01 to January 1 of `year`; negative before 1970.
pub open spec fn days_before_year(year: int) -> int
    decreases
            (if year >= 1970 {
                year - 1970
            } else {
                1970 - year
            }),
{
    if year > 1970 {
        days_before_year(year - 1) + year_len(year - 1)
    } else if year < 1970 {
        days_before_year(year + 1) - year_len(year)
    } else {
        0
    }
}

/// Days of `year` that come before the first day of `month`.
pub open spec fn days_before_month(year: int, month: int) -> int
    decreases month,
{
    if month <= 1 {
        0
    } else {
        days_before_month(year, month - 1) + month_len(year, month - 1)
    }
}

/// The triple names an existing day.
pub open spec fn is_date(year: int, month: int, day: int) -> bool {
    1 <= month <= 12 && 1 <= day <= month_len(year, month)
}

/// Days from 1970-01-01 to the given date.
pub open spec fn date_to_days(year: int, month: int, day: int) -> int {
    days_before_year(year) + days_before_month(year, month) + day - 1
}

/// Leap years among 1 to `year`, extended to all integers.
spec fn leaps_through(year: int) -> int {
    year / 4 - year / 100 + year / 400
}

proof fn lemma_leap_step(year: int)
    ensures
        leaps_through(year) - leaps_through(year - 1) == (if is_leap(year) {
            1int
        } else {
            0
        }),
{
}

proof fn lemma_days_before_year_closed(year: int)
    ensures
        days_before_year(year) == 365 * (year - 1970) + leaps_through(year - 1) - 477,
    decreases
            (if year >= 1970 {
                year - 1970
            } else {
                1970 - year
            }),
{
    if year > 1970 {
        lemma_days_before_year_closed(year - 1);
        lemma_leap_step(year - 1);
    } else if year < 1970 {
        lemma_days_before_year_closed(year + 1);
        lemma_leap_step(year);
    }
}

proof fn lemma_month_table(year: int)
    ensures
        days_before_month(year, 1) == 0,
        days_before_month(year, 2) == 31,
        days_before_month(year, 3) == 31 + month_len(year, 2),
        days_before_month(year, 4) == 62 + month_len(year, 2),
        days_before_month(year, 5) == 92 + month_len(year, 2),
        days_before_month(year, 6) == 123 + month_len(year, 2),
        days_before_month(year, 7) == 153 + month_len(year, 2),
        days_before_month(year, 8) == 184 + month_len(year, 2),
        days_before_month(year, 9) == 215 + month_len(year, 2),
        days_before_month(year, 10) == 245 + month_len(year, 2),
        days_before_month(year, 11) == 276 + month_len(year, 2),
        days_before_month(year, 12) == 306 + month_len(year, 2),
{
    reveal_with_fuel(days_before_month, 13);
}

/// Years of a 400-year era that begin on March 1: the first day of year
/// `yoe` is day `365 * yoe + yoe / 4 - yoe / 100` of the era.
proof fn lemma_year_of_era(doe: int, yoe: int)
    requires
        0 <= doe <= 146096,
        yoe == (doe - doe / 1460 + doe / 36524 - doe / 146096) / 365,
    ensures
        0 <= yoe <= 399,
        365 * yoe + yoe / 4 - yoe / 100 <= doe,
        doe < 365 * yoe + yoe / 4 - yoe / 100 + (if is_leap(yoe + 1) {
            366int
        } else {
            365
        }),
{
}

/// Days from 1970-01-01 to March 1 of `year`.
proof fn lemma_march_first(year: int)
    ensures
        date_to_days(year, 3, 1) == 365 * year + year / 4 - year / 100 + year / 400 - 719468,
{
    lemma_days_before_year_closed(year);
    lemma_leap_step(year);
    lemma_month_table(year);
}

/// Month and day from the day of a year that begins on March 1.
proof fn lemma_march_month(year: int, doy: int, mp: int, day: int)
    requires
        0 <= doy < (if is_leap(year + 1) {
            366int
        } else {
            365
        }),
        mp == (5 * doy + 2) / 153,
        day == doy - (153 * mp + 2) / 5 + 1,
    ensures
        0 <= mp <= 11,
        mp < 10 ==> is_date(year, mp + 3, day),
        mp >= 10 ==> is_date(year + 1, mp - 9, day),
        mp < 10 ==> date_to_days(year, mp + 3, day) == date_to_days(year, 3, 1) + doy,
        mp >= 10 ==> date_to_days(year + 1, mp - 9, day) == date_to_days(year, 3, 1) + doy,
{
    lemma_month_table(year);
    lemma_month_table(year + 1);
    lemma_days_before_year_closed(year);
    lemma_days_before_year_closed(year + 1);
    lemma_leap_step(year);
    assert(mp == 0 || mp == 1 || mp == 2 || mp == 3 || mp == 4 || mp == 5 || mp == 6 || mp == 7
        || mp == 8 || mp == 9 || mp == 10 || mp == 11);
}

/// The 400-year era of a day counted from 0000-03-01, and the day's place in
/// it, give the date: this is the whole of the conversion over integers.
proof fn lemma_civil(z: int, era: int, doe: int, yoe: int, doy: int, mp: int, day: int)
    requires
        z == 146097 * era + doe,
        0 <= doe <= 146096,
        yoe == (doe - doe / 1460 + doe / 36524 - doe / 146096) / 365,
        doy == doe - (365 * yoe + yoe / 4 - yoe / 100),
        mp == (5 * doy + 2) / 153,
        day == doy - (153 * mp + 2) / 5 + 1,
    ensures
        0 <= yoe <= 399,
        0 <= doy <= 365,
        0 <= mp <= 11,
        1 <= day <= 31,
        mp < 10 ==> is_date(yoe + era * 400, mp + 3, day),
        mp < 10 ==> date_to_days(yoe + era * 400, mp + 3, day) == z - 719468,
        mp >= 10 ==> is_date(yoe + era * 400 + 1, mp - 9, day),
        mp >= 10 ==> date_to_days(yoe + era * 400 + 1, mp - 9, day) == z - 719468,
{
    let y: int = yoe + era * 400;
    lemma_year_of_era(doe, yoe);
    assert(is_leap(y + 1) == is_leap(yoe + 1)) by {
        assert((y + 1) % 4 == (yoe + 1) % 4);
        assert((y + 1) % 100 == (yoe + 1) % 100);
        assert((y + 1) % 400 == (yoe + 1) % 400);
    }
    lemma_march_month(y, doy, mp, day);
    lemma_march_first(y);
    assert(365 * y + y / 4 - y / 100 + y / 400 == 146097 * era + 365 * yoe + yoe / 4 - yoe / 100)
        by {
        assert(y / 4 == yoe / 4 + 100 * era);
        assert(y / 100 == yoe / 100 + 4 * era);
        assert(y / 400 == era);
    }
}

/// Converts days since 1970-01-01 to (year, month, day).
///
/// Works on 400-year eras of 146097 days that begin on March 1, so that a
/// leap day is the last day of its year.
pub fn civil_from_days(days: i32) -> (date: (i32, u32, u32))
    requires
        days <= i32::MAX - 719468,
    ensures
        is_date(date.0 as int, date.1 as int, date.2 as int),
        date_to_days(date.0 as int, date.1 as int, date.2 as int) == days,
{
    let z: i32 = days + 719468;
    let era: i32 = (if z >= 0 {
        z
    } else {
        z - 146096
    }) / 146097;
    assert(0 <= z - era * 146097 <= 146096);
    let doe: u32 = (z - era * 146097) as u32;
    proof {
        lemma_year_of_era(
            doe as int,
            (doe as int - doe as int / 1460 + doe as int / 36524 - doe as int / 146096) / 365,
        );
    }
    let yoe: u32 = (doe - doe / 1460 + doe / 36524 - doe / 146096) / 365;
    let y: i32 = yoe as i32 + era * 400;
    let doy: u32 = doe - (365 * yoe + yoe / 4 - yoe / 100);
    let mp: u32 = (5 * doy + 2) / 153;
    let ghost day: int = doy - (153 * mp + 2) / 5 + 1;
    proof {
        lemma_civil(z as int, era as int, doe as int, yoe as int, doy as int, mp as int, day);
    }
    let d: u32 = doy - (153 * mp + 2) / 5 + 1;
    let m: u32 = if mp < 10 {
        mp + 3
    } else {
        mp - 9
    };
    let y: i32 = if m <= 2 {
        y + 1
    } else {
        y
    };
    (y, m, d)
}

/// Later dates are later days: within one year by month, within one month by
/// day, and every day of a year lies before the next year.
proof fn lemma_day_of_year_bounds(year: int, month: int, day: int)
    requires
        is_date(year, month, day),
    ensures
        0 <= days_before_month(year, month) + day - 1 < year_len(year),
        month < 12 ==> days_before_month(year, month) + day - 1 < days_before_month(
            year,
            month + 1,
        ),
{
    lemma_month_table(year);
}

proof fn lemma_years_ordered(a: int, b: int)
    requires
        a < b,
    ensures
        days_before_year(a) + year_len(a) <= days_before_year(b),
    decreases b - a,
{
    lemma_days_before_year_closed(a);
    lemma_days_before_year_closed(a + 1);
    lemma_leap_step(a);
    if a + 1 < b {
        lemma_years_ordered(a + 1, b);
    }
}

proof fn lemma_months_ordered(year: int, a: int, b: int)
    requires
        1 <= a < b <= 12,
    ensures
        days_before_month(year, a) + month_len(year, a) <= days_before_month(year, b),
    decreases b - a,
{
    if a + 1 < b {
        lemma_months_ordered(year, a + 1, b);
    }
}

/// Calendar order is day order: of two dates the one with the larger year, or
/// in one year the larger month, or in one month the larger day, lies at the
/// larger day number.
pub proof fn law_dates_ordered(y1: int, m1: int, d1: int, y2: int, m2: int, d2: int)
    requires
        is_date(y1, m1, d1),
        is_date(y2, m2, d2),
        y1 < y2 || (y1 == y2 && (m1 < m2 || (m1 == m2 && d1 < d2))),
    ensures
        date_to_days(y1, m1, d1) < date_to_days(y2, m2, d2),
{
    lemma_day_of_year_bounds(y1, m1, d1);
    lemma_day_of_year_bounds(y2, m2, d2);
    if y1 < y2 {
        lemma_years_ordered(y1, y2);
    } else if m1 < m2 {
        lemma_months_ordered(y1, m1, m2);
    }
}

/// No two dates share a day number, so a day number has one date.
pub proof fn law_date_unique(y1: int, m1: int, d1: int, y2: int, m2: int, d2: int)
    requires
        is_date(y1, m1, d1),
        is_date(y2, m2, d2),
        date_to_days(y1, m1, d1) == date_to_days(y2, m2, d2),
    ensures
        y1 == y2,
        m1 == m2,
        d1 == d2,
{
    if y1 < y2 || (y1 == y2 && (m1 < m2 || (m1 == m2 && d1 < d2))) {
        law_dates_ordered(y1, m1, d1, y2, m2, d2);
    }
    if y2 < y1 || (y1 == y2 && (m2 < m1 || (m1 == m2 && d2 < d1))) {
        law_dates_ordered(y2, m2, d2, y1, m1, d1);
    }
}

/// Every day has a date.
pub(crate) proof fn lemma_date_exists(days: int) -> (t: (int, int, int))
    ensures
        is_date(t.0, t.1, t.2),
        date_to_days(t.0, t.1, t.2) == days,
{
    let z = days + 719468;
    let era = z / 146097;
    let doe = z % 146097;
    let yoe = (doe - doe / 1460 + doe / 36524 - doe / 146096) / 365;
    let doy = doe - (365 * yoe + yoe / 4 - yoe / 100);
    let mp = (5 * doy + 2) / 153;
    let day = doy - (153 * mp + 2) / 5 + 1;
    lemma_civil(z, era, doe, yoe, doy, mp, day);
    if mp < 10 {
        (yoe + era * 400, mp + 3, day)
    } else {
        (yoe + era * 400 + 1, mp - 9, day)
    }
}

/// The date on which a day falls, as (year, month, day).
pub open spec fn civil_date(days: int) -> (int, int, int) {
    choose|t: (int, int, int)|
        #[trigger] is_date(t.0, t.1, t.2) && date_to_days(t.0, t.1, t.2) == days
}

/// Counting days up to a date and asking for that day's date gives the date
/// back.
pub proof fn law_civil_date_round_trip(year: int, month: int, day: int)
    requires
        is_date(year, month, day),
    ensures
        civil_date(date_to_days(year, month, day)) == (year, month, day),
{
    let given = (year, month, day);
    assert(is_date(given.0, given.1, given.2));
    let t = civil_date(date_to_days(year, month, day));
    law_date_unique(t.0, t.1, t.2, year, month, day);
}

/// Every day of the 64-bit nanosecond range, up to day 213503, lies in the
/// years 1970 to 2554.
pub(crate) proof fn lemma_timestamp_years(year: int, month: int, day: int)
    requires
        is_date(year, month, day),
        0 <= date_to_days(year, month, day) <= 213503,
    ensures
        1970 <= year <= 2554,
{
    lemma_day_of_year_bounds(year, month, day);
    lemma_days_before_year_closed(2555);
    if year < 1970 {
        lemma_years_ordered(year, 1970);
    }
    if year > 2554 {
        if year > 2555 {
            lemma_years_ordered(2555, year);
        }
    }
}

/// Day 0 is January 1, 1970.
pub proof fn law_epoch_date()
    ensures
        civil_date(0) == (1970int, 1int, 1int),
{
    law_civil_date_round_trip(1970, 1, 1);
}

/// The day after a date is the next one of its month, or the first of the next
/// month, or January 1 of the next year. April, June, September and November
/// have 30 days; February has 28, and 29 in years that four divides, but for
/// those of a hundred that four hundred does not divide; the others have 31.
pub proof fn law_next_day(days: int)
    ensures
        ({
            let (y, m, d) = civil_date(days);
            let leap = y % 400 == 0 || (y % 4 == 0 && y % 100 != 0);
            let last: int = if m == 2 {
                if leap {
                    29
                } else {
                    28
                }
            } else if m == 4 || m == 6 || m == 9 || m == 11 {
                30
            } else {
                31
            };
            &&& 1 <= m <= 12
            &&& 1 <= d <= last
            &&& civil_date(days + 1) == (if d < last {
                (y, m, d + 1)
            } else if m < 12 {
                (y, m + 1, 1int)
            } else {
                (y + 1, 1int, 1int)
            })
        }),
{
    let t = lemma_date_exists(days);
    law_civil_date_round_trip(t.0, t.1, t.2);
    let (y, m, d) = t;
    lemma_month_table(y);
    lemma_days_before_year_closed(y);
    lemma_days_before_year_closed(y + 1);
    lemma_leap_step(y);
    if d < month_len(y, m) {
        law_civil_date_round_trip(y, m, d + 1);
    } else if m < 12 {
        assert(month_len(y, m + 1) >= 1);
        law_civil_date_round_trip(y, m + 1, 1);
    } else {
        law_civil_date_round_trip(y + 1, 1, 1);
    }
}

/// Of the triples of numbers the dates are those whose month and day exist.
pub proof fn law_dates(year: int, month: int, day: int)
    ensures
        is_date(year, month, day) <==> 1 <= month <= 12 && 1 <= day <= 31 && (day <= 28 || (month
            != 2 && (day <= 30 || (month != 4 && month != 6 && month != 9 && month != 11)))
            || (month == 2 && day == 29 && (year % 400 == 0 || (year % 4 == 0 && year % 100
            != 0)))),
{
}

}
