//! The civil calendar: dates as day numbers counted from 1970-01-01.

use vstd::prelude::*;

verus! {

/// Division of whole numbers that rounds toward zero.
pub open spec fn toward_zero(a: int, b: int) -> int {
    if a >= 0 {
        a / b
    } else {
        -((-a) / b)
    }
}

/// Whether a number is an `i32`.
pub open spec fn fits(n: int) -> bool {
    i32::MIN <= n <= i32::MAX
}

/// The year that a month belongs to where years begin in March.
pub open spec fn march_year(year: int, month: u32) -> int {
    if month <= 2 {
        year - 1
    } else {
        year
    }
}

/// The index of a month in a year that begins in March.
pub open spec fn march_month(month: u32) -> int {
    (month as i32) as int + if month > 2 {
        -3int
    } else {
        9int
    }
}

/// The first day of the year with index `yoe` in an era of 400 years that begin in March.
pub open spec fn year_start(yoe: int) -> int {
    yoe * 365 + yoe / 4 - yoe / 100
}

/// The day in a year that begins in March, counted from zero.
pub open spec fn march_day(month: u32, day: u32) -> int {
    toward_zero(153 * march_month(month) + 2, 5) + (day as i32) as int - 1
}

/// The number of days from 1970-01-01 to a date.
pub open spec fn civil_days(year: int, month: u32, day: u32) -> int {
    let y = march_year(year, month);
    (y / 400) * 146097 + year_start(y % 400) + march_day(month, day) - 719468
}

/// Whether the day number of a date can be computed in `i32`, step by step.
pub open spec fn civil_fits(year: int, month: u32, day: u32) -> bool {
    let y = march_year(year, month);
    let era = y / 400;
    let doe = year_start(y % 400) + march_day(month, day);
    &&& fits(y)
    &&& y < 0 ==> fits(y - 399)
    &&& fits(march_month(month))
    &&& fits(153 * march_month(month))
    &&& fits(153 * march_month(month) + 2)
    &&& fits(march_day(month, day) + 1)
    &&& fits(march_day(month, day))
    &&& fits(doe)
    &&& fits(era * 146097)
    &&& fits(era * 146097 + doe)
    &&& fits(era * 146097 + doe - 719468)
}

/// The number of days from 1970-01-01 to a date.
pub fn days_from_civil(year: i32, month: u32, day: u32) -> (r: i64)
    requires
        civil_fits(year as int, month, day),
    ensures
        r == civil_days(year as int, month, day),
        fits(r as int),
{
    let year = year - if month <= 2 {
        1i32
    } else {
        0i32
    };
    let era = (if year >= 0 {
        year
    } else {
        year - 399
    }) / 400;
    proof {
        assert(era == year as int / 400);
    }
    let yoe = year - era * 400;
    let mp = month as i32 + if month > 2 {
        -3i32
    } else {
        9i32
    };
    let doy = (153 * mp + 2) / 5 + day as i32 - 1;
    let doe = yoe * 365 + yoe / 4 - yoe / 100 + doy;
    (era * 146097 + doe - 719468) as i64
}

/// The era of 400 years that a day number belongs to.
pub open spec fn era_of(days: int) -> int {
    (days + 719468) / 146097
}

/// The day of a day number in its era.
pub open spec fn day_of_era(days: int) -> int {
    (days + 719468) % 146097
}

/// The year, in its era, of a day in an era.
pub open spec fn year_of_era(doe: int) -> int {
    (doe - doe / 1460 + doe / 36524 - doe / 146096) / 365
}

/// The date, as year, month and day, of a day number.
pub open spec fn civil_date(days: int) -> (int, int, int) {
    let doe = day_of_era(days);
    let yoe = year_of_era(doe);
    let doy = doe - year_start(yoe);
    let mp = (5 * doy + 2) / 153;
    let day = doy - (153 * mp + 2) / 5 + 1;
    let month = if mp < 10 {
        mp + 3
    } else {
        mp - 9
    };
    let year = yoe + (era_of(days) as i32) * 400;
    (if month <= 2 {
        year + 1
    } else {
        year
    }, month, day)
}

/// Whether the date of a day number can be computed in `i64` and `i32`, step by step.
pub open spec fn date_fits(days: int) -> bool {
    let era = (era_of(days) as i32) as int;
    let year = year_of_era(day_of_era(days)) + era * 400;
    &&& days + 719468 <= i64::MAX
    &&& days + 719468 < 0 ==> days + 719468 - 146096 >= i64::MIN
    &&& fits(era * 400)
    &&& fits(year)
    &&& fits(civil_date(days).0)
}

/// The year in an era lies from 0 to 399, and the day lies within that year.
pub proof fn lemma_year_of_era(doe: int)
    requires
        0 <= doe < 146097,
    ensures
        0 <= year_of_era(doe) <= 399,
        0 <= doe - year_start(year_of_era(doe)) <= 365,
        doe - year_start(year_of_era(doe)) == 365 ==> {
            let next = year_of_era(doe) + 1;
            next % 4 == 0 && (next % 100 != 0 || next % 400 == 0)
        },
{
}

/// The date of a day number.
pub fn civil_from_days(days: i64) -> (r: (i32, u32, u32))
    requires
        date_fits(days as int),
    ensures
        (r.0 as int, r.1 as int, r.2 as int) == civil_date(days as int),
{
    let days = days + 719468;
    let era = (if days >= 0 {
        days
    } else {
        days - 146096
    }) / 146097;
    proof {
        assert(era == days as int / 146097);
    }
    let doe = days - era * 146097;
    proof {
        assert(doe == days as int % 146097);
        lemma_year_of_era(doe as int);
    }
    let yoe = (doe - doe / 1460 + doe / 36524 - doe / 146096) / 365;
    let year = yoe as i32 + era as i32 * 400;
    let doy = doe - (365 * yoe + yoe / 4 - yoe / 100);
    let mp = (5 * doy + 2) / 153;
    let day = doy - (153 * mp + 2) / 5 + 1;
    let month = mp + if mp < 10 {
        3i64
    } else {
        -9i64
    };
    (year + if month <= 2 {
        1i32
    } else {
        0i32
    }, month as u32, day as u32)
}

/// Whether a year has a 29th of February.
pub open spec fn is_leap(year: int) -> bool {
    year % 4 == 0 && (year % 100 != 0 || year % 400 == 0)
}

/// The number of days in a month.
pub open spec fn month_length(year: int, month: int) -> int {
    if month == 2 {
        if is_leap(year) {
            29
        } else {
            28
        }
    } else if month == 4 || month == 6 || month == 9 || month == 11 {
        30
    } else {
        31
    }
}

/// Whether year, month and day name a day of the calendar.
pub open spec fn is_date(year: int, month: int, day: int) -> bool {
    1 <= month <= 12 && 1 <= day <= month_length(year, month)
}

/// The date that comes after a date.
pub open spec fn next_date(year: int, month: int, day: int) -> (int, int, int) {
    if day < month_length(year, month) {
        (year, month, day + 1)
    } else if month < 12 {
        (year, month + 1, 1)
    } else {
        (year + 1, 1, 1)
    }
}

/// Whether one date stands before another.
pub open spec fn date_lt(a: (int, int, int), b: (int, int, int)) -> bool {
    a.0 < b.0 || (a.0 == b.0 && (a.1 < b.1 || (a.1 == b.1 && a.2 < b.2)))
}

/// Day number zero is the first of January 1970.
pub proof fn law_epoch()
    ensures
        civil_days(1970, 1, 1) == 0,
{
}

/// The date after a date has the next day number: together with day number zero, this fixes the day
/// number of every date.
pub proof fn law_next_day(year: int, month: u32, day: u32)
    requires
        is_date(year, month as int, day as int),
    ensures
        ({
            let next = next_date(year, month as int, day as int);
            civil_days(next.0, next.1 as u32, next.2 as u32) == civil_days(year, month, day) + 1
        }),
{
    let y = march_year(year, month);
    assert((y + 1) / 400 == if (y + 1) % 400 == 0 {
        y / 400 + 1
    } else {
        y / 400
    });
}

/// The date of a day number is a date of the calendar, and its day number is that number.
pub proof fn law_date_of_day_number(days: int)
    requires
        fits(era_of(days)),
    ensures
        ({
            let date = civil_date(days);
            is_date(date.0, date.1, date.2) && civil_days(date.0, date.1 as u32, date.2 as u32)
                == days
        }),
{
    lemma_year_of_era(day_of_era(days));
    let yoe = year_of_era(day_of_era(days));
    let era = era_of(days);
    let date = civil_date(days);
    assert((yoe + era * 400) / 400 == era);
    assert((yoe + era * 400) % 400 == yoe);
    assert((yoe + 1) % 4 == (yoe + era * 400 + 1) % 4);
    assert((yoe + 1) % 100 == (yoe + era * 400 + 1) % 100);
    assert((yoe + 1) % 400 == (yoe + era * 400 + 1) % 400);
}

/// The dates of a year have day numbers from its first of January up to the next one.
proof fn lemma_within_year(year: int, month: u32, day: u32)
    requires
        is_date(year, month as int, day as int),
    ensures
        civil_days(year, 1, 1) <= civil_days(year, month, day) < civil_days(year + 1, 1, 1),
{
    let y = year - 1;
    assert((y + 1) / 400 == if (y + 1) % 400 == 0 {
        y / 400 + 1
    } else {
        y / 400
    });
}

/// A later year begins with a later day number.
proof fn lemma_year_order(a: int, b: int)
    requires
        a <= b,
    ensures
        civil_days(a, 1, 1) <= civil_days(b, 1, 1),
    decreases b - a,
{
    if a < b {
        lemma_year_order(a, b - 1);
        lemma_within_year(b - 1, 1, 1);
    }
}

/// An earlier date has a smaller day number.
pub proof fn law_day_numbers_keep_order(
    year: int,
    month: u32,
    day: u32,
    later_year: int,
    later_month: u32,
    later_day: u32,
)
    requires
        is_date(year, month as int, day as int),
        is_date(later_year, later_month as int, later_day as int),
        date_lt(
            (year, month as int, day as int),
            (later_year, later_month as int, later_day as int),
        ),
    ensures
        civil_days(year, month, day) < civil_days(later_year, later_month, later_day),
{
    if year < later_year {
        lemma_within_year(year, month, day);
        lemma_within_year(later_year, later_month, later_day);
        lemma_year_order(year + 1, later_year);
    } else {
        let y = year - 1;
        assert((y + 1) / 400 == if (y + 1) % 400 == 0 {
            y / 400 + 1
        } else {
            y / 400
        });
    }
}

/// The date of the day number of a date is that date.
pub proof fn law_day_number_of_date(year: int, month: u32, day: u32)
    requires
        is_date(year, month as int, day as int),
        fits(era_of(civil_days(year, month, day))),
    ensures
        civil_date(civil_days(year, month, day)) == (year, month as int, day as int),
{
    let days = civil_days(year, month, day);
    law_date_of_day_number(days);
    let date = civil_date(days);
    if date_lt(date, (year, month as int, day as int)) {
        law_day_numbers_keep_order(date.0, date.1 as u32, date.2 as u32, year, month, day);
    } else if date_lt((year, month as int, day as int), date) {
        law_day_numbers_keep_order(year, month, day, date.0, date.1 as u32, date.2 as u32);
    }
}

/// A smaller day number has an earlier date.
pub proof fn law_dates_keep_order(a: int, b: int)
    requires
        a < b,
        fits(era_of(a)),
        fits(era_of(b)),
    ensures
        date_lt(civil_date(a), civil_date(b)),
{
    law_date_of_day_number(a);
    law_date_of_day_number(b);
    let x = civil_date(a);
    let y = civil_date(b);
    if !date_lt(x, y) {
        if date_lt(y, x) {
            law_day_numbers_keep_order(
                y.0,
                y.1 as u32,
                y.2 as u32,
                x.0,
                x.1 as u32,
                x.2 as u32,
            );
        } else {
            assert(x == y);
        }
    }
}

/// The months have the days that they have: from the first of a month to the first of the next there are
/// 31 days, 30, or in February 29 in the years that 4 divides and 100 does not or 400 does, else 28.
pub proof fn law_months_have_their_days(year: int, month: u32)
    requires
        1 <= month <= 12,
    ensures
        ({
            let next = if month == 12 {
                civil_days(year + 1, 1, 1)
            } else {
                civil_days(year, (month + 1) as u32, 1)
            };
            next - civil_days(year, month, 1) == if month == 2 {
                if (year % 4 == 0 && year % 100 != 0) || year % 400 == 0 {
                    29int
                } else {
                    28int
                }
            } else if month == 4 || month == 6 || month == 9 || month == 11 {
                30int
            } else {
                31int
            }
        }),
{
    let last = month_length(year, month as int);
    assert(28 <= last <= 31);
    assert(is_date(year, month as int, last));
    law_next_day(year, month, last as u32);
    law_days_count_up(year, month, last as u32);
}

/// Within a month, days count up one by one.
pub proof fn law_days_count_up(year: int, month: u32, day: u32)
    requires
        1 <= month <= 12,
        1 <= day <= 31,
    ensures
        civil_days(year, month, day) == civil_days(year, month, 1) + day - 1,
{
}

} // verus!
