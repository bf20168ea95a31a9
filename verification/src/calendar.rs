//! The proleptic Gregorian calendar, counted in days from 1970-01-01.
use vstd::prelude::*;

verus! {

pub open spec fn is_leap(year: int) -> bool {
    year % 4 == 0 && (year % 100 != 0 || year % 400 == 0)
}

pub open spec fn days_in_month(year: int, month: int) -> int {
    if month == 2 {
        if is_leap(year) {
            29
        } else {
            28
        }
    } else if month == 4 || month == 6 || month == 9 || month == 11 {
        30
    } else {
        31
    }
}

/// Whether the calendar has the given date.
pub open spec fn is_date(year: int, month: int, day: int) -> bool {
    1 <= month <= 12 && 1 <= day <= days_in_month(year, month)
}

/// Days of `year` that come before the first of `month`.
pub open spec fn days_before_month(year: int, month: int) -> int
    decreases month,
{
    if month <= 1 {
        0
    } else {
        days_before_month(year, month - 1) + days_in_month(year, month - 1)
    }
}

/// Leap years among the years from 1 up to, but without, `year`.
pub open spec fn leap_years_before(year: int) -> int {
    (year - 1) / 4 - (year - 1) / 100 + (year - 1) / 400
}

/// Days from 1970-01-01 to the given date.
pub open spec fn day_number(year: int, month: int, day: int) -> int {
    365 * (year - 1) + leap_years_before(year) + days_before_month(year, month) + (day - 1) - 719162
}

proof fn lemma_year_of_era(doe: int) -> (yoe: int)
    requires
        0 <= doe <= 146096,
    ensures
        yoe == (doe - doe / 1460 + doe / 36524 - doe / 146096) / 365,
        0 <= yoe <= 399,
        365 * yoe + yoe / 4 - yoe / 100 <= doe,
        yoe < 399 ==> doe < 365 * (yoe + 1) + (yoe + 1) / 4 - (yoe + 1) / 100,
{
    (doe - doe / 1460 + doe / 36524 - doe / 146096) / 365
}

proof fn lemma_days_before_month(year: int, month: int)
    requires
        1 <= month <= 12,
    ensures
        month == 1 ==> days_before_month(year, month) == 0,
        month == 2 ==> days_before_month(year, month) == 31,
        month >= 3 ==> days_before_month(year, month) == 59 + (if is_leap(year) {
            1int
        } else {
            0
        }) + (153 * (month - 3) + 2) / 5,
{
    reveal_with_fuel(days_before_month, 13);
}

/// Days from 1970-01-01 to the first of March of `year`.
spec fn march_first(year: int) -> int {
    365 * year + year / 4 - year / 100 + year / 400 - 719468
}

/// Day numbers counted from the preceding first of March, months numbered from March.
proof fn lemma_day_number_from_march(year: int, month: int, day: int)
    requires
        1 <= month <= 12,
    ensures
        month > 2 ==> day_number(year, month, day) == march_first(year) + (153 * (month - 3) + 2) / 5
            + day - 1,
        month <= 2 ==> day_number(year, month, day) == march_first(year - 1) + (153 * (month + 9)
            + 2) / 5 + day - 1,
{
    lemma_days_before_month(year, month);
    if month > 2 {
        lemma_leap_day(year);
    }
}

proof fn lemma_leap_day(year: int)
    ensures
        year / 4 - year / 100 + year / 400 == leap_years_before(year) + (if is_leap(year) {
            1int
        } else {
            0
        }),
{
    assert(year / 4 - (year - 1) / 4 == if year % 4 == 0 {
        1int
    } else {
        0
    });
    assert(year / 100 - (year - 1) / 100 == if year % 100 == 0 {
        1int
    } else {
        0
    });
    assert(year / 400 - (year - 1) / 400 == if year % 400 == 0 {
        1int
    } else {
        0
    });
    assert(year % 100 == 0 ==> year % 4 == 0);
    assert(year % 400 == 0 ==> year % 100 == 0);
}

/// The calendar repeats itself after 400 years.
proof fn lemma_march_first_of_cycle(cycle: int, year: int)
    requires
        0 <= year < 400,
    ensures
        march_first(400 * cycle + year) == 146097 * cycle + 365 * year + year / 4 - year / 100
            - 719468,
{
    let y = 400 * cycle + year;
    assert(y / 4 == 100 * cycle + year / 4);
    assert(y / 100 == 4 * cycle + year / 100);
    assert(y / 400 == cycle);
}

proof fn lemma_leap_of_cycle(cycle: int, year: int)
    ensures
        is_leap(400 * cycle + year) == is_leap(year),
{
    let y = 400 * cycle + year;
    assert(y % 4 == year % 4) by {
        vstd::arithmetic::div_mod::lemma_mod_multiples_vanish(100 * cycle, year, 4);
    }
    assert(y % 100 == year % 100) by {
        vstd::arithmetic::div_mod::lemma_mod_multiples_vanish(4 * cycle, year, 100);
    }
    assert(y % 400 == year % 400) by {
        vstd::arithmetic::div_mod::lemma_mod_multiples_vanish(cycle, year, 400);
    }
}

/// Month and day of the month from the day of a year that starts in March.
proof fn lemma_month_from_day(doy: int)
    requires
        0 <= doy <= 365,
    ensures
        ({
            let mp = (5 * doy + 2) / 153;
            let day = doy - (153 * mp + 2) / 5 + 1;
            &&& 0 <= mp <= 11
            &&& 1 <= day <= 31
            &&& mp == 1 || mp == 3 || mp == 6 || mp == 8 ==> day <= 30
            &&& mp == 11 ==> day <= 29
            &&& mp == 11 && day == 29 ==> doy == 365
        }),
{
    let mp = (5 * doy + 2) / 153;
    assert(0 <= mp <= 11);
    if mp == 0 {
    } else if mp == 1 {
    } else if mp == 2 {
    } else if mp == 3 {
    } else if mp == 4 {
    } else if mp == 5 {
    } else if mp == 6 {
    } else if mp == 7 {
    } else if mp == 8 {
    } else if mp == 9 {
    } else if mp == 10 {
    } else {
    }
}

/// The first of January follows the last of December.
pub proof fn law_year_follows_year(year: int)
    ensures
        day_number(year + 1, 1, 1) == day_number(year, 12, 31) + 1,
{
    lemma_days_before_month(year, 12);
    lemma_days_before_month(year + 1, 1);
}

/// Later dates have greater day numbers.
pub proof fn law_day_number_is_monotone(y1: int, m1: int, d1: int, y2: int, m2: int, d2: int)
    requires
        is_date(y1, m1, d1),
        is_date(y2, m2, d2),
        y1 < y2 || (y1 == y2 && (m1 < m2 || (m1 == m2 && d1 < d2))),
    ensures
        day_number(y1, m1, d1) < day_number(y2, m2, d2),
{
    lemma_days_before_month(y1, m1);
    lemma_days_before_month(y2, m2);
    if y1 < y2 {
        let a = y1;
        let b = y2 - 1;
        assert(a / 4 - a / 100 + a / 400 <= b / 4 - b / 100 + b / 400) by {
            assert(forall|x: int| (#[trigger] (x / 4)) / 25 == x / 100);
        }
    }
}

/// No two dates share a day number.
pub proof fn law_day_number_is_injective(y1: int, m1: int, d1: int, y2: int, m2: int, d2: int)
    requires
        is_date(y1, m1, d1),
        is_date(y2, m2, d2),
        day_number(y1, m1, d1) == day_number(y2, m2, d2),
    ensures
        y1 == y2,
        m1 == m2,
        d1 == d2,
{
    if y1 < y2 || (y1 == y2 && (m1 < m2 || (m1 == m2 && d1 < d2))) {
        law_day_number_is_monotone(y1, m1, d1, y2, m2, d2);
    } else if y2 < y1 || m2 < m1 || d2 < d1 {
        law_day_number_is_monotone(y2, m2, d2, y1, m1, d1);
    }
}

/// Day numbers of the years that four digits write.
pub proof fn lemma_day_number_bounds(year: int, month: int, day: int)
    requires
        is_date(year, month, day),
        0 <= year <= 9999,
    ensures
        -800_000 <= day_number(year, month, day) <= 4_000_000,
{
    lemma_days_before_month(year, month);
}

/// Whether `year` is a leap year.
pub fn leap_year(year: u32) -> (r: bool)
    ensures
        r == is_leap(year as int),
{
    year % 4 == 0 && (year % 100 != 0 || year % 400 == 0)
}

/// The number of days that `month` has in `year`.
pub fn month_length(year: u32, month: u32) -> (r: u32)
    ensures
        r == days_in_month(year as int, month as int),
{
    if month == 2 {
        if leap_year(year) {
            29
        } else {
            28
        }
    } else if month == 4 || month == 6 || month == 9 || month == 11 {
        30
    } else {
        31
    }
}

/// Days from 1970-01-01 to the given date; `None` where the calendar has no such date.
pub fn days_from_civil(year: u32, month: u32, day: u32) -> (r: Option<i64>)
    ensures
        match r {
            Some(days) => is_date(year as int, month as int, day as int) && days == day_number(
                year as int,
                month as int,
                day as int,
            ),
            None => !is_date(year as int, month as int, day as int),
        },
{
    if month < 1 || month > 12 || day < 1 || day > month_length(year, month) {
        return None;
    }
    // Years are counted from March, so that the leap day comes last.
    let y: i64 = if month <= 2 {
        year as i64 - 1
    } else {
        year as i64
    };
    let mp: i64 = if month > 2 {
        month as i64 - 3
    } else {
        month as i64 + 9
    };
    // Shifted by one cycle of the calendar, which keeps every division on positive numbers.
    let shifted: i64 = y + 400;
    let leaps: i64 = shifted / 4 - shifted / 100 + shifted / 400;
    proof {
        lemma_day_number_from_march(year as int, month as int, day as int);
        let y = y as int;
        assert((y + 400) / 4 == y / 4 + 100);
        assert((y + 400) / 100 == y / 100 + 4);
        assert((y + 400) / 400 == y / 400 + 1);
    }
    Some(365 * shifted + leaps + (153 * mp + 2) / 5 + (day as i64 - 1) - 719468 - 146097)
}

/// The date of day `doe` in the cycle of 400 years that starts in March of the year `400 * era`.
proof fn lemma_date_of_cycle_day(era: int, doe: int)
    requires
        0 <= doe <= 146096,
    ensures
        ({
            let yoe = (doe - doe / 1460 + doe / 36524 - doe / 146096) / 365;
            let doy = doe - (365 * yoe + yoe / 4 - yoe / 100);
            let mp = (5 * doy + 2) / 153;
            let day = doy - (153 * mp + 2) / 5 + 1;
            let month = if mp < 10 {
                mp + 3
            } else {
                mp - 9
            };
            let year = 400 * era + yoe + if month <= 2 {
                1int
            } else {
                0
            };
            &&& 0 <= yoe <= 399
            &&& 0 <= doy <= 365
            &&& 0 <= mp <= 11
            &&& is_date(year, month, day)
            &&& day_number(year, month, day) == 146097 * era + doe - 719468
        }),
{
    let yoe = lemma_year_of_era(doe);
    let doy = doe - (365 * yoe + yoe / 4 - yoe / 100);
    let next = yoe + 1;
    assert(next / 4 - yoe / 4 == if next % 4 == 0 {
        1int
    } else {
        0
    });
    assert(next / 100 - yoe / 100 == if next % 100 == 0 {
        1int
    } else {
        0
    });
    assert(doy == 365 ==> is_leap(next));
    lemma_month_from_day(doy);
    let mp = (5 * doy + 2) / 153;
    let day = doy - (153 * mp + 2) / 5 + 1;
    let month = if mp < 10 {
        mp + 3
    } else {
        mp - 9
    };
    let year = 400 * era + yoe + if month <= 2 {
        1int
    } else {
        0
    };
    lemma_leap_of_cycle(era, next);
    lemma_march_first_of_cycle(era, yoe);
    lemma_day_number_from_march(year, month, day);
}

/// The date that lies `days` days after 1970-01-01: year, month and day.
///
/// The year is handed out in 32 bits.
pub fn civil_from_days(days: i64) -> (date: (i32, u32, u32))
    requires
        days <= i64::MAX - 719468,
    ensures
        exists|year: int|
            {
                &&& #[trigger] is_date(year, date.1 as int, date.2 as int)
                &&& day_number(year, date.1 as int, date.2 as int) == days
                &&& date.0 == year as i32
            },
{
    let z: i64 = days + 719_468;
    let era: i64 = (if z >= 0 {
        z
    } else {
        z - 146_096
    }) / 146_097;
    assert(era == z as int / 146_097);
    let doe: i64 = z - era * 146_097;
    proof {
        lemma_date_of_cycle_day(era as int, doe as int);
    }
    let yoe: i64 = (doe - doe / 1_460 + doe / 36_524 - doe / 146_096) / 365;
    let y: i64 = yoe + era * 400;
    let doy: i64 = doe - (365 * yoe + yoe / 4 - yoe / 100);
    let mp: i64 = (5 * doy + 2) / 153;
    let day: i64 = doy - (153 * mp + 2) / 5 + 1;
    let month: i64 = if mp < 10 {
        mp + 3
    } else {
        mp - 9
    };
    let year: i64 = if month <= 2 {
        y + 1
    } else {
        y
    };
    let date: (i32, u32, u32) = (year as i32, month as u32, day as u32);
    proof {
        assert(is_date(year as int, date.1 as int, date.2 as int));
    }
    date
}

/// A year is a leap year if sixteen divides it, or four does and twenty-five does not.
pub proof fn law_leap_years(year: int)
    ensures
        is_leap(year) <==> year % 16 == 0 || (year % 4 == 0 && year % 25 != 0),
{
    assert(year % 100 == 0 <==> year % 4 == 0 && year % 25 == 0);
    assert(year % 400 == 0 <==> year % 16 == 0 && year % 25 == 0);
    assert(year % 16 == 0 ==> year % 4 == 0);
}

/// Long and short months take turns up to July and from August on; February has what is left.
pub proof fn law_month_lengths(year: int, month: int)
    requires
        1 <= month <= 12,
    ensures
        month != 2 ==> days_in_month(year, month) == 30 + (month + month / 8) % 2,
        days_in_month(year, 2) == if is_leap(year) {
            29int
        } else {
            28
        },
{
    assert(month == 1 || month == 2 || month == 3 || month == 4 || month == 5 || month == 6 || month
        == 7 || month == 8 || month == 9 || month == 10 || month == 11 || month == 12);
}

/// A date is a month of the year and a day of that month.
pub proof fn law_dates_are_days_of_months(year: int, month: int, day: int)
    ensures
        is_date(year, month, day) <==> 1 <= month && month <= 12 && 1 <= day && day
            <= days_in_month(year, month),
        1 <= month <= 12 && 1 <= day <= 28 ==> is_date(year, month, day),
{
}

/// Days are counted one by one from the first of January 1970: the day after a date has the next
/// number, within a month, from month to month and from year to year.
pub proof fn law_days_are_counted_one_by_one(year: int, month: int, day: int)
    requires
        is_date(year, month, day),
    ensures
        day_number(1970, 1, 1) == 0,
        ({
            let next = if day < days_in_month(year, month) {
                (year, month, day + 1)
            } else if month < 12 {
                (year, month + 1, 1)
            } else {
                (year + 1, 1, 1)
            };
            &&& is_date(next.0, next.1, next.2)
            &&& day_number(next.0, next.1, next.2) == day_number(year, month, day) + 1
        }),
{
    lemma_days_before_month(1970, 1);
    if day == days_in_month(year, month) {
        if month < 12 {
            lemma_days_before_month(year, month);
            lemma_days_before_month(year, month + 1);
        } else {
            law_year_follows_year(year);
        }
    }
}

/// Every date has its number, and what is no date has none.
pub proof fn law_dates_are_numbered(year: u32, month: u32, day: u32, r: Option<i64>)
    requires
        call_ensures(days_from_civil, (year, month, day), r),
    ensures
        r is Some <==> is_date(year as int, month as int, day as int),
        r matches Some(days) ==> days == day_number(year as int, month as int, day as int),
{
}

/// Every number within the years that 32 bits write is that of the date that comes out.
pub proof fn law_dates_come_back(year: int, month: int, day: int, days: i64, date: (i32, u32, u32))
    requires
        is_date(year, month, day),
        i32::MIN <= year <= i32::MAX,
        day_number(year, month, day) == days,
        days <= i64::MAX - 719_468,
        call_ensures(civil_from_days, (days,), date),
    ensures
        date.0 == year,
        date.1 == month,
        date.2 == day,
{
    let other = choose|other: int|
        {
            &&& #[trigger] is_date(other, date.1 as int, date.2 as int)
            &&& day_number(other, date.1 as int, date.2 as int) == days
            &&& date.0 == other as i32
        };
    law_day_number_is_injective(year, month, day, other, date.1 as int, date.2 as int);
}

} // verus!
