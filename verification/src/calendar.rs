//! The civil calendar: dates as days counted from 1970-01-01.

use vstd::prelude::*;

verus! {

/// Whether year `y` has a February 29th.
pub open spec fn is_leap(y: int) -> bool {
    y % 4 == 0 && (y % 100 != 0 || y % 400 == 0)
}

pub open spec fn year_length(y: int) -> int {
    if is_leap(y) {
        366
    } else {
        365
    }
}

pub open spec fn month_length(y: int, m: int) -> int {
    if m == 2 {
        if is_leap(y) {
            29
        } else {
            28
        }
    } else if m == 4 || m == 6 || m == 9 || m == 11 {
        30
    } else {
        31
    }
}

/// The days from 1970-01-01 to the first day of year `y`.
pub open spec fn year_start(y: int) -> int
    decreases
            if y >= 1970 {
                y - 1970
            } else {
                1970 - y
            },
{
    if y == 1970 {
        0
    } else if y > 1970 {
        year_start(y - 1) + year_length(y - 1)
    } else {
        year_start(y + 1) - year_length(y)
    }
}

/// The days of year `y` before month `m`.
pub open spec fn month_start(y: int, m: int) -> int
    decreases m,
{
    if m <= 1 {
        0
    } else {
        month_start(y, m - 1) + month_length(y, m - 1)
    }
}

/// Whether year, month and day are a day of the calendar.
pub open spec fn is_date(y: int, m: int, d: int) -> bool {
    1 <= m <= 12 && 1 <= d <= month_length(y, m)
}

/// The days from 1970-01-01 to a date.
pub open spec fn date_days(y: int, m: int, d: int) -> int {
    year_start(y) + month_start(y, m) + d - 1
}

/// Whether year, month and day are the date `days` after 1970-01-01.
pub open spec fn date_on(days: int, y: int, m: int, d: int) -> bool {
    is_date(y, m, d) && date_days(y, m, d) == days
}

/// The date `days` after 1970-01-01.
pub open spec fn date_of(days: int) -> (int, int, int) {
    choose|y: int, m: int, d: int| date_on(days, y, m, d)
}

/// The leap days up to the end of year `y`, counted from the year 0.
spec fn leap_days(y: int) -> int {
    y / 4 - y / 100 + y / 400
}

/// A quotient grows by one at the multiples of the divisor.
proof fn lemma_quotient_step(y: int, d: int)
    requires
        d > 1,
    ensures
        y / d - (y - 1) / d == (if y % d == 0 { 1int } else { 0 }),
{
    let q = y / d;
    let r = y % d;
    vstd::arithmetic::div_mod::lemma_fundamental_div_mod(y, d);
    if r == 0 {
        assert(y - 1 == (q - 1) * d + (d - 1)) by (nonlinear_arith)
            requires
                y == d * q + r,
                r == 0,
        ;
        vstd::arithmetic::div_mod::lemma_fundamental_div_mod_converse(y - 1, d, q - 1, d - 1);
    } else {
        assert(y - 1 == q * d + (r - 1)) by (nonlinear_arith)
            requires
                y == d * q + r,
        ;
        vstd::arithmetic::div_mod::lemma_fundamental_div_mod_converse(y - 1, d, q, r - 1);
    }
}

#[verifier::spinoff_prover]
proof fn lemma_leap_days(y: int)
    ensures
        leap_days(y) - leap_days(y - 1) == (if is_leap(y) { 1int } else { 0 }),
{
    lemma_quotient_step(y, 4);
    lemma_quotient_step(y, 100);
    lemma_quotient_step(y, 400);
    assert(y % 100 == 0 ==> y % 4 == 0);
    assert(y % 400 == 0 ==> y % 100 == 0);
}

proof fn lemma_year_start(y: int)
    ensures
        year_start(y) == 365 * y + leap_days(y - 1) - 719527,
    decreases
            if y >= 1970 {
                y - 1970
            } else {
                1970 - y
            },
{
    if y > 1970 {
        lemma_year_start(y - 1);
        lemma_leap_days(y - 1);
    } else if y < 1970 {
        lemma_year_start(y + 1);
        lemma_leap_days(y);
    }
}

/// The days of a year before each of its months.
#[verifier::rlimit(60)]
#[verifier::spinoff_prover]
proof fn lemma_month_start(y: int)
    ensures
        month_start(y, 1) == 0,
        month_start(y, 2) == 31,
        month_start(y, 3) == year_length(y) - 306,
        month_start(y, 4) == year_length(y) - 275,
        month_start(y, 5) == year_length(y) - 245,
        month_start(y, 6) == year_length(y) - 214,
        month_start(y, 7) == year_length(y) - 184,
        month_start(y, 8) == year_length(y) - 153,
        month_start(y, 9) == year_length(y) - 122,
        month_start(y, 10) == year_length(y) - 92,
        month_start(y, 11) == year_length(y) - 61,
        month_start(y, 12) == year_length(y) - 31,
{
    reveal_with_fuel(month_start, 13);
}

/// Day `d` of month `m` of year `y`, counted from 1970-01-01, on a calendar
/// whose years begin in March: month and day need not lie in the year.
spec fn march_days(y: int, m: int, d: int) -> int {
    let ys = if m <= 2 {
        y - 1
    } else {
        y
    };
    let ms = if m <= 2 {
        m + 9
    } else {
        m - 3
    };
    365 * ys + ys / 4 - ys / 100 + ys / 400 + (153 * ms + 2) / 5 + d - 1 - 719468
}

/// On the dates of the calendar the March count is the count of days.
#[verifier::rlimit(60)]
#[verifier::spinoff_prover]
proof fn lemma_march_days(y: int, m: int, d: int)
    requires
        is_date(y, m, d),
    ensures
        march_days(y, m, d) == date_days(y, m, d),
{
    lemma_year_start(y);
    lemma_month_start(y);
    lemma_leap_days(y);
    if m == 1 {
    } else if m == 2 {
    } else if m == 3 {
    } else if m == 4 {
    } else if m == 5 {
    } else if m == 6 {
    } else if m == 7 {
    } else if m == 8 {
    } else if m == 9 {
    } else if m == 10 {
    } else if m == 11 {
    } else {
        assert(m == 12);
    }
}

fn length_of_month(y: i64, m: i64) -> (r: i64)
    requires
        0 <= y,
    ensures
        r == month_length(y as int, m as int),
{
    if m == 2 {
        if y % 4 == 0 && (y % 100 != 0 || y % 400 == 0) {
            29
        } else {
            28
        }
    } else if m == 4 || m == 6 || m == 9 || m == 11 {
        30
    } else {
        31
    }
}

/// Whether year, month and day are a day of the calendar.
pub fn is_calendar_date(y: i64, m: i64, d: i64) -> (r: bool)
    requires
        0 <= y,
    ensures
        r == is_date(y as int, m as int, d as int),
{
    1 <= m && m <= 12 && 1 <= d && d <= length_of_month(y, m)
}

/// The days from 1970-01-01 to a date.
#[verifier::rlimit(60)]
#[verifier::spinoff_prover]
pub fn days_of_date(y: i64, m: i64, d: i64) -> (r: i64)
    requires
        0 <= y <= 9999,
        is_date(y as int, m as int, d as int),
    ensures
        r == date_days(y as int, m as int, d as int),
        -0x1_0000_0000 < r < 0x1_0000_0000,
{
    proof {
        lemma_march_days(y as int, m as int, d as int);
    }
    let ys: i64 = if m <= 2 {
        y - 1
    } else {
        y
    };
    let ms: i64 = if m <= 2 {
        m + 9
    } else {
        m - 3
    };
    let era: i64 = if ys >= 0 {
        ys / 400
    } else {
        -1
    };
    let yoe: i64 = ys - era * 400;
    let doy: i64 = (153 * ms + 2) / 5 + d - 1;
    let doe: i64 = yoe * 365 + yoe / 4 - yoe / 100 + doy;
    assert(era == ys as int / 400);
    assert(ys as int / 4 == yoe as int / 4 + era * 100);
    assert(ys as int / 100 == yoe as int / 100 + era * 4);
    era * 146097 + doe - 719468
}

proof fn lemma_year_start_ordered(a: int, b: int)
    requires
        a <= b,
    ensures
        year_start(b) >= year_start(a) + 365 * (b - a),
    decreases b - a,
{
    if a < b {
        lemma_year_start_ordered(a, b - 1);
        lemma_year_start(b - 1);
        lemma_year_start(b);
        lemma_leap_days(b - 1);
    }
}

proof fn lemma_year_step(y: int)
    ensures
        year_start(y + 1) == year_start(y) + year_length(y),
{
    lemma_year_start(y);
    lemma_year_start(y + 1);
    lemma_leap_days(y);
}

proof fn lemma_year_no_earlier(y1: int, y2: int, m1: int, m2: int, d1: int, d2: int)
    requires
        is_date(y1, m1, d1),
        is_date(y2, m2, d2),
        date_days(y1, m1, d1) >= date_days(y2, m2, d2),
    ensures
        y1 >= y2,
{
    lemma_month_start(y1);
    lemma_month_start(y2);
    lemma_year_step(y1);
    if y1 < y2 {
        lemma_year_start_ordered(y1 + 1, y2);
        assert(month_start(y1, m1) + d1 <= year_length(y1));
        assert(month_start(y2, m2) + d2 >= 1);
    }
}

/// No two dates are the same day: a date is recovered from its day count.
pub proof fn law_date_of(y: int, m: int, d: int)
    requires
        is_date(y, m, d),
    ensures
        date_of(date_days(y, m, d)) == (y, m, d),
{
    let days = date_days(y, m, d);
    assert(date_on(days, y, m, d));
    let (y2, m2, d2) = date_of(days);
    assert(date_on(days, y2, m2, d2));
    lemma_year_no_earlier(y, y2, m, m2, d, d2);
    lemma_year_no_earlier(y2, y, m2, m, d2, d);
    lemma_month_start(y);
}

/// Every day has a date.
#[verifier::rlimit(60)]
#[verifier::spinoff_prover]
pub proof fn law_every_day_has_a_date(days: int)
    ensures
        date_on(days, date_of(days).0, date_of(days).1, date_of(days).2),
{
    let z = days + 719468;
    let era = z / 146097;
    let doe = z - era * 146097;
    let yoe = (doe - doe / 1460 + doe / 36524 - doe / 146096) / 365;
    lemma_year_of_era(doe, yoe);
    let doy = doe - (365 * yoe + yoe / 4 - yoe / 100);
    let mp = (5 * doy + 2) / 153;
    lemma_from_march(z, era, doe, yoe, doy, mp);
    let d = doy - (153 * mp + 2) / 5 + 1;
    if mp < 10 {
        assert(date_on(days, yoe + era * 400, mp + 3, d));
    } else {
        assert(date_on(days, yoe + era * 400 + 1, mp - 9, d));
    }
}

/// Dates are ordered like the days that they are: by year, then by month, then
/// by day of the month.
#[verifier::rlimit(60)]
#[verifier::spinoff_prover]
pub proof fn law_dates_in_order(a: int, b: int)
    requires
        a < b,
    ensures
        ({
            let (y1, m1, d1) = date_of(a);
            let (y2, m2, d2) = date_of(b);
            y1 < y2 || y1 == y2 && (m1 < m2 || m1 == m2 && d1 < d2)
        }),
{
    let (y1, m1, d1) = date_of(a);
    let (y2, m2, d2) = date_of(b);
    law_every_day_has_a_date(a);
    law_every_day_has_a_date(b);
    lemma_year_no_earlier(y2, y1, m2, m1, d2, d1);
    if y1 == y2 {
        lemma_month_start(y1);
        if m2 < m1 {
            assert(month_start(y1, m1) >= month_start(y1, m2) + month_length(y1, m2));
        }
    }
}

/// The days of the years of four digits.
pub proof fn lemma_four_digit_years(days: int)
    requires
        -719528 <= days < 2932897,
    ensures
        0 <= date_of(days).0 <= 9999,
{
    let (y, m, d) = date_of(days);
    law_every_day_has_a_date(days);
    lemma_year_start(0);
    lemma_year_start(10000);
    lemma_month_start(y);
    lemma_year_no_earlier(y, 0, m, 1, d, 1);
    if y >= 10000 {
        lemma_year_start_ordered(10000, y);
    }
}

/// The date `days` after 1970-01-01.
#[verifier::rlimit(60)]
#[verifier::spinoff_prover]
pub fn date_from_days(days: i64) -> (r: (i64, u32, u32))
    requires
        days <= i64::MAX - 719468,
    ensures
        is_date(r.0 as int, r.1 as int, r.2 as int),
        date_days(r.0 as int, r.1 as int, r.2 as int) == days,
        (r.0 as int, r.1 as int, r.2 as int) == date_of(days as int),
        r.0 > i64::MIN,
{
    let z: i64 = days + 719468;
    let era: i64 = if z >= 0 {
        z / 146097
    } else {
        -((146096 - z) / 146097)
    };
    assert(era == z as int / 146097);
    let doe: u32 = (z - era * 146097) as u32;
    let yoe: u32 = (doe - doe / 1460 + doe / 36524 - doe / 146096) / 365;
    proof {
        lemma_year_of_era(doe as int, yoe as int);
    }
    let y: i64 = (yoe as i64) + era * 400;
    let doy: u32 = doe - (365 * yoe + yoe / 4 - yoe / 100);
    let mp: u32 = (5 * doy + 2) / 153;
    let d: u32 = doy - (153 * mp + 2) / 5 + 1;
    let m: u32 = if mp < 10 {
        mp + 3
    } else {
        mp - 9
    };
    let yy: i64 = if m <= 2 {
        y + 1
    } else {
        y
    };
    proof {
        lemma_from_march(z as int, era as int, doe as int, yoe as int, doy as int, mp as int);
        law_date_of(yy as int, m as int, d as int);
    }
    (yy, m, d)
}

/// The year of a 400-year era, counted from March, that a day of it lies in.
#[verifier::rlimit(60)]
#[verifier::spinoff_prover]
proof fn lemma_year_of_era(doe: int, yoe: int)
    requires
        0 <= doe <= 146096,
        yoe == (doe - doe / 1460 + doe / 36524 - doe / 146096) / 365,
    ensures
        0 <= yoe <= 399,
        365 * yoe + yoe / 4 - yoe / 100 <= doe,
        doe - (365 * yoe + yoe / 4 - yoe / 100) <= (if is_leap(yoe + 1) { 365int } else { 364 }),
{
}

/// The calendar repeats every 400 years.
proof fn lemma_leap_period(y: int, era: int)
    ensures
        is_leap(y + era * 400) == is_leap(y),
{
    assert((y + era * 400) % 4 == y % 4);
    assert((y + era * 400) % 100 == y % 100);
    assert((y + era * 400) % 400 == y % 400);
}

/// The month that a day lies in, both counted from March of year `y`.
#[verifier::rlimit(60)]
#[verifier::spinoff_prover]
proof fn lemma_march_month(doy: int, mp: int, y: int)
    requires
        0 <= doy <= (if is_leap(y + 1) { 365int } else { 364 }),
        mp == (5 * doy + 2) / 153,
    ensures
        0 <= mp <= 11,
        mp < 10 ==> is_date(y, mp + 3, doy - (153 * mp + 2) / 5 + 1),
        mp >= 10 ==> is_date(y + 1, mp - 9, doy - (153 * mp + 2) / 5 + 1),
{
    if mp == 0 {
    } else if mp == 1 {
    } else if mp == 2 {
    } else if mp == 3 {
    } else if mp == 4 {
    } else if mp == 5 {
    } else if mp == 6 {
    } else if mp == 7 {
    } else if mp == 8 {
    } else if mp == 9 {
    } else if mp == 10 {
    } else {
        assert(mp == 11);
    }
}

#[verifier::rlimit(60)]
#[verifier::spinoff_prover]
proof fn lemma_from_march(z: int, era: int, doe: int, yoe: int, doy: int, mp: int)
    requires
        era == z / 146097,
        doe == z - era * 146097,
        0 <= yoe <= 399,
        doy == doe - (365 * yoe + yoe / 4 - yoe / 100),
        0 <= doy <= (if is_leap(yoe + 1) { 365int } else { 364 }),
        mp == (5 * doy + 2) / 153,
    ensures
        0 <= mp <= 11,
        ({
            let y = yoe + era * 400;
            let d = doy - (153 * mp + 2) / 5 + 1;
            let m = if mp < 10 {
                mp + 3
            } else {
                mp - 9
            };
            let yy = if m <= 2 {
                y + 1
            } else {
                y
            };
            is_date(yy, m, d) && date_days(yy, m, d) == z - 719468
        }),
{
    let y = yoe + era * 400;
    let d = doy - (153 * mp + 2) / 5 + 1;
    let m = if mp < 10 {
        mp + 3
    } else {
        mp - 9
    };
    let yy = if m <= 2 {
        y + 1
    } else {
        y
    };
    lemma_leap_period(yoe + 1, era);
    lemma_march_month(doy, mp, y);
    lemma_march_days(yy, m, d);
    assert(y / 4 == yoe / 4 + era * 100);
    assert(y / 100 == yoe / 100 + era * 4);
    assert(y / 400 == era);
}

/// The calendar goes on day by day from 1970-01-01: through the days of a month,
/// from the last of them to the next month, and from December 31st to the next
/// year; every fourth year has a February 29th, but of the hundredth years only
/// the four hundredth.
pub proof fn law_calendar(y: int, m: int, d: int)
    requires
        is_date(y, m, d),
    ensures
        date_days(1970, 1, 1) == 0,
        is_date(y, m, d + 1) ==> date_days(y, m, d + 1) == date_days(y, m, d) + 1,
        !is_date(y, m, d + 1) && m < 12 ==> is_date(y, m + 1, 1) && date_days(y, m + 1, 1)
            == date_days(y, m, d) + 1,
        !is_date(y, m, d + 1) && m == 12 ==> d == 31 && date_days(y + 1, 1, 1) == date_days(
            y,
            m,
            d,
        ) + 1,
        is_date(y, 2, 29) <==> y % 4 == 0 && (y % 100 != 0 || y % 400 == 0),
        is_date(y, 2, 28) && !is_date(y, 2, 30),
        is_date(y, m, 30) <==> m != 2,
        is_date(y, m, 31) <==> m == 1 || m == 3 || m == 5 || m == 7 || m == 8 || m == 10 || m == 12,
        !is_date(y, m, 32) && !is_date(y, m, 0) && !is_date(y, 0, d) && !is_date(y, 13, d),
{
    lemma_month_start(y);
    lemma_month_start(y + 1);
    lemma_month_start(1970);
    lemma_year_step(y);
}

} // verus!
