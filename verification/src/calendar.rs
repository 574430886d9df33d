//! The calendar: which years are leap years, how long the months are, and
//! how many days lie between 1970-01-01 and a date.
use vstd::prelude::*;

verus! {

/// The seconds in a day; no day has a leap second.
pub const SECONDS_PER_DAY: i64 = 86400;

/// Every fourth year is a leap year, but of the years that end a century
/// only every fourth.
pub open spec fn is_leap_year(year: int) -> bool {
    year % 4 == 0 && (year % 100 != 0 || year % 400 == 0)
}

/// The number of days of a year.
pub open spec fn days_in_year(year: int) -> int {
    if is_leap_year(year) {
        366
    } else {
        365
    }
}

/// The number of days of a month, the months counted from 1.
pub open spec fn days_in_month(year: int, month: int) -> int {
    if month == 2 {
        if is_leap_year(year) {
            29
        } else {
            28
        }
    } else if month == 4 || month == 6 || month == 9 || month == 11 {
        30
    } else {
        31
    }
}

/// The days of `year` that lie before the first day of `month`.
pub open spec fn days_before_month(year: int, month: int) -> int
    decreases month,
{
    if month <= 1 {
        0
    } else {
        days_before_month(year, month - 1) + days_in_month(year, month - 1)
    }
}

/// The days from 1970-01-01 to the first day of `year`; negative for the
/// years before 1970.
pub open spec fn days_before_year(year: int) -> int
    decreases
            (if year >= 1970 {
                year - 1970
            } else {
                1970 - year
            }),
{
    if year == 1970 {
        0
    } else if year > 1970 {
        days_before_year(year - 1) + days_in_year(year - 1)
    } else {
        days_before_year(year + 1) - days_in_year(year)
    }
}

/// The seconds from 1970-01-01T00:00:00 to the given date and time of day,
/// both read in one and the same zone.
pub open spec fn civil_seconds(
    year: int,
    month: int,
    day: int,
    hour: int,
    minute: int,
    second: int,
) -> int {
    (days_before_year(year) + days_before_month(year, month) + day - 1) * SECONDS_PER_DAY + hour
        * 3600 + minute * 60 + second
}

/// The leap years from the year -399 up to, but without, `year`.
pub open spec fn leap_years_before(year: int) -> int {
    (year + 399) / 4 - (year + 399) / 100 + (year + 399) / 400
}

/// The days before a year, counted year by year, are what the leap-year
/// count gives in one step.
pub proof fn lemma_days_before_year(year: int)
    ensures
        days_before_year(year) == 365 * (year - 1970) + leap_years_before(year) - 574,
    decreases
            (if year >= 1970 {
                year - 1970
            } else {
                1970 - year
            }),
{
    if year > 1970 {
        lemma_days_before_year(year - 1);
        lemma_leap_years_step(year - 1);
    } else if year < 1970 {
        lemma_days_before_year(year + 1);
        lemma_leap_years_step(year);
    }
}

/// From one year to the next the leap-year count grows by one exactly when
/// the first of the two is a leap year.
pub proof fn lemma_leap_years_step(year: int)
    ensures
        leap_years_before(year + 1) - leap_years_before(year) == days_in_year(year) - 365,
{
    lemma_multiples_step(year, 4, 100);
    lemma_multiples_step(year, 100, 4);
    lemma_multiples_step(year, 400, 1);
    lemma_multiple_of_multiple(year, 4, 25);
    lemma_multiple_of_multiple(year, 100, 4);
}

/// Counting the multiples of `d` up to a year: the count grows by one at a
/// multiple of `d`, and stays as it is elsewhere. The count starts 400 years
/// back, so `d` times `k` is 400.
proof fn lemma_multiples_step(year: int, d: int, k: int)
    requires
        d > 0,
        d * k == 400,
    ensures
        (year + 400) / d - (year + 399) / d == if year % d == 0 {
            1int
        } else {
            0int
        },
{
    let n = year + 399;
    vstd::arithmetic::div_mod::lemma_fundamental_div_mod(n, d);
    vstd::arithmetic::div_mod::lemma_fundamental_div_mod(n + 1, d);
    vstd::arithmetic::div_mod::lemma_fundamental_div_mod(year, d);
    vstd::arithmetic::div_mod::lemma_mod_bound(n, d);
    vstd::arithmetic::div_mod::lemma_mod_bound(n + 1, d);
    vstd::arithmetic::div_mod::lemma_mod_bound(year, d);
    let q0 = n / d;
    let q1 = (n + 1) / d;
    let qy = year / d;
    // n + 1 == year + d * k, so both leave the same remainder.
    assert(d * q1 + (n + 1) % d == d * (qy + k) + year % d) by (nonlinear_arith)
        requires
            n + 1 == d * q1 + (n + 1) % d,
            year == d * qy + year % d,
            n + 1 == year + d * k,
    ;
    assert((n + 1) % d == year % d && q1 == qy + k) by (nonlinear_arith)
        requires
            d * q1 + (n + 1) % d == d * (qy + k) + year % d,
            0 <= (n + 1) % d < d,
            0 <= year % d < d,
    ;
    assert(q1 - q0 == if (n + 1) % d == 0 { 1int } else { 0int }) by (nonlinear_arith)
        requires
            n == d * q0 + n % d,
            n + 1 == d * q1 + (n + 1) % d,
            0 <= n % d < d,
            0 <= (n + 1) % d < d,
    ;
}

/// A multiple of `d * k` is a multiple of `d`.
proof fn lemma_multiple_of_multiple(x: int, d: int, k: int)
    requires
        d > 0,
        k > 0,
    ensures
        x % (d * k) == 0 ==> x % d == 0,
{
    assert(d * k > 0) by (nonlinear_arith)
        requires
            d > 0,
            k > 0,
    ;
    if x % (d * k) == 0 {
        let q = x / (d * k);
        vstd::arithmetic::div_mod::lemma_fundamental_div_mod(x, d * k);
        assert(x == (q * k) * d + 0) by (nonlinear_arith)
            requires
                x == (d * k) * q + 0,
        ;
        vstd::arithmetic::div_mod::lemma_fundamental_div_mod_converse_mod(x, d, q * k, 0);
    }
}

/// The days before a month, counted month by month, for each of the twelve.
pub proof fn lemma_days_before_month(year: int)
    ensures
        days_before_month(year, 1) == 0,
        days_before_month(year, 2) == 31,
        days_before_month(year, 3) == 31 + days_in_month(year, 2),
        days_before_month(year, 4) == 62 + days_in_month(year, 2),
        days_before_month(year, 5) == 92 + days_in_month(year, 2),
        days_before_month(year, 6) == 123 + days_in_month(year, 2),
        days_before_month(year, 7) == 153 + days_in_month(year, 2),
        days_before_month(year, 8) == 184 + days_in_month(year, 2),
        days_before_month(year, 9) == 215 + days_in_month(year, 2),
        days_before_month(year, 10) == 245 + days_in_month(year, 2),
        days_before_month(year, 11) == 276 + days_in_month(year, 2),
        days_before_month(year, 12) == 306 + days_in_month(year, 2),
{
    reveal_with_fuel(days_before_month, 13);
}

/// A year begins at least 365 and at most 366 days after the year before
/// it, and the year 0000 begins 719528 days before 1970.
pub proof fn lemma_year_start_bound(year: int)
    requires
        0 <= year,
    ensures
        365 * year - 719528 <= days_before_year(year) <= 366 * year - 719528,
        days_before_year(year + 1) == days_before_year(year) + days_in_year(year),
    decreases year,
{
    if year == 0 {
        lemma_days_before_year(0);
    } else {
        lemma_year_start_bound(year - 1);
    }
}

/// The year 10000 begins 2932897 days after 1970, and each year before it
/// at least 365 days before the next.
pub proof fn lemma_year_end_bound(year: int)
    requires
        0 <= year <= 10000,
    ensures
        days_before_year(year) + 365 * (10000 - year) <= 2932897,
    decreases 10000 - year,
{
    if year == 10000 {
        lemma_days_before_year(10000);
    } else {
        lemma_year_end_bound(year + 1);
    }
}

/// The years follow one another: a later year begins when the earlier one
/// is over, or after that.
pub proof fn lemma_years_in_order(earlier: int, later: int)
    requires
        0 <= earlier < later,
    ensures
        days_before_year(earlier) + days_in_year(earlier) <= days_before_year(later),
    decreases later - earlier,
{
    lemma_year_start_bound(earlier);
    if earlier + 1 < later {
        lemma_years_in_order(earlier + 1, later);
    }
}

/// A day of the calendar has one date: two dates that are as many days
/// from 1970-01-01 are the same date.
pub proof fn lemma_date_is_determined(
    year: int,
    month: int,
    day: int,
    other_year: int,
    other_month: int,
    other_day: int,
)
    requires
        0 <= year,
        1 <= month <= 12,
        1 <= day <= days_in_month(year, month),
        0 <= other_year,
        1 <= other_month <= 12,
        1 <= other_day <= days_in_month(other_year, other_month),
        days_before_year(year) + days_before_month(year, month) + day == days_before_year(
            other_year,
        ) + days_before_month(other_year, other_month) + other_day,
    ensures
        year == other_year,
        month == other_month,
        day == other_day,
{
    lemma_days_before_month(year);
    lemma_days_before_month(other_year);
    if year < other_year {
        lemma_years_in_order(year, other_year);
    } else if other_year < year {
        lemma_years_in_order(other_year, year);
    }
}

/// Whether a year of the calendar is a leap year.
pub(crate) fn leap_year(year: i64) -> (r: bool)
    requires
        0 <= year <= 9999,
    ensures
        r == is_leap_year(year as int),
{
    year % 4 == 0 && (year % 100 != 0 || year % 400 == 0)
}

/// The number of days of a month.
pub(crate) fn month_length(year: i64, month: i64) -> (r: i64)
    requires
        0 <= year <= 9999,
    ensures
        r == days_in_month(year as int, month as int),
        28 <= r <= 31,
{
    if month == 2 {
        if leap_year(year) {
            29
        } else {
            28
        }
    } else if month == 4 || month == 6 || month == 9 || month == 11 {
        30
    } else {
        31
    }
}

/// The days of a year that lie before the first day of a month.
pub(crate) fn days_to_month(year: i64, month: i64) -> (r: i64)
    requires
        0 <= year <= 9999,
        1 <= month <= 12,
    ensures
        r == days_before_month(year as int, month as int),
        0 <= r <= 335,
{
    proof {
        lemma_days_before_month(year as int);
    }
    let february: i64 = month_length(year, 2);
    if month == 1 {
        0
    } else if month == 2 {
        31
    } else if month == 3 {
        31 + february
    } else if month == 4 {
        62 + february
    } else if month == 5 {
        92 + february
    } else if month == 6 {
        123 + february
    } else if month == 7 {
        153 + february
    } else if month == 8 {
        184 + february
    } else if month == 9 {
        215 + february
    } else if month == 10 {
        245 + february
    } else if month == 11 {
        276 + february
    } else {
        306 + february
    }
}

/// The days from 1970-01-01 to the first day of a year, by the count of
/// leap years.
pub(crate) fn days_to_year(year: i64) -> (r: i64)
    requires
        0 <= year <= 10000,
    ensures
        r == days_before_year(year as int),
        -720000 <= r <= 2940000,
{
    proof {
        lemma_days_before_year(year as int);
    }
    let shifted: i64 = year + 399;
    let leaps: i64 = shifted / 4 - shifted / 100 + shifted / 400;
    365 * (year - 1970) + leaps - 574
}

/// The year in which a day lies, the days counted from 1970-01-01.
pub(crate) fn year_of_day(day: i64) -> (r: i64)
    requires
        -719528 <= day <= 2932896,
    ensures
        0 <= r <= 9999,
        days_before_year(r as int) <= day < days_before_year(r + 1),
{
    let mut year: i64 = (day + 719528) / 366;
    proof {
        lemma_year_start_bound(year as int);
        lemma_days_before_year(10000);
    }
    while days_to_year(year + 1) <= day
        invariant
            0 <= year <= 9999,
            days_before_year(year as int) <= day <= 2932896,
            days_before_year(10000) == 2932897,
        decreases 10000 - year,
    {
        year = year + 1;
    }
    year
}

/// The month in which a day of a year lies, the days counted from 0.
pub(crate) fn month_of_day(year: i64, day_of_year: i64) -> (r: i64)
    requires
        0 <= year <= 9999,
        0 <= day_of_year < days_in_year(year as int),
    ensures
        1 <= r <= 12,
        days_before_month(year as int, r as int) <= day_of_year < days_before_month(
            year as int,
            r as int,
        ) + days_in_month(year as int, r as int),
{
    proof {
        lemma_days_before_month(year as int);
    }
    let mut month: i64 = 1;
    while month < 12 && days_to_month(year, month + 1) <= day_of_year
        invariant
            0 <= year <= 9999,
            1 <= month <= 12,
            days_before_month(year as int, month as int) <= day_of_year < days_in_year(
                year as int,
            ),
        decreases 12 - month,
    {
        month = month + 1;
    }
    month
}

} // verus!
