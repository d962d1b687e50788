//! The proleptic Gregorian calendar, counted in days since 1970-01-01.

use vstd::prelude::*;

verus! {

/// A Gregorian leap year: divisible by 4, except centuries not divisible
/// by 400.
pub open spec fn is_leap_year(y: int) -> bool {
    (y % 4 == 0 && y % 100 != 0) || y % 400 == 0
}

pub open spec fn days_in_year(y: int) -> int {
    if is_leap_year(y) {
        366
    } else {
        365
    }
}

/// The length of month `m` (1 to 12) of year `y`.
pub open spec fn days_in_month(m: int, y: int) -> int {
    if m == 2 {
        if is_leap_year(y) {
            29
        } else {
            28
        }
    } else if m == 4 || m == 6 || m == 9 || m == 11 {
        30
    } else {
        31
    }
}

/// The year in which day `n` (counted from 1 January of year `y`) falls,
/// and its index within that year (0 for 1 January).
pub open spec fn year_and_day(n: int, y: int) -> (int, int)
    decreases n,
{
    if n < days_in_year(y) {
        (y, n)
    } else {
        year_and_day(n - days_in_year(y), y + 1)
    }
}

/// The month in which day `r` of year `y` (counted from the first day of
/// month `m`) falls, and its day within that month (1 for the first).
pub open spec fn month_and_day(r: int, m: int, y: int) -> (int, int)
    decreases 12 - m,
{
    if m >= 12 || r < days_in_month(m, y) {
        (m, r + 1)
    } else {
        month_and_day(r - days_in_month(m, y), m + 1, y)
    }
}

/// The date (year, month, day) of day `n` since 1970-01-01.
pub open spec fn civil_date(n: int) -> (int, int, int) {
    let (y, r) = year_and_day(n, 1970);
    let (m, d) = month_and_day(r, 1, y);
    (y, m, d)
}

/// The days of the `k` years from year `y` on.
pub open spec fn span(y: int, k: nat) -> int
    decreases k,
{
    if k == 0 {
        0
    } else {
        span(y, (k - 1) as nat) + days_in_year(y + k - 1)
    }
}

/// The days of the months of year `y` before month `m`.
pub open spec fn month_offset(m: int, y: int) -> int
    decreases m,
{
    if m <= 1 {
        0
    } else {
        month_offset(m - 1, y) + days_in_month(m - 1, y)
    }
}

/// The number of leap years among the years 0 to `z - 1`, shifted so that
/// only differences matter.
spec fn leap_count(z: int) -> int {
    (z + 3) / 4 - (z + 99) / 100 + (z + 399) / 400
}

proof fn lemma_leap_count_step(z: int)
    ensures
        leap_count(z + 1) - leap_count(z) == (if is_leap_year(z) {
            1int
        } else {
            0int
        }),
{
    assert((z + 4) / 4 - (z + 3) / 4 == (if z % 4 == 0 {
        1int
    } else {
        0int
    }));
    assert((z + 100) / 100 - (z + 99) / 100 == (if z % 100 == 0 {
        1int
    } else {
        0int
    }));
    assert((z + 400) / 400 - (z + 399) / 400 == (if z % 400 == 0 {
        1int
    } else {
        0int
    }));
}

proof fn lemma_span_closed(y: int, k: nat)
    ensures
        span(y, k) == 365 * k + leap_count(y + k) - leap_count(y),
    decreases k,
{
    if k > 0 {
        lemma_span_closed(y, (k - 1) as nat);
        lemma_leap_count_step(y + k - 1);
    }
}

/// Every 400 consecutive Gregorian years hold 146097 days.
proof fn lemma_span_era(y: int)
    ensures
        span(y, 400) == 146097,
{
    lemma_span_closed(y, 400);
    assert((y + 403) / 4 == (y + 3) / 4 + 100);
    assert((y + 499) / 100 == (y + 99) / 100 + 4);
    assert((y + 799) / 400 == (y + 399) / 400 + 1);
}

proof fn lemma_span_grows(y: int, j: nat, k: nat)
    requires
        j <= k,
    ensures
        span(y, j) <= span(y, k),
    decreases k,
{
    if j < k {
        lemma_span_grows(y, j, (k - 1) as nat);
    }
}

/// Walking `k` whole years at once.
proof fn lemma_year_skip(n: int, y: int, k: nat)
    requires
        n >= span(y, k),
    ensures
        year_and_day(n, y) == year_and_day(n - span(y, k), y + k),
    decreases k,
{
    if k > 0 {
        let k1 = (k - 1) as nat;
        lemma_span_grows(y, k1, k);
        lemma_year_skip(n, y, k1);
        let x = n - span(y, k1);
        assert(x >= days_in_year(y + k1));
        assert(year_and_day(x, y + k1) == year_and_day(x - days_in_year(y + k1), y + k1 + 1));
    }
}

/// Walking `q` whole 400-year eras at once.
pub proof fn lemma_era_skip(n: int, y: int, q: nat)
    requires
        n >= 146097 * q,
    ensures
        year_and_day(n, y) == year_and_day(n - 146097 * q, y + 400 * q),
    decreases q,
{
    if q > 0 {
        let q1 = (q - 1) as nat;
        lemma_era_skip(n, y, q1);
        let x = n - 146097 * q1;
        let y1 = y + 400 * q1;
        lemma_span_era(y1);
        lemma_year_skip(x, y1, 400);
    }
}

/// The day number is recovered from the date: day `n` lies `r` days into
/// the year `y` that `year_and_day` finds.
proof fn lemma_year_and_day(n: int, y0: int)
    requires
        n >= 0,
    ensures
        year_and_day(n, y0).0 >= y0,
        0 <= year_and_day(n, y0).1 < days_in_year(year_and_day(n, y0).0),
        n == span(y0, (year_and_day(n, y0).0 - y0) as nat) + year_and_day(n, y0).1,
    decreases n,
{
    if n >= days_in_year(y0) {
        let n1 = n - days_in_year(y0);
        lemma_year_and_day(n1, y0 + 1);
        let (y, r) = year_and_day(n1, y0 + 1);
        lemma_span_shift(y0, (y - y0 - 1) as nat);
    } else {
        assert(span(y0, 0) == 0);
    }
}

proof fn lemma_span_shift(y: int, k: nat)
    ensures
        span(y, k + 1) == days_in_year(y) + span(y + 1, k),
    decreases k,
{
    assert(span(y, k + 1) == span(y, k) + days_in_year(y + k));
    if k > 0 {
        lemma_span_shift(y, (k - 1) as nat);
        assert(span(y + 1, k) == span(y + 1, (k - 1) as nat) + days_in_year(y + 1 + k - 1));
    } else {
        assert(span(y, 0) == 0);
        assert(span(y + 1, 0) == 0);
    }
}

proof fn lemma_month_and_day(r: int, m0: int, y: int)
    requires
        1 <= m0 <= 12,
        0 <= r,
        r + month_offset(m0, y) < days_in_year(y),
    ensures
        m0 <= month_and_day(r, m0, y).0 <= 12,
        1 <= month_and_day(r, m0, y).1 <= 31,
        month_and_day(r, m0, y).1 <= days_in_month(month_and_day(r, m0, y).0, y),
        r + month_offset(m0, y) == month_offset(month_and_day(r, m0, y).0, y) + month_and_day(
            r,
            m0,
            y,
        ).1 - 1,
    decreases 12 - m0,
{
    reveal_with_fuel(month_offset, 13);
    if m0 >= 12 || r < days_in_month(m0, y) {
    } else {
        lemma_month_and_day(r - days_in_month(m0, y), m0 + 1, y);
    }
}

/// Different days have different dates.
pub proof fn law_civil_date_injective(n1: int, n2: int)
    requires
        n1 >= 0,
        n2 >= 0,
        civil_date(n1) == civil_date(n2),
    ensures
        n1 == n2,
{
    lemma_civil_date_bounds(n1);
    lemma_civil_date_bounds(n2);
}

/// The date of every day is a valid Gregorian date, and counting the days
/// back from it gives the day: a year from 1970 on, a month from 1 to 12, a
/// day within that month's length, and day `n` is the days of the whole
/// years from 1970 and of the whole months of its year before it, plus its
/// day of the month less one.
pub proof fn law_civil_date_counts_back(n: int)
    requires
        n >= 0,
    ensures
        civil_date(n).0 >= 1970,
        1 <= civil_date(n).1 <= 12,
        1 <= civil_date(n).2 <= days_in_month(civil_date(n).1, civil_date(n).0),
        n == span(1970, (civil_date(n).0 - 1970) as nat) + month_offset(civil_date(n).1, civil_date(n).0)
            + civil_date(n).2 - 1,
{
    lemma_civil_date_bounds(n);
}

/// The date of a day: a year from 1970 on, a month from 1 to 12, a day
/// from 1 to 31, and the day is its offset from 1970-01-01.
pub proof fn lemma_civil_date_bounds(n: int)
    requires
        n >= 0,
    ensures
        civil_date(n).0 >= 1970,
        1 <= civil_date(n).1 <= 12,
        1 <= civil_date(n).2 <= 31,
        civil_date(n).2 <= days_in_month(civil_date(n).1, civil_date(n).0),
        n == span(1970, (civil_date(n).0 - 1970) as nat) + month_offset(civil_date(n).1, civil_date(n).0)
            + civil_date(n).2 - 1,
{
    lemma_year_and_day(n, 1970);
    let (y, r) = year_and_day(n, 1970);
    assert(month_offset(1, y) == 0);
    lemma_month_and_day(r, 1, y);
}

fn is_leap(y: u64) -> (b: bool)
    ensures
        b == is_leap_year(y as int),
{
    (y % 4 == 0 && y % 100 != 0) || y % 400 == 0
}

fn year_length(y: u64) -> (n: u64)
    ensures
        n as int == days_in_year(y as int),
{
    if is_leap(y) {
        366
    } else {
        365
    }
}

fn month_length(m: u64, y: u64) -> (n: u64)
    ensures
        n as int == days_in_month(m as int, y as int),
{
    if m == 2 {
        if is_leap(y) {
            29
        } else {
            28
        }
    } else if m == 4 || m == 6 || m == 9 || m == 11 {
        30
    } else {
        31
    }
}

/// The date of day `days` since 1970-01-01, as (year, month, day).
pub fn civil_from_days(days: u64) -> (r: (u64, u64, u64))
    ensures
        (r.0 as int, r.1 as int, r.2 as int) == civil_date(days as int),
{
    let q: u64 = days / 146097;
    let mut rem: u64 = days % 146097;
    assert(400 * q <= 400 * (days / 146097)) by (nonlinear_arith)
        requires
            q == days / 146097,
    ;
    assert(q <= 126_264_916_151_119) by (nonlinear_arith)
        requires
            q == days / 146097,
            days <= u64::MAX,
    ;
    let mut y: u64 = 1970 + 400 * q;
    let ghost y_start = y as int;
    let ghost r_start = rem as int;
    proof {
        assert(days as int == 146097 * q + rem) by (nonlinear_arith)
            requires
                q == days / 146097,
                rem == days % 146097,
        ;
        lemma_era_skip(days as int, 1970, q as nat);
    }
    while rem >= year_length(y)
        invariant
            year_and_day(days as int, 1970) == year_and_day(rem as int, y as int),
            rem <= r_start < 146097,
            y_start <= 1970 + 400 * 126_264_916_151_119,
            1970 <= y_start <= y,
            y + rem <= y_start + r_start,
        decreases rem,
    {
        let len = year_length(y);
        rem = rem - len;
        y = y + 1;
    }
    assert(year_and_day(rem as int, y as int) == (y as int, rem as int));
    let mut m: u64 = 1;
    let ghost r0 = rem as int;
    loop
        invariant
            1 <= m <= 12,
            rem < 146097,
            year_and_day(days as int, 1970) == (y as int, r0),
            month_and_day(r0, 1, y as int) == month_and_day(rem as int, m as int, y as int),
        ensures
            1 <= m <= 12,
            rem < 146097,
            year_and_day(days as int, 1970) == (y as int, r0),
            month_and_day(r0, 1, y as int) == (m as int, rem + 1),
        decreases 12 - m,
    {
        let dim = month_length(m, y);
        if m >= 12 || rem < dim {
            assert(month_and_day(rem as int, m as int, y as int) == (m as int, rem + 1));
            break;
        }
        rem = rem - dim;
        m = m + 1;
    }
    (y, m, rem + 1)
}

} // verus!
