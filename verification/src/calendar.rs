//! Proleptic Gregorian calendar: days since 1970-01-01 to civil dates.
use vstd::prelude::*;

verus! {

/// Gregorian leap year.
pub open spec fn is_leap(y: int) -> bool {
    (y % 4 == 0 && y % 100 != 0) || y % 400 == 0
}

/// Days in year `y`.
pub open spec fn year_len(y: int) -> int {
    if is_leap(y) {
        366
    } else {
        365
    }
}

/// Days in month `m` (1..=12) of year `y`.
pub open spec fn month_len(y: int, m: int) -> int {
    if m == 2 {
        if is_leap(y) {
            29
        } else {
            28
        }
    } else if m == 4 || m == 6 || m == 9 || m == 11 {
        30
    } else {
        31
    }
}

/// Days of the months before month `m` of year `y`.
pub open spec fn days_before_month(y: int, m: int) -> int
    decreases m,
{
    if m <= 1 {
        0
    } else {
        days_before_month(y, m - 1) + month_len(y, m - 1)
    }
}

/// Leap years among the years before `y` (counted from year 1; negative below it).
pub open spec fn leaps_before(y: int) -> int {
    (y - 1) / 4 - (y - 1) / 100 + (y - 1) / 400
}

/// Days from 1970-01-01 to January 1st of year `y`.
pub open spec fn days_to_year(y: int) -> int {
    365 * (y - 1970) + leaps_before(y) - leaps_before(1970)
}

/// Days from 1970-01-01 to the date `y-m-d`.
pub open spec fn days_from_civil(y: int, m: int, d: int) -> int {
    days_to_year(y) + days_before_month(y, m) + d - 1
}

/// `(y, m, d)` is a valid date that lies `z` days after 1970-01-01.
pub open spec fn is_civil_of(z: int, y: int, m: int, d: int) -> bool {
    &&& 1 <= m <= 12
    &&& 1 <= d <= month_len(y, m)
    &&& days_from_civil(y, m, d) == z
}

proof fn lemma_next_year(y: int)
    ensures
        days_to_year(y + 1) == days_to_year(y) + year_len(y),
{
    assert(leaps_before(y + 1) - leaps_before(y) == if is_leap(y) {
        1int
    } else {
        0int
    }) by (nonlinear_arith);
}

proof fn lemma_cycle(y: int, q: int)
    ensures
        days_to_year(y + 400 * q) == days_to_year(y) + 146097 * q,
{
    assert((y - 1 + 400 * q) / 4 == (y - 1) / 4 + 100 * q) by (nonlinear_arith);
    assert((y - 1 + 400 * q) / 100 == (y - 1) / 100 + 4 * q) by (nonlinear_arith);
    assert((y - 1 + 400 * q) / 400 == (y - 1) / 400 + q) by (nonlinear_arith);
}

proof fn lemma_months(y: int)
    ensures
        days_before_month(y, 12) + month_len(y, 12) == year_len(y),
{
    reveal_with_fuel(days_before_month, 13);
}

proof fn lemma_leap_periodic(a: int, q: int)
    ensures
        is_leap(a + 400 * q) == is_leap(a),
        year_len(a + 400 * q) == year_len(a),
        month_len(a + 400 * q, 2) == month_len(a, 2),
{
    assert((a + 400 * q) % 4 == a % 4) by (nonlinear_arith);
    assert((a + 400 * q) % 100 == a % 100) by (nonlinear_arith);
    assert((a + 400 * q) % 400 == a % 400) by (nonlinear_arith);
}

fn year_len_exec(a: u64) -> (r: i128)
    ensures
        r == year_len(a as int),
{
    if leap_exec(a) {
        366
    } else {
        365
    }
}

fn month_len_exec(leap: bool, m: u32) -> (r: i128)
    ensures
        forall|y: int| is_leap(y) == leap ==> r == month_len(y, m as int),
{
    if m == 2 {
        if leap {
            29
        } else {
            28
        }
    } else if m == 4 || m == 6 || m == 9 || m == 11 {
        30
    } else {
        31
    }
}

fn leap_exec(a: u64) -> (b: bool)
    ensures
        b == is_leap(a as int),
{
    (a % 4 == 0 && a % 100 != 0) || a % 400 == 0
}

/// Days since 1970-01-01 to `(year, month, day)` in the proleptic Gregorian calendar.
pub fn civil_from_days(z: i64) -> (r: (i64, u32, u32))
    requires
        z <= i64::MAX - 719_468,
    ensures
        is_civil_of(z as int, r.0 as int, r.1 as int, r.2 as int),
{
    // whole 400-year cycles counted from 2000-01-01 (day 10957)
    let shifted: i128 = z as i128 - 10957;
    let q: i128 = if shifted >= 0 {
        shifted / 146097
    } else {
        -((-shifted + 146096) / 146097)
    };
    let mut rem: i128 = shifted - q * 146097;
    assert(0 <= rem < 146097 && -70_000_000_000_000 < q < 70_000_000_000_000) by (nonlinear_arith)
        requires
            rem == shifted - q * 146097,
            shifted >= 0 ==> q == shifted / 146097,
            shifted < 0 ==> q == -((-shifted + 146096) / 146097),
            -10_000_000_000_000_000_000 < shifted < 10_000_000_000_000_000_000,
    ;
    proof {
        lemma_cycle(2000, q as int);
        assert(days_to_year(2000) == 10957);
    }
    let ghost y0 = 2000 + 400 * q;
    let mut k: u64 = 0;
    while rem >= year_len_exec(2000 + k)
        invariant
            k <= 400,
            0 <= rem,
            y0 == 2000 + 400 * q,
            days_to_year(y0 + k) + rem == z,
            days_to_year(y0 + k) + rem < days_to_year(y0) + 146097,
        decreases rem,
    {
        proof {
            lemma_next_year(y0 + k);
            lemma_leap_periodic(2000 + k, q as int);
        }
        let len: i128 = if leap_exec(2000 + k) {
            366
        } else {
            365
        };
        rem = rem - len;
        proof {
            if k == 400 {
                lemma_cycle(y0, 1);
                assert(false);
            }
        }
        k = k + 1;
    }
    let y: i128 = 2000 + 400 * q + k as i128;
    proof {
        lemma_leap_periodic(2000 + k, q as int);
        lemma_months(y as int);
    }
    assert(rem < year_len(y as int));
    let leap = leap_exec(2000 + k);
    assert(leap == is_leap(y as int));
    let mut m: u32 = 1;
    while rem >= month_len_exec(leap, m)
        invariant
            1 <= m <= 12,
            0 <= rem,
            leap == is_leap(y as int),
            days_to_year(y as int) + days_before_month(y as int, m as int) + rem == z,
            days_before_month(y as int, m as int) + rem < year_len(y as int),
            days_before_month(y as int, 12) + month_len(y as int, 12) == year_len(y as int),
        decreases 12 - m,
    {
        let len: i128 = if m == 2 {
            if leap {
                29
            } else {
                28
            }
        } else if m == 4 || m == 6 || m == 9 || m == 11 {
            30
        } else {
            31
        };
        assert(len == month_len(y as int, m as int));
        if m == 12 {
            assert(false);
        }
        rem = rem - len;
        m = m + 1;
    }
    assert(z as int == days_from_civil(y as int, m as int, rem + 1));
    (y as i64, m, (rem + 1) as u32)
}

proof fn lemma_years_apart(y1: int, y2: int)
    requires
        y1 < y2,
    ensures
        days_to_year(y2) >= days_to_year(y1) + year_len(y1),
    decreases y2 - y1,
{
    lemma_next_year(y1);
    if y1 + 1 < y2 {
        lemma_years_apart(y1 + 1, y2);
        lemma_next_year(y1 + 1);
    }
}

proof fn lemma_months_apart(y: int, m1: int, m2: int)
    requires
        1 <= m1 < m2,
    ensures
        days_before_month(y, m2) >= days_before_month(y, m1) + month_len(y, m1),
    decreases m2 - m1,
{
    if m1 + 1 < m2 {
        lemma_months_apart(y, m1, m2 - 1);
        assert(month_len(y, m2 - 1) > 0);
    }
}

proof fn lemma_in_year(y: int, m: int, d: int)
    requires
        1 <= m <= 12,
        1 <= d <= month_len(y, m),
    ensures
        0 <= days_before_month(y, m) + d - 1 < year_len(y),
{
    lemma_months(y);
    if m < 12 {
        lemma_months_apart(y, m, 12);
    }
    assert(days_before_month(y, m) >= 0) by {
        lemma_dbm_nonneg(y, m);
    }
}

proof fn lemma_dbm_nonneg(y: int, m: int)
    ensures
        days_before_month(y, m) >= 0,
    decreases m,
{
    if m > 1 {
        lemma_dbm_nonneg(y, m - 1);
    }
}

/// A day has one civil date: two dates of the same day are the same date.
pub proof fn lemma_civil_unique(z: int, y1: int, m1: int, d1: int, y2: int, m2: int, d2: int)
    requires
        is_civil_of(z, y1, m1, d1),
        is_civil_of(z, y2, m2, d2),
    ensures
        y1 == y2 && m1 == m2 && d1 == d2,
{
    lemma_in_year(y1, m1, d1);
    lemma_in_year(y2, m2, d2);
    if y1 < y2 {
        lemma_years_apart(y1, y2);
    } else if y2 < y1 {
        lemma_years_apart(y2, y1);
    }
    assert(y1 == y2);
    if m1 < m2 {
        lemma_months_apart(y1, m1, m2);
    } else if m2 < m1 {
        lemma_months_apart(y1, m2, m1);
    }
}

/// Days from 1970-01-01 before the year 10000 begins.
pub open spec fn days_before_10000() -> int {
    2_932_897
}

/// A day from 1970 on and before the year 10000 falls in a year from 1970 to 9999.
pub proof fn lemma_civil_year_range(z: int, y: int, m: int, d: int)
    requires
        is_civil_of(z, y, m, d),
        0 <= z < days_before_10000(),
    ensures
        1970 <= y <= 9999,
{
    lemma_in_year(y, m, d);
    if y < 1970 {
        lemma_years_apart(y, 1970);
        assert(days_to_year(1970) == 0);
    }
    if y > 9999 {
        assert(days_to_year(10000) == 2_932_897);
        if y > 10000 {
            lemma_years_apart(10000, y);
        }
    }
}

} // verus!
