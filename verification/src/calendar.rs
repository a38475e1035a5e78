//! Proleptic Gregorian calendar arithmetic: day numbers relative to 1970-01-01 and back.

use vstd::prelude::*;
use vstd::arithmetic::div_mod::{lemma_fundamental_div_mod, lemma_fundamental_div_mod_converse_div,
    lemma_fundamental_div_mod_converse_mod, lemma_mod_bound, lemma_div_is_ordered};

verus! {

/// Leap year of the Gregorian calendar.
pub open spec fn is_leap(y: int) -> bool {
    y % 4 == 0 && (y % 100 != 0 || y % 400 == 0)
}

/// Number of days of month `m` (1..=12) of year `y`.
pub open spec fn days_in_month(y: int, m: int) -> int {
    if m == 2 {
        if is_leap(y) { 29 } else { 28 }
    } else if m == 4 || m == 6 || m == 9 || m == 11 {
        30
    } else {
        31
    }
}

/// A valid calendar date.
pub open spec fn valid_date(y: int, m: int, d: int) -> bool {
    1 <= m <= 12 && 1 <= d <= days_in_month(y, m)
}

/// The date after `(y, m, d)`.
pub open spec fn next_date(y: int, m: int, d: int) -> (int, int, int) {
    if d < days_in_month(y, m) {
        (y, m, d + 1)
    } else if m < 12 {
        (y, m + 1, 1)
    } else {
        (y + 1, 1, 1)
    }
}

/// Leap days of the years 1..=n (and their negative counterparts for n < 0).
pub open spec fn leap_count(n: int) -> int {
    n / 4 - n / 100 + n / 400
}

/// First day of the month (counted from 1 March) `mp` (0 = March ... 11 = February).
pub open spec fn month_start(mp: int) -> int {
    (153 * mp + 2) / 5
}

/// Day number of `(y, m, d)`, 1970-01-01 being day 0: years are counted from 1 March,
/// so that February, with its leap day, closes the year.
pub open spec fn days_from_civil(y: int, m: int, d: int) -> int {
    let yy = if m <= 2 { y - 1 } else { y };
    let mp = if m > 2 { m - 3 } else { m + 9 };
    365 * yy + leap_count(yy) + month_start(mp) + d - 1 - 719468
}

proof fn lemma_div_shift(a: int, k: int, d: int)
    requires
        d > 0,
    ensures
        (a + d * k) / d == a / d + k,
        (a + d * k) % d == a % d,
{
    lemma_fundamental_div_mod(a, d);
    lemma_mod_bound(a, d);
    assert(a + d * k == (a / d + k) * d + a % d) by (nonlinear_arith)
        requires
            a == d * (a / d) + a % d,
    ;
    lemma_fundamental_div_mod_converse_div(a + d * k, d, a / d + k, a % d);
    lemma_fundamental_div_mod_converse_mod(a + d * k, d, a / d + k, a % d);
}

/// Leap days grow by one exactly at a leap year.
proof fn lemma_leap_count_step(n: int)
    ensures
        leap_count(n) - leap_count(n - 1) == if is_leap(n) { 1int } else { 0int },
{
    lemma_step_div(n, 4);
    lemma_step_div(n, 100);
    lemma_step_div(n, 400);
    assert(n % 400 == 0 ==> n % 100 == 0 && n % 4 == 0) by {
        lemma_fundamental_div_mod(n, 400);
        lemma_fundamental_div_mod(n, 100);
        lemma_fundamental_div_mod(n, 4);
        lemma_mod_bound(n, 100);
        lemma_mod_bound(n, 4);
        if n % 400 == 0 {
            lemma_fundamental_div_mod_converse_mod(n, 100, 4 * (n / 400), 0);
            lemma_fundamental_div_mod_converse_mod(n, 4, 100 * (n / 400), 0);
        }
    }
    assert(n % 100 == 0 ==> n % 4 == 0) by {
        lemma_fundamental_div_mod(n, 100);
        if n % 100 == 0 {
            lemma_fundamental_div_mod_converse_mod(n, 4, 25 * (n / 100), 0);
        }
    }
}

/// `n / d - (n - 1) / d` is 1 when `d` divides `n`, else 0.
proof fn lemma_step_div(n: int, d: int)
    requires
        d > 0,
    ensures
        n / d - (n - 1) / d == if n % d == 0 { 1int } else { 0int },
{
    lemma_fundamental_div_mod(n, d);
    lemma_mod_bound(n, d);
    if n % d == 0 {
        assert(n - 1 == (n / d - 1) * d + (d - 1)) by (nonlinear_arith)
            requires
                n == d * (n / d) + n % d,
                n % d == 0,
        ;
        lemma_fundamental_div_mod_converse_div(n - 1, d, n / d - 1, d - 1);
    } else {
        assert(n - 1 == (n / d) * d + (n % d - 1)) by (nonlinear_arith)
            requires
                n == d * (n / d) + n % d,
        ;
        lemma_fundamental_div_mod_converse_div(n - 1, d, n / d, n % d - 1);
    }
}

/// Leap days over a whole 400-year cycle: 97.
proof fn lemma_leap_count_era(a: int, e: int)
    ensures
        leap_count(a + 400 * e) == leap_count(a) + 97 * e,
{
    lemma_div_shift(a, 100 * e, 4);
    lemma_div_shift(a, 4 * e, 100);
    lemma_div_shift(a, e, 400);
    assert(a + 4 * (100 * e) == a + 400 * e);
    assert(a + 100 * (4 * e) == a + 400 * e);
}

/// Leap years repeat every 400 years.
proof fn lemma_leap_era(a: int, e: int)
    ensures
        is_leap(a + 400 * e) == is_leap(a),
{
    lemma_div_shift(a, 100 * e, 4);
    lemma_div_shift(a, 4 * e, 100);
    lemma_div_shift(a, e, 400);
    assert(a + 4 * (100 * e) == a + 400 * e);
    assert(a + 100 * (4 * e) == a + 400 * e);
}

/// 1970-01-01 is day 0.
pub proof fn law_epoch()
    ensures
        days_from_civil(1970, 1, 1) == 0,
{
}

/// Consecutive dates have consecutive day numbers.
pub proof fn law_next_day(y: int, m: int, d: int)
    requires
        valid_date(y, m, d),
    ensures
        ({
            let (y2, m2, d2) = next_date(y, m, d);
            valid_date(y2, m2, d2) && days_from_civil(y2, m2, d2) == days_from_civil(y, m, d) + 1
        }),
{
    if d < days_in_month(y, m) {
    } else if m < 12 {
        if m == 2 {
            // end of February closes the March-based year `y - 1`
            lemma_leap_count_step(y);
            assert(month_start(11) == 337);
        } else {
            assert(month_start(0) == 0);
            assert(month_start(1) == 31);
            assert(month_start(2) == 61);
            assert(month_start(3) == 92);
            assert(month_start(4) == 122);
            assert(month_start(5) == 153);
            assert(month_start(6) == 184);
            assert(month_start(7) == 214);
            assert(month_start(8) == 245);
            assert(month_start(9) == 275);
            assert(month_start(10) == 306);
        }
    } else {
        assert(month_start(9) == 275);
        assert(month_start(10) == 306);
    }
}

/// Start (in days from the era's 1 March of year 0) of the March-based year `k` of an era.
pub open spec fn year_start(k: int) -> int {
    365 * k + leap_count(k)
}

/// The March-based year of a date and the day's offset within it.
pub open spec fn march_year(y: int, m: int) -> int {
    if m <= 2 { y - 1 } else { y }
}

/// Offset of the day from 1 March of its March-based year.
pub open spec fn day_of_march_year(m: int, d: int) -> int {
    month_start(if m > 2 { m - 3 } else { m + 9 }) + d - 1
}

proof fn lemma_year_start_step(k: int)
    ensures
        year_start(k + 1) - year_start(k) == 365 + if is_leap(k + 1) { 1int } else { 0int },
{
    lemma_leap_count_step(k + 1);
}

proof fn lemma_year_start_grows(a: int, b: int)
    requires
        a < b,
    ensures
        year_start(b) >= year_start(a + 1),
    decreases b - a,
{
    if b > a + 1 {
        lemma_year_start_grows(a, b - 1);
        lemma_year_start_step(b - 1);
    }
}

proof fn lemma_month_start_ordered(a: int, b: int)
    requires
        a <= b,
    ensures
        month_start(a) <= month_start(b),
{
    lemma_div_is_ordered(153 * a + 2, 153 * b + 2, 5);
}

/// A valid date lies within its March-based year.
proof fn lemma_offset_in_year(y: int, m: int, d: int)
    requires
        valid_date(y, m, d),
    ensures
        0 <= day_of_march_year(m, d) < year_start(march_year(y, m) + 1) - year_start(march_year(y, m)),
        days_from_civil(y, m, d) == year_start(march_year(y, m)) + day_of_march_year(m, d) - 719468,
{
    lemma_month_starts();
    lemma_year_start_step(march_year(y, m));
}

/// Different valid dates have different day numbers, so `civil_from_days` gives back
/// the date whose day number it is given.
pub proof fn law_days_injective(y1: int, m1: int, d1: int, y2: int, m2: int, d2: int)
    requires
        valid_date(y1, m1, d1),
        valid_date(y2, m2, d2),
        days_from_civil(y1, m1, d1) == days_from_civil(y2, m2, d2),
    ensures
        y1 == y2 && m1 == m2 && d1 == d2,
{
    lemma_offset_in_year(y1, m1, d1);
    lemma_offset_in_year(y2, m2, d2);
    let a = march_year(y1, m1);
    let b = march_year(y2, m2);
    if a < b {
        lemma_year_start_grows(a, b);
    } else if b < a {
        lemma_year_start_grows(b, a);
    }
    assert(a == b);
    let p1 = if m1 > 2 { m1 - 3 } else { m1 + 9 };
    let p2 = if m2 > 2 { m2 - 3 } else { m2 + 9 };
    lemma_month_starts();
    if p1 < p2 {
        lemma_month_start_ordered(p1 + 1, p2);
    } else if p2 < p1 {
        lemma_month_start_ordered(p2 + 1, p1);
    }
    assert(p1 == p2);
}

proof fn lemma_yoe_bracket(doe: u32)
    requires
        doe <= 146096,
    ensures
        ({
            let yoe = (doe - doe / 1460 + doe / 36524 - doe / 146096) / 365;
            &&& 0 <= yoe <= 399
            &&& 365 * yoe + yoe / 4 - yoe / 100 <= doe
            &&& doe < 365 * (yoe + 1) + (yoe + 1) / 4 - (yoe + 1) / 100 + (yoe + 1) / 400
        }),
{
    assert({
        let yoe = (doe - doe / 1460 + doe / 36524 - doe / 146096) / 365;
        &&& 0 <= yoe <= 399
        &&& 365 * yoe + yoe / 4 - yoe / 100 <= doe
        &&& doe < 365 * (yoe + 1) + (yoe + 1) / 4 - (yoe + 1) / 100 + (yoe + 1) / 400
    }) by (bit_vector)
        requires
            doe <= 146096,
    ;
}

proof fn lemma_month_bracket(doy: u32)
    requires
        doy <= 365,
    ensures
        ({
            let mp = (5 * doy + 2) / 153;
            &&& 0 <= mp <= 11
            &&& (153 * mp + 2) / 5 <= doy
            &&& mp < 11 ==> doy < (153 * (mp + 1) + 2) / 5
        }),
{
    assert({
        let mp = (5 * doy + 2) / 153;
        &&& 0 <= mp <= 11
        &&& (153 * mp + 2) / 5 <= doy
        &&& mp < 11 ==> doy < (153 * (mp + 1) + 2) / 5
    }) by (bit_vector)
        requires
            doy <= 365,
    ;
}

proof fn lemma_month_starts()
    ensures
        month_start(0) == 0,
        month_start(1) == 31,
        month_start(2) == 61,
        month_start(3) == 92,
        month_start(4) == 122,
        month_start(5) == 153,
        month_start(6) == 184,
        month_start(7) == 214,
        month_start(8) == 245,
        month_start(9) == 275,
        month_start(10) == 306,
        month_start(11) == 337,
{
}

/// Date of day number `z` (1970-01-01 is day 0), as (year, month 1..=12, day 1..=31).
pub fn civil_from_days(z: i64) -> (r: (i64, u32, u32))
    requires
        z <= i64::MAX - 719_468,
    ensures
        valid_date(r.0 as int, r.1 as int, r.2 as int),
        days_from_civil(r.0 as int, r.1 as int, r.2 as int) == z,
{
    let zz: i64 = z + 719_468;
    // era = floor(zz / 146097): 400-year cycles since 0000-03-01
    let era: i64 = if zz >= 0 {
        (zz as u64 / 146_097) as i64
    } else {
        let n: u64 = (-(zz + 1)) as u64;
        -((n / 146_097) as i64) - 1
    };
    proof {
        lemma_fundamental_div_mod(zz as int, 146_097);
        lemma_mod_bound(zz as int, 146_097);
        if zz < 0 {
            let n = -(zz + 1);
            lemma_fundamental_div_mod(n, 146_097);
            lemma_mod_bound(n, 146_097);
            lemma_fundamental_div_mod_converse_div(zz as int, 146_097, -(n / 146_097) - 1, 146_096 - n % 146_097);
        }
        assert(era == (zz as int) / 146_097);
    }
    let doe: u64 = (zz - era * 146_097) as u64;
    assert(doe <= 146_096);
    let yoe: u64 = (doe - doe / 1460 + doe / 36_524 - doe / 146_096) / 365;
    proof {
        lemma_yoe_bracket(doe as u32);
    }
    let y: i64 = yoe as i64 + era * 400;
    let doy: u64 = doe - (365 * yoe + yoe / 4 - yoe / 100);
    proof {
        // the year starting at `yoe` has 365 or 366 days, the latter when its February
        // falls in a leap year
        lemma_leap_count_step(yoe + 1);
        lemma_leap_era(yoe + 1, era as int);
        assert(doy <= 365);
        lemma_month_bracket(doy as u32);
        lemma_month_starts();
        lemma_leap_count_era(yoe as int, era as int);
    }
    let mp: u64 = (5 * doy + 2) / 153;
    let d: u32 = (doy - (153 * mp + 2) / 5 + 1) as u32;
    let m: u32 = if mp < 10 { (mp + 3) as u32 } else { (mp - 9) as u32 };
    let year: i64 = y + if m <= 2 { 1 } else { 0 };
    (year, m, d)
}

} // verus!
