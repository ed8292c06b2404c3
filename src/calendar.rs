//! The mathematical model of the proleptic Gregorian calendar: which
//! (year, month, day) triples exist, how many days separate each of them from
//! an anchor day, and the decomposition of a day count into 400-, 100-, 4- and
//! 1-year cycles that inverts it.
//!
//! Day zero of the cycle arithmetic is **1st March, 2000**: it follows the
//! leap day at the end of a 400-year cycle, so a year that starts in March
//! ends with the only day that leap years add.

use vstd::arithmetic::div_mod::{
    lemma_fundamental_div_mod, lemma_fundamental_div_mod_converse, lemma_mod_bound,
};
use vstd::prelude::*;

verus! {

/// Number of days guaranteed to be in four years.
pub const DAYS_IN_4Y: i64 = 365 * 4 + 1;

/// Number of days guaranteed to be in a hundred years.
pub const DAYS_IN_100Y: i64 = 365 * 100 + 24;

/// Number of days guaranteed to be in four hundred years.
pub const DAYS_IN_400Y: i64 = 365 * 400 + 97;

/// Number of seconds in a day. Leap seconds are ignored.
pub const SECONDS_IN_DAY: i64 = 86400;

/// Number of days between **1st January, 1970** and **1st March, 2000**:
/// thirty years, seven leap days, and January and February of 2000.
pub const EPOCH_DIFFERENCE: i64 = 30 * 365 + 7 + 31 + 29;

/// Whether `y` is a leap year: divisible by four, and not by a hundred
/// unless also by four hundred.
pub open spec fn is_leap(y: int) -> bool {
    y % 4 == 0 && (y % 100 != 0 || y % 400 == 0)
}

/// The number of days in month `m` (January being 1).
pub open spec fn month_length(m: int, leap: bool) -> int {
    if m == 2 {
        if leap {
            29
        } else {
            28
        }
    } else if m == 4 || m == 6 || m == 9 || m == 11 {
        30
    } else {
        31
    }
}

/// The number of days before month `m` starts, in a year without a leap day.
pub open spec fn days_before_month(m: int) -> int {
    if m <= 1 {
        0
    } else if m == 2 {
        31
    } else if m == 3 {
        59
    } else if m == 4 {
        90
    } else if m == 5 {
        120
    } else if m == 6 {
        151
    } else if m == 7 {
        181
    } else if m == 8 {
        212
    } else if m == 9 {
        243
    } else if m == 10 {
        273
    } else if m == 11 {
        304
    } else {
        334
    }
}

/// Whether the triple names a day of the calendar.
pub open spec fn valid_ymd(y: int, m: int, d: int) -> bool {
    1 <= m <= 12 && 1 <= d <= month_length(m, is_leap(y))
}

/// The number of years in `(0, n]`, counted from 2000, that are leap years
/// (negative when `n` is).
pub open spec fn leap_count(n: int) -> int {
    n / 4 - n / 100 + n / 400
}

/// The number of leap days from the start of 2000 to the start of `y`,
/// counting that of 2000 as one already elapsed at the start of 2001, and
/// so `-1` for 2000 itself.
pub open spec fn leap_days_elapsed(y: int) -> int {
    leap_count(y - 2000) - if is_leap(y) {
        1int
    } else {
        0int
    }
}

/// The number of days from **1st January, 1970** to the given day.
pub open spec fn days_since_1970(y: int, m: int, d: int) -> int {
    (y - 2000) * 365 + 10958 + leap_days_elapsed(y) + days_before_month(m) + (if is_leap(y) && m
        >= 3 {
        1int
    } else {
        0int
    }) + (d - 1)
}

/// The number of days from **1st March, 2000** to the given day.
pub open spec fn days_since_anchor(y: int, m: int, d: int) -> int {
    days_since_1970(y, m, d) - EPOCH_DIFFERENCE
}

/// The 1-based position of the day in its year.
pub open spec fn day_of_year(y: int, m: int, d: int) -> int {
    days_before_month(m) + (if is_leap(y) && m >= 3 {
        1int
    } else {
        0int
    }) + d
}

/// The weekday, counted in days since the last Sunday, of the day `days`
/// after the anchor, which was a Wednesday.
pub open spec fn weekday_of(days: int) -> int {
    (days + 3) % 7
}

/// Days before the start of month `mi` of a year that starts in March
/// (March being 0).
pub open spec fn march_days_before(mi: int) -> int {
    if mi <= 0 {
        0
    } else if mi == 1 {
        31
    } else if mi == 2 {
        61
    } else if mi == 3 {
        92
    } else if mi == 4 {
        122
    } else if mi == 5 {
        153
    } else if mi == 6 {
        184
    } else if mi == 7 {
        214
    } else if mi == 8 {
        245
    } else if mi == 9 {
        275
    } else if mi == 10 {
        306
    } else {
        337
    }
}

/// The month, March being 0, that holds day `rem` of a year starting in March.
pub open spec fn march_month_of(rem: int) -> int {
    if rem >= 337 {
        11
    } else if rem >= 306 {
        10
    } else if rem >= 275 {
        9
    } else if rem >= 245 {
        8
    } else if rem >= 214 {
        7
    } else if rem >= 184 {
        6
    } else if rem >= 153 {
        5
    } else if rem >= 122 {
        4
    } else if rem >= 92 {
        3
    } else if rem >= 61 {
        2
    } else if rem >= 31 {
        1
    } else {
        0
    }
}

/// Days from the anchor to day `dd` of month `mi` (March being 0) of the
/// year that starts in March of `2000 + my`.
pub open spec fn march_days(my: int, mi: int, dd: int) -> int {
    365 * my + leap_count(my) + march_days_before(mi) + dd - 1
}

/// `n`, but no more than 3: a cycle holds at most three whole cycles of the
/// next size down, its last day being a leap day that does not fit them.
pub open spec fn min3(n: int) -> int {
    if n > 3 {
        3
    } else {
        n
    }
}

/// The cycles that make up `days` after the anchor: 400-year cycles,
/// 100-year cycles, 4-year cycles and years, and the day of that year
/// (counted from March).
pub open spec fn cycles_of(days: int) -> (int, int, int, int, int) {
    let q = days / 146097;
    let r = days % 146097;
    let c = min3(r / 36524);
    let r1 = r - 36524 * c;
    let k = r1 / 1461;
    let r2 = r1 % 1461;
    let j = min3(r2 / 365);
    (q, c, k, j, r2 - 365 * j)
}

/// The calendar day that lies `days` after the anchor.
pub open spec fn civil_from_days(days: int) -> (int, int, int) {
    let (q, c, k, j, rem) = cycles_of(days);
    let my = 400 * q + 100 * c + 4 * k + j;
    let mi = march_month_of(rem);
    let dd = rem - march_days_before(mi) + 1;
    if mi < 10 {
        (2000 + my, mi + 3, dd)
    } else {
        (2001 + my, mi - 9, dd)
    }
}

/// Taking one off `x` takes one off `x / n` exactly when `n` divides `x`.
proof fn lemma_div_step(x: int, n: int)
    requires
        n > 0,
    ensures
        x / n - (x - 1) / n == if x % n == 0 {
            1int
        } else {
            0int
        },
{
    lemma_fundamental_div_mod(x, n);
    lemma_mod_bound(x, n);
    let a = x / n;
    let b = x % n;
    assert(a * n == n * a && (a - 1) * n == n * a - n) by (nonlinear_arith);
    if b > 0 {
        lemma_fundamental_div_mod_converse(x - 1, n, a, b - 1);
    } else {
        lemma_fundamental_div_mod_converse(x - 1, n, a - 1, n - 1);
    }
}

/// Shifting a year by 2000 keeps its leap-year status in terms of the
/// shifted number, and `leap_count` grows by one across each leap year.
pub proof fn lemma_leap_shift(my: int)
    ensures
        is_leap(my + 2000) == (my % 4 == 0 && (my % 100 != 0 || my % 400 == 0)),
        leap_count(my) - leap_count(my - 1) == if is_leap(my + 2000) {
            1int
        } else {
            0int
        },
{
    lemma_fundamental_div_mod(my, 400);
    lemma_mod_bound(my, 400);
    lemma_fundamental_div_mod_converse(my + 2000, 400, my / 400 + 5, my % 400);
    lemma_fundamental_div_mod(my, 100);
    lemma_mod_bound(my, 100);
    lemma_fundamental_div_mod_converse(my + 2000, 100, my / 100 + 20, my % 100);
    lemma_fundamental_div_mod(my, 4);
    lemma_mod_bound(my, 4);
    lemma_fundamental_div_mod_converse(my + 2000, 4, my / 4 + 500, my % 4);
    lemma_div_step(my, 4);
    lemma_div_step(my, 100);
    lemma_div_step(my, 400);
    // A multiple of 400 is one of 100, and one of 100 is one of 4.
    if my % 400 == 0 {
        lemma_fundamental_div_mod_converse(my, 100, (my / 400) * 4, 0);
    }
    if my % 100 == 0 {
        lemma_fundamental_div_mod_converse(my, 4, (my / 100) * 25, 0);
    }
}

/// The leap arithmetic of a year given by its cycles.
pub proof fn lemma_leap_decomposed(my: int, q: int, c: int, k: int, j: int)
    requires
        my == 400 * q + 100 * c + 4 * k + j,
        0 <= c <= 3,
        0 <= k <= 24,
        0 <= j <= 3,
    ensures
        leap_count(my) == 97 * q + 24 * c + k,
        my % 4 == j,
        my % 100 == 4 * k + j,
        my % 400 == 100 * c + 4 * k + j,
{
    lemma_fundamental_div_mod_converse(my, 4, 100 * q + 25 * c + k, j);
    lemma_fundamental_div_mod_converse(my, 100, 4 * q + c, 4 * k + j);
    lemma_fundamental_div_mod_converse(my, 400, q, 100 * c + 4 * k + j);
}

/// The day count of a calendar day, taken over a year that starts in March.
pub proof fn lemma_anchor_days_march(y: int, m: int, d: int)
    requires
        1 <= m <= 12,
    ensures
        m >= 3 ==> days_since_anchor(y, m, d) == march_days(y - 2000, m - 3, d),
        m < 3 ==> days_since_anchor(y, m, d) == march_days(y - 2001, m + 9, d),
{
    lemma_leap_shift(y - 2000);
}

/// Every day count names a valid calendar day, and that day's count is the
/// one it came from.
pub proof fn lemma_civil_from_days(days: int)
    ensures
        valid_ymd(civil_from_days(days).0, civil_from_days(days).1, civil_from_days(days).2),
        days_since_anchor(
            civil_from_days(days).0,
            civil_from_days(days).1,
            civil_from_days(days).2,
        ) == days,
{
    lemma_fundamental_div_mod(days, 146097);
    lemma_mod_bound(days, 146097);
    let q = days / 146097;
    let r = days % 146097;
    lemma_fundamental_div_mod(r, 36524);
    lemma_mod_bound(r, 36524);
    let c = min3(r / 36524);
    let r1 = r - 36524 * c;
    assert(0 <= c <= 3 && 0 <= r1 <= 36524);
    assert(c < 3 ==> r1 < 36524);
    lemma_fundamental_div_mod(r1, 1461);
    lemma_mod_bound(r1, 1461);
    let k = r1 / 1461;
    let r2 = r1 % 1461;
    assert(0 <= k <= 24);
    lemma_fundamental_div_mod(r2, 365);
    lemma_mod_bound(r2, 365);
    let j = min3(r2 / 365);
    let rem = r2 - 365 * j;
    assert(0 <= j <= 3 && 0 <= rem <= 365);
    assert(rem == 365 ==> j == 3 && r2 == 1460);
    let my = 400 * q + 100 * c + 4 * k + j;
    lemma_leap_decomposed(my, q, c, k, j);
    let (y, m, dd) = civil_from_days(days);
    if rem == 365 {
        // Only the 29th of February of a leap year lies there.
        lemma_leap_shift(my + 1);
        if k < 24 {
            lemma_leap_decomposed(my + 1, q, c, k + 1, 0);
        } else {
            assert(r1 == 36524);
            lemma_leap_decomposed(my + 1, q + 1, 0, 0, 0);
        }
        assert(is_leap(my + 2001));
    }
    lemma_anchor_days_march(y, m, dd);
}

/// Every valid calendar day is found again from its day count.
pub proof fn lemma_days_to_civil(y: int, m: int, d: int)
    requires
        valid_ymd(y, m, d),
    ensures
        civil_from_days(days_since_anchor(y, m, d)) == (y, m, d),
{
    lemma_anchor_days_march(y, m, d);
    let my = if m >= 3 {
        y - 2000
    } else {
        y - 2001
    };
    let mi = if m >= 3 {
        m - 3
    } else {
        m + 9
    };
    let x = march_days_before(mi) + d - 1;
    assert(0 <= x <= 365);
    lemma_fundamental_div_mod(my, 400);
    lemma_mod_bound(my, 400);
    let q = my / 400;
    let s = my % 400;
    lemma_fundamental_div_mod(s, 100);
    lemma_mod_bound(s, 100);
    let c = s / 100;
    let t = s % 100;
    lemma_fundamental_div_mod(t, 4);
    lemma_mod_bound(t, 4);
    let k = t / 4;
    let j = t % 4;
    assert(my == 400 * q + 100 * c + 4 * k + j);
    lemma_leap_decomposed(my, q, c, k, j);
    if x == 365 {
        // The 29th of February: the year of that February is a leap year.
        assert(m == 2 && d == 29 && is_leap(my + 2001));
        lemma_leap_shift(my + 1);
        if j < 3 {
            lemma_leap_decomposed(my + 1, q, c, k, j + 1);
        } else if k == 24 && c < 3 {
            lemma_leap_decomposed(my + 1, q, c + 1, 0, 0);
        }
        assert(j == 3 && (k == 24 ==> c == 3));
    }
    let rr = 36524 * c + 1461 * k + 365 * j + x;
    let days = days_since_anchor(y, m, d);
    assert(days == 146097 * q + rr);
    lemma_fundamental_div_mod_converse(days, 146097, q, rr);
    let r1 = 1461 * k + 365 * j + x;
    if r1 < 36524 {
        lemma_fundamental_div_mod_converse(rr, 36524, c, r1);
    } else {
        lemma_fundamental_div_mod_converse(rr, 36524, 4, 0);
    }
    lemma_fundamental_div_mod_converse(r1, 1461, k, 365 * j + x);
    if x < 365 {
        lemma_fundamental_div_mod_converse(365 * j + x, 365, j, x);
    } else {
        lemma_fundamental_div_mod_converse(365 * j + x, 365, 4, 0);
    }
    assert(cycles_of(days) == (q, c, k, j, x));
}

/// Whether `a` comes strictly before `b`, comparing years, then months,
/// then days.
pub open spec fn civil_before(a: (int, int, int), b: (int, int, int)) -> bool {
    a.0 < b.0 || (a.0 == b.0 && (a.1 < b.1 || (a.1 == b.1 && a.2 < b.2)))
}

/// How `a` compares with `b` in the order of `civil_before`.
pub open spec fn civil_cmp(a: (int, int, int), b: (int, int, int)) -> core::cmp::Ordering {
    if civil_before(a, b) {
        core::cmp::Ordering::Less
    } else if a == b {
        core::cmp::Ordering::Equal
    } else {
        core::cmp::Ordering::Greater
    }
}

/// A bound on the day count of the days of year `y`.
pub open spec fn day_bound(y: int) -> int {
    366 * ((if y < 0 {
        -y
    } else {
        y
    }) + 3000)
}

/// `leap_count(n)` is close to `97 * n / 400`.
proof fn lemma_leap_count_bound(n: int)
    ensures
        97 * n - 700 <= 400 * leap_count(n) <= 97 * n + 400,
{
    lemma_fundamental_div_mod(n, 4);
    lemma_mod_bound(n, 4);
    lemma_fundamental_div_mod(n, 100);
    lemma_mod_bound(n, 100);
    lemma_fundamental_div_mod(n, 400);
    lemma_mod_bound(n, 400);
}

/// The days of year `y` lie within `day_bound(y)` of both anchors.
pub proof fn lemma_days_bound(y: int, m: int, d: int)
    requires
        valid_ymd(y, m, d),
    ensures
        -day_bound(y) <= days_since_1970(y, m, d) <= day_bound(y),
        -day_bound(y) <= days_since_anchor(y, m, d) <= day_bound(y),
{
    lemma_leap_count_bound(y - 2000);
}

} // verus!
