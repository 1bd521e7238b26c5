//! The proleptic Gregorian calendar over UTC, modelled with plain
//! integers: a UTC instant is a count of milliseconds since
//! 1970-01-01T00:00:00 UTC, and a calendar day is a count of days since
//! 1970-01-01. Conversions between day counts and `(year, month, day)`
//! triples, and the `YYYY-MM-DD` day key used by the summary rollup, are
//! implemented and proved here.

use vstd::prelude::*;
use vstd::arithmetic::div_mod::{
    lemma_div_is_ordered,
    lemma_fundamental_div_mod,
    lemma_fundamental_div_mod_converse,
    lemma_mod_bound,
    lemma_mod_multiples_vanish,
};

use crate::text::push_char;

verus! {

pub const MILLIS_PER_DAY: i64 = 86_400_000;

pub const END_OF_DAY_MILLIS: i64 = 86_399_999;

/// A leap year of the proleptic Gregorian calendar.
pub open spec fn is_leap_year(y: int) -> bool {
    y % 4 == 0 && (y % 100 != 0 || y % 400 == 0)
}

pub open spec fn days_in_year(y: int) -> int {
    if is_leap_year(y) {
        366
    } else {
        365
    }
}

/// Length of month `m` (1-based) of year `y`.
pub open spec fn days_in_month(y: int, m: int) -> int {
    if m == 2 {
        if is_leap_year(y) {
            29
        } else {
            28
        }
    } else if m == 4 || m == 6 || m == 9 || m == 11 {
        30
    } else {
        31
    }
}

pub open spec fn valid_ymd(y: int, m: int, d: int) -> bool {
    &&& 1 <= m <= 12
    &&& 1 <= d <= days_in_month(y, m)
}

/// Days from 1970-01-01 to January 1 of year `y` (negative before 1970).
pub open spec fn days_to_year(y: int) -> int
    decreases (if y >= 1970 { y - 1970 } else { 1970 - y }),
{
    if y == 1970 {
        0
    } else if y > 1970 {
        days_to_year(y - 1) + days_in_year(y - 1)
    } else {
        days_to_year(y + 1) - days_in_year(y)
    }
}

/// Days from January 1 of year `y` to the first day of month `m`.
pub open spec fn days_to_month(y: int, m: int) -> int
    decreases m,
{
    if m <= 1 {
        0
    } else {
        days_to_month(y, m - 1) + days_in_month(y, m - 1)
    }
}

/// Day count since 1970-01-01 of the civil date `y-m-d`.
pub open spec fn day_number(y: int, m: int, d: int) -> int {
    days_to_year(y) + days_to_month(y, m) + d - 1
}

/// The civil date of day count `z`: the unique valid `(y, m, d)` with
/// `day_number(y, m, d) == z`.
pub open spec fn civil_of_day(z: int) -> (int, int, int) {
    choose|t: (int, int, int)| valid_ymd(t.0, t.1, t.2) && day_number(t.0, t.1, t.2) == z
}

/// The UTC calendar day that the instant `ms` (milliseconds since the
/// epoch) falls on, as a day count.
pub open spec fn millis_day(ms: int) -> int {
    ms / 86_400_000
}

// ------------------------------------------------------------------
// Calendar facts
// ------------------------------------------------------------------

pub proof fn lemma_days_to_year_succ(y: int)
    ensures
        days_to_year(y + 1) == days_to_year(y) + days_in_year(y),
{
    if y + 1 <= 1970 {
        assert(days_to_year(y) == days_to_year(y + 1) - days_in_year(y));
    }
}

/// A Gregorian year's character repeats every 400 years.
pub proof fn lemma_leap_periodic(y: int)
    ensures
        is_leap_year(y + 400) == is_leap_year(y),
{
    lemma_mod_multiples_vanish(100, y, 4);
    lemma_mod_multiples_vanish(4, y, 100);
    lemma_mod_multiples_vanish(1, y, 400);
}

/// Years `k <= y` that are multiples of 4, minus multiples of 100, plus
/// multiples of 400 — the running count of leap-year marks.
spec fn leap_marks(y: int) -> int {
    y / 4 - y / 100 + y / 400
}

/// Crossing from `x - 1` to `x` raises `x / d` exactly when `d` divides `x`.
proof fn lemma_div_step(x: int, d: int)
    requires
        0 < d,
    ensures
        x / d == (x - 1) / d + (if x % d == 0 {
            1int
        } else {
            0int
        }),
{
    let q = x / d;
    let r = x % d;
    lemma_fundamental_div_mod(x, d);
    lemma_mod_bound(x, d);
    if r == 0 {
        assert((q - 1) * d + (d - 1) == x - 1) by (nonlinear_arith)
            requires
                x == d * q,
        ;
        lemma_fundamental_div_mod_converse(x - 1, d, q - 1, d - 1);
    } else {
        assert(q * d + (r - 1) == x - 1) by (nonlinear_arith)
            requires
                x == d * q + r,
        ;
        lemma_fundamental_div_mod_converse(x - 1, d, q, r - 1);
    }
}

proof fn lemma_leap_marks_step(y: int)
    ensures
        leap_marks(y) - leap_marks(y - 1) == (if is_leap_year(y) {
            1int
        } else {
            0int
        }),
{
    lemma_div_step(y, 4);
    lemma_div_step(y, 100);
    lemma_div_step(y, 400);
}

/// Closed form of `days_to_year` over the leap-mark count.
proof fn lemma_days_to_year_closed(y: int)
    ensures
        days_to_year(y) == 365 * (y - 1970) + leap_marks(y - 1) - leap_marks(1969),
    decreases (if y >= 1970 { y - 1970 } else { 1970 - y }),
{
    if y > 1970 {
        lemma_days_to_year_closed(y - 1);
        lemma_days_to_year_succ(y - 1);
        lemma_leap_marks_step(y - 1);
    } else if y < 1970 {
        lemma_days_to_year_closed(y + 1);
        lemma_days_to_year_succ(y);
        lemma_leap_marks_step(y);
    }
}

/// Any span of 400 consecutive years holds exactly 146097 days.
pub proof fn lemma_era_len(y: int)
    ensures
        days_to_year(y + 400) == days_to_year(y) + 146097,
    decreases (if y >= 1970 { y - 1970 } else { 1970 - y }),
{
    if y == 1970 {
        lemma_days_to_year_closed(2370);
        assert(leap_marks(2369) == 592 - 23 + 5);
        assert(leap_marks(1969) == 492 - 19 + 4);
    } else if y > 1970 {
        lemma_era_len(y - 1);
        lemma_days_to_year_succ(y - 1);
        lemma_days_to_year_succ(y - 1 + 400);
        lemma_leap_periodic(y - 1);
    } else {
        lemma_era_len(y + 1);
        lemma_days_to_year_succ(y);
        lemma_days_to_year_succ(y + 400);
        lemma_leap_periodic(y);
    }
}

/// `days_to_year` at a whole number of eras from 1970.
pub proof fn lemma_era_multiple(q: int)
    ensures
        days_to_year(1970 + 400 * q) == 146097 * q,
    decreases (if q >= 0 { q } else { -q }),
{
    if q > 0 {
        lemma_era_multiple(q - 1);
        lemma_era_len(1970 + 400 * (q - 1));
    } else if q < 0 {
        lemma_era_multiple(q + 1);
        lemma_era_len(1970 + 400 * q);
    }
}

/// `days_to_year` grows at least 365 and at most 366 days per year.
pub proof fn lemma_days_to_year_linear(y1: int, y2: int)
    requires
        y1 <= y2,
    ensures
        365 * (y2 - y1) <= days_to_year(y2) - days_to_year(y1) <= 366 * (y2 - y1),
    decreases y2 - y1,
{
    if y1 < y2 {
        lemma_days_to_year_linear(y1, y2 - 1);
        lemma_days_to_year_succ(y2 - 1);
    }
}

/// The twelve months partition the year.
pub proof fn lemma_months_partition_year(y: int)
    ensures
        days_to_month(y, 13) == days_in_year(y),
{
    if is_leap_year(y) {
        assert(days_to_month(y, 13) == 366) by {
            reveal_with_fuel(days_to_month, 14);
        }
    } else {
        assert(days_to_month(y, 13) == 365) by {
            reveal_with_fuel(days_to_month, 14);
        }
    }
}

/// `days_to_month` is non-decreasing, with steps of whole months.
pub proof fn lemma_days_to_month_mono(y: int, m1: int, m2: int)
    requires
        m1 <= m2,
    ensures
        days_to_month(y, m1) <= days_to_month(y, m2),
    decreases m2 - m1,
{
    if m1 < m2 {
        lemma_days_to_month_mono(y, m1, m2 - 1);
    }
}

/// A valid date's offset into its year lies within the year.
pub proof fn lemma_day_of_year_bounds(y: int, m: int, d: int)
    requires
        valid_ymd(y, m, d),
    ensures
        0 <= days_to_month(y, m) + d - 1 < days_in_year(y),
{
    lemma_days_to_month_mono(y, 1, m);
    lemma_days_to_month_mono(y, m + 1, 13);
    lemma_months_partition_year(y);
}

/// No two valid civil dates share a day count.
pub proof fn lemma_day_number_injective(y1: int, m1: int, d1: int, y2: int, m2: int, d2: int)
    requires
        valid_ymd(y1, m1, d1),
        valid_ymd(y2, m2, d2),
        day_number(y1, m1, d1) == day_number(y2, m2, d2),
    ensures
        y1 == y2 && m1 == m2 && d1 == d2,
{
    lemma_day_of_year_bounds(y1, m1, d1);
    lemma_day_of_year_bounds(y2, m2, d2);
    lemma_days_to_year_succ(y1);
    lemma_days_to_year_succ(y2);
    if y1 < y2 {
        lemma_days_to_year_linear(y1 + 1, y2);
        assert(false);
    } else if y2 < y1 {
        lemma_days_to_year_linear(y2 + 1, y1);
        assert(false);
    }
    if m1 < m2 {
        lemma_days_to_month_mono(y1, m1 + 1, m2);
        assert(false);
    } else if m2 < m1 {
        lemma_days_to_month_mono(y1, m2 + 1, m1);
        assert(false);
    }
}

/// `civil_of_day` is pinned down by any valid witness.
pub proof fn lemma_civil_of_day(z: int, y: int, m: int, d: int)
    requires
        valid_ymd(y, m, d),
        day_number(y, m, d) == z,
    ensures
        civil_of_day(z) == (y, m, d),
{
    assert(valid_ymd((y, m, d).0, (y, m, d).1, (y, m, d).2) && day_number(
        (y, m, d).0,
        (y, m, d).1,
        (y, m, d).2,
    ) == z);
    let t = civil_of_day(z);
    lemma_day_number_injective(t.0, t.1, t.2, y, m, d);
}

/// An earlier instant falls on the same or an earlier UTC day: so every
/// instant within a millisecond range falls on a day between the range
/// bounds' days.
pub proof fn lemma_millis_day_monotone(a: int, b: int)
    requires
        a <= b,
    ensures
        millis_day(a) <= millis_day(b),
{
    lemma_div_is_ordered(a, b, 86_400_000);
}

// ------------------------------------------------------------------
// Executable conversions
// ------------------------------------------------------------------

/// Floor division by a positive divisor (the quotient of Euclidean
/// division, which Verus's mathematical `/` denotes).
pub fn floor_div_i64(a: i64, b: i64) -> (q: i64)
    requires
        0 < b,
    ensures
        q == (a as int) / (b as int),
{
    if a >= 0 {
        let q = (a as u64) / (b as u64);
        proof {
            lemma_fundamental_div_mod(a as int, b as int);
            lemma_mod_bound(a as int, b as int);
            let qq = (a as int) / (b as int);
            let rr = (a as int) % (b as int);
            assert(qq * (b as int) + rr == a as int) by (nonlinear_arith)
                requires
                    a as int == (b as int) * qq + rr,
            ;
            lemma_fundamental_div_mod_converse(a as int, b as int, qq, rr);
        }
        q as i64
    } else {
        let n = (-(a + 1)) as u64;
        let qn = n / (b as u64);
        proof {
            lemma_fundamental_div_mod(n as int, b as int);
            lemma_mod_bound(n as int, b as int);
            let rn = (n as int) % (b as int);
            assert((-(qn as int) - 1) * (b as int) + ((b as int) - 1 - rn) == a as int)
                by (nonlinear_arith)
                requires
                    n as int == (qn as int) * (b as int) + rn,
                    a as int == -(n as int) - 1,
            ;
            lemma_fundamental_div_mod_converse(
                a as int,
                b as int,
                -(qn as int) - 1,
                (b as int) - 1 - rn,
            );
        }
        -(qn as i64) - 1
    }
}

fn is_leap_year_exec(y: i64) -> (r: bool)
    requires
        -1_000_000_000 <= y <= 1_000_000_000,
    ensures
        r == is_leap_year(y as int),
{
    let yy = (y + 1_200_000_000) as u64;
    proof {
        lemma_mod_multiples_vanish(300_000_000, y as int, 4);
        lemma_mod_multiples_vanish(12_000_000, y as int, 100);
        lemma_mod_multiples_vanish(3_000_000, y as int, 400);
    }
    yy % 4 == 0 && (yy % 100 != 0 || yy % 400 == 0)
}

fn days_in_year_exec(y: i64) -> (r: u64)
    requires
        -1_000_000_000 <= y <= 1_000_000_000,
    ensures
        r == days_in_year(y as int),
{
    if is_leap_year_exec(y) {
        366
    } else {
        365
    }
}

fn days_in_month_exec(y: i64, m: u8) -> (r: u64)
    requires
        -1_000_000_000 <= y <= 1_000_000_000,
        1 <= m <= 12,
    ensures
        r == days_in_month(y as int, m as int),
{
    if m == 2 {
        if is_leap_year_exec(y) {
            29
        } else {
            28
        }
    } else if m == 4 || m == 6 || m == 9 || m == 11 {
        30
    } else {
        31
    }
}

/// Day count since 1970-01-01 of a valid civil date.
pub fn epoch_days_of_ymd(y: i64, m: u8, d: u8) -> (z: i64)
    requires
        -400_000 <= y <= 400_000,
        valid_ymd(y as int, m as int, d as int),
    ensures
        z == day_number(y as int, m as int, d as int),
        -200_000_000 <= z <= 200_000_000,
{
    let mut acc: i64 = 0;
    let mut yr: i64 = 1970;
    if y >= 1970 {
        while yr < y
            invariant
                1970 <= yr <= y,
                y <= 400_000,
                acc == days_to_year(yr as int),
                -200_000_000 <= acc <= 200_000_000,
            decreases y - yr,
        {
            proof {
                lemma_days_to_year_succ(yr as int);
                lemma_days_to_year_linear(1970, yr as int + 1);
            }
            acc = acc + days_in_year_exec(yr) as i64;
            yr = yr + 1;
        }
    } else {
        while yr > y
            invariant
                y <= yr <= 1970,
                -400_000 <= y,
                acc == days_to_year(yr as int),
                -200_000_000 <= acc <= 200_000_000,
            decreases yr - y,
        {
            proof {
                lemma_days_to_year_succ(yr as int - 1);
                lemma_days_to_year_linear(yr as int - 1, 1970);
            }
            acc = acc - days_in_year_exec(yr - 1) as i64;
            yr = yr - 1;
        }
    }
    let mut mo: u8 = 1;
    while mo < m
        invariant
            1 <= mo <= m,
            m <= 12,
            -400_000 <= y <= 400_000,
            acc == days_to_year(y as int) + days_to_month(y as int, mo as int),
            -200_000_000 <= acc <= 200_000_000 + 400,
        decreases m - mo,
    {
        proof {
            lemma_days_to_year_linear(if y >= 1970 { 1970 } else { y as int }, if y >= 1970 { y as int } else { 1970 });
            lemma_days_to_month_mono(y as int, 1, mo as int);
            lemma_days_to_month_mono(y as int, mo as int, 13);
            lemma_months_partition_year(y as int);
        }
        acc = acc + days_in_month_exec(y, mo) as i64;
        mo = mo + 1;
    }
    proof {
        lemma_day_of_year_bounds(y as int, m as int, d as int);
        lemma_days_to_year_linear(if y >= 1970 { 1970 } else { y as int }, if y >= 1970 { y as int } else { 1970 });
    }
    acc + (d as i64) - 1
}

/// The civil date of a day count: the inverse of `day_number`.
pub fn ymd_of_epoch_days(z: i64) -> (r: (i64, u8, u8))
    requires
        -200_000_000_000 <= z <= 200_000_000_000,
    ensures
        valid_ymd(r.0 as int, r.1 as int, r.2 as int),
        day_number(r.0 as int, r.1 as int, r.2 as int) == z,
        -600_000_000 <= r.0 <= 600_000_000,
{
    let q = floor_div_i64(z, 146097);
    proof {
        lemma_fundamental_div_mod(z as int, 146097);
        let qq = (z as int) / 146097int;
        let rr = (z as int) % 146097int;
        assert(-1_400_000 <= qq <= 1_400_000) by (nonlinear_arith)
            requires
                qq * 146097 + rr == z,
                0 <= rr < 146097,
                -200_000_000_000 <= z <= 200_000_000_000,
        ;
        lemma_era_multiple(q as int);
    }
    let mut y: i64 = 1970 + 400 * q;
    let mut rem: i64 = z - q * 146097;
    let ghost y0 = y as int;
    let ghost z_mod = rem as int;
    loop
        invariant
            y0 <= y as int <= y0 + 401,
            -600_000_000 <= y0 <= 600_000_000,
            0 <= rem,
            days_to_year(y as int) + rem == z,
            days_to_year(y0) == z - z_mod,
            0 <= z_mod < 146097,
        ensures
            y0 <= y as int <= y0 + 401,
            0 <= rem < days_in_year(y as int),
            days_to_year(y as int) + rem == z,
        decreases rem,
    {
        proof {
            lemma_days_to_year_linear(y0, y as int);
        }
        let dy = days_in_year_exec(y);
        if (rem as u64) < dy {
            break ;
        }
        proof {
            lemma_days_to_year_succ(y as int);
            lemma_days_to_year_linear(y0, y as int + 1);
        }
        rem = rem - dy as i64;
        y = y + 1;
    }
    let ghost rem_year = rem as int;
    let mut mo: u8 = 1;
    loop
        invariant
            1 <= mo <= 12,
            -700_000_000 <= y as int <= 700_000_000,
            0 <= rem,
            days_to_month(y as int, mo as int) + rem == rem_year,
            rem_year < days_in_year(y as int),
            days_to_year(y as int) + rem_year == z,
        ensures
            1 <= mo <= 12,
            0 <= rem < days_in_month(y as int, mo as int),
            days_to_year(y as int) + days_to_month(y as int, mo as int) + rem == z,
        decreases 12 - mo,
    {
        let dm = days_in_month_exec(y, mo);
        if (rem as u64) < dm {
            break ;
        }
        proof {
            lemma_days_to_month_mono(y as int, 1, mo as int);
            if mo == 12 {
                lemma_months_partition_year(y as int);
                assert(days_to_month(y as int, 13) == days_to_month(y as int, 12)
                    + days_in_month(y as int, 12));
                assert(false);
            }
        }
        rem = rem - dm as i64;
        mo = mo + 1;
    }
    (y, mo, (rem + 1) as u8)
}

// ------------------------------------------------------------------
// The YYYY-MM-DD day key
// ------------------------------------------------------------------

/// The character for a decimal digit.
pub open spec fn digit_char(n: int) -> char {
    if n == 0 {
        '0'
    } else if n == 1 {
        '1'
    } else if n == 2 {
        '2'
    } else if n == 3 {
        '3'
    } else if n == 4 {
        '4'
    } else if n == 5 {
        '5'
    } else if n == 6 {
        '6'
    } else if n == 7 {
        '7'
    } else if n == 8 {
        '8'
    } else {
        '9'
    }
}

/// Decimal digits of a non-negative number, most significant first.
pub open spec fn dec_chars(n: int) -> Seq<char>
    decreases n,
{
    if n <= 9 {
        seq![digit_char(n)]
    } else {
        dec_chars(n / 10).push(digit_char(n % 10))
    }
}

/// Decimal digits, zero-padded on the left to at least four places.
pub open spec fn padded4_chars(n: int) -> Seq<char> {
    if n <= 9 {
        seq!['0', '0', '0'] + dec_chars(n)
    } else if n <= 99 {
        seq!['0', '0'] + dec_chars(n)
    } else if n <= 999 {
        seq!['0'] + dec_chars(n)
    } else {
        dec_chars(n)
    }
}

/// The year part of a day key: four-digit zero-padded, '-'-signed for
/// years before year 0.
pub open spec fn year_chars(y: int) -> Seq<char> {
    if y < 0 {
        seq!['-'] + padded4_chars(-y)
    } else {
        padded4_chars(y)
    }
}

/// Two-digit zero-padded month or day part.
pub open spec fn two_digit_chars(n: int) -> Seq<char> {
    seq![digit_char(n / 10), digit_char(n % 10)]
}

/// The `YYYY-MM-DD` key of a civil date.
pub open spec fn date_chars(y: int, m: int, d: int) -> Seq<char> {
    year_chars(y) + seq!['-'] + two_digit_chars(m) + seq!['-'] + two_digit_chars(d)
}

/// The `YYYY-MM-DD` key of a day count.
pub open spec fn day_chars(z: int) -> Seq<char> {
    date_chars(civil_of_day(z).0, civil_of_day(z).1, civil_of_day(z).2)
}

/// The `YYYY-MM-DD` key of the UTC day an instant falls on.
pub open spec fn day_chars_of_millis(ms: int) -> Seq<char> {
    day_chars(millis_day(ms))
}

fn digit_char_exec(n: u64) -> (c: char)
    requires
        n <= 9,
    ensures
        c == digit_char(n as int),
{
    if n == 0 {
        '0'
    } else if n == 1 {
        '1'
    } else if n == 2 {
        '2'
    } else if n == 3 {
        '3'
    } else if n == 4 {
        '4'
    } else if n == 5 {
        '5'
    } else if n == 6 {
        '6'
    } else if n == 7 {
        '7'
    } else if n == 8 {
        '8'
    } else {
        '9'
    }
}

fn push_decimal(s: &mut String, n: u64)
    ensures
        final(s)@ == old(s)@ + dec_chars(n as int),
    decreases n,
{
    if n >= 10 {
        push_decimal(s, n / 10);
    }
    let c = digit_char_exec(n % 10);
    push_char(s, c);
    proof {
        if n <= 9 {
            assert(old(s)@ + dec_chars(n as int) =~= old(s)@.push(digit_char(n as int)));
        } else {
            assert((old(s)@ + dec_chars(n as int / 10)).push(digit_char(n as int % 10)) =~= old(
                s,
            )@ + dec_chars(n as int));
        }
    }
}

fn push_padded4(s: &mut String, n: u64)
    ensures
        final(s)@ == old(s)@ + padded4_chars(n as int),
{
    if n <= 9 {
        push_char(s, '0');
        push_char(s, '0');
        push_char(s, '0');
    } else if n <= 99 {
        push_char(s, '0');
        push_char(s, '0');
    } else if n <= 999 {
        push_char(s, '0');
    }
    push_decimal(s, n);
    proof {
        assert(final(s)@ =~= old(s)@ + padded4_chars(n as int));
    }
}

/// Append the `YYYY-MM-DD` key of a civil date.
fn push_date(s: &mut String, y: i64, m: u8, d: u8)
    requires
        -1_000_000_000 <= y <= 1_000_000_000,
        m <= 99,
        d <= 99,
    ensures
        final(s)@ == old(s)@ + date_chars(y as int, m as int, d as int),
{
    if y < 0 {
        push_char(s, '-');
        push_padded4(s, (-y) as u64);
    } else {
        push_padded4(s, y as u64);
    }
    push_char(s, '-');
    let c1 = digit_char_exec((m / 10) as u64);
    push_char(s, c1);
    let c2 = digit_char_exec((m % 10) as u64);
    push_char(s, c2);
    push_char(s, '-');
    let c3 = digit_char_exec((d / 10) as u64);
    push_char(s, c3);
    let c4 = digit_char_exec((d % 10) as u64);
    push_char(s, c4);
    proof {
        assert(final(s)@ =~= old(s)@ + date_chars(y as int, m as int, d as int));
    }
}

/// The `YYYY-MM-DD` key of the UTC day the instant `ms` falls on.
pub fn day_string_of_millis(ms: i64) -> (r: String)
    ensures
        r@ == day_chars_of_millis(ms as int),
{
    let z = floor_div_i64(ms, MILLIS_PER_DAY);
    proof {
        lemma_fundamental_div_mod(ms as int, 86_400_000);
        let qq = (ms as int) / 86_400_000int;
        let rr = (ms as int) % 86_400_000int;
        assert(-200_000_000_000 <= qq <= 200_000_000_000) by (nonlinear_arith)
            requires
                qq * 86_400_000 + rr == ms,
                0 <= rr < 86_400_000,
                -9_223_372_036_854_775_808 <= ms <= 9_223_372_036_854_775_807,
        ;
    }
    let (y, m, d) = ymd_of_epoch_days(z);
    proof {
        lemma_civil_of_day(z as int, y as int, m as int, d as int);
    }
    let mut s = String::new();
    push_date(&mut s, y, m, d);
    s
}

} // verus!
