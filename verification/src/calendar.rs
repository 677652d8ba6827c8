//! Proleptic Gregorian calendar arithmetic in UTC, counted from 1970-01-01.

use vstd::prelude::*;

use crate::text::{
    decimal, fixed_digits, lemma_fixed_digits_len, lemma_text_less_concat, lemma_fixed_digits_order, lemma_zero_pad_is_fixed,
    pow10, push_char, push_zero_padded, text_less, zero_pad,
};

verus! {

/// Gregorian leap-year rule.
pub open spec fn is_leap_year(y: int) -> bool {
    y % 4 == 0 && (y % 100 != 0 || y % 400 == 0)
}

/// Number of days in year `y`.
pub open spec fn year_len(y: int) -> int {
    if is_leap_year(y) { 366 } else { 365 }
}

/// Number of days in month `m` (1-based) of year `y`.
pub open spec fn month_len(y: int, m: int) -> int {
    if m == 2 {
        if is_leap_year(y) { 29 } else { 28 }
    } else if m == 4 || m == 6 || m == 9 || m == 11 {
        30
    } else {
        31
    }
}

/// Days from 1970-01-01 to January 1st of year `y` (for `y >= 1970`).
pub open spec fn days_before_year(y: int) -> int
    decreases y - 1970,
{
    if y <= 1970 {
        0
    } else {
        days_before_year(y - 1) + year_len(y - 1)
    }
}

/// Days from January 1st of year `y` to the first day of month `m`.
pub open spec fn days_before_month(y: int, m: int) -> int
    decreases m,
{
    if m <= 1 {
        0
    } else {
        days_before_month(y, m - 1) + month_len(y, m - 1)
    }
}

/// A valid calendar date on or after 1970-01-01.
pub open spec fn valid_date(y: int, m: int, d: int) -> bool {
    &&& y >= 1970
    &&& 1 <= m <= 12
    &&& 1 <= d <= month_len(y, m)
}

/// Days from 1970-01-01 to the date `y-m-d`.
pub open spec fn days_from_civil(y: int, m: int, d: int) -> int {
    days_before_year(y) + days_before_month(y, m) + (d - 1)
}

/// `y-m-d` is the calendar date of day number `n` (days since 1970-01-01).
pub open spec fn is_date_of_day(n: int, y: int, m: int, d: int) -> bool {
    valid_date(y, m, d) && days_from_civil(y, m, d) == n
}

/// `YYYY-MM-DD` with the year padded to at least four digits.
pub open spec fn iso_date(y: nat, m: nat, d: nat) -> Seq<char> {
    zero_pad(decimal(y), 4) + seq!['-'] + zero_pad(decimal(m), 2) + seq!['-'] + zero_pad(
        decimal(d),
        2,
    )
}

/// Leap years in `1..y` (closed form).
spec fn leaps_before(y: int) -> int {
    (y - 1) / 4 - (y - 1) / 100 + (y - 1) / 400
}

proof fn lemma_leaps_step(y: int)
    requires
        y >= 1,
    ensures
        leaps_before(y + 1) == leaps_before(y) + (if is_leap_year(y) { 1int } else { 0int }),
{
}

proof fn lemma_days_before_year_closed(y: int)
    requires
        y >= 1970,
    ensures
        days_before_year(y) == 365 * (y - 1970) + leaps_before(y) - leaps_before(1970),
    decreases y - 1970,
{
    if y > 1970 {
        lemma_days_before_year_closed(y - 1);
        lemma_leaps_step(y - 1);
    }
}

/// Any 400 consecutive Gregorian years hold 146097 days.
proof fn lemma_era_length(y: int)
    requires
        y >= 1970,
    ensures
        days_before_year(y + 400) == days_before_year(y) + 146097,
{
    lemma_days_before_year_closed(y);
    lemma_days_before_year_closed(y + 400);
    assert(leaps_before(y + 400) == leaps_before(y) + 97);
}

proof fn lemma_days_before_year_mono(a: int, b: int)
    requires
        1970 <= a <= b,
    ensures
        days_before_year(a) + 365 * (b - a) <= days_before_year(b),
    decreases b - a,
{
    if a < b {
        lemma_days_before_year_mono(a, b - 1);
    }
}

proof fn lemma_year_of_months(y: int)
    ensures
        days_before_month(y, 13) == year_len(y),
{
    reveal_with_fuel(days_before_month, 13);
}

proof fn lemma_days_before_month_mono(y: int, a: int, b: int)
    requires
        1 <= a <= b,
    ensures
        days_before_month(y, a) + 28 * (b - a) <= days_before_month(y, b),
    decreases b - a,
{
    if a < b {
        lemma_days_before_month_mono(y, a, b - 1);
    }
}

/// A calendar date has exactly one day number, and a day number exactly one
/// date.
pub proof fn lemma_date_of_day_unique(n: int, y1: int, m1: int, d1: int, y2: int, m2: int, d2: int)
    requires
        is_date_of_day(n, y1, m1, d1),
        is_date_of_day(n, y2, m2, d2),
    ensures
        y1 == y2 && m1 == m2 && d1 == d2,
{
    lemma_day_in_year(y1, m1, d1);
    lemma_day_in_year(y2, m2, d2);
    if y1 < y2 {
        lemma_days_before_year_step_le(y1 + 1, y2);
    } else if y2 < y1 {
        lemma_days_before_year_step_le(y2 + 1, y1);
    }
    assert(y1 == y2);
    lemma_day_in_month(y1, m1, d1);
    lemma_day_in_month(y1, m2, d2);
    if m1 < m2 {
        lemma_days_before_month_step_le(y1, m1 + 1, m2);
    } else if m2 < m1 {
        lemma_days_before_month_step_le(y1, m2 + 1, m1);
    }
}

proof fn lemma_days_before_year_step_le(a: int, b: int)
    requires
        1970 < a <= b,
    ensures
        days_before_year(a - 1) + year_len(a - 1) <= days_before_year(b),
{
    lemma_days_before_year_mono(a, b);
}

proof fn lemma_days_before_month_step_le(y: int, a: int, b: int)
    requires
        1 < a <= b,
    ensures
        days_before_month(y, a - 1) + month_len(y, a - 1) <= days_before_month(y, b),
{
    lemma_days_before_month_mono(y, a, b);
}

/// The day of the year of a valid date lies within that year.
proof fn lemma_day_in_year(y: int, m: int, d: int)
    requires
        valid_date(y, m, d),
    ensures
        0 <= days_before_month(y, m) + (d - 1) < year_len(y),
{
    lemma_day_in_month(y, m, d);
    lemma_year_of_months(y);
    if m < 12 {
        lemma_days_before_month_mono(y, m + 1, 13);
    } else {
        reveal_with_fuel(days_before_month, 2);
    }
}

proof fn lemma_day_in_month(y: int, m: int, d: int)
    requires
        valid_date(y, m, d),
    ensures
        0 <= days_before_month(y, m),
        days_before_month(y, m) + (d - 1) < days_before_month(y, m + 1),
{
    lemma_days_before_month_mono(y, 1, m);
}

/// The calendar date `(year, month, day)` of day number `n >= 0`.
pub fn civil_from_days(n: i64) -> (r: (i64, i64, i64))
    requires
        n >= 0,
        n <= i64::MAX / 86400,
    ensures
        is_date_of_day(n as int, r.0 as int, r.1 as int, r.2 as int),
{
    let eras: i64 = n / 146097;
    let mut rem: i64 = n % 146097;
    let y0: i64 = 1970 + 400 * eras;
    proof {
        lemma_eras(eras as int);
        lemma_era_length(y0 as int);
    }
    let mut y: i64 = y0;
    while rem >= year_length(y)
        invariant
            y0 as int >= 1970,
            days_before_year(y0 as int) == 146097 * eras,
            days_before_year(y0 as int + 400) == days_before_year(y0 as int) + 146097,
            n == 146097 * eras + n % 146097,
            0 <= n % 146097 < 146097,
            y0 <= y < y0 + 400,
            y0 + 400 <= i64::MAX,
            0 <= rem,
            rem + days_before_year(y as int) == n,
        decreases rem,
    {
        rem = rem - year_length(y);
        y = y + 1;
        proof {
            if y == y0 + 400 {
                assert(rem + days_before_year(y as int) == n);
                assert(false);
            }
        }
    }
    let mut m: i64 = 1;
    proof {
        lemma_year_of_months(y as int);
    }
    while rem >= month_length(y, m)
        invariant
            y >= 1970,
            1 <= m <= 12,
            0 <= rem,
            rem + days_before_month(y as int, m as int) < year_len(y as int),
            rem + days_before_month(y as int, m as int) + days_before_year(y as int) == n,
            days_before_month(y as int, 13) == year_len(y as int),
        decreases rem,
    {
        rem = rem - month_length(y, m);
        m = m + 1;
        proof {
            if m == 13 {
                assert(false);
            }
        }
    }
    (y, m, rem + 1)
}

proof fn lemma_eras(eras: int)
    requires
        0 <= eras <= (i64::MAX / 86400) / 146097,
    ensures
        days_before_year(1970 + 400 * eras) == 146097 * eras,
    decreases eras,
{
    if eras > 0 {
        lemma_eras(eras - 1);
        lemma_era_length(1970 + 400 * (eras - 1));
    }
}

fn year_length(y: i64) -> (l: i64)
    requires
        y >= 0,
    ensures
        l == year_len(y as int),
{
    if y % 4 == 0 && (y % 100 != 0 || y % 400 == 0) {
        366
    } else {
        365
    }
}

fn month_length(y: i64, m: i64) -> (l: i64)
    requires
        y >= 0,
    ensures
        l == month_len(y as int, m as int),
{
    if m == 2 {
        if y % 4 == 0 && (y % 100 != 0 || y % 400 == 0) {
            29
        } else {
            28
        }
    } else if m == 4 || m == 6 || m == 9 || m == 11 {
        30
    } else {
        31
    }
}

/// Renders `y-m-d` as `YYYY-MM-DD`.
pub fn iso_date_string(y: u64, m: u64, d: u64) -> (s: String)
    ensures
        s@ == iso_date(y as nat, m as nat, d as nat),
{
    let mut s = String::new();
    push_zero_padded(&mut s, y, 4);
    push_char(&mut s, '-');
    push_zero_padded(&mut s, m, 2);
    push_char(&mut s, '-');
    push_zero_padded(&mut s, d, 2);
    s
}

/// `(y1, m1, d1)` comes before `(y2, m2, d2)` in calendar order.
pub open spec fn date_before(y1: int, m1: int, d1: int, y2: int, m2: int, d2: int) -> bool {
    y1 < y2 || (y1 == y2 && (m1 < m2 || (m1 == m2 && d1 < d2)))
}

proof fn lemma_days_from_civil_order(y1: int, m1: int, d1: int, y2: int, m2: int, d2: int)
    requires
        valid_date(y1, m1, d1),
        valid_date(y2, m2, d2),
        date_before(y1, m1, d1, y2, m2, d2),
    ensures
        days_from_civil(y1, m1, d1) < days_from_civil(y2, m2, d2),
{
    lemma_day_in_year(y1, m1, d1);
    lemma_day_in_month(y1, m1, d1);
    lemma_day_in_month(y2, m2, d2);
    if y1 < y2 {
        lemma_days_before_year_step_le(y1 + 1, y2);
    } else if m1 < m2 {
        lemma_days_before_month_mono(y1, m1 + 1, m2);
    }
}

/// A later day number has a later date.
pub proof fn lemma_date_order(n1: int, y1: int, m1: int, d1: int, n2: int, y2: int, m2: int, d2: int)
    requires
        is_date_of_day(n1, y1, m1, d1),
        is_date_of_day(n2, y2, m2, d2),
        n1 < n2,
    ensures
        date_before(y1, m1, d1, y2, m2, d2),
{
    if !date_before(y1, m1, d1, y2, m2, d2) {
        if y1 == y2 && m1 == m2 && d1 == d2 {
        } else {
            lemma_days_from_civil_order(y2, m2, d2, y1, m1, d1);
        }
    }
}

/// Day numbers before 2932897 (that is, before 10000-01-01) fall in years
/// of at most four digits.
pub proof fn lemma_four_digit_year(n: int, y: int, m: int, d: int)
    requires
        is_date_of_day(n, y, m, d),
        n < 2932897,
    ensures
        y <= 9999,
{
    if y > 9999 {
        lemma_days_before_year_closed(10000);
        lemma_days_before_year_mono(10000, y);
        lemma_day_in_month(y, m, d);
    }
}

/// `YYYY-MM-DD` texts of dates up to year 9999 sort as the dates do.
pub proof fn lemma_iso_date_order(y1: nat, m1: nat, d1: nat, y2: nat, m2: nat, d2: nat)
    requires
        valid_date(y1 as int, m1 as int, d1 as int),
        valid_date(y2 as int, m2 as int, d2 as int),
        y1 <= 9999,
        y2 <= 9999,
        date_before(y1 as int, m1 as int, d1 as int, y2 as int, m2 as int, d2 as int),
    ensures
        text_less(iso_date(y1, m1, d1), iso_date(y2, m2, d2)),
{
    assert(pow10(2) == 100) by {
        reveal_with_fuel(pow10, 3);
    }
    assert(pow10(4) == 10000) by {
        reveal_with_fuel(pow10, 5);
    }
    lemma_zero_pad_is_fixed(y1, 4);
    lemma_zero_pad_is_fixed(y2, 4);
    lemma_zero_pad_is_fixed(m1, 2);
    lemma_zero_pad_is_fixed(m2, 2);
    lemma_zero_pad_is_fixed(d1, 2);
    lemma_zero_pad_is_fixed(d2, 2);
    let (ya, yb) = (fixed_digits(y1, 4), fixed_digits(y2, 4));
    let (ma, mb) = (fixed_digits(m1, 2), fixed_digits(m2, 2));
    let (da, db) = (fixed_digits(d1, 2), fixed_digits(d2, 2));
    lemma_fixed_digits_len(y1, 4);
    lemma_fixed_digits_len(y2, 4);
    lemma_fixed_digits_len(m1, 2);
    lemma_fixed_digits_len(m2, 2);
    let dash = seq!['-'];
    let ra = dash + (da);
    let rb = dash + (db);
    let qa = ma + ra;
    let qb = mb + rb;
    let pa = dash + qa;
    let pb = dash + qb;
    assert(iso_date(y1, m1, d1) =~= ya + pa);
    assert(iso_date(y2, m2, d2) =~= yb + pb);
    lemma_text_less_concat(ya, pa, yb, pb);
    lemma_text_less_concat(dash, qa, dash, qb);
    lemma_text_less_concat(ma, ra, mb, rb);
    lemma_text_less_concat(dash, da, dash, db);
    if y1 < y2 {
        lemma_fixed_digits_order(y1, y2, 4);
    } else if m1 < m2 {
        lemma_fixed_digits_order(m1, m2, 2);
    } else {
        lemma_fixed_digits_order(d1, d2, 2);
    }
}

} // verus!
