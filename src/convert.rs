//! The day-counting transform from a Gregorian date to a Jalali date.
use vstd::prelude::*;
use vstd::arithmetic::div_mod::{lemma_fundamental_div_mod, lemma_fundamental_div_mod_converse};

verus! {

/// Earliest Gregorian year accepted by the converter.
pub const MIN_GREGORIAN_YEAR: i32 = -262143;

/// Latest Gregorian year accepted by the converter.
pub const MAX_GREGORIAN_YEAR: i32 = 262142;

/// Division that rounds toward zero, for a positive divisor.
pub open spec fn tdiv(a: int, b: int) -> int {
    if a >= 0 {
        a / b
    } else {
        -((-a) / b)
    }
}

/// Remainder that keeps the sign of `a`, paired with `tdiv`.
pub open spec fn trem(a: int, b: int) -> int {
    a - b * tdiv(a, b)
}

/// Whether `y` is a leap year of the Gregorian calendar.
pub open spec fn gregorian_leap(y: int) -> bool {
    (y % 4 == 0 && y % 100 != 0) || y % 400 == 0
}

/// Days of Gregorian month `m` (1-based) in a common year.
pub open spec fn gregorian_common_month_len(m: int) -> int {
    if m == 2 {
        28
    } else if m == 4 || m == 6 || m == 9 || m == 11 {
        30
    } else {
        31
    }
}

/// Days of Gregorian month `m` in year `y`.
pub open spec fn gregorian_month_len(y: int, m: int) -> int {
    if m == 2 && gregorian_leap(y) {
        29
    } else {
        gregorian_common_month_len(m)
    }
}

/// Whether `(y, m, d)` names a real day of the Gregorian calendar.
pub open spec fn gregorian_date_exists(y: int, m: int, d: int) -> bool {
    1 <= m <= 12 && 1 <= d <= gregorian_month_len(y, m)
}

/// Days of the months before month `m` of a common Gregorian year.
pub open spec fn gregorian_days_before_month(m: int) -> int
    decreases m,
{
    if m <= 1 {
        0
    } else {
        gregorian_days_before_month(m - 1) + gregorian_common_month_len(m - 1)
    }
}

/// The Gregorian day number, counted from the start of year 1600.
pub open spec fn gregorian_day_number(gy: int, gm: int, gd: int) -> int {
    let g = gy - 1600;
    365 * g + tdiv(g + 3, 4) - tdiv(g + 99, 100) + tdiv(g + 399, 400)
        + gregorian_days_before_month(gm) + (if gm > 2 && gregorian_leap(gy) { 1int } else { 0int })
        + gd - 1
}

/// Days of month `i + 1` in the converter's fixed table (index from 0).
pub open spec fn jalali_table_len(i: int) -> int {
    if i < 6 {
        31
    } else if i < 11 {
        30
    } else {
        29
    }
}

/// Month and day for `s` days into a year, walking the table from index `i`.
pub open spec fn month_walk(s: int, i: int) -> (int, int)
    decreases 11 - i,
{
    if i >= 11 {
        (12, s + 1)
    } else if s < jalali_table_len(i) {
        (i + 1, s + 1)
    } else {
        month_walk(s - jalali_table_len(i), i + 1)
    }
}

/// Year and days into that year for Jalali day number `n`, counted from the
/// start of year 979.
pub open spec fn jalali_year_and_rest(n: int) -> (int, int) {
    let jnp = tdiv(n, 12053);
    let r1 = trem(n, 12053);
    let jy = 979 + 33 * jnp + 4 * tdiv(r1, 1461);
    let r2 = trem(r1, 1461);
    if r2 >= 366 {
        (jy + tdiv(r2 - 1, 365), trem(r2 - 1, 365))
    } else {
        (jy, r2)
    }
}

/// The Jalali date of Jalali day number `n`.
pub open spec fn jalali_of_day(n: int) -> (int, int, int) {
    let (jy, s) = jalali_year_and_rest(n);
    let (jm, jd) = month_walk(s, 0);
    (jy, jm, jd)
}

/// The Jalali date that the transform gives for a Gregorian date.
pub open spec fn to_jalali(gy: int, gm: int, gd: int) -> (int, int, int) {
    jalali_of_day(gregorian_day_number(gy, gm, gd) - 79)
}

/// `a / b` rounded toward zero.
fn trunc_div(a: i32, b: i32) -> (q: i32)
    requires
        b > 0,
        a > i32::MIN,
    ensures
        q == tdiv(a as int, b as int),
{
    if a >= 0 {
        a / b
    } else {
        -((-a) / b)
    }
}

/// Days of Gregorian month `m` in a common year.
fn common_month_length(m: i32) -> (r: i32)
    ensures
        r == gregorian_common_month_len(m as int),
{
    if m == 2 {
        28
    } else if m == 4 || m == 6 || m == 9 || m == 11 {
        30
    } else {
        31
    }
}

/// Days of month `i + 1` in the converter's fixed Jalali table.
fn jalali_table_length(i: i32) -> (r: i32)
    ensures
        r == jalali_table_len(i as int),
{
    if i < 6 {
        31
    } else if i < 11 {
        30
    } else {
        29
    }
}

proof fn lemma_tdiv_bounds(a: int, b: int)
    requires
        b > 0,
    ensures
        a >= 0 ==> 0 <= tdiv(a, b) <= a,
        a < 0 ==> a <= tdiv(a, b) <= 0,
        a >= 0 ==> 0 <= trem(a, b) < b,
        a < 0 ==> -b < trem(a, b) <= 0,
{
    if a >= 0 {
        vstd::arithmetic::div_mod::lemma_fundamental_div_mod(a, b);
        vstd::arithmetic::div_mod::lemma_div_pos_is_pos(a, b);
        vstd::arithmetic::div_mod::lemma_div_is_ordered_by_denominator(a, 1, b);
        vstd::arithmetic::div_mod::lemma_mod_bound(a, b);
    } else {
        let p = -a;
        vstd::arithmetic::div_mod::lemma_fundamental_div_mod(p, b);
        vstd::arithmetic::div_mod::lemma_div_pos_is_pos(p, b);
        vstd::arithmetic::div_mod::lemma_div_is_ordered_by_denominator(p, 1, b);
        vstd::arithmetic::div_mod::lemma_mod_bound(p, b);
        assert(tdiv(a, b) == -(p / b));
        assert(b * tdiv(a, b) == -(b * (p / b))) by (nonlinear_arith)
            requires
                tdiv(a, b) == -(p / b),
        ;
    }
}

/// The Gregorian day number of a date, counted from the start of year 1600.
fn gregorian_day_count(gy: i32, gm: i32, gd: i32) -> (gdn: i32)
    requires
        MIN_GREGORIAN_YEAR <= gy <= MAX_GREGORIAN_YEAR,
        1 <= gm <= 12,
        1 <= gd <= 31,
    ensures
        gdn == gregorian_day_number(gy as int, gm as int, gd as int),
        -96500000 < gdn < 96500000,
{
    let gy_adj = gy - 1600;
    let gm_adj = gm - 1;
    let gd_adj = gd - 1;
    proof {
        lemma_tdiv_bounds(gy_adj + 3, 4);
        lemma_tdiv_bounds(gy_adj + 99, 100);
        lemma_tdiv_bounds(gy_adj + 399, 400);
    }
    let mut gdn: i32 = 365 * gy_adj + trunc_div(gy_adj + 3, 4) - trunc_div(gy_adj + 99, 100)
        + trunc_div(gy_adj + 399, 400);
    let ghost base = gdn as int;
    let mut i: i32 = 0;
    while i < gm_adj
        invariant
            0 <= i <= gm_adj <= 11,
            gdn == base + gregorian_days_before_month(i + 1),
            0 <= gregorian_days_before_month(i + 1) <= 31 * i,
            -96400000 <= base <= 96400000,
        decreases gm_adj - i,
    {
        gdn = gdn + common_month_length(i + 1);
        i = i + 1;
    }
    if gm_adj > 1 && ((gy % 4 == 0 && gy % 100 != 0) || (gy % 400 == 0)) {
        gdn = gdn + 1;
    }
    gdn + gd_adj
}

/// Year and days into that year for a Jalali day number.
fn jalali_year_of_day(n: i32) -> (r: (i32, i32))
    requires
        -97000000 < n < 97000000,
    ensures
        (r.0 as int, r.1 as int) == jalali_year_and_rest(n as int),
        -1461 < r.1 < 1461,
        -300000 < r.0 < 300000,
{
    proof {
        lemma_tdiv_bounds(n as int, 12053);
    }
    let jnp = trunc_div(n, 12053);
    let mut jdn: i32 = n - 12053 * jnp;
    proof {
        lemma_tdiv_bounds(jdn as int, 1461);
    }
    let q4 = trunc_div(jdn, 1461);
    let mut jy: i32 = 979 + 33 * jnp + 4 * q4;
    jdn = jdn - 1461 * q4;
    if jdn >= 366 {
        proof {
            lemma_tdiv_bounds(jdn - 1, 365);
        }
        let q = trunc_div(jdn - 1, 365);
        jy = jy + q;
        jdn = (jdn - 1) - 365 * q;
    }
    (jy, jdn)
}

/// Month and day for `s` days into a year, by the converter's fixed table.
fn month_and_day(s: i32) -> (r: (i32, i32))
    requires
        -1461 < s < 1461,
    ensures
        (r.0 as int, r.1 as int) == month_walk(s as int, 0),
        1 <= r.0 <= 12,
{
    let mut jdn = s;
    let mut jm: i32 = 0;
    let mut jd: i32 = 0;
    let mut k: i32 = 0;
    while k < 11 && jm == 0
        invariant
            0 <= k <= 11,
            -1461 < jdn < 1461,
            jm == 0 || 1 <= jm <= 11,
            jm == 0 ==> month_walk(s as int, 0) == month_walk(jdn as int, k as int),
            jm != 0 ==> (jm as int, jd as int) == month_walk(s as int, 0),
        decreases 11 - k + (if jm == 0 { 1int } else { 0int }),
    {
        let len = jalali_table_length(k);
        if jdn < len {
            jm = k + 1;
            jd = jdn + 1;
        } else {
            jdn = jdn - len;
            k = k + 1;
        }
    }
    if jm == 0 {
        jm = 12;
        jd = jdn + 1;
    }
    (jm, jd)
}

/// Converts a Gregorian date to a Jalali `(year, month, day)` by counting days.
///
/// The count starts at 1600-03-20, which is Jalali 979/1/1; for earlier dates
/// it is negative and the triple is not a calendar date.
pub fn gregorian_to_jalali(gy: i32, gm: i32, gd: i32) -> (r: (i32, i32, i32))
    requires
        MIN_GREGORIAN_YEAR <= gy <= MAX_GREGORIAN_YEAR,
        gregorian_date_exists(gy as int, gm as int, gd as int),
    ensures
        (r.0 as int, r.1 as int, r.2 as int) == to_jalali(gy as int, gm as int, gd as int),
        -300000 < r.0 < 300000,
        1 <= r.1 <= 12,
{
    assert(gd <= 31);
    let gdn = gregorian_day_count(gy, gm, gd);
    let (jy, rest) = jalali_year_of_day(gdn - 79);
    let (jm, jd) = month_and_day(rest);
    (jy, jm, jd)
}

/// Days before position `r` of a 33-year cycle of the converter: the years at
/// positions 0, 4, ..., 28 have 366 days, all others 365.
pub open spec fn days_before_cycle_year(r: int) -> int {
    1461 * (r / 4) + if r % 4 == 0 {
        0
    } else {
        366 + 365 * (r % 4 - 1)
    }
}

/// Days of the Jalali months before month `m`.
pub open spec fn days_before_jalali_month(m: int) -> int {
    if m <= 7 {
        31 * (m - 1)
    } else {
        186 + 30 * (m - 7)
    }
}

/// Jalali day number of a date, counted from the start of year 979 in
/// cycles of 33 years and 12053 days.
pub open spec fn jalali_day_count(j: (int, int, int)) -> int {
    12053 * ((j.0 - 979) / 33) + days_before_cycle_year((j.0 - 979) % 33)
        + days_before_jalali_month(j.1) + j.2 - 1
}

proof fn lemma_month_walk(t: int, i: int)
    requires
        t >= 0,
        0 <= i <= 11,
    ensures
        days_before_jalali_month(month_walk(t, i).0) + month_walk(t, i).1 - 1 == t
            + days_before_jalali_month(i + 1),
    decreases 11 - i,
{
    if i < 11 && t >= jalali_table_len(i) {
        lemma_month_walk(t - jalali_table_len(i), i + 1);
    }
}

proof fn lemma_year_and_rest(n: int)
    requires
        n >= 0,
    ensures
        jalali_year_and_rest(n).1 >= 0,
        jalali_year_and_rest(n).0 >= 979,
        jalali_year_and_rest(n).1 < cycle_year_len(jalali_year_and_rest(n).0),
        12053 * ((jalali_year_and_rest(n).0 - 979) / 33) + days_before_cycle_year(
            (jalali_year_and_rest(n).0 - 979) % 33,
        ) + jalali_year_and_rest(n).1 == n,
{
    let q = n / 12053;
    let r1 = n % 12053;
    lemma_fundamental_div_mod(n, 12053);
    vstd::arithmetic::div_mod::lemma_mod_bound(n, 12053);
    assert(tdiv(n, 12053) == q && trem(n, 12053) == r1);
    let p = r1 / 1461;
    let s1 = r1 % 1461;
    lemma_fundamental_div_mod(r1, 1461);
    vstd::arithmetic::div_mod::lemma_mod_bound(r1, 1461);
    assert(tdiv(r1, 1461) == p && trem(r1, 1461) == s1);
    assert(0 <= p <= 8);
    let y = 979 + 33 * q + 4 * p;
    if s1 >= 366 {
        let e = (s1 - 1) / 365;
        let s = (s1 - 1) % 365;
        lemma_fundamental_div_mod(s1 - 1, 365);
        vstd::arithmetic::div_mod::lemma_mod_bound(s1 - 1, 365);
        assert(tdiv(s1 - 1, 365) == e && trem(s1 - 1, 365) == s);
        assert(1 <= e <= 3);
        assert(p < 8);
        assert(jalali_year_and_rest(n) == (y + e, s));
        lemma_fundamental_div_mod_converse(y + e - 979, 33, q, 4 * p + e);
        lemma_fundamental_div_mod_converse(4 * p + e, 4, p, e);
    } else {
        assert(jalali_year_and_rest(n) == (y, s1));
        lemma_fundamental_div_mod_converse(y - 979, 33, q, 4 * p);
        lemma_fundamental_div_mod_converse(4 * p, 4, p, 0);
    }
}

/// The Jalali day number of the converter's date for Jalali day number `n`
/// is `n` again, for every `n` from the start of year 979 on.
pub proof fn lemma_jalali_day_count(n: int)
    requires
        n >= 0,
    ensures
        jalali_day_count(jalali_of_day(n)) == n,
{
    lemma_year_and_rest(n);
    lemma_month_walk(jalali_year_and_rest(n).1, 0);
}

/// For every Gregorian date from 1600-03-20 on, the Jalali date that the
/// transform gives lies exactly 79 days behind the Gregorian day number, in
/// the converter's own count of Jalali days.
pub proof fn lemma_day_count_preserved(gy: int, gm: int, gd: int)
    requires
        gregorian_day_number(gy, gm, gd) >= 79,
    ensures
        jalali_day_count(to_jalali(gy, gm, gd)) == gregorian_day_number(gy, gm, gd) - 79,
{
    lemma_jalali_day_count(gregorian_day_number(gy, gm, gd) - 79);
}

/// Days of year `y` in the converter's own calendar.
pub open spec fn cycle_year_len(y: int) -> int {
    let r = (y - 979) % 33;
    if r % 4 == 0 && r < 32 {
        366
    } else {
        365
    }
}

/// Days of the last month of year `y` in the converter's own calendar.
pub open spec fn last_month_len(y: int) -> int {
    cycle_year_len(y) - 336
}

/// Days from the start of year 979 to the start of year `y`.
pub open spec fn days_before_year(y: int) -> int {
    12053 * ((y - 979) / 33) + days_before_cycle_year((y - 979) % 33)
}

/// The Jalali date after `j` in the converter's own calendar.
pub open spec fn jalali_next(j: (int, int, int)) -> (int, int, int) {
    if j.1 == 12 && j.2 == last_month_len(j.0) {
        (j.0 + 1, 1, 1)
    } else if j.1 < 12 && j.2 == jalali_table_len(j.1 - 1) {
        (j.0, j.1 + 1, 1)
    } else {
        (j.0, j.1, j.2 + 1)
    }
}

/// Whether Jalali date `a` comes before `b` in (year, month, day) order.
pub open spec fn jalali_before(a: (int, int, int), b: (int, int, int)) -> bool {
    a.0 < b.0 || (a.0 == b.0 && (a.1 < b.1 || (a.1 == b.1 && a.2 < b.2)))
}

proof fn lemma_year_inverse(y: int, s: int)
    requires
        y >= 979,
        0 <= s < cycle_year_len(y),
    ensures
        jalali_year_and_rest(days_before_year(y) + s) == (y, s),
{
    let q = (y - 979) / 33;
    let r = (y - 979) % 33;
    lemma_fundamental_div_mod(y - 979, 33);
    vstd::arithmetic::div_mod::lemma_mod_bound(y - 979, 33);
    vstd::arithmetic::div_mod::lemma_div_pos_is_pos(y - 979, 33);
    let p0 = r / 4;
    let e = r % 4;
    lemma_fundamental_div_mod(r, 4);
    vstd::arithmetic::div_mod::lemma_mod_bound(r, 4);
    assert(0 <= p0 <= 8);
    let n = days_before_year(y) + s;
    let r1 = days_before_cycle_year(r) + s;
    assert(r1 < 12053);
    lemma_fundamental_div_mod_converse(n, 12053, q, r1);
    assert(tdiv(n, 12053) == q && trem(n, 12053) == r1);
    if e == 0 {
        lemma_fundamental_div_mod_converse(r1, 1461, p0, s);
        assert(tdiv(r1, 1461) == p0 && trem(r1, 1461) == s);
    } else {
        let s1 = 366 + 365 * (e - 1) + s;
        lemma_fundamental_div_mod_converse(r1, 1461, p0, s1);
        assert(tdiv(r1, 1461) == p0 && trem(r1, 1461) == s1);
        lemma_fundamental_div_mod_converse(s1 - 1, 365, e, s);
        assert(tdiv(s1 - 1, 365) == e && trem(s1 - 1, 365) == s);
    }
}

proof fn lemma_next_year_start(y: int)
    requires
        y >= 979,
    ensures
        days_before_year(y + 1) == days_before_year(y) + cycle_year_len(y),
{
    let q = (y - 979) / 33;
    let r = (y - 979) % 33;
    lemma_fundamental_div_mod(y - 979, 33);
    vstd::arithmetic::div_mod::lemma_mod_bound(y - 979, 33);
    let p0 = r / 4;
    let e = r % 4;
    lemma_fundamental_div_mod(r, 4);
    vstd::arithmetic::div_mod::lemma_mod_bound(r, 4);
    if r == 32 {
        lemma_fundamental_div_mod_converse(y + 1 - 979, 33, q + 1, 0);
        lemma_fundamental_div_mod_converse(0, 4, 0, 0);
        lemma_fundamental_div_mod_converse(32, 4, 8, 0);
    } else {
        lemma_fundamental_div_mod_converse(y + 1 - 979, 33, q, r + 1);
        if e < 3 {
            lemma_fundamental_div_mod_converse(r + 1, 4, p0, e + 1);
        } else {
            lemma_fundamental_div_mod_converse(r + 1, 4, p0 + 1, 0);
        }
    }
}

proof fn lemma_month_walk_range(t: int, i: int)
    requires
        t >= 0,
        0 <= i <= 11,
    ensures
        i + 1 <= month_walk(t, i).0 <= 12,
        month_walk(t, i).1 >= 1,
        month_walk(t, i).0 < 12 ==> month_walk(t, i).1 <= jalali_table_len(month_walk(t, i).0 - 1),
    decreases 11 - i,
{
    if i < 11 && t >= jalali_table_len(i) {
        lemma_month_walk_range(t - jalali_table_len(i), i + 1);
    }
}

proof fn lemma_month_walk_next(t: int, i: int)
    requires
        t >= 0,
        0 <= i <= 11,
    ensures
        month_walk(t + 1, i) == (if month_walk(t, i).0 < 12 && month_walk(t, i).1
            == jalali_table_len(month_walk(t, i).0 - 1) {
            (month_walk(t, i).0 + 1, 1)
        } else {
            (month_walk(t, i).0, month_walk(t, i).1 + 1)
        }),
    decreases 11 - i,
{
    if i < 11 && t >= jalali_table_len(i) {
        lemma_month_walk_next(t - jalali_table_len(i), i + 1);
    } else if i < 11 && t + 1 == jalali_table_len(i) {
        assert(month_walk(0, i + 1) == (i + 2, 1int));
    }
}

/// The converter's date for day number `n + 1` is the day after its date for
/// `n`, for every `n` from the start of year 979 on.
pub proof fn lemma_jalali_of_next_day(n: int)
    requires
        n >= 0,
    ensures
        jalali_of_day(n + 1) == jalali_next(jalali_of_day(n)),
{
    lemma_year_and_rest(n);
    let (y, s) = jalali_year_and_rest(n);
    lemma_month_walk(s, 0);
    lemma_month_walk_range(s, 0);
    lemma_month_walk_next(s, 0);
    let (m, d) = month_walk(s, 0);
    if m < 12 {
        assert(days_before_jalali_month(m + 1) == days_before_jalali_month(m) + jalali_table_len(m - 1));
        assert(s <= 335);
    }
    if s + 1 < cycle_year_len(y) {
        lemma_year_inverse(y, s + 1);
    } else {
        lemma_next_year_start(y);
        lemma_year_inverse(y + 1, 0);
    }
}

/// Two Gregorian dates one day apart, from 1600-03-20 on, convert to a Jalali
/// date and the day after it: the conversion never skips nor repeats a day.
pub proof fn lemma_to_jalali_next_day(gy1: int, gm1: int, gd1: int, gy2: int, gm2: int, gd2: int)
    requires
        gregorian_day_number(gy1, gm1, gd1) >= 79,
        gregorian_day_number(gy2, gm2, gd2) == gregorian_day_number(gy1, gm1, gd1) + 1,
    ensures
        to_jalali(gy2, gm2, gd2) == jalali_next(to_jalali(gy1, gm1, gd1)),
{
    lemma_jalali_of_next_day(gregorian_day_number(gy1, gm1, gd1) - 79);
}

proof fn lemma_jalali_of_day_increasing(n1: int, n2: int)
    requires
        0 <= n1 < n2,
    ensures
        jalali_before(jalali_of_day(n1), jalali_of_day(n2)),
    decreases n2 - n1,
{
    lemma_jalali_of_next_day(n2 - 1);
    if n1 < n2 - 1 {
        lemma_jalali_of_day_increasing(n1, n2 - 1);
    }
}

/// From 1600-03-20 on, a later Gregorian day number converts to a later Jalali
/// date in (year, month, day) order, so distinct days convert to distinct dates.
pub proof fn lemma_to_jalali_increasing(gy1: int, gm1: int, gd1: int, gy2: int, gm2: int, gd2: int)
    requires
        79 <= gregorian_day_number(gy1, gm1, gd1) < gregorian_day_number(gy2, gm2, gd2),
    ensures
        jalali_before(to_jalali(gy1, gm1, gd1), to_jalali(gy2, gm2, gd2)),
{
    lemma_jalali_of_day_increasing(
        gregorian_day_number(gy1, gm1, gd1) - 79,
        gregorian_day_number(gy2, gm2, gd2) - 79,
    );
}

/// The Gregorian date after `(y, m, d)`.
pub open spec fn gregorian_next(y: int, m: int, d: int) -> (int, int, int) {
    if d < gregorian_month_len(y, m) {
        (y, m, d + 1)
    } else if m < 12 {
        (y, m + 1, 1)
    } else {
        (y + 1, 1, 1)
    }
}

proof fn lemma_div_step(x: int, k: int)
    requires
        x >= 0,
        k > 0,
    ensures
        (x + 1) / k - x / k == (if (x + 1) % k == 0 { 1int } else { 0int }),
{
    let q = x / k;
    let r = x % k;
    lemma_fundamental_div_mod(x, k);
    vstd::arithmetic::div_mod::lemma_mod_bound(x, k);
    if r + 1 < k {
        lemma_fundamental_div_mod_converse(x + 1, k, q, r + 1);
    } else {
        assert(x + 1 == (q + 1) * k + 0) by (nonlinear_arith)
            requires
                x == k * q + r,
                r + 1 == k,
        ;
        lemma_fundamental_div_mod_converse(x + 1, k, q + 1, 0);
    }
}

proof fn lemma_mod_shift(y: int, k: int, c: int)
    requires
        k > 0,
    ensures
        (y + k * c) % k == y % k,
{
    let q = y / k;
    lemma_fundamental_div_mod(y, k);
    vstd::arithmetic::div_mod::lemma_mod_bound(y, k);
    assert(y + k * c == (q + c) * k + y % k) by (nonlinear_arith)
        requires
            y == k * q + y % k,
    ;
    lemma_fundamental_div_mod_converse(y + k * c, k, q + c, y % k);
}

proof fn lemma_divides_through(y: int, a: int, b: int)
    requires
        a > 0,
        b > 0,
        y % (a * b) == 0,
    ensures
        y % a == 0,
{
    assert(a * b > 0) by (nonlinear_arith)
        requires
            a > 0,
            b > 0,
    ;
    lemma_fundamental_div_mod(y, a * b);
    let q = y / (a * b);
    assert(y == (q * b) * a + 0) by (nonlinear_arith)
        requires
            y == (a * b) * q + 0,
    ;
    lemma_fundamental_div_mod_converse(y, a, q * b, 0);
}

proof fn lemma_year_step(y: int)
    requires
        y >= 1600,
    ensures
        gregorian_day_number(y + 1, 1, 1) == gregorian_day_number(y, 12, 31) + 1,
{
    let g = y - 1600;
    lemma_div_step(g + 3, 4);
    lemma_div_step(g + 99, 100);
    lemma_div_step(g + 399, 400);
    lemma_mod_shift(y, 4, -399);
    lemma_mod_shift(y, 100, -15);
    lemma_mod_shift(y, 400, -3);
    if y % 400 == 0 {
        lemma_divides_through(y, 100, 4);
    }
    if y % 100 == 0 {
        lemma_divides_through(y, 4, 25);
    }
    reveal_with_fuel(gregorian_days_before_month, 12);
    assert(gregorian_days_before_month(12) == 334);
}

/// The day after a Gregorian date from year 1600 on has the next day number.
pub proof fn lemma_gregorian_next_day_number(y: int, m: int, d: int)
    requires
        y >= 1600,
        gregorian_date_exists(y, m, d),
    ensures
        gregorian_day_number(gregorian_next(y, m, d).0, gregorian_next(y, m, d).1, gregorian_next(y, m, d).2)
            == gregorian_day_number(y, m, d) + 1,
{
    if d < gregorian_month_len(y, m) {
    } else if m < 12 {
        assert(gregorian_days_before_month(m + 1) == gregorian_days_before_month(m)
            + gregorian_common_month_len(m));
    } else {
        lemma_year_step(y);
    }
}

/// For a Gregorian date from 1600-03-20 on, the day after it converts to the
/// Jalali day after its conversion.
pub proof fn lemma_to_jalali_of_gregorian_next(y: int, m: int, d: int)
    requires
        y >= 1600,
        gregorian_date_exists(y, m, d),
        gregorian_day_number(y, m, d) >= 79,
    ensures
        to_jalali(gregorian_next(y, m, d).0, gregorian_next(y, m, d).1, gregorian_next(y, m, d).2)
            == jalali_next(to_jalali(y, m, d)),
{
    lemma_gregorian_next_day_number(y, m, d);
    let n = gregorian_next(y, m, d);
    lemma_to_jalali_next_day(y, m, d, n.0, n.1, n.2);
}

} // verus!
