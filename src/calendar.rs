//! The Jalali leap-year rule, month lengths and month names.
use vstd::prelude::*;
use vstd::arithmetic::div_mod::{lemma_fundamental_div_mod, lemma_fundamental_div_mod_converse};

verus! {

/// What can go wrong when building or inspecting a date.
#[derive(Debug, Clone, Copy, PartialEq, Eq, Structural)]
pub enum CalendarError {
    /// A month outside `1..=12`.
    InvalidMonth,
    /// A day outside the length of its month.
    InvalidDay,
    /// A Gregorian triple that names no real calendar day.
    InvalidGregorianDate,
    /// The occasion dataset could not be loaded or parsed.
    DatasetError,
}

/// The position in the 2820-year cycle that the leap rule reads: years before
/// 474 are shifted down by one more, and the remainder is a floor modulo.
pub open spec fn leap_cycle_position(y: int) -> int {
    let a = if y - 474 < 0 { y - 475 } else { y - 474 };
    474 + a % 2820
}

/// The leap-year rule of the 2820-year cycle.
pub open spec fn jalali_leap(y: int) -> bool {
    (leap_cycle_position(y) + 38) * 682 % 2816 < 682
}

/// Length of Jalali month `m` (1-based) in year `y`.
pub open spec fn jalali_month_len(y: int, m: int) -> int {
    if 1 <= m <= 6 {
        31
    } else if 7 <= m <= 11 {
        30
    } else if jalali_leap(y) {
        30
    } else {
        29
    }
}

/// `a` modulo a positive `n`, never negative.
fn floor_mod(a: i64, n: i64) -> (r: i64)
    requires
        n > 0,
        a > i64::MIN,
    ensures
        r == a % n,
{
    if a >= 0 {
        a % n
    } else {
        let t = (-a) % n;
        proof {
            lemma_fundamental_div_mod(-a as int, n as int);
            let q = (-a as int) / (n as int);
            if t == 0 {
                assert(a == n * (-q) + 0) by (nonlinear_arith)
                    requires -a == n * q + t, t == 0;
                lemma_fundamental_div_mod_converse(a as int, n as int, -q, 0);
            } else {
                assert(a == n * (-q - 1) + (n - t)) by (nonlinear_arith)
                    requires -a == n * q + t;
                lemma_fundamental_div_mod_converse(a as int, n as int, -q - 1, n - t);
            }
        }
        if t == 0 {
            0
        } else {
            n - t
        }
    }
}

/// Whether Jalali year `jy` is a leap year.
pub fn is_jalali_leap(jy: i32) -> (r: bool)
    ensures
        r == jalali_leap(jy as int),
{
    let mut a: i64 = jy as i64 - 474;
    if a < 0 {
        a = a - 1;
    }
    let b: i64 = 474 + floor_mod(a, 2820);
    (b + 38) * 682 % 2816 < 682
}

/// Number of days in month `m` of Jalali year `y`.
pub fn days_in_month(y: i32, m: u8) -> (r: Result<u8, CalendarError>)
    ensures
        1 <= m <= 12 ==> r == Ok::<u8, CalendarError>(jalali_month_len(y as int, m as int) as u8),
        !(1 <= m <= 12) ==> r == Err::<u8, CalendarError>(CalendarError::InvalidMonth),
{
    if 1 <= m && m <= 6 {
        Ok(31)
    } else if 7 <= m && m <= 11 {
        Ok(30)
    } else if m == 12 {
        if is_jalali_leap(y) {
            Ok(30)
        } else {
            Ok(29)
        }
    } else {
        Err(CalendarError::InvalidMonth)
    }
}

/// Name of Jalali month `m` (1-based).
pub open spec fn jalali_month_name(m: int) -> Seq<char> {
    if m == 1 {
        "Farvardin"@
    } else if m == 2 {
        "Ordibehesht"@
    } else if m == 3 {
        "Khordad"@
    } else if m == 4 {
        "Tir"@
    } else if m == 5 {
        "Amordad"@
    } else if m == 6 {
        "Shahrivar"@
    } else if m == 7 {
        "Mehr"@
    } else if m == 8 {
        "Aban"@
    } else if m == 9 {
        "Azar"@
    } else if m == 10 {
        "Dey"@
    } else if m == 11 {
        "Bahman"@
    } else {
        "Esfand"@
    }
}

/// Name of Jalali month `m`.
pub fn month_name(m: u8) -> (r: Result<&'static str, CalendarError>)
    ensures
        match r {
            Ok(s) => 1 <= m <= 12 && s@ == jalali_month_name(m as int),
            Err(e) => !(1 <= m <= 12) && e == CalendarError::InvalidMonth,
        },
{
    match m {
        1 => Ok("Farvardin"),
        2 => Ok("Ordibehesht"),
        3 => Ok("Khordad"),
        4 => Ok("Tir"),
        5 => Ok("Amordad"),
        6 => Ok("Shahrivar"),
        7 => Ok("Mehr"),
        8 => Ok("Aban"),
        9 => Ok("Azar"),
        10 => Ok("Dey"),
        11 => Ok("Bahman"),
        12 => Ok("Esfand"),
        _ => Err(CalendarError::InvalidMonth),
    }
}

/// The leap rule repeats every 2820 years, among the years from 474 on and
/// among the years before 474.
pub proof fn lemma_leap_periodic(y: int, k: int)
    requires
        (y >= 474) == (y + 2820 * k >= 474),
    ensures
        jalali_leap(y) == jalali_leap(y + 2820 * k),
{
    let a = if y - 474 < 0 { y - 475 } else { y - 474 };
    lemma_fundamental_div_mod(a, 2820);
    let q = a / 2820;
    let r = a % 2820;
    assert(a + 2820 * k == (q + k) * 2820 + r) by (nonlinear_arith)
        requires
            a == 2820 * q + r,
    ;
    vstd::arithmetic::div_mod::lemma_mod_bound(a, 2820);
    lemma_fundamental_div_mod_converse(a + 2820 * k, 2820, q + k, r);
    assert(leap_cycle_position(y + 2820 * k) == leap_cycle_position(y));
}

/// Esfand has 30 days exactly in leap years and 29 otherwise; the first six
/// months have 31 days and the next five 30, in every year.
pub proof fn lemma_month_lengths(y: int, m: int)
    ensures
        (jalali_month_len(y, 12) == 30) == jalali_leap(y),
        !jalali_leap(y) ==> jalali_month_len(y, 12) == 29,
        1 <= m <= 6 ==> jalali_month_len(y, m) == 31,
        7 <= m <= 11 ==> jalali_month_len(y, m) == 30,
{
}

} // verus!
