//! Decimal rendering of integers with zero padding.
use vstd::prelude::*;

verus! {

/// The character of decimal digit `d`.
pub open spec fn digit_char(d: nat) -> char {
    if d == 0 {
        '0'
    } else if d == 1 {
        '1'
    } else if d == 2 {
        '2'
    } else if d == 3 {
        '3'
    } else if d == 4 {
        '4'
    } else if d == 5 {
        '5'
    } else if d == 6 {
        '6'
    } else if d == 7 {
        '7'
    } else if d == 8 {
        '8'
    } else {
        '9'
    }
}

/// The decimal digits of `n`, most significant first, without leading zeros.
pub open spec fn decimal_digits(n: nat) -> Seq<char>
    decreases n,
{
    if n < 10 {
        seq![digit_char(n)]
    } else {
        decimal_digits(n / 10) + seq![digit_char(n % 10)]
    }
}

/// `s` with zeros put in front until it is `w` characters long.
pub open spec fn zero_fill(s: Seq<char>, w: int) -> Seq<char> {
    if s.len() >= w {
        s
    } else {
        Seq::new((w - s.len()) as nat, |i: int| '0') + s
    }
}

/// `n` in decimal, at least `w` characters long: a `-` first when `n` is
/// negative, then zeros, then the digits.
pub open spec fn padded_decimal(n: int, w: nat) -> Seq<char> {
    if n < 0 {
        seq!['-'] + zero_fill(decimal_digits((-n) as nat), w - 1)
    } else {
        zero_fill(decimal_digits(n as nat), w as int)
    }
}

/// Relies on std's `format!` with `{:0width$}` on an integer: the sign, then
/// zeros, then the decimal digits, `width` characters at least. A width given
/// at run time above `u16::MAX` makes `format!` panic.
#[verifier::external_body]
pub(crate) fn zero_padded(n: i64, width: usize) -> (r: String)
    requires
        width <= 65535,
    ensures
        r@ == padded_decimal(n as int, width as nat),
{
    format!("{:0width$}", n, width = width)
}

} // verus!
