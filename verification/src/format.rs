//! Decimal rendering of fixed-point micro-unit values for verdict messages.

use vstd::prelude::*;

use crate::stats::abs_val;
use crate::stats::SCALE;

verus! {

/// The decimal digit character for `d`; `'0'` outside the digit range keeps
/// the function total.
pub open spec fn digit_char(d: int) -> char {
    if d == 1 {
        '1'
    } else if d == 2 {
        '2'
    } else if d == 3 {
        '3'
    } else if d == 4 {
        '4'
    } else if d == 5 {
        '5'
    } else if d == 6 {
        '6'
    } else if d == 7 {
        '7'
    } else if d == 8 {
        '8'
    } else if d == 9 {
        '9'
    } else {
        '0'
    }
}

/// Decimal digits of a non-negative integer, most significant first, no
/// leading zeros (a single `'0'` for zero).
pub open spec fn spec_digits(n: int) -> Seq<char>
    recommends
        n >= 0,
    decreases n,
{
    if n < 10 {
        seq![digit_char(n)]
    } else {
        spec_digits(n / 10) + seq![digit_char(n % 10)]
    }
}

/// The last `w` decimal digits of `n`, zero-padded on the left.
pub open spec fn spec_padded(n: int, w: int) -> Seq<char>
    recommends
        n >= 0,
    decreases w,
{
    if w <= 0 {
        Seq::empty()
    } else {
        spec_padded(n / 10, w - 1) + seq![digit_char(n % 10)]
    }
}

/// A micro-unit value as a decimal string: optional minus sign, the whole
/// units, a point, and exactly six fractional digits.
pub open spec fn spec_fixed_str(x: int) -> Seq<char> {
    let a = abs_val(x);
    (if x < 0 {
        seq!['-']
    } else {
        Seq::<char>::empty()
    }) + spec_digits(a / (SCALE as int)) + seq!['.'] + spec_padded(a % (SCALE as int), 6)
}

/// The one-character string for a decimal digit.
fn digit_str(d: u64) -> (r: &'static str)
    requires
        d < 10,
    ensures
        r@ == seq![digit_char(d as int)],
{
    let r: &'static str = match d {
        0 => "0",
        1 => "1",
        2 => "2",
        3 => "3",
        4 => "4",
        5 => "5",
        6 => "6",
        7 => "7",
        8 => "8",
        _ => "9",
    };
    proof {
        reveal_strlit("0");
        reveal_strlit("1");
        reveal_strlit("2");
        reveal_strlit("3");
        reveal_strlit("4");
        reveal_strlit("5");
        reveal_strlit("6");
        reveal_strlit("7");
        reveal_strlit("8");
        reveal_strlit("9");
        assert(r@ =~= seq![digit_char(d as int)]);
    }
    r
}

/// Appends the decimal digits of `n`.
fn push_digits(s: &mut String, n: u64)
    ensures
        final(s)@ == old(s)@ + spec_digits(n as int),
    decreases n,
{
    if n < 10 {
        s.append(digit_str(n));
    } else {
        push_digits(s, n / 10);
        s.append(digit_str(n % 10));
    }
}

/// Appends the last `w` decimal digits of `n`, zero-padded.
fn push_padded(s: &mut String, n: u64, w: u64)
    ensures
        final(s)@ == old(s)@ + spec_padded(n as int, w as int),
    decreases w,
{
    if w > 0 {
        push_padded(s, n / 10, w - 1);
        s.append(digit_str(n % 10));
    }
}

/// Renders a micro-unit value as a decimal string, e.g. `100.500000` for
/// `100_500_000` and `-0.250000` for `-250_000`.
pub fn fixed_to_string(x: i64) -> (r: String)
    ensures
        r@ == spec_fixed_str(x as int),
{
    let wide: i128 = x as i128;
    let a: u128 = (if wide < 0 {
        -wide
    } else {
        wide
    }) as u128;
    let whole: u64 = (a / (SCALE as u128)) as u64;
    let frac: u64 = (a % (SCALE as u128)) as u64;
    let mut s = String::new();
    if x < 0 {
        s.append("-");
        proof {
            reveal_strlit("-");
            assert(s@ =~= seq!['-']);
        }
    }
    push_digits(&mut s, whole);
    s.append(".");
    proof {
        reveal_strlit(".");
    }
    push_padded(&mut s, frac, 6);
    proof {
        assert(s@ =~= spec_fixed_str(x as int));
    }
    s
}

} // verus!
