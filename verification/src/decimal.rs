//! Verified decimal rendering of unsigned integers, used by the
//! diagnostic text of the other modules.

use vstd::prelude::*;
use vstd::string::StringExecFns;

verus! {

/// The character for the decimal digit `d`.
pub open spec fn digit_char(d: int) -> char {
    if d == 0 {
        '0'
    } else if d == 1 {
        '1'
    } else if d == 2 {
        '2'
    } else if d == 3 {
        '3'
    } else if d == 4 {
        '4'
    } else if d == 5 {
        '5'
    } else if d == 6 {
        '6'
    } else if d == 7 {
        '7'
    } else if d == 8 {
        '8'
    } else {
        '9'
    }
}

/// The decimal rendering of a nonnegative integer, most significant
/// digit first and without leading zeros.
pub open spec fn dec_spec(n: int) -> Seq<char>
    recommends
        0 <= n,
    decreases n,
{
    if n < 10 {
        seq![digit_char(n)]
    } else {
        dec_spec(n / 10) + seq![digit_char(n % 10)]
    }
}

/// The rendering of `x` zero-padded to exactly five decimal digits.
pub open spec fn pad5_spec(x: int) -> Seq<char> {
    seq![
        digit_char(x / 10000 % 10),
        digit_char(x / 1000 % 10),
        digit_char(x / 100 % 10),
        digit_char(x / 10 % 10),
        digit_char(x % 10),
    ]
}

/// The one-character string for the decimal digit `d`.
fn digit_str(d: u64) -> (r: &'static str)
    requires
        d < 10,
    ensures
        r@ == seq![digit_char(d as int)],
{
    proof {
        reveal_strlit("0");
        reveal_strlit("1");
        reveal_strlit("2");
        reveal_strlit("3");
        reveal_strlit("4");
        reveal_strlit("5");
        reveal_strlit("6");
        reveal_strlit("7");
        reveal_strlit("8");
        reveal_strlit("9");
    }
    let r: &'static str = if d == 0 {
        "0"
    } else if d == 1 {
        "1"
    } else if d == 2 {
        "2"
    } else if d == 3 {
        "3"
    } else if d == 4 {
        "4"
    } else if d == 5 {
        "5"
    } else if d == 6 {
        "6"
    } else if d == 7 {
        "7"
    } else if d == 8 {
        "8"
    } else {
        "9"
    };
    proof {
        assert(r@ =~= seq![digit_char(d as int)]);
    }
    r
}

/// Renders `n` in decimal.
pub fn u64_to_string(n: u64) -> (s: String)
    ensures
        s@ == dec_spec(n as int),
    decreases n,
{
    if n < 10 {
        String::from_str(digit_str(n))
    } else {
        let mut s: String = u64_to_string(n / 10);
        s.append(digit_str(n % 10));
        s
    }
}

/// Renders `x` zero-padded to five decimal digits.
pub fn u64_to_pad5(x: u64) -> (s: String)
    requires
        x < 100000,
    ensures
        s@ == pad5_spec(x as int),
{
    let mut s: String = String::from_str(digit_str(x / 10000 % 10));
    s.append(digit_str(x / 1000 % 10));
    s.append(digit_str(x / 100 % 10));
    s.append(digit_str(x / 10 % 10));
    s.append(digit_str(x % 10));
    proof {
        assert(s@ =~= pad5_spec(x as int));
    }
    s
}

} // verus!
