//! Rendering an elapsed number of seconds as `HHh:MMm:SSs`, the form
//! the front ends print — hours unbounded, minutes and seconds padded
//! to two digits.

use vstd::prelude::*;
use vstd::string::StringExecFns;

verus! {

/// The decimal digit character for a value below ten.
pub open spec fn dec_digit(n: int) -> char {
    if n == 0 {
        '0'
    } else if n == 1 {
        '1'
    } else if n == 2 {
        '2'
    } else if n == 3 {
        '3'
    } else if n == 4 {
        '4'
    } else if n == 5 {
        '5'
    } else if n == 6 {
        '6'
    } else if n == 7 {
        '7'
    } else if n == 8 {
        '8'
    } else {
        '9'
    }
}

/// The decimal digits of `n`, most significant first, without leading
/// zeros (a single `'0'` for zero).
pub open spec fn dec_digits(n: nat) -> Seq<char>
    decreases n,
{
    if n < 10 {
        seq![dec_digit(n as int)]
    } else {
        dec_digits(n / 10).push(dec_digit((n % 10) as int))
    }
}

/// The decimal digits of `n`, zero-padded on the left to at least two.
pub open spec fn padded2(n: nat) -> Seq<char> {
    if n < 10 {
        seq!['0'] + dec_digits(n)
    } else {
        dec_digits(n)
    }
}

/// `total` seconds rendered as hours, minutes and seconds.
pub open spec fn elapsed_format(total: nat) -> Seq<char> {
    padded2(total / 3600) + seq!['h', ':'] + padded2((total % 3600) / 60) + seq!['m', ':']
        + padded2(total % 60) + seq!['s']
}

/// The one-character string for a decimal digit.
fn digit_str(d: u64) -> (r: &'static str)
    requires
        d < 10,
    ensures
        r@ == seq![dec_digit(d as int)],
{
    proof {
        reveal_strlit("0");
        reveal_strlit("1");
        reveal_strlit("2");
        reveal_strlit("3");
        reveal_strlit("4");
        reveal_strlit("5");
        reveal_strlit("6");
        reveal_strlit("7");
        reveal_strlit("8");
        reveal_strlit("9");
    }
    let r: &'static str = if d == 0 {
        "0"
    } else if d == 1 {
        "1"
    } else if d == 2 {
        "2"
    } else if d == 3 {
        "3"
    } else if d == 4 {
        "4"
    } else if d == 5 {
        "5"
    } else if d == 6 {
        "6"
    } else if d == 7 {
        "7"
    } else if d == 8 {
        "8"
    } else {
        "9"
    };
    proof {
        assert(r@ =~= seq![dec_digit(d as int)]);
    }
    r
}

/// The decimal rendering of `n`.
fn dec_string(n: u64) -> (r: String)
    ensures
        r@ == dec_digits(n as nat),
    decreases n,
{
    if n < 10 {
        String::from_str(digit_str(n))
    } else {
        let mut s = dec_string(n / 10);
        s.append(digit_str(n % 10));
        proof {
            assert(s@ =~= dec_digits((n / 10) as nat).push(dec_digit((n % 10) as int)));
        }
        s
    }
}

/// The decimal rendering of `n`, zero-padded to at least two digits.
fn padded2_string(n: u64) -> (r: String)
    ensures
        r@ == padded2(n as nat),
{
    if n < 10 {
        proof {
            reveal_strlit("0");
        }
        let mut s = String::from_str("0");
        s.append(dec_string(n).as_str());
        proof {
            assert(s@ =~= seq!['0'] + dec_digits(n as nat));
        }
        s
    } else {
        dec_string(n)
    }
}

/// Render `total_seconds` as `HHh:MMm:SSs` — hours as wide as needed,
/// minutes and seconds always two digits.
pub fn format_elapsed_time(total_seconds: u64) -> (r: String)
    ensures
        r@ == elapsed_format(total_seconds as nat),
{
    proof {
        reveal_strlit("h:");
        reveal_strlit("m:");
        reveal_strlit("s");
    }
    let hours = total_seconds / 3600;
    let minutes = (total_seconds % 3600) / 60;
    let seconds = total_seconds % 60;
    let mut out = padded2_string(hours);
    out.append("h:");
    out.append(padded2_string(minutes).as_str());
    out.append("m:");
    out.append(padded2_string(seconds).as_str());
    out.append("s");
    proof {
        assert(out@ =~= elapsed_format(total_seconds as nat));
    }
    out
}

} // verus!
