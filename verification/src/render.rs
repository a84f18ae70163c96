use vstd::prelude::*;

verus! {

use vstd::string::StringExecFns;

/// The decimal digit character for `d`, as a one-character sequence.
pub open spec fn digit_str(d: int) -> Seq<char> {
    if d == 0 {
        "0"@
    } else if d == 1 {
        "1"@
    } else if d == 2 {
        "2"@
    } else if d == 3 {
        "3"@
    } else if d == 4 {
        "4"@
    } else if d == 5 {
        "5"@
    } else if d == 6 {
        "6"@
    } else if d == 7 {
        "7"@
    } else if d == 8 {
        "8"@
    } else {
        "9"@
    }
}

/// The decimal digits of `n`, most significant first.
pub open spec fn dec_digits(n: int) -> Seq<char>
    decreases n,
{
    if n < 10 {
        digit_str(n)
    } else {
        dec_digits(n / 10) + digit_str(n % 10)
    }
}

/// The decimal rendering of `x`: a minus sign for negatives, then digits.
pub open spec fn dec_of(x: int) -> Seq<char> {
    if x < 0 {
        "-"@ + dec_digits(-x)
    } else {
        dec_digits(x)
    }
}

fn digit_char(d: u64) -> (r: &'static str)
    requires
        d < 10,
    ensures
        r@ == digit_str(d as int),
{
    if d == 0 {
        "0"
    } else if d == 1 {
        "1"
    } else if d == 2 {
        "2"
    } else if d == 3 {
        "3"
    } else if d == 4 {
        "4"
    } else if d == 5 {
        "5"
    } else if d == 6 {
        "6"
    } else if d == 7 {
        "7"
    } else if d == 8 {
        "8"
    } else {
        "9"
    }
}

/// Appends the decimal digits of `n` to `s`.
pub fn push_u64(s: &mut String, n: u64)
    ensures
        final(s)@ == old(s)@ + dec_digits(n as int),
    decreases n,
{
    if n >= 10 {
        push_u64(s, n / 10);
        let d = digit_char(n % 10);
        s.append(d);
        proof {
            assert(final(s)@ =~= old(s)@ + dec_digits(n as int));
        }
    } else {
        let d = digit_char(n);
        s.append(d);
    }
}

/// Appends the decimal digits of `n` to `s`.
pub fn push_usize(s: &mut String, n: usize)
    ensures
        final(s)@ == old(s)@ + dec_digits(n as int),
{
    push_u64(s, n as u64);
}

/// Appends the decimal rendering of `x` to `s`, minus sign included.
pub fn push_i64(s: &mut String, x: i64)
    ensures
        final(s)@ == old(s)@ + dec_of(x as int),
{
    if x < 0 {
        s.append("-");
        let wide: i128 = -(x as i128);
        let m: u64 = wide as u64;
        push_u64(s, m);
        proof {
            assert(final(s)@ =~= old(s)@ + dec_of(x as int));
        }
    } else {
        push_u64(s, x as u64);
    }
}

} // verus!
