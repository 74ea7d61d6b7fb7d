//! Decimal rendering of the fixed-point quantities the protocol prints.
//!
//! Coordinates are held in half-tenths of a machine unit and printed with
//! exactly one decimal digit; a half-tenth that falls between two printable
//! tenths is rounded away from zero. Wait durations are held in milliseconds
//! and printed as seconds with the trailing zeros of the fraction removed,
//! and no fraction at all for whole seconds.

use vstd::prelude::*;

verus! {

/// The decimal digit character for a value in `0..10`.
pub open spec fn digit_char(d: int) -> char {
    if d == 0 {
        '0'
    } else if d == 1 {
        '1'
    } else if d == 2 {
        '2'
    } else if d == 3 {
        '3'
    } else if d == 4 {
        '4'
    } else if d == 5 {
        '5'
    } else if d == 6 {
        '6'
    } else if d == 7 {
        '7'
    } else if d == 8 {
        '8'
    } else {
        '9'
    }
}

/// The decimal digits of a non-negative integer, most significant first.
pub open spec fn dec_digits(n: nat) -> Seq<char>
    decreases n,
{
    if n < 10 {
        seq![digit_char(n as int)]
    } else {
        dec_digits(n / 10).push(digit_char((n % 10) as int))
    }
}

/// The printed tenths value of a coordinate held in half-tenths: halving,
/// with a half that falls between two tenths rounded away from zero.
pub open spec fn coord_tenths(v: int) -> int {
    if v >= 0 {
        (v + 1) / 2
    } else {
        -(((-v) + 1) / 2)
    }
}

/// A non-negative tenths count rendered with one decimal digit.
pub open spec fn fmt_tenths_abs(a: int) -> Seq<char>
    recommends
        a >= 0,
{
    dec_digits((a / 10) as nat) + seq!['.'] + seq![digit_char(a % 10)]
}

/// A coordinate in half-tenths rendered as a signed one-decimal number.
pub open spec fn fmt_coord(v: int) -> Seq<char> {
    if coord_tenths(v) < 0 {
        seq!['-'] + fmt_tenths_abs(-coord_tenths(v))
    } else {
        fmt_tenths_abs(coord_tenths(v))
    }
}

/// The fractional digits of a millisecond remainder in `1..1000`, with
/// trailing zeros removed.
pub open spec fn frac_digits(f: int) -> Seq<char>
    recommends
        1 <= f < 1000,
{
    if f % 10 != 0 {
        seq![digit_char(f / 100), digit_char((f / 10) % 10), digit_char(f % 10)]
    } else if (f / 10) % 10 != 0 {
        seq![digit_char(f / 100), digit_char((f / 10) % 10)]
    } else {
        seq![digit_char(f / 100)]
    }
}

/// A millisecond count rendered as decimal seconds, with no fraction for a
/// whole number of seconds and no trailing zeros otherwise.
pub open spec fn fmt_seconds(ms: nat) -> Seq<char> {
    if ms % 1000 == 0 {
        dec_digits(ms / 1000)
    } else {
        dec_digits(ms / 1000) + seq!['.'] + frac_digits((ms % 1000) as int)
    }
}

/// The one-character string for a decimal digit value.
fn digit_str(d: u64) -> (r: &'static str)
    requires
        d < 10,
    ensures
        r@ == seq![digit_char(d as int)],
{
    proof {
        reveal_strlit("0");
        reveal_strlit("1");
        reveal_strlit("2");
        reveal_strlit("3");
        reveal_strlit("4");
        reveal_strlit("5");
        reveal_strlit("6");
        reveal_strlit("7");
        reveal_strlit("8");
        reveal_strlit("9");
    }
    if d == 0 {
        "0"
    } else if d == 1 {
        "1"
    } else if d == 2 {
        "2"
    } else if d == 3 {
        "3"
    } else if d == 4 {
        "4"
    } else if d == 5 {
        "5"
    } else if d == 6 {
        "6"
    } else if d == 7 {
        "7"
    } else if d == 8 {
        "8"
    } else {
        "9"
    }
}

/// Appends the decimal digits of `n` to `s`.
pub fn push_u64(s: &mut String, n: u64)
    ensures
        final(s)@ == old(s)@ + dec_digits(n as nat),
    decreases n,
{
    if n >= 10 {
        push_u64(s, n / 10);
        let d = digit_str(n % 10);
        s.append(d);
        proof {
            assert(dec_digits(n as nat) == dec_digits(n as nat / 10).push(
                digit_char((n % 10) as int),
            ));
            assert(final(s)@ =~= old(s)@ + dec_digits(n as nat));
        }
    } else {
        let d = digit_str(n);
        s.append(d);
        proof {
            assert(final(s)@ =~= old(s)@ + dec_digits(n as nat));
        }
    }
}

/// Appends a non-negative tenths count with one decimal digit.
fn push_tenths_abs(s: &mut String, a: u64)
    ensures
        final(s)@ == old(s)@ + fmt_tenths_abs(a as int),
{
    push_u64(s, a / 10);
    s.append(".");
    let d = digit_str(a % 10);
    s.append(d);
    proof {
        reveal_strlit(".");
        assert(final(s)@ =~= old(s)@ + fmt_tenths_abs(a as int));
    }
}

/// Appends a coordinate held in half-tenths, printed as a signed
/// one-decimal number.
pub fn push_coord(s: &mut String, v: i64)
    ensures
        final(s)@ == old(s)@ + fmt_coord(v as int),
{
    if v >= 0 {
        let a: u64 = v as u64;
        let t: u64 = (a + 1) / 2;
        assert(t as int == coord_tenths(v as int));
        push_tenths_abs(s, t);
    } else {
        let neg: u64 = ((-(v + 1)) as u64) + 1;
        assert(neg as int == -(v as int));
        let t: u64 = (neg + 1) / 2;
        assert(t as int == -coord_tenths(v as int) && t >= 1);
        s.append("-");
        push_tenths_abs(s, t);
        proof {
            reveal_strlit("-");
            assert(final(s)@ =~= old(s)@ + fmt_coord(v as int));
        }
    }
}

/// Appends a millisecond count printed as decimal seconds.
pub fn push_seconds(s: &mut String, ms: u64)
    ensures
        final(s)@ == old(s)@ + fmt_seconds(ms as nat),
{
    push_u64(s, ms / 1000);
    let f = ms % 1000;
    if f != 0 {
        s.append(".");
        let d1 = digit_str(f / 100);
        let d2 = digit_str((f / 10) % 10);
        let d3 = digit_str(f % 10);
        if f % 10 != 0 {
            s.append(d1);
            s.append(d2);
            s.append(d3);
        } else if (f / 10) % 10 != 0 {
            s.append(d1);
            s.append(d2);
        } else {
            s.append(d1);
        }
        proof {
            reveal_strlit(".");
            assert(final(s)@ =~= old(s)@ + fmt_seconds(ms as nat));
        }
    }
}

} // verus!
