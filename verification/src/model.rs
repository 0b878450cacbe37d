//! Mathematical model of the rendered text: decimal digit strings, trimmed
//! fraction strings, and the exact character sequence produced for a given
//! seconds/nanoseconds pair.

use vstd::prelude::*;

verus! {

/// The decimal digit character for a value between 0 and 9.
pub open spec fn spec_digit(d: int) -> char {
    if d == 0 {
        '0'
    } else if d == 1 {
        '1'
    } else if d == 2 {
        '2'
    } else if d == 3 {
        '3'
    } else if d == 4 {
        '4'
    } else if d == 5 {
        '5'
    } else if d == 6 {
        '6'
    } else if d == 7 {
        '7'
    } else if d == 8 {
        '8'
    } else {
        '9'
    }
}

/// The numeric value of a decimal digit character, or -1 for any other
/// character.
pub open spec fn spec_char_val(c: char) -> int {
    if c == '0' {
        0
    } else if c == '1' {
        1
    } else if c == '2' {
        2
    } else if c == '3' {
        3
    } else if c == '4' {
        4
    } else if c == '5' {
        5
    } else if c == '6' {
        6
    } else if c == '7' {
        7
    } else if c == '8' {
        8
    } else if c == '9' {
        9
    } else {
        -1
    }
}

/// Ten to the power `n`.
pub open spec fn pow10(n: nat) -> int
    decreases n,
{
    if n == 0 {
        1
    } else {
        10 * pow10((n - 1) as nat)
    }
}

/// The ordinary decimal rendering of a non-negative integer: no sign, no
/// leading zeros, a single '0' for zero.
pub open spec fn spec_int_string(v: int) -> Seq<char>
    recommends
        0 <= v,
    decreases v,
{
    if v < 10 {
        seq![spec_digit(v)]
    } else {
        spec_int_string(v / 10).push(spec_digit(v % 10))
    }
}

/// The low `prec` decimal digits of `v`, zero-padded on the left to exactly
/// `prec` characters.
pub open spec fn spec_full_digits(v: int, prec: nat) -> Seq<char>
    decreases prec,
{
    if prec == 0 {
        Seq::<char>::empty()
    } else {
        spec_full_digits(v / 10, (prec - 1) as nat).push(spec_digit(v % 10))
    }
}

/// The low `prec` decimal digits of `v`, zero-padded on the left, with
/// trailing zeros removed; empty when all `prec` digits are zero.
pub open spec fn spec_trimmed_frac(v: int, prec: nat) -> Seq<char>
    decreases prec,
{
    if prec == 0 {
        Seq::<char>::empty()
    } else if v % 10 == 0 {
        spec_trimmed_frac(v / 10, (prec - 1) as nat)
    } else {
        spec_full_digits(v / 10, (prec - 1) as nat).push(spec_digit(v % 10))
    }
}

/// The rendered fraction of `v / 10^prec`: a decimal point followed by the
/// trimmed fraction digits, or nothing at all when the fraction is zero.
pub open spec fn spec_frac_part(v: int, prec: nat) -> Seq<char> {
    if spec_trimmed_frac(v, prec).len() == 0 {
        Seq::<char>::empty()
    } else {
        seq!['.'] + spec_trimmed_frac(v, prec)
    }
}

/// The numeric value of a string of decimal digit characters, most
/// significant first.
pub open spec fn spec_digits_val(s: Seq<char>) -> int
    decreases s.len(),
{
    if s.len() == 0 {
        0
    } else {
        spec_digits_val(s.drop_last()) * 10 + spec_char_val(s.last())
    }
}

/// The value, in the unit whose whole step is `10^prec`, represented by an
/// integer digit group together with a rendered fraction (empty, or a point
/// followed by the fraction digits with trailing zeros trimmed).
pub open spec fn spec_rendered_value(int_digits: Seq<char>, frac: Seq<char>, prec: nat) -> int {
    let frac_digits = if frac.len() == 0 {
        Seq::<char>::empty()
    } else {
        frac.drop_first()
    };
    spec_digits_val(int_digits) * pow10(prec) + spec_digits_val(frac_digits) * pow10(
        (prec - frac_digits.len()) as nat,
    )
}

/// The full rendering of a duration of `secs` seconds plus `nanos`
/// nanoseconds. Sub-second durations pick the largest unit that keeps the
/// leading digit non-zero; otherwise hours, minutes and seconds are emitted,
/// zero leading units omitted, with the nanoseconds as a trimmed 9-digit
/// fraction of the seconds.
pub open spec fn spec_duration_string(secs: int, nanos: int) -> Seq<char>
    recommends
        0 <= secs,
        0 <= nanos < 1_000_000_000,
{
    if secs == 0 {
        if nanos == 0 {
            seq!['0', 's']
        } else if nanos < 1_000 {
            spec_int_string(nanos) + seq!['n', 's']
        } else if nanos < 1_000_000 {
            spec_int_string(nanos / 1_000) + spec_frac_part(nanos, 3) + seq!['\u{b5}', 's']
        } else {
            spec_int_string(nanos / 1_000_000) + spec_frac_part(nanos, 6) + seq!['m', 's']
        }
    } else {
        let mins: int = secs / 60;
        let hours: int = mins / 60;
        (if hours > 0 {
            spec_int_string(hours) + seq!['h']
        } else {
            Seq::<char>::empty()
        }) + (if mins > 0 {
            spec_int_string(mins % 60) + seq!['m']
        } else {
            Seq::<char>::empty()
        }) + spec_int_string(secs % 60) + spec_frac_part(nanos, 9) + seq!['s']
    }
}

/// The powers of ten the renderer scales by.
pub proof fn lemma_pow10_values()
    ensures
        pow10(0) == 1,
        pow10(3) == 1_000,
        pow10(6) == 1_000_000,
        pow10(9) == 1_000_000_000,
{
    reveal_with_fuel(pow10, 10);
}

/// Ten to any power is positive.
pub proof fn lemma_pow10_pos(n: nat)
    ensures
        pow10(n) >= 1,
    decreases n,
{
    if n > 0 {
        lemma_pow10_pos((n - 1) as nat);
    }
}

} // verus!
