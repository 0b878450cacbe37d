//! Properties of the rendering model that hold for every input: digit
//! strings read back to the value they render, fractions are trimmed, and
//! no zero-valued unit segment is ever emitted in front.

use vstd::prelude::*;

use vstd::arithmetic::div_mod::lemma_breakdown;
use vstd::arithmetic::div_mod::lemma_div_pos_is_pos;
use vstd::arithmetic::div_mod::lemma_fundamental_div_mod;
use vstd::arithmetic::mul::lemma_mul_is_associative;
use vstd::arithmetic::mul::lemma_mul_is_commutative;

use crate::model::lemma_pow10_pos;
use crate::model::lemma_pow10_values;
use crate::model::pow10;
use crate::model::spec_char_val;
use crate::model::spec_digit;
use crate::model::spec_digits_val;
use crate::model::spec_duration_string;
use crate::model::spec_frac_part;
use crate::model::spec_full_digits;
use crate::model::spec_int_string;
use crate::model::spec_rendered_value;
use crate::model::spec_trimmed_frac;

verus! {

/// A digit character carries the digit it was made from.
proof fn lemma_digit_val(d: int)
    requires
        0 <= d < 10,
    ensures
        spec_char_val(spec_digit(d)) == d,
{
}

/// The decimal rendering of a non-negative integer is non-empty and reads
/// back to exactly that integer.
pub proof fn lemma_int_string_val(v: int)
    requires
        0 <= v,
    ensures
        spec_int_string(v).len() >= 1,
        spec_digits_val(spec_int_string(v)) == v,
    decreases v,
{
    let s = spec_int_string(v);
    if v < 10 {
        assert(s.drop_last() =~= Seq::<char>::empty());
        assert(spec_digits_val(Seq::<char>::empty()) == 0);
        lemma_digit_val(v);
    } else {
        lemma_int_string_val(v / 10);
        let t = spec_int_string(v / 10);
        assert(s.drop_last() =~= t);
        assert(s.last() == spec_digit(v % 10));
        lemma_digit_val(v % 10);
    }
}

/// A positive integer renders with a non-zero leading digit.
pub proof fn lemma_int_string_leading(v: int)
    requires
        0 < v,
    ensures
        spec_int_string(v).len() >= 1,
        1 <= spec_char_val(spec_int_string(v)[0]) <= 9,
    decreases v,
{
    if v < 10 {
        lemma_digit_val(v);
    } else {
        lemma_int_string_leading(v / 10);
        assert(spec_int_string(v)[0] == spec_int_string(v / 10)[0]);
    }
}

/// A trimmed fraction never ends in a zero digit.
proof fn lemma_trimmed_no_trailing_zero(v: int, prec: nat)
    ensures
        spec_trimmed_frac(v, prec).len() > 0 ==> spec_trimmed_frac(v, prec).last() != '0',
    decreases prec,
{
    if prec > 0 {
        if v % 10 == 0 {
            lemma_trimmed_no_trailing_zero(v / 10, (prec - 1) as nat);
        } else {
            lemma_digit_val(v % 10);
        }
    }
}

/// The rendered fraction is never a bare decimal point and never carries a
/// trailing zero: it is either absent, or a point followed by at least one
/// digit of which the last is not '0'.
pub proof fn lemma_fraction_trimmed(v: int, prec: nat)
    ensures
        spec_frac_part(v, prec).len() == 0 || (spec_frac_part(v, prec)[0] == '.'
            && spec_frac_part(v, prec).len() >= 2 && spec_frac_part(v, prec).last() != '0'),
{
    lemma_trimmed_no_trailing_zero(v, prec);
    let t = spec_trimmed_frac(v, prec);
    if t.len() > 0 {
        assert(spec_frac_part(v, prec).last() == t.last());
    }
}

/// The zero-padded low digits of a value read back to that value reduced
/// modulo the rendered width.
proof fn lemma_full_digits_val(v: int, prec: nat)
    requires
        0 <= v,
    ensures
        spec_full_digits(v, prec).len() == prec,
        spec_digits_val(spec_full_digits(v, prec)) == v % pow10(prec),
    decreases prec,
{
    let s = spec_full_digits(v, prec);
    if prec == 0 {
        assert(pow10(0) == 1);
        assert(spec_digits_val(Seq::<char>::empty()) == 0);
    } else {
        lemma_full_digits_val(v / 10, (prec - 1) as nat);
        let t = spec_full_digits(v / 10, (prec - 1) as nat);
        assert(s.drop_last() =~= t);
        assert(s.last() == spec_digit(v % 10));
        lemma_digit_val(v % 10);
        lemma_pow10_pos((prec - 1) as nat);
        lemma_breakdown(v, 10, pow10((prec - 1) as nat));
        assert(pow10(prec) == 10 * pow10((prec - 1) as nat));
    }
}

/// The trimmed fraction digits, scaled back up by the width that was
/// trimmed away, read back to the value reduced modulo the rendered width.
proof fn lemma_trimmed_val(v: int, prec: nat)
    requires
        0 <= v,
    ensures
        spec_trimmed_frac(v, prec).len() <= prec,
        spec_digits_val(spec_trimmed_frac(v, prec)) * pow10(
            (prec - spec_trimmed_frac(v, prec).len()) as nat,
        ) == v % pow10(prec),
    decreases prec,
{
    let t = spec_trimmed_frac(v, prec);
    if prec == 0 {
        assert(pow10(0) == 1);
        assert(spec_digits_val(Seq::<char>::empty()) == 0);
    } else if v % 10 == 0 {
        lemma_trimmed_val(v / 10, (prec - 1) as nat);
        let a = spec_digits_val(t);
        let k = pow10((prec - 1 - t.len()) as nat);
        lemma_pow10_pos((prec - 1) as nat);
        lemma_breakdown(v, 10, pow10((prec - 1) as nat));
        assert(pow10((prec - t.len()) as nat) == 10 * k);
        lemma_mul_is_associative(a, 10, k);
        lemma_mul_is_commutative(a, 10);
        lemma_mul_is_associative(10, a, k);
        assert(a * (10 * k) == 10 * (a * k));
    } else {
        lemma_full_digits_val(v / 10, (prec - 1) as nat);
        let f = spec_full_digits(v / 10, (prec - 1) as nat);
        assert(t.drop_last() =~= f);
        assert(t.last() == spec_digit(v % 10));
        lemma_digit_val(v % 10);
        lemma_pow10_pos((prec - 1) as nat);
        lemma_breakdown(v, 10, pow10((prec - 1) as nat));
        assert(pow10(prec) == 10 * pow10((prec - 1) as nat));
        assert(pow10((prec - t.len()) as nat) == 1);
    }
}

/// Round trip within one unit: the integer digits of `v / 10^prec` together
/// with the trimmed fraction of `v` at width `prec` read back to exactly
/// `v`.
pub proof fn lemma_unit_round_trip(v: int, prec: nat)
    requires
        0 <= v,
    ensures
        spec_rendered_value(spec_int_string(v / pow10(prec)), spec_frac_part(v, prec), prec) == v,
{
    lemma_pow10_pos(prec);
    lemma_div_pos_is_pos(v, pow10(prec));
    lemma_int_string_val(v / pow10(prec));
    lemma_trimmed_val(v, prec);
    let q = v / pow10(prec);
    let t = spec_trimmed_frac(v, prec);
    let frac = spec_frac_part(v, prec);
    lemma_fundamental_div_mod(v, pow10(prec));
    lemma_mul_is_commutative(q, pow10(prec));
    if t.len() == 0 {
        assert(spec_digits_val(Seq::<char>::empty()) == 0);
    } else {
        assert(frac.drop_first() =~= t);
    }
}

/// A duration other than zero never renders with a leading zero digit: a
/// unit segment whose value is zero is suppressed, never printed in front.
pub proof fn lemma_no_leading_zero(secs: int, nanos: int)
    requires
        0 <= secs,
        0 <= nanos < 1_000_000_000,
        secs != 0 || nanos != 0,
    ensures
        spec_duration_string(secs, nanos).len() > 0,
        1 <= spec_char_val(spec_duration_string(secs, nanos)[0]) <= 9,
{
    let s = spec_duration_string(secs, nanos);
    if secs == 0 {
        if nanos < 1_000 {
            lemma_int_string_leading(nanos);
            assert(s[0] == spec_int_string(nanos)[0]);
        } else if nanos < 1_000_000 {
            lemma_int_string_leading(nanos / 1_000);
            assert(s[0] == spec_int_string(nanos / 1_000)[0]);
        } else {
            lemma_int_string_leading(nanos / 1_000_000);
            assert(s[0] == spec_int_string(nanos / 1_000_000)[0]);
        }
    } else {
        let mins: int = secs / 60;
        let hours: int = mins / 60;
        if hours > 0 {
            lemma_int_string_leading(hours);
            assert(s[0] == spec_int_string(hours)[0]);
        } else if mins > 0 {
            lemma_int_string_leading(mins % 60);
            assert(s[0] == spec_int_string(mins % 60)[0]);
        } else {
            lemma_int_string_leading(secs % 60);
            assert(s[0] == spec_int_string(secs % 60)[0]);
        }
    }
}

/// Round trip of the whole rendering: reading the emitted numeric segments
/// back as decimal values and recombining them by the unit suffix yields
/// exactly the seconds and nanoseconds that were formatted. Sub-second
/// renderings read back to the nanosecond count in the chosen unit's scale;
/// multi-unit renderings recombine hours, minutes, seconds and the
/// nine-digit fraction into the original value.
pub proof fn lemma_round_trip(secs: int, nanos: int)
    requires
        0 <= secs,
        0 <= nanos < 1_000_000_000,
    ensures
        secs == 0 && nanos == 0 ==> spec_duration_string(secs, nanos) == seq!['0', 's'],
        secs == 0 && 0 < nanos < 1_000 ==> {
            &&& spec_duration_string(secs, nanos) == spec_int_string(nanos) + seq!['n', 's']
            &&& spec_digits_val(spec_int_string(nanos)) == nanos
        },
        secs == 0 && 1_000 <= nanos < 1_000_000 ==> {
            &&& spec_duration_string(secs, nanos) == spec_int_string(nanos / 1_000)
                + spec_frac_part(nanos, 3) + seq!['\u{b5}', 's']
            &&& spec_rendered_value(spec_int_string(nanos / 1_000), spec_frac_part(nanos, 3), 3)
                == nanos
        },
        secs == 0 && 1_000_000 <= nanos ==> {
            &&& spec_duration_string(secs, nanos) == spec_int_string(nanos / 1_000_000)
                + spec_frac_part(nanos, 6) + seq!['m', 's']
            &&& spec_rendered_value(
                spec_int_string(nanos / 1_000_000),
                spec_frac_part(nanos, 6),
                6,
            ) == nanos
        },
        secs > 0 ==> {
            &&& spec_rendered_value(spec_int_string(secs % 60), spec_frac_part(nanos, 9), 9) == (
            secs % 60) * 1_000_000_000 + nanos
            &&& (secs / 60 / 60) * 3600 + ((secs / 60) % 60) * 60 + secs % 60 == secs
        },
{
    lemma_pow10_values();
    if secs == 0 {
        if nanos == 0 {
        } else if nanos < 1_000 {
            lemma_int_string_val(nanos);
        } else if nanos < 1_000_000 {
            lemma_unit_round_trip(nanos, 3);
        } else {
            lemma_unit_round_trip(nanos, 6);
        }
    } else {
        lemma_int_string_val(secs % 60);
        lemma_trimmed_val(nanos, 9);
        let t = spec_trimmed_frac(nanos, 9);
        let frac = spec_frac_part(nanos, 9);
        if t.len() == 0 {
            assert(spec_digits_val(Seq::<char>::empty()) == 0);
        } else {
            assert(frac.drop_first() =~= t);
        }
        assert(nanos % pow10(9) == nanos);
    }
}

} // verus!
