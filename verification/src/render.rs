//! Executable rendering of durations, verified against the model: digit
//! groups and fractions are produced least-significant digit first and the
//! final string is assembled in left-to-right order.

use vstd::prelude::*;

use crate::model::pow10;
use crate::model::lemma_pow10_pos;
use crate::model::spec_digit;
use crate::model::spec_duration_string;
use crate::model::spec_frac_part;
use crate::model::spec_full_digits;
use crate::model::spec_int_string;
use crate::model::spec_trimmed_frac;

verus! {

/// A non-negative span of elapsed time: whole seconds plus a sub-second
/// nanosecond remainder, which a well-formed value keeps below one second.
#[derive(Clone, Copy, Debug, PartialEq, Eq, Structural)]
pub struct Duration {
    pub secs: u64,
    pub nanos: u32,
}

impl Duration {
    /// The nanosecond remainder stays strictly below one full second.
    pub open spec fn wf(self) -> bool {
        self.nanos < 1_000_000_000
    }

    pub fn new(secs: u64, nanos: u32) -> (d: Duration)
        requires
            nanos < 1_000_000_000,
        ensures
            d.secs == secs,
            d.nanos == nanos,
            d.wf(),
    {
        Duration { secs, nanos }
    }

    pub fn as_secs(&self) -> (r: u64)
        ensures
            r == self.secs,
    {
        self.secs
    }

    pub fn subsec_nanos(&self) -> (r: u32)
        ensures
            r == self.nanos,
    {
        self.nanos
    }
}

/// The character for one decimal digit.
fn digit_char(d: u64) -> (c: char)
    requires
        d < 10,
    ensures
        c == spec_digit(d as int),
{
    match d {
        0 => '0',
        1 => '1',
        2 => '2',
        3 => '3',
        4 => '4',
        5 => '5',
        6 => '6',
        7 => '7',
        8 => '8',
        _ => '9',
    }
}

/// Renders a non-negative integer as decimal digits, without leading zeros;
/// zero renders as the single digit '0'.
pub fn fmt_int(v: u64) -> (digits: Vec<char>)
    ensures
        digits@ == spec_int_string(v as int),
{
    let mut out: Vec<char> = Vec::new();
    if v == 0 {
        out.push('0');
        assert(out@ =~= spec_int_string(0));
        return out;
    }
    let mut cur: u64 = v;
    assert(spec_int_string(v as int) =~= spec_int_string(v as int) + out@);
    while cur > 0
        invariant
            v > 0,
            cur > 0 ==> spec_int_string(v as int) == spec_int_string(cur as int) + out@,
            cur == 0 ==> spec_int_string(v as int) == out@,
        decreases cur,
    {
        let d = cur % 10;
        let c = digit_char(d);
        let ghost prev = out@;
        let ghost prev_cur = cur as int;
        out.insert(0, c);
        proof {
            assert(out@ =~= seq![c] + prev);
            if prev_cur >= 10 {
                assert(spec_int_string(prev_cur) =~= spec_int_string(prev_cur / 10) + seq![c]);
                assert(spec_int_string(prev_cur / 10) + seq![c] + prev =~= spec_int_string(
                    prev_cur / 10,
                ) + (seq![c] + prev));
            } else {
                assert(spec_int_string(prev_cur) =~= seq![c]);
            }
        }
        cur = cur / 10;
    }
    out
}

/// Renders the fraction of `v / 10^prec`: up to `prec` digits after a
/// decimal point, trailing zeros dropped, and the point itself dropped when
/// the whole fraction is zero. Also returns `v / 10^prec`, the integer part
/// left over for the caller to render.
pub fn fmt_frac(v: u64, prec: u8) -> (r: (Vec<char>, u64))
    ensures
        r.0@ == spec_frac_part(v as int, prec as nat),
        r.1 == v as int / pow10(prec as nat),
{
    let mut out: Vec<char> = Vec::new();
    let mut cur: u64 = v;
    let mut printing: bool = false;
    let mut i: u8 = 0;
    while i < prec
        invariant
            i <= prec,
            cur == v as int / pow10(i as nat),
            printing ==> out@.len() > 0,
            !printing ==> out@.len() == 0,
            printing ==> spec_trimmed_frac(v as int, prec as nat) == spec_full_digits(
                cur as int,
                (prec - i) as nat,
            ) + out@,
            !printing ==> spec_trimmed_frac(v as int, prec as nat) == spec_trimmed_frac(
                cur as int,
                (prec - i) as nat,
            ),
        decreases prec - i,
    {
        let d = cur % 10;
        let ghost prev = out@;
        let ghost prev_cur = cur as int;
        let ghost was_printing = printing;
        let ghost rest: nat = (prec - i) as nat;
        if d != 0 {
            printing = true;
        }
        if printing {
            let c = digit_char(d);
            out.insert(0, c);
            proof {
                assert(out@ =~= seq![c] + prev);
            }
        }
        proof {
            let c = spec_digit(prev_cur % 10);
            if was_printing {
                assert(spec_full_digits(prev_cur, rest) =~= spec_full_digits(
                    prev_cur / 10,
                    (rest - 1) as nat,
                ) + seq![c]);
                assert(spec_full_digits(prev_cur / 10, (rest - 1) as nat) + seq![c] + prev
                    =~= spec_full_digits(prev_cur / 10, (rest - 1) as nat) + (seq![c] + prev));
            } else if prev_cur % 10 != 0 {
                assert(spec_trimmed_frac(prev_cur, rest) =~= spec_full_digits(
                    prev_cur / 10,
                    (rest - 1) as nat,
                ) + seq![c]);
            }
            lemma_pow10_pos(i as nat);
            vstd::arithmetic::div_mod::lemma_div_denominator(v as int, pow10(i as nat), 10);
            assert(pow10((i + 1) as nat) == pow10(i as nat) * 10);
        }
        cur = cur / 10;
        i = i + 1;
    }
    if printing {
        let ghost prev = out@;
        out.insert(0, '.');
        proof {
            assert(spec_full_digits(cur as int, 0) =~= Seq::<char>::empty());
            assert(spec_trimmed_frac(v as int, prec as nat) =~= prev);
            assert(out@ =~= seq!['.'] + prev);
        }
    } else {
        proof {
            assert(spec_trimmed_frac(v as int, prec as nat) =~= Seq::<char>::empty());
        }
    }
    (out, cur)
}

/// Relies on `String::push`: it appends the given character to the end of
/// the string.
#[verifier::external_body]
fn push_char(s: &mut String, c: char)
    ensures
        final(s)@ == old(s)@.push(c),
{
    s.push(c);
}

/// Builds the string holding exactly the given characters, in order.
fn chars_to_string(chars: &Vec<char>) -> (s: String)
    ensures
        s@ == chars@,
{
    let mut s = String::new();
    let mut i: usize = 0;
    while i < chars.len()
        invariant
            i <= chars@.len(),
            s@ == chars@.subrange(0, i as int),
        decreases chars@.len() - i,
    {
        push_char(&mut s, chars[i]);
        i = i + 1;
        assert(s@ =~= chars@.subrange(0, i as int));
    }
    assert(chars@.subrange(0, chars@.len() as int) =~= chars@);
    s
}

/// Renders a duration in the form "72h3m0.5s". Leading zero units are
/// omitted; durations under one second use a smaller unit (milli-, micro-
/// or nanoseconds) so that the leading digit is non-zero; the zero duration
/// renders as "0s".
pub fn to_string(d: Duration) -> (s: String)
    requires
        d.wf(),
    ensures
        s@ == spec_duration_string(d.secs as int, d.nanos as int),
{
    let secs = d.as_secs();
    let nanos = d.subsec_nanos();
    let mut out: Vec<char> = Vec::new();
    if secs == 0 {
        if nanos == 0 {
            out.push('0');
            out.push('s');
            assert(out@ =~= spec_duration_string(0, 0));
            return chars_to_string(&out);
        }
        if nanos < 1_000 {
            let mut ip = fmt_int(nanos as u64);
            out.append(&mut ip);
            out.push('n');
            out.push('s');
        } else if nanos < 1_000_000 {
            let (mut frac, q) = fmt_frac(nanos as u64, 3);
            proof {
                crate::model::lemma_pow10_values();
            }
            let mut ip = fmt_int(q);
            out.append(&mut ip);
            out.append(&mut frac);
            out.push('\u{b5}');
            out.push('s');
        } else {
            let (mut frac, q) = fmt_frac(nanos as u64, 6);
            proof {
                crate::model::lemma_pow10_values();
            }
            let mut ip = fmt_int(q);
            out.append(&mut ip);
            out.append(&mut frac);
            out.push('m');
            out.push('s');
        }
        assert(out@ =~= spec_duration_string(secs as int, nanos as int));
        return chars_to_string(&out);
    }
    let (mut frac, _q) = fmt_frac(nanos as u64, 9);
    let mins = secs / 60;
    if mins > 0 {
        let hours = mins / 60;
        if hours > 0 {
            let mut hd = fmt_int(hours);
            out.append(&mut hd);
            out.push('h');
        }
        let mut md = fmt_int(mins % 60);
        out.append(&mut md);
        out.push('m');
    }
    let mut sd = fmt_int(secs % 60);
    out.append(&mut sd);
    out.append(&mut frac);
    out.push('s');
    assert(out@ =~= spec_duration_string(secs as int, nanos as int));
    chars_to_string(&out)
}

} // verus!
