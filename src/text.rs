//! Decimal numbers as fixed-point text, padded to a column width.

use vstd::prelude::*;
use crate::decimal::{abs, pow10, rounded, Decimal};

verus! {

/// The character of the last decimal digit of `n`.
pub open spec fn digit(n: nat) -> char {
    seq!['0', '1', '2', '3', '4', '5', '6', '7', '8', '9'][(n % 10) as int]
}

/// The decimal digits of `n`, without leading zeros (`0` is "0").
pub open spec fn nat_text(n: nat) -> Seq<char>
    decreases n,
{
    if n < 10 {
        seq![digit(n)]
    } else {
        nat_text(n / 10).push(digit(n))
    }
}

/// The last `w` decimal digits of `n`, leading zeros kept.
pub open spec fn padded_digits(n: nat, w: nat) -> Seq<char>
    decreases w,
{
    if w == 0 {
        Seq::empty()
    } else {
        padded_digits(n / 10, (w - 1) as nat).push(digit(n))
    }
}

/// `k` copies of `c`.
pub open spec fn repeat(c: char, k: nat) -> Seq<char> {
    Seq::new(k, |i: int| c)
}

/// `m / 10^s` written with exactly `dp` fractional digits (`dp >= s`): a minus
/// sign when negative, the integer part, then a point and the fraction with
/// trailing zeros up to `dp` digits.
pub open spec fn fixed_text(m: int, s: nat, dp: nat) -> Seq<char> {
    let sign = if m < 0 { seq!['-'] } else { Seq::empty() };
    let whole = nat_text(abs(m) / pow10(s));
    if dp == 0 {
        sign + whole
    } else {
        sign + whole + seq!['.'] + padded_digits(abs(m) % pow10(s), s) + repeat('0', (dp - s) as nat)
    }
}

/// `t` with spaces in front up to `w` characters; a longer `t` is kept whole.
pub open spec fn pad_left(t: Seq<char>, w: nat) -> Seq<char> {
    if t.len() < w {
        repeat(' ', (w - t.len()) as nat) + t
    } else {
        t
    }
}

/// `d` rounded to `dp` fractional digits, written with exactly `dp` of them.
pub open spec fn decimal_text_fixed(d: Decimal, dp: nat) -> Seq<char> {
    let (m, s) = rounded(d, dp);
    fixed_text(m, s, dp)
}

fn digit_char(n: u128) -> (c: char)
    ensures
        c == digit(n as nat),
{
    let d = n % 10;
    if d == 0 {
        '0'
    } else if d == 1 {
        '1'
    } else if d == 2 {
        '2'
    } else if d == 3 {
        '3'
    } else if d == 4 {
        '4'
    } else if d == 5 {
        '5'
    } else if d == 6 {
        '6'
    } else if d == 7 {
        '7'
    } else if d == 8 {
        '8'
    } else {
        '9'
    }
}

fn push_nat_text(n: u128, out: &mut Vec<char>)
    ensures
        final(out)@ == old(out)@ + nat_text(n as nat),
    decreases n,
{
    if n >= 10 {
        push_nat_text(n / 10, out);
    }
    out.push(digit_char(n));
    proof {
        if n >= 10 {
            assert(old(out)@ + nat_text(n as nat) =~= old(out)@ + nat_text((n / 10) as nat) + seq![digit(n as nat)]);
        } else {
            assert(old(out)@ + nat_text(n as nat) =~= old(out)@ + seq![digit(n as nat)]);
        }
    }
}

fn push_padded_digits(n: u128, w: u32, out: &mut Vec<char>)
    ensures
        final(out)@ == old(out)@ + padded_digits(n as nat, w as nat),
    decreases w,
{
    if w > 0 {
        push_padded_digits(n / 10, w - 1, out);
        out.push(digit_char(n));
        assert(old(out)@ + padded_digits(n as nat, w as nat) =~= old(out)@ + padded_digits((n / 10) as nat, (w - 1) as nat) + seq![digit(n as nat)]);
    } else {
        assert(old(out)@ + padded_digits(n as nat, w as nat) =~= old(out)@);
    }
}

fn push_repeat(c: char, k: u32, out: &mut Vec<char>)
    ensures
        final(out)@ == old(out)@ + repeat(c, k as nat),
{
    let mut i: u32 = 0;
    while i < k
        invariant
            i <= k,
            out@ == old(out)@ + repeat(c, i as nat),
        decreases k - i,
    {
        out.push(c);
        i = i + 1;
        assert(out@ =~= old(out)@ + repeat(c, i as nat));
    }
}

/// `d` as text with exactly `dp` fractional digits.
fn fixed_chars(d: Decimal, dp: u32) -> (r: Vec<char>)
    requires
        d.wf(),
        d.scale <= dp,
    ensures
        r@ == fixed_text(d.mantissa as int, d.scale as nat, dp as nat),
{
    let mut out: Vec<char> = Vec::new();
    if d.mantissa < 0 {
        out.push('-');
    }
    let a: u128 = if d.mantissa < 0 { (-d.mantissa) as u128 } else { d.mantissa as u128 };
    assert(a as nat == abs(d.mantissa as int));
    let p = pow10_of_scale(d.scale);
    push_nat_text(a / p, &mut out);
    if dp > 0 {
        out.push('.');
        push_padded_digits(a % p, d.scale, &mut out);
        push_repeat('0', dp - d.scale, &mut out);
    }
    assert(out@ =~= fixed_text(d.mantissa as int, d.scale as nat, dp as nat));
    out
}

fn pow10_of_scale(s: u32) -> (r: u128)
    requires
        s <= 28,
    ensures
        r == pow10(s as nat),
        r > 0,
{
    proof {
        crate::decimal::lemma_pow10_monotone(0, s as nat);
    }
    crate::decimal::pow10_u128(s)
}

/// Relies on `String::push`: the character is appended.
#[verifier::external_body]
fn push_to_string(s: &mut String, c: char)
    ensures
        final(s)@ == old(s)@.push(c),
{
    s.push(c);
}

/// The characters `t`, with spaces in front up to `w` characters.
pub fn pad_chars(t: &Vec<char>, w: usize) -> (r: String)
    ensures
        r@ == pad_left(t@, w as nat),
{
    let mut r = String::new();
    if t.len() < w {
        let mut i: usize = t.len();
        while i < w
            invariant
                t.len() <= i <= w,
                r@ == repeat(' ', (i - t.len()) as nat),
            decreases w - i,
        {
            push_to_string(&mut r, ' ');
            i = i + 1;
            assert(r@ =~= repeat(' ', (i - t.len()) as nat));
        }
    }
    let ghost start = r@;
    let mut j: usize = 0;
    while j < t.len()
        invariant
            j <= t.len(),
            r@ == start + t@.subrange(0, j as int),
        decreases t.len() - j,
    {
        push_to_string(&mut r, t[j]);
        j = j + 1;
        assert(r@ =~= start + t@.subrange(0, j as int));
    }
    assert(t@.subrange(0, t.len() as int) =~= t@);
    r
}

/// `d` rounded to `dp` fractional digits (halves away from zero), written with
/// exactly that many of them, and right-aligned in `width` characters.
pub fn format_fixed(d: Decimal, dp: u32, width: usize) -> (r: String)
    requires
        d.wf(),
    ensures
        r@ == pad_left(decimal_text_fixed(d, dp as nat), width as nat),
{
    let x = d.round_dp(dp);
    let t = fixed_chars(x, dp);
    pad_chars(&t, width)
}

} // verus!
