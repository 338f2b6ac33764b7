//! Exact decimal numbers `mantissa / 10^scale`, as rust_decimal holds them.

use vstd::prelude::*;

verus! {

/// Ten to the power `n`.
pub open spec fn pow10(n: nat) -> nat
    decreases n,
{
    if n == 0 {
        1
    } else {
        10 * pow10((n - 1) as nat)
    }
}

/// The bound on a mantissa's magnitude: 2^96.
pub open spec fn mantissa_limit() -> int {
    0x1_0000_0000_0000_0000_0000_0000
}

/// The largest scale a decimal may have.
pub const MAX_SCALE: u32 = 28;

/// The magnitude of an integer.
pub open spec fn abs(m: int) -> nat {
    if m < 0 {
        (-m) as nat
    } else {
        m as nat
    }
}

/// An exact decimal number, `mantissa / 10^scale`.
#[derive(Clone, Copy, Debug, PartialEq, Eq)]
pub struct Decimal {
    pub mantissa: i128,
    pub scale: u32,
}

/// Why a text is not a decimal number.
#[derive(Clone, Copy, Debug, PartialEq, Eq)]
pub enum DecimalError {
    InvalidNumber,
}

impl Decimal {
    /// The range that every rust_decimal value lies in.
    pub open spec fn wf(self) -> bool {
        -mantissa_limit() < self.mantissa < mantissa_limit() && self.scale <= MAX_SCALE
    }

    /// The value is below the integer `k`.
    pub open spec fn lt_int(self, k: int) -> bool {
        self.mantissa < k * pow10(self.scale as nat)
    }

    /// The value is above the integer `k`.
    pub open spec fn gt_int(self, k: int) -> bool {
        self.mantissa > k * pow10(self.scale as nat)
    }
}

/// What rust_decimal reads from a text: a mantissa and a scale, or nothing.
pub uninterp spec fn decimal_text(s: Seq<char>) -> Option<(int, int)>;

/// Relies on `<rust_decimal::Decimal as FromStr>::from_str` to read a decimal
/// literal, and on `mantissa` and `scale` to take it apart; every rust_decimal
/// value has a mantissa below 2^96 in magnitude and a scale of at most 28.
#[verifier::external_body]
fn decimal_from_text(s: &str) -> (r: Option<Decimal>)
    ensures
        match r {
            Some(d) => d.wf() && decimal_text(s@) == Some((d.mantissa as int, d.scale as int)),
            None => decimal_text(s@) is None,
        },
{
    match <rust_decimal::Decimal as std::str::FromStr>::from_str(s) {
        Ok(d) => Some(Decimal { mantissa: d.mantissa(), scale: d.scale() }),
        Err(_) => None,
    }
}

/// Reads a decimal literal exactly, keeping every digit and the sign.
pub fn parse_decimal(s: &str) -> (r: Result<Decimal, DecimalError>)
    ensures
        match r {
            Ok(d) => d.wf() && decimal_text(s@) == Some((d.mantissa as int, d.scale as int)),
            Err(e) => e == DecimalError::InvalidNumber && decimal_text(s@) is None,
        },
{
    match decimal_from_text(s) {
        Some(d) => Ok(d),
        None => Err(DecimalError::InvalidNumber),
    }
}

/// The magnitude `a`, over `10^k`, rounded to an integer with halves away from zero.
pub open spec fn round_half_away(a: nat, k: nat) -> nat {
    if 2 * (a % pow10(k)) >= pow10(k) {
        a / pow10(k) + 1
    } else {
        a / pow10(k)
    }
}

/// `d` rounded to `dp` fractional digits, halves away from zero; a decimal
/// with no more than `dp` digits is kept as it is.
pub open spec fn rounded(d: Decimal, dp: nat) -> (int, nat) {
    if d.scale <= dp {
        (d.mantissa as int, d.scale as nat)
    } else {
        let a = round_half_away(abs(d.mantissa as int), (d.scale - dp) as nat);
        (if d.mantissa < 0 { -a } else { a as int }, dp)
    }
}

/// Relies on `rust_decimal::Decimal::from_i128_with_scale`, which accepts every
/// value in range, and on `round_dp_with_strategy` with `MidpointAwayFromZero`:
/// a decimal with at most `dp` fractional digits comes back as it is; else the
/// magnitude loses `scale - dp` digits, gains one where the dropped part is at
/// least a half, keeps its sign and takes scale `dp`.
#[verifier::external_body]
fn round_with_strategy(d: Decimal, dp: u32) -> (r: Decimal)
    requires
        d.wf(),
    ensures
        r.wf(),
        (r.mantissa as int, r.scale as nat) == rounded(d, dp as nat),
{
    let x = rust_decimal::Decimal::from_i128_with_scale(d.mantissa, d.scale);
    let y = x.round_dp_with_strategy(dp, rust_decimal::RoundingStrategy::MidpointAwayFromZero);
    Decimal { mantissa: y.mantissa(), scale: y.scale() }
}

impl Decimal {
    /// This decimal rounded to `dp` fractional digits, halves away from zero.
    pub fn round_dp(&self, dp: u32) -> (r: Decimal)
        requires
            self.wf(),
        ensures
            r.wf(),
            (r.mantissa as int, r.scale as nat) == rounded(*self, dp as nat),
            r.scale <= dp,
    {
        round_with_strategy(*self, dp)
    }
}

/// `10^n` on machine integers.
pub fn pow10_u128(n: u32) -> (r: u128)
    requires
        n <= 38,
    ensures
        r == pow10(n as nat),
{
    proof {
        lemma_pow10_38();
    }
    let mut r: u128 = 1;
    let mut i: u32 = 0;
    while i < n
        invariant
            i <= n <= 38,
            r == pow10(i as nat),
            pow10(38) < 0x1_0000_0000_0000_0000_0000_0000_0000_0000,
        decreases n - i,
    {
        proof {
            lemma_pow10_monotone((i + 1) as nat, 38);
        }
        r = r * 10;
        i = i + 1;
    }
    r
}

/// Powers of ten grow with the exponent.
pub proof fn lemma_pow10_monotone(a: nat, b: nat)
    requires
        a <= b,
    ensures
        1 <= pow10(a) <= pow10(b),
    decreases b,
{
    if b == 0 {
    } else if a == b {
        lemma_pow10_monotone((a - 1) as nat, (b - 1) as nat);
    } else {
        lemma_pow10_monotone(a, (b - 1) as nat);
    }
}

/// The value of `10^28`, the largest scale's power.
pub proof fn lemma_pow10_28()
    ensures
        pow10(28) == 10000000000000000000000000000,
{
    reveal_with_fuel(pow10, 29);
}

proof fn lemma_pow10_38()
    ensures
        pow10(38) == 100000000000000000000000000000000000000,
{
    reveal_with_fuel(pow10, 39);
}

/// Rounding to `dp` digits is idempotent: a decimal that was rounded once
/// comes back unchanged from a second rounding. A decimal that already has at
/// most `dp` fractional digits keeps its exact value, and any other one moves
/// by at most half a unit of its last kept digit.
pub proof fn lemma_round_idempotent(d: Decimal, dp: u32)
    requires
        d.wf(),
    ensures
        ({
            let (m, s) = rounded(d, dp as nat);
            &&& s <= dp
            &&& rounded(Decimal { mantissa: m as i128, scale: s as u32 }, dp as nat) == (m, s)
        }),
        d.scale <= dp ==> rounded(d, dp as nat) == (d.mantissa as int, d.scale as nat),
        d.scale > dp ==> 2 * abs(rounded(d, dp as nat).0 * pow10((d.scale - dp) as nat) - d.mantissa)
            <= pow10((d.scale - dp) as nat),
{
    if d.scale > dp {
        let k = (d.scale - dp) as nat;
        let p = pow10(k);
        let a = abs(d.mantissa as int);
        lemma_pow10_monotone(0, k);
        vstd::arithmetic::div_mod::lemma_fundamental_div_mod(a as int, p as int);
        let q = a / p;
        let r = a % p;
        assert(a == p * q + r);
        let b = round_half_away(a, k);
        assert(2 * abs(b * p - a) <= p) by (nonlinear_arith)
            requires
                a == p * q + r,
                0 <= r < p,
                b == (if 2 * r >= p { q + 1 } else { q }),
        ;
        let m = rounded(d, dp as nat).0;
        assert(abs(m * p - d.mantissa) == abs(b * p - a)) by (nonlinear_arith)
            requires
                m == (if d.mantissa < 0 { -b } else { b as int }),
                a == (if d.mantissa < 0 { -d.mantissa } else { d.mantissa as int }),
        ;
    }
}

} // verus!
