//! Visual classification of a row by its percent change.

use vstd::prelude::*;
use crate::decimal::{pow10, Decimal};

verus! {

/// The five styles a row can take, from its percent change `p`.
#[derive(Clone, Copy, Debug, PartialEq, Eq)]
pub enum RowStyle {
    /// `p < -3`
    StrongNegative,
    /// `-3 <= p < -1`
    MildNegative,
    /// `p > 3`
    StrongPositive,
    /// `1 < p <= 3`
    MildPositive,
    /// `-1 <= p <= 1`
    Neutral,
}

/// The colour a style draws its row in.
#[derive(Clone, Copy, Debug, PartialEq, Eq)]
pub enum Tone {
    Red,
    LightRed,
    Green,
    LightGreen,
    White,
}

/// The emphasis a style draws its row with.
#[derive(Clone, Copy, Debug, PartialEq, Eq)]
pub enum Emphasis {
    Bold,
    Plain,
    Blink,
}

/// The style that the percent change `p` selects, thresholds tried in order.
pub open spec fn style_of(p: Decimal) -> RowStyle {
    if p.lt_int(-3) {
        RowStyle::StrongNegative
    } else if p.lt_int(-1) {
        RowStyle::MildNegative
    } else if p.gt_int(3) {
        RowStyle::StrongPositive
    } else if p.gt_int(1) {
        RowStyle::MildPositive
    } else {
        RowStyle::Neutral
    }
}

/// The range of percent changes that each style covers, stated on its own.
pub open spec fn in_bucket(p: Decimal, s: RowStyle) -> bool {
    match s {
        RowStyle::StrongNegative => p.lt_int(-3),
        RowStyle::MildNegative => !p.lt_int(-3) && p.lt_int(-1),
        RowStyle::StrongPositive => p.gt_int(3),
        RowStyle::MildPositive => p.gt_int(1) && !p.gt_int(3),
        RowStyle::Neutral => !p.lt_int(-1) && !p.gt_int(1),
    }
}

/// `k * 10^scale` for the scale of `p`, on machine integers.
fn scaled_threshold(p: Decimal, k: i128) -> (r: i128)
    requires
        p.wf(),
        -3 <= k <= 3,
    ensures
        r == k * pow10(p.scale as nat),
{
    let q = crate::decimal::pow10_u128(p.scale);
    proof {
        crate::decimal::lemma_pow10_monotone(p.scale as nat, 28);
        crate::decimal::lemma_pow10_28();
    }
    let q = q as i128;
    proof {
        assert(-3 * pow10(28) <= k * q <= 3 * pow10(28)) by (nonlinear_arith)
            requires
                -3 <= k <= 3,
                0 <= q <= pow10(28),
        ;
    }
    k * q
}

/// The style of a row whose percent change is `p`.
pub fn classify(p: Decimal) -> (r: RowStyle)
    requires
        p.wf(),
    ensures
        r == style_of(p),
        in_bucket(p, r),
{
    proof {
        lemma_thresholds_ordered(p);
    }
    if p.mantissa < scaled_threshold(p, -3) {
        RowStyle::StrongNegative
    } else if p.mantissa < scaled_threshold(p, -1) {
        RowStyle::MildNegative
    } else if p.mantissa > scaled_threshold(p, 3) {
        RowStyle::StrongPositive
    } else if p.mantissa > scaled_threshold(p, 1) {
        RowStyle::MildPositive
    } else {
        RowStyle::Neutral
    }
}

impl RowStyle {
    /// The colour of the style: deep for strong moves, light for mild ones.
    pub fn tone(&self) -> (r: Tone)
        ensures
            r == match *self {
                RowStyle::StrongNegative => Tone::Red,
                RowStyle::MildNegative => Tone::LightRed,
                RowStyle::StrongPositive => Tone::Green,
                RowStyle::MildPositive => Tone::LightGreen,
                RowStyle::Neutral => Tone::White,
            },
    {
        match self {
            RowStyle::StrongNegative => Tone::Red,
            RowStyle::MildNegative => Tone::LightRed,
            RowStyle::StrongPositive => Tone::Green,
            RowStyle::MildPositive => Tone::LightGreen,
            RowStyle::Neutral => Tone::White,
        }
    }

    /// The emphasis of the style: bold for strong moves, blinking near zero.
    pub fn emphasis(&self) -> (r: Emphasis)
        ensures
            r == match *self {
                RowStyle::StrongNegative | RowStyle::StrongPositive => Emphasis::Bold,
                RowStyle::MildNegative | RowStyle::MildPositive => Emphasis::Plain,
                RowStyle::Neutral => Emphasis::Blink,
            },
    {
        match self {
            RowStyle::StrongNegative | RowStyle::StrongPositive => Emphasis::Bold,
            RowStyle::MildNegative | RowStyle::MildPositive => Emphasis::Plain,
            RowStyle::Neutral => Emphasis::Blink,
        }
    }
}

proof fn lemma_thresholds_ordered(p: Decimal)
    ensures
        p.lt_int(-3) ==> p.lt_int(-1),
        p.gt_int(3) ==> p.gt_int(1),
        p.lt_int(-1) ==> !p.gt_int(1),
{
    let q = pow10(p.scale as nat);
    crate::decimal::lemma_pow10_monotone(0, p.scale as nat);
    assert(-3 * q < -1 * q < 1 * q < 3 * q) by (nonlinear_arith)
        requires
            q >= 1,
    ;
}

/// Every percent change lies in exactly one style's range, and `classify`
/// selects that style.
pub proof fn lemma_buckets_partition(p: Decimal, s: RowStyle)
    requires
        p.wf(),
    ensures
        in_bucket(p, style_of(p)),
        in_bucket(p, s) <==> s == style_of(p),
{
    lemma_thresholds_ordered(p);
}

/// A percent change of exactly 1 is neutral and one of exactly 3 is mildly
/// positive: the upper bounds of those ranges are inclusive.
pub proof fn lemma_upper_bounds_inclusive(p: Decimal)
    requires
        p.wf(),
    ensures
        p.mantissa == pow10(p.scale as nat) ==> style_of(p) == RowStyle::Neutral,
        p.mantissa == 3 * pow10(p.scale as nat) ==> style_of(p) == RowStyle::MildPositive,
{
    lemma_thresholds_ordered(p);
    crate::decimal::lemma_pow10_monotone(0, p.scale as nat);
}

} // verus!
