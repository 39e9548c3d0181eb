//! From a linear channel value to one of 256 levels.
//!
//! A channel is clamped to the interval from 0 to 0.999, scaled by 256 and cut
//! to its whole part. With gamma correction the square root of the clamped
//! value is scaled instead; the caller takes that root, everything else is
//! decided here, on the bits of the numbers.

use vstd::prelude::*;
use vstd::arithmetic::div_mod::*;
use vstd::arithmetic::power2::*;
use vstd::bits::lemma_u64_shr_is_div;
use crate::scalar::lemma_pattern_fields;
use crate::scalar::lemma_rank_orders_numbers;
use crate::scalar::Scalar;
use crate::scalar::FRACTION_SPAN;
use crate::scalar::INFINITY_BITS;
use crate::scalar::SIGN_BIT;

verus! {

/// The pattern of 0.999, the largest value that a channel is let to have.
pub const CHANNEL_CEILING_BITS: u64 = 0x3FEF_F7CE_D916_872B;

/// How a linear channel value becomes a level.
#[derive(Clone, Copy, Debug, PartialEq, Eq, Structural)]
pub enum Encoding {
    /// The clamped value itself is scaled.
    Linear,
    /// The square root of the clamped value is scaled: gamma 2.
    Gamma,
}

/// `x` kept between 0 and 0.999: the nearer end where it lies outside, `x`
/// itself otherwise, also where it is no number.
pub open spec fn clamped(x: Scalar) -> Scalar {
    if x.less(Scalar::of_bits(0)) {
        Scalar::of_bits(0)
    } else if Scalar::of_bits(CHANNEL_CEILING_BITS).less(x) {
        Scalar::of_bits(CHANNEL_CEILING_BITS)
    } else {
        x
    }
}

/// The whole part of 256 times the number that `x` encodes, kept between 0 and
/// 255; 0 where `x` is no number.
pub open spec fn level_of(x: Scalar) -> int {
    if x.nan() || x.sign_negative() {
        0
    } else if !x.finite() {
        255
    } else if (x.scaled() * 256) / (pow2(1074) as int) > 255 {
        255
    } else {
        (x.scaled() * 256) / (pow2(1074) as int)
    }
}

/// The level that an encoding gives a channel, where `root` is the square root
/// of the clamped channel.
pub open spec fn encoded_level(encoding: Encoding, channel: Scalar, root: Scalar) -> int {
    match encoding {
        Encoding::Linear => level_of(clamped(channel)),
        Encoding::Gamma => level_of(root),
    }
}

/// Keeps a channel between 0 and 0.999.
pub fn clamp_channel(x: Scalar) -> (r: Scalar)
    ensures
        r == clamped(x),
{
    let floor = Scalar::zero();
    let ceiling = Scalar::from_bits(CHANNEL_CEILING_BITS);
    if x.lt(&floor) {
        floor
    } else if x.gt(&ceiling) {
        ceiling
    } else {
        x
    }
}

/// Scales by 256 and cuts to the whole part, never leaving 0 to 255.
pub fn quantize(x: Scalar) -> (level: u8)
    ensures
        level == level_of(x),
{
    if x.is_nan() || x.to_bits() >= SIGN_BIT {
        return 0;
    }
    let magnitude: u64 = x.magnitude_bits();
    if magnitude == INFINITY_BITS {
        return 255;
    }
    proof {
        lemma_pattern_fields(x);
    }
    let exponent: u64 = magnitude / FRACTION_SPAN;
    if exponent >= 1023 {
        proof {
            lemma_level_saturates(x);
        }
        return 255;
    }
    if exponent < 1015 {
        proof {
            lemma_level_vanishes(x);
        }
        return 0;
    }
    let significand: u64 = FRACTION_SPAN + magnitude % FRACTION_SPAN;
    let shift: u64 = 1067 - exponent;
    proof {
        lemma_level_shifts(x);
        lemma_u64_shr_is_div(significand, shift);
    }
    (significand >> shift) as u8
}

impl Encoding {
    /// The level of a channel. `root` is the square root of
    /// `clamp_channel(channel)`; linear encoding does not look at it.
    pub fn level(&self, channel: Scalar, root: Scalar) -> (level: u8)
        ensures
            level == encoded_level(*self, channel, root),
    {
        match self {
            Encoding::Linear => quantize(clamp_channel(channel)),
            Encoding::Gamma => quantize(root),
        }
    }
}

proof fn lemma_level_saturates(x: Scalar)
    requires
        x.finite(),
        x.exponent() >= 1023,
    ensures
        (x.significand() * pow2(x.scale()) * 256) / (pow2(1074) as int) >= 256,
{
    lemma_pattern_fields(x);
    let unit = pow2(1074) as int;
    let power = pow2(x.scale()) as int;
    let low = pow2(1022) as int;
    let value = x.significand() * power;
    lemma2_to64_rest();
    lemma_pow2_pos(1022);
    lemma_pow2_pos(1074);
    lemma_pow2_adds(52, 1022);
    if x.scale() > 1022 {
        lemma_pow2_strictly_increases(1022, x.scale());
    }
    assert(value >= unit) by (nonlinear_arith)
        requires
            value == x.significand() * power,
            x.significand() >= 0x10_0000_0000_0000,
            power >= low,
            low >= 1,
            unit == 0x10_0000_0000_0000 * low,
    ;
    lemma_div_is_ordered(unit * 256, value * 256, unit);
    lemma_div_multiples_vanish(256, unit);
}

proof fn lemma_level_vanishes(x: Scalar)
    requires
        x.exponent() < 1015,
    ensures
        (x.significand() * pow2(x.scale()) * 256) / (pow2(1074) as int) == 0,
{
    lemma_pattern_fields(x);
    let unit = pow2(1074) as int;
    let power = pow2(x.scale()) as int;
    let high = pow2(1013) as int;
    let value = x.significand() * power;
    lemma2_to64_rest();
    lemma_pow2_pos(1013);
    lemma_pow2_adds(61, 1013);
    if x.scale() < 1013 {
        lemma_pow2_strictly_increases(x.scale(), 1013);
    }
    assert(0 <= value * 256 < unit) by (nonlinear_arith)
        requires
            value == x.significand() * power,
            0 <= x.significand() < 0x20_0000_0000_0000,
            1 <= power <= high,
            unit == 0x2000_0000_0000_0000 * high,
    ;
    lemma_basic_div(value * 256, unit);
}

proof fn lemma_level_shifts(x: Scalar)
    requires
        1015 <= x.exponent() <= 1022,
    ensures
        (x.significand() * pow2(x.scale()) * 256) / (pow2(1074) as int) == x.significand() / (pow2(
            (1067 - x.exponent()) as nat,
        ) as int),
        0 <= x.significand() / (pow2((1067 - x.exponent()) as nat) as int) < 256,
{
    lemma_pattern_fields(x);
    let e = x.exponent();
    let significand = x.significand();
    let unit = pow2(1074) as int;
    let power = pow2(x.scale()) as int;
    let up = pow2((e + 7) as nat) as int;
    let down = pow2((1067 - e) as nat) as int;
    lemma2_to64();
    lemma2_to64_rest();
    lemma_pow2_adds(x.scale(), 8);
    lemma_pow2_adds((e + 7) as nat, (1067 - e) as nat);
    lemma_pow2_pos((e + 7) as nat);
    lemma_pow2_pos((1067 - e) as nat);
    assert(significand * power * 256 == up * significand) by (nonlinear_arith)
        requires
            up == power * 256,
    ;
    lemma_div_multiples_vanish_quotient(up, significand, down);
    if 45 < 1067 - e {
        lemma_pow2_strictly_increases(45, (1067 - e) as nat);
    }
    lemma_div_is_ordered_by_denominator(significand, 0x2000_0000_0000, down);
    lemma_div_pos_is_pos(significand, down);
}

/// A level never leaves the range from 0 to 255, whatever the pattern.
pub proof fn lemma_level_in_range(x: Scalar)
    ensures
        0 <= level_of(x) <= 255,
{
    lemma_pattern_fields(x);
    lemma_pow2_pos(1074);
    lemma_pow2_pos(x.scale());
    if !x.sign_negative() {
        assert(0 <= x.significand() * pow2(x.scale()) * 256) by (nonlinear_arith)
            requires
                0 <= x.significand(),
                0 < pow2(x.scale()),
        ;
        lemma_div_pos_is_pos(x.scaled() * 256, pow2(1074) as int);
    }
}

/// Clamping leaves a number between 0 and 0.999, the ends included; what is no
/// number stays so.
pub proof fn lemma_clamped_between(x: Scalar)
    ensures
        x.nan() <==> clamped(x).nan(),
        !clamped(x).less(Scalar::of_bits(0)),
        !Scalar::of_bits(CHANNEL_CEILING_BITS).less(clamped(x)),
{
}

/// A channel below 0 gets level 0, and a channel above 0.999 gets level 255, as
/// 0.999 itself does.
pub proof fn lemma_clamped_levels(x: Scalar)
    ensures
        level_of(Scalar::of_bits(0)) == 0,
        level_of(Scalar::of_bits(CHANNEL_CEILING_BITS)) == 255,
        x.less(Scalar::of_bits(0)) ==> level_of(clamped(x)) == 0,
        Scalar::of_bits(CHANNEL_CEILING_BITS).less(x) ==> level_of(clamped(x)) == 255,
{
    let floor = Scalar::of_bits(0);
    let ceiling = Scalar::of_bits(CHANNEL_CEILING_BITS);
    lemma_pattern_fields(floor);
    lemma_pattern_fields(ceiling);
    assert(floor.exponent() == 0);
    assert(ceiling.exponent() == 1022);
    assert(ceiling.significand() == 0x1F_F7CE_D916_872B);
    lemma_level_vanishes(floor);
    lemma_level_shifts(ceiling);
    lemma2_to64_rest();
    assert(0x1F_F7CE_D916_872Bint / 0x2000_0000_0000int == 255);
}

/// A greater number never gets a lower level.
pub proof fn lemma_level_monotone(a: Scalar, b: Scalar)
    requires
        a.less(b),
    ensures
        level_of(a) <= level_of(b),
{
    lemma_level_in_range(a);
    lemma_level_in_range(b);
    if !a.sign_negative() && a.finite() && b.finite() {
        lemma_rank_orders_numbers(a, b);
        lemma_pow2_pos(1074);
        lemma_div_is_ordered(a.scaled() * 256, b.scaled() * 256, pow2(1074) as int);
    }
}

} // verus!
