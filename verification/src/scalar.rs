//! Double-precision numbers held by their IEEE-754 bit pattern.
//!
//! This library does no floating-point arithmetic. What it needs of a number is
//! its place among the others, and that can be read off the bits: the order of
//! the numbers is the order of their sign-and-magnitude patterns. This module
//! states which number a pattern encodes, states the order, and implements it on
//! integers, so that every comparison a renderer makes can be made here.

use vstd::prelude::*;
use vstd::arithmetic::div_mod::*;
use vstd::arithmetic::power2::*;

verus! {

/// The bit that carries the sign; every pattern at or above it is negatively signed.
pub const SIGN_BIT: u64 = 0x8000_0000_0000_0000;

/// The pattern of positive infinity. A magnitude above it encodes no number.
pub const INFINITY_BITS: u64 = 0x7FF0_0000_0000_0000;

/// Two to the power 52: the patterns below it are the fractions of a significand.
pub const FRACTION_SPAN: u64 = 0x10_0000_0000_0000;

/// The pattern of the number 1.
pub const ONE_BITS: u64 = 0x3FF0_0000_0000_0000;

/// The pattern of 0.001, the distance below which a hit counts as self-intersection.
pub const SHADOW_EPSILON_BITS: u64 = 0x3F50_624D_D2F1_A9FC;

/// A binary64 value, kept as the 64 bits that encode it.
#[derive(Clone, Copy, Debug)]
pub struct Scalar {
    pub bits: u64,
}

impl Scalar {
    /// The value that `bits` encode.
    pub open spec fn of_bits(bits: u64) -> Scalar {
        Scalar { bits }
    }

    /// The pattern without its sign bit.
    pub open spec fn magnitude(self) -> int {
        if self.bits >= SIGN_BIT {
            self.bits - SIGN_BIT
        } else {
            self.bits as int
        }
    }

    /// Whether the sign bit is set.
    pub open spec fn sign_negative(self) -> bool {
        self.bits >= SIGN_BIT
    }

    /// Whether the pattern encodes no number.
    pub open spec fn nan(self) -> bool {
        self.magnitude() > INFINITY_BITS
    }

    /// The exponent field, from 0 to 2047.
    pub open spec fn exponent(self) -> int {
        self.magnitude() / (FRACTION_SPAN as int)
    }

    /// The fraction field, the low 52 bits.
    pub open spec fn fraction(self) -> int {
        self.magnitude() % (FRACTION_SPAN as int)
    }

    /// Whether the pattern encodes a number other than an infinity.
    pub open spec fn finite(self) -> bool {
        self.magnitude() < INFINITY_BITS
    }

    /// The fraction, with the leading one that a normal number implies.
    pub open spec fn significand(self) -> int {
        if self.exponent() == 0 {
            self.fraction()
        } else {
            FRACTION_SPAN + self.fraction()
        }
    }

    /// The power of two by which the significand counts units of 2^-1074.
    pub open spec fn scale(self) -> nat {
        if self.exponent() <= 1 {
            0
        } else {
            (self.exponent() - 1) as nat
        }
    }

    /// The encoded finite number, in units of 2^-1074: every finite
    /// double-precision number is a whole multiple of that unit.
    pub open spec fn scaled(self) -> int {
        if self.sign_negative() {
            -(self.significand() * pow2(self.scale()))
        } else {
            self.significand() * pow2(self.scale())
        }
    }

    /// The place of the encoded number on the number line: the magnitude, negated
    /// under a set sign bit. Both zeros have rank 0, the infinities have the
    /// extreme ranks of all numbers.
    pub open spec fn rank(self) -> int {
        if self.sign_negative() {
            -self.magnitude()
        } else {
            self.magnitude()
        }
    }

    /// The IEEE-754 comparison `self < other`: false whenever either side is no
    /// number, and the order of the ranks otherwise.
    pub open spec fn less(self, other: Scalar) -> bool {
        !self.nan() && !other.nan() && self.rank() < other.rank()
    }

    /// The value that `bits` encode.
    pub fn from_bits(bits: u64) -> (s: Scalar)
        ensures
            s == Scalar::of_bits(bits),
    {
        Scalar { bits }
    }

    /// The bits that encode the value.
    pub fn to_bits(&self) -> (bits: u64)
        ensures
            bits == self.bits,
    {
        self.bits
    }

    /// Positive zero.
    pub fn zero() -> (s: Scalar)
        ensures
            s == Scalar::of_bits(0),
    {
        Scalar { bits: 0 }
    }

    /// Positive infinity.
    pub fn infinity() -> (s: Scalar)
        ensures
            s == Scalar::of_bits(INFINITY_BITS),
    {
        Scalar { bits: INFINITY_BITS }
    }

    /// The near end of the window in which primary rays accept hits.
    pub fn shadow_epsilon() -> (s: Scalar)
        ensures
            s == Scalar::of_bits(SHADOW_EPSILON_BITS),
    {
        Scalar { bits: SHADOW_EPSILON_BITS }
    }

    /// The pattern without its sign bit.
    pub fn magnitude_bits(&self) -> (m: u64)
        ensures
            m == self.magnitude(),
    {
        if self.bits >= SIGN_BIT {
            self.bits - SIGN_BIT
        } else {
            self.bits
        }
    }

    /// Whether the pattern encodes no number.
    pub fn is_nan(&self) -> (r: bool)
        ensures
            r == self.nan(),
    {
        self.magnitude_bits() > INFINITY_BITS
    }

    /// `self < other` as IEEE-754 defines it.
    pub fn lt(&self, other: &Scalar) -> (r: bool)
        ensures
            r == self.less(*other),
    {
        let a: u64 = self.magnitude_bits();
        let b: u64 = other.magnitude_bits();
        if a > INFINITY_BITS || b > INFINITY_BITS {
            false
        } else if self.bits >= SIGN_BIT {
            if other.bits >= SIGN_BIT {
                b < a
            } else {
                a > 0 || b > 0
            }
        } else {
            other.bits < SIGN_BIT && a < b
        }
    }

    /// `self > other` as IEEE-754 defines it.
    pub fn gt(&self, other: &Scalar) -> (r: bool)
        ensures
            r == other.less(*self),
    {
        other.lt(self)
    }
}

/// `less` never holds of a value and itself, and never both ways round.
pub proof fn lemma_less_asymmetric(a: Scalar, b: Scalar)
    ensures
        !a.less(a),
        a.less(b) ==> !b.less(a),
{
}

/// `less` is transitive.
pub proof fn lemma_less_transitive(a: Scalar, b: Scalar, c: Scalar)
    requires
        a.less(b),
        b.less(c),
    ensures
        a.less(c),
{
}

/// Two numbers are ordered one way or the other unless they have the same rank.
pub proof fn lemma_less_trichotomy(a: Scalar, b: Scalar)
    requires
        !a.nan(),
        !b.nan(),
    ensures
        a.less(b) || b.less(a) || a.rank() == b.rank(),
{
}

/// A pattern that encodes no number compares false with everything.
pub proof fn lemma_nan_unordered(a: Scalar, b: Scalar)
    requires
        a.nan(),
    ensures
        !a.less(b),
        !b.less(a),
{
}

/// The fields of a pattern: how the magnitude splits into exponent and
/// fraction, and what follows for the significand.
pub proof fn lemma_pattern_fields(a: Scalar)
    ensures
        0 <= a.fraction() < FRACTION_SPAN,
        0 <= a.exponent() < 2048,
        a.magnitude() == a.exponent() * FRACTION_SPAN + a.fraction(),
        a.finite() <==> a.exponent() < 2047,
        0 <= a.significand() < 2 * FRACTION_SPAN,
        a.exponent() >= 1 ==> a.significand() >= FRACTION_SPAN,
        a.significand() == 0 <==> a.magnitude() == 0,
        pow2(a.scale()) >= 1,
{
    let m = a.magnitude();
    let span = FRACTION_SPAN as int;
    lemma_fundamental_div_mod(m, span);
    lemma_mod_pos_bound(m, span);
    lemma_div_pos_is_pos(m, span);
    lemma_pow2_pos(a.scale());
    assert(span * (m / span) == (m / span) * span) by (nonlinear_arith);
    assert(m / span < 2048) by (nonlinear_arith)
        requires
            m == span * (m / span) + m % span,
            0 <= m % span,
            m < 2048 * span,
            span > 0,
    ;
    assert(m / span >= 2047 <==> m >= 2047 * span) by (nonlinear_arith)
        requires
            m == span * (m / span) + m % span,
            0 <= m % span < span,
            span > 0,
    ;
}

proof fn lemma_magnitudes_ordered(a: Scalar, b: Scalar)
    requires
        a.magnitude() < b.magnitude(),
    ensures
        a.significand() * pow2(a.scale()) < b.significand() * pow2(b.scale()),
{
    lemma_pattern_fields(a);
    lemma_pattern_fields(b);
    let span = FRACTION_SPAN as int;
    let (ea, eb) = (a.exponent(), b.exponent());
    let (sa, sb) = (a.significand(), b.significand());
    let (pa, pb) = (pow2(a.scale()) as int, pow2(b.scale()) as int);
    lemma_div_is_ordered(a.magnitude(), b.magnitude(), span);
    if ea == eb {
        assert(sa * pa < sb * pb) by (nonlinear_arith)
            requires
                sa < sb,
                pa == pb,
                pa >= 1,
        ;
    } else {
        assert(ea < eb);
        if ea == 0 {
            assert(pa == 1) by {
                lemma2_to64();
            }
            assert(sa * pa < sb * pb) by (nonlinear_arith)
                requires
                    sa < span,
                    sb >= span,
                    span > 0,
                    pa == 1,
                    pb >= 1,
            ;
        } else {
            assert(2 * pa <= pb) by {
                lemma_pow2_unfold((a.scale() + 1) as nat);
                if a.scale() + 1 < b.scale() {
                    lemma_pow2_strictly_increases((a.scale() + 1) as nat, b.scale());
                }
            }
            assert(sa * pa < sb * pb) by (nonlinear_arith)
                requires
                    0 <= sa < 2 * span,
                    sb >= span,
                    span > 0,
                    2 * pa <= pb,
                    pa >= 1,
            ;
        }
    }
}

/// The order of the ranks is the order of the encoded numbers: of two finite
/// values the one with the lower rank encodes the smaller number, and two values
/// have the same rank exactly when they encode the same number.
pub proof fn lemma_rank_orders_numbers(a: Scalar, b: Scalar)
    requires
        a.finite(),
        b.finite(),
    ensures
        a.rank() < b.rank() <==> a.scaled() < b.scaled(),
        a.rank() == b.rank() <==> a.scaled() == b.scaled(),
{
    lemma_pattern_fields(a);
    lemma_pattern_fields(b);
    let (va, vb) = (a.significand() * pow2(a.scale()), b.significand() * pow2(b.scale()));
    assert(va >= 0 && (va == 0 <==> a.magnitude() == 0)) by (nonlinear_arith)
        requires
            va == a.significand() * pow2(a.scale()),
            a.significand() >= 0,
            pow2(a.scale()) >= 1,
            a.significand() == 0 <==> a.magnitude() == 0,
    ;
    assert(vb >= 0 && (vb == 0 <==> b.magnitude() == 0)) by (nonlinear_arith)
        requires
            vb == b.significand() * pow2(b.scale()),
            b.significand() >= 0,
            pow2(b.scale()) >= 1,
            b.significand() == 0 <==> b.magnitude() == 0,
    ;
    if a.magnitude() < b.magnitude() {
        lemma_magnitudes_ordered(a, b);
    } else if b.magnitude() < a.magnitude() {
        lemma_magnitudes_ordered(b, a);
    }
}

/// Every finite value is less than positive infinity and greater than negative
/// infinity.
pub proof fn lemma_infinities_are_extreme(a: Scalar)
    requires
        a.finite(),
    ensures
        a.less(Scalar::of_bits(INFINITY_BITS)),
        Scalar::of_bits((SIGN_BIT + INFINITY_BITS) as u64).less(a),
{
}

} // verus!
