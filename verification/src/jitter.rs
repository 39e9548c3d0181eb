//! Where within its pixel a sample is taken.
//!
//! An offset is a fraction `numerator / 2^53` of a pixel's width or height, so
//! it lies in the half-open interval from 0 to 1. The numerators come from a
//! seeded generator: one seed gives one render.

use vstd::prelude::*;
use vstd::arithmetic::power2::*;
use rand::rngs::StdRng;
use rand::RngCore;
use rand::SeedableRng;
use crate::scalar::lemma_pattern_fields;
use crate::scalar::Scalar;
use crate::scalar::FRACTION_SPAN;
use crate::scalar::ONE_BITS;

verus! {

/// The denominator of every offset, 2^53: the offsets are exactly the multiples
/// of 2^-53 below 1, each of which a double-precision number holds exactly.
pub const JITTER_SCALE: u64 = 0x20_0000_0000_0000;

/// The generator of `rand`, carried as an opaque value.
#[verifier::external_type_specification]
#[verifier::external_body]
pub struct ExStdRng(StdRng);

/// An offset of `numerator / JITTER_SCALE` pixels.
#[derive(Clone, Copy, Debug, PartialEq, Eq, Structural)]
pub struct Jitter {
    numerator: u64,
}

impl Jitter {
    /// The numerator of the offset over `JITTER_SCALE`.
    pub closed spec fn spec_numerator(&self) -> u64 {
        self.numerator
    }

    /// The offset is less than a whole pixel. Every offset that a program
    /// holds is.
    #[verifier::type_invariant]
    pub open spec fn wf(&self) -> bool {
        self.numerator() < JITTER_SCALE
    }

    /// The offset that a draw of 64 random bits stands for: its upper 53 bits.
    pub open spec fn of_draw(draw: u64) -> Jitter {
        Jitter::with_numerator(draw / 2048)
    }

    /// The offset with the given numerator.
    pub closed spec fn with_numerator(numerator: u64) -> Jitter {
        Jitter { numerator }
    }

    /// No offset: the sample is taken at the pixel's own coordinates.
    pub fn zero() -> (j: Jitter)
        ensures
            j == Jitter::with_numerator(0),
            j.numerator() == 0,
            j.wf(),
    {
        Jitter { numerator: 0 }
    }

    /// The offset that a draw of 64 random bits stands for.
    pub fn from_draw(draw: u64) -> (j: Jitter)
        ensures
            j == Jitter::of_draw(draw),
            j.numerator() == draw / 2048,
            j.wf(),
    {
        Jitter { numerator: draw / 2048 }
    }

    /// The numerator of the offset over `JITTER_SCALE`.
    #[verifier::when_used_as_spec(spec_numerator)]
    pub fn numerator(&self) -> (n: u64)
        ensures
            n == self.numerator(),
            self.wf(),
    {
        proof {
            use_type_invariant(self);
        }
        self.numerator
    }

    /// The offset as a double-precision number. The number is `numerator /
    /// 2^53` exactly: in units of 2^-1074 it is the numerator times 2^1021. It
    /// lies in the half-open interval from 0 to 1.
    pub fn offset(&self) -> (x: Scalar)
        ensures
            x.finite(),
            !x.sign_negative(),
            x.scaled() == self.numerator() * pow2(1021),
            !x.less(Scalar::of_bits(0)),
            x.less(Scalar::of_bits(ONE_BITS)),
    {
        proof {
            use_type_invariant(self);
        }
        if self.numerator == 0 {
            let x = Scalar::zero();
            proof {
                lemma_pattern_fields(x);
                assert(x.significand() * pow2(x.scale()) == 0) by (nonlinear_arith)
                    requires
                        x.significand() == 0,
                ;
                assert(self.numerator() * pow2(1021) == 0) by (nonlinear_arith)
                    requires
                        self.numerator() == 0,
                ;
            }
            return x;
        }
        let mut significand: u64 = self.numerator;
        let mut exponent: u64 = 1022;
        proof {
            lemma2_to64();
        }
        while significand < FRACTION_SPAN
            invariant
                1 <= significand < 2 * FRACTION_SPAN,
                970 <= exponent <= 1022,
                significand >= pow2((1022 - exponent) as nat),
                significand * pow2((exponent - 1) as nat) == self.numerator() * pow2(1021),
            decreases exponent,
        {
            proof {
                let doublings = (1022 - exponent) as nat;
                lemma2_to64_rest();
                if doublings >= 52 {
                    if doublings > 52 {
                        lemma_pow2_strictly_increases(52, doublings);
                    }
                    assert(false);
                }
                lemma_pow2_unfold(doublings + 1);
                lemma_pow2_unfold((exponent - 1) as nat);
                assert((2 * significand) * pow2((exponent - 2) as nat) == significand * (2 * pow2(
                    (exponent - 2) as nat,
                ))) by (nonlinear_arith);
            }
            significand = significand * 2;
            exponent = exponent - 1;
        }
        let x = Scalar::from_bits(exponent * FRACTION_SPAN + (significand - FRACTION_SPAN));
        proof {
            lemma_pattern_fields(x);
            let span = FRACTION_SPAN as int;
            vstd::arithmetic::div_mod::lemma_fundamental_div_mod_converse(
                x.magnitude(),
                span,
                exponent as int,
                significand - span,
            );
        }
        x
    }
}

/// An offset has the numerator it was made with, and no two numerators give
/// the same offset.
pub proof fn lemma_numerator(numerator: u64, other: u64)
    ensures
        Jitter::with_numerator(numerator).numerator() == numerator,
        Jitter::with_numerator(numerator) == Jitter::with_numerator(other) ==> numerator == other,
{
}

/// Every offset is less than a whole pixel, whatever was drawn.
pub proof fn lemma_jitter_of_draw(draw: u64)
    ensures
        Jitter::of_draw(draw).wf(),
        Jitter::of_draw(draw).numerator() == draw / 2048,
{
}

/// A stream of offsets.
pub struct JitterSource {
    generator: StdRng,
    drawn: Ghost<nat>,
}

impl JitterSource {
    /// How many offsets have been taken from the stream.
    pub closed spec fn drawn(&self) -> nat {
        self.drawn@
    }

    /// The stream that `seed` starts.
    pub fn seeded(seed: u64) -> (source: JitterSource)
        ensures
            source.drawn() == 0,
    {
        JitterSource { generator: seeded_generator(seed), drawn: Ghost(0) }
    }

    /// The next offset of the stream.
    pub fn next_jitter(&mut self) -> (j: Jitter)
        ensures
            j.wf(),
            exists|draw: u64| j == Jitter::of_draw(draw),
            final(self).drawn() == old(self).drawn() + 1,
    {
        let draw: u64 = next_draw(&mut self.generator);
        proof {
            self.drawn@ = self.drawn@ + 1;
        }
        Jitter::from_draw(draw)
    }
}

/// `StdRng::seed_from_u64` of `rand`: a generator whose output is determined by
/// the seed. Nothing is claimed of the generator it returns.
#[verifier::external_body]
fn seeded_generator(seed: u64) -> StdRng {
    StdRng::seed_from_u64(seed)
}

/// `RngCore::next_u64` on `rand`'s `StdRng`: advances the generator and returns
/// 64 bits. Nothing is claimed of the bits, nor of the generator afterwards.
#[verifier::external_body]
fn next_draw(generator: &mut StdRng) -> u64 {
    generator.next_u64()
}

} // verus!
