use raytracer::scalar::Scalar;
use raytracer::scalar::FRACTION_SPAN;
use raytracer::scalar::INFINITY_BITS;
use raytracer::scalar::ONE_BITS;
use raytracer::scalar::SHADOW_EPSILON_BITS;
use raytracer::scalar::SIGN_BIT;

fn scalar(x: f64) -> Scalar {
    Scalar::from_bits(x.to_bits())
}

fn samples() -> Vec<f64> {
    vec![
        0.0,
        -0.0,
        1.0,
        -1.0,
        0.001,
        0.999,
        0.5,
        -0.5,
        2.0,
        1e-310,
        -1e-310,
        f64::MIN_POSITIVE,
        -f64::MIN_POSITIVE,
        f64::from_bits(1),
        f64::from_bits(SIGN_BIT | 1),
        f64::MAX,
        f64::MIN,
        f64::EPSILON,
        1.0 + f64::EPSILON,
        1.0 - f64::EPSILON / 2.0,
        255.999,
        256.0,
        1e300,
        -1e300,
        f64::INFINITY,
        f64::NEG_INFINITY,
        f64::NAN,
        -f64::NAN,
        f64::from_bits(0x7FF0_0000_0000_0001),
        f64::from_bits(0xFFFF_FFFF_FFFF_FFFF),
    ]
}

#[test]
fn bits_round_trip() {
    for x in samples() {
        assert_eq!(scalar(x).to_bits(), x.to_bits());
        assert_eq!(scalar(x).bits, x.to_bits());
    }
}

#[test]
fn constants_are_the_patterns_of_their_numbers() {
    assert_eq!(Scalar::zero().to_bits(), 0.0f64.to_bits());
    assert_eq!(Scalar::infinity().to_bits(), f64::INFINITY.to_bits());
    assert_eq!(Scalar::shadow_epsilon().to_bits(), 0.001f64.to_bits());
    assert_eq!(INFINITY_BITS, f64::INFINITY.to_bits());
    assert_eq!(SHADOW_EPSILON_BITS, 0.001f64.to_bits());
    assert_eq!(ONE_BITS, 1.0f64.to_bits());
    assert_eq!(SIGN_BIT, (-0.0f64).to_bits());
    assert_eq!(FRACTION_SPAN, 1u64 << 52);
}

#[test]
fn is_nan_agrees_with_floating_point() {
    for x in samples() {
        assert_eq!(scalar(x).is_nan(), x.is_nan(), "{x:?}");
    }
}

#[test]
fn magnitude_bits_drop_the_sign() {
    for x in samples() {
        assert_eq!(scalar(x).magnitude_bits(), x.to_bits() & !SIGN_BIT);
    }
    assert_eq!(scalar(-1.0).magnitude_bits(), 1.0f64.to_bits());
}

#[test]
fn lt_agrees_with_floating_point_on_every_pair() {
    let all = samples();
    for &a in &all {
        for &b in &all {
            assert_eq!(scalar(a).lt(&scalar(b)), a < b, "{a:?} < {b:?}");
        }
    }
}

#[test]
fn gt_agrees_with_floating_point_on_every_pair() {
    let all = samples();
    for &a in &all {
        for &b in &all {
            assert_eq!(scalar(a).gt(&scalar(b)), a > b, "{a:?} > {b:?}");
        }
    }
}

#[test]
fn lt_agrees_with_floating_point_on_scattered_patterns() {
    let mut state: u64 = 0x9E37_79B9_7F4A_7C15;
    let mut previous = 1.5f64;
    for _ in 0..200_000 {
        state = state.wrapping_mul(6364136223846793005).wrapping_add(1442695040888963407);
        let x = f64::from_bits(state ^ (state >> 29));
        assert_eq!(scalar(x).lt(&scalar(previous)), x < previous, "{x:?} < {previous:?}");
        assert_eq!(scalar(previous).lt(&scalar(x)), previous < x, "{previous:?} < {x:?}");
        previous = x;
    }
}

#[test]
fn the_zeros_are_equal_and_nan_is_unordered() {
    assert!(!scalar(-0.0).lt(&scalar(0.0)));
    assert!(!scalar(0.0).lt(&scalar(-0.0)));
    assert!(!scalar(f64::NAN).lt(&scalar(1.0)));
    assert!(!scalar(1.0).lt(&scalar(f64::NAN)));
    assert!(!scalar(f64::NAN).lt(&scalar(f64::NAN)));
    assert!(scalar(f64::NEG_INFINITY).lt(&scalar(f64::MIN)));
    assert!(scalar(f64::MAX).lt(&scalar(f64::INFINITY)));
    assert!(scalar(-1.0).lt(&scalar(-0.5)));
    assert!(!scalar(-0.5).lt(&scalar(-1.0)));
}
