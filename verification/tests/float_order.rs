use aisth::Float;

fn f(x: f64) -> Float {
    Float::from_bits(x.to_bits())
}

fn samples() -> Vec<f64> {
    vec![
        0.0,
        -0.0,
        1.0,
        -1.0,
        1e-5,
        0.5,
        2.0,
        255.999,
        5e-324,
        -5e-324,
        f64::MIN_POSITIVE,
        f64::EPSILON,
        f64::MAX,
        f64::MIN,
        f64::INFINITY,
        f64::NEG_INFINITY,
        f64::NAN,
        -f64::NAN,
        f64::from_bits(0x7ff0_0000_0000_0001),
        f64::from_bits(0xffff_ffff_ffff_ffff),
    ]
}

#[test]
fn comparisons_agree_with_hardware() {
    for a in samples() {
        for b in samples() {
            assert_eq!(f(a) < f(b), a < b, "{a} < {b}");
            assert_eq!(f(a) <= f(b), a <= b, "{a} <= {b}");
            assert_eq!(f(a) > f(b), a > b, "{a} > {b}");
            assert_eq!(f(a) >= f(b), a >= b, "{a} >= {b}");
            assert_eq!(f(a) == f(b), a == b, "{a} == {b}");
            assert_eq!(f(a) != f(b), a != b, "{a} != {b}");
            assert_eq!(f(a).partial_cmp(&f(b)), a.partial_cmp(&b), "{a} cmp {b}");
        }
    }
}

#[test]
fn classification_agrees_with_hardware() {
    for a in samples() {
        assert_eq!(f(a).is_nan(), a.is_nan());
        assert_eq!(f(a).is_infinite(), a.is_infinite());
        assert_eq!(f(a).is_finite(), a.is_finite());
        assert_eq!(f(a).is_sign_negative(), a.is_sign_negative());
        assert_eq!(f(a).magnitude_bits(), a.abs().to_bits());
    }
}

#[test]
fn negation_flips_the_sign_bit_of_every_value() {
    for a in samples() {
        assert_eq!((-f(a)).to_bits(), (-a).to_bits());
        assert_eq!((-(-f(a))).to_bits(), a.to_bits());
    }
}

#[test]
fn constants_have_the_bits_of_the_hardware_constants() {
    assert_eq!(Float::zero().to_bits(), 0.0f64.to_bits());
    assert_eq!(Float::one().to_bits(), 1.0f64.to_bits());
    assert_eq!(Float::infinity().to_bits(), f64::INFINITY.to_bits());
    assert_eq!(Float::neg_infinity().to_bits(), f64::NEG_INFINITY.to_bits());
    assert_eq!(Float::from_bits(0x4000_0000_0000_0000).to_bits(), 2.0f64.to_bits());
}

#[test]
fn min_and_max_agree_with_hardware_as_numbers() {
    for a in samples() {
        for b in samples() {
            let lo = f64::from_bits(f(a).min(f(b)).to_bits());
            let hi = f64::from_bits(f(a).max(f(b)).to_bits());
            if a.is_nan() && b.is_nan() {
                assert!(lo.is_nan() && hi.is_nan());
            } else {
                assert!(lo == a.min(b), "min({a}, {b}) gave {lo}");
                assert!(hi == a.max(b), "max({a}, {b}) gave {hi}");
            }
        }
    }
}

#[test]
fn min_and_max_do_not_depend_on_argument_order() {
    for a in samples() {
        for b in samples() {
            assert_eq!(f(a).min(f(b)).to_bits(), f(b).min(f(a)).to_bits());
            assert_eq!(f(a).max(f(b)).to_bits(), f(b).max(f(a)).to_bits());
        }
    }
}

#[test]
fn min_of_the_two_zeros_is_the_negative_one() {
    assert_eq!(f(0.0).min(f(-0.0)).to_bits(), (-0.0f64).to_bits());
    assert_eq!(f(-0.0).min(f(0.0)).to_bits(), (-0.0f64).to_bits());
    assert_eq!(f(0.0).max(f(-0.0)).to_bits(), 0.0f64.to_bits());
    assert_eq!(f(-0.0).max(f(0.0)).to_bits(), 0.0f64.to_bits());
}

#[test]
fn min_and_max_ignore_a_single_nan() {
    assert_eq!(f(f64::NAN).min(f(1.0)).to_bits(), 1.0f64.to_bits());
    assert_eq!(f(1.0).min(f(f64::NAN)).to_bits(), 1.0f64.to_bits());
    assert_eq!(f(f64::NAN).max(f(1.0)).to_bits(), 1.0f64.to_bits());
    assert_eq!(f(1.0).max(f(f64::NAN)).to_bits(), 1.0f64.to_bits());
}

#[test]
fn clamp_agrees_with_hardware() {
    let ranges = [(0.0, 1.0), (-1.0, 1.0), (-0.0, 0.0), (1.0, 1.0), (f64::NEG_INFINITY, f64::INFINITY)];
    for (lo, hi) in ranges {
        for a in samples() {
            let got = f(a).clamp(f(lo), f(hi));
            let want = a.clamp(lo, hi);
            if a.is_nan() {
                assert_eq!(got.to_bits(), a.to_bits());
            } else {
                assert_eq!(got.to_bits(), want.to_bits(), "{a} in [{lo}, {hi}]");
            }
        }
    }
}

#[test]
fn clamp_of_exact_values() {
    assert_eq!(f(1.5).clamp(f(0.0), f(1.0)).to_bits(), 1.0f64.to_bits());
    assert_eq!(f(-0.25).clamp(f(0.0), f(1.0)).to_bits(), 0.0f64.to_bits());
    assert_eq!(f(0.75).clamp(f(0.0), f(1.0)).to_bits(), 0.75f64.to_bits());
}
