use processor::double::Double;

fn double(x: f64) -> Double {
    Double::from_bits(x.to_bits())
}

fn float(x: Double) -> f64 {
    f64::from_bits(x.to_bits())
}

/// Whether the library's result is the hardware's: the same bits, or both NaN.
fn same(ours: Double, theirs: f64) -> bool {
    if theirs.is_nan() {
        float(ours).is_nan()
    } else {
        ours.to_bits() == theirs.to_bits()
    }
}

fn samples() -> Vec<f64> {
    let mut values = vec![
        0.0,
        1.0,
        2.0,
        3.0,
        5.0,
        9.0,
        10.0,
        25.0,
        32.0,
        37.0,
        100.0,
        190.0,
        1000.0,
        0.1,
        0.2,
        0.3,
        0.5,
        0.7,
        0.8,
        1.1,
        3.6,
        14.5038,
        273.15,
        19.99,
        29.9,
        250.1,
        1.0 / 3.0,
        2.0 / 3.0,
        std::f64::consts::PI,
        std::f64::consts::E,
        1e-5,
        1e10,
        1e15,
        1e16,
        1e17,
        1e22,
        1e23,
        1e100,
        1e154,
        1e155,
        1e200,
        1e300,
        1e308,
        1.7e308,
        1e-100,
        1e-154,
        1e-160,
        1e-200,
        1e-300,
        1e-307,
        1e-308,
        1e-310,
        1e-320,
        4.9e-324,
        5e-324,
        1e-323,
        f64::MIN_POSITIVE,
        f64::MIN_POSITIVE / 2.0,
        f64::MIN_POSITIVE * 1.5,
        f64::MAX,
        f64::MAX / 2.0,
        f64::MAX / 3.0,
        f64::EPSILON,
        1.0 + f64::EPSILON,
        1.0 - f64::EPSILON / 2.0,
        2.0 - f64::EPSILON,
        4503599627370496.0,
        4503599627370497.0,
        9007199254740991.0,
        9007199254740992.0,
        9007199254740994.0,
        18014398509481984.0,
        0.49999999999999994,
        0.5000000000000001,
        1.5,
        2.5,
        3.5,
        1e-17,
        f64::INFINITY,
        f64::NAN,
    ];
    // A scatter of bit patterns across the binades.
    let mut seed: u64 = 0x9E37_79B9_7F4A_7C15;
    for _ in 0..60 {
        seed = seed.wrapping_mul(6364136223846793005).wrapping_add(1442695040888963407);
        values.push(f64::from_bits(seed));
        values.push(f64::from_bits((seed >> 12) | 0x3ff0_0000_0000_0000));
    }
    let negatives: Vec<f64> = values.iter().map(|v| -v).collect();
    values.extend(negatives);
    values
}

#[test]
fn products_are_the_hardware_products() {
    for a in samples() {
        for b in samples() {
            assert!(same(double(a).times(double(b)), a * b), "{a:e} * {b:e}");
        }
    }
}

#[test]
fn quotients_are_the_hardware_quotients() {
    for a in samples() {
        for b in samples() {
            assert!(same(double(a).over(double(b)), a / b), "{a:e} / {b:e}");
        }
    }
}

#[test]
fn sums_are_the_hardware_sums() {
    for a in samples() {
        for b in samples() {
            assert!(same(double(a).plus(double(b)), a + b), "{a:e} + {b:e}");
        }
    }
}

#[test]
fn differences_are_the_hardware_differences() {
    for a in samples() {
        for b in samples() {
            assert!(same(double(a).minus(double(b)), a - b), "{a:e} - {b:e}");
        }
    }
}

#[test]
fn ties_go_to_the_even_neighbour() {
    // 2^53 + 1 lies halfway between 2^53 and 2^53 + 2.
    let big = double(9007199254740992.0);
    assert_eq!(float(big.plus(double(1.0))), 9007199254740992.0);
    assert_eq!(float(big.plus(double(3.0))), 9007199254740996.0);
    assert_eq!(float(double(9007199254740994.0).plus(double(1.0))), 9007199254740996.0);
    // Half of the least step is a tie between zero and the least step.
    assert_eq!(float(double(5e-324).over(double(2.0))), 0.0);
    assert_eq!(float(double(1.5e-323).over(double(2.0))), 1e-323);
}

#[test]
fn overflow_gives_infinity() {
    assert_eq!(float(double(f64::MAX).times(double(2.0))), f64::INFINITY);
    assert_eq!(float(double(f64::MAX).plus(double(f64::MAX))), f64::INFINITY);
    assert_eq!(float(double(-f64::MAX).minus(double(f64::MAX))), f64::NEG_INFINITY);
    assert_eq!(float(double(1e308).over(double(1e-308))), f64::INFINITY);
    assert_eq!(float(double(f64::MAX).plus(double(1.0))), f64::MAX);
    // Half a last place beyond the largest number is a tie that goes up.
    assert_eq!(float(double(f64::MAX).plus(double(9.979201547673599e291))), f64::INFINITY);
    assert_eq!(float(double(f64::MAX).plus(double(9.979201547673598e291))), f64::MAX);
}

#[test]
fn zeros_keep_their_sign() {
    assert_eq!(double(0.0).plus(double(-0.0)).to_bits(), 0.0f64.to_bits());
    assert_eq!(double(-0.0).plus(double(-0.0)).to_bits(), (-0.0f64).to_bits());
    assert_eq!(double(1.0).minus(double(1.0)).to_bits(), 0.0f64.to_bits());
    assert_eq!(double(-1.0).plus(double(1.0)).to_bits(), 0.0f64.to_bits());
    assert_eq!(double(-1.0).times(double(0.0)).to_bits(), (-0.0f64).to_bits());
    assert_eq!(double(0.0).over(double(-5.0)).to_bits(), (-0.0f64).to_bits());
    assert_eq!(double(1.0).over(double(f64::NEG_INFINITY)).to_bits(), (-0.0f64).to_bits());
    assert_eq!(double(1e-200).times(double(-1e-200)).to_bits(), (-0.0f64).to_bits());
}

#[test]
fn operations_without_a_value_give_nan() {
    let inf = double(f64::INFINITY);
    let zero = double(0.0);
    for nan in [
        inf.minus(inf),
        inf.plus(inf.negated()),
        inf.times(zero),
        zero.times(inf.negated()),
        zero.over(zero),
        inf.over(inf),
        double(f64::NAN).plus(double(1.0)),
        double(1.0).times(double(f64::NAN)),
        double(1.0).over(double(f64::NAN)),
        double(f64::NAN).minus(double(f64::NAN)),
    ] {
        assert!(nan.is_nan());
        assert_eq!(nan.to_bits(), 0x7ff8_0000_0000_0000);
    }
    assert_eq!(float(double(1.0).over(zero)), f64::INFINITY);
    assert_eq!(float(double(-1.0).over(zero)), f64::NEG_INFINITY);
    assert_eq!(float(inf.plus(double(-1e308))), f64::INFINITY);
}

#[test]
fn negation_flips_the_sign() {
    for x in samples() {
        assert!(same(double(x).negated(), -x) || x.is_nan());
        assert_eq!(double(x).is_zero(), x == 0.0);
    }
}
