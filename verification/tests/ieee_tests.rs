use vhs_gui::binary64::Binary64;
use vhs_gui::ieee::round;

fn num(x: f64) -> Binary64 {
    Binary64::from_bits(x.to_bits())
}

/// Whether `r` is `expected`, to the bit unless that is not a number.
fn same(r: Binary64, expected: f64) -> bool {
    if expected.is_nan() {
        r.not_a_number()
    } else {
        r.bits == expected.to_bits()
    }
}

fn samples() -> Vec<f64> {
    let mut all = vec![
        0.0, -0.0, 1.0, -1.0, 2.0, 3.0, 0.1, 1.0 / 3.0, 60.0, 100.0, 3600.0, 1e-9, 12345.678, 1e308, -1e308, f64::MAX, f64::MIN,
        f64::MIN_POSITIVE, -f64::MIN_POSITIVE, 5e-324, -5e-324, 1.5e-323, 2.2250738585072009e-308, f64::EPSILON, 1.0 + f64::EPSILON,
        1.0 - f64::EPSILON / 2.0, 9007199254740991.0, 9007199254740993.0, f64::INFINITY, f64::NEG_INFINITY, f64::NAN,
    ];
    let mut state = 0x1234_5678_9ABC_DEFFu64;
    for i in 0..220u64 {
        state = state.wrapping_mul(6364136223846793005).wrapping_add(1442695040888963407);
        let bits = state ^ (state >> 29);
        all.push(f64::from_bits(bits));
        // Exponents close to each other, and close to the subnormal range.
        all.push(f64::from_bits((bits & 0x800F_FFFF_FFFF_FFFF) | ((1000 + i % 60) << 52)));
        all.push(f64::from_bits((bits & 0x800F_FFFF_FFFF_FFFF) | ((i % 4) << 52)));
    }
    all
}

#[test]
fn arithmetic_is_that_of_the_hardware() {
    let all = samples();
    for &a in &all {
        for &b in &all {
            let (x, y) = (num(a), num(b));
            assert!(same(x.plus(y), a + b), "{a:e} + {b:e}");
            assert!(same(x.times(y), a * b), "{a:e} * {b:e}");
            assert!(same(x.divided_by(y), a / b), "{a:e} / {b:e}");
        }
        assert!(same(num(a).negated(), -a));
        assert!(same(num(a).absolute(), a.abs()));
        assert_eq!(num(a).infinite(), a.is_infinite());
    }
}

#[test]
fn remainders_are_those_of_the_hardware() {
    for a in samples() {
        for c in [1u64, 2, 7, 60, 3600, 1 << 52, (1 << 53) - 1, 1 << 53] {
            assert!(same(num(a).remainder(c), a % (c as f64)), "{a:e} % {c}");
        }
        assert!(num(a).remainder(0).not_a_number());
    }
}

#[test]
fn halves_go_to_the_even_neighbour() {
    assert_eq!(round(1, false, 0, 0), 1);
    assert_eq!(round(1, false, 0, 1), 0);
    assert_eq!(round(3, false, 0, 1), 2);
    assert_eq!(round(5, false, 0, 1), 2);
    assert_eq!(round((1 << 53) + 1, false, 1074, 0), 9007199254740992.0f64.to_bits());
    assert_eq!(round((1 << 53) + 3, false, 1074, 0), 9007199254740996.0f64.to_bits());
    assert_eq!(round((1 << 60) + (1 << 7), false, 1074, 0), (((1u128 << 60) + (1 << 7)) as f64).to_bits());
    assert_eq!(round((1 << 60) + (1 << 7), true, 1074, 0), (((1u128 << 60) + (1 << 7) + 1) as f64).to_bits());
    assert_eq!(round(1, false, 2098, 0), f64::INFINITY.to_bits());
}
