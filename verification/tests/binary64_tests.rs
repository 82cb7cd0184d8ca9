use vhs_gui::binary64::Binary64;

fn num(x: f64) -> Binary64 {
    Binary64::from_bits(x.to_bits())
}

fn samples() -> Vec<f64> {
    let mut all = vec![
        0.0, -0.0, 1.0, -1.0, 0.5, 0.999999999999, 59.9, 60.0, 3599.999, 3600.0, 7325.4, 1e15, 4503599627370495.5, 9007199254740993.0,
        1.8446744073709550e19, 1.8446744073709552e19, 1e30, f64::MAX, f64::MIN, f64::MIN_POSITIVE, 5e-324, -5e-324, f64::INFINITY,
        f64::NEG_INFINITY, f64::NAN, 0.001, 0.0009999999999999998, 0.0010000000000000002,
    ];
    let mut state = 0x9E37_79B9_7F4A_7C15u64;
    for _ in 0..2000 {
        state = state.wrapping_mul(6364136223846793005).wrapping_add(1442695040888963407);
        all.push(f64::from_bits(state));
        all.push((state >> 20) as f64 / 1024.0);
    }
    all
}

#[test]
fn truncation_is_that_of_a_cast() {
    for x in samples() {
        assert_eq!(num(x).truncated(), x as u64, "{x:e}");
    }
}

#[test]
fn signs_and_zeros_are_told() {
    for x in samples() {
        assert_eq!(num(x).is_positive(), x > 0.0, "{x:e}");
        assert_eq!(num(x).is_zero(), x == 0.0, "{x:e}");
        assert_eq!(num(x).not_a_number(), x.is_nan(), "{x:e}");
    }
}

#[test]
fn order_is_that_of_floating_point() {
    let all = samples();
    for &a in all.iter().take(200) {
        for &b in all.iter().take(200) {
            assert_eq!(num(a).less(num(b)), a < b, "{a:e} {b:e}");
        }
    }
}

#[test]
fn equality_is_that_of_floating_point() {
    let all = samples();
    for &a in all.iter().take(200) {
        for &b in all.iter().take(200) {
            assert_eq!(num(a) == num(b), a == b, "{a:e} {b:e}");
        }
    }
}
