use rust_mm_bot::binary64::Binary64;

fn num(x: f64) -> Binary64 {
    Binary64::from_bits(x.to_bits())
}

fn float(x: Binary64) -> f64 {
    f64::from_bits(x.to_bits())
}

/// The same number; one not-a-number counts as another.
fn same(a: Binary64, b: f64) -> bool {
    if b.is_nan() {
        a.is_nan()
    } else {
        a.to_bits() == b.to_bits()
    }
}

/// Corner cases first, then patterns from a linear congruential generator, half of them with
/// exponents close together.
fn samples() -> Vec<f64> {
    let mut list = vec![
        0.0,
        -0.0,
        1.0,
        -1.0,
        0.01,
        0.1,
        0.001,
        0.5,
        0.503,
        5.5,
        20.0,
        1e-12,
        1e300,
        -1e300,
        f64::MAX,
        f64::MIN,
        f64::MIN_POSITIVE,
        f64::EPSILON,
        f64::INFINITY,
        f64::NEG_INFINITY,
        f64::NAN,
        f64::from_bits(1),
        f64::from_bits(2),
        f64::from_bits(3),
        f64::from_bits(0x000F_FFFF_FFFF_FFFF),
        f64::from_bits(0x0010_0000_0000_0001),
        f64::from_bits(0x3FF0_0000_0000_0001),
        f64::from_bits(0x3FEF_FFFF_FFFF_FFFF),
        f64::from_bits(0xFFF8_0000_0000_0001),
    ];
    let mut state: u64 = 0x2545_F491_4F6C_DD1D;
    for i in 0..400 {
        state = state.wrapping_mul(6364136223846793005).wrapping_add(1442695040888963407);
        let mut bits = state ^ (state >> 29);
        if i % 2 == 0 {
            bits = (bits & 0x803F_FFFF_FFFF_FFFF) | 0x3FC0_0000_0000_0000;
        }
        list.push(f64::from_bits(bits));
    }
    list
}

#[test]
fn arithmetic_agrees_with_the_machine() {
    let list = samples();
    for &a in &list {
        for &b in &list {
            assert!(same(num(a).plus(num(b)), a + b), "{:e} + {:e}", a, b);
            assert!(same(num(a).minus(num(b)), a - b), "{:e} - {:e}", a, b);
            assert!(same(num(a).times(num(b)), a * b), "{:e} * {:e}", a, b);
        }
    }
}

#[test]
fn neighbours_agree_with_the_machine() {
    for &a in &samples() {
        for step in 0..64u64 {
            let b = f64::from_bits(a.to_bits().wrapping_add(step));
            let scaled = f64::from_bits(b.to_bits().wrapping_sub((step % 60) << 52));
            assert!(same(num(a).minus(num(b)), a - b));
            assert!(same(num(a).plus(num(scaled)), a + scaled));
            assert!(same(num(a).minus(num(scaled)), a - scaled));
        }
    }
}

#[test]
fn comparisons_agree_with_the_machine() {
    let list = samples();
    for &a in &list {
        assert_eq!(num(a).is_nan(), a.is_nan());
        assert_eq!(num(a).is_positive(), a.is_finite() && a > 0.0);
        assert_eq!(num(a).abs().to_bits(), a.abs().to_bits());
        assert_eq!(num(a).negated().to_bits(), (-a).to_bits());
        assert_eq!(float(num(a).clamp_to_zero()), a.max(0.0));
        for &b in &list {
            assert_eq!(num(a).less_than(num(b)), a < b);
            assert_eq!(num(a).at_most(num(b)), a <= b);
            assert_eq!(num(a).ranks_below(num(b)), a.total_cmp(&b).is_lt());
        }
    }
}

#[test]
fn sums_and_products_have_exact_values() {
    assert_eq!(float(num(0.1).plus(num(0.2))), 0.30000000000000004);
    assert_eq!(float(num(0.5).minus(num(0.055))), 0.445);
    assert_eq!(float(num(5.5).times(num(0.01))), 0.055);
    assert_eq!(num(1.0).minus(num(1.0)).to_bits(), 0);
    assert_eq!(num(-0.0).plus(num(-0.0)).to_bits(), (-0.0f64).to_bits());
    assert!(num(f64::INFINITY).minus(num(f64::INFINITY)).is_nan());
    assert!(num(f64::INFINITY).times(num(0.0)).is_nan());
    assert_eq!(float(num(f64::MAX).plus(num(f64::MAX))), f64::INFINITY);
}
