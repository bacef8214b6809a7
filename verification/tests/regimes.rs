use rust_mm_bot::binary64::Binary64;
use rust_mm_bot::regime::{classify_tick_regime, classify_tick_regime_label, TickRegime};

fn label(tick: f64) -> &'static str {
    classify_tick_regime_label(Binary64::from_bits(tick.to_bits()))
}

#[test]
fn ticks_in_dollars_and_in_cents_are_recognised() {
    assert_eq!(label(0.01), "coarse");
    assert_eq!(label(1.0), "coarse");
    assert_eq!(label(0.001), "fine");
    assert_eq!(label(0.1), "fine");
    assert_eq!(label(0.0001), "unsupported");
    assert_eq!(label(0.0), "unsupported");
    assert_eq!(label(-0.01), "unsupported");
    assert_eq!(label(f64::NAN), "unsupported");
    assert_eq!(label(f64::INFINITY), "unsupported");
    assert_eq!(
        classify_tick_regime(Binary64::from_bits(0.01f64.to_bits())),
        TickRegime::Coarse
    );
}

#[test]
fn tolerances_end_where_the_machine_ends_them() {
    for (target, tolerance, name) in [
        (0.01f64, 1e-9f64, "coarse"),
        (1.0, 1e-6, "coarse"),
        (0.001, 1e-12, "fine"),
        (0.1, 1e-6, "fine"),
    ] {
        for edge in [target - tolerance, target + tolerance] {
            for step in -200i64..200 {
                let tick = f64::from_bits((edge.to_bits() as i64 + step) as u64);
                let near = (tick - target).abs() < tolerance;
                assert_eq!(label(tick) == name, near, "{:e}", tick);
            }
        }
    }
}
