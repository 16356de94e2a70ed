use codex_gauge::percent::Percent;

fn percent(x: f64) -> Percent {
    Percent { bits: x.to_bits() }
}

fn native_fill(x: f64, track: i32) -> i32 {
    (track as f64 * (x / 100.0)).round() as i32
}

#[test]
fn values_are_clamped() {
    let inputs = [
        -1.0,
        -0.0,
        0.0,
        5e-324,
        99.999,
        100.0,
        100.00000000000001,
        1e300,
        f64::INFINITY,
        f64::NEG_INFINITY,
        f64::NAN,
        -1e-320,
    ];
    for x in inputs {
        let once = percent(x).clamp();
        assert_eq!(once.bits, x.clamp(0.0, 100.0).to_bits());
        assert_eq!(once.clamp(), once);
    }
    assert_eq!(percent(250.0).clamp(), percent(100.0));
}

#[test]
fn limits_are_exclusive() {
    assert!(percent(59.99999999999999).below_sixty());
    assert!(!percent(60.0).below_sixty());
    assert!(percent(84.99999999999999).below_eighty_five());
    assert!(!percent(85.0).below_eighty_five());
    assert!(percent(-3.0).below_sixty());
    assert!(!percent(f64::NAN).below_eighty_five());
    assert!(!percent(f64::INFINITY).below_eighty_five());
}

#[test]
fn figures_are_rounded_half_away_from_zero() {
    let cases = [
        (0.0, 0),
        (0.49999999999999994, 0),
        (0.5, 1),
        (12.5, 13),
        (99.5, 100),
        (12.4999, 12),
        (-0.5, -1),
        (f64::NAN, 0),
        (1e300, i32::MAX),
        (-1e300, i32::MIN),
        (2147483647.4, i32::MAX),
        (-2147483648.4, i32::MIN),
    ];
    for (x, want) in cases {
        assert_eq!(percent(x).round(), want);
        assert_eq!(percent(x).round(), x.round() as i32);
    }
}

#[test]
fn whole_percentages_are_themselves() {
    for n in 0..=100 {
        assert_eq!(percent(n as f64).round(), n);
        assert_eq!(percent(n as f64).clamp(), percent(n as f64));
    }
}

#[test]
fn bars_are_filled_in_proportion() {
    assert_eq!(percent(0.0).fill(208), 0);
    assert_eq!(percent(-0.0).fill(208), 0);
    assert_eq!(percent(50.0).fill(208), 104);
    assert_eq!(percent(12.0).fill(208), 25);
    assert_eq!(percent(100.0).fill(208), 208);
    assert_eq!(percent(f64::NAN).fill(208), 0);
    assert_eq!(percent(100.0).fill(i32::MAX), i32::MAX);
    assert_eq!(percent(100.0).fill(i32::MIN), i32::MIN);
    assert_eq!(percent(25.0).fill(-10), -3);
}

#[test]
fn bars_agree_with_native_arithmetic() {
    let mut x: u64 = 88172645463325252;
    let mut last = 0;
    for i in 0..60000u64 {
        x ^= x << 13;
        x ^= x >> 7;
        x ^= x << 17;
        let fine = (x % 100_000_001) as f64 / 1e6;
        let any = f64::from_bits(x % (100.0f64.to_bits() + 1));
        let steady = 100.0 * (i as f64 / 60000.0);
        // Close to where the outcome changes from one pixel to the next.
        let edge = ((x % 208) as f64 + 0.5) / 208.0 * 100.0;
        for u in [fine, any, steady, edge] {
            assert_eq!(percent(u).fill(208), native_fill(u, 208), "{u}");
            assert_eq!(percent(u).fill(x as i32), native_fill(u, x as i32), "{u}");
            assert_eq!(percent(u).round(), u.round() as i32);
        }
        let grown = percent(steady).fill(208);
        assert!(last <= grown && grown <= 208);
        last = grown;
    }
}

#[test]
fn tiny_values_round_like_native_ones() {
    for bits in [1u64, 2, 49, 50, 51, 150, 0xF_FFFF_FFFF_FFFF, 0x10_0000_0000_0000, 0x70_0000_0000_0001] {
        let u = f64::from_bits(bits);
        assert_eq!(percent(u).fill(208), native_fill(u, 208));
        assert_eq!(percent(u).round(), 0);
    }
}
