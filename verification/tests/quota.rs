use codex_gauge::percent::Percent;
use codex_gauge::quota::{Quota, Window};

fn window(resets_at: i64, window_mins: i64) -> Window {
    Window { used_percent: Percent { bits: 12.0f64.to_bits() }, resets_at, window_mins }
}

#[test]
fn labels_are_short() {
    let cases = [
        (0, "quota"),
        (300, "5h"),
        (10_080, "1w"),
        (10_000, "1w"),
        (9_999, "9999m"),
        (9_960, "166h"),
        (60, "1h"),
        (59, "59m"),
        (90, "90m"),
        (1, "1m"),
        (-60, "-60m"),
        (i64::MIN, "-9223372036854775808m"),
        (i64::MAX, "1w"),
    ];
    for (mins, want) in cases {
        assert_eq!(window(0, mins).label(), want);
    }
}

#[test]
fn the_soonest_known_reset_wins() {
    let quota = |a: Option<i64>, b: Option<i64>| Quota {
        primary: a.map(|t| window(t, 300)),
        secondary: b.map(|t| window(t, 10_080)),
        connected: true,
    };
    let next = |a, b| quota(a, b).next_reset().map(|w| (w.resets_at, w.window_mins));
    assert_eq!(next(Some(10), Some(20)), Some((10, 300)));
    assert_eq!(next(Some(30), Some(20)), Some((20, 10_080)));
    assert_eq!(next(Some(20), Some(20)), Some((20, 300)));
    assert_eq!(next(Some(0), Some(20)), Some((20, 10_080)));
    assert_eq!(next(Some(10), Some(-5)), Some((10, 300)));
    assert_eq!(next(None, Some(20)), Some((20, 10_080)));
    assert_eq!(next(Some(-1), Some(0)), None);
    assert_eq!(next(None, None), None);
}

#[test]
fn a_disconnected_quota_is_empty() {
    let q = Quota::disconnected();
    assert_eq!(q, Quota { primary: None, secondary: None, connected: false });
    assert_eq!(q, Quota::default());
    assert_eq!(Window::default(), Window { used_percent: Percent { bits: 0 }, resets_at: 0, window_mins: 0 });
}
