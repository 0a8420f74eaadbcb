use stream_pacing::float64::Float64;
use stream_pacing::priority::slack_to_priority;
use stream_pacing::time::{Duration, Instant};

fn f(x: f64) -> Float64 {
    Float64::from_bits(x.to_bits())
}

fn same(ours: Float64, native: f64) -> bool {
    ours.to_bits() == native.to_bits() || (ours.is_nan() && native.is_nan())
}

fn patterns() -> Vec<f64> {
    let mut all = vec![
        0.0,
        -0.0,
        1.0,
        -1.0,
        0.5,
        1.5,
        2.0,
        3.0,
        0.1,
        0.2,
        0.3,
        1e-300,
        1e300,
        -1e300,
        1.7976931348623157e308,
        2.2250738585072014e-308,
        5e-324,
        -5e-324,
        1.1e-308,
        9007199254740992.0,
        9007199254740993.0,
        18446744073709551615.0,
        18446744073709549568.0,
        4503599627370497.5,
        f64::INFINITY,
        f64::NEG_INFINITY,
        f64::NAN,
    ];
    let mut seed: u64 = 0x9E37_79B9_7F4A_7C15;
    for _ in 0..120 {
        seed ^= seed << 13;
        seed ^= seed >> 7;
        seed ^= seed << 17;
        all.push(f64::from_bits(seed));
        // Close to one another, so that sums cancel.
        all.push(1.0 + (seed % 4096) as f64 / 4096.0);
        all.push(((seed >> 11) as f64) * 1e-9);
    }
    all
}

#[test]
fn arithmetic_matches_the_machine() {
    let all = patterns();
    for a in &all {
        for b in &all {
            let (x, y) = (f(*a), f(*b));
            assert!(same(x.add(&y), a + b), "{a:e} + {b:e}");
            assert!(same(x.sub(&y), a - b), "{a:e} - {b:e}");
            assert!(same(x.mul(&y), a * b), "{a:e} * {b:e}");
            assert!(same(x.div(&y), a / b), "{a:e} / {b:e}");
            assert_eq!(x.lt(&y), a < b);
            assert_eq!(x.le(&y), a <= b);
        }
    }
}

#[test]
fn selection_matches_the_machine() {
    let all = patterns();
    for a in &all {
        for b in &all {
            if *a == *b {
                continue;
            }
            let (x, y) = (f(*a), f(*b));
            assert!(same(x.max(&y), a.max(*b)));
            assert!(same(x.min(&y), a.min(*b)));
        }
        assert!(same(f(*a).clamp(&f(0.05), &f(1.0)), a.clamp(0.05, 1.0)));
        assert!(same(f(*a).neg(), -a));
    }
}

#[test]
fn conversion_matches_the_machine() {
    for a in patterns() {
        let x = f(a);
        assert_eq!(x.to_u64(), a as u64, "{a:e}");
        assert_eq!(x.is_nan(), a.is_nan());
        assert_eq!(x.is_finite(), a.is_finite());
        assert_eq!(x.is_zero(), a == 0.0);
        let n = a as u64;
        assert!(same(Float64::from_u64(n), n as f64));
    }
    for n in [0, 1, 3, u64::MAX, u64::MAX - 1024, (1 << 53) + 1, (1 << 54) + 2, (1 << 54) + 6] {
        assert!(same(Float64::from_u64(n), n as f64));
    }
    assert!(same(Float64::ratio(1, 3), 1.0 / 3.0));
    assert!(same(Float64::ratio(8, 10), 0.8));
    assert!(same(Float64::ratio(55547, 10_000), 5.5547));
}

#[test]
fn seconds_match_the_machine() {
    let spans: [(u64, u32); 9] = [
        (0, 0),
        (0, 1),
        (0, 999_999_999),
        (1, 500_000_000),
        (3, 141_592_653),
        (86_400, 7),
        (1 << 53, 999_999_999),
        (u64::MAX, 999_999_999),
        (123_456_789, 123_456_789),
    ];
    for (secs, nanos) in spans {
        let native = std::time::Duration::new(secs, nanos);
        let ours = Duration::from_nanos(native.as_nanos());
        assert_eq!(ours.as_nanos(), native.as_nanos());
        assert_eq!(ours.as_micros(), native.as_micros() as u64);
        assert!(same(ours.seconds(), native.as_secs_f64()));
        assert_eq!(ours.half().as_nanos(), (native / 2).as_nanos());
    }
}

#[test]
fn spans_are_rounded_like_the_machine() {
    for a in patterns() {
        let native = std::time::Duration::try_from_secs_f64(a).ok();
        let ours = Duration::from_seconds(f(a));
        assert_eq!(ours.map(|d| d.as_nanos()), native.map(|d| d.as_nanos()), "{a:e}");
    }
    for a in [0.5e-9, 1.5e-9, 2.5e-9, 0.123456789499, 1e-10, 4.4999e-9, 18446744073709549568.0] {
        let native = std::time::Duration::from_secs_f64(a);
        assert_eq!(Duration::from_seconds(f(a)).unwrap().as_nanos(), native.as_nanos());
    }
}

#[test]
fn points_in_time_are_shifted() {
    let start = Instant::after_origin(Duration::from_millis(5));
    let later = start.later(Duration::from_millis(7));
    assert_eq!(later.position(), 12_000_000);
    assert_eq!(later.saturating_duration_since(start).as_nanos(), 7_000_000);
    assert_eq!(start.saturating_duration_since(later).as_nanos(), 0);
}

#[test]
fn slack_falls_into_bands() {
    let bands = [
        (f64::NAN, 127),
        (f64::INFINITY, 127),
        (f64::NEG_INFINITY, 127),
        (-3.0, 0),
        (0.0, 0),
        (-0.0, 0),
        (5e-324, 8),
        (49.999, 8),
        (50.0, 16),
        (99.9, 16),
        (100.0, 32),
        (249.0, 32),
        (250.0, 64),
        (499.9, 64),
        (500.0, 96),
        (999.9, 96),
        (1000.0, 127),
        (1e300, 127),
    ];
    for (slack, priority) in bands {
        assert_eq!(slack_to_priority(f(slack)), priority);
    }
}
