use rand::rngs::StdRng;
use rand::SeedableRng;
use stream_pacing::bbr::admission::DeadlineState;
use stream_pacing::bbr::config::BbrConfig;
use stream_pacing::bbr::controller::Bbr;
use stream_pacing::float64::Float64;
use stream_pacing::time::{Duration, Instant};

fn at(ms: u64) -> Instant {
    Instant::after_origin(Duration::from_millis(ms))
}

fn n(x: Float64) -> f64 {
    f64::from_bits(x.to_bits())
}

fn scheduler() -> Bbr {
    let config = BbrConfig::default().enable_deadline_scheduler(true);
    let mut bbr = Bbr::new(config, 1200, StdRng::seed_from_u64(1));
    bbr.state.min_rtt = Duration::from_millis(40);
    bbr.state.pacing_rate = 150_000;
    bbr
}

// 150 000 bytes per second are 125 packets, of which 0.8 are trusted.
const BANDWIDTH: u64 = 900_000;

#[test]
fn everything_is_admitted_without_the_scheduler() {
    let bbr = Bbr::new(BbrConfig::default(), 1200, StdRng::seed_from_u64(1));
    let mut queue = DeadlineState::default();
    assert!(bbr.state.can_admit_object(&mut queue, 1 << 40, at(0), at(9), Duration::zero(), 0));
    let off = Bbr::new(
        BbrConfig::default().enable_deadline_scheduler(false),
        1200,
        StdRng::seed_from_u64(1),
    );
    assert!(off.state.can_admit_object(&mut queue, 1 << 40, at(0), at(9), Duration::zero(), 0));
    assert_eq!(n(queue.q_pkts), 0.0);
    assert_eq!(queue.last, None);
    assert_eq!(off.state.suggest_priority(1, at(5000), at(0), Duration::from_millis(1), 9), 0);
}

#[test]
fn nothing_is_admitted_without_capacity() {
    let mut bbr = scheduler();
    bbr.state.cwnd = 0;
    bbr.state.pacing_rate = 0;
    let mut queue = DeadlineState::default();
    let hint = Duration::from_millis(40);
    assert!(!bbr.state.can_admit_object(&mut queue, 10, at(1_000_000), at(0), hint, 0));
    assert_eq!(queue.last, None);
}

#[test]
fn objects_are_admitted_if_they_arrive_in_time() {
    let bbr = scheduler();
    let hint = Duration::from_millis(500);
    let size = 1200 * 10 - 1;
    // Ten packets at a hundred per second, half a round trip and the guard.
    let needed = 100 + 20 + 10;
    let mut queue = DeadlineState::default();
    assert!(bbr.state.admission_in_range(&queue, size, at(0), hint, BANDWIDTH));
    assert!(!bbr.state.can_admit_object(&mut queue, size, at(needed - 1), at(0), hint, BANDWIDTH));
    assert_eq!(n(queue.q_pkts), 0.0);
    assert!(bbr.state.can_admit_object(&mut queue, size, at(needed), at(0), hint, BANDWIDTH));
    assert_eq!(n(queue.q_pkts), 10.0);
    assert_eq!(queue.last, Some(at(0)));
    // The second object waits for the first.
    let later = 200 + 20 + 10;
    assert!(!bbr.state.can_admit_object(&mut queue, size, at(later - 1), at(0), hint, BANDWIDTH));
    assert_eq!(n(queue.q_pkts), 10.0);
    assert!(bbr.state.can_admit_object(&mut queue, size, at(later), at(0), hint, BANDWIDTH));
    assert_eq!(n(queue.q_pkts), 20.0);
}

#[test]
fn the_queue_drains() {
    let bbr = scheduler();
    let hint = Duration::from_millis(500);
    let mut queue = DeadlineState::default();
    assert!(bbr.state.can_admit_object(&mut queue, 24_000, at(9000), at(0), hint, BANDWIDTH));
    assert_eq!(n(queue.q_pkts), 20.0);
    assert!(!bbr.state.can_admit_object(&mut queue, 24_000, at(0), at(50), hint, BANDWIDTH));
    let pps = (150_000f64 * 8.0 / 8.0 / 1200.0).max(1.0) * 0.8;
    assert_eq!(n(queue.q_pkts), (20.0 - pps * 0.05).max(0.0));
    assert_eq!(queue.last, Some(at(50)));
    // No time passes, nothing drains.
    let before = n(queue.q_pkts);
    queue.deadline_decay_queue(at(50), Float64::from_u64(100));
    assert_eq!(n(queue.q_pkts), before);
    // A rate of zero drains nothing.
    queue.deadline_decay_queue(at(90), Float64::from_u64(0));
    assert_eq!(n(queue.q_pkts), before);
    assert_eq!(queue.last, Some(at(50)));
    queue.deadline_decay_queue(at(10_000), Float64::from_u64(100));
    assert_eq!(n(queue.q_pkts), 0.0);
}

#[test]
fn an_empty_object_takes_one_packet() {
    let bbr = scheduler();
    let hint = Duration::from_millis(500);
    let mut queue = DeadlineState::default();
    assert!(bbr.state.can_admit_object(&mut queue, 0, at(9000), at(0), hint, BANDWIDTH));
    assert_eq!(n(queue.q_pkts), 1.0);
}

#[test]
fn the_hint_counts_only_without_a_measurement() {
    let mut bbr = scheduler();
    bbr.state.min_rtt = Duration::zero();
    let mut queue = DeadlineState::default();
    let hint = Duration::from_millis(200);
    assert!(!bbr.state.can_admit_object(&mut queue, 1200, at(119), at(0), hint, BANDWIDTH));
    assert!(bbr.state.can_admit_object(&mut queue, 1200, at(120), at(0), hint, BANDWIDTH));
    // A tiny hint is raised to five milliseconds.
    let mut queue = DeadlineState::default();
    let deadline = Instant::after_origin(Duration::from_nanos(22_499_999));
    let hint = Duration::from_nanos(1);
    assert!(!bbr.state.can_admit_object(&mut queue, 1200, deadline, at(0), hint, BANDWIDTH));
    let deadline = Instant::after_origin(Duration::from_nanos(22_500_000));
    assert!(bbr.state.can_admit_object(&mut queue, 1200, deadline, at(0), hint, BANDWIDTH));
}

#[test]
fn the_least_capacity_counts() {
    let mut bbr = scheduler();
    bbr.state.cwnd = 240;
    bbr.state.pacing_rate = 1 << 40;
    let hint = Duration::zero();
    let mut queue = DeadlineState::default();
    // 240 bytes per 40 ms are five packets per second, of which four are trusted.
    let cwnd_bps: f64 = (240.0 * 8.0) / 0.04;
    let pps = (cwnd_bps / 8.0 / 1200.0).max(1.0) * 0.8;
    let sending = std::time::Duration::from_secs_f64(1.0 / pps).as_nanos();
    let needed = sending + 20_000_000 + 10_000_000;
    let early = Instant::after_origin(Duration::from_nanos(needed - 1));
    let in_time = Instant::after_origin(Duration::from_nanos(needed));
    assert!(!bbr.state.can_admit_object(&mut queue, 1, early, at(0), hint, 1 << 40));
    assert!(bbr.state.can_admit_object(&mut queue, 1, in_time, at(0), hint, 1 << 40));
}

#[test]
fn requests_out_of_range_are_noticed() {
    let mut bbr = scheduler();
    let queue = DeadlineState::default();
    let hint = Duration::from_millis(1);
    assert!(!bbr.state.admission_in_range(&queue, u64::MAX, at(0), hint, BANDWIDTH));
    bbr.state.config = bbr.state.config.default_mss(0);
    assert!(!bbr.state.admission_in_range(&queue, 1, at(0), hint, BANDWIDTH));
    assert!(!bbr.state.slack_in_range(1, at(0), hint));
    let mut negative = scheduler();
    negative.state.config = negative.state.config.beta(Float64::from_bits((-1.0f64).to_bits()));
    assert!(!negative.state.admission_in_range(&queue, 1, at(0), hint, BANDWIDTH));
    assert!(negative.state.slack_in_range(1, at(0), hint));
}

#[test]
fn priorities_follow_the_slack() {
    let bbr = scheduler();
    let rtt = Duration::from_millis(40);
    let native = |deadline_ms: f64| -> f64 {
        let app = BANDWIDTH as f64;
        let cwnd = (240_000u64 * 8) as f64 / 0.04;
        let pps = (app.min(cwnd) / 8.0 / 1200.0 * 0.8).max(1.0);
        ((deadline_ms / 1000.0 - 0.02).max(0.0) - 10.0 / pps - 0.01) * 1000.0
    };
    let cases = [(10u64, 0), (160, 0), (200, 8), (250, 16), (300, 32), (500, 64), (1000, 96)];
    for (deadline, priority) in cases {
        let slack = native(deadline as f64);
        let band = if slack <= 0.0 {
            0
        } else if slack < 50.0 {
            8
        } else if slack < 100.0 {
            16
        } else if slack < 250.0 {
            32
        } else if slack < 500.0 {
            64
        } else if slack < 1000.0 {
            96
        } else {
            127
        };
        assert_eq!(band, priority);
        assert!(bbr.state.slack_in_range(12_000, at(0), rtt));
        assert_eq!(bbr.state.suggest_priority(12_000, at(deadline), at(0), rtt, BANDWIDTH), priority);
    }
    assert_eq!(bbr.state.suggest_priority(12_000, at(5000), at(0), rtt, BANDWIDTH), 127);
}
