use rand::rngs::StdRng;
use rand::SeedableRng;
use stream_pacing::bbr::batch::AckBatch;
use stream_pacing::bbr::config::{BbrConfig, DeadlineConfig};
use stream_pacing::bbr::controller::Bbr;
use stream_pacing::bbr::gain::Gain;
use stream_pacing::bbr::state::{AckAggregationState, Mode, RecoveryState};
use stream_pacing::float64::Float64;
use stream_pacing::time::{Duration, Instant};

fn at(ms: u64) -> Instant {
    Instant::after_origin(Duration::from_millis(ms))
}

fn controller(config: BbrConfig) -> Bbr {
    let mut bbr = Bbr::new(config, 1200, StdRng::seed_from_u64(1));
    bbr.state.newly_acked = 1200;
    bbr
}

fn batch(ms: u64, bandwidth: u64) -> AckBatch {
    AckBatch {
        now: at(ms),
        in_flight: 50_000,
        app_limited: false,
        largest_packet_num_acked: None,
        bandwidth,
        initial_rate: 777_777,
        max_ack_height: 0,
    }
}

#[test]
fn a_fresh_controller_is_in_startup() {
    let bbr = controller(BbrConfig::default());
    assert_eq!(bbr.state.mode, Mode::Startup);
    assert_eq!(bbr.state.cwnd, 240_000);
    assert_eq!(bbr.initial_window(), 240_000);
    assert_eq!(bbr.state.min_cwnd, 4800);
    assert_eq!(bbr.window(0), 240_000);
    let metrics = bbr.metrics(0);
    assert_eq!(metrics.congestion_window, 240_000);
    assert_eq!(metrics.pacing_rate, Some(0));
    assert_eq!(metrics.ssthresh, None);
}

#[test]
fn gains_are_single_precision_numbers() {
    let high = 2.885f32;
    let gains = [
        (Gain::High, high),
        (Gain::Drain, 1.0 / high),
        (Gain::Up, 1.25),
        (Gain::Down, 0.75),
        (Gain::Unit, 1.0),
        (Gain::Double, 2.0),
    ];
    for (gain, native) in gains {
        assert_eq!(gain.factor().to_bits(), (native as f64).to_bits());
        assert_eq!(gain.is_above_one(), native > 1.0);
        assert_eq!(gain.is_below_one(), native < 1.0);
        for n in [0u64, 1, 2, 3, 4, 1 << 24, (1 << 24) + 1, u64::MAX] {
            assert_eq!(gain.is_below(n), native < n as f32);
        }
    }
    let cycle = [1.25f32, 0.75, 1.0, 1.0, 1.0, 1.0, 1.0, 1.0];
    for (phase, native) in cycle.iter().enumerate() {
        assert_eq!(
            Gain::in_phase(phase as u8).factor().to_bits(),
            (*native as f64).to_bits()
        );
    }
}

#[test]
fn target_windows_scale_the_product() {
    let mut bbr = controller(BbrConfig::default());
    assert_eq!(bbr.state.get_target_cwnd(Gain::Unit, 5_000_000), 240_000);
    bbr.on_ack(at(1), 1200, false, Duration::from_millis(37));
    for bandwidth in [1u64, 1000, 123_457, 9_999_991] {
        for (gain, native) in [(Gain::High, 2.885f32), (Gain::Unit, 1.0), (Gain::Down, 0.75)] {
            let bdp = (37_000 * bandwidth) as f64;
            let scaled = ((native as f64 * bdp) / 1_000_000f64) as u64;
            let expected = if scaled == 0 {
                240_000
            } else {
                scaled.max(4800)
            };
            assert_eq!(bbr.state.get_target_cwnd(gain, bandwidth), expected);
        }
    }
    assert!(!bbr.state.bdp_in_range(u64::MAX));
    assert!(bbr.state.bdp_in_range(u64::MAX / 37_000));
}

#[test]
fn acks_update_the_minimum_round_trip_time() {
    let mut bbr = controller(BbrConfig::default());
    bbr.on_ack(at(1), 100, true, Duration::from_millis(50));
    // Not expired while the application limits, and nothing is below zero.
    assert_eq!(bbr.state.min_rtt.as_nanos(), 0);
    bbr.on_ack(at(2), 100, false, Duration::from_millis(50));
    assert_eq!(bbr.state.min_rtt.as_nanos(), 50_000_000);
    bbr.state.probe_rtt_last_started_at = Some(at(2));
    bbr.on_ack(at(3), 100, false, Duration::from_millis(60));
    assert_eq!(bbr.state.min_rtt.as_nanos(), 50_000_000);
    bbr.on_ack(at(4), 100, false, Duration::from_millis(40));
    assert_eq!(bbr.state.min_rtt.as_nanos(), 40_000_000);
    bbr.on_ack(at(10_003), 100, false, Duration::from_millis(90));
    assert_eq!(bbr.state.min_rtt.as_nanos(), 90_000_000);
    assert_eq!(bbr.state.acked_bytes, 500);
}

#[test]
fn flat_rounds_lead_from_startup_to_cruising() {
    let mut bbr = controller(BbrConfig::default());
    bbr.state.probe_rtt_last_started_at = Some(at(0));
    bbr.on_ack(at(1), 1200, true, Duration::from_millis(100));
    bbr.state.min_rtt = Duration::from_millis(100);
    let bandwidth = 1_000_000;
    let mut number = 0;
    let mut ms = 10;
    let mut round = |bbr: &mut Bbr, in_flight: u64| -> bool {
        number += 10;
        ms += 100;
        bbr.on_sent(number + 5);
        let mut b = batch(ms, bandwidth);
        b.largest_packet_num_acked = Some(number);
        b.in_flight = in_flight;
        assert!(bbr.state.acks_in_range(&b));
        bbr.on_end_acks(&b)
    };
    // The first round sees more bandwidth than none.
    assert!(round(&mut bbr, 500_000));
    assert_eq!(bbr.state.round_count, 1);
    assert_eq!(bbr.state.bw_at_last_round, bandwidth);
    assert_eq!(bbr.state.pacing_rate, 777_777);
    assert!(!round(&mut bbr, 500_000));
    assert_eq!(bbr.state.pacing_rate, (bandwidth as f64 * 2.885f32 as f64) as u64);
    let startup_rate = bbr.state.pacing_rate;
    assert!(!round(&mut bbr, 500_000));
    assert_eq!(bbr.state.mode, Mode::Startup);
    assert_eq!(bbr.state.pacing_rate, startup_rate);
    assert!(!round(&mut bbr, 500_000));
    assert!(bbr.state.is_at_full_bandwidth);
    assert_eq!(bbr.state.mode, Mode::Drain);
    assert_eq!(
        bbr.state.pacing_rate,
        (bandwidth as f64 * (1.0f32 / 2.885f32) as f64) as u64
    );
    assert!(!round(&mut bbr, 100_001));
    assert_eq!(bbr.state.mode, Mode::Drain);
    assert!(!round(&mut bbr, 100_000));
    assert_eq!(bbr.state.mode, Mode::ProbeBw);
    assert_ne!(bbr.state.current_cycle_offset, 1);
    assert_eq!(bbr.state.cwnd_gain, Gain::Double);
}

#[test]
fn cruising_starts_at_every_phase_but_the_second() {
    let mut seen = [0u32; 8];
    for seed in 0..200 {
        let mut bbr = Bbr::new(BbrConfig::default(), 1200, StdRng::seed_from_u64(seed));
        bbr.enter_probe_bandwidth_mode(at(1));
        assert_eq!(bbr.state.mode, Mode::ProbeBw);
        let phase = bbr.state.current_cycle_offset;
        assert_eq!(bbr.state.pacing_gain, Gain::in_phase(phase));
        seen[phase as usize] += 1;
    }
    assert_eq!(seen[1], 0);
    for phase in [0, 2, 3, 4, 5, 6, 7] {
        assert!(seen[phase] > 0);
    }
}

#[test]
fn the_gain_cycle_advances() {
    let mut bbr = controller(BbrConfig::default());
    bbr.state.min_rtt = Duration::from_millis(100);
    let bandwidth = 1_000_000;
    bbr.state.enter_probe_bandwidth_at(at(0), 0);
    assert_eq!(bbr.state.pacing_gain, Gain::Up);
    bbr.state.prev_in_flight_count = 124_999;
    bbr.state.update_gain_cycle_phase(at(101), 0, bandwidth);
    // Not enough is in flight to probe.
    assert_eq!(bbr.state.current_cycle_offset, 0);
    bbr.state.prev_in_flight_count = 125_000;
    bbr.state.update_gain_cycle_phase(at(100), 0, bandwidth);
    assert_eq!(bbr.state.current_cycle_offset, 0);
    bbr.state.update_gain_cycle_phase(at(101), 0, bandwidth);
    assert_eq!(bbr.state.current_cycle_offset, 1);
    assert_eq!(bbr.state.pacing_gain, Gain::Down);
    // More than the target in flight: the phase passes, the low gain stays.
    bbr.state.update_gain_cycle_phase(at(202), 100_001, bandwidth);
    assert_eq!(bbr.state.current_cycle_offset, 2);
    assert_eq!(bbr.state.pacing_gain, Gain::Down);
    // Drained early.
    bbr.state.update_gain_cycle_phase(at(203), 100_000, bandwidth);
    assert_eq!(bbr.state.current_cycle_offset, 3);
    assert_eq!(bbr.state.pacing_gain, Gain::Unit);
    for (step, phase) in [(304, 4), (405, 5), (506, 6), (607, 7), (708, 0)] {
        bbr.state.update_gain_cycle_phase(at(step), 0, bandwidth);
        assert_eq!(bbr.state.current_cycle_offset, phase);
    }
    assert_eq!(bbr.state.pacing_gain, Gain::Up);
    // Losses let the phase end although not enough is in flight.
    bbr.state.prev_in_flight_count = 0;
    bbr.on_congestion_event(1);
    bbr.state.update_gain_cycle_phase(at(809), 0, bandwidth);
    assert_eq!(bbr.state.current_cycle_offset, 1);
}

#[test]
fn losses_lead_through_recovery() {
    let mut bbr = controller(BbrConfig::default());
    bbr.on_sent(50);
    bbr.on_congestion_event(1000);
    bbr.on_congestion_event(500);
    assert_eq!(bbr.state.loss_state.lost_bytes, 1500);
    let mut b = batch(1, 0);
    b.in_flight = 9000;
    b.largest_packet_num_acked = Some(0);
    bbr.on_end_acks(&b);
    assert_eq!(bbr.state.recovery_state, RecoveryState::Conservation);
    assert_eq!(bbr.state.recovery_window, 10_200);
    assert_eq!(bbr.state.end_recovery_at_packet_number, 50);
    assert!(!bbr.state.loss_state.has_losses());
    // A new round: growth.
    bbr.on_sent(80);
    let mut b = batch(2, 0);
    b.in_flight = 0;
    b.largest_packet_num_acked = Some(51);
    bbr.on_congestion_event(200);
    bbr.on_end_acks(&b);
    assert_eq!(bbr.state.recovery_state, RecoveryState::Growth);
    assert_eq!(bbr.state.recovery_window, 10_200 - 200 + 1200);
    assert_eq!(bbr.state.end_recovery_at_packet_number, 80);
    // More lost than the window: one packet, but no less than four are allowed.
    bbr.on_congestion_event(1_000_000);
    let mut b = batch(3, 0);
    b.in_flight = 0;
    bbr.on_end_acks(&b);
    assert_eq!(bbr.state.recovery_window, 4800);
    // Past the end without losses.
    let mut b = batch(4, 0);
    b.largest_packet_num_acked = Some(81);
    bbr.on_end_acks(&b);
    assert_eq!(bbr.state.recovery_state, RecoveryState::NotInRecovery);
    assert!(!bbr.state.recovery_state.in_recovery());
}

#[test]
fn the_round_trip_time_is_measured_anew() {
    let mut bbr = controller(BbrConfig::default());
    bbr.state.min_rtt = Duration::from_millis(100);
    bbr.state.is_at_full_bandwidth = true;
    bbr.state.enter_probe_bandwidth_at(at(0), 3);
    bbr.state.probe_rtt_last_started_at = Some(at(0));
    let bandwidth = 1_000_000;
    let small = 75_000;
    bbr.maybe_enter_or_exit_probe_rtt(at(10_000), false, 0, false, bandwidth);
    assert_eq!(bbr.state.mode, Mode::ProbeBw);
    bbr.maybe_enter_or_exit_probe_rtt(at(10_001), false, small + 1200, false, bandwidth);
    assert_eq!(bbr.state.mode, Mode::ProbeRtt);
    assert_eq!(bbr.state.pacing_gain, Gain::Unit);
    assert_eq!(bbr.state.exit_probe_rtt_at, None);
    assert_eq!(bbr.window(bandwidth), small);
    bbr.maybe_enter_or_exit_probe_rtt(at(10_002), false, small + 1199, false, bandwidth);
    assert_eq!(bbr.state.exit_probe_rtt_at, Some(at(10_202)));
    bbr.maybe_enter_or_exit_probe_rtt(at(10_202), false, 0, false, bandwidth);
    assert_eq!(bbr.state.mode, Mode::ProbeRtt);
    bbr.maybe_enter_or_exit_probe_rtt(at(10_201), true, 0, false, bandwidth);
    assert_eq!(bbr.state.mode, Mode::ProbeRtt);
    let mut young = Bbr::new(BbrConfig::default(), 1200, StdRng::seed_from_u64(2));
    young.state = bbr.state;
    young.state.is_at_full_bandwidth = false;
    young.maybe_enter_or_exit_probe_rtt(at(10_202), true, 0, false, bandwidth);
    assert_eq!(young.state.mode, Mode::Startup);
    bbr.maybe_enter_or_exit_probe_rtt(at(10_202), true, 0, false, bandwidth);
    assert_eq!(bbr.state.mode, Mode::ProbeBw);
    assert_eq!(bbr.state.last_cycle_start, Some(at(10_202)));
}

#[test]
fn fixed_pacing_ignores_the_path() {
    let config = BbrConfig::default().fixed_pacing_bps(8_000_003);
    let mut bbr = controller(config);
    assert_eq!(bbr.window(0), 4800);
    bbr.state.min_rtt = Duration::from_millis(37);
    let expected = (8_000_003f64 * 0.037 / 8.0) as u64;
    assert_eq!(bbr.window(0), expected);
    let mut b = batch(5, 123_456);
    b.app_limited = true;
    bbr.on_end_acks(&b);
    assert_eq!(bbr.state.pacing_rate, 1_000_000);
    assert_eq!(bbr.state.pacing_gain, Gain::Unit);
    assert_eq!(bbr.state.cwnd, expected);
    assert_eq!(bbr.metrics(0).pacing_rate, Some(8_000_000));
    bbr.state.enter_startup_mode();
    assert_eq!(bbr.state.mode, Mode::ProbeBw);
    let mut slow = controller(BbrConfig::default().fixed_pacing_bps(7));
    slow.state.calculate_pacing_rate(0, 0);
    assert_eq!(slow.state.pacing_rate, 1);
}

#[test]
fn a_minimum_pacing_rate_is_met_in_bits() {
    let mut config = BbrConfig::default();
    config.min_pacing_bps(9_000_001).initial_window(1_000_000);
    let mut bbr = controller(config);
    bbr.state.min_rtt = Duration::from_millis(100);
    bbr.state.pacing_rate = 5;
    bbr.state.calculate_pacing_rate(10, 0);
    // The window allows 80 Mbit/s.
    assert_eq!(bbr.state.pacing_rate, 1_125_001);
    assert!(bbr.state.pacing_rate * 8 >= 9_000_001);
    // The window allows less than the minimum.
    bbr.state.pacing_rate = 5;
    bbr.state.cwnd = 1000;
    bbr.state.calculate_pacing_rate(10, 0);
    assert_eq!(bbr.state.pacing_rate, 10_000);
    // Losses stand against it.
    bbr.state.pacing_rate = 5;
    bbr.on_congestion_event(1);
    bbr.state.calculate_pacing_rate(10, 0);
    assert_eq!(bbr.state.pacing_rate, (10f64 * 2.885f32 as f64) as u64);
}

#[test]
fn a_minimum_pacing_rate_holds_at_full_bandwidth() {
    let mut config = BbrConfig::default();
    config.min_pacing_bps(1_000_000);
    let mut bbr = controller(config);
    bbr.state.min_rtt = Duration::from_millis(100);
    bbr.state.is_at_full_bandwidth = true;
    bbr.state.pacing_gain = Gain::Unit;
    bbr.state.calculate_pacing_rate(50_000, 0);
    assert_eq!(bbr.state.pacing_rate, 125_000);
    assert_eq!(bbr.metrics(50_000).pacing_rate, Some(1_000_000));
    // More than the minimum is left as it is.
    bbr.state.calculate_pacing_rate(500_000, 0);
    assert_eq!(bbr.state.pacing_rate, 500_000);
    // Recovery stands against it.
    bbr.state.recovery_state = RecoveryState::Growth;
    bbr.state.calculate_pacing_rate(50_000, 0);
    assert_eq!(bbr.state.pacing_rate, 50_000);
}

#[test]
fn a_minimum_pacing_rate_holds_for_the_first_rate() {
    let mut config = BbrConfig::default();
    config.min_pacing_bps(1_000_000);
    let mut bbr = controller(config);
    bbr.state.min_rtt = Duration::from_millis(100);
    bbr.state.calculate_pacing_rate(10, 3000);
    assert_eq!(bbr.state.pacing_rate, 125_000);
    let mut fast = controller(config);
    fast.state.min_rtt = Duration::from_millis(100);
    fast.state.calculate_pacing_rate(10, 300_000);
    assert_eq!(fast.state.pacing_rate, 300_000);
}

#[test]
fn a_minimum_pacing_rate_holds_with_a_huge_window() {
    let mut config = BbrConfig::default();
    config.min_pacing_bps(1_000_000_000).initial_window(1 << 62);
    let mut bbr = controller(config);
    bbr.state.min_rtt = Duration::from_millis(1);
    bbr.state.calculate_pacing_rate(10, 1_200_000);
    assert_eq!(bbr.state.pacing_rate, 125_000_000);
}

#[test]
fn a_first_rate_is_due_once() {
    let mut bbr = controller(BbrConfig::default());
    assert!(!bbr.state.first_rate_is_due(10));
    bbr.state.min_rtt = Duration::from_millis(1);
    assert!(bbr.state.first_rate_is_due(10));
    assert!(!bbr.state.first_rate_is_due(0));
    bbr.state.calculate_pacing_rate(10, 5);
    assert!(!bbr.state.first_rate_is_due(10));
    bbr.state.pacing_rate = 0;
    bbr.state.is_at_full_bandwidth = true;
    assert!(!bbr.state.first_rate_is_due(10));
    let mut fixed = controller(BbrConfig::default().fixed_pacing_bps(800));
    fixed.state.min_rtt = Duration::from_millis(1);
    assert!(!fixed.state.first_rate_is_due(10));
}

#[test]
fn the_generator_is_used_only_for_cruising() {
    use_of_generator(false);
    use_of_generator(true);
}

fn use_of_generator(drains: bool) {
    let mut bbr = controller(BbrConfig::default());
    bbr.state.min_rtt = Duration::from_millis(100);
    bbr.state.probe_rtt_last_started_at = Some(at(0));
    bbr.state.is_at_full_bandwidth = true;
    let before = bbr.random_number_generator.clone();
    bbr.on_sent(5);
    bbr.on_ack(at(1), 100, false, Duration::from_millis(100));
    bbr.on_acked_bytes(100, at(1), 1_000_000);
    bbr.on_congestion_event(1);
    bbr.on_mtu_update(1300);
    assert_eq!(bbr.random_number_generator, before);
    let mut b = batch(2, 1_000_000);
    b.in_flight = if drains { 100_000 } else { 100_001 };
    bbr.on_end_acks(&b);
    assert_eq!(bbr.state.mode == Mode::ProbeBw, drains);
    assert_eq!(bbr.random_number_generator != before, drains);
}

#[test]
fn a_minimum_pacing_rate_holds_over_a_batch() {
    let mut config = BbrConfig::default();
    config.min_pacing_bps(1_000_000);
    let mut bbr = controller(config);
    bbr.state.min_rtt = Duration::from_millis(100);
    bbr.state.is_at_full_bandwidth = true;
    bbr.state.probe_rtt_last_started_at = Some(at(0));
    bbr.state.enter_probe_bandwidth_at(at(0), 2);
    let b = batch(5, 50_000);
    assert!(bbr.state.acks_in_range(&b));
    bbr.on_end_acks(&b);
    assert_eq!(bbr.state.pacing_rate, 125_000);
}

#[test]
fn the_batch_uses_the_excess_that_was_taken() {
    let mut bbr = controller(BbrConfig::default());
    bbr.state.probe_rtt_last_started_at = Some(at(0));
    assert_eq!(bbr.on_acked_bytes(5000, at(1), 1_000_000), 0);
    assert_eq!(bbr.state.newly_acked, 5000);
    assert_eq!(bbr.on_acked_bytes(2000, at(2), 1_000_000), 6000);
    assert_eq!(bbr.state.newly_acked, 2000);
    assert_eq!(bbr.state.excess_acked, 6000);
    bbr.on_end_acks(&batch(2, 1_000_000));
    assert_eq!(bbr.state.cwnd, 242_000);
    // The initial window and the excess leave no room for the sum.
    bbr.state.excess_acked = u64::MAX;
    assert!(!bbr.state.acks_in_range(&batch(3, 1_000_000)));
}

#[test]
fn the_first_rate_is_that_of_the_initial_window() {
    let mut bbr = controller(BbrConfig::default());
    bbr.state.calculate_pacing_rate(0, 42);
    assert_eq!(bbr.state.pacing_rate, 0);
    bbr.state.min_rtt = Duration::from_millis(10);
    bbr.state.calculate_pacing_rate(5, 42);
    assert_eq!(bbr.state.pacing_rate, 42);
    bbr.state.calculate_pacing_rate(5, 99);
    assert_eq!(bbr.state.pacing_rate, 42);
}

#[test]
fn the_window_grows_by_what_was_acknowledged() {
    let mut bbr = controller(BbrConfig::default());
    bbr.state.min_rtt = Duration::from_millis(100);
    bbr.state.calculate_cwnd(5000, 300, 9999, 1_000_000);
    assert_eq!(bbr.state.cwnd, 245_000);
    bbr.state.is_at_full_bandwidth = true;
    bbr.state.cwnd_gain = Gain::Double;
    bbr.state.calculate_cwnd(5000, 300, 20_000, 1_000_000);
    // Twice the product and the largest burst.
    assert_eq!(bbr.state.cwnd, 220_000);
    bbr.state.cwnd = 1000;
    bbr.state.calculate_cwnd(100, 0, 0, 1_000_000);
    assert_eq!(bbr.state.cwnd, 4800);
    bbr.state.mode = Mode::ProbeRtt;
    bbr.state.cwnd = 17;
    bbr.state.calculate_cwnd(100, 0, 0, 1_000_000);
    assert_eq!(bbr.state.cwnd, 17);
}

#[test]
fn a_larger_packet_size_raises_the_windows() {
    let mut config = BbrConfig::default();
    config.initial_window(3000);
    let mut bbr = controller(config);
    assert_eq!(bbr.state.init_cwnd, 3000);
    bbr.on_mtu_update(1500);
    assert_eq!(bbr.state.current_mtu, 1500);
    assert_eq!(bbr.state.min_cwnd, 6000);
    assert_eq!(bbr.state.init_cwnd, 6000);
    assert_eq!(bbr.state.cwnd, 6000);
}

#[test]
fn recovery_limits_the_window() {
    let mut bbr = controller(BbrConfig::default());
    bbr.state.recovery_state = RecoveryState::Growth;
    bbr.state.recovery_window = 9000;
    assert_eq!(bbr.window(0), 240_000);
    bbr.state.mode = Mode::ProbeBw;
    assert_eq!(bbr.window(0), 9000);
}

#[test]
fn bursts_of_acknowledgements_are_measured() {
    let mut epoch = AckAggregationState {
        aggregation_epoch_start_time: None,
        aggregation_epoch_bytes: 0,
    };
    assert_eq!(epoch.update_ack_aggregation_bytes(5000, at(0), 1_000_000), 0);
    // One millisecond explains a thousand bytes.
    assert_eq!(epoch.update_ack_aggregation_bytes(2000, at(1), 1_000_000), 6000);
    assert_eq!(epoch.aggregation_epoch_bytes, 7000);
    assert_eq!(epoch.update_ack_aggregation_bytes(100, at(7), 1_000_000), 0);
    assert_eq!(epoch.aggregation_epoch_bytes, 100);
    assert_eq!(epoch.aggregation_epoch_start_time, Some(at(7)));
    assert!(epoch.in_range(100, at(8), 1_000_000));
    assert!(!epoch.in_range(100, at(8), u64::MAX));
    assert!(!epoch.in_range(u64::MAX, at(7), 1_000_000));
}

#[test]
fn sums_out_of_range_are_noticed() {
    let mut bbr = controller(BbrConfig::default());
    assert!(bbr.state.acks_in_range(&batch(1, 1000)));
    bbr.state.min_rtt = Duration::from_millis(1000);
    assert!(!bbr.state.acks_in_range(&batch(1, u64::MAX)));
    bbr.state.cwnd = u64::MAX;
    // While the round-trip time is measured the window does not grow.
    assert!(bbr.state.acks_in_range(&batch(1, 1000)));
    bbr.state.probe_rtt_last_started_at = Some(at(0));
    assert!(!bbr.state.acks_in_range(&batch(1, 1000)));
}

#[test]
fn settings_are_kept() {
    let config = BbrConfig::default()
        .enable_deadline_scheduler(true)
        .guard_ms(25)
        .beta(Float64::from_bits(0.5f64.to_bits()))
        .default_mss(1400);
    let deadline = config.deadline.unwrap();
    assert!(deadline.enabled);
    assert_eq!(deadline.guard_ms, 25);
    assert_eq!(f64::from_bits(deadline.beta.to_bits()), 0.5);
    assert_eq!(deadline.default_mss, 1400);
    let usual = DeadlineConfig::default();
    assert!(!usual.enabled);
    assert_eq!(f64::from_bits(usual.beta.to_bits()), 0.8);
    assert_eq!(usual.guard_ms, 10);
    assert_eq!(usual.default_mss, 1200);
    let other = BbrConfig::default().guard_ms(3).deadline.unwrap();
    assert!(!other.enabled);
    assert_eq!(other.guard_ms, 3);
    assert_eq!(other.default_mss, 1200);
}
