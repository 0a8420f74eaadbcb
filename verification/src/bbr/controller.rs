//! The congestion controller: what it does on each event.

use crate::bbr::batch::AckBatch;
use crate::bbr::config::BbrConfig;
use crate::bbr::gain::{Gain, CYCLE_LEN};
use crate::bbr::state::{
    calculate_min_window, AckAggregationState, BbrState, LossState, Mode, RecoveryState,
    PHASE_CHOICES,
};
use crate::time::{Duration, Instant};
use rand::rngs::StdRng;
use rand::Rng;
use vstd::prelude::*;

verus! {

/// The generator `rand::rngs::StdRng`, whose state stays hidden.
#[verifier::external_type_specification]
#[verifier::external_body]
pub struct ExStdRng(StdRng);

/// Draws a number by `rand::Rng::random_range` from the range `0..bound`. The number lies in that
/// range, which must not be empty; which one of the range comes up is left to chance.
#[verifier::external_body]
fn draw_below(rng: &mut StdRng, bound: u8) -> (r: u8)
    requires
        bound > 0,
    ensures
        r < bound,
{
    rng.random_range(0..bound)
}

/// What the controller reports.
#[derive(Debug, Clone, Copy, PartialEq, Eq, Structural)]
pub struct ControllerMetrics {
    /// Congestion window in bytes
    pub congestion_window: u64,
    /// Slow start threshold in bytes
    pub ssthresh: Option<u64>,
    /// Pacing rate in bits per second
    pub pacing_rate: Option<u64>,
}

/// Aims for reduced buffer bloat and improved performance over high bandwidth-delay product
/// networks.
///
/// What happens to a packet, and what the estimators of bandwidth and round-trip time make of
/// it, comes in by the `on_` methods.
#[derive(Debug)]
pub struct Bbr {
    pub state: BbrState,
    pub random_number_generator: StdRng,
}

impl BbrState {
    /// The state of a new connection.
    pub open spec fn is_fresh(self, config: BbrConfig, current_mtu: u16) -> bool {
        &&& self.config == config
        &&& self.current_mtu == current_mtu
        &&& self.acked_bytes == 0
        &&& self.mode == Mode::Startup
        &&& !self.has_losses()
        &&& !self.in_recovery()
        &&& self.recovery_window == 0
        &&& !self.is_at_full_bandwidth
        &&& self.pacing_gain == Gain::High
        &&& self.cwnd_gain == Gain::High
        &&& self.last_cycle_start is None
        &&& self.current_cycle_offset == 0
        &&& self.init_cwnd == config.initial_window
        &&& self.min_cwnd == 4 * current_mtu
        &&& self.prev_in_flight_count == 0
        &&& self.exit_probe_rtt_at is None
        &&& self.probe_rtt_last_started_at is None
        &&& self.min_rtt.total() == 0
        &&& !self.exiting_quiescence
        &&& self.pacing_rate == 0
        &&& self.max_acked_packet_number == 0
        &&& self.max_sent_packet_number == 0
        &&& self.end_recovery_at_packet_number == 0
        &&& self.cwnd == config.initial_window
        &&& self.current_round_trip_end_packet_number == 0
        &&& self.round_count == 0
        &&& self.bw_at_last_round == 0
        &&& self.round_wo_bw_gain == 0
        &&& self.ack_aggregation.aggregation_epoch_start_time is None
        &&& self.ack_aggregation.aggregation_epoch_bytes == 0
        &&& self.newly_acked == 0
        &&& self.excess_acked == 0
    }

    /// The state after packets up to a number were sent.
    pub open spec fn after_sent(self, last_packet_number: u64) -> BbrState {
        BbrState { max_sent_packet_number: last_packet_number, ..self }
    }

    /// The state after a packet was acknowledged.
    pub open spec fn after_ack(
        self,
        now: Instant,
        bytes: u64,
        app_limited: bool,
        rtt: Duration,
    ) -> BbrState {
        BbrState {
            acked_bytes: (self.acked_bytes + bytes) as u64,
            min_rtt: if self.min_rtt_expired(now, app_limited) || self.min_rtt.total()
                > rtt.total() {
                rtt
            } else {
                self.min_rtt
            },
            ..self
        }
    }

    /// The state after packets were lost.
    pub open spec fn after_loss(self, lost_bytes: u64) -> BbrState {
        BbrState {
            loss_state: LossState {
                lost_bytes: (self.loss_state.lost_bytes + lost_bytes) as u64,
            },
            ..self
        }
    }

    /// The state once packets have another size.
    pub open spec fn with_mtu(self, new_mtu: u16) -> BbrState {
        BbrState {
            current_mtu: new_mtu as u64,
            min_cwnd: (4 * new_mtu) as u64,
            init_cwnd: crate::bbr::state::larger(
                self.config.initial_window,
                (4 * new_mtu) as u64,
            ),
            cwnd: crate::bbr::state::larger(self.cwnd, (4 * new_mtu) as u64),
            ..self
        }
    }
}

impl Bbr {
    /// A controller for a new connection. The generator decides at which phase cruising starts.
    pub fn new(config: BbrConfig, current_mtu: u16, random_number_generator: StdRng) -> (r: Bbr)
        ensures
            r.state.is_fresh(config, current_mtu),
            r.random_number_generator == random_number_generator,
            r.state.valid(),
    {
        let initial_window: u64 = config.initial_window;
        let state = BbrState {
            config,
            current_mtu: current_mtu as u64,
            acked_bytes: 0,
            mode: Mode::Startup,
            loss_state: LossState { lost_bytes: 0 },
            recovery_state: RecoveryState::NotInRecovery,
            recovery_window: 0,
            is_at_full_bandwidth: false,
            pacing_gain: Gain::High,
            cwnd_gain: Gain::High,
            last_cycle_start: None,
            current_cycle_offset: 0,
            init_cwnd: initial_window,
            min_cwnd: calculate_min_window(current_mtu as u64),
            prev_in_flight_count: 0,
            exit_probe_rtt_at: None,
            probe_rtt_last_started_at: None,
            min_rtt: Duration::zero(),
            exiting_quiescence: false,
            pacing_rate: 0,
            max_acked_packet_number: 0,
            max_sent_packet_number: 0,
            end_recovery_at_packet_number: 0,
            cwnd: initial_window,
            current_round_trip_end_packet_number: 0,
            round_count: 0,
            bw_at_last_round: 0,
            round_wo_bw_gain: 0,
            ack_aggregation: AckAggregationState {
                aggregation_epoch_start_time: None,
                aggregation_epoch_bytes: 0,
            },
            newly_acked: 0,
            excess_acked: 0,
        };
        Bbr { state, random_number_generator }
    }

    /// Starts cruising at a random phase of the gain cycle. The second phase is never the first
    /// one: increased gain and decreased gain would then not follow each other.
    pub fn enter_probe_bandwidth_mode(&mut self, now: Instant)
        ensures
            exists|choice: u8|
                choice < PHASE_CHOICES && final(self).state
                    == #[trigger] old(self).state.in_probe_bandwidth(now, choice),
            final(self).state.current_cycle_offset != 1,
            final(self).state.current_cycle_offset < CYCLE_LEN,
    {
        let choice: u8 = draw_below(&mut self.random_number_generator, PHASE_CHOICES);
        self.state.enter_probe_bandwidth_at(now, choice);
        assert(self.state == old(self).state.in_probe_bandwidth(now, choice));
    }

    /// Leaves the startup at full bandwidth, and starts cruising once the queue is drained.
    pub fn maybe_exit_startup_or_drain(&mut self, now: Instant, in_flight: u64, bandwidth: u64)
        requires
            old(self).state.drain_fits(bandwidth),
        ensures
            !old(self).state.startup_left().is_drained(in_flight, bandwidth)
                ==> final(self).random_number_generator == old(self).random_number_generator,
            exists|choice: u8|
                choice < PHASE_CHOICES && final(self).state
                    == #[trigger] old(self).state.startup_or_drain_exited(
                    now,
                    in_flight,
                    bandwidth,
                    choice,
                ),
    {
        let drained = self.state.leave_startup_or_drain(in_flight, bandwidth);
        let ghost mut choice: u8 = 0;
        if drained {
            let ghost left = self.state;
            self.enter_probe_bandwidth_mode(now);
            proof {
                choice = choose|c: u8|
                    c < PHASE_CHOICES && self.state == #[trigger] left.in_probe_bandwidth(now, c);
            }
        }
        assert(self.state == old(self).state.startup_or_drain_exited(
            now,
            in_flight,
            bandwidth,
            choice,
        ));
    }

    /// Enters or leaves the measurement of the round-trip time.
    pub fn maybe_enter_or_exit_probe_rtt(
        &mut self,
        now: Instant,
        is_round_start: bool,
        in_flight: u64,
        app_limited: bool,
        bandwidth: u64,
    )
        requires
            old(self).state.probe_rtt_fits(now, in_flight, app_limited, bandwidth),
        ensures
            !old(self).state.cruising_is_due(now, is_round_start, app_limited)
                ==> final(self).random_number_generator == old(self).random_number_generator,
            exists|choice: u8|
                choice < PHASE_CHOICES && final(self).state
                    == #[trigger] old(self).state.probe_rtt_updated(
                    now,
                    is_round_start,
                    in_flight,
                    app_limited,
                    bandwidth,
                    choice,
                ),
    {
        let cruise = self.state.step_probe_rtt(
            now,
            is_round_start,
            in_flight,
            app_limited,
            bandwidth,
        );
        let ghost mut choice: u8 = 0;
        if cruise {
            let ghost stepped = self.state;
            self.enter_probe_bandwidth_mode(now);
            proof {
                choice = choose|c: u8|
                    c < PHASE_CHOICES && self.state == #[trigger] stepped.in_probe_bandwidth(
                        now,
                        c,
                    );
            }
        }
        assert(self.state == old(self).state.probe_rtt_updated(
            now,
            is_round_start,
            in_flight,
            app_limited,
            bandwidth,
            choice,
        ));
    }

    /// Packets up to the given number were sent.
    pub fn on_sent(&mut self, last_packet_number: u64)
        ensures
            final(self).random_number_generator == old(self).random_number_generator,
            final(self).state == (BbrState {
                max_sent_packet_number: last_packet_number,
                ..old(self).state
            }),
            final(self).state == old(self).state.after_sent(last_packet_number),
    {
        self.state.max_sent_packet_number = last_packet_number;
    }

    /// A packet was acknowledged. The minimum round-trip time is replaced where it is out of date
    /// or the path has become faster.
    pub fn on_ack(&mut self, now: Instant, bytes: u64, app_limited: bool, rtt: Duration)
        requires
            old(self).state.acked_bytes + bytes <= u64::MAX,
        ensures
            final(self).random_number_generator == old(self).random_number_generator,
            final(self).state == (BbrState {
                acked_bytes: (old(self).state.acked_bytes + bytes) as u64,
                min_rtt: if old(self).state.min_rtt_expired(now, app_limited)
                    || old(self).state.min_rtt.total() > rtt.total() {
                    rtt
                } else {
                    old(self).state.min_rtt
                },
                ..old(self).state
            }),
            final(self).state == old(self).state.after_ack(now, bytes, app_limited, rtt),
    {
        self.state.acked_bytes = self.state.acked_bytes + bytes;
        if self.state.is_min_rtt_expired(now, app_limited) || rtt.lt(&self.state.min_rtt) {
            self.state.min_rtt = rtt;
        }
    }

    /// The first step at the end of a batch of acknowledgements, with the bandwidth as it was
    /// estimated before the batch: takes the bytes that the batch covers, and how many of them
    /// arrived ahead of that bandwidth, for [`Bbr::on_end_acks`]. Returns the latter; a number
    /// above zero is a sample of how far acknowledgements run ahead.
    pub fn on_acked_bytes(&mut self, bytes: u64, now: Instant, bandwidth: u64) -> (r: u64)
        requires
            old(self).state.ack_aggregation.fits(bytes, now, bandwidth),
        ensures
            final(self).random_number_generator == old(self).random_number_generator,
            final(self).state == old(self).state.bytes_taken(bytes, now, bandwidth),
            r == final(self).state.excess_acked,
            old(self).state.valid() ==> final(self).state.valid(),
    {
        let excess: u64 = self.state.ack_aggregation.update_ack_aggregation_bytes(
            bytes,
            now,
            bandwidth,
        );
        self.state.newly_acked = bytes;
        self.state.excess_acked = excess;
        excess
    }

    /// Brings the mode up to date.
    fn update_mode(&mut self, batch: &AckBatch, is_round_start: bool, Ghost(start): Ghost<BbrState>)
        requires
            old(self).state == start.growth_updated(*batch),
            is_round_start == start.round_begins(*batch),
            forall|choice: u8|
                choice < PHASE_CHOICES ==> #[trigger] old(self).state.mode_fits(*batch, choice),
        ensures
            !start.cruising_starts(*batch) ==> final(self).random_number_generator == old(
                self,
            ).random_number_generator,
            exists|choice: u8|
                choice < PHASE_CHOICES && final(self).state == #[trigger] start.mode_updated(
                    *batch,
                    choice,
                ),
    {
        let ghost before = self.state;
        assert(before.mode_fits(*batch, 0));
        self.maybe_exit_startup_or_drain(batch.now, batch.in_flight, batch.bandwidth);
        let ghost first = choose|c: u8|
            c < PHASE_CHOICES && self.state == #[trigger] before.startup_or_drain_exited(
                batch.now,
                batch.in_flight,
                batch.bandwidth,
                c,
            );
        let ghost exited = self.state;
        assert(before.mode_fits(*batch, first));
        self.maybe_enter_or_exit_probe_rtt(
            batch.now,
            is_round_start,
            batch.in_flight,
            batch.app_limited,
            batch.bandwidth,
        );
        let ghost second = choose|c: u8|
            c < PHASE_CHOICES && self.state == #[trigger] exited.probe_rtt_updated(
                batch.now,
                is_round_start,
                batch.in_flight,
                batch.app_limited,
                batch.bandwidth,
                c,
            );
        // Cruising starts at most once.
        let ghost choice = if exited.cruising_is_due(batch.now, is_round_start, batch.app_limited) {
            second
        } else {
            first
        };
        assert(self.state == start.mode_updated(*batch, choice));
    }

    /// A batch of acknowledgements has ended; its bytes were taken by [`Bbr::on_acked_bytes`].
    /// Returns whether the bandwidth has grown, so that the samples of how far acknowledgements
    /// run ahead are out of date. The generator is used only where cruising starts.
    pub fn on_end_acks(&mut self, batch: &AckBatch) -> (r: bool)
        requires
            old(self).state.valid(),
            old(self).state.acks_fit(*batch),
        ensures
            !old(self).state.cruising_starts(*batch) ==> final(self).random_number_generator
                == old(self).random_number_generator,
            exists|choice: u8|
                choice < PHASE_CHOICES && final(self).state
                    == #[trigger] old(self).state.acks_ended(*batch, choice),
            final(self).state.valid(),
            r == old(self).state.bandwidth_grew(*batch),
    {
        let ghost start = self.state;
        let is_round_start = self.state.update_round(batch);
        let grown = self.state.update_model(batch, is_round_start, Ghost(start));
        self.update_mode(batch, is_round_start, Ghost(start));
        let ghost choice = choose|c: u8|
            c < PHASE_CHOICES && self.state == #[trigger] start.mode_updated(*batch, c);
        assert(start.mode_updated(*batch, choice).limits_fit(*batch));
        // After the model is updated, recalculate the pacing rate and congestion window.
        self.state.update_limits(batch);
        self.state.prev_in_flight_count = batch.in_flight;
        self.state.loss_state.reset();
        proof {
            assert(self.state == start.acks_ended(*batch, choice));
            crate::bbr::laws::law_acks_keep_validity(start, *batch, choice);
        }
        grown
    }

    /// Packets were lost.
    pub fn on_congestion_event(&mut self, lost_bytes: u64)
        requires
            old(self).state.loss_state.lost_bytes + lost_bytes <= u64::MAX,
        ensures
            final(self).random_number_generator == old(self).random_number_generator,
            final(self).state == (BbrState {
                loss_state: LossState {
                    lost_bytes: (old(self).state.loss_state.lost_bytes + lost_bytes) as u64,
                },
                ..old(self).state
            }),
            final(self).state == old(self).state.after_loss(lost_bytes),
    {
        self.state.loss_state.lost_bytes = self.state.loss_state.lost_bytes + lost_bytes;
    }

    /// The path carries packets of another size.
    pub fn on_mtu_update(&mut self, new_mtu: u16)
        ensures
            final(self).random_number_generator == old(self).random_number_generator,
            final(self).state == (BbrState {
                current_mtu: new_mtu as u64,
                min_cwnd: (4 * new_mtu) as u64,
                init_cwnd: crate::bbr::state::larger(
                    old(self).state.config.initial_window,
                    (4 * new_mtu) as u64,
                ),
                cwnd: crate::bbr::state::larger(old(self).state.cwnd, (4 * new_mtu) as u64),
                ..old(self).state
            }),
            final(self).state == old(self).state.with_mtu(new_mtu),
            old(self).state.valid() ==> final(self).state.valid(),
    {
        self.state.current_mtu = new_mtu as u64;
        self.state.min_cwnd = calculate_min_window(self.state.current_mtu);
        self.state.init_cwnd = if self.state.config.initial_window >= self.state.min_cwnd {
            self.state.config.initial_window
        } else {
            self.state.min_cwnd
        };
        if self.state.cwnd < self.state.min_cwnd {
            self.state.cwnd = self.state.min_cwnd;
        }
    }

    /// The congestion window in force.
    pub fn window(&self, bandwidth: u64) -> (r: u64)
        requires
            self.state.window_fits(bandwidth),
        ensures
            r == self.state.window_view(bandwidth),
    {
        self.state.window(bandwidth)
    }

    pub fn metrics(&self, bandwidth: u64) -> (r: ControllerMetrics)
        requires
            self.state.window_fits(bandwidth),
            self.state.pacing_rate * 8 <= u64::MAX,
        ensures
            r == (ControllerMetrics {
                congestion_window: self.state.window_view(bandwidth),
                ssthresh: None,
                pacing_rate: Some((self.state.pacing_rate * 8) as u64),
            }),
    {
        ControllerMetrics {
            congestion_window: self.window(bandwidth),
            ssthresh: None,
            pacing_rate: Some(self.state.pacing_rate * 8),
        }
    }

    pub fn initial_window(&self) -> (r: u64)
        ensures
            r == self.state.config.initial_window,
    {
        self.state.config.initial_window
    }
}

} // verus!
