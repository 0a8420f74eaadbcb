//! The state of the congestion controller and how acknowledgements move it.

use crate::bbr::config::BbrConfig;
use crate::bbr::gain::{Gain, CYCLE_LEN};
use crate::float64::{Float64, Value};
use crate::time::{Duration, Instant, MAX_NANOS};
use vstd::prelude::*;

verus! {

/// How many rounds without growth end the startup.
pub const ROUND_TRIPS_WITHOUT_GROWTH: u64 = 3;

/// How many values the random choice of a cycle phase may take.
pub const PHASE_CHOICES: u8 = 7;

/// How long a minimum round-trip time is trusted, in nanoseconds.
pub const MIN_RTT_EXPIRY_NANOS: u128 = 10_000_000_000;

/// How long the window stays small to measure the round-trip time, in milliseconds.
pub const PROBE_RTT_MILLIS: u64 = 200;

#[derive(Debug, Clone, Copy, Eq, PartialEq, Structural)]
pub enum Mode {
    /// Startup phase of the connection.
    Startup,
    /// After achieving the highest possible bandwidth during the startup, lower the pacing rate
    /// in order to drain the queue.
    Drain,
    /// Cruising mode.
    ProbeBw,
    /// Temporarily slow down sending in order to empty the buffer and measure the real minimum
    /// RTT.
    ProbeRtt,
}

/// Indicates how the congestion control limits the amount of bytes in flight.
#[derive(Debug, Clone, Copy, Eq, PartialEq, Structural)]
pub enum RecoveryState {
    /// Do not limit.
    NotInRecovery,
    /// Allow an extra outstanding byte for each byte acknowledged.
    Conservation,
    /// Allow two extra outstanding bytes for each byte acknowledged (slow start).
    Growth,
}

impl RecoveryState {
    pub fn in_recovery(&self) -> (r: bool)
        ensures
            r == (*self != RecoveryState::NotInRecovery),
    {
        !matches!(self, RecoveryState::NotInRecovery)
    }
}

/// What was lost since the last batch of acknowledgements.
#[derive(Debug, Clone, Copy)]
pub struct LossState {
    pub lost_bytes: u64,
}

impl LossState {
    pub fn reset(&mut self)
        ensures
            final(self).lost_bytes == 0,
    {
        self.lost_bytes = 0;
    }

    pub fn has_losses(&self) -> (r: bool)
        ensures
            r == (self.lost_bytes != 0),
    {
        self.lost_bytes != 0
    }
}

/// The least window: four packets.
pub fn calculate_min_window(current_mtu: u64) -> (r: u64)
    requires
        4 * current_mtu <= u64::MAX,
    ensures
        r == 4 * current_mtu,
{
    4 * current_mtu
}

/// How many more bytes arrive than the estimated bandwidth explains.
#[derive(Debug, Clone, Copy)]
pub struct AckAggregationState {
    pub aggregation_epoch_start_time: Option<Instant>,
    pub aggregation_epoch_bytes: u64,
}

impl AckAggregationState {
    /// Microseconds since the epoch began; none before the first one.
    pub open spec fn epoch_micros(self, now: Instant) -> nat {
        match self.aggregation_epoch_start_time {
            Some(start) => (now.span_since(start) / 1000) % 0x1_0000_0000_0000_0000,
            None => 0,
        }
    }

    /// How many bytes the bandwidth explains.
    pub open spec fn expected(self, now: Instant, max_bandwidth: u64) -> nat {
        max_bandwidth as nat * self.epoch_micros(now) / 1_000_000
    }

    /// The bandwidth explains all bytes of the epoch, so that a new one begins.
    pub open spec fn epoch_ends(self, now: Instant, max_bandwidth: u64) -> bool {
        self.aggregation_epoch_bytes <= self.expected(now, max_bandwidth)
    }

    /// How many bytes of the epoch are unexplained once more were acknowledged.
    pub open spec fn excess(self, newly_acked_bytes: u64, now: Instant, max_bandwidth: u64) -> u64 {
        if self.epoch_ends(now, max_bandwidth) {
            0
        } else {
            (self.aggregation_epoch_bytes + newly_acked_bytes - self.expected(
                now,
                max_bandwidth,
            )) as u64
        }
    }

    /// The epoch with more bytes, or a new one.
    pub open spec fn updated(
        self,
        newly_acked_bytes: u64,
        now: Instant,
        max_bandwidth: u64,
    ) -> AckAggregationState {
        if self.epoch_ends(now, max_bandwidth) {
            AckAggregationState {
                aggregation_epoch_start_time: Some(now),
                aggregation_epoch_bytes: newly_acked_bytes,
            }
        } else {
            AckAggregationState {
                aggregation_epoch_bytes: (self.aggregation_epoch_bytes + newly_acked_bytes) as u64,
                ..self
            }
        }
    }

    pub open spec fn fits(self, newly_acked_bytes: u64, now: Instant, max_bandwidth: u64) -> bool {
        &&& max_bandwidth as nat * self.epoch_micros(now) <= u64::MAX
        &&& !self.epoch_ends(now, max_bandwidth) ==> self.aggregation_epoch_bytes + newly_acked_bytes <= u64::MAX
    }

    /// Whether bytes can be taken note of without a sum or product that leaves its range.
    pub fn in_range(&self, newly_acked_bytes: u64, now: Instant, max_bandwidth: u64) -> (r: bool)
        ensures
            r == self.fits(newly_acked_bytes, now, max_bandwidth),
    {
        let elapsed: u64 = match self.aggregation_epoch_start_time {
            Some(start) => now.saturating_duration_since(start).as_micros(),
            None => 0,
        };
        proof {
            assert(max_bandwidth as nat * self.epoch_micros(now) == max_bandwidth * elapsed);
            assert(0 <= max_bandwidth * elapsed <= u64::MAX * u64::MAX) by (nonlinear_arith)
                requires
                    0 <= max_bandwidth <= u64::MAX,
                    0 <= elapsed <= u64::MAX,
            ;
        }
        let product: u128 = max_bandwidth as u128 * elapsed as u128;
        product <= u64::MAX as u128 && (self.aggregation_epoch_bytes as u128 <= product / 1_000_000
            || self.aggregation_epoch_bytes <= u64::MAX - newly_acked_bytes)
    }

    /// Takes note of acknowledged bytes and returns how many of the epoch are unexplained. The
    /// result is zero exactly where a new epoch begins; any other result is a sample of how far
    /// acknowledgements run ahead.
    pub fn update_ack_aggregation_bytes(
        &mut self,
        newly_acked_bytes: u64,
        now: Instant,
        max_bandwidth: u64,
    ) -> (r: u64)
        requires
            old(self).fits(newly_acked_bytes, now, max_bandwidth),
        ensures
            r == old(self).excess(newly_acked_bytes, now, max_bandwidth),
            r > 0 <==> !old(self).epoch_ends(now, max_bandwidth),
            *final(self) == old(self).updated(newly_acked_bytes, now, max_bandwidth),
    {
        let start = match self.aggregation_epoch_start_time {
            Some(start) => start,
            None => now,
        };
        let elapsed: u64 = now.saturating_duration_since(start).as_micros();
        proof {
            assert(elapsed == self.epoch_micros(now));
            assert(max_bandwidth * elapsed == max_bandwidth as nat * self.epoch_micros(now));
        }
        let expected_bytes_acked: u64 = max_bandwidth * elapsed / 1_000_000;
        if self.aggregation_epoch_bytes <= expected_bytes_acked {
            // Reset to start measuring a new aggregation epoch.
            self.aggregation_epoch_bytes = newly_acked_bytes;
            self.aggregation_epoch_start_time = Some(now);
            return 0;
        }
        // Include the bytes most recently acknowledged to account for stretch acks.
        self.aggregation_epoch_bytes = self.aggregation_epoch_bytes + newly_acked_bytes;
        self.aggregation_epoch_bytes - expected_bytes_acked
    }
}

/// The state of the congestion controller.
#[derive(Debug, Clone, Copy)]
pub struct BbrState {
    pub config: BbrConfig,
    pub current_mtu: u64,
    pub acked_bytes: u64,
    pub mode: Mode,
    pub loss_state: LossState,
    pub recovery_state: RecoveryState,
    pub recovery_window: u64,
    pub is_at_full_bandwidth: bool,
    pub pacing_gain: Gain,
    pub cwnd_gain: Gain,
    pub last_cycle_start: Option<Instant>,
    pub current_cycle_offset: u8,
    pub init_cwnd: u64,
    pub min_cwnd: u64,
    pub prev_in_flight_count: u64,
    pub exit_probe_rtt_at: Option<Instant>,
    pub probe_rtt_last_started_at: Option<Instant>,
    pub min_rtt: Duration,
    pub exiting_quiescence: bool,
    /// In bytes per second
    pub pacing_rate: u64,
    pub max_acked_packet_number: u64,
    pub max_sent_packet_number: u64,
    pub end_recovery_at_packet_number: u64,
    pub cwnd: u64,
    pub current_round_trip_end_packet_number: u64,
    pub round_count: u64,
    pub bw_at_last_round: u64,
    pub round_wo_bw_gain: u64,
    pub ack_aggregation: AckAggregationState,
    /// Bytes that the batch of acknowledgements in hand covers
    pub newly_acked: u64,
    /// Bytes that arrived ahead of the bandwidth, as of that batch
    pub excess_acked: u64,
}

pub open spec fn larger(a: u64, b: u64) -> u64 {
    if a >= b {
        a
    } else {
        b
    }
}

pub open spec fn smaller(a: u64, b: u64) -> u64 {
    if a <= b {
        a
    } else {
        b
    }
}

fn larger_of(a: u64, b: u64) -> (r: u64)
    ensures
        r == larger(a, b),
{
    if a >= b {
        a
    } else {
        b
    }
}

fn smaller_of(a: u64, b: u64) -> (r: u64)
    ensures
        r == smaller(a, b),
{
    if a <= b {
        a
    } else {
        b
    }
}

impl BbrState {
    /// The cycle stands at one of its phases, and the least window is four packets.
    pub open spec fn valid(self) -> bool {
        self.current_cycle_offset < CYCLE_LEN && self.min_cwnd == 4 * self.current_mtu
    }

    pub open spec fn has_losses(self) -> bool {
        self.loss_state.lost_bytes != 0
    }

    pub open spec fn in_recovery(self) -> bool {
        self.recovery_state != RecoveryState::NotInRecovery
    }

    pub open spec fn is_fixed(self) -> bool {
        self.config.fixed_pacing_bps is Some
    }

    // --- Windows ---

    /// The product of bandwidth and delay, in millionths of a byte.
    pub open spec fn bdp(self, bandwidth: u64) -> nat {
        self.min_rtt.micros() * bandwidth as nat
    }

    pub open spec fn bdp_fits(self, bandwidth: u64) -> bool {
        self.bdp(bandwidth) <= u64::MAX
    }

    /// The product of bandwidth and delay, scaled by a gain, in whole bytes.
    pub open spec fn scaled_bdp(self, gain: Gain, bandwidth: u64) -> u64 {
        gain.value().times(Value::of_integer(self.bdp(bandwidth))).over(
            Value::of_integer(1_000_000),
        ).truncated()
    }

    /// The window for a gain: the initial window before there is an estimate, else the scaled
    /// product, and no less than the least window.
    pub open spec fn target_cwnd(self, gain: Gain, bandwidth: u64) -> u64 {
        let cwnd = self.scaled_bdp(gain, bandwidth);
        if cwnd == 0 {
            self.init_cwnd
        } else {
            larger(cwnd, self.min_cwnd)
        }
    }

    /// The window that fills the path at a fixed rate of `bps` bits per second.
    pub open spec fn fixed_cwnd(self, bps: u64) -> u64 {
        if self.min_rtt.total() != 0 {
            larger(
                Value::of_integer(bps as nat).times(self.min_rtt.seconds_value()).over(
                    Value::of_integer(8),
                ).truncated(),
                self.min_cwnd,
            )
        } else {
            self.min_cwnd
        }
    }

    /// The congestion window in force.
    pub open spec fn window_view(self, bandwidth: u64) -> u64 {
        if self.mode == Mode::ProbeRtt {
            self.target_cwnd(Gain::Down, bandwidth)
        } else if self.is_fixed() {
            self.fixed_cwnd(self.config.fixed_pacing_bps->0)
        } else if self.in_recovery() && self.mode != Mode::Startup {
            smaller(self.cwnd, self.recovery_window)
        } else {
            self.cwnd
        }
    }

    pub open spec fn window_fits(self, bandwidth: u64) -> bool {
        self.mode == Mode::ProbeRtt ==> self.bdp_fits(bandwidth)
    }

    pub fn bdp_in_range(&self, bandwidth: u64) -> (r: bool)
        ensures
            r == self.bdp_fits(bandwidth),
    {
        let micros: u64 = self.min_rtt.as_micros();
        proof {
            assert(micros * bandwidth <= u64::MAX * u64::MAX) by (nonlinear_arith)
                requires
                    micros <= u64::MAX,
                    bandwidth <= u64::MAX,
            ;
            assert(micros * bandwidth >= 0) by (nonlinear_arith)
                requires
                    micros >= 0,
                    bandwidth >= 0,
            ;
        }
        micros as u128 * bandwidth as u128 <= u64::MAX as u128
    }

    pub fn get_target_cwnd(&self, gain: Gain, bandwidth: u64) -> (r: u64)
        requires
            self.bdp_fits(bandwidth),
        ensures
            r == self.target_cwnd(gain, bandwidth),
    {
        let micros: u64 = self.min_rtt.as_micros();
        assert(micros * bandwidth == self.bdp(bandwidth));
        assert(micros * bandwidth >= 0) by (nonlinear_arith)
            requires
                micros >= 0,
                bandwidth >= 0,
        ;
        let bdp: u64 = micros * bandwidth;
        let cwnd: u64 = gain.factor().mul(&Float64::from_u64(bdp)).div(
            &Float64::from_u64(1_000_000),
        ).to_u64();
        // BDP estimate will be zero if no bandwidth samples are available yet.
        if cwnd == 0 {
            return self.init_cwnd;
        }
        larger_of(cwnd, self.min_cwnd)
    }

    pub fn get_probe_rtt_cwnd(&self, bandwidth: u64) -> (r: u64)
        requires
            self.bdp_fits(bandwidth),
        ensures
            r == self.target_cwnd(Gain::Down, bandwidth),
    {
        self.get_target_cwnd(Gain::Down, bandwidth)
    }

    fn get_fixed_cwnd(&self, bps: u64) -> (r: u64)
        ensures
            r == self.fixed_cwnd(bps),
    {
        if self.min_rtt.as_nanos() != 0 {
            let win_bytes: u64 = Float64::from_u64(bps).mul(&self.min_rtt.seconds()).div(
                &Float64::from_u64(8),
            ).to_u64();
            return larger_of(win_bytes, self.min_cwnd);
        }
        self.min_cwnd
    }

    pub fn window(&self, bandwidth: u64) -> (r: u64)
        requires
            self.window_fits(bandwidth),
        ensures
            r == self.window_view(bandwidth),
    {
        if self.mode == Mode::ProbeRtt {
            return self.get_probe_rtt_cwnd(bandwidth);
        }
        if let Some(bps) = self.config.fixed_pacing_bps {
            return self.get_fixed_cwnd(bps);
        }
        if self.recovery_state.in_recovery() && self.mode != Mode::Startup {
            return smaller_of(self.cwnd, self.recovery_window);
        }
        self.cwnd
    }

    // --- Modes ---

    pub open spec fn in_startup(self) -> BbrState {
        if self.is_fixed() {
            BbrState {
                mode: Mode::ProbeBw,
                pacing_gain: Gain::Unit,
                cwnd_gain: Gain::Unit,
                ..self
            }
        } else {
            BbrState {
                mode: Mode::Startup,
                pacing_gain: Gain::High,
                cwnd_gain: Gain::High,
                ..self
            }
        }
    }

    /// Back to the startup; with fixed pacing there is none, and the controller cruises.
    pub fn enter_startup_mode(&mut self)
        ensures
            *final(self) == old(self).in_startup(),
    {
        if self.config.fixed_pacing_bps.is_some() {
            self.mode = Mode::ProbeBw;
            self.pacing_gain = Gain::Unit;
            self.cwnd_gain = Gain::Unit;
            return;
        }
        self.mode = Mode::Startup;
        self.pacing_gain = Gain::High;
        self.cwnd_gain = Gain::High;
    }

    /// The phase that a random choice stands for: any but the second one, since increased gain
    /// and decreased gain would then not follow each other.
    pub open spec fn phase_of(choice: u8) -> u8 {
        if choice >= 1 {
            (choice + 1) as u8
        } else {
            choice
        }
    }

    pub open spec fn in_probe_bandwidth(self, now: Instant, choice: u8) -> BbrState {
        BbrState {
            mode: Mode::ProbeBw,
            cwnd_gain: Gain::Double,
            last_cycle_start: Some(now),
            current_cycle_offset: BbrState::phase_of(choice),
            pacing_gain: Gain::of_phase(BbrState::phase_of(choice)),
            ..self
        }
    }

    /// Starts cruising at the phase of the gain cycle that `choice` stands for.
    pub fn enter_probe_bandwidth_at(&mut self, now: Instant, choice: u8)
        requires
            choice < PHASE_CHOICES,
        ensures
            *final(self) == old(self).in_probe_bandwidth(now, choice),
    {
        self.mode = Mode::ProbeBw;
        self.cwnd_gain = Gain::Double;
        self.last_cycle_start = Some(now);
        let phase: u8 = if choice >= 1 {
            choice + 1
        } else {
            choice
        };
        self.current_cycle_offset = phase;
        self.pacing_gain = Gain::in_phase(phase);
    }

    // --- Recovery ---

    pub open spec fn recovery_updated(self, is_round_start: bool) -> BbrState {
        let end = if self.has_losses() {
            self.max_sent_packet_number
        } else {
            self.end_recovery_at_packet_number
        };
        if self.recovery_state == RecoveryState::NotInRecovery {
            if self.has_losses() {
                BbrState {
                    end_recovery_at_packet_number: end,
                    recovery_state: RecoveryState::Conservation,
                    recovery_window: 0,
                    current_round_trip_end_packet_number: self.max_sent_packet_number,
                    ..self
                }
            } else {
                self
            }
        } else {
            BbrState {
                end_recovery_at_packet_number: end,
                recovery_state: if !self.has_losses() && self.max_acked_packet_number > end {
                    RecoveryState::NotInRecovery
                } else if is_round_start {
                    RecoveryState::Growth
                } else {
                    self.recovery_state
                },
                ..self
            }
        }
    }

    /// Enters recovery on the first loss, grows again after a round, and leaves recovery once a
    /// round has passed without losses.
    pub fn update_recovery_state(&mut self, is_round_start: bool)
        ensures
            *final(self) == old(self).recovery_updated(is_round_start),
    {
        // Exit recovery when there are no losses for a round.
        if self.loss_state.has_losses() {
            self.end_recovery_at_packet_number = self.max_sent_packet_number;
        }
        match self.recovery_state {
            RecoveryState::NotInRecovery => {
                if self.loss_state.has_losses() {
                    self.recovery_state = RecoveryState::Conservation;
                    // This will cause the recovery window to be set to the correct value.
                    self.recovery_window = 0;
                    // Since the conservation phase is meant to be lasting for a whole round,
                    // extend the current round as if it were started right now.
                    self.current_round_trip_end_packet_number = self.max_sent_packet_number;
                }
            },
            RecoveryState::Growth | RecoveryState::Conservation => {
                if self.recovery_state == RecoveryState::Conservation && is_round_start {
                    self.recovery_state = RecoveryState::Growth;
                }
                if !self.loss_state.has_losses() && self.max_acked_packet_number
                    > self.end_recovery_at_packet_number {
                    self.recovery_state = RecoveryState::NotInRecovery;
                }
            },
        }
    }

    pub open spec fn recovery_window_fits(self, bytes_acked: u64, bytes_lost: u64, in_flight: u64) -> bool {
        self.in_recovery() ==> {
            &&& in_flight + bytes_acked <= u64::MAX
            &&& self.recovery_window != 0 && self.recovery_state == RecoveryState::Growth
                ==> self.recovery_window_without(bytes_lost) + bytes_acked <= u64::MAX
        }
    }

    /// The recovery window without what was lost, or one packet where more was lost than that.
    pub open spec fn recovery_window_without(self, bytes_lost: u64) -> u64 {
        if self.recovery_window >= bytes_lost {
            (self.recovery_window - bytes_lost) as u64
        } else {
            self.current_mtu
        }
    }

    pub open spec fn recovery_window_updated(
        self,
        bytes_acked: u64,
        bytes_lost: u64,
        in_flight: u64,
    ) -> BbrState {
        let least = larger((in_flight + bytes_acked) as u64, self.min_cwnd);
        if !self.in_recovery() {
            self
        } else if self.recovery_window == 0 {
            BbrState { recovery_window: least, ..self }
        } else {
            let kept = self.recovery_window_without(bytes_lost);
            let grown = if self.recovery_state == RecoveryState::Growth {
                (kept + bytes_acked) as u64
            } else {
                kept
            };
            BbrState { recovery_window: larger(grown, least), ..self }
        }
    }

    pub fn calculate_recovery_window(&mut self, bytes_acked: u64, bytes_lost: u64, in_flight: u64)
        requires
            old(self).recovery_window_fits(bytes_acked, bytes_lost, in_flight),
        ensures
            *final(self) == old(self).recovery_window_updated(bytes_acked, bytes_lost, in_flight),
    {
        if !self.recovery_state.in_recovery() {
            return;
        }
        // Set up the initial recovery window.
        if self.recovery_window == 0 {
            self.recovery_window = larger_of(self.min_cwnd, in_flight + bytes_acked);
            return;
        }
        // Remove losses from the recovery window, while accounting for a potential integer
        // underflow.
        if self.recovery_window >= bytes_lost {
            self.recovery_window = self.recovery_window - bytes_lost;
        } else {
            self.recovery_window = self.current_mtu;
        }
        // In conservation mode, just subtracting losses is sufficient. In growth, release
        // additional bytes to achieve a slow-start-like behavior.
        if self.recovery_state == RecoveryState::Growth {
            self.recovery_window = self.recovery_window + bytes_acked;
        }
        // Ensure that we always allow to send at least as much as was acknowledged in response.
        self.recovery_window = larger_of(
            larger_of(self.recovery_window, in_flight + bytes_acked),
            self.min_cwnd,
        );
    }

    // --- Gain cycle ---

    /// The phase has lasted longer than the minimum round-trip time.
    pub open spec fn phase_is_over(self, now: Instant) -> bool {
        self.last_cycle_start matches Some(start) && now.span_since(start) > self.min_rtt.total()
    }

    pub open spec fn gain_cycle_fits(self, bandwidth: u64) -> bool {
        !self.is_fixed() && (self.pacing_gain.below_one() || (self.pacing_gain.above_one()
            && !self.has_losses())) ==> self.bdp_fits(bandwidth)
    }

    pub open spec fn phase_ends(self, now: Instant, in_flight: u64, bandwidth: u64) -> bool {
        if self.pacing_gain.below_one() && in_flight <= self.target_cwnd(Gain::Unit, bandwidth) {
            true
        } else if self.pacing_gain.above_one() && !self.has_losses() && self.prev_in_flight_count
            < self.target_cwnd(self.pacing_gain, bandwidth) {
            false
        } else {
            self.phase_is_over(now)
        }
    }

    pub open spec fn gain_cycled(self, now: Instant, in_flight: u64, bandwidth: u64) -> BbrState {
        if self.is_fixed() {
            BbrState { pacing_gain: Gain::Unit, ..self }
        } else if self.phase_ends(now, in_flight, bandwidth) {
            let next = ((self.current_cycle_offset + 1) % CYCLE_LEN as int) as u8;
            BbrState {
                current_cycle_offset: next,
                last_cycle_start: Some(now),
                pacing_gain: if self.pacing_gain.below_one() && Gain::of_phase(next) == Gain::Unit
                    && in_flight > self.target_cwnd(Gain::Unit, bandwidth) {
                    self.pacing_gain
                } else {
                    Gain::of_phase(next)
                },
                ..self
            }
        } else {
            self
        }
    }

    pub fn update_gain_cycle_phase(&mut self, now: Instant, in_flight: u64, bandwidth: u64)
        requires
            old(self).valid(),
            old(self).gain_cycle_fits(bandwidth),
        ensures
            *final(self) == old(self).gain_cycled(now, in_flight, bandwidth),
    {
        if self.config.fixed_pacing_bps.is_some() {
            self.pacing_gain = Gain::Unit;
            return;
        }
        // In most cases, the cycle is advanced after an RTT passes.
        let mut should_advance_gain_cycling: bool = match self.last_cycle_start {
            Some(start) => self.min_rtt.lt(&now.saturating_duration_since(start)),
            None => false,
        };
        // If the pacing gain is above one, the connection is trying to probe the bandwidth by
        // increasing the number of bytes in flight. Make sure that it actually reaches the
        // target, as long as there are no losses suggesting that the buffers are not able to
        // hold that much.
        if self.pacing_gain.is_above_one() && !self.loss_state.has_losses()
            && self.prev_in_flight_count < self.get_target_cwnd(self.pacing_gain, bandwidth) {
            should_advance_gain_cycling = false;
        }
        // If the pacing gain is below one, the connection is trying to drain the extra queue
        // which could have been incurred by probing prior to it. If the number of bytes in
        // flight falls down to the estimated BDP value earlier, conclude that the queue has
        // been successfully drained and exit this cycle early.
        if self.pacing_gain.is_below_one() && in_flight <= self.get_target_cwnd(
            Gain::Unit,
            bandwidth,
        ) {
            should_advance_gain_cycling = true;
        }
        if should_advance_gain_cycling {
            self.current_cycle_offset = (self.current_cycle_offset + 1) % CYCLE_LEN;
            self.last_cycle_start = Some(now);
            let next = Gain::in_phase(self.current_cycle_offset);
            // Stay in low gain mode until the target BDP is hit. Low gain mode will be exited
            // immediately when the target BDP is achieved.
            if self.pacing_gain.is_below_one() && next == Gain::Unit && in_flight
                > self.get_target_cwnd(Gain::Unit, bandwidth) {
                return;
            }
            self.pacing_gain = next;
        }
    }

    // --- End of the startup ---

    /// The bandwidth that counts as growth: a quarter more than at the last growth.
    pub open spec fn growth_target(self) -> u64 {
        Value::of_integer(self.bw_at_last_round as nat).times(Gain::Up.value()).truncated()
    }

    pub open spec fn has_grown(self, bandwidth: u64) -> bool {
        bandwidth >= self.growth_target()
    }

    pub open spec fn growth_fits(self, app_limited: bool, bandwidth: u64) -> bool {
        !app_limited && !self.has_grown(bandwidth) ==> self.round_wo_bw_gain < u64::MAX
    }

    pub open spec fn growth_checked(self, app_limited: bool, bandwidth: u64) -> BbrState {
        if app_limited {
            self
        } else if self.has_grown(bandwidth) {
            BbrState { bw_at_last_round: bandwidth, round_wo_bw_gain: 0, ..self }
        } else {
            BbrState {
                round_wo_bw_gain: (self.round_wo_bw_gain + 1) as u64,
                is_at_full_bandwidth: self.is_at_full_bandwidth || self.round_wo_bw_gain + 1
                    >= ROUND_TRIPS_WITHOUT_GROWTH || self.in_recovery(),
                ..self
            }
        }
    }

    /// Decides at the start of a round whether the bandwidth has stopped growing. Returns whether
    /// it has grown: the samples of how far acknowledgements run ahead are then out of date.
    pub fn check_if_full_bw_reached(&mut self, app_limited: bool, bandwidth: u64) -> (r: bool)
        requires
            old(self).growth_fits(app_limited, bandwidth),
        ensures
            *final(self) == old(self).growth_checked(app_limited, bandwidth),
            r == (!app_limited && old(self).has_grown(bandwidth)),
    {
        if app_limited {
            return false;
        }
        let target: u64 = Float64::from_u64(self.bw_at_last_round).mul(
            &Gain::Up.factor(),
        ).to_u64();
        if bandwidth >= target {
            self.bw_at_last_round = bandwidth;
            self.round_wo_bw_gain = 0;
            return true;
        }
        self.round_wo_bw_gain = self.round_wo_bw_gain + 1;
        if self.round_wo_bw_gain >= ROUND_TRIPS_WITHOUT_GROWTH
            || self.recovery_state.in_recovery() {
            self.is_at_full_bandwidth = true;
        }
        false
    }

    pub open spec fn startup_left(self) -> BbrState {
        if self.mode == Mode::Startup && self.is_at_full_bandwidth {
            BbrState {
                mode: Mode::Drain,
                pacing_gain: Gain::Drain,
                cwnd_gain: Gain::High,
                ..self
            }
        } else {
            self
        }
    }

    pub open spec fn is_drained(self, in_flight: u64, bandwidth: u64) -> bool {
        self.mode == Mode::Drain && in_flight <= self.target_cwnd(Gain::Unit, bandwidth)
    }

    pub open spec fn drain_fits(self, bandwidth: u64) -> bool {
        self.startup_left().mode == Mode::Drain ==> self.bdp_fits(bandwidth)
    }

    /// The startup ends at full bandwidth, the drain once no more is in flight than the path
    /// holds.
    pub open spec fn startup_or_drain_exited(
        self,
        now: Instant,
        in_flight: u64,
        bandwidth: u64,
        choice: u8,
    ) -> BbrState {
        let left = self.startup_left();
        if left.is_drained(in_flight, bandwidth) {
            left.in_probe_bandwidth(now, choice)
        } else {
            left
        }
    }

    /// Leaves the startup if it is over. Returns whether the drain is over too, so that cruising
    /// is due.
    pub fn leave_startup_or_drain(&mut self, in_flight: u64, bandwidth: u64) -> (r: bool)
        requires
            old(self).drain_fits(bandwidth),
        ensures
            *final(self) == old(self).startup_left(),
            r == final(self).is_drained(in_flight, bandwidth),
    {
        if self.mode == Mode::Startup && self.is_at_full_bandwidth {
            self.mode = Mode::Drain;
            self.pacing_gain = Gain::Drain;
            self.cwnd_gain = Gain::High;
        }
        self.mode == Mode::Drain && in_flight <= self.get_target_cwnd(Gain::Unit, bandwidth)
    }

    // --- Measuring the round-trip time ---

    pub open spec fn min_rtt_expired(self, now: Instant, app_limited: bool) -> bool {
        !app_limited && (self.probe_rtt_last_started_at matches Some(last) ==> now.span_since(last)
            > MIN_RTT_EXPIRY_NANOS)
    }

    /// The minimum round-trip time is out of date after ten seconds, unless the application did
    /// not send enough to measure one.
    pub fn is_min_rtt_expired(&self, now: Instant, app_limited: bool) -> (r: bool)
        ensures
            r == self.min_rtt_expired(now, app_limited),
    {
        !app_limited && match self.probe_rtt_last_started_at {
            Some(last) => now.saturating_duration_since(last).as_nanos() > MIN_RTT_EXPIRY_NANOS,
            None => true,
        }
    }

    pub open spec fn probe_rtt_entered(self, now: Instant, app_limited: bool) -> BbrState {
        if self.min_rtt_expired(now, app_limited) && !self.exiting_quiescence && self.mode
            != Mode::ProbeRtt {
            BbrState {
                mode: Mode::ProbeRtt,
                pacing_gain: Gain::Unit,
                exit_probe_rtt_at: None,
                probe_rtt_last_started_at: Some(now),
                ..self
            }
        } else {
            self
        }
    }

    /// Few enough bytes are in flight to measure; one extra packet is allowed, since the window
    /// is tested before a packet is sent.
    pub open spec fn is_quiet(self, in_flight: u64, bandwidth: u64) -> bool {
        in_flight < self.target_cwnd(Gain::Down, bandwidth) + self.current_mtu
    }

    /// The time to measure is over, and a round has just begun.
    pub open spec fn probe_rtt_is_over(self, now: Instant, is_round_start: bool) -> bool {
        self.mode == Mode::ProbeRtt && is_round_start && (self.exit_probe_rtt_at matches Some(at)
            && now.at() >= at.at())
    }

    pub open spec fn probe_rtt_fits(
        self,
        now: Instant,
        in_flight: u64,
        app_limited: bool,
        bandwidth: u64,
    ) -> bool {
        let entered = self.probe_rtt_entered(now, app_limited);
        entered.mode == Mode::ProbeRtt && entered.exit_probe_rtt_at is None ==> {
            &&& self.bdp_fits(bandwidth)
            &&& self.target_cwnd(Gain::Down, bandwidth) + self.current_mtu <= u64::MAX
            &&& self.is_quiet(in_flight, bandwidth) ==> now.at() + PROBE_RTT_MILLIS * 1_000_000
                <= MAX_NANOS
        }
    }

    /// All of the step but the start of cruising.
    pub open spec fn probe_rtt_stepped(
        self,
        now: Instant,
        is_round_start: bool,
        in_flight: u64,
        app_limited: bool,
        bandwidth: u64,
    ) -> BbrState {
        let entered = self.probe_rtt_entered(now, app_limited);
        let stepped = if entered.mode == Mode::ProbeRtt && entered.exit_probe_rtt_at is None
            && entered.is_quiet(in_flight, bandwidth) {
            BbrState {
                exit_probe_rtt_at: Some(now.shifted((PROBE_RTT_MILLIS * 1_000_000) as nat)),
                ..entered
            }
        } else if entered.probe_rtt_is_over(now, is_round_start) && !entered.is_at_full_bandwidth {
            entered.in_startup()
        } else {
            entered
        };
        BbrState { exiting_quiescence: false, ..stepped }
    }

    pub open spec fn cruising_is_due(self, now: Instant, is_round_start: bool, app_limited: bool) -> bool {
        let entered = self.probe_rtt_entered(now, app_limited);
        entered.probe_rtt_is_over(now, is_round_start) && entered.is_at_full_bandwidth
    }

    /// When the minimum round-trip time is out of date, sending slows down until few bytes are in
    /// flight, and for a fifth of a second more. The next round then begins in the startup, or
    /// cruising once the bandwidth is known.
    pub open spec fn probe_rtt_updated(
        self,
        now: Instant,
        is_round_start: bool,
        in_flight: u64,
        app_limited: bool,
        bandwidth: u64,
        choice: u8,
    ) -> BbrState {
        let stepped = self.probe_rtt_stepped(
            now,
            is_round_start,
            in_flight,
            app_limited,
            bandwidth,
        );
        if self.cruising_is_due(now, is_round_start, app_limited) {
            stepped.in_probe_bandwidth(now, choice)
        } else {
            stepped
        }
    }

    /// Enters or leaves the measurement of the round-trip time. Returns whether cruising is due.
    pub fn step_probe_rtt(
        &mut self,
        now: Instant,
        is_round_start: bool,
        in_flight: u64,
        app_limited: bool,
        bandwidth: u64,
    ) -> (r: bool)
        requires
            old(self).probe_rtt_fits(now, in_flight, app_limited, bandwidth),
        ensures
            *final(self) == old(self).probe_rtt_stepped(
                now,
                is_round_start,
                in_flight,
                app_limited,
                bandwidth,
            ),
            r == old(self).cruising_is_due(now, is_round_start, app_limited),
    {
        let min_rtt_expired = self.is_min_rtt_expired(now, app_limited);
        if min_rtt_expired && !self.exiting_quiescence && self.mode != Mode::ProbeRtt {
            self.mode = Mode::ProbeRtt;
            self.pacing_gain = Gain::Unit;
            // Do not decide on the time to exit until the number of bytes in flight is at the
            // target small value.
            self.exit_probe_rtt_at = None;
            self.probe_rtt_last_started_at = Some(now);
        }
        let mut cruise: bool = false;
        if self.mode == Mode::ProbeRtt {
            match self.exit_probe_rtt_at {
                None => {
                    if in_flight < self.get_probe_rtt_cwnd(bandwidth) + self.current_mtu {
                        self.exit_probe_rtt_at = Some(
                            now.later(Duration::from_millis(PROBE_RTT_MILLIS)),
                        );
                    }
                },
                Some(at) => {
                    if is_round_start && now.position() >= at.position() {
                        if !self.is_at_full_bandwidth {
                            self.enter_startup_mode();
                        } else {
                            cruise = true;
                        }
                    }
                },
            }
        }
        self.exiting_quiescence = false;
        cruise
    }

    // --- Pacing rate ---

    /// The rate in bits per second at which the window is sent once per round trip.
    pub open spec fn window_rate(self, bandwidth: u64) -> nat {
        let micros = self.min_rtt.total() / 1000;
        self.window_view(bandwidth) as nat * 8_000_000 / if micros > 0 {
            micros
        } else {
            1
        }
    }

    /// The configured minimum, or the rate of the window where that is less, in bytes per second.
    pub open spec fn pacing_floor(self, bandwidth: u64) -> nat {
        let rate = self.window_rate(bandwidth);
        let limit = if rate > 0 {
            rate
        } else {
            1
        };
        let bits = if self.config.min_pacing_bps <= limit {
            self.config.min_pacing_bps as nat
        } else {
            limit
        };
        (bits + 7) / 8
    }

    /// There is a configured minimum, and neither losses nor recovery stand against it.
    pub open spec fn has_pacing_floor(self) -> bool {
        self.config.min_pacing_bps > 0 && self.min_rtt.total() != 0 && !self.has_losses()
            && !self.in_recovery()
    }

    pub open spec fn target_rate(self, bandwidth: u64) -> u64 {
        Value::of_integer(bandwidth as nat).times(self.pacing_gain.value()).truncated()
    }

    /// There is no rate yet, and the initial window can give one.
    pub open spec fn first_rate_due(self, bandwidth: u64) -> bool {
        !self.is_fixed() && bandwidth != 0 && !self.is_at_full_bandwidth && self.pacing_rate == 0
            && self.min_rtt.total() != 0
    }

    /// Whether the rate of the initial window is to be paced at first.
    pub fn first_rate_is_due(&self, bandwidth: u64) -> (r: bool)
        ensures
            r == self.first_rate_due(bandwidth),
    {
        self.config.fixed_pacing_bps.is_none() && bandwidth != 0 && !self.is_at_full_bandwidth
            && self.pacing_rate == 0 && self.min_rtt.as_nanos() != 0
    }

    pub open spec fn pacing_fits(self, bandwidth: u64) -> bool {
        !self.is_fixed() && bandwidth != 0 && self.has_pacing_floor() ==> self.window_fits(bandwidth)
    }

    pub open spec fn paced(self, bandwidth: u64, initial_rate: u64) -> BbrState {
        if self.is_fixed() {
            BbrState {
                pacing_rate: larger(self.config.fixed_pacing_bps->0 / 8, 1),
                pacing_gain: Gain::Unit,
                ..self
            }
        } else if bandwidth == 0 {
            self
        } else {
            let raised = if self.is_at_full_bandwidth {
                self.target_rate(bandwidth)
            } else if self.first_rate_due(bandwidth) {
                initial_rate
            } else {
                larger(self.pacing_rate, self.target_rate(bandwidth))
            };
            BbrState {
                pacing_rate: if self.has_pacing_floor() {
                    larger(raised, self.pacing_floor(bandwidth) as u64)
                } else {
                    raised
                },
                ..self
            }
        }
    }

    /// Paces at a fixed rate if one is configured, else at the estimated bandwidth times the
    /// gain. Before the bandwidth is known, the first rate is that of the initial window, and the
    /// rate never falls. A configured minimum holds in all of these cases.
    pub fn calculate_pacing_rate(&mut self, bandwidth: u64, initial_rate: u64)
        requires
            old(self).pacing_fits(bandwidth),
        ensures
            *final(self) == old(self).paced(bandwidth, initial_rate),
    {
        if let Some(bps) = self.config.fixed_pacing_bps {
            // In bytes per second.
            self.pacing_rate = larger_of(bps / 8, 1);
            self.pacing_gain = Gain::Unit;
            return;
        }
        if bandwidth == 0 {
            return;
        }
        let target_rate: u64 = Float64::from_u64(bandwidth).mul(
            &self.pacing_gain.factor(),
        ).to_u64();
        if self.is_at_full_bandwidth {
            self.pacing_rate = target_rate;
        } else if self.first_rate_is_due(bandwidth) {
            // Pace at the rate of the initial window as soon as there is a round-trip time.
            self.pacing_rate = initial_rate;
        } else if self.pacing_rate < target_rate {
            // Do not decrease the pacing rate during the startup.
            self.pacing_rate = target_rate;
        }
        // Lower bound, if there is one.
        if self.config.min_pacing_bps > 0 && self.min_rtt.as_nanos() != 0
            && !self.loss_state.has_losses() && !self.recovery_state.in_recovery() {
            let window: u64 = self.window(bandwidth);
            assert(window == old(self).window_view(bandwidth));
            let micros: u128 = self.min_rtt.as_nanos() / 1000;
            let divisor: u128 = if micros > 0 {
                micros
            } else {
                1
            };
            let rate: u128 = window as u128 * 8_000_000 / divisor;
            let bits: u64 = if self.config.min_pacing_bps as u128 <= rate {
                self.config.min_pacing_bps
            } else {
                larger_of(rate as u64, 1)
            };
            let floor: u64 = ((bits as u128 + 7) / 8) as u64;
            self.pacing_rate = larger_of(self.pacing_rate, floor);
        }
    }

    // --- Congestion window ---

    /// The window to grow towards: the scaled product of bandwidth and delay, and what is needed
    /// because acknowledgements arrive in bursts.
    pub open spec fn aimed_cwnd(self, excess_acked: u64, max_ack_height: u64, bandwidth: u64) -> nat {
        (self.target_cwnd(self.cwnd_gain, bandwidth) + if self.is_at_full_bandwidth {
            max_ack_height
        } else {
            excess_acked
        }) as nat
    }

    pub open spec fn may_grow(self, aim: nat) -> bool {
        self.is_at_full_bandwidth || self.cwnd_gain.below(aim) || self.acked_bytes < self.init_cwnd
    }

    pub open spec fn cwnd_fits(
        self,
        bytes_acked: u64,
        excess_acked: u64,
        max_ack_height: u64,
        bandwidth: u64,
    ) -> bool {
        let aim = self.aimed_cwnd(excess_acked, max_ack_height, bandwidth);
        self.mode != Mode::ProbeRtt && !self.is_fixed() ==> {
            &&& self.bdp_fits(bandwidth)
            &&& aim <= u64::MAX
            &&& self.may_grow(aim) ==> self.cwnd + bytes_acked <= u64::MAX
        }
    }

    pub open spec fn cwnd_updated(
        self,
        bytes_acked: u64,
        excess_acked: u64,
        max_ack_height: u64,
        bandwidth: u64,
    ) -> BbrState {
        let aim = self.aimed_cwnd(excess_acked, max_ack_height, bandwidth);
        if self.mode == Mode::ProbeRtt {
            self
        } else if self.is_fixed() {
            BbrState { cwnd: self.fixed_cwnd(self.config.fixed_pacing_bps->0), ..self }
        } else {
            let grown = if self.may_grow(aim) {
                (self.cwnd + bytes_acked) as u64
            } else {
                self.cwnd
            };
            let kept = if self.is_at_full_bandwidth {
                smaller(aim as u64, grown)
            } else {
                grown
            };
            BbrState { cwnd: larger(kept, self.min_cwnd), ..self }
        }
    }

    /// Grows the window by what was acknowledged, up to its aim once the bandwidth is known, and
    /// never below the least window. With fixed pacing the window is what fills the path.
    pub fn calculate_cwnd(
        &mut self,
        bytes_acked: u64,
        excess_acked: u64,
        max_ack_height: u64,
        bandwidth: u64,
    )
        requires
            old(self).cwnd_fits(bytes_acked, excess_acked, max_ack_height, bandwidth),
        ensures
            *final(self) == old(self).cwnd_updated(
                bytes_acked,
                excess_acked,
                max_ack_height,
                bandwidth,
            ),
    {
        if self.mode == Mode::ProbeRtt {
            return;
        }
        if let Some(bps) = self.config.fixed_pacing_bps {
            self.cwnd = self.get_fixed_cwnd(bps);
            return;
        }
        let ahead: u64 = if self.is_at_full_bandwidth {
            // Add the largest recently measured ack aggregation.
            max_ack_height
        } else {
            // Add the most recent excess acked. Because the window never decreases in the
            // startup, this will automatically create a very localized max filter.
            excess_acked
        };
        let target_window: u64 = self.get_target_cwnd(self.cwnd_gain, bandwidth) + ahead;
        // Instead of immediately setting the target window as the new one, grow towards it by
        // only increasing it by what was acknowledged at a time.
        if self.is_at_full_bandwidth {
            self.cwnd = smaller_of(target_window, self.cwnd + bytes_acked);
        } else if self.cwnd_gain.is_below(target_window) || self.acked_bytes < self.init_cwnd {
            // If the connection is not yet out of the startup, do not decrease the window.
            self.cwnd = self.cwnd + bytes_acked;
        }
        // Enforce the limits on the congestion window.
        if self.cwnd < self.min_cwnd {
            self.cwnd = self.min_cwnd;
        }
    }
}

} // verus!
