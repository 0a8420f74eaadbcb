//! How a batch of acknowledgements moves the state.

use crate::bbr::gain::Gain;
use crate::bbr::state::{
    BbrState, LossState, Mode, RecoveryState, PHASE_CHOICES, PROBE_RTT_MILLIS,
};
use crate::float64::Float64;
use crate::time::{Instant, MAX_NANOS};
use vstd::prelude::*;

verus! {

/// A batch of acknowledgements, with what the estimators made of it.
#[derive(Debug, Clone, Copy)]
pub struct AckBatch {
    pub now: Instant,
    pub in_flight: u64,
    pub app_limited: bool,
    pub largest_packet_num_acked: Option<u64>,
    /// The estimated bandwidth in bytes per second
    pub bandwidth: u64,
    /// The initial window over the minimum round-trip time, in bytes per second
    pub initial_rate: u64,
    /// The largest recent sample of how far acknowledgements run ahead
    pub max_ack_height: u64,
}

impl BbrState {
    /// The state once the bytes that a batch covers are known.
    pub open spec fn bytes_taken(self, bytes: u64, now: Instant, bandwidth: u64) -> BbrState {
        BbrState {
            ack_aggregation: self.ack_aggregation.updated(bytes, now, bandwidth),
            newly_acked: bytes,
            excess_acked: self.ack_aggregation.excess(bytes, now, bandwidth),
            ..self
        }
    }

    /// The largest packet number that is known to have arrived.
    pub open spec fn largest_acked(self, batch: AckBatch) -> u64 {
        match batch.largest_packet_num_acked {
            Some(number) => number,
            None => self.max_acked_packet_number,
        }
    }

    /// A packet has arrived that was sent after the current round began.
    pub open spec fn round_begins(self, batch: AckBatch) -> bool {
        self.newly_acked > 0 && self.largest_acked(batch)
            > self.current_round_trip_end_packet_number
    }

    pub open spec fn round_updated(self, batch: AckBatch) -> BbrState {
        let acked = BbrState { max_acked_packet_number: self.largest_acked(batch), ..self };
        if self.round_begins(batch) {
            BbrState {
                current_round_trip_end_packet_number: self.max_sent_packet_number,
                round_count: (self.round_count + 1) as u64,
                ..acked
            }
        } else {
            acked
        }
    }

    pub(crate) fn update_round(&mut self, batch: &AckBatch) -> (r: bool)
        requires
            old(self).round_begins(*batch) ==> old(self).round_count < u64::MAX,
        ensures
            *final(self) == old(self).round_updated(*batch),
            r == old(self).round_begins(*batch),
    {
        if let Some(largest_acked_packet) = batch.largest_packet_num_acked {
            self.max_acked_packet_number = largest_acked_packet;
        }
        let is_round_start: bool = self.newly_acked > 0 && self.max_acked_packet_number
            > self.current_round_trip_end_packet_number;
        if is_round_start {
            self.current_round_trip_end_packet_number = self.max_sent_packet_number;
            self.round_count = self.round_count + 1;
        }
        is_round_start
    }

    /// The state once round, recovery and gain cycle are up to date.
    pub open spec fn cycle_updated(self, batch: AckBatch) -> BbrState {
        let s = self.round_updated(batch).recovery_updated(self.round_begins(batch));
        if s.mode == Mode::ProbeBw {
            s.gain_cycled(batch.now, batch.in_flight, batch.bandwidth)
        } else {
            s
        }
    }

    /// The state once it is decided whether the bandwidth still grows.
    pub open spec fn growth_updated(self, batch: AckBatch) -> BbrState {
        let s = self.cycle_updated(batch);
        if self.round_begins(batch) && !s.is_at_full_bandwidth {
            s.growth_checked(batch.app_limited, batch.bandwidth)
        } else {
            s
        }
    }

    /// A round began with more bandwidth than before.
    pub open spec fn bandwidth_grew(self, batch: AckBatch) -> bool {
        let cycled = self.cycle_updated(batch);
        self.round_begins(batch) && !cycled.is_at_full_bandwidth && !batch.app_limited
            && cycled.has_grown(batch.bandwidth)
    }

    /// The state once the mode is settled, where a start of cruising chooses its phase by
    /// `choice`.
    pub open spec fn mode_updated(self, batch: AckBatch, choice: u8) -> BbrState {
        self.growth_updated(batch).startup_or_drain_exited(
            batch.now,
            batch.in_flight,
            batch.bandwidth,
            choice,
        ).probe_rtt_updated(
            batch.now,
            self.round_begins(batch),
            batch.in_flight,
            batch.app_limited,
            batch.bandwidth,
            choice,
        )
    }

    /// The batch makes the controller start cruising, at a phase that is drawn.
    pub open spec fn cruising_starts(self, batch: AckBatch) -> bool {
        let left = self.growth_updated(batch).startup_left();
        left.is_drained(batch.in_flight, batch.bandwidth) || left.cruising_is_due(
            batch.now,
            self.round_begins(batch),
            batch.app_limited,
        )
    }

    /// Pacing rate, congestion window and recovery window, as they follow from the model.
    pub open spec fn limits_updated(self, batch: AckBatch) -> BbrState {
        self.paced(batch.bandwidth, batch.initial_rate).cwnd_updated(
            self.newly_acked,
            self.excess_acked,
            batch.max_ack_height,
            batch.bandwidth,
        ).recovery_window_updated(
            self.newly_acked,
            self.loss_state.lost_bytes,
            batch.in_flight,
        )
    }

    /// The state after a batch of acknowledgements: the model is brought up to date, then pacing
    /// rate, congestion window and recovery window follow from it.
    pub open spec fn acks_ended(self, batch: AckBatch, choice: u8) -> BbrState {
        BbrState {
            prev_in_flight_count: batch.in_flight,
            loss_state: LossState { lost_bytes: 0 },
            ..self.mode_updated(batch, choice).limits_updated(batch)
        }
    }

    /// No sum or product up to the end of the startup leaves its range.
    pub open spec fn growth_path_fits(self, batch: AckBatch) -> bool {
        let recovered = self.round_updated(batch).recovery_updated(self.round_begins(batch));
        let cycled = self.cycle_updated(batch);
        &&& self.round_begins(batch) ==> self.round_count < u64::MAX
        &&& recovered.mode == Mode::ProbeBw ==> recovered.gain_cycle_fits(batch.bandwidth)
        &&& self.round_begins(batch) && !cycled.is_at_full_bandwidth ==> cycled.growth_fits(
            batch.app_limited,
            batch.bandwidth,
        )
    }

    /// No sum or product of the mode's change leaves its range.
    pub open spec fn mode_fits(self, batch: AckBatch, choice: u8) -> bool {
        &&& self.drain_fits(batch.bandwidth)
        &&& self.startup_or_drain_exited(
            batch.now,
            batch.in_flight,
            batch.bandwidth,
            choice,
        ).probe_rtt_fits(batch.now, batch.in_flight, batch.app_limited, batch.bandwidth)
    }

    /// No sum or product of pacing rate and windows leaves its range.
    pub open spec fn limits_fit(self, batch: AckBatch) -> bool {
        let paced = self.paced(batch.bandwidth, batch.initial_rate);
        &&& self.pacing_fits(batch.bandwidth)
        &&& paced.cwnd_fits(
            self.newly_acked,
            self.excess_acked,
            batch.max_ack_height,
            batch.bandwidth,
        )
        &&& paced.cwnd_updated(
            self.newly_acked,
            self.excess_acked,
            batch.max_ack_height,
            batch.bandwidth,
        ).recovery_window_fits(self.newly_acked, self.loss_state.lost_bytes, batch.in_flight)
    }

    /// No sum or product of the step leaves its range, whatever phase is chosen.
    pub open spec fn acks_fit(self, batch: AckBatch) -> bool {
        &&& self.growth_path_fits(batch)
        &&& forall|choice: u8|
            choice < PHASE_CHOICES ==> #[trigger] self.growth_updated(batch).mode_fits(
                batch,
                choice,
            )
        &&& forall|choice: u8|
            choice < PHASE_CHOICES ==> (#[trigger] self.mode_updated(batch, choice)).limits_fit(
                batch,
            )
    }

    /// Brings recovery, gain cycle and growth up to date.
    pub(crate) fn update_model(
        &mut self,
        batch: &AckBatch,
        is_round_start: bool,
        Ghost(start): Ghost<BbrState>,
    ) -> (r: bool)
        requires
            start.valid(),
            start.growth_path_fits(*batch),
            *old(self) == start.round_updated(*batch),
            is_round_start == start.round_begins(*batch),
        ensures
            *final(self) == start.growth_updated(*batch),
            r == start.bandwidth_grew(*batch),
    {
        self.update_recovery_state(is_round_start);
        if self.mode == Mode::ProbeBw {
            self.update_gain_cycle_phase(batch.now, batch.in_flight, batch.bandwidth);
        }
        assert(*self == start.cycle_updated(*batch));
        if is_round_start && !self.is_at_full_bandwidth {
            return self.check_if_full_bw_reached(batch.app_limited, batch.bandwidth);
        }
        false
    }

    /// Recalculates pacing rate, congestion window and recovery window.
    pub(crate) fn update_limits(&mut self, batch: &AckBatch)
        requires
            old(self).limits_fit(*batch),
        ensures
            *final(self) == old(self).limits_updated(*batch),
    {
        let lost_bytes: u64 = self.loss_state.lost_bytes;
        self.calculate_pacing_rate(batch.bandwidth, batch.initial_rate);
        self.calculate_cwnd(
            self.newly_acked,
            self.excess_acked,
            batch.max_ack_height,
            batch.bandwidth,
        );
        self.calculate_recovery_window(self.newly_acked, lost_bytes, batch.in_flight);
    }

    /// The same state, but for the phase of the gain cycle and the pacing that follows from it.
    spec fn is_like(self, other: BbrState) -> bool {
        other == (BbrState {
            current_cycle_offset: other.current_cycle_offset,
            pacing_gain: other.pacing_gain,
            pacing_rate: other.pacing_rate,
            ..self
        })
    }

    proof fn lemma_like_probe_rtt(
        self,
        other: BbrState,
        batch: AckBatch,
        is_round_start: bool,
        c1: u8,
        c2: u8,
    )
        requires
            self.is_like(other),
        ensures
            self.probe_rtt_fits(batch.now, batch.in_flight, batch.app_limited, batch.bandwidth)
                == other.probe_rtt_fits(
                batch.now,
                batch.in_flight,
                batch.app_limited,
                batch.bandwidth,
            ),
            self.probe_rtt_updated(
                batch.now,
                is_round_start,
                batch.in_flight,
                batch.app_limited,
                batch.bandwidth,
                c1,
            ).is_like(
                other.probe_rtt_updated(
                    batch.now,
                    is_round_start,
                    batch.in_flight,
                    batch.app_limited,
                    batch.bandwidth,
                    c2,
                ),
            ),
    {
    }

    /// Whether the change of mode stays in range does not depend on the phase that comes up.
    proof fn lemma_mode_fits_any(self, batch: AckBatch, c1: u8, c2: u8)
        ensures
            self.mode_fits(batch, c1) == self.mode_fits(batch, c2),
    {
        let s1 = self.startup_or_drain_exited(batch.now, batch.in_flight, batch.bandwidth, c1);
        let s2 = self.startup_or_drain_exited(batch.now, batch.in_flight, batch.bandwidth, c2);
        s1.lemma_like_probe_rtt(s2, batch, true, c1, c2);
    }

    proof fn lemma_like_mode(self, batch: AckBatch, c1: u8, c2: u8)
        ensures
            self.mode_updated(batch, c1).is_like(self.mode_updated(batch, c2)),
    {
        let grown = self.growth_updated(batch);
        let s1 = grown.startup_or_drain_exited(batch.now, batch.in_flight, batch.bandwidth, c1);
        let s2 = grown.startup_or_drain_exited(batch.now, batch.in_flight, batch.bandwidth, c2);
        assert(s1.is_like(s2));
        s1.lemma_like_probe_rtt(s2, batch, self.round_begins(batch), c1, c2);
    }

    proof fn lemma_like_paced(self, other: BbrState, batch: AckBatch)
        requires
            self.is_like(other),
        ensures
            self.pacing_fits(batch.bandwidth) == other.pacing_fits(batch.bandwidth),
            self.paced(batch.bandwidth, batch.initial_rate).is_like(
                other.paced(batch.bandwidth, batch.initial_rate),
            ),
    {
    }

    proof fn lemma_like_cwnd(self, other: BbrState, batch: AckBatch)
        requires
            self.is_like(other),
        ensures
            self.cwnd_fits(
                self.newly_acked,
                self.excess_acked,
                batch.max_ack_height,
                batch.bandwidth,
            ) == other.cwnd_fits(
                self.newly_acked,
                self.excess_acked,
                batch.max_ack_height,
                batch.bandwidth,
            ),
            self.cwnd_updated(
                self.newly_acked,
                self.excess_acked,
                batch.max_ack_height,
                batch.bandwidth,
            ).is_like(
                other.cwnd_updated(
                    self.newly_acked,
                    self.excess_acked,
                    batch.max_ack_height,
                    batch.bandwidth,
                ),
            ),
    {
    }

    /// Whether pacing rate and windows stay in range does not depend on the phase either.
    proof fn lemma_like_limits(self, other: BbrState, batch: AckBatch)
        requires
            self.is_like(other),
        ensures
            self.limits_fit(batch) == other.limits_fit(batch),
    {
        self.lemma_like_paced(other, batch);
        let paced = self.paced(batch.bandwidth, batch.initial_rate);
        let other_paced = other.paced(batch.bandwidth, batch.initial_rate);
        paced.lemma_like_cwnd(other_paced, batch);
    }

    // --- Tests of the range ---

    fn gain_cycle_in_range(&self, bandwidth: u64) -> (r: bool)
        ensures
            r == self.gain_cycle_fits(bandwidth),
    {
        let needed = self.config.fixed_pacing_bps.is_none() && (self.pacing_gain.is_below_one()
            || (self.pacing_gain.is_above_one() && !self.loss_state.has_losses()));
        !needed || self.bdp_in_range(bandwidth)
    }

    pub fn window_in_range(&self, bandwidth: u64) -> (r: bool)
        ensures
            r == self.window_fits(bandwidth),
    {
        self.mode != Mode::ProbeRtt || self.bdp_in_range(bandwidth)
    }

    fn probe_rtt_in_range(&self, batch: &AckBatch) -> (r: bool)
        ensures
            r == self.probe_rtt_fits(
                batch.now,
                batch.in_flight,
                batch.app_limited,
                batch.bandwidth,
            ),
    {
        let enters = self.is_min_rtt_expired(batch.now, batch.app_limited)
            && !self.exiting_quiescence && self.mode != Mode::ProbeRtt;
        if !enters && (self.mode != Mode::ProbeRtt || self.exit_probe_rtt_at.is_some()) {
            return true;
        }
        if !self.bdp_in_range(batch.bandwidth) {
            return false;
        }
        let small: u64 = self.get_probe_rtt_cwnd(batch.bandwidth);
        if small > u64::MAX - self.current_mtu {
            return false;
        }
        batch.in_flight >= small + self.current_mtu || batch.now.position()
            + PROBE_RTT_MILLIS as u128 * 1_000_000 <= MAX_NANOS
    }

    fn pacing_in_range(&self, bandwidth: u64) -> (r: bool)
        ensures
            r == self.pacing_fits(bandwidth),
    {
        let needed = self.config.fixed_pacing_bps.is_none() && bandwidth != 0
            && self.config.min_pacing_bps > 0 && self.min_rtt.as_nanos() != 0
            && !self.loss_state.has_losses() && !self.recovery_state.in_recovery();
        !needed || self.window_in_range(bandwidth)
    }

    fn cwnd_in_range(&self, batch: &AckBatch) -> (r: bool)
        ensures
            r == self.cwnd_fits(
                self.newly_acked,
                self.excess_acked,
                batch.max_ack_height,
                batch.bandwidth,
            ),
    {
        if self.mode == Mode::ProbeRtt || self.config.fixed_pacing_bps.is_some() {
            return true;
        }
        if !self.bdp_in_range(batch.bandwidth) {
            return false;
        }
        let ahead: u64 = if self.is_at_full_bandwidth {
            batch.max_ack_height
        } else {
            self.excess_acked
        };
        let target: u64 = self.get_target_cwnd(self.cwnd_gain, batch.bandwidth);
        if target > u64::MAX - ahead {
            return false;
        }
        let grows = self.is_at_full_bandwidth || self.cwnd_gain.is_below(target + ahead)
            || self.acked_bytes < self.init_cwnd;
        !grows || self.cwnd <= u64::MAX - self.newly_acked
    }

    fn recovery_window_in_range(&self, bytes_acked: u64, bytes_lost: u64, in_flight: u64) -> (r:
        bool)
        ensures
            r == self.recovery_window_fits(bytes_acked, bytes_lost, in_flight),
    {
        if !self.recovery_state.in_recovery() {
            return true;
        }
        if in_flight > u64::MAX - bytes_acked {
            return false;
        }
        let kept: u64 = if self.recovery_window >= bytes_lost {
            self.recovery_window - bytes_lost
        } else {
            self.current_mtu
        };
        self.recovery_window == 0 || self.recovery_state != RecoveryState::Growth || kept
            <= u64::MAX - bytes_acked
    }

    fn limits_in_range(&self, batch: &AckBatch) -> (r: bool)
        ensures
            r == self.limits_fit(*batch),
    {
        if !self.pacing_in_range(batch.bandwidth) {
            return false;
        }
        let mut s = *self;
        s.calculate_pacing_rate(batch.bandwidth, batch.initial_rate);
        if !s.cwnd_in_range(batch) {
            return false;
        }
        s.calculate_cwnd(
            self.newly_acked,
            self.excess_acked,
            batch.max_ack_height,
            batch.bandwidth,
        );
        s.recovery_window_in_range(
            self.newly_acked,
            self.loss_state.lost_bytes,
            batch.in_flight,
        )
    }

    fn growth_path_in_range(&self, batch: &AckBatch) -> (r: bool)
        requires
            self.valid(),
        ensures
            r == self.growth_path_fits(*batch),
    {
        let largest: u64 = match batch.largest_packet_num_acked {
            Some(number) => number,
            None => self.max_acked_packet_number,
        };
        let begins: bool = self.newly_acked > 0 && largest
            > self.current_round_trip_end_packet_number;
        if begins && self.round_count == u64::MAX {
            return false;
        }
        let mut s = *self;
        s.update_round(batch);
        s.update_recovery_state(begins);
        if s.mode == Mode::ProbeBw {
            if !s.gain_cycle_in_range(batch.bandwidth) {
                return false;
            }
            s.update_gain_cycle_phase(batch.now, batch.in_flight, batch.bandwidth);
        }
        if begins && !s.is_at_full_bandwidth && s.round_wo_bw_gain == u64::MAX {
            let target: u64 = Float64::from_u64(s.bw_at_last_round).mul(
                &Gain::Up.factor(),
            ).to_u64();
            return batch.app_limited || batch.bandwidth >= target;
        }
        true
    }

    /// Whether a batch of acknowledgements can be taken without a sum or product that leaves its
    /// range.
    pub fn acks_in_range(&self, batch: &AckBatch) -> (r: bool)
        requires
            self.valid(),
        ensures
            r == self.acks_fit(*batch),
    {
        if !self.growth_path_in_range(batch) {
            return false;
        }
        let mut s = *self;
        let is_round_start = s.update_round(batch);
        s.update_model(batch, is_round_start, Ghost(*self));
        let ghost grown = s;
        assert(0 < PHASE_CHOICES);
        if s.startup_leads_to_drain() && !s.bdp_in_range(batch.bandwidth) {
            assert(!grown.mode_fits(*batch, 0));
            return false;
        }
        if s.leave_startup_or_drain(batch.in_flight, batch.bandwidth) {
            s.enter_probe_bandwidth_at(batch.now, 0);
        }
        if !s.probe_rtt_in_range(batch) {
            assert(!grown.mode_fits(*batch, 0));
            return false;
        }
        proof {
            assert forall|choice: u8| choice < PHASE_CHOICES implies #[trigger] grown.mode_fits(
                *batch,
                choice,
            ) by {
                grown.lemma_mode_fits_any(*batch, 0, choice);
            }
        }
        let cruise = s.step_probe_rtt(
            batch.now,
            is_round_start,
            batch.in_flight,
            batch.app_limited,
            batch.bandwidth,
        );
        if cruise {
            s.enter_probe_bandwidth_at(batch.now, 0);
        }
        let fits = s.limits_in_range(batch);
        proof {
            assert(s == self.mode_updated(*batch, 0));
            assert forall|choice: u8| choice < PHASE_CHOICES implies (
            #[trigger] self.mode_updated(*batch, choice)).limits_fit(*batch) == fits by {
                self.lemma_like_mode(*batch, 0, choice);
                s.lemma_like_limits(self.mode_updated(*batch, choice), *batch);
            }
        }
        fits
    }

    fn startup_leads_to_drain(&self) -> (r: bool)
        ensures
            r == (self.startup_left().mode == Mode::Drain),
    {
        self.mode == Mode::Drain || (self.mode == Mode::Startup && self.is_at_full_bandwidth)
    }
}

} // verus!
