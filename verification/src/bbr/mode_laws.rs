//! When rounds, recovery, modes and phases change over a batch of acknowledgements.

use crate::bbr::batch::AckBatch;
use crate::bbr::gain::Gain;
use crate::bbr::state::{AckAggregationState, BbrState, LossState, Mode, RecoveryState};
use crate::time::Instant;
use vstd::arithmetic::div_mod::*;
use vstd::prelude::*;

verus! {

/// The largest packet number known to have arrived once the batch is in.
pub open spec fn arrived(s: BbrState, batch: AckBatch) -> u64 {
    if batch.largest_packet_num_acked is Some {
        batch.largest_packet_num_acked->0
    } else {
        s.max_acked_packet_number
    }
}

/// A packet that was sent after the current round began has arrived.
pub open spec fn new_round(s: BbrState, batch: AckBatch) -> bool {
    s.newly_acked > 0 && arrived(s, batch) > s.current_round_trip_end_packet_number
}

/// A round ends once a packet arrives that was sent after the round began. The next one then
/// lasts until a packet arrives that has not been sent yet.
pub proof fn law_rounds(s: BbrState, batch: AckBatch, choice: u8)
    requires
        s.round_count < u64::MAX,
    ensures
        ({
            let after = s.acks_ended(batch, choice);
            let first_loss = s.recovery_state == RecoveryState::NotInRecovery
                && s.loss_state.lost_bytes > 0;
            &&& after.max_acked_packet_number == arrived(s, batch)
            &&& after.round_count == if new_round(s, batch) {
                s.round_count + 1
            } else {
                s.round_count as int
            }
            &&& after.current_round_trip_end_packet_number == if new_round(s, batch)
                || first_loss {
                s.max_sent_packet_number
            } else {
                s.current_round_trip_end_packet_number
            }
        }),
{
    lemma_later_steps_keep(s, batch, choice);
}

/// What the batch's later steps leave alone.
pub(crate) proof fn lemma_later_steps_keep(s: BbrState, batch: AckBatch, choice: u8)
    ensures
        ({
            let after = s.acks_ended(batch, choice);
            let early = s.round_updated(batch).recovery_updated(s.round_begins(batch));
            let cycled = s.cycle_updated(batch);
            let grown = s.growth_updated(batch);
            let settled = s.mode_updated(batch, choice);
            &&& cycled == (BbrState {
                current_cycle_offset: cycled.current_cycle_offset,
                last_cycle_start: cycled.last_cycle_start,
                pacing_gain: cycled.pacing_gain,
                ..early
            })
            &&& grown == (BbrState {
                bw_at_last_round: grown.bw_at_last_round,
                round_wo_bw_gain: grown.round_wo_bw_gain,
                is_at_full_bandwidth: grown.is_at_full_bandwidth,
                ..cycled
            })
            &&& settled == (BbrState {
                mode: settled.mode,
                pacing_gain: settled.pacing_gain,
                cwnd_gain: settled.cwnd_gain,
                last_cycle_start: settled.last_cycle_start,
                current_cycle_offset: settled.current_cycle_offset,
                exit_probe_rtt_at: settled.exit_probe_rtt_at,
                probe_rtt_last_started_at: settled.probe_rtt_last_started_at,
                exiting_quiescence: settled.exiting_quiescence,
                ..grown
            })
            &&& after == (BbrState {
                pacing_rate: after.pacing_rate,
                pacing_gain: after.pacing_gain,
                cwnd: after.cwnd,
                recovery_window: after.recovery_window,
                prev_in_flight_count: batch.in_flight,
                loss_state: LossState { lost_bytes: 0 },
                ..settled
            })
            &&& s.config.fixed_pacing_bps is None ==> after.pacing_gain == settled.pacing_gain
        }),
{
    let early = s.round_updated(batch).recovery_updated(s.round_begins(batch));
    let cycled = s.cycle_updated(batch);
    let grown = s.growth_updated(batch);
    let exited = grown.startup_or_drain_exited(
        batch.now,
        batch.in_flight,
        batch.bandwidth,
        choice,
    );
    assert(exited == (BbrState {
        mode: exited.mode,
        pacing_gain: exited.pacing_gain,
        cwnd_gain: exited.cwnd_gain,
        last_cycle_start: exited.last_cycle_start,
        current_cycle_offset: exited.current_cycle_offset,
        ..grown
    }));
    let settled = s.mode_updated(batch, choice);
    assert(settled == (BbrState {
        mode: settled.mode,
        pacing_gain: settled.pacing_gain,
        cwnd_gain: settled.cwnd_gain,
        last_cycle_start: settled.last_cycle_start,
        current_cycle_offset: settled.current_cycle_offset,
        exit_probe_rtt_at: settled.exit_probe_rtt_at,
        probe_rtt_last_started_at: settled.probe_rtt_last_started_at,
        exiting_quiescence: settled.exiting_quiescence,
        ..exited
    }));
    assert(settled.config == s.config);
    let paced = settled.paced(batch.bandwidth, batch.initial_rate);
    assert(paced == (BbrState {
        pacing_rate: paced.pacing_rate,
        pacing_gain: paced.pacing_gain,
        ..settled
    }));
    let limited = settled.limits_updated(batch);
    assert(limited == (BbrState {
        cwnd: limited.cwnd,
        recovery_window: limited.recovery_window,
        ..paced
    }));
}

/// Packets, settings and the evaluation of acknowledged bytes are not a batch's business.
pub proof fn law_batch_keeps(s: BbrState, batch: AckBatch, choice: u8)
    ensures
        ({
            let after = s.acks_ended(batch, choice);
            &&& after.config == s.config
            &&& after.current_mtu == s.current_mtu
            &&& after.acked_bytes == s.acked_bytes
            &&& after.init_cwnd == s.init_cwnd
            &&& after.min_cwnd == s.min_cwnd
            &&& after.min_rtt == s.min_rtt
            &&& after.max_sent_packet_number == s.max_sent_packet_number
            &&& after.ack_aggregation == s.ack_aggregation
            &&& after.newly_acked == s.newly_acked
            &&& after.excess_acked == s.excess_acked
            &&& after.prev_in_flight_count == batch.in_flight
            &&& after.loss_state.lost_bytes == 0
            &&& !after.exiting_quiescence
        }),
{
    lemma_later_steps_keep(s, batch, choice);
}

/// Recovery begins with the first loss. It lasts at least until a packet arrives that was sent
/// after the last loss was seen, and it ends with the first batch without losses in which such a
/// packet has arrived. It starts by conserving, and grows from the next round on.
pub proof fn law_recovery(s: BbrState, batch: AckBatch, choice: u8)
    ensures
        ({
            let after = s.acks_ended(batch, choice);
            let was_in = s.recovery_state != RecoveryState::NotInRecovery;
            let is_in = after.recovery_state != RecoveryState::NotInRecovery;
            let losses = s.loss_state.lost_bytes > 0;
            let past = arrived(s, batch) > s.end_recovery_at_packet_number;
            // When it is on.
            &&& losses ==> is_in
            &&& was_in && !past ==> is_in
            &&& was_in && !losses && past ==> !is_in
            &&& !was_in && !losses ==> !is_in
            // Its end.
            &&& losses ==> after.end_recovery_at_packet_number == s.max_sent_packet_number
            &&& !losses ==> after.end_recovery_at_packet_number == s.end_recovery_at_packet_number
            // Its kind.
            &&& !was_in && losses ==> after.recovery_state == RecoveryState::Conservation
            &&& was_in && is_in && new_round(s, batch) ==> after.recovery_state
                == RecoveryState::Growth
            &&& was_in && is_in && !new_round(s, batch) ==> after.recovery_state
                == s.recovery_state
        }),
{
    lemma_later_steps_keep(s, batch, choice);
}

/// The recovery window starts at what is in flight. It shrinks by what was lost, grows again by
/// what was acknowledged once recovery grows, and always admits what is in flight with what was
/// acknowledged, and four packets.
pub proof fn law_recovery_window(s: BbrState, batch: AckBatch, choice: u8)
    requires
        s.acks_fit(batch),
        choice < crate::bbr::state::PHASE_CHOICES,
    ensures
        ({
            let after = s.acks_ended(batch, choice);
            let w = after.recovery_window;
            let lost = s.loss_state.lost_bytes;
            let started = s.recovery_state == RecoveryState::NotInRecovery || s.recovery_window
                == 0;
            let sent = batch.in_flight + s.newly_acked;
            let kept = if s.recovery_window >= lost {
                s.recovery_window - lost
            } else {
                s.current_mtu as int
            };
            let grown = if after.recovery_state == RecoveryState::Growth {
                kept + s.newly_acked
            } else {
                kept
            };
            if after.recovery_state == RecoveryState::NotInRecovery {
                w == s.recovery_window
            } else {
                &&& w >= sent
                &&& w >= s.min_cwnd
                &&& started ==> w == sent || w == s.min_cwnd
                &&& !started ==> w >= grown && (w == sent || w == s.min_cwnd || w == grown)
            }
        }),
{
    lemma_later_steps_keep(s, batch, choice);
    assert(s.mode_updated(batch, choice).limits_fit(batch));
}

/// The startup looks for growth once per round. A quarter more than at the last growth counts;
/// anything less counts against it, and the third such round, or one in recovery, shows that the
/// bandwidth is known.
pub proof fn law_growth(s: BbrState, batch: AckBatch, choice: u8)
    requires
        s.round_wo_bw_gain < u64::MAX,
        s.bw_at_last_round < 0x4_0000_0000_0000,
    ensures
        ({
            let after = s.acks_ended(batch, choice);
            let looks = new_round(s, batch) && !s.is_at_full_bandwidth && !batch.app_limited;
            let enough = 4 * batch.bandwidth + 4 > 5 * s.bw_at_last_round;
            &&& !looks ==> after.is_at_full_bandwidth == s.is_at_full_bandwidth
                && after.bw_at_last_round == s.bw_at_last_round && after.round_wo_bw_gain
                == s.round_wo_bw_gain
            &&& looks && enough ==> !after.is_at_full_bandwidth && after.bw_at_last_round
                == batch.bandwidth && after.round_wo_bw_gain == 0
            &&& looks && !enough ==> after.bw_at_last_round == s.bw_at_last_round
                && after.round_wo_bw_gain == s.round_wo_bw_gain + 1 && (after.is_at_full_bandwidth
                <==> s.round_wo_bw_gain + 1 >= 3 || after.recovery_state
                != RecoveryState::NotInRecovery)
        }),
{
    lemma_later_steps_keep(s, batch, choice);
    let cycled = s.cycle_updated(batch);
    crate::bbr::rate_laws::lemma_growth_target(cycled);
}

/// The samples of how far acknowledgements run ahead are out of date exactly where the startup
/// has found growth.
pub proof fn law_growth_is_reported(s: BbrState, batch: AckBatch)
    requires
        s.bw_at_last_round < 0x4_0000_0000_0000,
    ensures
        s.bandwidth_grew(batch) <==> new_round(s, batch) && !s.is_at_full_bandwidth
            && !batch.app_limited && 4 * batch.bandwidth + 4 > 5 * s.bw_at_last_round,
{
    lemma_later_steps_keep(s, batch, 0);
    crate::bbr::rate_laws::lemma_growth_target(s.cycle_updated(batch));
}

/// The minimum round-trip time is out of date: none was measured for more than ten seconds, while
/// the application sent enough.
pub open spec fn is_out_of_date(s: BbrState, now: Instant, app_limited: bool) -> bool {
    !app_limited && (s.probe_rtt_last_started_at is None || now.at()
        > s.probe_rtt_last_started_at->0.at() + 10_000_000_000)
}

/// When the minimum round-trip time counts as out of date.
pub proof fn law_min_rtt_expires(s: BbrState, now: Instant, app_limited: bool)
    ensures
        s.min_rtt_expired(now, app_limited) == is_out_of_date(s, now, app_limited),
{
}

/// The batch makes the controller measure the round-trip time.
pub open spec fn starts_to_measure(s: BbrState, batch: AckBatch) -> bool {
    is_out_of_date(s, batch.now, batch.app_limited) && !s.exiting_quiescence && s.mode
        != Mode::ProbeRtt
}

/// The end of the measurement, a fifth of a second after few enough bytes are in flight: no more
/// than three quarters of what the path holds, and less than one packet beyond.
pub open spec fn end_of_measurement(s: BbrState, batch: AckBatch) -> Option<Instant> {
    if batch.in_flight < s.target_cwnd(Gain::Down, batch.bandwidth) + s.current_mtu {
        Some(batch.now.shifted(200_000_000))
    } else {
        None
    }
}

/// Cruising has just started, at the phase that was drawn.
pub open spec fn starts_to_cruise(s: BbrState, after: BbrState, now: Instant, choice: u8) -> bool {
    &&& after.mode == Mode::ProbeBw
    &&& after.cwnd_gain == Gain::Double
    &&& after.last_cycle_start == Some(now)
    &&& after.current_cycle_offset == if choice == 0 {
        0
    } else {
        choice + 1
    }
    &&& after.pacing_gain == if choice == 0 && s.config.fixed_pacing_bps is None {
        Gain::Up
    } else {
        Gain::Unit
    }
}

/// The measurement of the round-trip time starts when the last one is out of date, and only then.
/// It ends with a round that begins after its time is over: in the startup, or cruising once the
/// bandwidth is known.
pub proof fn law_measuring_the_round_trip_time(s: BbrState, batch: AckBatch, choice: u8)
    requires
        choice < crate::bbr::state::PHASE_CHOICES,
    ensures
        ({
            let after = s.acks_ended(batch, choice);
            let over = new_round(s, batch) && s.exit_probe_rtt_at is Some && batch.now.at()
                >= s.exit_probe_rtt_at->0.at();
            &&& starts_to_measure(s, batch) ==> after.mode == Mode::ProbeRtt && after.pacing_gain
                == Gain::Unit && after.probe_rtt_last_started_at == Some(batch.now)
                && after.exit_probe_rtt_at == end_of_measurement(s, batch)
            &&& !starts_to_measure(s, batch) ==> after.probe_rtt_last_started_at
                == s.probe_rtt_last_started_at
            &&& s.mode != Mode::ProbeRtt && after.mode == Mode::ProbeRtt ==> starts_to_measure(
                s,
                batch,
            )
            &&& s.mode != Mode::ProbeRtt && !starts_to_measure(s, batch)
                ==> after.exit_probe_rtt_at == s.exit_probe_rtt_at
            &&& s.mode == Mode::ProbeRtt && s.exit_probe_rtt_at is None ==> after.mode
                == Mode::ProbeRtt && after.exit_probe_rtt_at == end_of_measurement(s, batch)
            &&& s.mode == Mode::ProbeRtt && s.exit_probe_rtt_at is Some && !over ==> after.mode
                == Mode::ProbeRtt && after.exit_probe_rtt_at == s.exit_probe_rtt_at
            &&& s.mode == Mode::ProbeRtt && over && after.is_at_full_bandwidth
                ==> starts_to_cruise(s, after, batch.now, choice)
            &&& s.mode == Mode::ProbeRtt && over && !after.is_at_full_bandwidth
                && s.config.fixed_pacing_bps is None ==> after.mode == Mode::Startup
                && after.pacing_gain == Gain::High && after.cwnd_gain == Gain::High
            &&& s.mode == Mode::ProbeRtt && over && !after.is_at_full_bandwidth
                && s.config.fixed_pacing_bps is Some ==> after.mode == Mode::ProbeBw
                && after.pacing_gain == Gain::Unit && after.cwnd_gain == Gain::Unit
        }),
{
    lemma_later_steps_keep(s, batch, choice);
    let grown = s.growth_updated(batch);
    let exited = grown.startup_or_drain_exited(
        batch.now,
        batch.in_flight,
        batch.bandwidth,
        choice,
    );
    assert(exited.target_cwnd(Gain::Down, batch.bandwidth) == s.target_cwnd(
        Gain::Down,
        batch.bandwidth,
    ));
}

/// The startup lasts until the bandwidth is known. Its queue is then drained until no more is in
/// flight than the path holds, and cruising follows, which lasts until the round-trip time is to
/// be measured.
pub proof fn law_startup_drain_and_cruising(s: BbrState, batch: AckBatch, choice: u8)
    requires
        choice < crate::bbr::state::PHASE_CHOICES,
        !starts_to_measure(s, batch),
    ensures
        ({
            let after = s.acks_ended(batch, choice);
            let drained = batch.in_flight <= s.target_cwnd(Gain::Unit, batch.bandwidth);
            let ends = s.mode == Mode::Startup && after.is_at_full_bandwidth;
            &&& s.mode == Mode::Startup && !after.is_at_full_bandwidth ==> after.mode
                == Mode::Startup && after.cwnd_gain == s.cwnd_gain
            &&& (ends || s.mode == Mode::Drain) && drained ==> starts_to_cruise(
                s,
                after,
                batch.now,
                choice,
            )
            &&& (ends || s.mode == Mode::Drain) && !drained ==> after.mode == Mode::Drain
            &&& ends && !drained ==> after.cwnd_gain == Gain::High && (
            s.config.fixed_pacing_bps is None ==> after.pacing_gain == Gain::Drain)
            &&& s.mode == Mode::Drain && !drained ==> after.cwnd_gain == s.cwnd_gain && (
            s.config.fixed_pacing_bps is None ==> after.pacing_gain == s.pacing_gain)
            &&& s.mode == Mode::ProbeBw ==> after.mode == Mode::ProbeBw && after.cwnd_gain
                == s.cwnd_gain
            &&& s.mode == Mode::Startup && !ends && s.config.fixed_pacing_bps is None
                ==> after.pacing_gain == s.pacing_gain
            &&& s.config.fixed_pacing_bps is Some ==> after.pacing_gain == Gain::Unit
        }),
{
    lemma_later_steps_keep(s, batch, choice);
    let grown = s.growth_updated(batch);
    assert(grown.target_cwnd(Gain::Unit, batch.bandwidth) == s.target_cwnd(
        Gain::Unit,
        batch.bandwidth,
    ));
}

/// A phase is drawn where the queue of the startup is drained, and where a measurement of the
/// round-trip time is over at full bandwidth, and nowhere else.
pub proof fn law_when_a_phase_is_drawn(s: BbrState, batch: AckBatch, choice: u8)
    ensures
        ({
            let full = s.acks_ended(batch, choice).is_at_full_bandwidth;
            let drains = s.mode == Mode::Drain || (s.mode == Mode::Startup && full);
            let over = s.mode == Mode::ProbeRtt && new_round(s, batch)
                && s.exit_probe_rtt_at is Some && batch.now.at() >= s.exit_probe_rtt_at->0.at();
            s.cruising_starts(batch) <==> (drains && batch.in_flight <= s.target_cwnd(
                Gain::Unit,
                batch.bandwidth,
            )) || (over && full)
        }),
{
    lemma_later_steps_keep(s, batch, choice);
    let left = s.growth_updated(batch).startup_left();
    assert(left.target_cwnd(Gain::Unit, batch.bandwidth) == s.target_cwnd(
        Gain::Unit,
        batch.bandwidth,
    ));
}

/// While cruising, a phase of the gain cycle lasts for a round-trip time. One with an increased
/// gain lasts until that much is in flight, unless something was lost; one with a decreased gain
/// ends early once no more is in flight than the path holds, and gives its gain on until then.
/// The phases follow each other in a circle of eight: up, down, then six times one.
pub proof fn law_gain_cycle(s: BbrState, batch: AckBatch, choice: u8)
    requires
        s.current_cycle_offset < 8,
        s.mode == Mode::ProbeBw,
        s.config.fixed_pacing_bps is None,
        !starts_to_measure(s, batch),
    ensures
        ({
            let after = s.acks_ended(batch, choice);
            let path = s.target_cwnd(Gain::Unit, batch.bandwidth);
            let up = s.pacing_gain == Gain::Up || s.pacing_gain == Gain::High || s.pacing_gain
                == Gain::Double;
            let down = s.pacing_gain == Gain::Down || s.pacing_gain == Gain::Drain;
            let passed = s.last_cycle_start is Some && batch.now.at()
                > s.last_cycle_start->0.at() + s.min_rtt.total();
            let short = up && s.loss_state.lost_bytes == 0 && s.prev_in_flight_count
                < s.target_cwnd(s.pacing_gain, batch.bandwidth);
            let next = if s.current_cycle_offset == 7 {
                0
            } else {
                s.current_cycle_offset + 1
            };
            if (down && batch.in_flight <= path) || (passed && !short) {
                &&& after.current_cycle_offset == next
                &&& after.last_cycle_start == Some(batch.now)
                &&& next == 0 ==> after.pacing_gain == Gain::Up
                &&& next == 1 ==> after.pacing_gain == Gain::Down
                &&& next > 1 && down && batch.in_flight > path ==> after.pacing_gain
                    == s.pacing_gain
                &&& next > 1 && !(down && batch.in_flight > path) ==> after.pacing_gain
                    == Gain::Unit
            } else {
                &&& after.current_cycle_offset == s.current_cycle_offset
                &&& after.last_cycle_start == s.last_cycle_start
                &&& after.pacing_gain == s.pacing_gain
            }
        }),
{
    lemma_later_steps_keep(s, batch, choice);
    let early = s.round_updated(batch).recovery_updated(s.round_begins(batch));
    assert(early.target_cwnd(Gain::Unit, batch.bandwidth) == s.target_cwnd(
        Gain::Unit,
        batch.bandwidth,
    ));
    assert(early.target_cwnd(s.pacing_gain, batch.bandwidth) == s.target_cwnd(
        s.pacing_gain,
        batch.bandwidth,
    ));
}

/// With fixed pacing the phase of the cycle does not move.
pub proof fn law_fixed_pacing_stops_the_cycle(s: BbrState, batch: AckBatch, choice: u8)
    requires
        s.mode == Mode::ProbeBw,
        s.config.fixed_pacing_bps is Some,
    ensures
        s.acks_ended(batch, choice).current_cycle_offset == s.current_cycle_offset,
        s.acks_ended(batch, choice).last_cycle_start == s.last_cycle_start,
{
    lemma_later_steps_keep(s, batch, choice);
}

/// The state that a batch leads to, with the losses, the rate and the windows of before.
pub open spec fn with_old_limits(s: BbrState, after: BbrState) -> BbrState {
    BbrState {
        loss_state: s.loss_state,
        pacing_rate: s.pacing_rate,
        cwnd: s.cwnd,
        recovery_window: s.recovery_window,
        prev_in_flight_count: s.prev_in_flight_count,
        ..after
    }
}

/// Pacing rate and congestion window after a batch are those that follow from the mode and the
/// gains that the batch leads to, and from all bytes that it covers.
pub proof fn law_batch_sets_rate_and_window(s: BbrState, batch: AckBatch, choice: u8)
    ensures
        ({
            let after = s.acks_ended(batch, choice);
            let model = with_old_limits(s, after);
            &&& after.pacing_rate == model.paced(batch.bandwidth, batch.initial_rate).pacing_rate
            &&& after.cwnd == model.cwnd_updated(
                s.newly_acked,
                s.excess_acked,
                batch.max_ack_height,
                batch.bandwidth,
            ).cwnd
        }),
{
    lemma_later_steps_keep(s, batch, choice);
    let after = s.acks_ended(batch, choice);
    let model = with_old_limits(s, after);
    let settled = s.mode_updated(batch, choice);
    let paced = settled.paced(batch.bandwidth, batch.initial_rate);
    assert(settled.config == s.config);
    if settled.has_pacing_floor() {
        assert(settled.window_view(batch.bandwidth) == model.window_view(batch.bandwidth)) by {
            assert(settled.target_cwnd(Gain::Down, batch.bandwidth) == model.target_cwnd(
                Gain::Down,
                batch.bandwidth,
            ));
        }
    }
    if settled.config.fixed_pacing_bps is None {
        assert(settled.target_rate(batch.bandwidth) == model.target_rate(batch.bandwidth));
    }
    assert(after.cwnd == paced.cwnd_updated(
        s.newly_acked,
        s.excess_acked,
        batch.max_ack_height,
        batch.bandwidth,
    ).cwnd);
    assert(paced.target_cwnd(paced.cwnd_gain, batch.bandwidth) == model.target_cwnd(
        model.cwnd_gain,
        batch.bandwidth,
    ));
    if s.config.fixed_pacing_bps is Some {
        let bps = s.config.fixed_pacing_bps->0;
        assert(paced.fixed_cwnd(bps) == model.fixed_cwnd(bps));
    }
}

/// Bytes that arrive ahead of the bandwidth: those of the epoch, less what the bandwidth explains
/// since it began. The epoch ends once it explains all of them.
pub proof fn law_bursts(s: AckAggregationState, bytes: u64, now: Instant, bandwidth: u64)
    requires
        s.fits(bytes, now, bandwidth),
        now.at() / 1000 <= u64::MAX,
    ensures
        ({
            let after = s.updated(bytes, now, bandwidth);
            let excess = s.excess(bytes, now, bandwidth);
            let micros = if s.aggregation_epoch_start_time is Some && now.at()
                >= s.aggregation_epoch_start_time->0.at() {
                (now.at() - s.aggregation_epoch_start_time->0.at()) / 1000
            } else {
                0
            };
            let before = s.aggregation_epoch_bytes;
            if before * 1_000_000 <= bandwidth * micros {
                &&& excess == 0
                &&& after.aggregation_epoch_start_time == Some(now)
                &&& after.aggregation_epoch_bytes == bytes
            } else {
                &&& excess > 0
                &&& excess * 1_000_000 >= (before + bytes) * 1_000_000 - bandwidth * micros
                &&& excess * 1_000_000 < (before + bytes) * 1_000_000 - bandwidth * micros
                    + 1_000_000
                &&& after.aggregation_epoch_start_time == s.aggregation_epoch_start_time
                &&& after.aggregation_epoch_bytes == before + bytes
            }
        }),
{
    let micros = s.epoch_micros(now);
    match s.aggregation_epoch_start_time {
        Some(start) => {
            let span = now.span_since(start);
            lemma_div_is_ordered(span as int, now.at() as int, 1000);
            lemma_small_mod(span / 1000, 0x1_0000_0000_0000_0000);
        },
        None => {},
    }
    let product = bandwidth as nat * micros;
    lemma_fundamental_div_mod(product as int, 1_000_000);
    let expected = product / 1_000_000;
    assert(product == bandwidth * micros);
}

/// The bytes of a batch, and the burst that they belong to, are taken as they are.
pub proof fn law_bytes_are_taken(s: BbrState, bytes: u64, now: Instant, bandwidth: u64)
    ensures
        s.bytes_taken(bytes, now, bandwidth) == (BbrState {
            newly_acked: bytes,
            excess_acked: s.ack_aggregation.excess(bytes, now, bandwidth),
            ack_aggregation: s.ack_aggregation.updated(bytes, now, bandwidth),
            ..s
        }),
{
}

} // verus!
