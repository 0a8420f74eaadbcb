//! What holds of the congestion controller over a batch of acknowledgements and over several.

use crate::bbr::batch::AckBatch;
use crate::bbr::gain::{Gain, CYCLE_LEN};
use crate::bbr::state::{BbrState, Mode, PHASE_CHOICES, ROUND_TRIPS_WITHOUT_GROWTH};
use crate::float64::Value;
use crate::time::Instant;
use vstd::arithmetic::div_mod::*;
use vstd::arithmetic::mul::*;
use vstd::arithmetic::power2::*;
use vstd::prelude::*;

verus! {

/// A batch of acknowledgements keeps the state well formed, and leaves configuration and packet
/// size as they are.
pub proof fn law_acks_keep_validity(s: BbrState, batch: AckBatch, choice: u8)
    requires
        s.valid(),
        choice < PHASE_CHOICES,
    ensures
        s.acks_ended(batch, choice).valid(),
        s.acks_ended(batch, choice).config == s.config,
        s.acks_ended(batch, choice).current_mtu == s.current_mtu,
        s.acks_ended(batch, choice).min_cwnd == s.min_cwnd,
        s.acks_ended(batch, choice).init_cwnd == s.init_cwnd,
        s.acks_ended(batch, choice).min_rtt == s.min_rtt,
{
    let grown = s.growth_updated(batch);
    assert(grown.valid() && grown.config == s.config && grown.current_mtu == s.current_mtu
        && grown.init_cwnd == s.init_cwnd && grown.min_rtt == s.min_rtt);
    let settled = s.mode_updated(batch, choice);
    assert(settled.valid() && settled.config == s.config && settled.current_mtu == s.current_mtu
        && settled.init_cwnd == s.init_cwnd && settled.min_rtt == s.min_rtt);
    let limited = settled.limits_updated(batch);
    assert(limited.valid() && limited.config == s.config && limited.current_mtu == s.current_mtu
        && limited.init_cwnd == s.init_cwnd && limited.min_rtt == s.min_rtt);
}

/// Before there is an estimate of bandwidth or delay, the target is the initial window, whatever
/// the gain.
pub proof fn law_no_estimate_means_initial_window(s: BbrState, gain: Gain, bandwidth: u64)
    requires
        bandwidth == 0 || s.min_rtt.micros() == 0,
    ensures
        s.target_cwnd(gain, bandwidth) == s.init_cwnd,
{
    let factor = gain.value();
    let million = Value::of_integer(1_000_000);
    assert(s.bdp(bandwidth) == 0) by (nonlinear_arith)
        requires
            bandwidth == 0 || s.min_rtt.micros() == 0,
            s.bdp(bandwidth) == s.min_rtt.micros() * bandwidth as nat,
    ;
    crate::float_order::lemma_ratio_ordered(gain.fraction().0, gain.fraction().1, 3, 1);
    crate::float64::lemma_integer_exact(3);
    crate::float64::lemma_integer_exact(0);
    crate::float64::lemma_integer_exact(1_000_000);
    lemma_pow2_pos(1074);
    lemma_pow2_pos(2098);
    lemma_pow2_strictly_increases(2 + 1074, 2098);
    lemma_pow2_adds(2, 1074);
    lemma2_to64();
    assert(factor is Finite);
    lemma_mul_basics(factor->units as int);
    lemma_mul_basics(pow2(1074) as int);
    crate::float64::lemma_round_zero(pow2(1074));
    crate::float64::lemma_round_zero(million->units);
    lemma_div_of0(pow2(1074) as int);
}

/// A target is never smaller than four packets, unless it is the initial window.
pub proof fn law_target_holds_four_packets(s: BbrState, gain: Gain, bandwidth: u64)
    requires
        s.valid(),
    ensures
        s.target_cwnd(gain, bandwidth) >= 4 * s.current_mtu || s.target_cwnd(gain, bandwidth)
            == s.init_cwnd,
{
}

/// Losses count once: after a batch of acknowledgements none are left to account for.
pub proof fn law_acks_clear_losses(s: BbrState, batch: AckBatch, choice: u8)
    ensures
        !s.acks_ended(batch, choice).has_losses(),
        s.acks_ended(batch, choice).prev_in_flight_count == batch.in_flight,
{
}

/// The startup is entered only out of the startup itself or out of a measurement of the
/// round-trip time, and the drain only out of the startup or the drain. Cruising is left only to
/// measure the round-trip time.
pub proof fn law_mode_changes(s: BbrState, batch: AckBatch, choice: u8)
    ensures
        s.acks_ended(batch, choice).mode == Mode::Startup ==> s.mode == Mode::Startup || s.mode
            == Mode::ProbeRtt,
        s.acks_ended(batch, choice).mode == Mode::Drain ==> s.mode == Mode::Startup || s.mode
            == Mode::Drain,
        s.mode == Mode::ProbeBw ==> s.acks_ended(batch, choice).mode == Mode::ProbeBw
            || s.acks_ended(batch, choice).mode == Mode::ProbeRtt,
{
    lemma_limits_keep_mode(s.mode_updated(batch, choice), batch);
    assert(s.growth_updated(batch).mode == s.mode);
}

/// Once the bandwidth is known it stays known.
pub proof fn law_full_bandwidth_stays(s: BbrState, batch: AckBatch, choice: u8)
    requires
        s.is_at_full_bandwidth,
    ensures
        s.acks_ended(batch, choice).is_at_full_bandwidth,
{
    lemma_limits_keep_mode(s.mode_updated(batch, choice), batch);
    assert(s.growth_updated(batch).is_at_full_bandwidth);
}

/// Three rounds in a row whose bandwidth did not grow end the startup, and so does one in
/// recovery.
pub proof fn law_flat_rounds_end_the_startup(s: BbrState, first: u64, second: u64, third: u64)
    requires
        !s.has_grown(first),
        !s.has_grown(second),
        !s.has_grown(third),
        s.round_wo_bw_gain <= u64::MAX - ROUND_TRIPS_WITHOUT_GROWTH,
    ensures
        s.growth_checked(false, first).growth_checked(false, second).growth_checked(
            false,
            third,
        ).is_at_full_bandwidth,
        s.in_recovery() ==> s.growth_checked(false, first).is_at_full_bandwidth,
{
    let s1 = s.growth_checked(false, first);
    assert(s1.growth_target() == s.growth_target());
    let s2 = s1.growth_checked(false, second);
    assert(s2.growth_target() == s.growth_target());
}

proof fn lemma_limits_keep_mode(s: BbrState, batch: AckBatch)
    ensures
        s.limits_updated(batch).mode == s.mode,
        s.limits_updated(batch).recovery_state == s.recovery_state,
        s.limits_updated(batch).is_at_full_bandwidth == s.is_at_full_bandwidth,
{
}

/// Outside a measurement of the round-trip time the congestion window holds at least four
/// packets after a batch of acknowledgements.
pub proof fn law_window_holds_four_packets(s: BbrState, batch: AckBatch, choice: u8)
    requires
        s.valid(),
        choice < PHASE_CHOICES,
        s.acks_ended(batch, choice).mode != Mode::ProbeRtt,
    ensures
        s.acks_ended(batch, choice).cwnd >= 4 * s.current_mtu,
{
    law_acks_keep_validity(s, batch, choice);
    let settled = s.mode_updated(batch, choice);
    lemma_limits_keep_mode(settled, batch);
    let paced = settled.paced(batch.bandwidth, batch.initial_rate);
    assert(paced.mode != Mode::ProbeRtt);
}

/// In recovery the recovery window lets at least as much be sent as was acknowledged, and at
/// least four packets.
pub proof fn law_recovery_window_is_large_enough(s: BbrState, batch: AckBatch, choice: u8)
    requires
        s.valid(),
        choice < PHASE_CHOICES,
        s.acks_fit(batch),
        s.acks_ended(batch, choice).in_recovery(),
    ensures
        s.acks_ended(batch, choice).recovery_window >= batch.in_flight + s.newly_acked,
        s.acks_ended(batch, choice).recovery_window >= 4 * s.current_mtu,
{
    law_acks_keep_validity(s, batch, choice);
    let settled = s.mode_updated(batch, choice);
    assert(settled.limits_fit(batch));
    lemma_limits_keep_mode(settled, batch);
}

/// The window in force after a batch of acknowledgements is never smaller than four packets, or
/// than the initial window where that is less.
pub proof fn law_window_in_force_is_large_enough(
    s: BbrState,
    batch: AckBatch,
    choice: u8,
    bandwidth: u64,
)
    requires
        s.valid(),
        choice < PHASE_CHOICES,
        s.acks_fit(batch),
    ensures
        s.acks_ended(batch, choice).window_view(bandwidth) >= 4 * s.current_mtu
            || s.acks_ended(batch, choice).window_view(bandwidth) == s.init_cwnd,
{
    let after = s.acks_ended(batch, choice);
    law_acks_keep_validity(s, batch, choice);
    if after.mode != Mode::ProbeRtt {
        law_window_holds_four_packets(s, batch, choice);
        if after.in_recovery() {
            law_recovery_window_is_large_enough(s, batch, choice);
        }
    }
}

/// Before the bandwidth is known, and unless the pacing is fixed, a batch of acknowledgements
/// makes neither the pacing rate nor the congestion window smaller.
pub proof fn law_startup_never_slows_down(s: BbrState, batch: AckBatch, choice: u8)
    requires
        s.acks_fit(batch),
        choice < PHASE_CHOICES,
        s.config.fixed_pacing_bps is None,
        !s.acks_ended(batch, choice).is_at_full_bandwidth,
    ensures
        s.acks_ended(batch, choice).pacing_rate >= s.pacing_rate,
        s.acks_ended(batch, choice).cwnd >= s.cwnd,
{
    let grown = s.growth_updated(batch);
    assert(grown.pacing_rate == s.pacing_rate && grown.cwnd == s.cwnd && grown.config == s.config);
    let settled = s.mode_updated(batch, choice);
    assert(settled.pacing_rate == s.pacing_rate && settled.cwnd == s.cwnd && settled.config
        == s.config);
    assert(settled.limits_fit(batch));
    lemma_limits_keep_mode(settled, batch);
}

/// With fixed pacing every batch of acknowledgements leaves the gain at one and the rate at the
/// configured one, without the bits that make no whole byte, but for at least one byte per
/// second.
pub proof fn law_fixed_pacing_holds(s: BbrState, batch: AckBatch, choice: u8)
    requires
        s.config.fixed_pacing_bps is Some,
    ensures
        s.acks_ended(batch, choice).pacing_gain == Gain::Unit,
        s.config.fixed_pacing_bps->0 >= 8 ==> s.acks_ended(batch, choice).pacing_rate * 8
            <= s.config.fixed_pacing_bps->0 < s.acks_ended(batch, choice).pacing_rate * 8 + 8,
        s.config.fixed_pacing_bps->0 < 8 ==> s.acks_ended(batch, choice).pacing_rate == 1,
{
    let settled = s.mode_updated(batch, choice);
    assert(s.growth_updated(batch).config == s.config);
    assert(settled.config == s.config);
}

/// A configured minimum is met, in bits per second, as far as the window allows, whatever the
/// rate was before and whether or not the bandwidth is known, unless losses or recovery stand
/// against it.
pub proof fn law_minimum_pacing_is_met(s: BbrState, bandwidth: u64, initial_rate: u64)
    requires
        s.config.fixed_pacing_bps is None,
        bandwidth != 0,
        s.has_pacing_floor(),
        s.config.min_pacing_bps <= s.window_rate(bandwidth),
    ensures
        s.paced(bandwidth, initial_rate).pacing_rate * 8 >= s.config.min_pacing_bps,
{
}

/// The same over a whole batch of acknowledgements: the minimum is met in the mode and with the
/// window that the batch leads to.
pub proof fn law_batch_meets_minimum_pacing(s: BbrState, batch: AckBatch, choice: u8)
    requires
        s.config.fixed_pacing_bps is None,
        batch.bandwidth != 0,
        s.mode_updated(batch, choice).has_pacing_floor(),
        s.config.min_pacing_bps <= s.mode_updated(batch, choice).window_rate(batch.bandwidth),
    ensures
        s.acks_ended(batch, choice).pacing_rate * 8 >= s.config.min_pacing_bps,
{
    let settled = s.mode_updated(batch, choice);
    assert(s.growth_updated(batch).config == s.config);
    assert(settled.config == s.config);
    law_minimum_pacing_is_met(settled, batch.bandwidth, batch.initial_rate);
}

/// Cruising never starts at the second phase.
pub proof fn law_cruising_skips_the_second_phase(s: BbrState, now: Instant, choice: u8)
    requires
        choice < PHASE_CHOICES,
    ensures
        s.in_probe_bandwidth(now, choice).current_cycle_offset < CYCLE_LEN,
        s.in_probe_bandwidth(now, choice).current_cycle_offset != 1,
        s.in_probe_bandwidth(now, choice).pacing_gain != Gain::Down,
{
}

/// Cruising may start at every other phase.
pub proof fn law_cruising_may_start_elsewhere(s: BbrState, now: Instant, phase: u8)
    requires
        phase < CYCLE_LEN,
        phase != 1,
    ensures
        exists|choice: u8|
            choice < PHASE_CHOICES && (#[trigger] s.in_probe_bandwidth(
                now,
                choice,
            )).current_cycle_offset == phase,
{
    let choice: u8 = if phase == 0 {
        0
    } else {
        (phase - 1) as u8
    };
    assert(s.in_probe_bandwidth(now, choice).current_cycle_offset == phase);
}

} // verus!
