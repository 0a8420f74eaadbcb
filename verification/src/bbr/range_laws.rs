//! Which numbers stay in range.

use crate::bbr::batch::AckBatch;
use crate::bbr::gain::Gain;
use crate::bbr::state::{AckAggregationState, BbrState, PHASE_CHOICES};
use crate::float_error::PARTS;
use crate::time::{Duration, Instant};
use vstd::arithmetic::div_mod::*;
use vstd::prelude::*;

verus! {

/// Two to the power 60.
pub const AMPLE: u64 = 0x1000_0000_0000_0000;

/// Windows and counts of bytes lie far below what 64 bits hold, and so do the numbers of rounds.
pub open spec fn is_ordinary(s: BbrState) -> bool {
    &&& s.cwnd <= AMPLE
    &&& s.init_cwnd <= AMPLE
    &&& s.min_cwnd <= AMPLE
    &&& s.current_mtu <= AMPLE
    &&& s.recovery_window <= AMPLE
    &&& s.newly_acked <= AMPLE
    &&& s.excess_acked <= AMPLE
    &&& s.min_rtt.total() / 1000 <= u64::MAX
    &&& s.round_count < AMPLE
    &&& s.round_wo_bw_gain < AMPLE
}

/// What a batch brings lies far below what 64 bits hold, the product of bandwidth and delay
/// included, and time has not almost ended.
pub open spec fn is_ordinary_batch(s: BbrState, batch: AckBatch) -> bool {
    &&& batch.in_flight <= AMPLE
    &&& batch.max_ack_height <= AMPLE
    &&& s.min_rtt.total() / 1000 * batch.bandwidth as nat <= AMPLE
    &&& batch.now.at() + 200_000_000 <= crate::time::MAX_NANOS
}

proof fn lemma_target_small(s: BbrState, gain: Gain, bandwidth: u64)
    requires
        s.init_cwnd <= AMPLE,
        s.min_cwnd <= AMPLE,
        s.min_rtt.total() / 1000 <= u64::MAX,
        s.min_rtt.total() / 1000 * bandwidth as nat <= AMPLE,
    ensures
        s.target_cwnd(gain, bandwidth) <= AMPLE,
        s.bdp_fits(bandwidth),
{
    let bdp = s.min_rtt.total() / 1000 * bandwidth as nat;
    let (gn, gd) = crate::bbr::rate_laws::gain_parts(gain);
    let num = gn * bdp;
    let den = gd * 1_000_000;
    let window = s.target_cwnd(gain, bandwidth) as nat;
    lemma_small_mod(s.min_rtt.total() / 1000, 0x1_0000_0000_0000_0000);
    crate::bbr::rate_laws::law_target_follows_the_product(s, gain, bandwidth);
    if PARTS * (window * den) <= (PARTS + 11) * num {
        assert(window <= bdp) by (nonlinear_arith)
            requires
                PARTS * (window * den) <= (PARTS + 11) * num,
                num == gn * bdp,
                den == gd * 1_000_000,
                gn <= 3 * gd,
                gd > 0,
                PARTS == 0x4_0000_0000_0000,
        ;
    }
}

/// A batch of ordinary numbers can always be taken, whatever mode the controller is in and
/// whatever phase comes up.
pub proof fn law_ordinary_batches_fit(s: BbrState, batch: AckBatch)
    requires
        is_ordinary(s),
        is_ordinary_batch(s, batch),
    ensures
        s.acks_fit(batch),
{
    let bw = batch.bandwidth;
    assert forall|t: BbrState, gain: Gain|
        t.init_cwnd == s.init_cwnd && t.min_cwnd == s.min_cwnd && t.min_rtt
            == s.min_rtt implies #[trigger] t.target_cwnd(gain, bw) <= AMPLE && t.bdp_fits(bw) by {
        lemma_target_small(t, gain, bw);
    }
    let grown = s.growth_updated(batch);
    assert(grown.target_cwnd(Gain::Unit, bw) <= AMPLE);
    assert(s.round_updated(batch).recovery_updated(s.round_begins(batch)).target_cwnd(
        Gain::Unit,
        bw,
    ) <= AMPLE);
    assert forall|choice: u8| choice < PHASE_CHOICES implies #[trigger] grown.mode_fits(
        batch,
        choice,
    ) by {
        let exited = grown.startup_or_drain_exited(batch.now, batch.in_flight, bw, choice);
        assert(exited.target_cwnd(Gain::Down, bw) <= AMPLE);
    }
    assert forall|choice: u8| choice < PHASE_CHOICES implies (#[trigger] s.mode_updated(
        batch,
        choice,
    )).limits_fit(batch) by {
        lemma_limits_fit(s, batch, choice);
    }
}

/// Rate and windows of ordinary numbers stay in range.
proof fn lemma_limits_fit(s: BbrState, batch: AckBatch, choice: u8)
    requires
        is_ordinary(s),
        is_ordinary_batch(s, batch),
    ensures
        s.mode_updated(batch, choice).limits_fit(batch),
{
    let bw = batch.bandwidth;
    let settled = s.mode_updated(batch, choice);
    crate::bbr::mode_laws::lemma_later_steps_keep(s, batch, choice);
    let paced = settled.paced(bw, batch.initial_rate);
    lemma_target_small(settled, Gain::Down, bw);
    lemma_target_small(paced, paced.cwnd_gain, bw);
    assert(settled.recovery_window <= AMPLE);
    assert(settled.cwnd == s.cwnd);
}

/// Acknowledged bytes of ordinary numbers can always be taken note of.
pub proof fn law_ordinary_bytes_fit(
    a: AckAggregationState,
    bytes: u64,
    now: Instant,
    bandwidth: u64,
)
    requires
        bytes <= AMPLE,
        a.aggregation_epoch_bytes <= AMPLE,
        now.at() / 1000 <= u64::MAX,
        bandwidth as nat * (now.at() / 1000) <= u64::MAX,
    ensures
        a.fits(bytes, now, bandwidth),
{
    if let Some(start) = a.aggregation_epoch_start_time {
        let span = now.span_since(start);
        lemma_div_is_ordered(span as int, now.at() as int, 1000);
        lemma_small_mod(span / 1000, 0x1_0000_0000_0000_0000);
        assert(bandwidth as nat * (span / 1000) <= bandwidth as nat * (now.at() / 1000))
            by (nonlinear_arith)
            requires
                span / 1000 <= now.at() / 1000,
        ;
    }
}

/// Priorities can be reckoned for ordinary objects.
pub proof fn law_ordinary_objects_fit(s: BbrState, object_size: u64, now: Instant, rtt: Duration)
    requires
        s.config.deadline is Some ==> s.config.deadline->0.default_mss > 0,
        object_size <= AMPLE,
        s.cwnd <= AMPLE,
        now.at() + rtt.total() <= crate::time::MAX_NANOS,
    ensures
        s.slack_fits(object_size, now, rtt),
{
}

} // verus!
