//! What holds of admission by deadlines.

use crate::bbr::admission::{DeadlineState, QueueView};
use crate::bbr::state::BbrState;
use crate::float64::Value;
use crate::time::{Duration, Instant};
use vstd::arithmetic::div_mod::*;
use vstd::arithmetic::mul::*;
use vstd::arithmetic::power2::*;
use vstd::prelude::*;

verus! {

impl QueueView {
    /// The queue is no shorter than empty.
    pub open spec fn is_valid(self) -> bool {
        crate::float_order::is_plain(self.q_pkts)
    }
}

/// A new queue is well formed.
pub proof fn law_empty_queue_is_valid()
    ensures
        (QueueView { q_pkts: Value::of_integer(0), last: None }).is_valid(),
{
    crate::float_order::lemma_integer_ordered(0, 0);
}

/// Neither draining nor filling makes the queue shorter than empty.
pub proof fn law_queue_stays_valid(queue: QueueView, now: Instant, pps: Value, packets: nat)
    requires
        queue.is_valid(),
    ensures
        queue.decayed(now, pps).is_valid(),
        queue.filled(now, packets).is_valid(),
{
    crate::float64::lemma_integer_exact(0);
    crate::float_order::lemma_integer_ordered(0, packets);
    crate::float_order::lemma_plus_ordered(
        queue.q_pkts,
        Value::of_integer(packets),
        queue.q_pkts,
        Value::of_integer(packets),
    );
    let drain = pps.times(queue.drained_for(now));
    let rest = queue.q_pkts.minus(drain);
    if let (Value::Finite { .. }, Value::Finite { .. }) = (queue.q_pkts, drain) {
        let sum = queue.q_pkts.rank() + drain.negated().rank();
        if sum < 0 {
            crate::float_order::lemma_round_positive((-sum) as nat);
            lemma_pow2_pos(2098);
        }
    }
}

/// An object that joins the queue does not make it shorter.
pub proof fn law_filling_adds(queue: DeadlineState, now: Instant, packets: nat)
    requires
        queue@.is_valid(),
    ensures
        queue@.q_pkts.le(queue@.filled(now, packets).q_pkts),
{
    crate::float_order::lemma_integer_ordered(0, packets);
    let n = Value::of_integer(packets);
    if let (Value::Finite { units: q, .. }, Value::Finite { units: m, .. }) = (queue@.q_pkts, n) {
        crate::float_order::lemma_pattern_exact(queue.q_pkts);
        crate::rounding::lemma_round_ordered(q, 1, q + m, 1);
        crate::float_order::lemma_limited_ordered(
            q,
            crate::rounding::round_units(q + m, 1),
        );
    }
}

/// No nanoseconds are no seconds.
pub proof fn lemma_no_seconds()
    ensures
        crate::time::seconds_of(0) is Finite,
        crate::time::seconds_of(0).rank() == 0,
        !crate::time::seconds_of(0).is_negative(),
{
    let second = crate::time::NANOS_PER_SEC as nat;
    crate::float64::lemma_integer_exact(0);
    crate::float64::lemma_integer_exact(second);
    lemma_pow2_pos(1074);
    lemma_mul_basics(pow2(1074) as int);
    lemma_mul_strictly_positive(second as int, pow2(1074) as int);
    lemma_div_of0(second as int);
    lemma_small_mod(0, second);
    crate::float64::lemma_round_zero(second * pow2(1074));
    lemma_pow2_pos(2098);
}

/// Where no time has passed, nothing has drained.
pub proof fn law_no_time_no_draining(queue: QueueView, now: Instant, pps: Value)
    requires
        queue.last is None || queue.last == Some(now),
    ensures
        queue.decayed(now, pps) == queue,
{
    lemma_no_seconds();
    crate::float64::lemma_integer_exact(0);
    lemma_mul_basics(pow2(1074) as int);
    assert(queue.drained_for(now).rank() == 0);
}

proof fn lemma_packets_ordered(smaller: u64, larger: u64, mss: u32)
    requires
        mss > 0,
        smaller <= larger,
    ensures
        crate::bbr::admission::packets_of(smaller, mss) <= crate::bbr::admission::packets_of(
            larger,
            mss,
        ),
{
    lemma_div_is_ordered(smaller + mss - 1, larger + mss - 1, mss as int);
}

/// A smaller object behind a shorter queue arrives no later.
pub proof fn law_less_ahead_arrives_earlier(
    s: BbrState,
    shorter: QueueView,
    longer: QueueView,
    smaller: u64,
    larger: u64,
    now: Instant,
    rtt_hint: Duration,
    bandwidth: u64,
)
    requires
        s.config.deadline is Some,
        s.config.deadline->0.default_mss > 0,
        shorter.is_valid(),
        longer.is_valid(),
        shorter.q_pkts.le(longer.q_pkts),
        smaller <= larger,
        s.arrival(longer, larger, now, rtt_hint, bandwidth) is Some,
    ensures
        s.arrival(shorter, smaller, now, rtt_hint, bandwidth) is Some,
        s.arrival(shorter, smaller, now, rtt_hint, bandwidth)->0 <= s.arrival(
            longer,
            larger,
            now,
            rtt_hint,
            bandwidth,
        )->0,
{
    let mss = s.config.deadline->0.default_mss;
    let few = crate::bbr::admission::packets_of(smaller, mss);
    let many = crate::bbr::admission::packets_of(larger, mss);
    lemma_packets_ordered(smaller, larger, mss);
    crate::float_order::lemma_integer_ordered(few, many);
    crate::float_order::lemma_plus_ordered(
        shorter.q_pkts,
        Value::of_integer(few),
        longer.q_pkts,
        Value::of_integer(many),
    );
    crate::float_order::lemma_over_ordered(
        shorter.q_pkts.plus(Value::of_integer(few)),
        longer.q_pkts.plus(Value::of_integer(many)),
        s.packet_rate(rtt_hint, bandwidth),
    );
}

/// What is admitted would also be admitted with a later deadline, as a smaller object, and behind
/// a shorter queue.
pub proof fn law_easier_objects_are_admitted_too(
    s: BbrState,
    shorter: QueueView,
    longer: QueueView,
    smaller: u64,
    larger: u64,
    earlier: Instant,
    later: Instant,
    now: Instant,
    rtt_hint: Duration,
    bandwidth: u64,
)
    requires
        s.config.deadline is Some,
        s.config.deadline->0.default_mss > 0,
        shorter.is_valid(),
        longer.is_valid(),
        shorter.q_pkts.le(longer.q_pkts),
        smaller <= larger,
        earlier.at() <= later.at(),
        s.arrives_in_time(longer, larger, earlier, now, rtt_hint, bandwidth),
    ensures
        s.arrives_in_time(shorter, smaller, later, now, rtt_hint, bandwidth),
{
    law_less_ahead_arrives_earlier(
        s,
        shorter,
        longer,
        smaller,
        larger,
        now,
        rtt_hint,
        bandwidth,
    );
}

/// No object arrives before half a round trip and the guard time have passed.
pub proof fn law_arrival_keeps_the_guard(
    s: BbrState,
    queue: QueueView,
    object_size: u64,
    now: Instant,
    rtt_hint: Duration,
    bandwidth: u64,
)
    requires
        s.config.deadline is Some,
        s.arrival(queue, object_size, now, rtt_hint, bandwidth) is Some,
    ensures
        s.arrival(queue, object_size, now, rtt_hint, bandwidth)->0 >= now.at() + s.admission_rtt(
            rtt_hint,
        ) / 2 + s.config.deadline->0.guard_ms * 1_000_000,
{
}

} // verus!
