//! What admission reckons with, in numbers.

use crate::bbr::admission::QueueView;
use crate::bbr::state::BbrState;
use crate::float64::Value;
use crate::float_error::PARTS;
use crate::time::{Duration, Instant};
use vstd::arithmetic::div_mod::*;
use vstd::arithmetic::mul::*;
use vstd::arithmetic::power2::*;
use vstd::prelude::*;

verus! {

/// An object takes the fewest packets that hold it, and at least one.
pub proof fn law_packets_hold_the_object(object_size: u64, mss: u32)
    requires
        mss > 0,
    ensures
        ({
            let packets = crate::bbr::admission::packets_of(object_size, mss);
            &&& packets >= 1
            &&& object_size <= packets * mss
            &&& packets > 1 ==> (packets - 1) * mss < object_size
        }),
{
    let m = mss as int;
    let top = object_size + m - 1;
    lemma_fundamental_div_mod(top, m);
    let count = top / m;
    lemma_div_pos_is_pos(top, m);
    assert(m * count == count * m) by (nonlinear_arith);
    assert((count - 1) * m == count * m - m) by (nonlinear_arith);
    if count < 1 {
        lemma_mul_basics(m);
        assert(object_size == 0);
    }
}

/// Packets can be counted.
pub proof fn lemma_packets_fit(object_size: u64, mss: u32)
    requires
        mss > 0,
    ensures
        crate::bbr::admission::packets_of(object_size, mss) <= u64::MAX,
{
    let packets = crate::bbr::admission::packets_of(object_size, mss);
    let m = mss as int;
    law_packets_hold_the_object(object_size, mss);
    if packets > 1 {
        assert(packets - 1 < object_size) by (nonlinear_arith)
            requires
                (packets - 1) * m < object_size,
                m >= 1,
                packets > 1,
        ;
    }
}

/// The round-trip time to reckon with is the measured one, or else the given one, but no less
/// than five milliseconds.
pub open spec fn reckoned_rtt(s: BbrState, rtt_hint: Duration) -> nat {
    let known = if s.min_rtt.total() > 0 {
        s.min_rtt.total()
    } else {
        rtt_hint.total()
    };
    if known >= 5_000_000 {
        known
    } else {
        5_000_000
    }
}

/// Eight times a positive integer.
proof fn lemma_eightfold(n: nat)
    requires
        0 < n <= u64::MAX,
    ensures
        ({
            let v = Value::of_integer(n).times(Value::of_integer(8));
            &&& v is Finite
            &&& !v.is_negative()
            &&& crate::float_error::near(v->units, 8 * n * pow2(1074), 3)
            &&& crate::float_error::sized(v->units, 69)
            &&& n < 0x4_0000_0000_0000 ==> v->units == 8 * n * pow2(1074)
        }),
{
    let one = pow2(1074);
    let eight = Value::of_integer(8);
    let i = Value::of_integer(n);
    let v = i.times(eight);
    lemma_pow2_pos(1074);
    lemma2_to64();
    lemma2_to64_rest();
    crate::float_error::lemma_integer_near(n);
    crate::float64::lemma_integer_exact(8);
    assert(crate::float_error::sized(eight->units, 3)) by (nonlinear_arith)
        requires
            eight->units == 8 * one,
            pow2(3) == 8,
            one > 0,
            one == pow2(1074),
    ;
    crate::float_error::lemma_times_near(i, eight, 65, 3);
    assert(i->units * (8 * one) == (8 * i->units) * one) by (nonlinear_arith);
    crate::float_error::lemma_near_unscaled(v->units, 8 * i->units, one, 1);
    crate::float_error::lemma_near_scaled(i->units, n * one, 8, 1);
    assert(i->units * 8 == 8 * i->units && (n * one) * 8 == 8 * n * one) by (nonlinear_arith);
    crate::float_error::lemma_near_chain(v->units, 8 * i->units, 8 * n * one, 1, 1);
    if n < 0x4_0000_0000_0000 {
        crate::float64::lemma_integer_exact(n);
        crate::float64::lemma_integer_exact(8 * n);
        assert((n * one) * (8 * one) == ((8 * n) * one) * one) by (nonlinear_arith);
        crate::rounding::lemma_round_scaled((8 * n) * one, 1, one);
    }
}

/// A window per round trip, in bits per second.
proof fn lemma_window_rate(cwnd: nat, nanos: nat)
    requires
        0 < cwnd <= u64::MAX,
        0 < nanos <= crate::time::MAX_NANOS,
    ensures
        ({
            let v = Value::of_integer(cwnd).times(Value::of_integer(8)).over(
                crate::time::seconds_of(nanos),
            );
            &&& v is Finite
            &&& !v.is_negative()
            &&& crate::float_error::near(v->units * nanos, 8_000_000_000 * cwnd * pow2(1074), 12)
            &&& crate::float_error::sized(v->units, 140)
        }),
{
    let one = pow2(1074);
    let billion: nat = 1_000_000_000;
    let a = Value::of_integer(cwnd).times(Value::of_integer(8));
    let secs = crate::time::seconds_of(nanos);
    let v = a.over(secs);
    lemma_pow2_pos(1074);
    lemma_eightfold(cwnd);
    crate::float_error::lemma_seconds_near(nanos);
    crate::float_error::lemma_over_near(a, secs, 69, 70);
    let (c, y) = (v->units, secs->units);
    let bits = 8 * cwnd * one;
    // Over the seconds.
    crate::float_error::lemma_near_scaled(c * y, a->units * one, billion, 1);
    crate::float_error::lemma_near_scaled(a->units, bits, one * billion, 3);
    assert((a->units * one) * billion == a->units * (one * billion)) by (nonlinear_arith);
    crate::float_error::lemma_near_chain(
        (c * y) * billion,
        a->units * (one * billion),
        bits * (one * billion),
        1,
        3,
    );
    // Seconds are nanoseconds.
    crate::float_error::lemma_near_swapped(y * billion, nanos * one, 5);
    crate::float_error::lemma_near_scaled(nanos * one, y * billion, c, 6);
    assert((y * billion) * c == (c * y) * billion) by (nonlinear_arith);
    crate::float_error::lemma_near_chain(
        (nanos * one) * c,
        (c * y) * billion,
        bits * (one * billion),
        6,
        5,
    );
    assert((nanos * one) * c == (c * nanos) * one) by (nonlinear_arith);
    assert(bits * (one * billion) == (bits * billion) * one) by (nonlinear_arith);
    crate::float_error::lemma_near_unscaled(c * nanos, bits * billion, one, 12);
    assert(bits * billion == 8_000_000_000 * cwnd * one) by (nonlinear_arith)
        requires
            bits == 8 * cwnd * one,
            billion == 1_000_000_000,
    ;
}

/// The capacity is the least of what the window carries per round trip, the estimated bandwidth
/// and the pacing rate, each where it is positive, in bits per second. There is none where all
/// three are zero.
pub proof fn law_capacity_is_the_least(s: BbrState, rtt_hint: Duration, bandwidth: u64)
    requires
        s.min_rtt.total() <= crate::time::MAX_NANOS,
        rtt_hint.total() <= crate::time::MAX_NANOS,
    ensures
        ({
            let capacity = s.capacity(rtt_hint, bandwidth);
            let nanos = reckoned_rtt(s, rtt_hint);
            let one = pow2(1074);
            if s.cwnd == 0 && bandwidth == 0 && s.pacing_rate == 0 {
                capacity is Infinite
            } else {
                &&& capacity is Finite
                &&& !capacity.is_negative()
                &&& capacity->units > 0
                &&& bandwidth > 0 ==> PARTS * capacity->units <= (PARTS + 3) * (8 * bandwidth
                    * one)
                &&& s.pacing_rate > 0 ==> PARTS * capacity->units <= (PARTS + 3) * (8
                    * s.pacing_rate * one)
                &&& s.cwnd > 0 ==> PARTS * (capacity->units * nanos) <= (PARTS + 12) * (
                8_000_000_000 * s.cwnd * one)
                &&& 0 < bandwidth < 0x4_0000_0000_0000 ==> capacity->units <= 8 * bandwidth * one
                &&& 0 < s.pacing_rate < 0x4_0000_0000_0000 ==> capacity->units <= 8
                    * s.pacing_rate * one
                &&& (bandwidth > 0 && crate::float_error::near(
                    capacity->units,
                    8 * bandwidth as nat * one,
                    3,
                )) || (s.pacing_rate > 0 && crate::float_error::near(
                    capacity->units,
                    8 * s.pacing_rate as nat * one,
                    3,
                )) || (s.cwnd > 0 && crate::float_error::near(
                    capacity->units * nanos,
                    8_000_000_000 * s.cwnd as nat * one,
                    12,
                ))
            }
        }),
{
    let nanos = reckoned_rtt(s, rtt_hint);
    assert(nanos == s.admission_rtt(rtt_hint));
    lemma_capacity_parts(s, rtt_hint, bandwidth);
    let eight = Value::of_integer(8);
    let by_window = Value::of_integer(s.cwnd as nat).times(eight).over(
        crate::time::seconds_of(nanos),
    );
    let by_bandwidth = Value::of_integer(bandwidth as nat).times(eight);
    let by_pacing = Value::of_integer(s.pacing_rate as nat).times(eight);
    let capacity = s.capacity(rtt_hint, bandwidth);
    if s.cwnd > 0 {
        lemma_window_rate(s.cwnd as nat, nanos);
        if capacity is Finite {
            lemma_mul_inequality(
                capacity->units as int,
                by_window->units as int,
                nanos as int,
            );
        }
    }
    if bandwidth > 0 {
        lemma_eightfold(bandwidth as nat);
    }
    if s.pacing_rate > 0 {
        lemma_eightfold(s.pacing_rate as nat);
    }
}

/// Which parts count.
proof fn lemma_capacity_parts(s: BbrState, rtt_hint: Duration, bandwidth: u64)
    requires
        s.min_rtt.total() <= crate::time::MAX_NANOS,
        rtt_hint.total() <= crate::time::MAX_NANOS,
    ensures
        ({
            let nanos = s.admission_rtt(rtt_hint);
            let eight = Value::of_integer(8);
            let by_window = Value::of_integer(s.cwnd as nat).times(eight).over(
                crate::time::seconds_of(nanos),
            );
            let by_bandwidth = Value::of_integer(bandwidth as nat).times(eight);
            let by_pacing = Value::of_integer(s.pacing_rate as nat).times(eight);
            let c = s.capacity(rtt_hint, bandwidth);
            &&& s.cwnd == 0 && bandwidth == 0 && s.pacing_rate == 0 ==> c is Infinite
            &&& s.cwnd > 0 || bandwidth > 0 || s.pacing_rate > 0 ==> {
                &&& c is Finite
                &&& !c.is_negative()
                &&& c->units > 0
                &&& crate::float_error::sized(c->units, 140)
                &&& s.cwnd > 0 ==> c->units <= by_window->units
                &&& bandwidth > 0 ==> c->units <= by_bandwidth->units
                &&& s.pacing_rate > 0 ==> c->units <= by_pacing->units
                &&& (s.cwnd > 0 && c == by_window) || (bandwidth > 0 && c == by_bandwidth) || (
                s.pacing_rate > 0 && c == by_pacing)
            }
        }),
{
    let nanos = s.admission_rtt(rtt_hint);
    let one = pow2(1074);
    let eight = Value::of_integer(8);
    let zero = Value::of_integer(0);
    lemma_pow2_pos(1074);
    lemma_pow2_pos(2098);
    crate::float64::lemma_integer_exact(0);
    crate::float64::lemma_integer_exact(8);
    lemma_mul_basics(one as int);
    lemma_mul_basics(8 * one as int);
    crate::float64::lemma_round_zero(one);
    crate::float_error::lemma_seconds_near(nanos);
    let secs = crate::time::seconds_of(nanos);
    crate::float_error::lemma_sized_in_range(secs->units, 70);
    crate::float64::lemma_round_zero(secs->units);
    let by_window = Value::of_integer(s.cwnd as nat).times(eight).over(secs);
    let by_bandwidth = Value::of_integer(bandwidth as nat).times(eight);
    let by_pacing = Value::of_integer(s.pacing_rate as nat).times(eight);
    assert(zero.times(eight).rank() == 0);
    if s.cwnd > 0 {
        lemma_window_rate(s.cwnd as nat, nanos);
        crate::float_error::lemma_sized_in_range(by_window->units, 140);
    } else {
        assert(by_window.rank() == 0);
    }
    if bandwidth > 0 {
        lemma_eightfold(bandwidth as nat);
        crate::float_error::lemma_sized_wider(by_bandwidth->units, 69, 140);
        crate::float_error::lemma_sized_in_range(by_bandwidth->units, 140);
    } else {
        assert(by_bandwidth.rank() == 0);
    }
    if s.pacing_rate > 0 {
        lemma_eightfold(s.pacing_rate as nat);
        crate::float_error::lemma_sized_wider(by_pacing->units, 69, 140);
        crate::float_error::lemma_sized_in_range(by_pacing->units, 140);
    } else {
        assert(by_pacing.rank() == 0);
    }
}

/// The trusted rate is the capacity in packets per second, but at least one, times the factor by
/// which it is trusted.
pub proof fn law_packet_rate(s: BbrState, rtt_hint: Duration, bandwidth: u64)
    requires
        s.min_rtt.total() <= crate::time::MAX_NANOS,
        rtt_hint.total() <= crate::time::MAX_NANOS,
        s.cwnd > 0 || bandwidth > 0 || s.pacing_rate > 0,
        s.config.deadline is Some,
        s.config.deadline->0.default_mss > 0,
        s.config.deadline->0.beta.value() is Finite,
        !s.config.deadline->0.beta.value().is_negative(),
        crate::float_error::sized(s.config.deadline->0.beta.value()->units, 64),
    ensures
        ({
            let rate = s.packet_rate(rtt_hint, bandwidth);
            let beta = s.config.deadline->0.beta.value()->units;
            let mss = s.config.deadline->0.default_mss as nat;
            let capacity = s.capacity(rtt_hint, bandwidth)->units;
            let one = pow2(1074);
            &&& rate is Finite
            &&& !rate.is_negative()
            &&& crate::float_error::sized(rate->units, 250)
            &&& crate::float_error::near(rate->units * (8 * mss) * one, capacity * beta, 8)
                || crate::float_error::near(rate->units, beta, 8)
            &&& (PARTS - 8) * (capacity * beta) <= PARTS * (rate->units * (8 * mss) * one)
            &&& (PARTS - 8) * beta <= PARTS * rate->units
        }),
{
    let one = pow2(1074);
    let config = s.config.deadline->0;
    let mss = config.default_mss as nat;
    let beta = config.beta.value();
    let c = s.capacity(rtt_hint, bandwidth);
    let eight = Value::of_integer(8);
    let unit = Value::of_integer(1);
    let size = Value::of_integer(mss);
    lemma_pow2_pos(1074);
    lemma2_to64();
    lemma_capacity_parts(s, rtt_hint, bandwidth);
    crate::float64::lemma_integer_exact(8);
    crate::float64::lemma_integer_exact(1);
    crate::float64::lemma_integer_exact(mss);
    lemma_mul_basics(one as int);
    assert(crate::float_error::sized(eight->units, 3)) by (nonlinear_arith)
        requires
            eight->units == 8 * one,
            pow2(3) == 8,
            one > 0,
            one == pow2(1074),
    ;
    assert(crate::float_error::sized(size->units, 32)) by (nonlinear_arith)
        requires
            size->units == mss * one,
            0 < mss <= 0xffff_ffff,
            pow2(32) == 0x1_0000_0000,
            one > 0,
            one == pow2(1074),
    ;
    assert(crate::float_error::sized(unit->units, 0)) by (nonlinear_arith)
        requires
            unit->units == one,
            pow2(0) == 1,
            one == pow2(1074),
    ;
    crate::float_error::lemma_over_near(c, eight, 140, 3);
    let bytes = c.over(eight);
    crate::float_error::lemma_over_near(bytes, size, 144, 32);
    let per = bytes.over(size);
    // Packets per second.
    let (x, y, z) = (c->units, bytes->units, per->units);
    assert((y * 8) * one == y * (8 * one)) by (nonlinear_arith);
    crate::float_error::lemma_near_unscaled(y * 8, x, one, 1);
    assert((z * mss) * one == z * (mss * one)) by (nonlinear_arith);
    crate::float_error::lemma_near_unscaled(z * mss, y, one, 1);
    crate::float_error::lemma_near_scaled(z * mss, y, 8, 1);
    crate::float_error::lemma_near_chain((z * mss) * 8, y * 8, x, 1, 1);
    let fast = per.max(unit);
    let f = fast->units;
    assert(f >= z && f >= one && (f == z || f == one));
    crate::float_error::lemma_sized_wider(unit->units, 0, 177);
    assert(crate::float_error::sized(f, 177));
    crate::float_error::lemma_times_near(fast, beta, 177, 64);
    let rate = fast.times(beta);
    let (r, b) = (rate->units, beta->units);
    assert(rate == s.packet_rate(rtt_hint, bandwidth));
    crate::float_error::lemma_sized_wider(r, 242, 250);
    let scale = 8 * mss;
    // At least both.
    crate::float_error::lemma_near_scaled(r * one, f * b, scale, 1);
    assert((r * one) * scale == r * scale * one) by (nonlinear_arith);
    assert((f * b) * scale >= ((z * mss) * 8) * b) by (nonlinear_arith)
        requires
            f >= z,
            scale == 8 * mss,
    ;
    lemma_at_least(r * scale * one, (f * b) * scale, ((z * mss) * 8) * b, x * b, (z * mss) * 8, x, b);
    assert(f * b >= one * b) by (nonlinear_arith)
        requires
            f >= one,
    ;
    assert((PARTS - 8) * b <= PARTS * r) by (nonlinear_arith)
        requires
            PARTS * (f * b) <= PARTS * (r * one) + 1 * (f * b),
            f * b >= one * b,
            one > 0,
            PARTS == 0x4_0000_0000_0000,
    ;
    // One of the two.
    if f == z {
        crate::float_error::lemma_near_scaled((z * mss) * 8, x, b, 3);
        assert((f * b) * scale == ((z * mss) * 8) * b) by (nonlinear_arith)
            requires
                f == z,
                scale == 8 * mss,
        ;
        crate::float_error::lemma_near_chain(r * scale * one, (f * b) * scale, x * b, 1, 3);
        crate::float_error::lemma_near_weaker(r * scale * one, x * b, 5, 8);
    } else {
        assert(f * b == b * one) by (nonlinear_arith)
            requires
                f == one,
        ;
        crate::float_error::lemma_near_unscaled(r, b, one, 1);
        crate::float_error::lemma_near_weaker(r, b, 1, 8);
    }
}

proof fn lemma_at_least(rate: nat, fast: nat, per: nat, goal: nat, z: nat, x: nat, b: nat)
    requires
        crate::float_error::near(rate, fast, 1),
        fast >= per,
        per == z * b,
        goal == x * b,
        crate::float_error::near(z, x, 3),
    ensures
        (PARTS - 8) * goal <= PARTS * rate,
{
    crate::float_error::lemma_near_scaled(z, x, b, 3);
    assert((PARTS - 8) * goal <= PARTS * rate) by (nonlinear_arith)
        requires
            PARTS * fast <= PARTS * rate + 1 * fast,
            fast >= per,
            PARTS * goal <= PARTS * per + 3 * goal,
            PARTS == 0x4_0000_0000_0000,
    ;
}

/// The queue with the object takes its packets over the trusted rate to send, to the nearest
/// nanosecond. The object arrives half a round trip after that, and the guard time counts too.
pub proof fn law_arrival_follows_the_load(
    s: BbrState,
    queue: QueueView,
    object_size: u64,
    now: Instant,
    rtt_hint: Duration,
    bandwidth: u64,
)
    requires
        s.config.deadline is Some,
        s.config.deadline->0.default_mss > 0,
        queue.is_valid(),
        queue.q_pkts is Finite,
        queue.q_pkts->units < pow2(64) * pow2(1074),
        s.packet_rate(rtt_hint, bandwidth) is Finite,
        !s.packet_rate(rtt_hint, bandwidth).is_negative(),
        crate::float_error::sized(s.packet_rate(rtt_hint, bandwidth)->units, 250),
        s.arrival(queue, object_size, now, rtt_hint, bandwidth) is Some,
    ensures
        ({
            let arrival = s.arrival(queue, object_size, now, rtt_hint, bandwidth)->0;
            let rate = s.packet_rate(rtt_hint, bandwidth)->units;
            let mss = s.config.deadline->0.default_mss;
            let packets = crate::bbr::admission::packets_of(object_size, mss);
            let load = queue.q_pkts->units + packets * pow2(1074);
            let sending = arrival - now.at() - reckoned_rtt(s, rtt_hint) / 2
                - s.config.deadline->0.guard_ms * 1_000_000;
            &&& sending >= 0
            &&& PARTS * ((2 * sending - 1) * rate) <= (PARTS + 8) * (2_000_000_000 * load)
            &&& (PARTS - 8) * (2_000_000_000 * load) <= PARTS * ((2 * sending + 1) * rate)
        }),
{
    let one = pow2(1074);
    let mss = s.config.deadline->0.default_mss;
    let packets = crate::bbr::admission::packets_of(object_size, mss);
    let rate = s.packet_rate(rtt_hint, bandwidth);
    let n = Value::of_integer(packets);
    let q = queue.q_pkts;
    lemma_pow2_pos(1074);
    lemma2_to64();
    lemma2_to64_rest();
    lemma_pow2_adds(64, 1074);
    lemma_pow2_adds(65, 1074);
    lemma_pow2_unfold(65);
    lemma_pow2_strictly_increases(64 + 1074, 2096);
    lemma_pow2_strictly_increases(65 + 1074, 2096);
    law_packets_hold_the_object(object_size, mss);
    lemma_packets_fit(object_size, mss);
    crate::float_error::lemma_integer_near(packets);
    assert(n->units < pow2(2096)) by {
        lemma_mul_is_commutative(one as int, pow2(65) as int);
    }
    crate::float_error::lemma_plus_near(q, n);
    let sum = q.plus(n);
    let load = q->units + packets * one;
    crate::float_error::lemma_near_shifted(n->units, packets * one, q->units, 1);
    crate::float_error::lemma_near_chain(sum->units, q->units + n->units, load, 1, 1);
    // The size of the load.
    assert(load >= one) by (nonlinear_arith)
        requires
            load >= packets * one,
            packets >= 1,
    ;
    assert(load <= one * pow2(65)) by (nonlinear_arith)
        requires
            load == q->units + packets * one,
            q->units < pow2(64) * one,
            packets <= 0xffff_ffff_ffff_ffff,
            pow2(64) == 0x1_0000_0000_0000_0000,
            pow2(65) == 2 * pow2(64),
    ;
    assert(crate::float_error::sized(sum->units, 66)) by {
        lemma_pow2_unfold(66);
        let f = pow2(66);
        assert(one <= sum->units * f && sum->units <= one * f) by (nonlinear_arith)
            requires
                PARTS * sum->units <= PARTS * load + 3 * load,
                PARTS * load <= PARTS * sum->units + 3 * load,
                one <= load <= one * pow2(65),
                f == 2 * pow2(65),
                pow2(65) >= 2,
                PARTS == 0x4_0000_0000_0000,
        ;
    }
    crate::float_error::lemma_over_near(sum, rate, 66, 250);
    let time = sum.over(rate);
    let (d, r) = (time->units, rate->units);
    crate::float_error::lemma_near_scaled(sum->units, load, one, 3);
    crate::float_error::lemma_near_chain(d * r, sum->units * one, load * one, 1, 3);
    // To the nearest nanosecond.
    let billion: nat = 1_000_000_000;
    let t = crate::rounding::nearest(d * billion, one);
    lemma_fundamental_div_mod((d * billion) as int, one as int);
    let whole = (d * billion) / one;
    assert((t == whole ==> t * one == one * whole) && (t == whole + 1 ==> t * one == one * whole
        + one)) by (nonlinear_arith);
    assert(-one <= 2 * (t * one - d * billion) <= one);
    assert(crate::time::nanos_of_seconds(time) == Some(t));
    crate::float_error::lemma_sized_in_range(r, 250);
    lemma_sending(one as int, d as int, r as int, load as int, t as int);
}

proof fn lemma_sending(one: int, d: int, r: int, load: int, t: int)
    requires
        one > 0,
        r > 0,
        load > 0,
        -one <= 2 * (t * one - d * 1_000_000_000) <= one,
        PARTS * (d * r) <= PARTS * (load * one) + 5 * (load * one),
        PARTS * (load * one) <= PARTS * (d * r) + 5 * (load * one),
    ensures
        PARTS * ((2 * t - 1) * r) <= (PARTS + 8) * (2_000_000_000 * load),
        (PARTS - 8) * (2_000_000_000 * load) <= PARTS * ((2 * t + 1) * r),
{
    let parts = PARTS as int;
    let span = 2_000_000_000 * d;
    assert((2 * t - 1) * one <= span <= (2 * t + 1) * one) by (nonlinear_arith)
        requires
            span == 2_000_000_000 * d,
            -one <= 2 * (t * one - d * 1_000_000_000) <= one,
    ;
    assert(((2 * t - 1) * r) * one <= span * r <= ((2 * t + 1) * r) * one) by (nonlinear_arith)
        requires
            (2 * t - 1) * one <= span <= (2 * t + 1) * one,
            r > 0,
    ;
    let goal = 2_000_000_000 * load;
    assert(span * r == 2_000_000_000 * (d * r) && goal * one == 2_000_000_000 * (load * one))
        by (nonlinear_arith)
        requires
            span == 2_000_000_000 * d,
            goal == 2_000_000_000 * load,
    ;
    let low = (2 * t - 1) * r;
    let high = (2 * t + 1) * r;
    assert(parts * low <= (parts + 8) * goal) by (nonlinear_arith)
        requires
            low * one <= span * r,
            parts * (span * r) <= parts * (goal * one) + 5 * (goal * one),
            goal > 0,
            one > 0,
            parts > 0,
    ;
    assert((parts - 8) * goal <= parts * high) by (nonlinear_arith)
        requires
            span * r <= high * one,
            parts * (goal * one) <= parts * (span * r) + 5 * (goal * one),
            goal > 0,
            one > 0,
            parts > 0,
    ;
}

/// When an object is admitted: where the scheduler is on, it must arrive no later than its
/// deadline; a capacity is usable if it is positive.
pub proof fn law_admission_decides(
    s: BbrState,
    queue: QueueView,
    object_size: u64,
    deadline: Instant,
    now: Instant,
    rtt_hint: Duration,
    bandwidth: u64,
)
    requires
        s.min_rtt.total() <= crate::time::MAX_NANOS,
        rtt_hint.total() <= crate::time::MAX_NANOS,
    ensures
        s.scheduler_enabled() <==> s.config.deadline is Some && s.config.deadline->0.enabled,
        crate::bbr::admission::is_usable(s.capacity(rtt_hint, bandwidth)) <==> s.cwnd > 0
            || bandwidth > 0 || s.pacing_rate > 0,
        s.arrives_in_time(queue, object_size, deadline, now, rtt_hint, bandwidth) <==> s.arrival(
            queue,
            object_size,
            now,
            rtt_hint,
            bandwidth,
        ) is Some && s.arrival(queue, object_size, now, rtt_hint, bandwidth)->0 <= deadline.at(),
{
    lemma_capacity_parts(s, rtt_hint, bandwidth);
    crate::float64::lemma_integer_exact(0);
    lemma_mul_basics(pow2(1074) as int);
}

/// An admitted object lengthens the queue by its packets.
pub proof fn law_filling_adds_the_packets(queue: QueueView, now: Instant, packets: nat)
    requires
        queue.is_valid(),
        queue.q_pkts is Finite,
        queue.q_pkts->units < pow2(64) * pow2(1074),
        0 < packets <= u64::MAX,
    ensures
        ({
            let after = queue.filled(now, packets);
            &&& after.last == Some(now)
            &&& after.q_pkts is Finite
            &&& !after.q_pkts.is_negative()
            &&& crate::float_error::near(
                after.q_pkts->units,
                queue.q_pkts->units + packets * pow2(1074),
                3,
            )
        }),
{
    let one = pow2(1074);
    let n = Value::of_integer(packets);
    let q = queue.q_pkts;
    lemma_pow2_adds(64, 1074);
    lemma_pow2_adds(65, 1074);
    lemma_pow2_strictly_increases(64 + 1074, 2096);
    lemma_pow2_strictly_increases(65 + 1074, 2096);
    crate::float_error::lemma_integer_near(packets);
    lemma_mul_is_commutative(one as int, pow2(65) as int);
    crate::float_error::lemma_plus_near(q, n);
    crate::float_error::lemma_near_shifted(n->units, packets * one, q->units, 1);
    crate::float_error::lemma_near_chain(
        q.plus(n)->units,
        q->units + n->units,
        q->units + packets * one,
        1,
        1,
    );
}

/// The queue drains at the given rate for as long as it was left alone, and not below empty.
/// Where no time has passed, or the rate is not positive, it stays as it is.
pub proof fn law_draining_follows_the_rate(queue: QueueView, now: Instant, pps: Value)
    requires
        queue.is_valid(),
        queue.q_pkts is Finite,
        queue.q_pkts->units < pow2(64) * pow2(1074),
        now.at() <= crate::time::MAX_NANOS,
        pps is Finite,
        pps.is_negative() || pps->units == 0 || crate::float_error::sized(pps->units, 250),
    ensures
        ({
            let after = queue.decayed(now, pps);
            let before = queue.q_pkts->units;
            let left = after.q_pkts->units;
            let span = now.at() - queue.last->0.at();
            let drained = pps->units * span;
            if queue.last is None || span <= 0 || pps.is_negative() || pps->units == 0 {
                after == queue
            } else {
                &&& after.last == Some(now)
                &&& after.q_pkts is Finite
                &&& !after.q_pkts.is_negative()
                // No more is left than what did not drain, and no less.
                &&& left == 0 || PARTS * (1_000_000_000 * left + drained) <= PARTS * (
                1_000_000_000 * before) + 8 * drained + 1_000_000_000 * before
                &&& PARTS * (1_000_000_000 * left + drained) + 8 * drained + 1_000_000_000 * before
                    >= PARTS * (1_000_000_000 * before)
            }
        }),
{
    let one = pow2(1074);
    let zero = Value::of_integer(0);
    lemma_pow2_pos(1074);
    lemma_pow2_pos(2098);
    crate::float64::lemma_integer_exact(0);
    lemma_mul_basics(one as int);
    lemma_pow2_adds(64, 1074);
    lemma_pow2_strictly_increases(64 + 1074, 2096);
    if queue.last is None || now.at() <= queue.last->0.at() {
        crate::bbr::admission_laws::lemma_no_seconds();
        assert(queue.drained_for(now).rank() == 0);
    } else if pps.is_negative() || pps->units == 0 {
        assert(pps.le(zero));
    } else {
        let span = (now.at() - queue.last->0.at()) as nat;
        let dt = crate::time::seconds_of(span);
        crate::float_error::lemma_seconds_near(span);
        crate::float_error::lemma_sized_in_range(dt->units, 70);
        crate::float_error::lemma_sized_in_range(pps->units, 250);
        crate::float_error::lemma_times_near(pps, dt, 250, 70);
        let a = pps.times(dt);
        let billion: nat = 1_000_000_000;
        let (r, y) = (pps->units, dt->units);
        crate::float_error::lemma_near_scaled(a->units * one, r * y, billion, 1);
        crate::float_error::lemma_near_scaled(y * billion, span * one, r, 5);
        assert((r * y) * billion == (y * billion) * r) by (nonlinear_arith);
        crate::float_error::lemma_near_chain(
            (a->units * one) * billion,
            (y * billion) * r,
            (span * one) * r,
            1,
            5,
        );
        assert((a->units * one) * billion == (a->units * billion) * one) by (nonlinear_arith);
        assert((span * one) * r == (r * span) * one) by (nonlinear_arith);
        crate::float_error::lemma_near_unscaled(a->units * billion, r * span, one, 7);
        lemma_sized_small(a->units, 321);
        crate::float_error::lemma_minus_near(queue.q_pkts, a);
        let rest = queue.q_pkts.minus(a);
        assert(pps.rank() > 0 && dt.rank() > 0);
        let before = queue.q_pkts->units;
        let after = queue.decayed(now, pps);
        assert(after.q_pkts == rest.max(zero));
        if before >= a->units {
            assert(after.q_pkts->units == rest->units);
        } else {
            assert(rest->units > 0) by {
                if rest->units == 0 {
                    assert(a->units - before == 0);
                }
            }
            assert(after.q_pkts->units == 0);
        }
    }
}

/// A number of moderate size leaves room for sums.
pub proof fn lemma_sized_small(units: nat, k: nat)
    requires
        crate::float_error::sized(units, k),
        k <= 400,
    ensures
        units < pow2(2096),
{
    lemma_pow2_adds(1074, k);
    lemma_pow2_strictly_increases(1074 + k, 2096);
}

/// Where the scheduler is off, every object is admitted; where nothing can be sent, none is. In
/// both cases the queue stays as it is. Otherwise an object is admitted exactly if it arrives by
/// its deadline behind the queue as it has drained; its packets then join the queue, and those of
/// a rejected object do not.
pub proof fn law_admission_moves_the_queue(
    s: BbrState,
    queue: QueueView,
    object_size: u64,
    deadline: Instant,
    now: Instant,
    rtt_hint: Duration,
    bandwidth: u64,
)
    requires
        s.min_rtt.total() <= crate::time::MAX_NANOS,
        rtt_hint.total() <= crate::time::MAX_NANOS,
        s.config.deadline is Some ==> s.config.deadline->0.default_mss > 0,
    ensures
        ({
            let admitted = s.admits(queue, object_size, deadline, now, rtt_hint, bandwidth);
            let after = s.queue_after(queue, object_size, deadline, now, rtt_hint, bandwidth);
            let on = s.config.deadline is Some && s.config.deadline->0.enabled;
            let idle = s.cwnd == 0 && bandwidth == 0 && s.pacing_rate == 0;
            let drained = queue.decayed(now, s.packet_rate(rtt_hint, bandwidth));
            let arrival = s.arrival(drained, object_size, now, rtt_hint, bandwidth);
            &&& !on ==> admitted && after == queue
            &&& on && idle ==> !admitted && after == queue
            &&& on && !idle ==> (admitted <==> arrival is Some && arrival->0 <= deadline.at())
            &&& on && !idle && !admitted ==> after == drained
            &&& on && !idle && admitted ==> after.last == Some(now)
            &&& on && !idle && admitted && drained.is_valid() && drained.q_pkts is Finite
                && drained.q_pkts->units < pow2(64) * pow2(1074) ==> after.q_pkts is Finite
                && !after.q_pkts.is_negative() && crate::float_error::near(
                after.q_pkts->units,
                drained.q_pkts->units + crate::bbr::admission::packets_of(
                    object_size,
                    s.config.deadline->0.default_mss,
                ) * pow2(1074),
                3,
            )
        }),
{
    let drained = queue.decayed(now, s.packet_rate(rtt_hint, bandwidth));
    law_admission_decides(s, drained, object_size, deadline, now, rtt_hint, bandwidth);
    if s.config.deadline is Some {
        let mss = s.config.deadline->0.default_mss;
        law_packets_hold_the_object(object_size, mss);
        lemma_packets_fit(object_size, mss);
        let packets = crate::bbr::admission::packets_of(object_size, mss);
        if drained.is_valid() && drained.q_pkts is Finite && drained.q_pkts->units < pow2(64)
            * pow2(1074) {
            law_filling_adds_the_packets(drained, now, packets);
        }
    }
}

} // verus!
