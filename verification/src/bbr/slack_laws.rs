//! What the slack of an object comes to, in numbers.

use crate::bbr::state::BbrState;
use crate::float64::Value;
use crate::float_error::PARTS;
use crate::time::{Duration, Instant};
use vstd::arithmetic::mul::*;
use vstd::arithmetic::power2::*;
use vstd::prelude::*;

verus! {

/// A window per round trip.
proof fn lemma_window_part(bits: nat, nanos: nat)
    requires
        0 < bits <= u64::MAX,
        0 < nanos <= crate::time::MAX_NANOS,
    ensures
        ({
            let v = Value::of_integer(bits).over(crate::time::seconds_of(nanos));
            &&& v is Finite
            &&& !v.is_negative()
            &&& crate::float_error::near(v->units * nanos, 1_000_000_000 * bits * pow2(1074), 12)
            &&& crate::float_error::sized(v->units, 136)
        }),
{
    let one = pow2(1074);
    let billion: nat = 1_000_000_000;
    let a = Value::of_integer(bits);
    let secs = crate::time::seconds_of(nanos);
    let v = a.over(secs);
    lemma_pow2_pos(1074);
    crate::float_error::lemma_integer_near(bits);
    crate::float_error::lemma_seconds_near(nanos);
    crate::float_error::lemma_over_near(a, secs, 65, 70);
    let (c, y) = (v->units, secs->units);
    crate::float_error::lemma_near_scaled(c * y, a->units * one, billion, 1);
    crate::float_error::lemma_near_scaled(a->units, bits * one, one * billion, 1);
    assert((a->units * one) * billion == a->units * (one * billion)) by (nonlinear_arith);
    crate::float_error::lemma_near_chain(
        (c * y) * billion,
        a->units * (one * billion),
        (bits * one) * (one * billion),
        1,
        1,
    );
    crate::float_error::lemma_near_swapped(y * billion, nanos * one, 5);
    crate::float_error::lemma_near_scaled(nanos * one, y * billion, c, 6);
    assert((y * billion) * c == (c * y) * billion) by (nonlinear_arith);
    crate::float_error::lemma_near_chain(
        (nanos * one) * c,
        (c * y) * billion,
        (bits * one) * (one * billion),
        6,
        3,
    );
    assert((nanos * one) * c == (c * nanos) * one) by (nonlinear_arith);
    assert((bits * one) * (one * billion) == (billion * bits * one) * one) by (nonlinear_arith);
    crate::float_error::lemma_near_unscaled(c * nanos, billion * bits * one, one, 10);
    crate::float_error::lemma_near_weaker(c * nanos, billion * bits * one, 10, 12);
}

/// The slack is reckoned with the smaller of the estimated bandwidth and of eight times the
/// window per round trip.
pub proof fn law_slack_capacity_is_the_least(s: BbrState, rtt: Duration, bandwidth: u64)
    requires
        0 < rtt.total() <= crate::time::MAX_NANOS,
        s.cwnd * 8 <= u64::MAX,
    ensures
        ({
            let capacity = s.slack_capacity(rtt, bandwidth);
            let nanos = rtt.total();
            let one = pow2(1074);
            let carried = 8_000_000_000 * s.cwnd as nat * one;
            &&& capacity is Finite
            &&& !capacity.is_negative()
            &&& s.cwnd == 0 || bandwidth == 0 ==> capacity->units == 0
            &&& s.cwnd > 0 && bandwidth > 0 ==> {
                &&& crate::float_error::sized(capacity->units, 136)
                &&& PARTS * capacity->units <= (PARTS + 1) * (bandwidth * one)
                &&& PARTS * (capacity->units * nanos) <= (PARTS + 12) * carried
                &&& crate::float_error::near(capacity->units, bandwidth as nat * one, 1)
                    || crate::float_error::near(capacity->units * nanos, carried, 12)
            }
        }),
{
    let one = pow2(1074);
    let nanos = rtt.total();
    let bits = (s.cwnd * 8) as nat;
    let secs = crate::time::seconds_of(nanos);
    let by_window = Value::of_integer(bits).over(secs);
    let by_bandwidth = Value::of_integer(bandwidth as nat);
    lemma_pow2_pos(1074);
    lemma_pow2_pos(2098);
    crate::float64::lemma_integer_exact(0);
    lemma_mul_basics(one as int);
    crate::float_error::lemma_seconds_near(nanos);
    crate::float_error::lemma_sized_in_range(secs->units, 70);
    crate::float64::lemma_round_zero(secs->units);
    if bandwidth > 0 {
        crate::float_error::lemma_integer_near(bandwidth as nat);
        crate::float_error::lemma_sized_wider(by_bandwidth->units, 65, 136);
    }
    if s.cwnd > 0 {
        lemma_window_part(bits, nanos);
        assert(1_000_000_000 * bits * one == 8_000_000_000 * s.cwnd as nat * one);
        let c = s.slack_capacity(rtt, bandwidth);
        lemma_mul_inequality(c->units as int, by_window->units as int, nanos as int);
    }
}

/// Where no round-trip time is known, only the estimated bandwidth counts.
pub proof fn law_slack_capacity_without_a_round_trip(s: BbrState, rtt: Duration, bandwidth: u64)
    requires
        rtt.total() == 0,
        s.cwnd * 8 <= u64::MAX,
    ensures
        s.slack_capacity(rtt, bandwidth) == Value::of_integer(bandwidth as nat),
{
    let bits = (s.cwnd * 8) as nat;
    crate::bbr::admission_laws::lemma_no_seconds();
    crate::float64::lemma_integer_exact(0);
    lemma_mul_basics(pow2(1074) as int);
    lemma_pow2_pos(2098);
    if bits > 0 {
        crate::float_error::lemma_integer_near(bits);
        crate::float_error::lemma_sized_in_range(Value::of_integer(bits)->units, 65);
    }
    if bandwidth > 0 {
        crate::float_error::lemma_integer_near(bandwidth as nat);
        crate::float_error::lemma_sized_in_range(Value::of_integer(bandwidth as nat)->units, 65);
    }
}

/// The packets per second are those of the capacity, times the factor by which it is trusted, but
/// at least one.
pub proof fn law_slack_rate(s: BbrState, rtt: Duration, bandwidth: u64)
    requires
        0 < rtt.total() <= crate::time::MAX_NANOS,
        s.cwnd * 8 <= u64::MAX,
        s.config.deadline is Some,
        s.config.deadline->0.default_mss > 0,
        s.config.deadline->0.beta.value() is Finite,
        !s.config.deadline->0.beta.value().is_negative(),
        crate::float_error::sized(s.config.deadline->0.beta.value()->units, 64),
    ensures
        ({
            let rate = s.slack_rate(rtt, bandwidth);
            let beta = s.config.deadline->0.beta.value()->units;
            let mss = s.config.deadline->0.default_mss as nat;
            let capacity = s.slack_capacity(rtt, bandwidth)->units;
            let one = pow2(1074);
            &&& rate is Finite
            &&& !rate.is_negative()
            &&& rate->units >= one
            &&& crate::float_error::sized(rate->units, 250)
            &&& rate->units > one ==> crate::float_error::near(
                rate->units * (8 * mss) * one,
                capacity * beta,
                8,
            )
            &&& (PARTS - 8) * (capacity * beta) <= PARTS * (rate->units * (8 * mss) * one)
        }),
{
    let one = pow2(1074);
    let config = s.config.deadline->0;
    let mss = config.default_mss as nat;
    let beta = config.beta.value();
    let c = s.slack_capacity(rtt, bandwidth);
    let eight = Value::of_integer(8);
    let unit = Value::of_integer(1);
    let size = Value::of_integer(mss);
    lemma_pow2_pos(1074);
    lemma_pow2_pos(2098);
    lemma2_to64();
    law_slack_capacity_is_the_least(s, rtt, bandwidth);
    crate::float64::lemma_integer_exact(8);
    crate::float64::lemma_integer_exact(1);
    crate::float64::lemma_integer_exact(mss);
    lemma_mul_basics(one as int);
    assert(crate::float_error::sized(unit->units, 0)) by (nonlinear_arith)
        requires
            unit->units == one,
            pow2(0) == 1,
            one == pow2(1074),
    ;
    crate::float_error::lemma_sized_wider(unit->units, 0, 250);
    let (x, b) = (c->units, beta->units);
    let bytes = c.over(eight);
    let per = bytes.over(size);
    let trusted = per.times(beta);
    let rate = s.slack_rate(rtt, bandwidth);
    assert(rate == trusted.max(unit));
    if x == 0 {
        assert(mss * one > 0) by (nonlinear_arith)
            requires
                mss > 0,
                one > 0,
        ;
        crate::float64::lemma_round_zero(8 * one);
        crate::float64::lemma_round_zero(mss * one);
        crate::float64::lemma_round_zero(one);
        lemma_mul_basics(b as int);
        assert(trusted.rank() == 0);
        assert(rate == unit);
    } else {
        assert(crate::float_error::sized(eight->units, 3)) by (nonlinear_arith)
            requires
                eight->units == 8 * one,
                pow2(3) == 8,
                one > 0,
                one == pow2(1074),
        ;
        assert(crate::float_error::sized(size->units, 32)) by (nonlinear_arith)
            requires
                size->units == mss * one,
                0 < mss <= 0xffff_ffff,
                pow2(32) == 0x1_0000_0000,
                one > 0,
                one == pow2(1074),
        ;
        crate::float_error::lemma_over_near(c, eight, 136, 3);
        crate::float_error::lemma_over_near(bytes, size, 140, 32);
        crate::float_error::lemma_times_near(per, beta, 173, 64);
        let (y, z, t) = (bytes->units, per->units, trusted->units);
        crate::float_error::lemma_sized_wider(t, 238, 250);
        assert((y * 8) * one == y * (8 * one)) by (nonlinear_arith);
        crate::float_error::lemma_near_unscaled(y * 8, x, one, 1);
        assert((z * mss) * one == z * (mss * one)) by (nonlinear_arith);
        crate::float_error::lemma_near_unscaled(z * mss, y, one, 1);
        crate::float_error::lemma_near_scaled(z * mss, y, 8, 1);
        crate::float_error::lemma_near_chain((z * mss) * 8, y * 8, x, 1, 1);
        crate::float_error::lemma_near_scaled((z * mss) * 8, x, b, 3);
        let scale = 8 * mss;
        crate::float_error::lemma_near_scaled(t * one, z * b, scale, 1);
        assert((t * one) * scale == t * scale * one) by (nonlinear_arith);
        assert((z * b) * scale == ((z * mss) * 8) * b) by (nonlinear_arith)
            requires
                scale == 8 * mss,
        ;
        crate::float_error::lemma_near_chain(t * scale * one, (z * b) * scale, x * b, 1, 3);
        crate::float_error::lemma_near_weaker(t * scale * one, x * b, 5, 8);
        let r = rate->units;
        assert(r >= t && r >= one && (r == t || r == one));
        assert(r * scale * one >= t * scale * one) by (nonlinear_arith)
            requires
                r >= t,
        ;
    }
}

/// The slack is what is left until the deadline after half a round trip, less the time that the
/// object's packets take, less the guard time.
pub proof fn law_slack_is_what_is_left(
    s: BbrState,
    object_size: u64,
    deadline: Instant,
    now: Instant,
    rtt: Duration,
    bandwidth: u64,
)
    requires
        s.config.deadline is Some,
        s.config.deadline->0.default_mss > 0,
        now.at() + rtt.total() / 2 <= crate::time::MAX_NANOS,
        deadline.at() <= crate::time::MAX_NANOS,
        s.slack_rate(rtt, bandwidth) is Finite,
        !s.slack_rate(rtt, bandwidth).is_negative(),
        crate::float_error::sized(s.slack_rate(rtt, bandwidth)->units, 250),
    ensures
        ({
            let slack = s.slack(object_size, deadline, now, rtt, bandwidth);
            let rate = s.slack_rate(rtt, bandwidth)->units as int;
            let mss = s.config.deadline->0.default_mss;
            let packets = crate::bbr::admission::packets_of(object_size, mss);
            let start = now.at() + rtt.total() / 2;
            let left = if deadline.at() >= start {
                deadline.at() - start
            } else {
                0
            };
            let guard = s.config.deadline->0.guard_ms * 1_000_000;
            let one = pow2(1074) as int;
            let exact = (left - guard) * one * rate - 1_000_000_000 * packets * one * one;
            let size = (left + guard) * one * rate + 1_000_000_000 * packets * one * one;
            &&& slack is Finite
            &&& -(20 * size) <= PARTS * (slack.rank() * 1_000_000_000 * rate - exact) <= 20 * size
        }),
{
    let one = pow2(1074);
    let mss = s.config.deadline->0.default_mss;
    let packets = crate::bbr::admission::packets_of(object_size, mss);
    let rate = s.slack_rate(rtt, bandwidth);
    let start = now.at() + rtt.total() / 2;
    now.law_shifted_point(rtt.total() / 2);
    let left = deadline.span_since(now.shifted(rtt.total() / 2));
    let guard = s.config.deadline->0.guard_ms as nat * 1_000_000;
    let a = crate::time::seconds_of(left);
    let g = crate::time::seconds_of(guard);
    let n = Value::of_integer(packets);
    let d = n.over(rate);
    lemma_pow2_pos(1074);
    lemma2_to64();
    lemma_pow2_strictly_increases(2090, 2096);
    lemma_seconds_or_none(left);
    lemma_seconds_or_none(guard);
    crate::bbr::admission_rates::law_packets_hold_the_object(object_size, mss);
    crate::bbr::admission_rates::lemma_packets_fit(object_size, mss);
    crate::float_error::lemma_integer_near(packets);
    crate::float_error::lemma_over_near(n, rate, 65, 250);
    crate::float_error::lemma_near_scaled(n->units, packets * one, one, 1);
    crate::float_error::lemma_near_chain(
        d->units * rate->units,
        n->units * one,
        (packets * one) * one,
        1,
        1,
    );
    crate::bbr::admission_rates::lemma_sized_small(d->units, 316);
    // The two differences.
    crate::float_error::lemma_sum_error(a, d.negated());
    let first = a.minus(d);
    assert(first == a.plus(d.negated()));
    lemma_small_sum(a, d);
    crate::float_error::lemma_sum_error(first, g.negated());
    crate::float_error::lemma_sized_in_range(rate->units, 250);
    lemma_slack_errors(
        one as int,
        a->units as int,
        d->units as int,
        g->units as int,
        first.rank(),
        first.minus(g).rank(),
        rate->units as int,
        left as int,
        guard as int,
        packets as int,
    );
}

/// Seconds of a span that may be empty.
proof fn lemma_seconds_or_none(nanos: nat)
    requires
        nanos <= crate::time::MAX_NANOS,
    ensures
        crate::time::seconds_of(nanos) is Finite,
        !crate::time::seconds_of(nanos).is_negative(),
        crate::time::seconds_of(nanos)->units < pow2(2090),
        crate::float_error::near(
            crate::time::seconds_of(nanos)->units * 1_000_000_000,
            nanos * pow2(1074),
            5,
        ),
{
    lemma_pow2_pos(2090);
    if nanos == 0 {
        crate::bbr::admission_laws::lemma_no_seconds();
        lemma_mul_basics(pow2(1074) as int);
    } else {
        crate::float_error::lemma_seconds_near(nanos);
        lemma_pow2_adds(1074, 70);
        lemma_pow2_strictly_increases(1074 + 70, 2090);
    }
}

/// A difference of two numbers of moderate size has a moderate size.
proof fn lemma_small_sum(a: Value, d: Value)
    requires
        a is Finite,
        d is Finite,
        !a.is_negative(),
        !d.is_negative(),
        a->units < pow2(2090),
        crate::float_error::sized(d->units, 316),
        a.minus(d) is Finite,
        ({
            let exact = a->units - d->units;
            let size = if exact >= 0 {
                exact
            } else {
                -exact
            };
            -size <= PARTS * (a.minus(d).rank() - exact) <= size
        }),
    ensures
        a.minus(d)->units < pow2(2096),
{
    lemma_pow2_adds(1074, 316);
    lemma_pow2_strictly_increases(1074 + 316, 2090);
    lemma_pow2_adds(6, 2090);
    lemma2_to64();
    lemma_pow2_pos(2090);
}

proof fn lemma_slack_errors(
    one: int,
    a: int,
    d: int,
    g: int,
    first: int,
    slack: int,
    rate: int,
    left: int,
    guard: int,
    packets: int,
)
    requires
        one > 0,
        rate > 0,
        a >= 0,
        d >= 0,
        g >= 0,
        left >= 0,
        guard >= 0,
        packets >= 0,
        -(a + d) <= PARTS * (first - (a - d)) <= a + d,
        ({
            let exact = first - g;
            let size = if exact >= 0 {
                exact
            } else {
                -exact
            };
            -size <= PARTS * (slack - exact) <= size
        }),
        -(5 * (left * one)) <= PARTS * (a * 1_000_000_000 - left * one) <= 5 * (left * one),
        -(5 * (guard * one)) <= PARTS * (g * 1_000_000_000 - guard * one) <= 5 * (guard * one),
        -(3 * (packets * one * one)) <= PARTS * (d * rate - packets * one * one) <= 3 * (packets
            * one * one),
    ensures
        ({
            let exact = (left - guard) * one * rate - 1_000_000_000 * packets * one * one;
            let size = (left + guard) * one * rate + 1_000_000_000 * packets * one * one;
            -(20 * size) <= PARTS * (slack * 1_000_000_000 * rate - exact) <= 20 * size
        }),
{
    let parts = PARTS as int;
    let sum = a + d + g;
    assert(-(3 * sum) <= parts * (slack - (a - d - g)) <= 3 * sum);
    // In nanoseconds, times the rate.
    let scale = 1_000_000_000 * rate;
    assert(scale > 0);
    let (p, q, r) = (a * scale, d * scale, g * scale);
    assert(-(3 * (p + q + r)) <= parts * (slack * scale - (p - q - r)) <= 3 * (p + q + r)) by (nonlinear_arith)
        requires
            p == a * scale,
            q == d * scale,
            r == g * scale,
            sum == a + d + g,
            -(3 * sum) <= parts * (slack - (a - d - g)) <= 3 * sum,
            scale > 0,
    ;
    let (l, h, n) = (
        left * one * rate,
        guard * one * rate,
        1_000_000_000 * packets * one * one,
    );
    assert(-(5 * l) <= parts * (p - l) <= 5 * l) by (nonlinear_arith)
        requires
            p == a * scale,
            scale == 1_000_000_000 * rate,
            l == left * one * rate,
            -(5 * (left * one)) <= parts * (a * 1_000_000_000 - left * one) <= 5 * (left * one),
            rate > 0,
    ;
    assert(-(5 * h) <= parts * (r - h) <= 5 * h) by (nonlinear_arith)
        requires
            r == g * scale,
            scale == 1_000_000_000 * rate,
            h == guard * one * rate,
            -(5 * (guard * one)) <= parts * (g * 1_000_000_000 - guard * one) <= 5 * (guard * one),
            rate > 0,
    ;
    assert(-(3 * n) <= parts * (q - n) <= 3 * n) by (nonlinear_arith)
        requires
            q == d * scale,
            scale == 1_000_000_000 * rate,
            n == 1_000_000_000 * packets * one * one,
            -(3 * (packets * one * one)) <= parts * (d * rate - packets * one * one) <= 3 * (
            packets * one * one),
    ;
    assert(l >= 0 && h >= 0 && n >= 0) by (nonlinear_arith)
        requires
            l == left * one * rate,
            h == guard * one * rate,
            n == 1_000_000_000 * packets * one * one,
            left >= 0,
            guard >= 0,
            packets >= 0,
            one > 0,
            rate > 0,
    ;
    assert((left - guard) * one * rate == l - h && (left + guard) * one * rate == l + h)
        by (nonlinear_arith)
        requires
            l == left * one * rate,
            h == guard * one * rate,
    ;
    assert(slack * 1_000_000_000 * rate == slack * scale) by (nonlinear_arith)
        requires
            scale == 1_000_000_000 * rate,
    ;
}

/// An object without slack is the most urgent. The others fall in bands by the milliseconds that
/// are left: below 50, 100, 250, 500 and 1000, and above. Without the scheduler all are alike.
pub proof fn law_priority_follows_the_milliseconds(
    s: BbrState,
    object_size: u64,
    deadline: Instant,
    now: Instant,
    rtt: Duration,
    bandwidth: u64,
)
    requires
        s.slack(object_size, deadline, now, rtt, bandwidth) is Finite,
        s.slack(object_size, deadline, now, rtt, bandwidth)->units < pow2(2080),
    ensures
        ({
            let on = s.config.deadline is Some && s.config.deadline->0.enabled;
            let ms = 1000 * s.slack(object_size, deadline, now, rtt, bandwidth).rank();
            let band = s.object_priority(object_size, deadline, now, rtt, bandwidth);
            let one = pow2(1074) as int;
            let (low, high) = (PARTS - 2, PARTS + 2);
            &&& !on ==> band == 0
            &&& on && ms <= 0 ==> band == 0
            &&& on && ms > 0 ==> band >= 8
            &&& on && PARTS * ms < low * (50 * one) ==> band <= 8
            &&& on && PARTS * ms > high * (50 * one) ==> band >= 16
            &&& on && PARTS * ms < low * (100 * one) ==> band <= 16
            &&& on && PARTS * ms > high * (100 * one) ==> band >= 32
            &&& on && PARTS * ms < low * (250 * one) ==> band <= 32
            &&& on && PARTS * ms > high * (250 * one) ==> band >= 64
            &&& on && PARTS * ms < low * (500 * one) ==> band <= 64
            &&& on && PARTS * ms > high * (500 * one) ==> band >= 96
            &&& on && PARTS * ms < low * (1000 * one) ==> band <= 96
            &&& on && PARTS * ms > high * (1000 * one) ==> band == 127
        }),
{
    let one = pow2(1074);
    let slack = s.slack(object_size, deadline, now, rtt, bandwidth);
    let thousand = Value::of_integer(1000);
    let u = slack->units;
    lemma_pow2_pos(1074);
    lemma2_to64();
    lemma_pow2_adds(18, 2080);
    lemma_pow2_pos(2080);
    crate::float64::lemma_integer_exact(1000);
    assert(u * (1000 * one) == (1000 * u) * one) by (nonlinear_arith);
    crate::rounding::lemma_round_scaled(1000 * u, 1, one);
    crate::float_error::lemma_round_whole_near(1000 * u);
    let r = crate::rounding::round_units(1000 * u, 1);
    if u > 0 {
        crate::float_order::lemma_round_positive(1000 * u);
    }
    let scaled = slack.times(thousand);
    assert(scaled == (Value::Finite { negative: slack.is_negative(), units: r }));
    crate::priority::law_priority_bands(scaled);
}

} // verus!
