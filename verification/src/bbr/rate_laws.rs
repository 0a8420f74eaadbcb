//! What pacing rate and windows come to, in numbers.

use crate::bbr::config::BbrConfig;
use crate::bbr::gain::Gain;
use crate::bbr::state::{BbrState, Mode, RecoveryState};
use crate::float64::Value;
use crate::float_error::PARTS;
use vstd::arithmetic::div_mod::*;
use vstd::arithmetic::mul::*;
use vstd::arithmetic::power2::*;
use vstd::prelude::*;

verus! {

/// A gain as a fraction: 2.885 and its inverse in single precision, five quarters, three
/// quarters, one and two.
pub open spec fn gain_parts(gain: Gain) -> (nat, nat) {
    match gain {
        Gain::High => (12_100_567, 4_194_304),
        Gain::Drain => (2_907_663, 8_388_608),
        Gain::Up => (5, 4),
        Gain::Down => (3, 4),
        Gain::Unit => (1, 1),
        Gain::Double => (2, 1),
    }
}

/// `whole` is the whole part of `num / den`, up to an error of `k` parts in `2^50`.
pub open spec fn is_quotient(whole: nat, num: nat, den: nat, k: nat) -> bool {
    &&& PARTS * (whole * den) <= (PARTS + k) * num
    &&& (PARTS - k) * num < PARTS * ((whole + 1) * den)
}

proof fn lemma_gain_near(gain: Gain)
    ensures
        gain.value() is Finite,
        !gain.value().is_negative(),
        crate::float_error::near(
            gain.value()->units * gain_parts(gain).1,
            gain_parts(gain).0 * pow2(1074),
            1,
        ),
        crate::float_error::sized(gain.value()->units, 33),
        gain_parts(gain).1 > 0,
        gain_parts(gain).0 > 0,
{
    crate::float_error::lemma_ratio_near(gain_parts(gain).0, gain_parts(gain).1);
}

/// From units to the whole part.
proof fn lemma_whole_part(v: Value, num: nat, den: nat, k: nat)
    requires
        v is Finite,
        !v.is_negative(),
        den > 0,
        k < PARTS,
        crate::float_error::near(v->units * den, num * pow2(1074), k),
    ensures
        PARTS * (v.truncated() * den) <= (PARTS + k) * num,
        v->units < pow2(64) * pow2(1074) ==> is_quotient(v.truncated() as nat, num, den, k),
{
    let one = pow2(1074);
    let t = v.truncated() as nat;
    let u = v->units;
    lemma_pow2_pos(1074);
    lemma2_to64();
    crate::float_error::lemma_truncated(v);
    assert(t * one <= u) by {
        if u >= pow2(64) * one {
            assert(t * one <= pow2(64) * one) by (nonlinear_arith)
                requires
                    t <= pow2(64),
            ;
        }
    }
    assert(PARTS * (t * den) <= (PARTS + k) * num) by (nonlinear_arith)
        requires
            t * one <= u,
            PARTS * (u * den) <= PARTS * (num * one) + k * (num * one),
            one > 0,
    ;
    if u < pow2(64) * one {
        assert((PARTS - k) * num < PARTS * ((t + 1) * den)) by (nonlinear_arith)
            requires
                u < (t + 1) * one,
                PARTS * (num * one) <= PARTS * (u * den) + k * (num * one),
                one > 0,
                den > 0,
        ;
    }
}

/// A product with a gain, and how far it is off.
proof fn lemma_gain_product(n: nat, gain: Gain)
    requires
        0 < n <= u64::MAX,
    ensures
        ({
            let v = Value::of_integer(n).times(gain.value());
            let (num, den) = gain_parts(gain);
            &&& v == gain.value().times(Value::of_integer(n))
            &&& v is Finite
            &&& !v.is_negative()
            &&& crate::float_error::near(v->units * den, (num * n) * pow2(1074), 5)
            &&& crate::float_error::sized(v->units, 99)
        }),
{
    let one = pow2(1074);
    let (num, den) = gain_parts(gain);
    let g = gain.value()->units;
    let i = Value::of_integer(n)->units;
    let v = Value::of_integer(n).times(gain.value());
    lemma_pow2_pos(1074);
    crate::float_error::lemma_integer_near(n);
    lemma_gain_near(gain);
    crate::float_error::lemma_times_near(Value::of_integer(n), gain.value(), 65, 33);
    lemma_mul_is_commutative(g as int, i as int);
    // The factors.
    crate::float_error::lemma_near_scaled(i, n * one, g * den, 1);
    crate::float_error::lemma_near_scaled(g * den, num * one, n * one, 1);
    assert((n * one) * (g * den) == (g * den) * (n * one)) by (nonlinear_arith);
    crate::float_error::lemma_near_chain(
        i * (g * den),
        (g * den) * (n * one),
        (num * one) * (n * one),
        1,
        1,
    );
    // The product.
    crate::float_error::lemma_near_scaled(v->units * one, i * g, den, 1);
    assert((i * g) * den == i * (g * den)) by (nonlinear_arith);
    crate::float_error::lemma_near_chain(
        (v->units * one) * den,
        i * (g * den),
        (num * one) * (n * one),
        1,
        3,
    );
    assert((v->units * one) * den == (v->units * den) * one) by (nonlinear_arith);
    assert((num * one) * (n * one) == ((num * n) * one) * one) by (nonlinear_arith);
    crate::float_error::lemma_near_unscaled(v->units * den, (num * n) * one, one, 5);
}

/// A bandwidth times a gain.
proof fn lemma_target_rate(s: BbrState, bandwidth: u64)
    requires
        bandwidth > 0,
    ensures
        ({
            let rate = s.target_rate(bandwidth);
            let (num, den) = gain_parts(s.pacing_gain);
            &&& PARTS * (rate * den) <= (PARTS + 5) * (num * bandwidth)
            &&& bandwidth < 0x1000_0000_0000_0000 ==> is_quotient(
                rate as nat,
                num * bandwidth as nat,
                den,
                5,
            )
        }),
{
    let n = bandwidth as nat;
    let (num, den) = gain_parts(s.pacing_gain);
    let v = Value::of_integer(n).times(s.pacing_gain.value());
    lemma_gain_product(n, s.pacing_gain);
    lemma_whole_part(v, num * n, den, 5);
    if bandwidth < 0x1000_0000_0000_0000 {
        lemma2_to64();
        lemma_pow2_pos(1074);
        let one = pow2(1074);
        assert(num <= 3 * den);
        assert(v->units < pow2(64) * one) by (nonlinear_arith)
            requires
                PARTS * (v->units * den) <= PARTS * ((num * n) * one) + 5 * ((num * n) * one),
                num <= 3 * den,
                den > 0,
                n < 0x1000_0000_0000_0000,
                PARTS == 0x4_0000_0000_0000,
                pow2(64) == 0x1_0000_0000_0000_0000,
                one > 0,
        ;
    }
}

/// With a gain of quarters the product is exact, as long as it has at most 53 bits.
proof fn lemma_exact_rate(s: BbrState, bandwidth: u64, quarters: nat)
    requires
        bandwidth < 0x4_0000_0000_0000,
        0 < quarters <= 8,
        s.pacing_gain.value() == Value::of_ratio(quarters, 4),
    ensures
        s.target_rate(bandwidth) == quarters * bandwidth / 4,
{
    let one = pow2(1074);
    let quarter = pow2(1072);
    let n = bandwidth as nat;
    lemma2_to64();
    lemma2_to64_rest();
    lemma_pow2_pos(1074);
    lemma_pow2_pos(1072);
    lemma_pow2_adds(2, 1072);
    lemma_pow2_adds(53, 1074);
    lemma_pow2_strictly_increases(53 + 1074, 2098);
    crate::float64::lemma_integer_exact(n);
    // The gain.
    assert(one == 4 * quarter);
    assert(quarters * one == (quarters * quarter) * 4) by (nonlinear_arith)
        requires
            one == 4 * quarter,
    ;
    crate::rounding::lemma_round_scaled(quarters * quarter, 1, 4);
    crate::float64::lemma_integer_exact_from(quarters, 1072);
    assert(s.pacing_gain.value() == (Value::Finite {
        negative: false,
        units: quarters * quarter,
    })) by {
        assert(quarters * quarter <= 8 * quarter) by (nonlinear_arith)
            requires
                quarters <= 8,
        ;
    }
    // The product.
    let m = quarters * n;
    assert((n * one) * (quarters * quarter) == (m * quarter) * one) by (nonlinear_arith)
        requires
            m == quarters * n,
    ;
    assert(m <= 8 * n) by (nonlinear_arith)
        requires
            m == quarters * n,
            quarters <= 8,
    ;
    crate::rounding::lemma_round_scaled(m * quarter, 1, one);
    crate::float64::lemma_integer_exact_from(m, 1072);
    assert(m * quarter < pow2(2098)) by (nonlinear_arith)
        requires
            m < 0x20_0000_0000_0000,
            quarter <= one,
            0x20_0000_0000_0000 * one < pow2(2098),
    ;
    // The whole part.
    lemma_div_denominator((m * quarter) as int, quarter as int, 4);
    lemma_div_multiples_vanish(m as int, quarter as int);
    lemma_mul_is_commutative(m as int, quarter as int);
    assert(quarter * 4 == one);
    assert((m * quarter) / one == m / 4);
}

/// No minimum is configured, or it gives way.
pub open spec fn no_floor(s: BbrState) -> bool {
    s.config.min_pacing_bps == 0 || s.min_rtt.total() == 0 || s.loss_state.lost_bytes != 0
        || s.recovery_state != RecoveryState::NotInRecovery
}

/// At full bandwidth the pacing rate is the bandwidth times the gain of the phase, in every mode.
/// For the gains of the cycle it is exact: five quarters, three quarters, one or two times the
/// bandwidth, without the fraction of a byte.
pub proof fn law_pacing_follows_the_gain(s: BbrState, bandwidth: u64, initial_rate: u64)
    requires
        s.config.fixed_pacing_bps is None,
        s.is_at_full_bandwidth,
        bandwidth > 0,
        no_floor(s),
    ensures
        ({
            let rate = s.paced(bandwidth, initial_rate).pacing_rate;
            let (num, den) = gain_parts(s.pacing_gain);
            &&& PARTS * (rate * den) <= (PARTS + 5) * (num * bandwidth)
            &&& bandwidth < 0x1000_0000_0000_0000 ==> is_quotient(
                rate as nat,
                num * bandwidth as nat,
                den,
                5,
            )
            &&& bandwidth < 0x4_0000_0000_0000 ==> match s.pacing_gain {
                Gain::Up => 4 * rate <= 5 * bandwidth < 4 * rate + 4,
                Gain::Down => 4 * rate <= 3 * bandwidth < 4 * rate + 4,
                Gain::Unit => rate == bandwidth,
                Gain::Double => rate == 2 * bandwidth,
                _ => true,
            }
            &&& s.paced(bandwidth, initial_rate) == (BbrState { pacing_rate: rate, ..s })
        }),
{
    lemma_target_rate(s, bandwidth);
    lemma_exact_gain_rates(s, bandwidth);
}

proof fn lemma_exact_gain_rates(s: BbrState, bandwidth: u64)
    ensures
        bandwidth < 0x4_0000_0000_0000 ==> match s.pacing_gain {
            Gain::Up => s.target_rate(bandwidth) == 5 * bandwidth / 4,
            Gain::Down => s.target_rate(bandwidth) == 3 * bandwidth / 4,
            Gain::Unit => s.target_rate(bandwidth) == bandwidth,
            Gain::Double => s.target_rate(bandwidth) == 2 * bandwidth,
            _ => true,
        },
{
    if bandwidth < 0x4_0000_0000_0000 {
        let one = pow2(1074);
        assert(1 * one * 4 == 4 * one && 2 * one * 4 == 8 * one);
        match s.pacing_gain {
            Gain::Up => lemma_exact_rate(s, bandwidth, 5),
            Gain::Down => lemma_exact_rate(s, bandwidth, 3),
            Gain::Unit => {
                crate::rounding::lemma_round_scaled(1 * one, 1, 4);
                lemma_exact_rate(s, bandwidth, 4);
            },
            Gain::Double => {
                crate::rounding::lemma_round_scaled(2 * one, 1, 4);
                lemma_exact_rate(s, bandwidth, 8);
            },
            _ => {},
        }
    }
}

/// Before the bandwidth is known, the first rate is the given one. After that the rate is the
/// larger of what it was and of the bandwidth times the gain.
pub proof fn law_pacing_in_the_startup(s: BbrState, bandwidth: u64, initial_rate: u64)
    requires
        s.config.fixed_pacing_bps is None,
        !s.is_at_full_bandwidth,
        bandwidth > 0,
        no_floor(s),
    ensures
        ({
            let rate = s.paced(bandwidth, initial_rate).pacing_rate;
            let (num, den) = gain_parts(s.pacing_gain);
            if s.pacing_rate == 0 && s.min_rtt.total() > 0 {
                rate == initial_rate
            } else {
                &&& rate >= s.pacing_rate
                &&& rate == s.pacing_rate || PARTS * (rate * den) <= (PARTS + 5) * (num
                    * bandwidth)
                &&& bandwidth < 0x1000_0000_0000_0000 ==> (PARTS - 5) * (num * bandwidth) < PARTS
                    * ((rate + 1) * den)
                &&& bandwidth < 0x4_0000_0000_0000 && s.pacing_gain == Gain::Unit ==> rate
                    >= bandwidth
            }
        }),
        s.paced(bandwidth, initial_rate) == (BbrState {
            pacing_rate: s.paced(bandwidth, initial_rate).pacing_rate,
            ..s
        }),
{
    lemma_target_rate(s, bandwidth);
    lemma_exact_gain_rates(s, bandwidth);
    let (num, den) = gain_parts(s.pacing_gain);
    let rate = s.paced(bandwidth, initial_rate).pacing_rate;
    let target = s.target_rate(bandwidth);
    if target <= rate {
        lemma_mul_inequality((target + 1) as int, (rate + 1) as int, den as int);
    }
}

/// Without an estimate of the bandwidth the pacing stays as it is.
pub proof fn law_pacing_waits_for_bandwidth(s: BbrState, initial_rate: u64)
    requires
        s.config.fixed_pacing_bps is None,
    ensures
        s.paced(0, initial_rate) == s,
{
}

/// The bits per second at which a window is sent once per round trip, or one.
pub open spec fn bits_per_round_trip(window: u64, rtt_nanos: nat) -> nat {
    let micros = if rtt_nanos >= 1000 {
        rtt_nanos / 1000
    } else {
        1
    };
    let bits = window as nat * 8_000_000 / micros;
    if bits >= 1 {
        bits
    } else {
        1
    }
}

/// A configured minimum changes the rate only where it would be too small, and then by no more
/// than is needed: to the minimum, or to what the window carries where that is less.
pub proof fn law_minimum_raises_no_more_than_needed(
    s: BbrState,
    bandwidth: u64,
    initial_rate: u64,
)
    requires
        s.config.fixed_pacing_bps is None,
        bandwidth > 0,
        !no_floor(s),
    ensures
        ({
            let free = BbrState { config: BbrConfig { min_pacing_bps: 0, ..s.config }, ..s };
            let usual = free.paced(bandwidth, initial_rate).pacing_rate;
            let rate = s.paced(bandwidth, initial_rate).pacing_rate;
            let carried = bits_per_round_trip(s.window_view(bandwidth), s.min_rtt.total());
            &&& rate >= usual
            &&& 8 * rate >= s.config.min_pacing_bps || 8 * rate >= carried
            &&& rate > usual ==> 8 * (rate - 1) < s.config.min_pacing_bps && 8 * (rate - 1)
                < carried
        }),
{
    let free = BbrState { config: BbrConfig { min_pacing_bps: 0, ..s.config }, ..s };
    assert(free.target_rate(bandwidth) == s.target_rate(bandwidth));
    assert(free.first_rate_due(bandwidth) == s.first_rate_due(bandwidth));
}

/// A window is the product of bandwidth and delay, times the gain, in whole bytes. It is no less
/// than the least window, and the initial window where the product is less than a byte.
pub proof fn law_target_follows_the_product(s: BbrState, gain: Gain, bandwidth: u64)
    requires
        s.min_rtt.total() / 1000 * bandwidth as nat <= u64::MAX,
        s.min_rtt.total() / 1000 <= u64::MAX,
    ensures
        ({
            let window = s.target_cwnd(gain, bandwidth);
            let num = gain_parts(gain).0 * (s.min_rtt.total() / 1000 * bandwidth as nat);
            let den = gain_parts(gain).1 * 1_000_000;
            &&& (PARTS - 11) * num >= PARTS * den ==> {
                &&& window >= s.min_cwnd
                &&& is_quotient(window as nat, num, den, 11) || (window == s.min_cwnd && (PARTS
                    - 11) * num < PARTS * ((window + 1) * den))
            }
            &&& (PARTS + 11) * num < PARTS * den ==> window == s.init_cwnd
            &&& window == s.init_cwnd || window == s.min_cwnd || (window > s.min_cwnd && PARTS * (
            window * den) <= (PARTS + 11) * num)
        }),
{
    let micros = s.min_rtt.total() / 1000;
    let bdp = micros * bandwidth as nat;
    lemma_small_mod(micros, 0x1_0000_0000_0000_0000);
    assert(s.bdp(bandwidth) == bdp);
    let (gn, gd) = gain_parts(gain);
    let num = gn * bdp;
    let den = gd * 1_000_000;
    if bdp == 0 {
        assert(bandwidth == 0 || micros == 0) by (nonlinear_arith)
            requires
                micros * bandwidth == 0,
        ;
        crate::bbr::laws::law_no_estimate_means_initial_window(s, gain, bandwidth);
        lemma_mul_basics(gn as int);
    } else {
        let one = pow2(1074);
        let million = Value::of_integer(1_000_000);
        lemma_pow2_pos(1074);
        lemma2_to64();
        lemma_gain_product(bdp, gain);
        let v = gain.value().times(Value::of_integer(bdp));
        crate::float64::lemma_integer_exact(1_000_000);
        assert(crate::float_error::sized(million->units, 20)) by (nonlinear_arith)
            requires
                million->units == 1_000_000 * one,
                pow2(20) == 0x10_0000,
                one > 0,
                one == pow2(1074),
        ;
        crate::float_error::lemma_over_near(v, million, 99, 20);
        let q = v.over(million);
        assert((q->units * 1_000_000) * one == q->units * (1_000_000 * one)) by (nonlinear_arith);
        crate::float_error::lemma_near_unscaled(q->units * 1_000_000, v->units, one, 1);
        crate::float_error::lemma_near_scaled(q->units * 1_000_000, v->units, gd, 1);
        crate::float_error::lemma_near_chain(
            (q->units * 1_000_000) * gd,
            v->units * gd,
            num * one,
            1,
            5,
        );
        assert((q->units * 1_000_000) * gd == q->units * den) by (nonlinear_arith)
            requires
                den == gd * 1_000_000,
        ;
        crate::float_error::lemma_near_weaker(q->units * den, num * one, 7, 11);
        lemma_whole_part(q, num, den, 11);
        assert(q->units < pow2(64) * one) by (nonlinear_arith)
            requires
                PARTS * (q->units * den) <= PARTS * (num * one) + 11 * (num * one),
                num == gn * bdp,
                den == gd * 1_000_000,
                gn <= 3 * gd,
                gd > 0,
                bdp < 0x1_0000_0000_0000_0000,
                PARTS == 0x4_0000_0000_0000,
                pow2(64) == 0x1_0000_0000_0000_0000,
                one > 0,
        ;
        let t = q.truncated() as nat;
        assert(t == s.scaled_bdp(gain, bandwidth));
        if t == 0 {
            assert((t + 1) * den == den) by (nonlinear_arith)
                requires
                    t == 0,
            ;
        } else {
            assert(t * den >= den) by (nonlinear_arith)
                requires
                    t >= 1,
            ;
            if t < s.min_cwnd {
                lemma_mul_inequality((t + 1) as int, (s.min_cwnd + 1) as int, den as int);
            }
        }
    }
}

/// With fixed pacing the window is what the rate puts on the path in one round trip, in whole
/// bytes, and no less than the least window.
pub proof fn law_fixed_window_fills_the_path(s: BbrState, bps: u64)
    requires
        0 < bps,
        s.min_rtt.total() <= crate::time::MAX_NANOS,
        bps as nat * s.min_rtt.total() < 0x1000_0000_0000_0000 * 8_000_000_000,
    ensures
        ({
            let window = s.fixed_cwnd(bps);
            let num = bps as nat * s.min_rtt.total();
            &&& window >= s.min_cwnd
            &&& s.min_rtt.total() == 0 ==> window == s.min_cwnd
            &&& s.min_rtt.total() > 0 ==> is_quotient(window as nat, num, 8_000_000_000, 13) || (
            window == s.min_cwnd && (PARTS - 13) * num < PARTS * ((window + 1) * 8_000_000_000))
        }),
{
    let nanos = s.min_rtt.total();
    if nanos > 0 {
        let one = pow2(1074);
        let n = bps as nat;
        let num = n * nanos;
        let b = Value::of_integer(n);
        let secs = crate::time::seconds_of(nanos);
        let eight = Value::of_integer(8);
        lemma_pow2_pos(1074);
        lemma2_to64();
        crate::float_error::lemma_integer_near(n);
        crate::float_error::lemma_seconds_near(nanos);
        crate::float64::lemma_integer_exact(8);
        assert(crate::float_error::sized(eight->units, 3)) by (nonlinear_arith)
            requires
                eight->units == 8 * one,
                pow2(3) == 8,
                one > 0,
                one == pow2(1074),
        ;
        crate::float_error::lemma_times_near(b, secs, 65, 70);
        let v = b.times(secs);
        crate::float_error::lemma_over_near(v, eight, 136, 3);
        let q = v.over(eight);
        let (x, y) = (b->units, secs->units);
        let billion: nat = 1_000_000_000;
        // The factors.
        crate::float_error::lemma_near_scaled(x, n * one, y * billion, 1);
        crate::float_error::lemma_near_scaled(y * billion, nanos * one, n * one, 5);
        assert((n * one) * (y * billion) == (y * billion) * (n * one)) by (nonlinear_arith);
        crate::float_error::lemma_near_chain(
            x * (y * billion),
            (y * billion) * (n * one),
            (nanos * one) * (n * one),
            1,
            5,
        );
        // The product.
        crate::float_error::lemma_near_scaled(v->units * one, x * y, billion, 1);
        assert((x * y) * billion == x * (y * billion)) by (nonlinear_arith);
        crate::float_error::lemma_near_chain(
            (v->units * one) * billion,
            x * (y * billion),
            (nanos * one) * (n * one),
            1,
            7,
        );
        assert((v->units * one) * billion == (v->units * billion) * one) by (nonlinear_arith);
        assert((nanos * one) * (n * one) == (num * one) * one) by (nonlinear_arith)
            requires
                num == n * nanos,
        ;
        crate::float_error::lemma_near_unscaled(v->units * billion, num * one, one, 9);
        // The bytes.
        assert((q->units * 8) * one == q->units * (8 * one)) by (nonlinear_arith);
        crate::float_error::lemma_near_unscaled(q->units * 8, v->units, one, 1);
        crate::float_error::lemma_near_scaled(q->units * 8, v->units, billion, 1);
        crate::float_error::lemma_near_chain(
            (q->units * 8) * billion,
            v->units * billion,
            num * one,
            1,
            9,
        );
        assert((q->units * 8) * billion == q->units * 8_000_000_000) by (nonlinear_arith)
            requires
                billion == 1_000_000_000,
        ;
        crate::float_error::lemma_near_weaker(q->units * 8_000_000_000, num * one, 11, 13);
        lemma_whole_part(q, num, 8_000_000_000, 13);
        assert(q->units < pow2(64) * one) by (nonlinear_arith)
            requires
                PARTS * (q->units * 8_000_000_000) <= PARTS * (num * one) + 13 * (num * one),
                num < 0x1000_0000_0000_0000 * 8_000_000_000,
                PARTS == 0x4_0000_0000_0000,
                pow2(64) == 0x1_0000_0000_0000_0000,
                one > 0,
        ;
        let t = q.truncated() as nat;
        if t < s.min_cwnd {
            lemma_mul_inequality((t + 1) as int, (s.min_cwnd + 1) as int, 8_000_000_000);
        }
    }
}

/// The window that an acknowledgement may grow to: the target, and what is needed because
/// acknowledgements arrive in bursts.
pub open spec fn goal(s: BbrState, excess_acked: u64, max_ack_height: u64, bandwidth: u64) -> int {
    s.target_cwnd(s.cwnd_gain, bandwidth) + if s.is_at_full_bandwidth {
        max_ack_height
    } else {
        excess_acked
    }
}

/// Once the bandwidth is known, the window grows by exactly what was acknowledged, until it
/// reaches its goal, and stands at the goal from there on.
pub proof fn law_window_grows_by_what_was_acknowledged(
    s: BbrState,
    bytes_acked: u64,
    excess_acked: u64,
    max_ack_height: u64,
    bandwidth: u64,
)
    requires
        s.cwnd_fits(bytes_acked, excess_acked, max_ack_height, bandwidth),
        s.mode != Mode::ProbeRtt,
        s.config.fixed_pacing_bps is None,
        s.is_at_full_bandwidth,
    ensures
        ({
            let after = s.cwnd_updated(bytes_acked, excess_acked, max_ack_height, bandwidth);
            let goal = goal(s, excess_acked, max_ack_height, bandwidth);
            &&& after == (BbrState { cwnd: after.cwnd, ..s })
            &&& s.min_cwnd <= s.cwnd + bytes_acked <= goal ==> after.cwnd == s.cwnd + bytes_acked
            &&& s.cwnd + bytes_acked > goal && goal >= s.min_cwnd ==> after.cwnd == goal
            &&& after.cwnd >= s.min_cwnd
            &&& after.cwnd > s.min_cwnd ==> after.cwnd <= goal && after.cwnd <= s.cwnd
                + bytes_acked
        }),
{
}

/// Before the bandwidth is known, the window grows by exactly what was acknowledged, without a
/// goal, as long as a goal of three bytes or a first window's worth of data is outstanding.
pub proof fn law_window_grows_in_the_startup(
    s: BbrState,
    bytes_acked: u64,
    excess_acked: u64,
    max_ack_height: u64,
    bandwidth: u64,
)
    requires
        s.cwnd_fits(bytes_acked, excess_acked, max_ack_height, bandwidth),
        s.mode != Mode::ProbeRtt,
        s.config.fixed_pacing_bps is None,
        !s.is_at_full_bandwidth,
    ensures
        ({
            let after = s.cwnd_updated(bytes_acked, excess_acked, max_ack_height, bandwidth);
            &&& after == (BbrState { cwnd: after.cwnd, ..s })
            &&& (goal(s, excess_acked, max_ack_height, bandwidth) >= 3 || s.acked_bytes
                < s.init_cwnd) && s.cwnd + bytes_acked >= s.min_cwnd ==> after.cwnd == s.cwnd
                + bytes_acked
            &&& after.cwnd >= s.min_cwnd
            &&& after.cwnd >= s.cwnd
            &&& after.cwnd > s.min_cwnd ==> after.cwnd <= s.cwnd + bytes_acked
        }),
{
    let aim = goal(s, excess_acked, max_ack_height, bandwidth) as nat;
    if aim >= 3 {
        let d = gain_parts(s.cwnd_gain).1;
        lemma_mul_inequality(3, aim as int, d as int);
        assert(s.cwnd_gain.below(aim));
    }
}

/// While the round-trip time is measured the stored window waits; with fixed pacing it is the one
/// that fills the path.
pub proof fn law_window_otherwise(
    s: BbrState,
    bytes_acked: u64,
    excess_acked: u64,
    max_ack_height: u64,
    bandwidth: u64,
)
    ensures
        ({
            let after = s.cwnd_updated(bytes_acked, excess_acked, max_ack_height, bandwidth);
            &&& s.mode == Mode::ProbeRtt ==> after == s
            &&& s.mode != Mode::ProbeRtt && s.config.fixed_pacing_bps is Some ==> after == (
            BbrState { cwnd: s.fixed_cwnd(s.config.fixed_pacing_bps->0), ..s })
        }),
{
}

/// The state after so many acknowledgements of the same size.
pub open spec fn after_acks(
    s: BbrState,
    bytes_acked: u64,
    max_ack_height: u64,
    bandwidth: u64,
    times: nat,
) -> BbrState
    decreases times,
{
    if times == 0 {
        s
    } else {
        after_acks(s, bytes_acked, max_ack_height, bandwidth, (times - 1) as nat).cwnd_updated(
            bytes_acked,
            0,
            max_ack_height,
            bandwidth,
        )
    }
}

/// Repeated acknowledgements bring the window to its goal, byte by byte.
pub proof fn law_window_reaches_its_goal(
    s: BbrState,
    bytes_acked: u64,
    max_ack_height: u64,
    bandwidth: u64,
    times: nat,
)
    requires
        s.mode != Mode::ProbeRtt,
        s.config.fixed_pacing_bps is None,
        s.is_at_full_bandwidth,
        s.bdp_fits(bandwidth),
        s.min_cwnd <= s.cwnd <= goal(s, 0, max_ack_height, bandwidth),
        goal(s, 0, max_ack_height, bandwidth) + bytes_acked <= u64::MAX,
    ensures
        ({
            let after = after_acks(s, bytes_acked, max_ack_height, bandwidth, times);
            let goal = goal(s, 0, max_ack_height, bandwidth);
            let sum = s.cwnd + times * bytes_acked;
            &&& after == (BbrState { cwnd: after.cwnd, ..s })
            &&& after.cwnd == if sum <= goal {
                sum
            } else {
                goal
            }
        }),
    decreases times,
{
    let goal = goal(s, 0, max_ack_height, bandwidth);
    if times > 0 {
        let before = after_acks(s, bytes_acked, max_ack_height, bandwidth, (times - 1) as nat);
        law_window_reaches_its_goal(
            s,
            bytes_acked,
            max_ack_height,
            bandwidth,
            (times - 1) as nat,
        );
        assert(times * bytes_acked == (times - 1) * bytes_acked + bytes_acked) by (nonlinear_arith);
        assert(before.target_cwnd(before.cwnd_gain, bandwidth) == s.target_cwnd(
            s.cwnd_gain,
            bandwidth,
        ));
        assert((times - 1) * bytes_acked >= 0) by (nonlinear_arith)
            requires
                times > 0,
        ;
        law_window_grows_by_what_was_acknowledged(
            before,
            bytes_acked,
            0,
            max_ack_height,
            bandwidth,
        );
    } else {
        lemma_mul_basics(bytes_acked as int);
    }
}

/// The window in force: while the round-trip time is measured three quarters of what the path
/// holds; with fixed pacing what fills the path; in recovery, but for the startup, the smaller of
/// window and recovery window; else the window.
pub proof fn law_window_in_force(s: BbrState, bandwidth: u64)
    ensures
        s.mode == Mode::ProbeRtt ==> s.window_view(bandwidth) == s.target_cwnd(
            Gain::Down,
            bandwidth,
        ),
        s.mode != Mode::ProbeRtt && s.config.fixed_pacing_bps is Some ==> s.window_view(bandwidth)
            == s.fixed_cwnd(s.config.fixed_pacing_bps->0),
        s.mode != Mode::ProbeRtt && s.config.fixed_pacing_bps is None ==> {
            let limited = s.recovery_state != RecoveryState::NotInRecovery && s.mode
                != Mode::Startup;
            &&& s.window_view(bandwidth) <= s.cwnd
            &&& limited ==> s.window_view(bandwidth) <= s.recovery_window
            &&& s.window_view(bandwidth) == s.cwnd || (limited && s.window_view(bandwidth)
                == s.recovery_window)
        },
{
}

/// A quarter more than at the last growth, without the fraction of a byte.
pub proof fn lemma_growth_target(s: BbrState)
    requires
        s.bw_at_last_round < 0x4_0000_0000_0000,
    ensures
        s.growth_target() == 5 * s.bw_at_last_round / 4,
{
    lemma_exact_rate(BbrState { pacing_gain: Gain::Up, ..s }, s.bw_at_last_round, 5);
}

} // verus!
