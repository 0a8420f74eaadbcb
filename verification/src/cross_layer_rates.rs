//! What the cross-layer estimate comes to, in numbers.

use crate::cross_layer::EstimatorView;
use crate::float64::Value;
use crate::float_error::PARTS;
use crate::rounding::WIDE;
use vstd::arithmetic::mul::*;
use vstd::arithmetic::power2::*;
use vstd::prelude::*;

verus! {

/// A finite number without a minus sign, of a size between `2^-k` and `2^k`.
pub open spec fn is_moderate(v: Value, k: nat) -> bool {
    v is Finite && !v.is_negative() && crate::float_error::sized(v->units, k)
}

/// A finite number without a minus sign, well inside the range.
pub open spec fn is_plain_number(v: Value) -> bool {
    v is Finite && !v.is_negative() && v->units < pow2(2080)
}

/// A finite number from zero to one.
pub open spec fn is_share(v: Value) -> bool {
    v is Finite && !v.is_negative() && v->units <= pow2(1074)
}

/// The factors of the raw capacity, one after the other.
proof fn lemma_capacity(e: Value, n: nat, w: Value, r: Value)
    requires
        0 < n <= u32::MAX,
        is_moderate(e, 100),
        is_moderate(w, 101),
        is_moderate(r, 100),
    ensures
        ({
            let c = e.times(Value::of_integer(n).times(w).times(r));
            let one = pow2(1074);
            &&& is_moderate(c, 336)
            &&& crate::float_error::near(
                c->units * one * one,
                e->units * (n * w->units * r->units),
                5,
            )
        }),
{
    let one = pow2(1074);
    let count = Value::of_integer(n);
    let (x, y, z) = (e->units, w->units, r->units);
    lemma2_to64();
    lemma_pow2_pos(1074);
    crate::float64::lemma_integer_exact(n);
    assert(crate::float_error::sized(count->units, 32)) by (nonlinear_arith)
        requires
            count->units == n * one,
            0 < n <= 0xffff_ffff,
            pow2(32) == 0x1_0000_0000,
            one > 0,
            one == pow2(1074),
    ;
    let first = count.times(w);
    let second = first.times(r);
    let c = e.times(second);
    crate::float_error::lemma_times_near(count, w, 32, 101);
    crate::float_error::lemma_times_near(first, r, 134, 100);
    crate::float_error::lemma_times_near(e, second, 100, 235);
    let (a, b) = (first->units, second->units);
    assert((n * one) * y == (n * y) * one) by (nonlinear_arith);
    crate::float_error::lemma_near_unscaled(a, n * y, one, 1);
    crate::float_error::lemma_near_scaled(a, n * y, z, 1);
    crate::float_error::lemma_near_chain(b * one, a * z, n * y * z, 1, 1);
    crate::float_error::lemma_near_scaled(b * one, n * y * z, x, 3);
    crate::float_error::lemma_near_scaled(c->units * one, x * b, one, 1);
    assert((b * one) * x == (x * b) * one && (n * y * z) * x == x * (n * y * z))
        by (nonlinear_arith);
    crate::float_error::lemma_near_chain(
        c->units * one * one,
        (x * b) * one,
        x * (n * y * z),
        1,
        3,
    );
}

/// The raw capacity is the spectral efficiency, times the number of PRBs, times the bandwidth of
/// a PRB, times the share of time for the downlink, within rounding.
pub proof fn law_raw_capacity_follows_its_factors(v: EstimatorView, efficiency: Value, prbs: u32)
    requires
        v.efficiency() == Some(efficiency),
        v.prb_count == Some(prbs),
        prbs > 0,
        is_moderate(efficiency, 100),
        is_moderate(v.prb_bw_hz, 101),
        is_moderate(v.tdd_dl_ratio, 100),
    ensures
        v.phy_capacity() is Some,
        is_moderate(v.phy_capacity()->0, 336),
        ({
            let capacity = v.phy_capacity()->0->units;
            let one = pow2(1074);
            let (e, w) = (efficiency->units, v.prb_bw_hz->units);
            &&& crate::float_error::near(
                capacity * one * one,
                e * (prbs as nat * w * v.tdd_dl_ratio->units),
                5,
            )
            &&& v.tdd_dl_ratio == Value::of_integer(1) ==> crate::float_error::near(
                capacity * one,
                e * (prbs as nat * w),
                5,
            )
        }),
{
    let one = pow2(1074);
    let (e, w) = (efficiency->units, v.prb_bw_hz->units);
    let capacity = v.phy_capacity()->0->units;
    lemma_capacity(efficiency, prbs as nat, v.prb_bw_hz, v.tdd_dl_ratio);
    if v.tdd_dl_ratio == Value::of_integer(1) {
        crate::float64::lemma_integer_exact(1);
        lemma_pow2_pos(1074);
        assert(e * (prbs as nat * w * (1 * one)) == (e * (prbs as nat * w)) * one)
            by (nonlinear_arith);
        crate::float_error::lemma_near_unscaled(capacity * one, e * (prbs as nat * w), one, 5);
    }
}

/// Without PRBs, or without time for the downlink, there is no capacity.
pub proof fn law_nothing_allocated_carries_nothing(v: EstimatorView, efficiency: Value, prbs: u32)
    requires
        v.efficiency() == Some(efficiency),
        v.prb_count == Some(prbs),
        is_moderate(efficiency, 100),
        is_moderate(v.prb_bw_hz, 101),
        is_share(v.tdd_dl_ratio),
        prbs == 0 || v.tdd_dl_ratio->units == 0,
    ensures
        v.phy_capacity() == Some((Value::Finite { negative: false, units: 0 })),
{
    let one = pow2(1074);
    let count = Value::of_integer(prbs as nat);
    lemma2_to64();
    lemma_pow2_pos(1074);
    lemma_pow2_pos(2098);
    crate::float64::lemma_integer_exact(prbs as nat);
    crate::float64::lemma_round_zero(one);
    lemma_mul_basics(one as int);
    lemma_mul_basics(v.prb_bw_hz->units as int);
    lemma_mul_basics(v.tdd_dl_ratio->units as int);
    lemma_mul_basics(efficiency->units as int);
    let first = count.times(v.prb_bw_hz);
    if prbs > 0 {
        assert(crate::float_error::sized(count->units, 32)) by (nonlinear_arith)
            requires
                count->units == prbs * one,
                0 < prbs <= 0xffff_ffff,
                pow2(32) == 0x1_0000_0000,
                one > 0,
                one == pow2(1074),
        ;
        crate::float_error::lemma_times_near(count, v.prb_bw_hz, 32, 101);
        lemma_mul_basics(first->units as int);
    }
}

/// There is a raw capacity if and only if an efficiency and an allocation were reported.
pub proof fn law_raw_capacity_needs_reports(v: EstimatorView)
    ensures
        v.phy_capacity() is Some <==> v.prb_count is Some && (v.spectral_efficiency is Some
            || v.sinr_efficiency is Some),
{
}

/// The efficiency of CQI or MCS comes first. What the SINR allows stands in for it, but never
/// with less than a tenth.
pub proof fn law_efficiency_in_force(v: EstimatorView)
    ensures
        v.spectral_efficiency is Some ==> v.efficiency() == v.spectral_efficiency,
        v.spectral_efficiency is None && v.sinr_efficiency is None ==> v.efficiency() is None,
        ({
            let allowed = v.sinr_efficiency->0;
            let used = v.efficiency()->0;
            let one = pow2(1074) as int;
            v.spectral_efficiency is None && v.sinr_efficiency is Some && allowed is Finite ==> {
                &&& v.efficiency() is Some
                &&& used is Finite
                &&& used.rank() >= allowed.rank()
                &&& PARTS * (10 * used.rank()) >= (PARTS - 1) * one
                &&& PARTS * (10 * allowed.rank()) > (PARTS + 1) * one ==> used == allowed
                &&& used != allowed ==> PARTS * (10 * used.rank()) <= (PARTS + 1) * one
            }
        }),
{
    crate::float_error::lemma_ratio_near(10, 100);
}

/// Twice the bandwidth of a PRB makes twice the raw capacity.
pub proof fn law_capacity_doubles_with_the_bandwidth(
    v: EstimatorView,
    w: EstimatorView,
    efficiency: Value,
    prbs: u32,
)
    requires
        v.efficiency() == Some(efficiency),
        w.efficiency() == Some(efficiency),
        v.prb_count == Some(prbs),
        w.prb_count == Some(prbs),
        prbs > 0,
        is_moderate(efficiency, 100),
        is_moderate(v.prb_bw_hz, 100),
        w.prb_bw_hz is Finite,
        !w.prb_bw_hz.is_negative(),
        w.prb_bw_hz->units == 2 * v.prb_bw_hz->units,
        is_moderate(v.tdd_dl_ratio, 100),
        w.tdd_dl_ratio == v.tdd_dl_ratio,
    ensures
        v.phy_capacity() is Some,
        w.phy_capacity() is Some,
        w.phy_capacity()->0 is Finite,
        w.phy_capacity()->0->units == 2 * v.phy_capacity()->0->units,
        v.phy_capacity()->0->units > 0,
{
    let one = pow2(1074);
    let n = prbs as nat;
    let count = Value::of_integer(n);
    lemma2_to64();
    lemma_pow2_pos(1074);
    crate::float64::lemma_integer_exact(n);
    assert(crate::float_error::sized(count->units, 32)) by (nonlinear_arith)
        requires
            count->units == n * one,
            0 < n <= 0xffff_ffff,
            pow2(32) == 0x1_0000_0000,
            one > 0,
            one == pow2(1074),
    ;
    let r = v.tdd_dl_ratio;
    let (a, b) = (count.times(v.prb_bw_hz), count.times(w.prb_bw_hz));
    crate::float_error::lemma_times_near(count, v.prb_bw_hz, 32, 100);
    crate::float_error::lemma_times_doubled(count, v.prb_bw_hz, w.prb_bw_hz, 32, 100);
    crate::float_error::lemma_times_near(a, r, 133, 100);
    crate::float_error::lemma_times_doubled(r, a, b, 100, 133);
    let (c, d) = (a.times(r), b.times(r));
    crate::float_error::lemma_times_near(efficiency, c, 100, 234);
    crate::float_error::lemma_times_doubled(efficiency, c, d, 100, 234);
    crate::float_error::lemma_sized_in_range(efficiency.times(c)->units, 335);
}

/// The first prediction, where neither losses nor a measured throughput were reported, is the raw
/// capacity itself; so it follows the factors, and doubles with the bandwidth of a PRB, as that
/// does.
pub proof fn law_first_prediction_is_the_raw_capacity(v: EstimatorView, efficiency: Value, prbs: u32)
    requires
        v.dirty,
        v.bler is None,
        v.throughput_bps is None,
        v.ewma_phy_bps is None,
        v.ewma_effective_bps is None,
        v.efficiency() == Some(efficiency),
        v.prb_count == Some(prbs),
        prbs > 0,
        is_moderate(efficiency, 100),
        is_moderate(v.prb_bw_hz, 101),
        is_moderate(v.tdd_dl_ratio, 100),
    ensures
        v.refreshed().ewma_effective_bps == v.phy_capacity(),
        v.refreshed().phy_cap_bps == v.phy_capacity(),
        v.refreshed().ewma_phy_bps == v.phy_capacity(),
        ({
            let predicted = v.refreshed().ewma_effective_bps;
            let one = pow2(1074);
            &&& predicted is Some
            &&& is_moderate(predicted->0, 336)
            &&& crate::float_error::near(
                predicted->0->units * one * one,
                efficiency->units * (prbs as nat * v.prb_bw_hz->units * v.tdd_dl_ratio->units),
                5,
            )
        }),
{
    law_raw_capacity_follows_its_factors(v, efficiency, prbs);
}

/// Twice the bandwidth of a PRB makes twice the first prediction.
pub proof fn law_first_prediction_doubles_with_the_bandwidth(
    v: EstimatorView,
    w: EstimatorView,
    efficiency: Value,
    prbs: u32,
)
    requires
        v.dirty,
        v.bler is None,
        v.throughput_bps is None,
        v.ewma_phy_bps is None,
        v.ewma_effective_bps is None,
        v.efficiency() == Some(efficiency),
        v.prb_count == Some(prbs),
        prbs > 0,
        is_moderate(efficiency, 100),
        is_moderate(v.prb_bw_hz, 100),
        is_moderate(v.tdd_dl_ratio, 100),
        w == (EstimatorView { prb_bw_hz: w.prb_bw_hz, ..v }),
        w.prb_bw_hz is Finite,
        !w.prb_bw_hz.is_negative(),
        w.prb_bw_hz->units == 2 * v.prb_bw_hz->units,
    ensures
        v.refreshed().ewma_effective_bps is Some,
        w.refreshed().ewma_effective_bps is Some,
        w.refreshed().ewma_effective_bps->0->units == 2
            * v.refreshed().ewma_effective_bps->0->units,
        v.refreshed().ewma_effective_bps->0->units > 0,
{
    law_capacity_doubles_with_the_bandwidth(v, w, efficiency, prbs);
}

/// A mix is the share times the new number and the rest times the old one, within five parts of
/// that and three units.
pub open spec fn is_mix(mix: Value, share: Value, new: Value, previous: Value) -> bool {
    let one = pow2(1074) as int;
    let exact = share->units * new->units + (one - share->units) * previous->units;
    let off = PARTS * (mix->units * one - exact);
    &&& mix is Finite
    &&& !mix.is_negative()
    &&& -(5 * exact + PARTS * (3 * one)) <= off <= 5 * exact + PARTS * (3 * one)
}

/// A mix weighs its two numbers by the share.
pub proof fn law_mix_weighs_by_the_share(share: Value, new: Value, previous: Value)
    requires
        is_share(share),
        is_plain_number(new),
        is_plain_number(previous),
    ensures
        is_mix(crate::cross_layer::mixed(share, new, previous), share, new, previous),
        crate::cross_layer::mixed(share, new, previous)->units < pow2(2098),
{
    let one = pow2(1074);
    lemma_pow2_pos(1074);
    lemma_pow2_strictly_increases(1074, 2096);
    lemma_pow2_strictly_increases(2080, 2090);
    crate::float64::lemma_integer_exact(1);
    lemma_mul_basics(one as int);
    let unit = Value::of_integer(1);
    let rest = unit.minus(share);
    let v = (one - share->units) as nat;
    crate::float_error::lemma_minus_near(unit, share);
    assert(rest->units <= 2 * one);
    let x = share.times(new);
    let y = rest.times(previous);
    crate::float_error::lemma_times_off(share, new);
    crate::float_error::lemma_times_off(rest, previous);
    crate::float_error::lemma_plus_near(x, y);
    lemma_mix_errors(
        one as int,
        share->units as int,
        new->units as int,
        previous->units as int,
        rest->units as int,
        x->units as int,
        y->units as int,
        x.plus(y)->units as int,
    );
    lemma_pow2_unfold(2097);
    lemma_pow2_unfold(2098);
}

proof fn lemma_mix_errors(one: int, w: int, p: int, d: int, u: int, x: int, y: int, s: int)
    requires
        0 <= w <= one,
        one > 0,
        p >= 0,
        d >= 0,
        u >= 0,
        x >= 0,
        y >= 0,
        -(one - w) <= PARTS * (u - (one - w)) <= one - w,
        -(w * p + PARTS * one) <= PARTS * (x * one - w * p) <= w * p + PARTS * one,
        -(u * d + PARTS * one) <= PARTS * (y * one - u * d) <= u * d + PARTS * one,
        -(x + y) <= PARTS * (s - (x + y)) <= x + y,
    ensures
        ({
            let exact = w * p + (one - w) * d;
            let off = PARTS * (s * one - exact);
            -(5 * exact + PARTS * (3 * one)) <= off <= 5 * exact + PARTS * (3 * one)
        }),
{
    let parts = PARTS as int;
    let v = one - w;
    let (a, b, c) = (w * p, v * d, u * d);
    assert(a >= 0 && b >= 0) by (nonlinear_arith)
        requires
            a == w * p,
            b == v * d,
            w >= 0,
            v >= 0,
            p >= 0,
            d >= 0,
    ;
    assert(-b <= parts * (c - b) <= b) by (nonlinear_arith)
        requires
            b == v * d,
            c == u * d,
            -v <= parts * (u - v) <= v,
            d >= 0,
    ;
    let (xo, yo) = (x * one, y * one);
    let so = s * one;
    assert(-(xo + yo) <= parts * (so - (xo + yo)) <= xo + yo) by (nonlinear_arith)
        requires
            xo == x * one,
            yo == y * one,
            so == s * one,
            -(x + y) <= parts * (s - (x + y)) <= x + y,
            one > 0,
    ;
}

/// A new number is smoothed with the old one where there is one, by the share; the first counts
/// as it is.
pub proof fn law_smoothing(share: Value, new: Value, previous: Option<Value>)
    requires
        is_share(share),
        is_plain_number(new),
        previous matches Some(p) ==> is_plain_number(p),
    ensures
        previous is None ==> crate::cross_layer::smoothed(share, new, previous) == new,
        previous is Some ==> is_mix(
            crate::cross_layer::smoothed(share, new, previous),
            share,
            new,
            previous->0,
        ),
{
    if let Some(p) = previous {
        law_mix_weighs_by_the_share(share, new, p);
    }
}

/// Bringing the prediction up to date mixes the new raw capacity with the smoothed one by its
/// share, and the new effective capacity with the last prediction by its own; what was reported
/// and configured stays. What is up to date is left alone.
pub proof fn law_refresh_smooths_both_stages(v: EstimatorView, raw: Value, effective: Value)
    requires
        v.dirty,
        v.phy_capacity() == Some(raw),
        is_plain_number(raw),
        is_share(v.alpha_phy),
        is_share(v.alpha_effective),
        v.ewma_phy_bps matches Some(p) ==> is_plain_number(p),
        v.ewma_effective_bps matches Some(p) ==> is_plain_number(p),
        (EstimatorView { ewma_phy_bps: v.refreshed().ewma_phy_bps, ..v }).effective_capacity()
            == Some(effective),
        is_plain_number(effective),
    ensures
        ({
            let after = v.refreshed();
            &&& after == (EstimatorView {
                phy_cap_bps: Some(raw),
                ewma_phy_bps: after.ewma_phy_bps,
                ewma_effective_bps: after.ewma_effective_bps,
                dirty: false,
                ..v
            })
            &&& after.refreshed() == after
            &&& after.ewma_phy_bps is Some
            &&& after.ewma_effective_bps is Some
            &&& v.ewma_phy_bps is None ==> after.ewma_phy_bps == Some(raw)
            &&& v.ewma_phy_bps is Some ==> is_mix(
                after.ewma_phy_bps->0,
                v.alpha_phy,
                raw,
                v.ewma_phy_bps->0,
            )
            &&& v.ewma_effective_bps is None ==> after.ewma_effective_bps == Some(effective)
            &&& v.ewma_effective_bps is Some ==> is_mix(
                after.ewma_effective_bps->0,
                v.alpha_effective,
                effective,
                v.ewma_effective_bps->0,
            )
        }),
{
    law_smoothing(v.alpha_phy, raw, v.ewma_phy_bps);
    law_smoothing(v.alpha_effective, effective, v.ewma_effective_bps);
}

/// While the raw capacity cannot be reckoned, what is known of it stays; and where nothing is
/// known, nothing is predicted.
pub proof fn law_refresh_without_a_capacity(v: EstimatorView)
    requires
        v.dirty,
        v.phy_capacity() is None,
    ensures
        v.refreshed() == (EstimatorView {
            ewma_effective_bps: v.refreshed().ewma_effective_bps,
            dirty: false,
            ..v
        }),
        v.ewma_phy_bps is None ==> v.refreshed().ewma_effective_bps is None,
        v.ewma_phy_bps is Some ==> v.refreshed().ewma_effective_bps is Some,
{
}

/// What is up to date stays.
pub proof fn law_no_refresh_without_telemetry(v: EstimatorView)
    requires
        !v.dirty,
    ensures
        v.refreshed() == v,
{
}

/// The part of all blocks that arrives is what the error rate leaves of one.
proof fn lemma_success(bler: Value)
    requires
        is_share(bler),
    ensures
        is_share(crate::cross_layer::success_ratio(bler)),
        crate::float_error::near(
            crate::cross_layer::success_ratio(bler)->units,
            (pow2(1074) - bler->units) as nat,
            1,
        ),
{
    let one = pow2(1074);
    let unit = Value::of_integer(1);
    lemma_pow2_pos(1074);
    lemma_pow2_strictly_increases(1074, 2096);
    crate::float64::lemma_integer_exact(0);
    crate::float64::lemma_integer_exact(1);
    lemma_mul_basics(one as int);
    crate::float_error::lemma_minus_near(unit, bler);
    let rest = (one - bler->units) as nat;
    crate::rounding::lemma_round_ordered(rest, 1, one, 1);
    crate::float64::lemma_integer_exact_from(1, 1074);
    crate::float64::lemma_round_zero(1);
}

/// A capacity is discounted by the part of all blocks that is lost, but never below a twentieth
/// of it; where no losses were reported it stays.
pub proof fn law_losses_discount_the_capacity(v: EstimatorView, phy: Value)
    requires
        v.bler matches Some(bler) ==> is_share(bler),
        is_moderate(phy, 400),
    ensures
        v.bler is None ==> v.discounted(phy) == phy,
        ({
            let left = v.discounted(phy)->units;
            let one = pow2(1074);
            let kept = (one - v.bler->0->units) as nat;
            v.bler is Some ==> {
                &&& v.discounted(phy) is Finite
                &&& !v.discounted(phy).is_negative()
                &&& PARTS * (left * one) >= (PARTS - 5) * (phy->units * kept)
                &&& PARTS * (20 * left) >= (PARTS - 5) * phy->units
                &&& crate::float_error::near(left * one, phy->units * kept, 5)
                    || crate::float_error::near(20 * left, phy->units, 5)
            }
        }),
{
    if let Some(bler) = v.bler {
        let one = pow2(1074);
        let kept = (one - bler->units) as nat;
        let floor = crate::cross_layer::hundredths(5);
        let ratio = crate::cross_layer::success_ratio(bler);
        let used = ratio.max(floor);
        lemma_pow2_pos(1074);
        lemma_success(bler);
        crate::float_error::lemma_ratio_near(5, 100);
        crate::float_order::lemma_ratio_ordered(5, 100, 1, 1);
        crate::float64::lemma_integer_exact(1);
        lemma_mul_basics(one as int);
        lemma2_to64();
        assert(Value::of_ratio(1, 1) == Value::of_integer(1));
        assert(used->units <= one && used->units >= floor->units);
        let (p, r) = (phy->units, used->units);
        assert(crate::float_error::sized(r, 33)) by (nonlinear_arith)
            requires
                r <= one,
                r >= floor->units,
                one == pow2(1074),
                one <= floor->units * pow2(33),
                pow2(33) >= 1,
        ;
        crate::float_error::lemma_times_near(phy, used, 400, 33);
        let left = phy.times(used)->units;
        assert(left == v.discounted(phy)->units);
        // The rate that is kept.
        let s = ratio->units;
        crate::float_error::lemma_near_scaled(s, kept, p, 1);
        lemma_mul_is_commutative(s as int, p as int);
        lemma_mul_is_commutative(kept as int, p as int);
        // The floor.
        let f = floor->units;
        crate::float_error::lemma_near_scaled(f * 100, 5 * one, p, 1);
        assert((f * 100) * p == (20 * (p * f)) * 5 && (5 * one) * p == (p * one) * 5)
            by (nonlinear_arith);
        crate::float_error::lemma_near_unscaled(20 * (p * f), p * one, 5, 1);
        if r == s {
            crate::float_error::lemma_near_chain(left * one, p * r, p * kept, 1, 1);
            crate::float_error::lemma_near_weaker(left * one, p * kept, 3, 5);
        } else {
            crate::float_error::lemma_near_scaled(left * one, p * r, 20, 1);
            assert((left * one) * 20 == (20 * left) * one && (p * r) * 20 == 20 * (p * f))
                by (nonlinear_arith)
                requires
                    r == f,
            ;
            crate::float_error::lemma_near_chain((20 * left) * one, 20 * (p * f), p * one, 1, 1);
            crate::float_error::lemma_near_unscaled(20 * left, p, one, 3);
            crate::float_error::lemma_near_weaker(20 * left, p, 3, 5);
        }
        // Never below either.
        assert(p * r >= p * s && p * r >= p * f) by (nonlinear_arith)
            requires
                r >= s,
                r >= f,
        ;
        assert(PARTS * (left * one) >= (PARTS - 5) * (p * kept)) by (nonlinear_arith)
            requires
                PARTS * (p * r) <= PARTS * (left * one) + p * r,
                PARTS * (p * kept) <= PARTS * (p * s) + p * kept,
                p * r >= p * s,
                p * kept >= 0,
                PARTS == 0x4_0000_0000_0000,
        ;
        assert(PARTS * (20 * left) * one >= (PARTS - 5) * p * one) by (nonlinear_arith)
            requires
                PARTS * (p * r) <= PARTS * (left * one) + p * r,
                PARTS * (p * one) <= PARTS * (20 * (p * f)) + p * one,
                p * r >= p * f,
                p * one >= 0,
                PARTS == 0x4_0000_0000_0000,
        ;
        assert(PARTS * (20 * left) >= (PARTS - 5) * p) by (nonlinear_arith)
            requires
                PARTS * (20 * left) * one >= (PARTS - 5) * p * one,
                one > 0,
        ;
    }
}

/// The measured throughput caps the estimate: as it is where it is goodput, and otherwise by the
/// part of it that arrives.
pub proof fn law_cap_is_what_arrives(v: EstimatorView, actual: Value)
    requires
        v.throughput_bps == Some(actual),
        is_plain_number(actual),
        v.bler matches Some(bler) ==> is_share(bler),
    ensures
        v.cap() is Some,
        v.pdsch_is_goodput ==> v.cap() == Some(actual),
        ({
            let one = pow2(1074) as int;
            let lost = match v.bler {
                Some(bler) => bler->units as int,
                None => 0,
            };
            let exact = actual->units * (one - lost);
            let off = PARTS * (v.cap()->0->units * one - exact);
            !v.pdsch_is_goodput ==> {
                &&& v.cap()->0 is Finite
                &&& !v.cap()->0.is_negative()
                &&& -(4 * exact + PARTS * one) <= off <= 4 * exact + PARTS * one
            }
        }),
{
    if !v.pdsch_is_goodput {
        let one = pow2(1074);
        let bler = match v.bler {
            Some(bler) => bler,
            None => Value::of_integer(0),
        };
        lemma_pow2_pos(1074);
        lemma_pow2_strictly_increases(2080, 2090);
        crate::float64::lemma_integer_exact(0);
        lemma_mul_basics(one as int);
        lemma_success(bler);
        let ratio = crate::cross_layer::success_ratio(bler);
        crate::float_error::lemma_times_off(ratio, actual);
        let (a, s) = (actual->units, ratio->units);
        lemma_mul_is_commutative(a as int, s as int);
        let kept = (one - bler->units) as nat;
        crate::float_error::lemma_near_scaled(s, kept, a, 1);
        lemma_mul_is_commutative(a as int, kept as int);
        assert(actual.times(ratio) == ratio.times(actual));
    }
}

/// The effective capacity is the smoothed raw capacity (or, before there is one, the raw one)
/// after losses, unless what was measured is less.
pub proof fn law_effective_capacity_is_the_least(v: EstimatorView, phy: Value)
    requires
        v.ewma_phy_bps == Some(phy) || (v.ewma_phy_bps is None && v.phy_capacity() == Some(phy)),
        v.discounted(phy) is Finite,
        v.cap() matches Some(cap) ==> cap is Finite,
    ensures
        v.effective_capacity() is Some,
        v.effective_capacity()->0.le(v.discounted(phy)),
        v.throughput_bps is None ==> v.effective_capacity() == Some(v.discounted(phy)),
        v.throughput_bps is Some ==> v.effective_capacity()->0.le(v.cap()->0),
        v.throughput_bps is Some ==> v.effective_capacity() == Some(v.discounted(phy))
            || v.effective_capacity() == v.cap(),
{
}

/// The blend is the confidence times the prediction and the rest times the deliver rate in bits,
/// in whole bytes, for rates below `2^50` bytes per second.
pub proof fn law_blend_weighs_by_the_confidence(v: EstimatorView, deliver_rate_bytes: u64)
    requires
        v.is_valid(),
        v.ewma_effective_bps is Some,
        is_plain_number(v.ewma_effective_bps->0),
        v.ewma_effective_bps->0->units < WIDE * pow2(1074),
        deliver_rate_bytes < 0x4_0000_0000_0000,
    ensures
        ({
            let one = pow2(1074) as int;
            let share = v.confidence->units;
            let exact = share * v.ewma_effective_bps->0->units + (one - share) * (8
                * deliver_rate_bytes * one);
            let blend = v.blended(deliver_rate_bytes);
            &&& PARTS * (8 * blend * one * one) <= (PARTS + 8) * exact + PARTS * (14 * one)
            &&& (PARTS - 8) * exact <= PARTS * (8 * (blend + 1) * one * one) + PARTS * (14 * one)
        }),
{
    let one = pow2(1074);
    let bytes = deliver_rate_bytes as nat;
    let predicted = v.ewma_effective_bps->0;
    let p = predicted->units;
    let d = 8 * bytes * one;
    lemma2_to64();
    lemma2_to64_rest();
    lemma_pow2_pos(1074);
    lemma_pow2_pos(2098);
    lemma_pow2_adds(56, 1074);
    lemma_pow2_strictly_increases(56 + 1074, 2080);
    lemma_pow2_strictly_increases(56 + 1074, 2098);
    crate::float64::lemma_integer_exact(0);
    crate::float64::lemma_integer_exact(1);
    crate::float64::lemma_integer_exact(8);
    crate::float64::lemma_integer_exact(bytes);
    crate::float64::lemma_integer_exact(8 * bytes);
    lemma_mul_basics(one as int);
    // The weight is the confidence itself.
    crate::float_error::lemma_ratio_near(5, 100);
    let share = v.confidence;
    let eight = Value::of_integer(8);
    let weight = share.clamp(Value::of_integer(0), Value::of_integer(1));
    assert(weight == share && is_share(share));
    // The deliver rate in bits is exact.
    let deliver = Value::of_integer(bytes).times(eight);
    assert((bytes * one) * (8 * one) == ((8 * bytes) * one) * one) by (nonlinear_arith);
    crate::rounding::lemma_round_scaled((8 * bytes) * one, 1, one);
    assert(d < WIDE * one) by (nonlinear_arith)
        requires
            d == 8 * bytes * one,
            8 * bytes < WIDE,
            one > 0,
    ;
    assert(deliver == (Value::Finite { negative: false, units: d }));
    law_mix_weighs_by_the_share(weight, predicted, deliver);
    let mix = crate::cross_layer::mixed(weight, predicted, deliver);
    let s = mix->units;
    let w = share->units;
    let exact = w * p + (one - w) * d;
    assert(exact <= WIDE * one * one) by (nonlinear_arith)
        requires
            exact == w * p + (one - w) * d,
            0 <= w <= one,
            p < WIDE * one,
            d < WIDE * one,
            one > 0,
    ;
    // In bytes.
    crate::float_error::lemma_round_off(s * one, 8 * one);
    let q = crate::rounding::round_units(s * one, 8 * one);
    lemma_blend_bytes(one as int, exact, s as int, q as int);
    lemma_pow2_adds(64, 1074);
    lemma_pow2_strictly_increases(64 + 1074, 2098);
    assert(mix.over(eight) == (Value::Finite { negative: false, units: q }));
    crate::float_error::lemma_truncated(mix.over(eight));
    let blend = v.blended(deliver_rate_bytes);
    assert(blend == mix.over(eight).truncated());
    assert(8 * blend * one * one <= 8 * (q * one) && 8 * (q * one) <= 8 * (blend + 1) * one * one)
        by (nonlinear_arith)
        requires
            blend * one <= q <= (blend + 1) * one,
            one > 0,
    ;
}

proof fn lemma_blend_bytes(one: int, exact: int, s: int, q: int)
    requires
        one > 0,
        exact >= 0,
        s >= 0,
        q >= 0,
        exact <= WIDE * one * one,
        -(5 * exact + PARTS * (3 * one)) <= PARTS * (s * one - exact) <= 5 * exact + PARTS * (3 * one),
        -(s * one + PARTS * (8 * one)) <= PARTS * (q * (8 * one) - s * one) <= s * one + PARTS * (8
            * one),
    ensures
        PARTS * (8 * (q * one)) <= (PARTS + 8) * exact + PARTS * (14 * one),
        (PARTS - 8) * exact <= PARTS * (8 * (q * one)) + PARTS * (14 * one),
        q < pow2(64) * one,
{
    let so = s * one;
    let qo = q * one;
    assert(q * (8 * one) == 8 * qo) by (nonlinear_arith)
        requires
            qo == q * one,
    ;
    assert(so <= 2 * exact + 4 * one);
    assert(8 * qo <= 2 * exact + 20 * one);
    lemma2_to64();
    assert(qo <= (WIDE + 20) * one * one) by (nonlinear_arith)
        requires
            8 * qo <= 2 * exact + 20 * one,
            exact <= WIDE * one * one,
            one > 0,
    ;
    assert(q <= (WIDE + 20) * one) by (nonlinear_arith)
        requires
            qo == q * one,
            qo <= (WIDE + 20) * one * one,
            one > 0,
    ;
    assert((WIDE + 20) * one < pow2(64) * one) by (nonlinear_arith)
        requires
            WIDE + 20 < pow2(64),
            one > 0,
    ;
}

} // verus!
