//! What holds of the cross-layer estimator.

use crate::cross_layer::{CrossLayerEstimator, EstimatorView, MAX_CQI};
use crate::float64::{Float64, Value};
use crate::rounding::WIDE;
use vstd::arithmetic::div_mod::*;
use vstd::arithmetic::mul::*;
use vstd::arithmetic::power2::*;
use vstd::prelude::*;

verus! {

pub(crate) proof fn lemma_half_is_valid()
    ensures
        EstimatorView::fresh().is_valid(),
{
    crate::float_order::lemma_ratio_ordered(5, 100, 50, 100);
    crate::float_order::lemma_ratio_ordered(50, 100, 1, 1);
}

/// However often the confidence is moved, it stays between its limits.
pub(crate) proof fn lemma_bumps_are_valid(v: EstimatorView, n: nat)
    requires
        n <= 100,
    ensures
        v.is_valid() ==> v.surer(n).is_valid(),
        v.is_valid() ==> v.less_sure(n).is_valid(),
{
    crate::float_order::lemma_ratio_ordered(5, 100, 1, 1);
    crate::float_order::lemma_ratio_ordered(n, 100, 1, 1);
    crate::float64::lemma_integer_exact(1);
    lemma_pow2_pos(1074);
    lemma_pow2_pos(2098);
    lemma_pow2_strictly_increases(1074, 2098);
    lemma_mul_basics(pow2(1074) as int);
}

/// Once the prediction is up to date it stays the same until new telemetry arrives.
pub proof fn law_prediction_is_stable(v: EstimatorView)
    ensures
        v.refreshed().refreshed() == v.refreshed(),
{
}

/// Readings of power and quality move the confidence alone: the estimate, and whether it is up to
/// date, stay as they are.
pub proof fn law_radio_quality_keeps_the_estimate(v: EstimatorView, rsrp: Value, rsrq: Value)
    ensures
        v.with_rsrp(rsrp).with_rsrq(rsrq) == (EstimatorView {
            confidence: v.with_rsrp(rsrp).with_rsrq(rsrq).confidence,
            ..v
        }),
{
}

/// The SINR is only a fallback: where CQI or MCS gave an efficiency, it changes no capacity.
pub proof fn law_sinr_is_a_fallback(v: EstimatorView, sinr_db: Value, efficiency: Value)
    requires
        v.spectral_efficiency is Some,
    ensures
        v.with_sinr(sinr_db, efficiency).phy_capacity() == v.phy_capacity(),
        v.with_sinr(sinr_db, efficiency).effective_capacity() == v.effective_capacity(),
{
}

/// A CQI above the table counts as the highest one.
pub proof fn law_high_cqi_counts_as_highest(v: EstimatorView, cqi: u8)
    requires
        cqi >= MAX_CQI,
    ensures
        v.with_cqi(cqi) == v.with_cqi(MAX_CQI),
{
}

/// A new estimator predicts nothing, and no update makes it predict before both an efficiency
/// and an allocation were reported.
pub proof fn law_updates_stay_grounded(v: EstimatorView, byte: u8, prbs: u32, x: Value, y: Value)
    requires
        v.is_grounded(),
    ensures
        EstimatorView::fresh().is_grounded(),
        v.with_cqi(byte).is_grounded(),
        v.with_mcs(byte).is_grounded(),
        v.with_prb_allocation(prbs).is_grounded(),
        v.with_sinr(x, y).is_grounded(),
        v.with_rsrp(x).with_rsrq(y).is_grounded(),
        v.with_pdsch_throughput(x).is_grounded(),
        v.with_bler(x).is_grounded(),
{
}

/// Configuring the estimator keeps it grounded too.
pub proof fn law_settings_stay_grounded(
    v: EstimatorView,
    alphas: (Value, Value),
    radio: (Value, Value),
    is_goodput: bool,
)
    requires
        v.is_grounded(),
    ensures
        (EstimatorView { alpha_phy: alphas.0, alpha_effective: alphas.1, ..v }).is_grounded(),
        (EstimatorView { prb_bw_hz: radio.0, tdd_dl_ratio: radio.1, ..v }).is_grounded(),
        (EstimatorView { pdsch_is_goodput: is_goodput, ..v }).is_grounded(),
{
}

/// Bringing the prediction up to date keeps the estimator grounded: there is no prediction while
/// no efficiency or no allocation was ever reported. Once both were, there is one.
pub proof fn law_no_prediction_without_reports(v: EstimatorView)
    requires
        v.is_grounded(),
    ensures
        v.refreshed().is_grounded(),
        !v.has_reports() ==> v.refreshed().ewma_effective_bps is None,
        v.has_reports() && v.dirty ==> v.refreshed().ewma_effective_bps is Some,
{
}

/// While no efficiency or no allocation was ever reported, the blend is the deliver rate.
pub proof fn law_blend_falls_back_to_the_deliver_rate(v: EstimatorView, deliver_rate_bytes: u64)
    requires
        v.is_grounded(),
        !v.has_reports(),
    ensures
        v.refreshed().blended(deliver_rate_bytes) == deliver_rate_bytes,
{
}

/// A measured goodput is an upper bound on the effective capacity.
pub proof fn law_goodput_caps_the_estimate(v: EstimatorView)
    requires
        v.pdsch_is_goodput,
        v.throughput_bps is Some,
        v.throughput_bps->0 !is NotANumber,
        v.effective_capacity() is Some,
    ensures
        v.effective_capacity()->0.le(v.throughput_bps->0),
{
}

/// Lost blocks never raise the capacity.
pub proof fn law_losses_never_raise_the_capacity(estimator: CrossLayerEstimator, phy: Float64)
    requires
        crate::float_order::is_plain(phy.value()),
        estimator@.bler matches Some(bler) ==> crate::float_order::is_plain(bler),
    ensures
        estimator@.discounted(phy.value()).le(phy.value()),
{
    if let Some(bler) = estimator@.bler {
        let (zero, one) = (Value::of_integer(0), Value::of_integer(1));
        let floor = crate::cross_layer::hundredths(5);
        let ratio = crate::cross_layer::success_ratio(bler).max(floor);
        let unit = pow2(1074);
        crate::float_order::lemma_integer_ordered(0, 1);
        crate::float_order::lemma_ratio_ordered(5, 100, 1, 1);
        crate::float64::lemma_integer_exact(0);
        crate::float64::lemma_integer_exact(1);
        lemma_pow2_pos(1074);
        lemma_pow2_pos(2098);
        lemma_pow2_strictly_increases(1074, 2098);
        lemma_mul_basics(unit as int);
        lemma2_to64();
        crate::rounding::lemma_round_exact(1, 0);
        lemma_pow2_strictly_increases(5, 1074);
        crate::rounding::lemma_round_ordered(1, 1, 5 * unit, 100);
        assert(ratio is Finite && !ratio.is_negative() && 0 < ratio->units <= unit);
        if let Value::Finite { units: a, .. } = phy.value() {
            crate::float_order::lemma_pattern_exact(phy);
            let b = ratio->units;
            assert((a * b) * 1 <= a * unit) by (nonlinear_arith)
                requires
                    b <= unit,
            ;
            crate::rounding::lemma_round_ordered(a * b, unit, a, 1);
        }
    }
}

/// What the errors of the five roundings of a blend add up to. The numbers are counted in units,
/// of which `one` make up one bit per second.
proof fn lemma_blend_errors(one: int, w: int, u: int, p: int, d: int, x: int, y: int, tick: int)
    requires
        one > 0,
        0 <= w <= one,
        p >= 0,
        d >= 0,
        tick * d <= one * one,
        -tick <= 2 * (u - (one - w)) <= tick,
        -(one * one) <= 2 * (x * one - w * p) <= one * one,
        -(one * one) <= 2 * (y * one - u * d) <= one * one,
    ensures
        p <= d ==> 2 * p - 3 * one <= 2 * (x + y) <= 2 * d + 3 * one,
        d <= p ==> 2 * d - 3 * one <= 2 * (x + y) <= 2 * p + 3 * one,
{
    let v = one - w;
    assert(-(one * one) <= 2 * (u * d - v * d) <= one * one) by (nonlinear_arith)
        requires
            -tick <= 2 * (u - v) <= tick,
            d >= 0,
            tick * d <= one * one,
    ;
    let exact = w * p + v * d;
    assert(-(3 * (one * one)) <= 2 * ((x + y) * one - exact) <= 3 * (one * one)) by {
        lemma_mul_is_distributive_add_other_way(one, x, y);
    }
    assert(p <= d ==> one * p <= exact <= one * d) by (nonlinear_arith)
        requires
            exact == w * p + v * d,
            v == one - w,
            0 <= w <= one,
    ;
    assert(d <= p ==> one * d <= exact <= one * p) by (nonlinear_arith)
        requires
            exact == w * p + v * d,
            v == one - w,
            0 <= w <= one,
    ;
    let (low, high) = if p <= d {
        (p, d)
    } else {
        (d, p)
    };
    let sum = x + y;
    assert(2 * low - 3 * one <= 2 * sum <= 2 * high + 3 * one) by (nonlinear_arith)
        requires
            one > 0,
            one * low <= exact <= one * high,
            -(3 * (one * one)) <= 2 * (sum * one - exact) <= 3 * (one * one),
    ;
}

/// The blend lies between the deliver rate and the prediction, within one byte per second, for
/// rates below `2^50` bytes per second.
#[verifier::rlimit(40)]
pub proof fn law_blend_lies_between(v: EstimatorView, deliver_rate_bytes: u64)
    requires
        v.is_valid(),
        v.ewma_effective_bps is Some,
        v.ewma_effective_bps->0 is Finite,
        Value::of_integer(0).le(v.ewma_effective_bps->0),
        v.ewma_effective_bps->0->units < WIDE * pow2(1074),
        deliver_rate_bytes < 0x4_0000_0000_0000,
    ensures
        ({
            let predicted = v.ewma_effective_bps->0->units / (8 * pow2(1074));
            let blend = v.blended(deliver_rate_bytes);
            &&& blend + 1 >= deliver_rate_bytes || blend + 1 >= predicted
            &&& blend <= deliver_rate_bytes + 1 || blend <= predicted + 1
        }),
{
    let one = pow2(1074);
    let tick = pow2(1021);
    let bytes = deliver_rate_bytes as nat;
    let p = v.ewma_effective_bps->0->units;
    let d = 8 * bytes * one;
    lemma2_to64();
    lemma2_to64_rest();
    lemma_pow2_pos(1074);
    lemma_pow2_pos(1021);
    lemma_pow2_pos(2098);
    lemma_pow2_adds(53, 1021);
    lemma_pow2_adds(56, 1074);
    lemma_pow2_strictly_increases(56 + 1074, 2098);
    lemma_pow2_adds(2, 1072);
    lemma_pow2_unfold(1075);
    crate::float64::lemma_integer_exact(0);
    crate::float64::lemma_integer_exact(1);
    crate::float64::lemma_integer_exact(8);
    crate::float64::lemma_integer_exact(bytes);
    crate::float64::lemma_integer_exact(8 * bytes);
    lemma_mul_basics(one as int);
    // The weight is the confidence itself.
    crate::rounding::lemma_round_exact(1, 0);
    lemma_pow2_strictly_increases(5, 1074);
    crate::rounding::lemma_round_ordered(1, 1, 5 * one, 100);
    let share = v.confidence;
    assert(share is Finite && !share.is_negative() && 0 < share->units <= one);
    let w = share->units;
    let weight = share.clamp(Value::of_integer(0), Value::of_integer(1));
    assert(weight == share);
    // The deliver rate in bits is exact.
    let deliver = Value::of_integer(bytes).times(Value::of_integer(8));
    assert((bytes * one) * (8 * one) == ((8 * bytes) * one) * one) by (nonlinear_arith);
    crate::rounding::lemma_round_scaled((8 * bytes) * one, 1, one);
    assert(deliver == (Value::Finite { negative: false, units: d }));
    assert(d < WIDE * one) by (nonlinear_arith)
        requires
            d == 8 * bytes * one,
            8 * bytes < WIDE,
            one > 0,
    ;
    // The weight of the deliver rate.
    let rest = (one - w) as nat;
    crate::float64::lemma_round_zero(1);
    crate::rounding::lemma_round_error(rest, 1, 1021);
    crate::rounding::lemma_round_ordered(rest, 1, one, 1);
    let u = crate::rounding::round_units(rest, 1);
    let other_weight = Value::of_integer(1).minus(weight);
    assert(u <= one);
    assert(other_weight == (Value::Finite { negative: false, units: u }));
    assert(tick * d <= one * one) by (nonlinear_arith)
        requires
            d < WIDE * one,
            one == WIDE * tick,
            tick > 0,
    ;
    // The two products.
    assert(w * p < WIDE * (one * one)) by (nonlinear_arith)
        requires
            0 < w <= one,
            p < WIDE * one,
    ;
    assert(u * d < WIDE * (one * one)) by (nonlinear_arith)
        requires
            u <= one,
            d < WIDE * one,
            one > 0,
    ;
    crate::rounding::lemma_round_error(w * p, one, 1074);
    crate::rounding::lemma_round_error(u * d, one, 1074);
    let x = crate::rounding::round_units(w * p, one);
    let y = crate::rounding::round_units(u * d, one);
    lemma_blend_errors(
        one as int,
        w as int,
        u as int,
        p as int,
        d as int,
        x as int,
        y as int,
        tick as int,
    );
    let high = if p <= d {
        d
    } else {
        p
    };
    let low = if p <= d {
        p
    } else {
        d
    };
    assert(2 * low - 3 * one <= 2 * (x + y) <= 2 * high + 3 * one);
    assert(x + y < 2 * WIDE * one) by (nonlinear_arith)
        requires
            2 * (x + y) <= 2 * high + 3 * one,
            high < WIDE * one,
            one > 0,
    ;
    // A prediction of minus zero weighs nothing.
    let is_minus = v.ewma_effective_bps->0.is_negative();
    assert(is_minus ==> p == 0);
    lemma_mul_basics(w as int);
    crate::float64::lemma_round_zero(one);
    assert(is_minus ==> x == 0);
    assert(weight.times(v.ewma_effective_bps->0) == (Value::Finite {
        negative: is_minus,
        units: x,
    }));
    assert(other_weight.times(deliver) == (Value::Finite { negative: false, units: y }));
    // The sum.
    crate::rounding::lemma_round_error(x + y, 1, 1075);
    let s = crate::rounding::round_units(x + y, 1);
    assert(2 * low - 5 * one <= 2 * s <= 2 * high + 5 * one);
    let mixed = crate::cross_layer::mixed(weight, v.ewma_effective_bps->0, deliver);
    assert(mixed == (Value::Finite { negative: false, units: s }));
    // The bytes.
    assert(s < 2 * WIDE * one) by (nonlinear_arith)
        requires
            2 * s <= 2 * high + 5 * one,
            high < WIDE * one,
            one > 0,
    ;
    assert(s * one < WIDE * (pow2(1072) * (8 * one))) by (nonlinear_arith)
        requires
            s < 2 * WIDE * one,
            one == 4 * pow2(1072),
            one > 0,
    ;
    crate::rounding::lemma_round_error(s * one, 8 * one, 1072);
    let q = crate::rounding::round_units(s * one, 8 * one);
    lemma_bytes_error(one as int, pow2(1072) as int, s as int, q as int);
    assert(2 * low - 7 * one <= 16 * q <= 2 * high + 7 * one);
    assert(mixed.over(Value::of_integer(8)) == (Value::Finite { negative: false, units: q }));
    lemma_whole_bytes(one, p, bytes, q, low, high);
}

proof fn lemma_bytes_error(one: int, step: int, s: int, q: int)
    requires
        one > 0,
        one == 4 * step,
        -(step * (8 * one)) <= 2 * (q * (8 * one) - s * one) <= step * (8 * one),
    ensures
        -(2 * one) <= 2 * (8 * q - s) <= 2 * one,
{
    assert(-(2 * one) <= 2 * (8 * q - s) <= 2 * one) by (nonlinear_arith)
        requires
            one > 0,
            one == 4 * step,
            -(step * (8 * one)) <= 2 * (q * (8 * one) - s * one) <= step * (8 * one),
    ;
}

/// From units to whole bytes.
proof fn lemma_whole_bytes(one: nat, p: nat, bytes: nat, q: nat, low: nat, high: nat)
    requires
        one > 0,
        low == p || low == 8 * bytes * one,
        high == p || high == 8 * bytes * one,
        low <= p <= high,
        low <= 8 * bytes * one <= high,
        2 * low - 7 * one <= 16 * q <= 2 * high + 7 * one,
    ensures
        q / one + 1 >= bytes || q / one + 1 >= p / (8 * one),
        q / one <= bytes + 1 || q / one <= p / (8 * one) + 1,
{
    let r = q / one;
    let a = p / (8 * one);
    lemma_fundamental_div_mod(q as int, one as int);
    lemma_fundamental_div_mod(p as int, (8 * one) as int);
    let least = if bytes <= a {
        bytes
    } else {
        a
    };
    let most = if bytes <= a {
        a
    } else {
        bytes
    };
    assert(8 * least * one <= 8 * bytes * one < 8 * (most + 1) * one) by (nonlinear_arith)
        requires
            one > 0,
            least <= bytes <= most,
    ;
    assert(8 * least * one <= p < 8 * (most + 1) * one) by (nonlinear_arith)
        requires
            one > 0,
            least <= a <= most,
            p == (8 * one) * a + p % (8 * one),
            0 <= p % (8 * one) < 8 * one,
    ;
    assert(r + 1 >= least) by (nonlinear_arith)
        requires
            one > 0,
            q < one * r + one,
            16 * q >= 2 * low - 7 * one,
            low >= 8 * least * one,
    ;
    assert(r <= most + 1) by (nonlinear_arith)
        requires
            one > 0,
            q >= one * r,
            16 * q <= 2 * high + 7 * one,
            high < 8 * (most + 1) * one,
    ;
}

} // verus!
