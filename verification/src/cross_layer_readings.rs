//! What the readings of the cross-layer estimator change.

use crate::cross_layer::{EstimatorView, MAX_CQI, MCS_COUNT};
use crate::float64::Value;
use crate::float_error::PARTS;
use vstd::arithmetic::mul::*;
use vstd::arithmetic::power2::*;
use vstd::prelude::*;

verus! {

/// The confidence went up by so many hundredths, but not above one.
pub open spec fn is_raised(before: Value, after: Value, n: int) -> bool {
    let one = pow2(1074) as int;
    let sum = 100 * before->units + n * one;
    let goal = if sum <= 100 * one {
        sum
    } else {
        100 * one
    };
    &&& after is Finite
    &&& !after.is_negative()
    &&& -(5 * goal) <= PARTS * (100 * after->units - goal) <= 5 * goal
}

/// The confidence went down by so many hundredths, but not below five of them.
pub open spec fn is_lowered(before: Value, after: Value, n: int) -> bool {
    let one = pow2(1074) as int;
    let rest = 100 * before->units - n * one;
    let goal = if rest >= 5 * one {
        rest
    } else {
        5 * one
    };
    &&& after is Finite
    &&& !after.is_negative()
    &&& -(500 * one) <= PARTS * (100 * after->units - goal) <= 500 * one
}

/// A valid confidence is a number from five hundredths to one.
proof fn lemma_confidence(v: EstimatorView)
    requires
        v.is_valid(),
    ensures
        v.confidence is Finite,
        !v.confidence.is_negative(),
        crate::cross_layer::hundredths(5)->units <= v.confidence->units <= pow2(1074),
        Value::of_integer(1) == (Value::Finite { negative: false, units: pow2(1074) }),
        Value::of_integer(0) == (Value::Finite { negative: false, units: 0 }),
        crate::cross_layer::hundredths(5) is Finite,
        !crate::cross_layer::hundredths(5).is_negative(),
        crate::float_error::near(
            crate::cross_layer::hundredths(5)->units * 100,
            5 * pow2(1074),
            1,
        ),
{
    lemma_pow2_pos(1074);
    lemma_pow2_strictly_increases(1074, 2098);
    crate::float64::lemma_integer_exact(0);
    crate::float64::lemma_integer_exact(1);
    lemma_mul_basics(pow2(1074) as int);
    crate::float_error::lemma_ratio_near(5, 100);
}

/// What a step of so many hundredths comes to.
proof fn lemma_step(n: nat)
    requires
        0 < n <= 100,
    ensures
        ({
            let h = crate::cross_layer::hundredths(n);
            let one = pow2(1074);
            &&& h is Finite
            &&& !h.is_negative()
            &&& h->units <= 2 * one
            &&& h->units < pow2(2096)
            &&& one < pow2(2096)
            &&& one <= n * one <= 100 * one
            &&& crate::float_error::near(h->units * 100, n * one, 1)
        }),
{
    let one = pow2(1074);
    lemma_pow2_pos(1074);
    lemma_pow2_unfold(1075);
    lemma_pow2_strictly_increases(1075, 2096);
    crate::float_error::lemma_ratio_near(n, 100);
    assert(one <= n * one <= 100 * one) by (nonlinear_arith)
        requires
            0 < n <= 100,
            one > 0,
    ;
}

proof fn lemma_raised(v: EstimatorView, n: nat)
    requires
        v.is_valid(),
        0 < n <= 100,
    ensures
        is_raised(v.confidence, v.surer(n).confidence, n as int),
{
    let one = pow2(1074);
    let c = v.confidence;
    let h = crate::cross_layer::hundredths(n);
    lemma_confidence(v);
    lemma_pow2_pos(1074);
    lemma_step(n);
    crate::float_error::lemma_plus_near(c, h);
    let up = c.plus(h);
    lemma_up(one as int, c->units as int, h->units as int, (n * one) as int, up->units as int);
    let after = v.surer(n).confidence;
    assert(after == up.clamp(crate::cross_layer::hundredths(5), Value::of_integer(1)));
    assert(after is Finite && !after.is_negative() && after->units == if one < up->units {
        one
    } else {
        up->units
    });
}

proof fn lemma_lowered(v: EstimatorView, n: nat)
    requires
        v.is_valid(),
        0 < n <= 100,
    ensures
        is_lowered(v.confidence, v.less_sure(n).confidence, n as int),
{
    let one = pow2(1074);
    let c = v.confidence;
    let h = crate::cross_layer::hundredths(n);
    let least = crate::cross_layer::hundredths(5);
    lemma_confidence(v);
    lemma_pow2_pos(1074);
    lemma_step(n);
    crate::float_error::lemma_sum_error(c, h.negated());
    let down = c.plus(h.negated());
    lemma_down(
        one as int,
        c->units as int,
        h->units as int,
        (n * one) as int,
        down.rank(),
        least->units as int,
    );
    let after = v.less_sure(n).confidence;
    assert(after == down.clamp(least, Value::of_integer(1)));
    assert(least->units > 0);
    assert(after is Finite && !after.is_negative() && after->units == if down.rank()
        < least->units {
        least->units as int
    } else if one < down.rank() {
        one as int
    } else {
        down.rank()
    });
}

proof fn lemma_up(one: int, c: int, h: int, step: int, up: int)
    requires
        one > 0,
        0 <= c <= one,
        one <= step,
        -step <= PARTS * (100 * h - step) <= step,
        -(c + h) <= PARTS * (up - (c + h)) <= c + h,
    ensures
        up >= c,
        ({
            let sum = 100 * c + step;
            let goal = if sum <= 100 * one {
                sum
            } else {
                100 * one
            };
            let after = if one < up {
                one
            } else {
                up
            };
            -(5 * goal) <= PARTS * (100 * after - goal) <= 5 * goal
        }),
{
    let sum = 100 * c + step;
    assert(-(3 * sum) <= PARTS * (100 * up - sum) <= 3 * sum);
}

proof fn lemma_down(one: int, c: int, h: int, step: int, down: int, least: int)
    requires
        one > 0,
        0 <= c <= one,
        0 < step <= 100 * one,
        -step <= PARTS * (100 * h - step) <= step,
        ({
            let exact = c - h;
            let size = if exact >= 0 {
                exact
            } else {
                -exact
            };
            -size <= PARTS * (down - exact) <= size
        }),
        -(5 * one) <= PARTS * (100 * least - 5 * one) <= 5 * one,
    ensures
        ({
            let rest = 100 * c - step;
            let goal = if rest >= 5 * one {
                rest
            } else {
                5 * one
            };
            let after = if down < least {
                least
            } else if one < down {
                one
            } else {
                down
            };
            -(500 * one) <= PARTS * (100 * after - goal) <= 500 * one
        }),
{
    assert(h <= 2 * one);
    assert(-(300 * one) <= PARTS * (100 * down - (100 * c - step)) <= 300 * one);
}

/// A CQI reading is remembered with its row of the table. One that lies within two of the last,
/// and the first of all, adds five hundredths to the confidence; a leap takes away ten.
pub proof fn law_cqi_reading(v: EstimatorView, reading: u8)
    requires
        v.is_valid(),
    ensures
        ({
            let after = v.with_cqi(reading);
            let cqi: u8 = if reading <= 15 {
                reading
            } else {
                15
            };
            let leap = match v.last_cqi {
                Some(last) => cqi > last + 2 || last > cqi + 2,
                None => false,
            };
            &&& after == (EstimatorView {
                spectral_efficiency: after.spectral_efficiency,
                last_mcs: after.last_mcs,
                last_cqi: Some(cqi),
                confidence: after.confidence,
                dirty: true,
                ..v
            })
            &&& after.last_mcs == Some(crate::cross_layer::cqi_row(cqi).0)
            &&& is_efficiency(after.spectral_efficiency, crate::cross_layer::cqi_row(cqi).1)
            &&& !leap ==> is_raised(v.confidence, after.confidence, 5)
            &&& leap ==> is_lowered(v.confidence, after.confidence, 10)
        }),
{
    lemma_raised(v, 5);
    lemma_lowered(v, 10);
    let cqi: u8 = if reading <= 15 {
        reading
    } else {
        15
    };
    crate::float_error::lemma_ratio_near(crate::cross_layer::cqi_row(cqi).1 as nat, 10_000);
    assert(v.with_cqi_row(cqi).surer(5).confidence == v.surer(5).confidence);
}

/// So many ten-thousandths of a bit per second and hertz.
pub open spec fn is_efficiency(efficiency: Option<Value>, ten_thousandths: u64) -> bool {
    &&& efficiency is Some
    &&& efficiency->0 is Finite
    &&& !efficiency->0.is_negative()
    &&& crate::float_error::near(
        efficiency->0->units * 10_000,
        ten_thousandths as nat * pow2(1074),
        1,
    )
}

/// A better channel carries more: the efficiency grows with the CQI, from the first on, and with
/// the MCS index.
pub proof fn law_efficiency_grows(a: u8, b: u8)
    requires
        a < b,
    ensures
        b <= MAX_CQI && b > 1 ==> crate::cross_layer::cqi_row(a).1 < crate::cross_layer::cqi_row(
            b,
        ).1,
        b <= MAX_CQI && b > 1 ==> crate::cross_layer::cqi_row(a).0 < crate::cross_layer::cqi_row(
            b,
        ).0,
        b < MCS_COUNT ==> crate::cross_layer::mcs_efficiency(a)
            < crate::cross_layer::mcs_efficiency(b),
    decreases b,
{
    if b < MCS_COUNT {
        let c = (b - 1) as u8;
        assert(crate::cross_layer::mcs_efficiency(c) < crate::cross_layer::mcs_efficiency(b)) by {
            lemma_next_mcs(c);
        }
        if a < c {
            law_efficiency_grows(a, c);
        }
    }
}

/// Each MCS index carries more than the one before it.
proof fn lemma_next_mcs(a: u8)
    requires
        a < MCS_COUNT - 1,
    ensures
        crate::cross_layer::mcs_efficiency(a) < crate::cross_layer::mcs_efficiency((a + 1) as u8),
{
}

/// An MCS reading in range is remembered with its efficiency and adds five hundredths to the
/// confidence. One out of range takes away ten, and puts the row of the last CQI in force where
/// there was one.
pub proof fn law_mcs_reading(v: EstimatorView, mcs: u8)
    requires
        v.is_valid(),
    ensures
        ({
            let after = v.with_mcs(mcs);
            &&& after == (EstimatorView {
                spectral_efficiency: after.spectral_efficiency,
                last_mcs: after.last_mcs,
                confidence: after.confidence,
                dirty: true,
                ..v
            })
            &&& mcs < 28 ==> {
                &&& after.last_mcs == Some(mcs)
                &&& is_efficiency(
                    after.spectral_efficiency,
                    crate::cross_layer::mcs_efficiency(mcs),
                )
                &&& is_raised(v.confidence, after.confidence, 5)
            }
            &&& mcs >= 28 ==> is_lowered(v.confidence, after.confidence, 10)
            &&& mcs >= 28 && v.last_cqi is None ==> after.last_mcs == v.last_mcs
                && after.spectral_efficiency == v.spectral_efficiency
            &&& mcs >= 28 && v.last_cqi is Some ==> after.last_mcs == Some(
                crate::cross_layer::cqi_row(v.last_cqi->0).0,
            ) && is_efficiency(
                after.spectral_efficiency,
                crate::cross_layer::cqi_row(v.last_cqi->0).1,
            )
        }),
{
    lemma_raised(v, 5);
    lemma_lowered(v, 10);
    if mcs < 28 {
        crate::cross_layer::lemma_mcs_efficiency_small(mcs);
        crate::float_error::lemma_ratio_near(
            crate::cross_layer::mcs_efficiency(mcs) as nat,
            10_000,
        );
    } else if let Some(cqi) = v.last_cqi {
        crate::float_error::lemma_ratio_near(crate::cross_layer::cqi_row(cqi).1 as nat, 10_000);
    }
}

/// An allocation is remembered. None at all takes away twenty hundredths of confidence, any other
/// adds two.
pub proof fn law_prb_reading(v: EstimatorView, prbs: u32)
    requires
        v.is_valid(),
    ensures
        ({
            let after = v.with_prb_allocation(prbs);
            &&& after == (EstimatorView {
                prb_count: Some(prbs),
                confidence: after.confidence,
                dirty: true,
                ..v
            })
            &&& prbs == 0 ==> is_lowered(v.confidence, after.confidence, 20)
            &&& prbs > 0 ==> is_raised(v.confidence, after.confidence, 2)
        }),
{
    lemma_raised(v, 2);
    lemma_lowered(v, 20);
}

/// A SINR is remembered with what it allows. One below zero takes away five hundredths of
/// confidence, any other adds three.
pub proof fn law_sinr_reading(v: EstimatorView, sinr_db: Value, efficiency: Value)
    requires
        v.is_valid(),
        sinr_db is Finite,
    ensures
        ({
            let after = v.with_sinr(sinr_db, efficiency);
            &&& after == (EstimatorView {
                sinr_db: Some(sinr_db),
                sinr_efficiency: Some(efficiency),
                confidence: after.confidence,
                dirty: true,
                ..v
            })
            &&& sinr_db.rank() < 0 ==> is_lowered(v.confidence, after.confidence, 5)
            &&& sinr_db.rank() >= 0 ==> is_raised(v.confidence, after.confidence, 3)
        }),
{
    lemma_confidence(v);
    lemma_raised(v, 3);
    lemma_lowered(v, 5);
}

/// A received power below -110 dBm takes away ten hundredths of confidence, one above -95 adds
/// four, and one between changes nothing. A received quality below -15 dB takes away fifteen, one
/// above -9 adds five, and one between changes nothing.
pub proof fn law_radio_quality_readings(v: EstimatorView, reading: Value)
    requires
        v.is_valid(),
        reading is Finite,
    ensures
        ({
            let one = pow2(1074) as int;
            let place = reading.rank();
            let by_power = v.with_rsrp(reading).confidence;
            let by_quality = v.with_rsrq(reading).confidence;
            &&& place < -110 * one ==> is_lowered(v.confidence, by_power, 10)
            &&& -110 * one <= place <= -95 * one ==> by_power == v.confidence
            &&& place > -95 * one ==> is_raised(v.confidence, by_power, 4)
            &&& place < -15 * one ==> is_lowered(v.confidence, by_quality, 15)
            &&& -15 * one <= place <= -9 * one ==> by_quality == v.confidence
            &&& place > -9 * one ==> is_raised(v.confidence, by_quality, 5)
        }),
{
    crate::float64::lemma_integer_exact(110);
    crate::float64::lemma_integer_exact(95);
    crate::float64::lemma_integer_exact(15);
    crate::float64::lemma_integer_exact(9);
    lemma_raised(v, 4);
    lemma_raised(v, 5);
    lemma_lowered(v, 10);
    lemma_lowered(v, 15);
}

/// A measured throughput above zero is remembered and adds eight hundredths to the confidence.
/// Any other is forgotten and takes away ten.
pub proof fn law_throughput_reading(v: EstimatorView, reading: Value)
    requires
        v.is_valid(),
    ensures
        ({
            let after = v.with_pdsch_throughput(reading);
            let counts = reading is Finite && reading.rank() > 0;
            &&& after == (EstimatorView {
                throughput_bps: after.throughput_bps,
                confidence: after.confidence,
                dirty: true,
                ..v
            })
            &&& counts ==> after.throughput_bps == Some(reading)
            &&& counts ==> is_raised(v.confidence, after.confidence, 8)
            &&& !counts ==> after.throughput_bps == v.throughput_bps
            &&& !counts ==> is_lowered(v.confidence, after.confidence, 10)
        }),
{
    lemma_confidence(v);
    lemma_raised(v, 8);
    lemma_lowered(v, 10);
}

/// An error rate is remembered, brought between zero and one. Above a fifth it takes away twenty
/// hundredths of confidence, below a twentieth it adds five, and between it changes nothing. What
/// is no finite number is forgotten.
pub proof fn law_error_rate_reading(v: EstimatorView, reading: Value)
    requires
        v.is_valid(),
    ensures
        ({
            let one = pow2(1074) as int;
            let after = v.with_bler(reading);
            let place = reading.rank();
            &&& after == (EstimatorView {
                bler: after.bler,
                confidence: after.confidence,
                dirty: true,
                ..v
            })
            &&& reading !is Finite ==> after.bler == v.bler && after.confidence == v.confidence
            &&& reading is Finite ==> {
                &&& after.bler is Some
                &&& after.bler->0 is Finite
                &&& 0 <= place <= one ==> after.bler == Some(reading)
                &&& place < 0 ==> after.bler->0.rank() == 0
                &&& place > one ==> after.bler->0.rank() == one
                &&& PARTS * (5 * place) > (PARTS + 1) * one ==> is_lowered(
                    v.confidence,
                    after.confidence,
                    20,
                )
                &&& PARTS * (20 * place) < (PARTS - 1) * one ==> is_raised(
                    v.confidence,
                    after.confidence,
                    5,
                )
                &&& PARTS * (20 * place) > (PARTS + 1) * one && PARTS * (5 * place) < (PARTS - 1)
                    * one ==> after.confidence == v.confidence
            }
        }),
{
    lemma_confidence(v);
    lemma_raised(v, 5);
    lemma_lowered(v, 20);
    lemma_pow2_pos(1074);
    crate::float_error::lemma_ratio_near(20, 100);
}

/// The smoothing shares are those given, but at least a hundredth and at most ninety-nine.
pub proof fn law_shares_as_configured(v: EstimatorView, phy: Value, effective: Value)
    ensures
        ({
            let after = v.with_shares(phy, effective);
            &&& after == (EstimatorView {
                alpha_phy: after.alpha_phy,
                alpha_effective: after.alpha_effective,
                ..v
            })
            &&& phy is Finite ==> is_limited_share(phy, after.alpha_phy)
            &&& effective is Finite ==> is_limited_share(effective, after.alpha_effective)
        }),
{
    crate::float_error::lemma_ratio_near(1, 100);
    crate::float_error::lemma_ratio_near(99, 100);
}

/// A share, brought between one and ninety-nine hundredths.
pub open spec fn is_limited_share(given: Value, used: Value) -> bool {
    let one = pow2(1074);
    let place = 100 * given.rank();
    &&& used is Finite
    &&& PARTS * place < (PARTS - 1) * one ==> used.rank() >= 0 && crate::float_error::near(
        used->units * 100,
        one,
        1,
    )
    &&& PARTS * place > (PARTS + 1) * (99 * one) ==> used.rank() >= 0 && crate::float_error::near(
        used->units * 100,
        99 * one,
        1,
    )
    &&& PARTS * place > (PARTS + 1) * one && PARTS * place < (PARTS - 1) * (99 * one) ==> used
        == given
}

/// The bandwidth of a PRB is the one given, but at least one hertz; the share of time for the
/// downlink is the one given, brought between zero and one.
pub proof fn law_layout_as_configured(v: EstimatorView, prb_bw_hz: Value, tdd_dl_ratio: Value)
    requires
        prb_bw_hz is Finite,
        tdd_dl_ratio is Finite,
    ensures
        ({
            let one = pow2(1074) as int;
            let after = v.with_layout(prb_bw_hz, tdd_dl_ratio);
            &&& after == (EstimatorView {
                prb_bw_hz: after.prb_bw_hz,
                tdd_dl_ratio: after.tdd_dl_ratio,
                ..v
            })
            &&& prb_bw_hz.rank() >= one ==> after.prb_bw_hz == prb_bw_hz
            &&& prb_bw_hz.rank() < one ==> after.prb_bw_hz.rank() == one
            &&& 0 <= tdd_dl_ratio.rank() <= one ==> after.tdd_dl_ratio == tdd_dl_ratio
            &&& tdd_dl_ratio.rank() < 0 ==> after.tdd_dl_ratio.rank() == 0
            &&& tdd_dl_ratio.rank() > one ==> after.tdd_dl_ratio.rank() == one
        }),
{
    crate::float64::lemma_integer_exact(0);
    crate::float64::lemma_integer_exact(1);
    lemma_mul_basics(pow2(1074) as int);
}

} // verus!
