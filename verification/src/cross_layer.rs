//! Cross-layer bandwidth estimator driven by radio-layer hints (CQI, MCS, PRB, RSRP/RSRQ, BLER).
//!
//! Congestion control learns the available capacity from transport feedback. On mobile links the
//! channel can fluctuate faster than that loop converges, while the radio scheduler knows more.
//! The estimator takes such hints and gives a filtered throughput prediction that can be fused
//! with the deliver rate.
//!
//!   1. Convert CQI/MCS/PRB (or SINR) into a raw PHY capacity estimate.
//!   2. Fold in BLER and measured PDSCH throughput to obtain an "effective" capacity.
//!   3. Smooth the values with EWMA and score them with a heuristic confidence value.
//!   4. Provide a blended result that can be combined with the ACK-based deliver rate.
//!
//! Missing or stale signals mainly reduce the confidence, which down-weights the cross-layer term.

use crate::float64::{Float64, Value};
use vstd::prelude::*;

verus! {

/// Nominal bandwidth (Hz) of a single Physical Resource Block for LTE/NR numerology 0.
pub const PRB_BW_HZ: u64 = 180_000;

/// The highest CQI.
pub const MAX_CQI: u8 = 15;

/// How many MCS indices there are.
pub const MCS_COUNT: u8 = 28;

/// A row of the CQI table: the MCS index and the spectral efficiency in ten-thousandths of a
/// bit/s/Hz.
#[derive(Copy, Clone, Debug, PartialEq, Eq, Structural)]
pub struct CqiEntry {
    pub mcs_index: u8,
    pub efficiency: u64,
}

/// Minimal/typical CQI table. Values are loosely aligned with 3GPP TS 36.213 Table 7.2.3-1
/// (rounded).
pub open spec fn cqi_row(cqi: u8) -> (u8, u64) {
    if cqi <= 1 {
        (0, 1523)
    } else if cqi == 2 {
        (1, 2344)
    } else if cqi == 3 {
        (2, 3770)
    } else if cqi == 4 {
        (3, 6016)
    } else if cqi == 5 {
        (4, 8770)
    } else if cqi == 6 {
        (5, 11758)
    } else if cqi == 7 {
        (6, 14766)
    } else if cqi == 8 {
        (7, 19141)
    } else if cqi == 9 {
        (9, 24063)
    } else if cqi == 10 {
        (11, 27305)
    } else if cqi == 11 {
        (13, 33223)
    } else if cqi == 12 {
        (15, 39023)
    } else if cqi == 13 {
        (17, 45234)
    } else if cqi == 14 {
        (19, 51152)
    } else {
        (27, 55547)
    }
}

impl CqiEntry {
    fn new(mcs_index: u8, efficiency: u64) -> (r: CqiEntry)
        ensures
            r.mcs_index == mcs_index,
            r.efficiency == efficiency,
    {
        CqiEntry { mcs_index, efficiency }
    }

    /// The row of a CQI.
    pub fn of_cqi(cqi: u8) -> (r: CqiEntry)
        ensures
            (r.mcs_index, r.efficiency) == cqi_row(cqi),
    {
        match cqi {
            0 | 1 => CqiEntry::new(0, 1523),
            2 => CqiEntry::new(1, 2344),
            3 => CqiEntry::new(2, 3770),
            4 => CqiEntry::new(3, 6016),
            5 => CqiEntry::new(4, 8770),
            6 => CqiEntry::new(5, 11758),
            7 => CqiEntry::new(6, 14766),
            8 => CqiEntry::new(7, 19141),
            9 => CqiEntry::new(9, 24063),
            10 => CqiEntry::new(11, 27305),
            11 => CqiEntry::new(13, 33223),
            12 => CqiEntry::new(15, 39023),
            13 => CqiEntry::new(17, 45234),
            14 => CqiEntry::new(19, 51152),
            _ => CqiEntry::new(27, 55547),
        }
    }
}

/// Spectral efficiency per MCS index, in ten-thousandths of a bit/s/Hz. Based on 3GPP TS 38.214
/// Table 5.1.3.1-2 (rounded).
pub open spec fn mcs_efficiency(mcs: u8) -> u64
    recommends
        mcs < MCS_COUNT,
{
    seq![
        1523u64,
        2344,
        3770,
        6016,
        8770,
        11758,
        14766,
        19141,
        24063,
        27305,
        33223,
        39023,
        45234,
        51152,
        55547,
        62266,
        69141,
        74063,
        79141,
        84063,
        88984,
        93984,
        98457,
        102734,
        106953,
        110352,
        113789,
        116953,
    ][mcs as int]
}

fn get_mcs_efficiency(mcs: u8) -> (r: Option<u64>)
    ensures
        r == if mcs < MCS_COUNT {
            Some(mcs_efficiency(mcs))
        } else {
            None
        },
{
    let table: [u64; 28] = [
        1523,
        2344,
        3770,
        6016,
        8770,
        11758,
        14766,
        19141,
        24063,
        27305,
        33223,
        39023,
        45234,
        51152,
        55547,
        62266,
        69141,
        74063,
        79141,
        84063,
        88984,
        93984,
        98457,
        102734,
        106953,
        110352,
        113789,
        116953,
    ];
    if mcs < MCS_COUNT {
        Some(table[mcs as usize])
    } else {
        None
    }
}

/// Collects radio-layer hints and turns them into a smoothed throughput prediction (bit/s).
#[derive(Debug, Clone, Copy)]
pub struct CrossLayerEstimator {
    /// EWMA weight for PHY capacity smoothing; higher value reacts faster.
    pub alpha_phy: Float64,
    /// EWMA weight for effective throughput smoothing.
    pub alpha_effective: Float64,
    /// Bandwidth per PRB (Hz).
    pub prb_bw_hz: Float64,
    /// Downlink fraction in TDD (% of time allocated to DL). Use 1.0 for FDD or DL-only tests.
    pub tdd_dl_ratio: Float64,
    /// Whether the modem-reported PDSCH throughput is already goodput (post-retransmission).
    pub pdsch_is_goodput: bool,
    /// Latest spectral efficiency (bit/s/Hz) inferred from CQI/MCS.
    pub spectral_efficiency: Option<Float64>,
    /// Latest downlink PRB allocation for the UE.
    pub prb_count: Option<u32>,
    /// Last reported SINR (dB).
    pub sinr_db: Option<Float64>,
    /// The spectral efficiency that the SINR allows; a fallback when CQI/MCS is missing.
    pub sinr_efficiency: Option<Float64>,
    /// Modem-reported downlink throughput in bit/s, if available.
    pub throughput_bps: Option<Float64>,
    /// Block error rate in [0,1]; higher values imply more retransmissions.
    pub bler: Option<Float64>,
    /// Instantaneous PHY capacity (before BLER/PDSCH corrections).
    pub phy_cap_bps: Option<Float64>,
    /// Smoothed PHY capacity after EWMA filtering.
    pub ewma_phy_bps: Option<Float64>,
    /// Smoothed effective throughput after BLER/PDSCH corrections.
    pub ewma_effective_bps: Option<Float64>,
    /// Confidence factor; influences blending weight.
    pub confidence: Float64,
    /// Last CQI value (used to infer stability).
    pub last_cqi: Option<u8>,
    /// Last MCS value.
    pub last_mcs: Option<u8>,
    /// Recompute is needed when new telemetry arrives.
    pub dirty: bool,
}

/// What an estimator knows.
pub struct EstimatorView {
    pub alpha_phy: Value,
    pub alpha_effective: Value,
    pub prb_bw_hz: Value,
    pub tdd_dl_ratio: Value,
    pub pdsch_is_goodput: bool,
    pub spectral_efficiency: Option<Value>,
    pub prb_count: Option<u32>,
    pub sinr_db: Option<Value>,
    pub sinr_efficiency: Option<Value>,
    pub throughput_bps: Option<Value>,
    pub bler: Option<Value>,
    pub phy_cap_bps: Option<Value>,
    pub ewma_phy_bps: Option<Value>,
    pub ewma_effective_bps: Option<Value>,
    pub confidence: Value,
    pub last_cqi: Option<u8>,
    pub last_mcs: Option<u8>,
    pub dirty: bool,
}

/// The number that may be there.
pub open spec fn value_of(f: Option<Float64>) -> Option<Value> {
    match f {
        Some(f) => Some(f.value()),
        None => None,
    }
}

impl View for CrossLayerEstimator {
    type V = EstimatorView;

    open spec fn view(&self) -> EstimatorView {
        EstimatorView {
            alpha_phy: self.alpha_phy.value(),
            alpha_effective: self.alpha_effective.value(),
            prb_bw_hz: self.prb_bw_hz.value(),
            tdd_dl_ratio: self.tdd_dl_ratio.value(),
            pdsch_is_goodput: self.pdsch_is_goodput,
            spectral_efficiency: value_of(self.spectral_efficiency),
            prb_count: self.prb_count,
            sinr_db: value_of(self.sinr_db),
            sinr_efficiency: value_of(self.sinr_efficiency),
            throughput_bps: value_of(self.throughput_bps),
            bler: value_of(self.bler),
            phy_cap_bps: value_of(self.phy_cap_bps),
            ewma_phy_bps: value_of(self.ewma_phy_bps),
            ewma_effective_bps: value_of(self.ewma_effective_bps),
            confidence: self.confidence.value(),
            last_cqi: self.last_cqi,
            last_mcs: self.last_mcs,
            dirty: self.dirty,
        }
    }
}

/// A number of hundredths.
pub open spec fn hundredths(n: nat) -> Value {
    Value::of_ratio(n, 100)
}

/// A number of ten-thousandths.
pub open spec fn ten_thousandths(n: nat) -> Value {
    Value::of_ratio(n, 10_000)
}

/// One share of the new number, and the rest of the old one.
pub open spec fn mixed(share: Value, new: Value, old_value: Value) -> Value {
    share.times(new).plus(Value::of_integer(1).minus(share).times(old_value))
}

/// The new number, smoothed where there is an old one.
pub open spec fn smoothed(alpha: Value, new: Value, previous: Option<Value>) -> Value {
    match previous {
        Some(previous) => mixed(alpha, new, previous),
        None => new,
    }
}

/// The part of all blocks that arrives at the first attempt.
pub open spec fn success_ratio(bler: Value) -> Value {
    Value::of_integer(1).minus(bler).clamp(Value::of_integer(0), Value::of_integer(1))
}

fn mix(share: &Float64, new: &Float64, previous: &Float64) -> (r: Float64)
    ensures
        r.value() == mixed(share.value(), new.value(), previous.value()),
{
    share.mul(new).add(&Float64::from_u64(1).sub(share).mul(previous))
}

fn smooth(alpha: &Float64, new: &Float64, previous: &Option<Float64>) -> (r: Float64)
    ensures
        r.value() == smoothed(alpha.value(), new.value(), value_of(*previous)),
{
    match previous {
        Some(previous) => mix(alpha, new, previous),
        None => *new,
    }
}

fn get_success_ratio(bler: &Float64) -> (r: Float64)
    ensures
        r.value() == success_ratio(bler.value()),
{
    Float64::from_u64(1).sub(bler).clamp(&Float64::from_u64(0), &Float64::from_u64(1))
}

impl EstimatorView {
    /// The confidence lies between its limits.
    pub open spec fn is_valid(self) -> bool {
        hundredths(5).le(self.confidence) && self.confidence.le(Value::of_integer(1))
    }

    /// An efficiency and an allocation were both reported, so that there is something to predict
    /// from.
    pub open spec fn has_reports(self) -> bool {
        self.efficiency() is Some && self.prb_count is Some
    }

    /// Nothing is predicted, and no capacity is known, unless it was reported.
    pub open spec fn is_grounded(self) -> bool {
        !self.has_reports() ==> self.phy_cap_bps is None && self.ewma_phy_bps is None
            && self.ewma_effective_bps is None
    }

    pub open spec fn fresh() -> EstimatorView {
        EstimatorView {
            alpha_phy: hundredths(45),
            alpha_effective: hundredths(55),
            prb_bw_hz: Value::of_integer(PRB_BW_HZ as nat),
            tdd_dl_ratio: Value::of_integer(1),
            pdsch_is_goodput: true,
            spectral_efficiency: None,
            prb_count: None,
            sinr_db: None,
            sinr_efficiency: None,
            throughput_bps: None,
            bler: None,
            phy_cap_bps: None,
            ewma_phy_bps: None,
            ewma_effective_bps: None,
            confidence: hundredths(50),
            last_cqi: None,
            last_mcs: None,
            dirty: false,
        }
    }

    /// Smoothed by these shares, within their limits.
    pub open spec fn with_shares(self, phy: Value, effective: Value) -> EstimatorView {
        EstimatorView {
            alpha_phy: phy.clamp(hundredths(1), hundredths(99)),
            alpha_effective: effective.clamp(hundredths(1), hundredths(99)),
            ..self
        }
    }

    /// Laid out with this bandwidth per PRB and this share of time for the downlink.
    pub open spec fn with_layout(self, prb_bw_hz: Value, tdd_dl_ratio: Value) -> EstimatorView {
        EstimatorView {
            prb_bw_hz: prb_bw_hz.max(Value::of_integer(1)),
            tdd_dl_ratio: tdd_dl_ratio.clamp(Value::of_integer(0), Value::of_integer(1)),
            ..self
        }
    }

    /// The confidence moved by `delta`, within its limits.
    pub open spec fn bumped(self, delta: Value) -> EstimatorView {
        EstimatorView {
            confidence: self.confidence.plus(delta).clamp(hundredths(5), Value::of_integer(1)),
            ..self
        }
    }

    /// More confident by so many hundredths.
    pub open spec fn surer(self, n: nat) -> EstimatorView {
        self.bumped(hundredths(n))
    }

    /// Less confident by so many hundredths.
    pub open spec fn less_sure(self, n: nat) -> EstimatorView {
        self.bumped(hundredths(n).negated())
    }

    pub open spec fn touched(self) -> EstimatorView {
        EstimatorView { dirty: true, ..self }
    }

    /// What a row of the CQI table says.
    pub open spec fn with_cqi_row(self, cqi: u8) -> EstimatorView {
        EstimatorView {
            spectral_efficiency: Some(ten_thousandths(cqi_row(cqi).1 as nat)),
            last_mcs: Some(cqi_row(cqi).0),
            ..self
        }
    }

    /// A CQI reading. One close to the last adds to the confidence, a leap takes away from it.
    pub open spec fn with_cqi(self, reading: u8) -> EstimatorView {
        let cqi = if reading <= MAX_CQI {
            reading
        } else {
            MAX_CQI
        };
        let known = EstimatorView { last_cqi: Some(cqi), ..self.with_cqi_row(cqi) };
        let is_steady = self.last_cqi matches Some(previous) ==> -2 <= cqi - previous <= 2;
        if is_steady {
            known.surer(5).touched()
        } else {
            known.less_sure(10).touched()
        }
    }

    /// An MCS reading. One that is out of range is inferred from the last CQI, if there was one.
    pub open spec fn with_mcs(self, mcs: u8) -> EstimatorView {
        if mcs < MCS_COUNT {
            EstimatorView {
                spectral_efficiency: Some(ten_thousandths(mcs_efficiency(mcs) as nat)),
                last_mcs: Some(mcs),
                ..self
            }.surer(5).touched()
        } else {
            match self.last_cqi {
                Some(cqi) => self.with_cqi_row(cqi).less_sure(10).touched(),
                None => self.less_sure(10).touched(),
            }
        }
    }

    pub open spec fn with_prb_allocation(self, prbs: u32) -> EstimatorView {
        let known = EstimatorView { prb_count: Some(prbs), ..self };
        if prbs == 0 {
            known.less_sure(20).touched()
        } else {
            known.surer(2).touched()
        }
    }

    pub open spec fn with_sinr(self, sinr_db: Value, efficiency: Value) -> EstimatorView {
        let known = EstimatorView {
            sinr_db: Some(sinr_db),
            sinr_efficiency: Some(efficiency),
            ..self
        };
        if sinr_db.lt(Value::of_integer(0)) {
            known.less_sure(5).touched()
        } else {
            known.surer(3).touched()
        }
    }

    pub open spec fn with_rsrp(self, rsrp_dbm: Value) -> EstimatorView {
        if rsrp_dbm.lt(Value::of_integer(110).negated()) {
            self.less_sure(10)
        } else if Value::of_integer(95).negated().lt(rsrp_dbm) {
            self.surer(4)
        } else {
            self
        }
    }

    pub open spec fn with_rsrq(self, rsrq_db: Value) -> EstimatorView {
        if rsrq_db.lt(Value::of_integer(15).negated()) {
            self.less_sure(15)
        } else if Value::of_integer(9).negated().lt(rsrq_db) {
            self.surer(5)
        } else {
            self
        }
    }

    pub open spec fn with_pdsch_throughput(self, throughput_bps: Value) -> EstimatorView {
        if throughput_bps is Finite && Value::of_integer(0).lt(throughput_bps) {
            EstimatorView { throughput_bps: Some(throughput_bps), ..self }.surer(8).touched()
        } else {
            self.less_sure(10).touched()
        }
    }

    pub open spec fn with_bler(self, reading: Value) -> EstimatorView {
        let bler = reading.clamp(Value::of_integer(0), Value::of_integer(1));
        if reading !is Finite {
            self.touched()
        } else {
            let known = EstimatorView { bler: Some(bler), ..self };
            if hundredths(20).lt(bler) {
                known.less_sure(20).touched()
            } else if bler.lt(hundredths(5)) {
                known.surer(5).touched()
            } else {
                known.touched()
            }
        }
    }

    /// The spectral efficiency to reckon with.
    pub open spec fn efficiency(self) -> Option<Value> {
        match self.spectral_efficiency {
            Some(efficiency) => Some(efficiency),
            None => match self.sinr_efficiency {
                Some(efficiency) => Some(efficiency.max(hundredths(10))),
                None => None,
            },
        }
    }

    /// The raw capacity: efficiency times bandwidth.
    pub open spec fn phy_capacity(self) -> Option<Value> {
        match (self.efficiency(), self.prb_count) {
            (Some(efficiency), Some(prbs)) => Some(
                efficiency.times(
                    Value::of_integer(prbs as nat).times(self.prb_bw_hz).times(self.tdd_dl_ratio),
                ),
            ),
            _ => None,
        }
    }

    /// A capacity less what must be sent again.
    pub open spec fn discounted(self, phy: Value) -> Value {
        match self.bler {
            Some(bler) => phy.times(success_ratio(bler).max(hundredths(5))),
            None => phy,
        }
    }

    /// The measured throughput that caps the estimate.
    pub open spec fn cap(self) -> Option<Value> {
        match self.throughput_bps {
            Some(actual) => Some(
                if self.pdsch_is_goodput {
                    actual
                } else {
                    actual.times(
                        success_ratio(
                            match self.bler {
                                Some(bler) => bler,
                                None => Value::of_integer(0),
                            },
                        ),
                    )
                },
            ),
            None => None,
        }
    }

    /// The capacity that is left after losses, and no more than what was measured.
    pub open spec fn effective_capacity(self) -> Option<Value> {
        let phy = match self.ewma_phy_bps {
            Some(phy) => Some(phy),
            None => self.phy_capacity(),
        };
        match phy {
            Some(phy) => Some(
                match self.cap() {
                    Some(cap) => self.discounted(phy).min(cap),
                    None => self.discounted(phy),
                },
            ),
            None => None,
        }
    }

    /// Stage one: the raw capacity, and its smoothed value.
    pub open spec fn with_phy(self) -> EstimatorView {
        match self.phy_capacity() {
            Some(raw) => EstimatorView {
                phy_cap_bps: Some(raw),
                ewma_phy_bps: Some(smoothed(self.alpha_phy, raw, self.ewma_phy_bps)),
                ..self
            },
            None => self,
        }
    }

    /// Stage two: the smoothed effective capacity.
    pub open spec fn with_effective(self) -> EstimatorView {
        EstimatorView {
            ewma_effective_bps: match self.effective_capacity() {
                Some(raw) => Some(smoothed(self.alpha_effective, raw, self.ewma_effective_bps)),
                None => None,
            },
            dirty: false,
            ..self
        }
    }

    /// Up to date with all telemetry.
    pub open spec fn refreshed(self) -> EstimatorView {
        if self.dirty {
            self.with_phy().with_effective()
        } else {
            self
        }
    }

    /// The deliver rate, mixed with the prediction by the confidence in it.
    pub open spec fn blended(self, deliver_rate_bytes: u64) -> u64 {
        match self.ewma_effective_bps {
            None => deliver_rate_bytes,
            Some(predicted) => mixed(
                self.confidence.clamp(Value::of_integer(0), Value::of_integer(1)),
                predicted,
                Value::of_integer(deliver_rate_bytes as nat).times(Value::of_integer(8)),
            ).over(Value::of_integer(8)).max(Value::of_integer(0)).truncated(),
        }
    }
}

impl Default for CrossLayerEstimator {
    fn default() -> (r: CrossLayerEstimator)
        ensures
            r@ == EstimatorView::fresh(),
    {
        CrossLayerEstimator::new()
    }
}

impl CrossLayerEstimator {
    /// Create a fresh estimator with neutral confidence and default radio params.
    pub fn new() -> (r: CrossLayerEstimator)
        ensures
            r@ == EstimatorView::fresh(),
            r@.is_valid(),
    {
        proof {
            crate::cross_layer_laws::lemma_half_is_valid();
        }
        CrossLayerEstimator {
            alpha_phy: Float64::ratio(45, 100),
            alpha_effective: Float64::ratio(55, 100),
            prb_bw_hz: Float64::from_u64(PRB_BW_HZ),
            tdd_dl_ratio: Float64::from_u64(1),
            pdsch_is_goodput: true,
            spectral_efficiency: None,
            prb_count: None,
            sinr_db: None,
            sinr_efficiency: None,
            throughput_bps: None,
            bler: None,
            phy_cap_bps: None,
            ewma_phy_bps: None,
            ewma_effective_bps: None,
            confidence: Float64::ratio(50, 100),
            last_cqi: None,
            last_mcs: None,
            dirty: false,
        }
    }

    /// Override EWMA smoothing parameters.
    pub fn with_smoothing(self, alpha_phy: Float64, alpha_effective: Float64) -> (r: Self)
        ensures
            r@ == (EstimatorView {
                alpha_phy: alpha_phy.value().clamp(hundredths(1), hundredths(99)),
                alpha_effective: alpha_effective.value().clamp(hundredths(1), hundredths(99)),
                ..self@
            }),
            r@ == self@.with_shares(alpha_phy.value(), alpha_effective.value()),
    {
        let low = Float64::ratio(1, 100);
        let high = Float64::ratio(99, 100);
        CrossLayerEstimator {
            alpha_phy: alpha_phy.clamp(&low, &high),
            alpha_effective: alpha_effective.clamp(&low, &high),
            ..self
        }
    }

    /// Override radio layout parameters (PRB bandwidth and TDD DL ratio).
    pub fn with_radio_params(self, prb_bw_hz: Float64, tdd_dl_ratio: Float64) -> (r: Self)
        ensures
            r@ == (EstimatorView {
                prb_bw_hz: prb_bw_hz.value().max(Value::of_integer(1)),
                tdd_dl_ratio: tdd_dl_ratio.value().clamp(
                    Value::of_integer(0),
                    Value::of_integer(1),
                ),
                ..self@
            }),
            r@ == self@.with_layout(prb_bw_hz.value(), tdd_dl_ratio.value()),
    {
        CrossLayerEstimator {
            prb_bw_hz: prb_bw_hz.max(&Float64::from_u64(1)),
            tdd_dl_ratio: tdd_dl_ratio.clamp(&Float64::from_u64(0), &Float64::from_u64(1)),
            ..self
        }
    }

    /// Mark whether PDSCH throughput is already a goodput measurement.
    pub fn with_pdsch_is_goodput(self, is_goodput: bool) -> (r: Self)
        ensures
            r@ == (EstimatorView { pdsch_is_goodput: is_goodput, ..self@ }),
    {
        CrossLayerEstimator { pdsch_is_goodput: is_goodput, ..self }
    }

    /// Adjust the internal confidence score within safe bounds.
    fn bump_confidence(&mut self, delta: Float64)
        ensures
            final(self)@ == old(self)@.bumped(delta.value()),
    {
        self.confidence = self.confidence.add(&delta).clamp(
            &Float64::ratio(5, 100),
            &Float64::from_u64(1),
        );
    }

    fn gain_confidence(&mut self, n: u64)
        requires
            n <= 100,
        ensures
            final(self)@ == old(self)@.surer(n as nat),
            old(self)@.is_valid() ==> final(self)@.is_valid(),
    {
        proof {
            crate::cross_layer_laws::lemma_bumps_are_valid(self@, n as nat);
        }
        self.bump_confidence(Float64::ratio(n, 100));
    }

    fn lose_confidence(&mut self, n: u64)
        requires
            n <= 100,
        ensures
            final(self)@ == old(self)@.less_sure(n as nat),
            old(self)@.is_valid() ==> final(self)@.is_valid(),
    {
        proof {
            crate::cross_layer_laws::lemma_bumps_are_valid(self@, n as nat);
        }
        self.bump_confidence(Float64::ratio(n, 100).neg());
    }

    /// Push a new CQI reading (0-15) and refresh the spectral efficiency accordingly.
    pub fn update_cqi(&mut self, cqi: u8)
        ensures
            final(self)@ == old(self)@.with_cqi(cqi),
            old(self)@.is_valid() ==> final(self)@.is_valid(),
    {
        let reading: u8 = if cqi <= MAX_CQI {
            cqi
        } else {
            MAX_CQI
        };
        // Compute the difference before overwriting the last reading.
        let diff: u8 = match self.last_cqi {
            Some(previous) => if previous >= reading {
                previous - reading
            } else {
                reading - previous
            },
            None => 0,
        };
        let entry = CqiEntry::of_cqi(reading);
        self.spectral_efficiency = Some(Float64::ratio(entry.efficiency, 10_000));
        self.last_cqi = Some(reading);
        self.last_mcs = Some(entry.mcs_index);
        if diff <= 2 {
            // Small variations imply stability -> trust the radio prediction a bit more.
            self.gain_confidence(5);
        } else {
            // Rapid swings hint that radio-side prediction could be noisy.
            self.lose_confidence(10);
        }
        self.dirty = true;
    }

    /// Record the current MCS index. Falls back to CQI inference if index is out of range.
    pub fn update_mcs(&mut self, mcs: u8)
        ensures
            final(self)@ == old(self)@.with_mcs(mcs),
            old(self)@.is_valid() ==> final(self)@.is_valid(),
    {
        match get_mcs_efficiency(mcs) {
            Some(efficiency) => {
                proof {
                    lemma_mcs_efficiency_small(mcs);
                }
                self.spectral_efficiency = Some(Float64::ratio(efficiency, 10_000));
                self.last_mcs = Some(mcs);
                self.gain_confidence(5);
            },
            None => {
                if let Some(cqi) = self.last_cqi {
                    let entry = CqiEntry::of_cqi(cqi);
                    self.spectral_efficiency = Some(Float64::ratio(entry.efficiency, 10_000));
                    self.last_mcs = Some(entry.mcs_index);
                }
                self.lose_confidence(10);
            },
        }
        self.dirty = true;
    }

    /// Refresh the number of PRBs scheduled for the UE in the latest TTI.
    pub fn update_prb_allocation(&mut self, prbs: u32)
        ensures
            final(self)@ == old(self)@.with_prb_allocation(prbs),
            old(self)@.is_valid() ==> final(self)@.is_valid(),
    {
        self.prb_count = Some(prbs);
        if prbs == 0 {
            self.lose_confidence(20);
        } else {
            self.gain_confidence(2);
        }
        self.dirty = true;
    }

    /// Update SINR (dB), with the spectral efficiency `log2(1 + SINR)` that it allows. Used as a
    /// fallback when no CQI/MCS is available.
    pub fn update_sinr(&mut self, sinr_db: Float64, efficiency: Float64)
        ensures
            final(self)@ == old(self)@.with_sinr(sinr_db.value(), efficiency.value()),
            old(self)@.is_valid() ==> final(self)@.is_valid(),
    {
        self.sinr_db = Some(sinr_db);
        self.sinr_efficiency = Some(efficiency);
        if sinr_db.lt(&Float64::from_u64(0)) {
            // Poor SNR often means a too-optimistic PHY estimate.
            self.lose_confidence(5);
        } else {
            self.gain_confidence(3);
        }
        self.dirty = true;
    }

    /// Feed RSRP/RSRQ readings to adjust confidence without changing the capacity estimate.
    pub fn update_radio_quality(&mut self, rsrp_dbm: Float64, rsrq_db: Float64)
        ensures
            final(self)@ == old(self)@.with_rsrp(rsrp_dbm.value()).with_rsrq(rsrq_db.value()),
            old(self)@.is_valid() ==> final(self)@.is_valid(),
    {
        if rsrp_dbm.lt(&Float64::from_u64(110).neg()) {
            // Very weak received power: edge-like conditions -> be cautious.
            self.lose_confidence(10);
        } else if Float64::from_u64(95).neg().lt(&rsrp_dbm) {
            // Strong signal: CQI-driven capacity tends to be reliable.
            self.gain_confidence(4);
        }
        if rsrq_db.lt(&Float64::from_u64(15).neg()) {
            // Heavy interference / cell load tends to increase retransmissions.
            self.lose_confidence(15);
        } else if Float64::from_u64(9).neg().lt(&rsrq_db) {
            self.gain_confidence(5);
        }
    }

    /// Provide the measured PDSCH throughput (bit/s), used to cap optimistic PHY estimates.
    pub fn update_pdsch_throughput(&mut self, throughput_bps: Float64)
        ensures
            final(self)@ == old(self)@.with_pdsch_throughput(throughput_bps.value()),
            old(self)@.is_valid() ==> final(self)@.is_valid(),
    {
        if throughput_bps.is_finite() && Float64::from_u64(0).lt(&throughput_bps) {
            self.throughput_bps = Some(throughput_bps);
            self.gain_confidence(8);
        } else {
            self.lose_confidence(10);
        }
        self.dirty = true;
    }

    /// Provide the current BLER (0..1) to discount retransmissions.
    pub fn update_bler(&mut self, bler: Float64)
        ensures
            final(self)@ == old(self)@.with_bler(bler.value()),
            old(self)@.is_valid() ==> final(self)@.is_valid(),
    {
        if bler.is_finite() {
            let clamped = bler.clamp(&Float64::from_u64(0), &Float64::from_u64(1));
            self.bler = Some(clamped);
            if Float64::ratio(20, 100).lt(&clamped) {
                // High BLER means many retransmissions, so lower confidence markedly.
                self.lose_confidence(20);
            } else if clamped.lt(&Float64::ratio(5, 100)) {
                // Low BLER: PHY prediction aligns well with reality.
                self.gain_confidence(5);
            }
        }
        self.dirty = true;
    }

    /// Current confidence score.
    pub fn confidence(&self) -> (r: Float64)
        ensures
            r.value() == self@.confidence,
    {
        self.confidence
    }

    /// Return the smoothed *effective* throughput prediction in bit/s, if available.
    pub fn predict_effective_bps(&mut self) -> (r: Option<Float64>)
        ensures
            final(self)@ == old(self)@.refreshed(),
            value_of(r) == final(self)@.ewma_effective_bps,
            old(self)@.is_valid() ==> final(self)@.is_valid(),
    {
        if self.dirty {
            // Lazily recompute when new telemetry has arrived.
            self.recompute();
        }
        self.ewma_effective_bps
    }

    /// Blend the cross-layer prediction (if any) with an ACK-based deliver rate (bytes/s). The
    /// confidence acts as the mixing weight for the cross-layer term.
    pub fn blend_with_deliver_rate(&mut self, deliver_rate_bytes: u64) -> (r: u64)
        ensures
            final(self)@ == old(self)@.refreshed(),
            r == final(self)@.blended(deliver_rate_bytes),
            old(self)@.is_valid() ==> final(self)@.is_valid(),
    {
        let eight = Float64::from_u64(8);
        let deliver_rate_bps = Float64::from_u64(deliver_rate_bytes).mul(&eight);
        match self.predict_effective_bps() {
            // No cross-layer signal: fall back to the transport-only rate.
            None => deliver_rate_bytes,
            Some(predicted) => {
                let zero = Float64::from_u64(0);
                let weight = self.confidence.clamp(&zero, &Float64::from_u64(1));
                mix(&weight, &predicted, &deliver_rate_bps).div(&eight).max(&zero).to_u64()
            },
        }
    }

    /// Recompute cached PHY and effective capacities after new telemetry.
    fn recompute(&mut self)
        ensures
            final(self)@ == old(self)@.with_phy().with_effective(),
    {
        // Stage 1: refresh instantaneous PHY capacity and smooth it (EWMA).
        if let Some(raw_phy) = self.estimate_phy_capacity() {
            self.phy_cap_bps = Some(raw_phy);
            self.ewma_phy_bps = Some(smooth(&self.alpha_phy, &raw_phy, &self.ewma_phy_bps));
        }
        // Stage 2: derive effective capacity (apply BLER/PDSCH) and smooth it.
        self.ewma_effective_bps = match self.estimate_effective_capacity() {
            Some(raw) => Some(smooth(&self.alpha_effective, &raw, &self.ewma_effective_bps)),
            None => None,
        };
        self.dirty = false;
    }

    /// Estimate instantaneous PHY capacity from spectral efficiency and PRB allocation. Falls back
    /// to a Shannon-like efficiency approximation when only SINR is available.
    fn estimate_phy_capacity(&self) -> (r: Option<Float64>)
        ensures
            value_of(r) == self@.phy_capacity(),
    {
        let efficiency = match self.spectral_efficiency {
            Some(efficiency) => efficiency,
            None => match self.sinr_efficiency {
                // The small floor avoids fully collapsing the EWMA on brief outages.
                Some(efficiency) => efficiency.max(&Float64::ratio(10, 100)),
                None => return None,
            },
        };
        match self.prb_count {
            Some(prbs) => {
                let bandwidth_hz = Float64::from_u64(prbs as u64).mul(&self.prb_bw_hz).mul(
                    &self.tdd_dl_ratio,
                );
                Some(efficiency.mul(&bandwidth_hz))
            },
            None => None,
        }
    }

    /// Apply BLER discount and PDSCH cap to convert PHY capacity into an "effective" one.
    fn estimate_effective_capacity(&self) -> (r: Option<Float64>)
        ensures
            value_of(r) == self@.effective_capacity(),
    {
        let phy = match self.ewma_phy_bps {
            Some(phy) => phy,
            None => match self.estimate_phy_capacity() {
                Some(phy) => phy,
                None => return None,
            },
        };
        let discounted = match self.bler {
            // Keep a small floor to avoid dropping to zero during transient spikes.
            Some(bler) => phy.mul(&get_success_ratio(&bler).max(&Float64::ratio(5, 100))),
            None => phy,
        };
        match self.throughput_bps {
            None => Some(discounted),
            Some(actual) => {
                if self.pdsch_is_goodput {
                    // Already the actual delivered rate: treat as an upper bound.
                    Some(discounted.min(&actual))
                } else {
                    // A figure before retransmission: cap by the expected successful part.
                    let bler = match self.bler {
                        Some(bler) => bler,
                        None => Float64::from_u64(0),
                    };
                    Some(discounted.min(&actual.mul(&get_success_ratio(&bler))))
                }
            },
        }
    }
}

/// No efficiency of the table is above this one.
pub proof fn lemma_mcs_efficiency_small(mcs: u8)
    requires
        mcs < MCS_COUNT,
    ensures
        mcs_efficiency(mcs) <= 116953,
{
}

} // verus!
