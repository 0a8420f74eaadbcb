use stream_pacing::cross_layer::{CqiEntry, CrossLayerEstimator, PRB_BW_HZ};
use stream_pacing::float64::Float64;

fn f(x: f64) -> Float64 {
    Float64::from_bits(x.to_bits())
}

fn n(x: Float64) -> f64 {
    f64::from_bits(x.to_bits())
}

#[test]
fn basic_prediction_uses_cqi_and_prb() {
    let mut est = CrossLayerEstimator::new();
    est.update_cqi(12);
    est.update_prb_allocation(50);
    est.update_bler(f(0.05));
    let predicted = n(est.predict_effective_bps().unwrap());
    // Should land near efficiency 3.3223 * 50 * 180k * (1 - 0.05).
    let expected = 3.3223 * 50.0 * PRB_BW_HZ as f64 * 0.95;
    assert!((predicted - expected).abs() / expected < 0.25);
}

#[test]
fn high_bler_reduces_prediction() {
    let mut est = CrossLayerEstimator::new();
    est.update_cqi(14);
    est.update_prb_allocation(30);
    est.update_bler(f(0.5));
    let predicted = n(est.predict_effective_bps().unwrap());
    let baseline = 5.1152 * 30.0 * PRB_BW_HZ as f64;
    assert!(predicted < baseline * 0.7);
}

#[test]
fn blend_falls_back_to_deliver_rate() {
    let mut est = CrossLayerEstimator::new();
    let deliver = 2_000_000u64;
    assert_eq!(est.blend_with_deliver_rate(deliver), deliver);
}

#[test]
fn prediction_is_exact_and_stable() {
    let mut est = CrossLayerEstimator::default();
    est.update_cqi(12);
    est.update_prb_allocation(50);
    est.update_bler(f(0.05));
    let phy = 3.9023 * (50.0 * 180_000.0 * 1.0);
    let expected = phy * (1.0f64 - 0.05).clamp(0.0, 1.0).max(0.05);
    assert_eq!(n(est.predict_effective_bps().unwrap()), expected);
    assert_eq!(n(est.predict_effective_bps().unwrap()), expected);
    assert_eq!(n(est.phy_cap_bps.unwrap()), phy);
}

#[test]
fn capacities_are_smoothed() {
    let mut est = CrossLayerEstimator::new();
    est.update_cqi(12);
    est.update_prb_allocation(50);
    let first = 3.9023 * (50.0 * 180_000.0);
    assert_eq!(n(est.predict_effective_bps().unwrap()), first);
    est.update_prb_allocation(10);
    let raw = 3.9023 * (10.0 * 180_000.0);
    let phy = 0.45 * raw + (1.0 - 0.45) * first;
    let effective = 0.55 * phy + (1.0 - 0.55) * first;
    assert_eq!(n(est.predict_effective_bps().unwrap()), effective);
    assert_eq!(n(est.phy_cap_bps.unwrap()), raw);
    assert_eq!(n(est.ewma_phy_bps.unwrap()), phy);
}

#[test]
fn tables_hold_the_efficiencies() {
    let cqi: [(u8, f64); 16] = [
        (0, 0.1523),
        (0, 0.1523),
        (1, 0.2344),
        (2, 0.3770),
        (3, 0.6016),
        (4, 0.8770),
        (5, 1.1758),
        (6, 1.4766),
        (7, 1.9141),
        (9, 2.4063),
        (11, 2.7305),
        (13, 3.3223),
        (15, 3.9023),
        (17, 4.5234),
        (19, 5.1152),
        (27, 5.5547),
    ];
    for (i, (mcs, efficiency)) in cqi.iter().enumerate() {
        let mut est = CrossLayerEstimator::new();
        est.update_cqi(i as u8);
        assert_eq!(est.last_mcs, Some(*mcs));
        assert_eq!(n(est.spectral_efficiency.unwrap()), *efficiency);
        assert_eq!(CqiEntry::of_cqi(i as u8).mcs_index, *mcs);
    }
    let mcs: [f64; 28] = [
        0.1523, 0.2344, 0.3770, 0.6016, 0.8770, 1.1758, 1.4766, 1.9141, 2.4063, 2.7305, 3.3223,
        3.9023, 4.5234, 5.1152, 5.5547, 6.2266, 6.9141, 7.4063, 7.9141, 8.4063, 8.8984, 9.3984,
        9.8457, 10.2734, 10.6953, 11.0352, 11.3789, 11.6953,
    ];
    for (i, efficiency) in mcs.iter().enumerate() {
        let mut est = CrossLayerEstimator::new();
        est.update_mcs(i as u8);
        assert_eq!(est.last_mcs, Some(i as u8));
        assert_eq!(n(est.spectral_efficiency.unwrap()), *efficiency);
    }
}

#[test]
fn a_cqi_above_the_table_counts_as_the_highest() {
    let mut est = CrossLayerEstimator::new();
    est.update_cqi(200);
    assert_eq!(est.last_cqi, Some(15));
    assert_eq!(n(est.spectral_efficiency.unwrap()), 5.5547);
}

#[test]
fn an_unknown_mcs_falls_back_to_the_cqi() {
    let mut est = CrossLayerEstimator::new();
    est.update_cqi(10);
    est.update_mcs(20);
    assert_eq!(n(est.spectral_efficiency.unwrap()), 8.8984);
    est.update_mcs(28);
    assert_eq!(n(est.spectral_efficiency.unwrap()), 2.7305);
    assert_eq!(est.last_mcs, Some(11));

    let mut blank = CrossLayerEstimator::new();
    blank.update_mcs(99);
    assert!(blank.spectral_efficiency.is_none());
    assert_eq!(n(blank.confidence()), 0.5 - 0.1);
}

#[test]
fn confidence_follows_the_readings() {
    let mut est = CrossLayerEstimator::new();
    let mut expected = 0.5f64;
    assert_eq!(n(est.confidence()), expected);
    let mut check = |est: &CrossLayerEstimator, delta: f64| {
        expected = (expected + delta).clamp(0.05, 1.0);
        assert_eq!(n(est.confidence()), expected);
    };
    est.update_cqi(5);
    check(&est, 0.05);
    est.update_cqi(7);
    check(&est, 0.05);
    est.update_cqi(4);
    check(&est, -0.1);
    est.update_mcs(3);
    check(&est, 0.05);
    est.update_mcs(77);
    check(&est, -0.1);
    est.update_prb_allocation(0);
    check(&est, -0.2);
    est.update_prb_allocation(3);
    check(&est, 0.02);
    est.update_sinr(f(-1.0), f(0.8));
    check(&est, -0.05);
    est.update_sinr(f(3.0), f(1.6));
    check(&est, 0.03);
    est.update_pdsch_throughput(f(1e6));
    check(&est, 0.08);
    est.update_pdsch_throughput(f(0.0));
    check(&est, -0.1);
    est.update_pdsch_throughput(f(f64::NAN));
    check(&est, -0.1);
    est.update_bler(f(0.3));
    check(&est, -0.2);
    est.update_bler(f(0.01));
    check(&est, 0.05);
    est.update_bler(f(0.1));
    check(&est, 0.0);
    est.update_bler(f(f64::NAN));
    check(&est, 0.0);
    est.update_radio_quality(f(-120.0), f(-12.0));
    check(&est, -0.1);
    est.update_radio_quality(f(-90.0), f(-12.0));
    check(&est, 0.04);
    est.update_radio_quality(f(-100.0), f(-16.0));
    check(&est, -0.15);
    est.update_radio_quality(f(-100.0), f(-8.0));
    check(&est, 0.05);
    for _ in 0..40 {
        est.update_prb_allocation(0);
        check(&est, -0.2);
    }
    assert_eq!(n(est.confidence()), 0.05);
    for _ in 0..40 {
        est.update_pdsch_throughput(f(1e6));
        check(&est, 0.08);
    }
    assert_eq!(n(est.confidence()), 1.0);
}

#[test]
fn radio_quality_keeps_the_estimate() {
    let mut est = CrossLayerEstimator::new();
    est.update_cqi(9);
    est.update_prb_allocation(20);
    let before = n(est.predict_effective_bps().unwrap());
    est.update_radio_quality(f(-120.0), f(-20.0));
    assert!(!est.dirty);
    assert_eq!(n(est.predict_effective_bps().unwrap()), before);
}

#[test]
fn sinr_is_used_only_without_cqi() {
    let mut est = CrossLayerEstimator::new();
    est.update_prb_allocation(10);
    est.update_sinr(f(-20.0), f(0.014));
    // The floor of a tenth applies.
    assert_eq!(n(est.predict_effective_bps().unwrap()), 0.1 * (10.0 * 180_000.0));

    let mut other = CrossLayerEstimator::new();
    other.update_prb_allocation(10);
    other.update_sinr(f(10.0), f(11.0f64.log2()));
    other.update_cqi(8);
    assert_eq!(n(other.predict_effective_bps().unwrap()), 1.9141 * (10.0 * 180_000.0));
}

#[test]
fn measured_throughput_caps_the_estimate() {
    let mut est = CrossLayerEstimator::new();
    est.update_cqi(15);
    est.update_prb_allocation(100);
    est.update_bler(f(0.25));
    est.update_pdsch_throughput(f(5e6));
    assert_eq!(n(est.predict_effective_bps().unwrap()), 5e6);

    let mut raw = CrossLayerEstimator::new().with_pdsch_is_goodput(false);
    raw.update_cqi(15);
    raw.update_prb_allocation(100);
    raw.update_bler(f(0.25));
    raw.update_pdsch_throughput(f(5e6));
    assert_eq!(n(raw.predict_effective_bps().unwrap()), 5e6 * 0.75);

    let mut unknown = CrossLayerEstimator::new().with_pdsch_is_goodput(false);
    unknown.update_cqi(15);
    unknown.update_prb_allocation(100);
    unknown.update_pdsch_throughput(f(5e6));
    assert_eq!(n(unknown.predict_effective_bps().unwrap()), 5e6);
}

#[test]
fn parameters_are_kept_in_range() {
    let est = CrossLayerEstimator::new().with_smoothing(f(-1.0), f(7.0));
    assert_eq!(n(est.alpha_phy), 0.01);
    assert_eq!(n(est.alpha_effective), 0.99);
    let est = est.with_radio_params(f(0.0), f(1.5));
    assert_eq!(n(est.prb_bw_hz), 1.0);
    assert_eq!(n(est.tdd_dl_ratio), 1.0);
    let est = est.with_radio_params(f(360_000.0), f(0.75)).with_smoothing(f(0.2), f(0.3));
    assert_eq!(n(est.prb_bw_hz), 360_000.0);
    assert_eq!(n(est.tdd_dl_ratio), 0.75);
    assert_eq!(n(est.alpha_phy), 0.2);
    assert_eq!(n(est.alpha_effective), 0.3);
}

#[test]
fn blend_weighs_by_confidence() {
    let mut est = CrossLayerEstimator::new();
    est.update_cqi(12);
    est.update_prb_allocation(50);
    let weight = n(est.confidence());
    let predicted = 3.9023 * (50.0 * 180_000.0);
    let deliver = 1_234_567u64;
    let mixed = weight * predicted + (1.0 - weight) * (deliver as f64 * 8.0);
    assert_eq!(est.blend_with_deliver_rate(deliver), (mixed / 8.0).max(0.0) as u64);
}

#[test]
fn losses_never_raise_the_prediction() {
    for bler in [0.0, 0.001, 0.3, 0.99, 1.0] {
        let mut clean = CrossLayerEstimator::new();
        clean.update_cqi(11);
        clean.update_prb_allocation(33);
        let mut lossy = clean.clone();
        lossy.update_bler(f(bler));
        let expected = 3.3223 * (33.0 * 180_000.0) * (1.0 - bler).max(0.05);
        let predicted = n(lossy.predict_effective_bps().unwrap());
        assert_eq!(predicted, expected);
        assert!(predicted <= n(clean.predict_effective_bps().unwrap()));
    }
}

#[test]
fn the_blend_lies_between_both_rates() {
    for prbs in [0u32, 1, 7, 100, 4000] {
        for deliver in [0u64, 1, 999, 1_000_000, 123_456_789, (1 << 50) - 1] {
            let mut est = CrossLayerEstimator::new();
            est.update_cqi(13);
            est.update_prb_allocation(prbs);
            let predicted = (n(est.predict_effective_bps().unwrap()) / 8.0) as u64;
            let blend = est.blend_with_deliver_rate(deliver);
            assert!(blend + 1 >= deliver.min(predicted));
            assert!(blend <= deliver.max(predicted) + 1);
        }
    }
}

#[test]
fn nothing_is_predicted_without_reports() {
    let mut est = CrossLayerEstimator::new();
    est.update_cqi(9);
    est.update_bler(f(0.1));
    est.update_pdsch_throughput(f(1e6));
    assert!(est.predict_effective_bps().is_none());
    assert_eq!(est.blend_with_deliver_rate(77), 77);
    let mut other = CrossLayerEstimator::new();
    other.update_prb_allocation(10);
    other.update_mcs(200);
    assert!(other.predict_effective_bps().is_none());
    other.update_mcs(4);
    assert!(other.predict_effective_bps().is_some());
}

#[test]
fn a_prediction_of_minus_zero_is_blended_as_zero() {
    let mut est = CrossLayerEstimator::new().with_radio_params(f(180_000.0), f(-0.0));
    est.update_cqi(13);
    est.update_prb_allocation(10);
    let predicted = n(est.predict_effective_bps().unwrap());
    assert_eq!(predicted.to_bits(), (-0.0f64).to_bits());
    let weight = n(est.confidence());
    let expected = (weight * predicted + (1.0 - weight) * 8_000_000.0) / 8.0;
    assert_eq!(est.blend_with_deliver_rate(1_000_000), expected as u64);
}
