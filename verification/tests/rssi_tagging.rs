use ax25_node_core::radio::rssi_tagging::{
    airtime_us, RssiTagger, RssiTaggingConfig, WINDOW_CAPACITY,
};

#[test]
fn airtime_matches_integer_formula() {
    assert_eq!(airtime_us(27, 9600), Some(25_000));
    assert_eq!(airtime_us(10, 0), None);
}

#[test]
fn noise_floor_seeds_then_emas_with_integer_coefficient() {
    let mut t = RssiTagger::new(RssiTaggingConfig::default(), true);
    t.record_sample(100_000, -1000, Some(false));
    assert_eq!(t.noise_floor_tenths(), Some(-1000));
    t.record_sample(200_000, -900, Some(false));
    assert_eq!(t.noise_floor_tenths(), Some(-980));
    t.record_sample(300_000, -400, Some(true));
    assert_eq!(t.noise_floor_tenths(), Some(-980));
}

#[test]
fn window_attribution_gives_median_snr_and_burst_index() {
    let mut t = RssiTagger::new(RssiTaggingConfig::default(), true);
    t.record_sample(100_000, -1000, Some(false));
    t.carrier_edge(true, 1_000_000);
    t.record_sample(1_020_000, -500, Some(true));
    t.record_sample(1_050_000, -480, Some(true));
    t.record_sample(1_080_000, -520, Some(true));
    t.carrier_edge(false, 1_100_000);

    let meta = t
        .attribute(1_130_000, 27, Some(9600))
        .expect("attributed");
    assert_eq!(meta.rssi_dbm_tenths, Some(-500));
    assert_eq!(meta.rssi_min_dbm_tenths, Some(-520));
    assert_eq!(meta.rssi_max_dbm_tenths, Some(-480));
    assert_eq!(meta.rssi_sample_count, 3);
    assert_eq!(meta.noise_floor_dbm_tenths, Some(-1000));
    assert_eq!(meta.snr_db_tenths, Some(500));
    assert_eq!(meta.carrier_rise_at_us, Some(1_000_000));
    assert_eq!(meta.burst_index, Some(0));
    assert_eq!(meta.estimated_airtime_us, Some(25_000));
    assert_eq!(meta.pre_data_carrier_us, Some(105_000));

    let meta2 = t
        .attribute(1_140_000, 27, Some(9600))
        .expect("attributed");
    assert_eq!(meta2.burst_index, Some(1));
    assert_eq!(meta2.pre_data_carrier_us, None);
}

#[test]
fn open_window_is_preferred_before_carrier_fall() {
    let mut t = RssiTagger::new(RssiTaggingConfig::default(), true);
    t.carrier_edge(true, 2_000_000);
    t.record_sample(2_010_000, -600, Some(true));
    let meta = t.attribute(2_020_000, 20, None).expect("attributed");
    assert_eq!(meta.rssi_dbm_tenths, Some(-600));
    assert_eq!(meta.carrier_rise_at_us, Some(2_000_000));
    assert_eq!(meta.burst_index, Some(0));
    assert_eq!(meta.estimated_airtime_us, None);
}

#[test]
fn threshold_fallback_without_carrier_sense() {
    let mut t = RssiTagger::new(RssiTaggingConfig::default(), false);
    t.record_sample(1_000, -1000, None);
    t.record_sample(2_000, -1000, None);
    t.record_sample(3_000, -300, None);
    t.record_sample(4_000, -320, None);
    let meta = t.attribute(5_000, 15, None).expect("attributed");
    assert_eq!(meta.rssi_dbm_tenths, Some(-300));
    assert_eq!(meta.rssi_min_dbm_tenths, Some(-320));
    assert_eq!(meta.rssi_max_dbm_tenths, Some(-300));
    assert_eq!(meta.rssi_sample_count, 2);
    assert_eq!(meta.burst_index, None);
    assert_eq!(meta.carrier_rise_at_us, None);
}

#[test]
fn no_qualifying_sample_yields_airtime_only_or_none() {
    let mut t = RssiTagger::new(RssiTaggingConfig::default(), true);
    let meta = t.attribute(10_000, 27, Some(9600)).expect("airtime-only");
    assert_eq!(meta.estimated_airtime_us, Some(25_000));
    assert_eq!(meta.rssi_dbm_tenths, None);
    assert_eq!(meta.burst_index, None);
    assert_eq!(t.attribute(10_000, 27, None), None);
}

#[test]
fn closed_windows_are_capped_at_capacity() {
    let mut t = RssiTagger::new(RssiTaggingConfig::default(), true);
    for k in 0..(WINDOW_CAPACITY as u64 + 3) {
        let base = 1_000_000 + k * 10_000;
        t.carrier_edge(true, base);
        t.carrier_edge(false, base + 1_000);
    }
    assert_eq!(t.window_len(), WINDOW_CAPACITY);
    assert_eq!(t.attribute(1_000_500, 20, None), None);
}

#[test]
fn old_samples_are_pruned_beyond_the_horizon() {
    let mut t = RssiTagger::new(RssiTaggingConfig::default(), false);
    t.record_sample(0, -500, None);
    t.record_sample(20_000_000, -400, None);
    assert_eq!(t.sample_len(), 1);
}
