use ax25_node_core::radio::levels::{sorted, stats, LevelStats};
use ax25_node_core::radio::rssi_tagging::{airtime_us, RssiTagger, RssiTaggingConfig};
use ax25_node_core::radio::RadioCapabilities;

#[test]
fn levels_are_put_in_order() {
    assert_eq!(sorted(&[-500, -900, -500, 0, -32768]), vec![-32768, -900, -500, -500, 0]);
    assert_eq!(sorted(&[]), Vec::<i16>::new());
}

#[test]
fn the_median_of_an_even_number_is_the_stronger() {
    let expected = LevelStats { median: -500, min: -900, max: -400, count: 4 };
    assert_eq!(stats(&[-500, -900, -400, -700]), Some(expected));
    let alone = LevelStats { median: 7, min: 7, max: 7, count: 1 };
    assert_eq!(stats(&[7]), Some(alone));
    assert_eq!(stats(&[]), None);
}

#[test]
fn statistics_are_levels_that_occur() {
    let levels = [-731, -1201, 44, -731, 900, -2];
    let s = stats(&levels).unwrap();
    assert_eq!((s.min, s.max), (-1201, 900));
    assert!(levels.contains(&s.median));
    assert_eq!(s.count, 6);
}

#[test]
fn the_noise_floor_never_passes_the_sample() {
    let mut t = RssiTagger::new(RssiTaggingConfig::default(), true);
    t.record_sample(0, -1200, Some(false));
    let mut floor = -1200;
    for i in 1..200u64 {
        t.record_sample(i * 1000, -800, Some(false));
        let next = t.noise_floor_tenths().unwrap();
        assert!(floor <= next && next <= -800);
        floor = next;
    }
    // Steps are whole tenths, so the floor stops a little short of the sample.
    assert_eq!(floor, -804);
}

#[test]
fn frames_of_one_transmission_count_up_and_late_ones_belong_to_it() {
    let mut t = RssiTagger::new(RssiTaggingConfig::default(), true);
    t.carrier_edge(true, 1_000_000);
    let first = t.attribute(1_100_000, 10, None).unwrap();
    assert_eq!(first.burst_index, Some(0));
    t.carrier_edge(false, 1_200_000);
    let second = t.attribute(1_700_000, 10, None).unwrap();
    assert_eq!(second.burst_index, Some(1));
    assert_eq!(second.carrier_rise_at_us, Some(1_000_000));
    assert_eq!(second.pre_data_carrier_us, None);
    assert_eq!(t.attribute(1_700_001, 10, None), None);
}

#[test]
fn a_carrier_that_rises_again_starts_a_new_transmission() {
    let mut t = RssiTagger::new(RssiTaggingConfig::default(), true);
    t.carrier_edge(true, 1_000_000);
    t.attribute(1_100_000, 10, None).unwrap();
    t.carrier_edge(false, 1_200_000);
    t.carrier_edge(true, 1_300_000);
    let m = t.attribute(1_400_000, 10, None).unwrap();
    assert_eq!(m.burst_index, Some(0));
    assert_eq!(m.carrier_rise_at_us, Some(1_300_000));
}

#[test]
fn airtime_counts_three_octets_more_and_rounds_down() {
    assert_eq!(airtime_us(0, 1200), Some(20_000));
    assert_eq!(airtime_us(1, 1000), Some(32_000));
    assert_eq!(airtime_us(1, 3), Some(10_666_666));
    assert_eq!(airtime_us(usize::MAX, 0), None);
}

#[test]
fn capabilities_add_up() {
    let both = RadioCapabilities::rssi_read().union(RadioCapabilities::side_channel());
    assert_eq!(both.bits(), 0x41);
    assert_eq!(both, RadioCapabilities::rssi_read() | RadioCapabilities::side_channel());
    assert!(both.contains(RadioCapabilities::side_channel()));
    assert!(both.contains(RadioCapabilities::rssi_read()));
    assert!(both.contains(RadioCapabilities::none()));
    assert!(!both.contains(RadioCapabilities::carrier_sense()));
    assert!(!RadioCapabilities::none().contains(RadioCapabilities::tx_power_control()));
    assert_eq!(RadioCapabilities::transmitter_control().bits(), 0x04);
    assert_eq!(RadioCapabilities::channel_change().bits(), 0x08);
    assert_eq!(RadioCapabilities::frequency_control().bits(), 0x10);
    assert_eq!(RadioCapabilities::tx_power_control().bits(), 0x20);
}
