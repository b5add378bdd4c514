use ax25_node_core::tune::meter_report::parse_db_tenths;
use ax25_node_core::tune::MeterReport;

fn args_str<'a>(buf: &'a mut [u8], report: &MeterReport) -> &'a str {
    let n = report.to_args_into(buf).unwrap();
    std::str::from_utf8(&buf[..n]).unwrap()
}

fn compact_str<'a>(buf: &'a mut [u8], report: &MeterReport) -> &'a str {
    let n = report.to_compact_args_into(buf).unwrap();
    std::str::from_utf8(&buf[..n]).unwrap()
}

#[test]
fn canonical_args_render_the_documented_form() {
    let report = MeterReport::new(5, 5, None, Some(0), Some(-901), Some(-625));
    let mut buf = [0u8; 64];
    assert_eq!(args_str(&mut buf, &report), "5/5|fec:na|clip:0|rssi:-90.1|lvl:-62.5");
}

#[test]
fn compact_args_render_the_documented_form() {
    let report = MeterReport::new(5, 5, None, Some(0), Some(-901), Some(-625));
    let mut buf = [0u8; 64];
    assert_eq!(compact_str(&mut buf, &report), "5/5|c0|r-90.1|l-62.5");
}

#[test]
fn unavailable_fields_are_na_canonically_and_omitted_compactly() {
    let report = MeterReport::new(3, 5, None, None, None, None);
    let mut buf = [0u8; 64];
    assert_eq!(args_str(&mut buf, &report), "3/5|fec:na|clip:na|rssi:na|lvl:na");
    assert_eq!(compact_str(&mut buf, &report), "3/5");
}

#[test]
fn canonical_round_trip_with_all_fields() {
    let report = MeterReport::new(10, 10, Some(480), Some(0), Some(-904), Some(-625));
    let mut buf = [0u8; 64];
    let parsed = MeterReport::try_parse(args_str(&mut buf, &report)).unwrap();
    assert_eq!(parsed, report);
}

#[test]
fn compact_round_trip_with_all_fields() {
    let report = MeterReport::new(10, 10, Some(480), Some(0), Some(-904), Some(-625));
    let mut buf = [0u8; 64];
    let parsed = MeterReport::try_parse(compact_str(&mut buf, &report)).unwrap();
    assert_eq!(parsed, report);
}

#[test]
fn null_fields_round_trip_as_null_in_both_forms() {
    let report = MeterReport::new(3, 5, None, None, None, None);
    let mut buf = [0u8; 64];
    assert_eq!(MeterReport::try_parse(args_str(&mut buf, &report)).unwrap(), report);
    assert_eq!(MeterReport::try_parse(compact_str(&mut buf, &report)).unwrap(), report);
}

#[test]
fn decodes_known_good_canonical_vector() {
    let report = MeterReport::try_parse("4/5|fec:12|clip:0|rssi:-90.4").unwrap();
    assert_eq!(report.decoded_frames, 4);
    assert_eq!(report.requested_frames, 5);
    assert_eq!(report.fec_corrected_bytes_delta, Some(12));
    assert_eq!(report.lost_adc_samples_delta, Some(0));
    assert_eq!(report.rssi_dbm_tenths, Some(-904));
    assert_eq!(report.audio_level_db_tenths, None);
}

#[test]
fn decodes_known_good_compact_vector() {
    let report = MeterReport::try_parse("5/5|c0|r-90.1").unwrap();
    assert_eq!(report.lost_adc_samples_delta, Some(0));
    assert_eq!(report.rssi_dbm_tenths, Some(-901));
    assert_eq!(report.audio_level_db_tenths, None);
}

#[test]
fn decode_of_na_fields_yields_null() {
    let report = MeterReport::try_parse("3/5|fec:na|clip:na|rssi:na|lvl:na").unwrap();
    assert_eq!(report, MeterReport::new(3, 5, None, None, None, None));
}

#[test]
fn meter_report_rejects_junk() {
    assert!(MeterReport::try_parse("").is_none());
    assert!(MeterReport::try_parse("nope").is_none());
    assert!(MeterReport::try_parse("a/b").is_none());
    assert!(MeterReport::try_parse("3/5|bogus:1").is_none());
    assert!(MeterReport::try_parse("-3/5").is_none());
    assert!(MeterReport::try_parse("3/5/7").is_none());
    assert!(MeterReport::try_parse("3/5|").is_none());
}

#[test]
fn positive_and_zero_tenths_format_correctly() {
    let report = MeterReport::new(1, 1, None, None, Some(0), Some(55));
    let mut buf = [0u8; 64];
    assert_eq!(compact_str(&mut buf, &report), "1/1|r0.0|l5.5");
}

#[test]
fn negative_sub_unit_tenths_format_with_zero_whole() {
    let report = MeterReport::new(1, 1, None, None, Some(-5), None);
    let mut buf = [0u8; 64];
    assert_eq!(compact_str(&mut buf, &report), "1/1|r-0.5");
}

#[test]
fn parse_rounds_sub_tenth_precision_half_up() {
    assert_eq!(parse_db_tenths("-90.45"), Some(-905));
    assert_eq!(parse_db_tenths("-90.44"), Some(-904));
    assert_eq!(parse_db_tenths("90"), Some(900));
    assert_eq!(parse_db_tenths(".5"), Some(5));
}

#[test]
fn parse_db_rejects_malformed() {
    assert!(parse_db_tenths("").is_none());
    assert!(parse_db_tenths("-").is_none());
    assert!(parse_db_tenths(".").is_none());
    assert!(parse_db_tenths("9x").is_none());
}

#[test]
fn decode_rate_permille_is_integer() {
    assert_eq!(MeterReport::new(5, 10, None, None, None, None).decode_rate_permille(), 500);
    assert_eq!(MeterReport::new(10, 10, None, None, None, None).decode_rate_permille(), 1000);
    assert_eq!(MeterReport::new(0, 0, None, None, None, None).decode_rate_permille(), 0);
}

#[test]
fn into_reports_none_on_undersized_buffer() {
    let report = MeterReport::new(10, 10, Some(480), Some(0), Some(-904), Some(-625));
    let mut tiny = [0u8; 4];
    assert!(report.to_args_into(&mut tiny).is_none());
}
#[test]
fn meter_report_alloc_twins_match_the_into_forms() {
    let report = MeterReport::new(5, 5, None, Some(0), Some(-901), Some(-625));
    assert_eq!(report.to_args(), "5/5|fec:na|clip:0|rssi:-90.1|lvl:-62.5");
    assert_eq!(report.to_compact_args(), "5/5|c0|r-90.1|l-62.5");
}

#[test]
fn a_short_buffer_holds_the_pieces_of_a_report_that_fit() {
    let report = MeterReport::new(10, -12, Some(-480), None, Some(-904), Some(625));
    let args = b"10/-12|fec:-480|clip:na|rssi:-90.4|lvl:62.5";
    let mut buf = [9u8; 43];
    assert_eq!(report.to_args_into(&mut buf), Some(43));
    assert_eq!(&buf[..], &args[..]);
    let cuts = [(1, 0), (2, 2), (3, 3), (4, 4), (5, 4), (6, 6), (10, 6), (11, 11), (12, 12)];
    for (room, kept) in cuts {
        let mut buf = [9u8; 12];
        assert_eq!(report.to_args_into(&mut buf[..room]), None);
        assert_eq!(buf[..kept], args[..kept]);
        assert!(buf[kept..].iter().all(|b| *b == 9));
    }
    let late = [(29, 29), (30, 30), (31, 30), (32, 32), (33, 33), (34, 34), (38, 34), (42, 42)];
    for (room, kept) in late {
        let mut buf = [9u8; 43];
        assert_eq!(report.to_args_into(&mut buf[..room]), None);
        assert_eq!(buf[..kept], args[..kept]);
        assert!(buf[kept..].iter().all(|b| *b == 9));
    }
    let short = b"10/-12|f-480|r-90.4|l62.5";
    let mut buf = [9u8; 25];
    assert_eq!(report.to_compact_args_into(&mut buf), Some(25));
    assert_eq!(&buf[..], &short[..]);
    let cuts = [(0, 0), (7, 6), (8, 8), (11, 9), (12, 12), (13, 12), (14, 14), (20, 19), (24, 24)];
    for (room, kept) in cuts {
        let mut buf = [9u8; 25];
        assert_eq!(report.to_compact_args_into(&mut buf[..room]), None);
        assert_eq!(buf[..kept], short[..kept]);
        assert!(buf[kept..].iter().all(|b| *b == 9));
    }
}
