use ax25_node_core::tune::telegram::{all_verbs, SDM_CHARACTER_BUDGET};
use ax25_node_core::tune::{MeterReport, TuningTelegram, TuningVerb};

fn enc<'a>(buf: &'a mut [u8], telegram: &TuningTelegram) -> &'a str {
    let n = telegram.encode_into(buf).unwrap();
    std::str::from_utf8(&buf[..n]).unwrap()
}

fn enc_compact<'a>(buf: &'a mut [u8], telegram: &TuningTelegram) -> &'a str {
    let n = telegram.encode_compact_into(buf).unwrap();
    std::str::from_utf8(&buf[..n]).unwrap()
}

#[test]
fn encodes_the_documented_wire_form() {
    let mut buf = [0u8; 64];
    assert_eq!(enc(&mut buf, &TuningTelegram::new(0, TuningVerb::Hello, "tuned")), "V1|0|HI|tuned");
    assert_eq!(enc(&mut buf, &TuningTelegram::new(3, TuningVerb::BurstRequest, "5")), "V1|3|RQ|5");
    assert_eq!(enc(&mut buf, &TuningTelegram::new(12, TuningVerb::Advice, "OK")), "V1|12|AD|OK");
    assert_eq!(enc(&mut buf, &TuningTelegram::new(99, TuningVerb::Bye, "")), "V1|99|BY");
}

#[test]
fn parses_the_documented_wire_form() {
    let t = TuningTelegram::try_parse("V1|0|HI|tuned").unwrap();
    assert_eq!(t, TuningTelegram::new(0, TuningVerb::Hello, "tuned"));

    let t = TuningTelegram::try_parse("V1|3|RQ|5").unwrap();
    assert_eq!(t, TuningTelegram::new(3, TuningVerb::BurstRequest, "5"));

    let t = TuningTelegram::try_parse("V1|99|BY").unwrap();
    assert_eq!(t, TuningTelegram::new(99, TuningVerb::Bye, ""));

    let t = TuningTelegram::try_parse("V1|7|MS|4/5|fec:12|clip:0|rssi:-90.4").unwrap();
    assert_eq!(t.sequence, 7);
    assert_eq!(t.verb, TuningVerb::Measurement);
    assert_eq!(t.args, "4/5|fec:12|clip:0|rssi:-90.4");
}

#[test]
fn telegram_rejects_junk() {
    assert!(TuningTelegram::try_parse("").is_none());
    assert!(TuningTelegram::try_parse("V2|0|HI|tuned").is_none());
    assert!(TuningTelegram::try_parse("V1|x|HI|tuned").is_none());
    assert!(TuningTelegram::try_parse("V1|0|ZZ|tuned").is_none());
    assert!(TuningTelegram::try_parse("hello world").is_none());
    assert!(TuningTelegram::try_parse("V1|0").is_none());
    assert!(TuningTelegram::try_parse("V1|-1|HI|x").is_none());
}

#[test]
fn every_verb_round_trips() {
    let mut buf = [0u8; 64];
    for verb in all_verbs() {
        let args = if verb == TuningVerb::Bye { "" } else { "x" };
        let sent = TuningTelegram::new(42, verb, args);
        let wire = enc(&mut buf, &sent);
        let mut wire_copy = [0u8; 64];
        let len = wire.len();
        wire_copy[..len].copy_from_slice(wire.as_bytes());
        let text = std::str::from_utf8(&wire_copy[..len]).unwrap();
        assert_eq!(TuningTelegram::try_parse(text).unwrap(), sent);
    }
}

#[test]
fn compact_ms_fits_the_budget_and_round_trips() {
    let report = MeterReport::new(10, 10, Some(480), Some(0), Some(-904), None);
    let mut args_buf = [0u8; 64];
    let args = {
        let n = report.to_args_into(&mut args_buf).unwrap();
        std::str::from_utf8(&args_buf[..n]).unwrap()
    };
    let telegram = TuningTelegram::new(12, TuningVerb::Measurement, args);

    let mut canon_buf = [0u8; 64];
    assert!(enc(&mut canon_buf, &telegram).len() > 32);

    let mut compact_buf = [0u8; 64];
    let compact = enc_compact(&mut compact_buf, &telegram);
    assert!(compact.len() <= SDM_CHARACTER_BUDGET);
    assert_eq!(compact, "V1|12|MS|10/10|f480|c0|r-90.4");

    let parsed = TuningTelegram::try_parse(compact).unwrap();
    assert_eq!(MeterReport::try_parse(parsed.args).unwrap(), report);
}

#[test]
fn compact_leaves_non_ms_verbs_alone() {
    let telegram = TuningTelegram::new(1, TuningVerb::Hello, "meter");
    let mut a = [0u8; 64];
    let mut b = [0u8; 64];
    assert_eq!(enc_compact(&mut a, &telegram), enc(&mut b, &telegram));
}

#[test]
fn compact_leaves_unparseable_ms_args_alone() {
    let telegram = TuningTelegram::new(1, TuningVerb::Measurement, "not-a-report");
    let mut a = [0u8; 64];
    let mut b = [0u8; 64];
    assert_eq!(enc_compact(&mut a, &telegram), enc(&mut b, &telegram));
}

#[test]
fn compact_ms_with_audio_level_fits_the_3_41_shape() {
    let report = MeterReport::new(5, 5, None, Some(0), Some(-901), Some(-625));
    let mut args_buf = [0u8; 64];
    let args = {
        let n = report.to_args_into(&mut args_buf).unwrap();
        std::str::from_utf8(&args_buf[..n]).unwrap()
    };
    let telegram = TuningTelegram::new(12, TuningVerb::Measurement, args);

    let mut compact_buf = [0u8; 64];
    let compact = enc_compact(&mut compact_buf, &telegram);
    assert!(compact.len() <= SDM_CHARACTER_BUDGET);
    assert_eq!(compact, "V1|12|MS|5/5|c0|r-90.1|l-62.5");
    let parsed = TuningTelegram::try_parse(compact).unwrap();
    assert_eq!(MeterReport::try_parse(parsed.args).unwrap(), report);
}

#[test]
fn compact_drops_the_level_rather_than_busting_the_budget() {
    let report = MeterReport::new(10, 10, Some(480), Some(0), Some(-904), Some(-625));
    let mut args_buf = [0u8; 96];
    let args = {
        let n = report.to_args_into(&mut args_buf).unwrap();
        std::str::from_utf8(&args_buf[..n]).unwrap()
    };
    let telegram = TuningTelegram::new(12, TuningVerb::Measurement, args);

    let mut compact_buf = [0u8; 64];
    let compact = enc_compact(&mut compact_buf, &telegram);
    assert!(compact.len() <= SDM_CHARACTER_BUDGET);

    let parsed = TuningTelegram::try_parse(compact).unwrap();
    let reparsed = MeterReport::try_parse(parsed.args).unwrap();
    assert_eq!(reparsed, report.without_audio_level());
}

#[test]
fn encode_into_reports_none_on_undersized_buffer() {
    let telegram = TuningTelegram::new(0, TuningVerb::Hello, "tuned");
    let mut tiny = [0u8; 4];
    assert!(telegram.encode_into(&mut tiny).is_none());
}
#[test]
fn telegram_alloc_twins_match_the_into_forms() {
    let telegram = TuningTelegram::new(0, TuningVerb::Hello, "tuned");
    assert_eq!(telegram.encode(), "V1|0|HI|tuned");

    let report = MeterReport::new(10, 10, Some(480), Some(0), Some(-904), Some(-625));
    let args = report.to_args();
    let ms = TuningTelegram::new(12, TuningVerb::Measurement, &args);
    assert_eq!(ms.encode_compact(), "V1|12|MS|10/10|f480|c0|r-90.4");
}

#[test]
fn a_short_buffer_holds_the_pieces_of_a_line_that_fit() {
    let telegram = TuningTelegram::new(-7, TuningVerb::Hello, "tuned");
    let line = b"V1|-7|HI|tuned";
    let cuts = [(0, 0), (1, 0), (2, 2), (3, 3), (4, 4), (5, 5), (6, 6), (7, 6), (8, 8), (13, 9)];
    for (room, kept) in cuts {
        let mut buf = [9u8; 14];
        assert_eq!(telegram.encode_into(&mut buf[..room]), None);
        assert_eq!(buf[..kept], line[..kept]);
        assert!(buf[kept..].iter().all(|b| *b == 9));
    }
    let mut buf = [9u8; 15];
    assert_eq!(telegram.encode_into(&mut buf), Some(14));
    assert_eq!(&buf[..14], &line[..]);
    assert_eq!(buf[14], 9);

    let report = MeterReport::new(10, 10, Some(480), None, None, None);
    let args = report.to_args();
    let measured = TuningTelegram::new(3, TuningVerb::Measurement, &args);
    let short = b"V1|3|MS|10/10|f480";
    let cuts = [(7, 7), (8, 8), (9, 8), (10, 10), (12, 11), (14, 13), (15, 15), (17, 15)];
    for (room, kept) in cuts {
        let mut buf = [9u8; 18];
        assert_eq!(measured.encode_compact_into(&mut buf[..room]), None);
        assert_eq!(buf[..kept], short[..kept]);
        assert!(buf[kept..].iter().all(|b| *b == 9));
    }
    let mut buf = [9u8; 18];
    assert_eq!(measured.encode_compact_into(&mut buf), Some(18));
    assert_eq!(&buf[..], &short[..]);
}
