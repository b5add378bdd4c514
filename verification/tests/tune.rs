use ax25_node_core::radio::tait::ccdi::CcdiFrame;
use ax25_node_core::radio::tait::driver::{TaitCcdiRadio, TaitError};
use ax25_node_core::tune::meter_report::parse_db_tenths;
use ax25_node_core::tune::sdm_link::{SeenSequences, SendStep, DEDUPE_WINDOW};
use ax25_node_core::tune::telegram::{all_verbs, SDM_CHARACTER_BUDGET};
use ax25_node_core::tune::{
    MeterReport, SdmLinkError, SdmTuningLink, SdmTuningLinkOptions, TuningTelegram, TuningVerb,
};

type Link = SdmTuningLink<(), ()>;

fn link(options: SdmTuningLinkOptions) -> Link {
    SdmTuningLink::new(TaitCcdiRadio::new(()), (), *b"12345678", options)
}

#[test]
fn every_level_is_read_back_from_its_text() {
    for tenths in -1500..=1500i16 {
        let report = MeterReport::new(0, 0, None, None, Some(tenths), None);
        assert_eq!(MeterReport::try_parse(&report.to_args()), Some(report));
        assert_eq!(MeterReport::try_parse(&report.to_compact_args()), Some(report));
    }
    assert_eq!(parse_db_tenths("-3276.8"), Some(i16::MIN));
    assert_eq!(parse_db_tenths("3276.7"), Some(i16::MAX));
    assert_eq!(parse_db_tenths("3276.8"), None);
}

#[test]
fn reports_with_every_choice_of_fields_round_trip() {
    for mask in 0..16u8 {
        let on = |bit: u8| mask & (1 << bit) != 0;
        let report = MeterReport::new(
            4,
            5,
            if on(0) { Some(12) } else { None },
            if on(1) { Some(0) } else { None },
            if on(2) { Some(-904) } else { None },
            if on(3) { Some(-5) } else { None },
        );
        assert_eq!(MeterReport::try_parse(&report.to_args()), Some(report));
        assert_eq!(MeterReport::try_parse(&report.to_compact_args()), Some(report));
        let quiet = report.without_audio_level();
        assert_eq!(quiet.audio_level_db_tenths, None);
        assert_eq!(quiet.rssi_dbm_tenths, report.rssi_dbm_tenths);
        assert_eq!(quiet.fec_corrected_bytes_delta, report.fec_corrected_bytes_delta);
        assert_eq!(quiet.lost_adc_samples_delta, report.lost_adc_samples_delta);
    }
}

#[test]
fn verbs_are_told_apart_by_their_tokens() {
    let verbs = all_verbs();
    assert_eq!(
        verbs,
        [
            TuningVerb::Hello,
            TuningVerb::BurstRequest,
            TuningVerb::Measurement,
            TuningVerb::Advice,
            TuningVerb::Bye,
            TuningVerb::ModeCoordination,
            TuningVerb::Hail,
            TuningVerb::Status,
            TuningVerb::TxDelay,
        ]
    );
    for (i, v) in verbs.iter().enumerate() {
        let token = TuningTelegram::verb_to_wire(*v);
        assert_eq!(TuningTelegram::wire_to_verb(token), Some(*v));
        for w in &verbs[i + 1..] {
            assert_ne!(token, TuningTelegram::verb_to_wire(*w));
        }
    }
    assert_eq!(TuningTelegram::wire_to_verb("hi"), None);
}

#[test]
fn a_line_keeps_whatever_its_arguments_hold() {
    for args in ["", "a|b|c", "||", "r\u{e9}ponse", " 5 "] {
        let t = TuningTelegram::new(2147483647, TuningVerb::Status, args);
        assert_eq!(TuningTelegram::try_parse(&t.encode()), Some(t));
        assert_eq!(t.encode_compact(), t.encode());
    }
}

#[test]
fn the_short_line_of_a_measurement_keeps_its_report() {
    let report = MeterReport::new(10, 10, Some(480), Some(0), Some(-904), Some(-625));
    let args = report.to_args();
    let t = TuningTelegram::new(12, TuningVerb::Measurement, &args);
    let line = t.encode_compact();
    assert!(line.len() <= SDM_CHARACTER_BUDGET);
    let back = TuningTelegram::try_parse(&line).unwrap();
    let heard = MeterReport::try_parse(back.args).unwrap();
    assert!(heard == report || heard == report.without_audio_level());
    assert_eq!((back.sequence, back.verb), (12, TuningVerb::Measurement));
}

#[test]
fn a_number_is_remembered_until_as_many_others_have_come() {
    let mut seen = SeenSequences::new();
    assert!(seen.mark(7));
    for n in 100..100 + DEDUPE_WINDOW as i32 - 1 {
        assert!(seen.mark(n));
        assert!(!seen.mark(7));
    }
    assert!(seen.mark(99));
    assert!(seen.mark(7));
}

#[test]
fn a_telegram_that_is_too_long_says_how_long() {
    let l = link(SdmTuningLinkOptions::default());
    let t = TuningTelegram::new(1, TuningVerb::Status, "0123456789012345678901234567890123456789");
    assert_eq!(t.encode().len(), 50);
    match l.send::<()>(t) {
        Err(e) => assert_eq!(e, SdmLinkError::OverBudget { len: 50, budget: 32 }),
        Ok(_) => panic!("it does not fit"),
    }
}

#[test]
fn a_refused_telegram_is_sent_as_often_as_may_be() {
    let refusal: TaitError<()> = TaitError::Ccdi { category: b'0', error_number: 6 };
    let mut l = link(SdmTuningLinkOptions { max_attempts: 3, ..Default::default() });
    let mut sending = l.send::<()>(TuningTelegram::new(1, TuningVerb::Bye, "")).ok().unwrap();
    let mut sent = 0;
    loop {
        assert!(l.attempt(&sending).is_ok());
        sent += 1;
        match l.after_attempt(sending, Err(refusal)) {
            SendStep::Retry { sending: again, backoff_ms } => {
                assert_eq!(backoff_ms, 2_000);
                sending = again;
            }
            SendStep::Done(r) => {
                assert_eq!(r, Err(SdmLinkError::NotAccepted { attempts: 3, last: refusal }));
                break;
            }
        }
    }
    assert_eq!(sent, 3);
}

#[test]
fn a_value_out_of_range_ends_the_sending() {
    let mut l = link(SdmTuningLinkOptions::default());
    let sending = l.send::<()>(TuningTelegram::new(1, TuningVerb::Bye, "")).ok().unwrap();
    match l.after_attempt(sending, Err(TaitError::Invalid)) {
        SendStep::Done(r) => assert_eq!(r, Err(SdmLinkError::Radio(TaitError::Invalid))),
        SendStep::Retry { .. } => panic!("sending again does not mend it"),
    }
}

#[test]
fn a_port_that_failed_is_tried_again() {
    let mut l = link(SdmTuningLinkOptions { max_attempts: 0, ..Default::default() });
    let sending = l.send::<u8>(TuningTelegram::new(1, TuningVerb::Bye, "")).ok().unwrap();
    match l.after_attempt(sending, Err(TaitError::Io(3))) {
        SendStep::Done(r) => {
            assert_eq!(r, Err(SdmLinkError::NotAccepted { attempts: 1, last: TaitError::Io(3) }))
        }
        SendStep::Retry { .. } => panic!("once is as often as may be"),
    }
    let mut l = link(SdmTuningLinkOptions { max_attempts: 2, ..Default::default() });
    let sending = l.send::<u8>(TuningTelegram::new(1, TuningVerb::Bye, "")).ok().unwrap();
    assert!(matches!(
        l.after_attempt(sending, Err(TaitError::Io(3))),
        SendStep::Retry { backoff_ms: 2_000, .. }
    ));
}

#[test]
fn a_telegram_arrives_once() {
    let mut from = link(SdmTuningLinkOptions::default());
    let t = TuningTelegram::new(4, TuningVerb::Advice, "OK");
    let sending = from.send::<()>(t).ok().unwrap();
    let (octets, _) = from.attempt(&sending).ok().unwrap();
    let frame = CcdiFrame::try_parse(&octets[..octets.len() - 1]).unwrap();
    let data = &frame.params()[frame.params().len() - t.encode().len()..];
    let mut to = link(SdmTuningLinkOptions::default());
    assert_eq!(to.received(data), Some(t));
    assert_eq!(to.received(data), None);
    assert_eq!(to.received(b"no telegram"), None);
}

#[test]
fn a_poll_brings_a_telegram_nothing_or_an_error() {
    let mut l = link(SdmTuningLinkOptions::default());
    let (octets, _) = l.poll_receive();
    assert_eq!(octets, CcdiFrame::new(b'q', b"1").unwrap().encode_to_bytes());
    let t = TuningTelegram::new(4, TuningVerb::Advice, "OK");
    assert_eq!(l.polled::<u8>(Ok(Some(b"V1|4|AD|OK"))), Ok(Some(t)));
    assert_eq!(l.polled::<u8>(Ok(Some(b"V1|4|AD|OK"))), Ok(None));
    assert_eq!(l.polled::<u8>(Ok(Some(b"\xFF"))), Ok(None));
    assert_eq!(l.polled::<u8>(Ok(None)), Ok(None));
    assert_eq!(l.polled(Err(TaitError::Io(9u8))), Err(SdmLinkError::Radio(TaitError::Io(9))));
}

#[test]
fn a_telegram_that_was_taken_once_is_not_refused() {
    let options = SdmTuningLinkOptions {
        max_attempts: 2,
        wait_for_delivery_receipt: true,
        ..Default::default()
    };
    let refusal: TaitError<()> = TaitError::Ccdi { category: b'0', error_number: 6 };
    for outcomes in [[Ok(()), Err(refusal)], [Err(refusal), Ok(())]] {
        let mut l = link(options);
        let sending = l.send::<()>(TuningTelegram::new(1, TuningVerb::Bye, "")).ok().unwrap();
        let again = match l.after_attempt(sending, outcomes[0]) {
            SendStep::Retry { sending, .. } => sending,
            SendStep::Done(_) => panic!("it may be sent again"),
        };
        match l.after_attempt(again, outcomes[1]) {
            SendStep::Done(r) => assert_eq!(r, Err(SdmLinkError::NotAcknowledged { attempts: 2 })),
            SendStep::Retry { .. } => panic!("twice is as often as may be"),
        }
    }
}
