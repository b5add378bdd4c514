use ax25_node_core::radio::tait::ccdi::{CcdiFrame, CcdiMessage, CcdiProgressType};

#[test]
fn model_message_decodes_type_model_tier_and_version() {
    let frame = CcdiFrame::try_parse(b"m0813203.02A2").unwrap();
    match CcdiMessage::decode(&frame) {
        CcdiMessage::Model {
            ru_type,
            ru_model,
            ru_tier,
            ccdi_version,
        } => {
            assert_eq!(ru_type, b'1');
            assert_eq!(ru_model, b'3');
            assert_eq!(ru_tier, b'2');
            assert_eq!(ccdi_version, b"03.02");
        }
        other => panic!("expected Model, got {other:?}"),
    }
}

#[test]
fn query_result_decodes_rssi_tenths() {
    let frame = CcdiFrame::try_parse(b"j07064-456C9").unwrap();
    let msg = CcdiMessage::decode(&frame);
    match msg {
        CcdiMessage::QueryResult {
            cctm_command,
            value,
        } => {
            assert_eq!(cctm_command, 64);
            assert_eq!(value, b"-456");
        }
        other => panic!("expected QueryResult, got {other:?}"),
    }
    assert_eq!(msg.query_rssi_tenths(), Some(-456));
}

#[test]
fn progress_decodes_receiver_busy_and_not_busy() {
    let busy = CcdiFrame::try_parse(b"p0205C9").unwrap();
    assert!(matches!(
        CcdiMessage::decode(&busy),
        CcdiMessage::Progress {
            ptype: CcdiProgressType::ReceiverBusy,
            ..
        }
    ));
    let idle = CcdiFrame::try_parse(b"p0206C8").unwrap();
    assert!(matches!(
        CcdiMessage::decode(&idle),
        CcdiMessage::Progress {
            ptype: CcdiProgressType::ReceiverNotBusy,
            ..
        }
    ));
}

#[test]
fn error_decodes_category_and_number() {
    let frame = CcdiFrame::try_parse(b"e03001A7").unwrap();
    match CcdiMessage::decode(&frame) {
        CcdiMessage::Error {
            category,
            error_number,
        } => {
            assert_eq!(category, b'0');
            assert_eq!(error_number, 0x01);
        }
        other => panic!("expected Error, got {other:?}"),
    }
}

#[test]
fn ring_message_decodes_manual_example() {
    let frame = CcdiFrame::try_parse(b"r0714000FFA6").unwrap();
    match CcdiMessage::decode(&frame) {
        CcdiMessage::Ring {
            category,
            ring_type,
            status,
            caller_id,
        } => {
            assert_eq!(category, b'1');
            assert_eq!(ring_type, b"4000");
            assert_eq!(status, b"FF");
            assert_eq!(caller_id, b"");
        }
        other => panic!("expected Ring, got {other:?}"),
    }
}

#[test]
fn sdm_message_decodes_manual_examples() {
    let empty = CcdiFrame::try_parse(b"s002D").unwrap();
    assert!(matches!(CcdiMessage::decode(&empty), CcdiMessage::Sdm(b"")));
    let hi = CcdiFrame::try_parse(b"s02Hi7A").unwrap();
    assert!(matches!(CcdiMessage::decode(&hi), CcdiMessage::Sdm(b"Hi")));
}

#[test]
fn ccr_ack_nak_and_pulse_decode() {
    let ack = CcdiFrame::try_parse(b"+01R22").unwrap();
    assert!(matches!(
        CcdiMessage::decode(&ack),
        CcdiMessage::CcrAck { echoed_command: b'R' }
    ));

    let nak_wire = CcdiFrame::new(b'-', b"05T").unwrap().encode();
    let nak = CcdiFrame::try_parse(&nak_wire).unwrap();
    match CcdiMessage::decode(&nak) {
        CcdiMessage::CcrNak {
            reason,
            echoed_command,
        } => {
            assert_eq!(reason, 0x05);
            assert_eq!(echoed_command, Some(b'T'));
        }
        other => panic!("expected CcrNak, got {other:?}"),
    }

    let pulse = CcdiFrame::try_parse(b"Q01PFE").unwrap();
    assert!(matches!(
        CcdiMessage::decode(&pulse),
        CcdiMessage::CcrPulseResult {
            has_minimum_configuration: true
        }
    ));
}

#[test]
fn ccr_unsolicited_messages_decode() {
    let init = CcdiFrame::try_parse(b"M01R00").unwrap();
    assert!(matches!(
        CcdiMessage::decode(&init),
        CcdiMessage::CcrNotification { kind: b'R' }
    ));
    let selcall = CcdiFrame::try_parse(b"V0612345-18").unwrap();
    assert!(matches!(
        CcdiMessage::decode(&selcall),
        CcdiMessage::CcrSelcallDecode(b"12345-")
    ));
}

#[test]
fn unknown_ident_surfaces_as_unknown() {
    let wire = CcdiFrame::new(b'y', b"Hi").unwrap().encode();
    let frame = CcdiFrame::try_parse(&wire).unwrap();
    assert!(matches!(
        CcdiMessage::decode(&frame),
        CcdiMessage::Unknown {
            ident: b'y',
            params: b"Hi"
        }
    ));
}

#[test]
fn progress_type_round_trips_including_other() {
    for raw in 0u8..=0xFF {
        assert_eq!(CcdiProgressType::from_u8(raw).to_u8(), raw);
    }
}
