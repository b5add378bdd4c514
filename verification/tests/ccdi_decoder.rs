use ax25_node_core::radio::tait::ccdi::{
    CcdiEvent, CcdiFrame, CcdiMessage, CcdiProgressType, LineDecoder, MAX_LINE,
};

#[test]
fn assembles_a_cr_terminated_line() {
    let mut d = LineDecoder::new();
    let events = d.push(b"j07064-456C9\r");
    assert_eq!(events, vec![CcdiEvent::Line(b"j07064-456C9".to_vec())]);
}

#[test]
fn emits_prompt_for_bare_dot_at_column_zero() {
    let mut d = LineDecoder::new();
    assert_eq!(d.push(b"."), vec![CcdiEvent::Prompt]);
    let events = d.push(b"m0813203.02A2\r");
    assert_eq!(events, vec![CcdiEvent::Line(b"m0813203.02A2".to_vec())]);
}

#[test]
fn skips_lf_and_xon_xoff() {
    let mut d = LineDecoder::new();
    let mut stream = vec![0x13u8];
    stream.extend_from_slice(b"p02");
    stream.push(0x11);
    stream.extend_from_slice(b"05C9\r\n");
    let events = d.push(&stream);
    assert_eq!(events, vec![CcdiEvent::Line(b"p0205C9".to_vec())]);
}

#[test]
fn reassembles_across_chunked_reads() {
    let mut d = LineDecoder::new();
    assert!(d.push(b"j070").is_empty());
    assert!(d.push(b"64-4").is_empty());
    let events = d.push(b"56C9\r.");
    assert_eq!(
        events,
        vec![CcdiEvent::Line(b"j07064-456C9".to_vec()), CcdiEvent::Prompt]
    );
}

#[test]
fn multiple_lines_and_prompts_in_one_push() {
    let mut d = LineDecoder::new();
    let events = d.push(b".e03001A7\r.");
    assert_eq!(
        events,
        vec![
            CcdiEvent::Prompt,
            CcdiEvent::Line(b"e03001A7".to_vec()),
            CcdiEvent::Prompt
        ]
    );
}

#[test]
fn over_long_noise_line_is_dropped_not_emitted() {
    let mut d = LineDecoder::new();
    let noise = vec![b'x'; MAX_LINE + 50];
    assert!(d.push(&noise).is_empty());
    let events = d.push(b"\rq002F\r");
    assert_eq!(events, vec![CcdiEvent::Line(b"q002F".to_vec())]);
}

#[test]
fn empty_cr_produces_no_event() {
    let mut d = LineDecoder::new();
    assert!(d.push(b"\r\r\r").is_empty());
}

#[test]
fn end_to_end_line_to_typed_message() {
    let mut d = LineDecoder::new();
    let events = d.push(b"p0205C9\r");
    let line = match &events[0] {
        CcdiEvent::Line(b) => b,
        other => panic!("expected line, got {other:?}"),
    };
    let frame = CcdiFrame::try_parse(line).unwrap();
    assert!(matches!(
        CcdiMessage::decode(&frame),
        CcdiMessage::Progress {
            ptype: CcdiProgressType::ReceiverBusy,
            ..
        }
    ));
}
