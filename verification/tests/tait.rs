use ax25_node_core::kiss::Command;
use ax25_node_core::radio::tait::ccdi::checksum::{compute, is_valid};
use ax25_node_core::radio::tait::ccdi::{
    from_hex_nibble, hex_upper, parse_hex_u8, CcdiEvent, CcdiFrame, CcdiMessage, CcdiProgressType,
    LineDecoder,
};
use ax25_node_core::radio::tait::driver::{
    build_go_to_channel, build_sdm, level_from, Acknowledged, RadioEvent, TaitCcdiRadio, TaitError,
    TransactStep, Transaction,
};
use ax25_node_core::radio::tait::transparent::{TaitTransparentTransport, TransparentOptions};

type Fault = TaitError<()>;

fn ended<T>(step: TransactStep<Acknowledged, ()>, of: T) -> (Result<Option<()>, Fault>, T) {
    match step {
        TransactStep::Done(r) => (r, of),
        TransactStep::More(_) => panic!("the transaction has ended"),
    }
}

#[test]
fn every_octet_is_read_back_from_its_digits() {
    for b in 0..=255u8 {
        let digits = [hex_upper(b / 16), hex_upper(b % 16)];
        assert_eq!(parse_hex_u8(&digits), Some(b));
        assert_eq!(CcdiProgressType::from_u8(b).to_u8(), b);
    }
    assert_eq!(from_hex_nibble(b'f'), Some(15));
    assert_eq!(from_hex_nibble(b'g'), None);
}

#[test]
fn one_changed_octet_changes_the_checksum() {
    let body = b"s0D050800TESTHi!";
    let sum = compute(body);
    for i in 0..body.len() {
        for b in 0..=255u8 {
            let mut other = body.to_vec();
            other[i] = b;
            assert_eq!(is_valid(&other, &sum), b == body[i]);
        }
    }
    let total: u32 = body.iter().map(|b| *b as u32).sum();
    assert_eq!((total + parse_hex_u8(&sum).unwrap() as u32) % 256, 0);
}

#[test]
fn noise_in_a_line_is_noticed() {
    let line = CcdiFrame::new(b'j', b"064-456").unwrap().encode();
    for i in 3..line.len() - 2 {
        let mut noisy = line.clone();
        noisy[i] ^= 0x04;
        assert_eq!(CcdiFrame::try_parse(&noisy), None);
    }
    let parsed = CcdiFrame::try_parse(&line).unwrap();
    assert_eq!(parsed.encode(), line);
}

#[test]
fn a_line_that_is_cut_anywhere_comes_out_whole() {
    let stream = b"p0205C9\r.j07064-456C9\r\n.";
    let mut whole = LineDecoder::new();
    let expected = whole.push(stream);
    assert_eq!(expected.len(), 4);
    for cut in 0..=stream.len() {
        let mut d = LineDecoder::new();
        let mut events = d.push(&stream[..cut]);
        events.extend(d.push(&stream[cut..]));
        assert_eq!(events, expected);
    }
}

#[test]
fn a_carriage_return_starts_the_decoder_afresh() {
    let mut d = LineDecoder::new();
    d.push(&[b'x'; 500]);
    d.push(b"\r");
    assert_eq!(d.push(b"q002F\r"), vec![CcdiEvent::Line(b"q002F".to_vec())]);
    d.push(b"half");
    d.reset();
    assert_eq!(d.push(b"q002F\r"), vec![CcdiEvent::Line(b"q002F".to_vec())]);
}

#[test]
fn a_line_into_a_short_buffer_is_not_written() {
    let frame = CcdiFrame::new(b'q', b"5064").unwrap();
    let mut small = [0u8; 8];
    assert_eq!(frame.encode_into(&mut small), None);
    assert_eq!(small, [0u8; 8]);
    let mut exact = [0u8; 10];
    assert_eq!(frame.encode_to_bytes_into(&mut exact), Some(10));
    assert_eq!(&exact, b"q0450645C\r");
}

#[test]
fn messages_say_what_they_are() {
    let level = CcdiFrame::new(b'j', b"064-456").unwrap();
    let m = CcdiMessage::decode(&level);
    assert_eq!(m.query_rssi_tenths(), Some(-456));
    assert_eq!(m.query_value_int(), Some(-456));
    let other = CcdiFrame::new(b'j', b"047-456").unwrap();
    assert_eq!(CcdiMessage::decode(&other).query_rssi_tenths(), None);
    assert_eq!(CcdiMessage::decode(&other).query_value_int(), Some(-456));
}

#[test]
fn an_error_fails_a_command_before_or_behind_its_prompt() {
    for answer in [&b"e03001A7\r."[..], b".e03001A7\r"] {
        let mut radio: TaitCcdiRadio<()> = TaitCcdiRadio::new(());
        let (_, t) = radio.set_transmitter(true);
        let (r, _) = ended(radio.receive(t, answer), ());
        assert_eq!(r, Err(TaitError::Ccdi { category: b'0', error_number: 1 }));
    }
}

#[test]
fn a_prompt_alone_ends_a_command_that_it_may_end() {
    let mut radio: TaitCcdiRadio<()> = TaitCcdiRadio::new(());
    let (octets, t) = radio.set_progress_messages(true);
    assert_eq!(octets, b"f03041A2\r".to_vec());
    assert_eq!(ended(radio.receive(t, b"."), ()).0, Ok(None));
    let query = CcdiFrame::new(b'q', b"").unwrap();
    let (_, t) = radio.transact(&query, Acknowledged {}, false);
    match radio.receive::<_, ()>(t, b".") {
        TransactStep::More(_) => {}
        TransactStep::Done(_) => panic!("the prompt does not end it"),
    }
}

#[test]
fn a_read_that_brings_nothing_is_no_response() {
    let mut radio: TaitCcdiRadio<()> = TaitCcdiRadio::new(());
    let t = Transaction::new(Acknowledged {}, true);
    assert_eq!(ended(radio.receive(t, b""), ()).0, Err(TaitError::NoResponse));
}

#[test]
fn an_answer_that_is_cut_anywhere_is_the_same_answer() {
    let answer = b"p0206C8\rj07064-456C9\r";
    for cut in 1..answer.len() {
        let mut radio: TaitCcdiRadio<()> = TaitCcdiRadio::new(());
        let (_, t) = radio.read_rssi_tenths();
        let t = match radio.receive::<_, ()>(t, &answer[..cut]) {
            TransactStep::More(t) => t,
            TransactStep::Done(_) => panic!("the answer has not come"),
        };
        match radio.receive::<_, ()>(t, &answer[cut..]) {
            TransactStep::Done(r) => assert_eq!(level_from(r), Ok(-456)),
            TransactStep::More(_) => panic!("the answer has come"),
        }
        assert_eq!(radio.drain_events(), vec![RadioEvent::CarrierSense(false)]);
        assert!(radio.drain_events().is_empty());
    }
}

#[test]
fn what_the_port_did_is_passed_on() {
    let failed: Result<Option<Option<i16>>, TaitError<u8>> = Err(TaitError::Io(7));
    assert_eq!(level_from(failed), Err(TaitError::Io(7)));
    let none: Result<Option<Option<i16>>, TaitError<u8>> = Ok(None);
    assert_eq!(level_from(none), Err(TaitError::NoResponse));
}

#[test]
fn channels_and_zones_are_told_apart() {
    assert_eq!(build_go_to_channel(9999, None).unwrap().params(), b"9999");
    assert_eq!(build_go_to_channel(42, Some(7)).unwrap().params(), b"070042");
    assert_eq!(build_go_to_channel(10000, Some(0)), None);
}

#[test]
fn a_short_message_names_its_receiver() {
    let id = b"12345678";
    let frame = build_sdm(id, b"Hi", false).unwrap();
    assert_eq!(frame.ident(), b'a');
    assert!(frame.params().ends_with(b"12345678Hi"));
    assert!(build_sdm(id, &[b'x'; 32], false).is_some());
    assert!(build_sdm(id, &[b'x'; 33], false).is_none());
    assert!(build_sdm(id, &[b'x'; 128], true).is_some());
    assert!(build_sdm(id, &[b'x'; 129], true).is_none());
}

#[test]
fn a_pipe_that_is_cut_anywhere_brings_the_same_packets() {
    let options = TransparentOptions::default();
    let from: TaitTransparentTransport<()> = TaitTransparentTransport::new((), options);
    let (mut octets, air) = from.send::<()>(&[0xC0, 1, 0xDB]).unwrap();
    let (more, _) = from.send::<()>(b"second").unwrap();
    octets.extend(more);
    for cut in 0..=octets.len() {
        let mut to: TaitTransparentTransport<()> = TaitTransparentTransport::new((), options);
        to.receive(&octets[..cut]);
        to.receive(&octets[cut..]);
        let (first, meta) = to.read_frame().unwrap();
        assert_eq!((first.command, first.payload), (Command::Data, vec![0xC0, 1, 0xDB]));
        assert_eq!(meta.estimated_airtime_us, Some(air));
        assert_eq!(to.read_frame().unwrap().0.payload, b"second".to_vec());
        assert!(to.read_frame().is_none());
    }
}
