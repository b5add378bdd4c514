use ax25_node_core::kiss::{encode, encode_into, Command, Decoder, Frame, FEND, FESC, TFEND, TFESC};

#[test]
fn a_frame_stands_between_delimiters() {
    assert_eq!(encode(0, Command::Data, b"AB"), vec![FEND, 0x00, 0x41, 0x42, FEND]);
    assert_eq!(encode(3, Command::Other(1), &[20]), vec![FEND, 0x31, 20, FEND]);
    assert_eq!(encode(15, Command::Data, &[]), vec![FEND, 0xF0, FEND]);
}

#[test]
fn delimiters_and_escapes_are_escaped() {
    assert_eq!(
        encode(0, Command::Data, &[FEND, 1, FESC]),
        vec![FEND, 0x00, FESC, TFEND, 1, FESC, TFESC, FEND]
    );
    // The command octet of port 12 is the delimiter itself.
    assert_eq!(encode(12, Command::Data, &[7]), vec![FEND, FESC, TFEND, 7, FEND]);
}

#[test]
fn a_frame_holds_no_delimiter_within() {
    let payload: Vec<u8> = (0..=255u8).collect();
    let sent = encode(12, Command::Other(11), &payload);
    assert_eq!(sent[0], FEND);
    assert_eq!(sent[sent.len() - 1], FEND);
    for b in &sent[1..sent.len() - 1] {
        assert_ne!(*b, FEND);
    }
}

#[test]
fn kiss_frames_round_trip_over_every_octet() {
    let payload: Vec<u8> = (0..=255u8).collect();
    for port in 0..16u8 {
        for number in 0..16u8 {
            let command = if number == 0 { Command::Data } else { Command::Other(number) };
            let mut d = Decoder::new();
            let out = d.push(&encode(port, command, &payload));
            assert_eq!(out, vec![Frame { port, command, payload: payload.clone() }]);
        }
    }
}

#[test]
fn kiss_pieces_make_no_difference() {
    let mut stream = vec![0x55, 0x66];
    stream.extend_from_slice(&encode(0, Command::Data, &[FEND, FESC, 9]));
    stream.extend_from_slice(&encode(1, Command::Data, b"two"));
    let mut whole = Decoder::new();
    let expected = whole.push(&stream);
    assert_eq!(expected.len(), 2);
    for cut in 0..=stream.len() {
        let mut d = Decoder::new();
        let mut out = d.push(&stream[..cut]);
        out.extend(d.push(&stream[cut..]));
        assert_eq!(out, expected);
    }
}

#[test]
fn frames_may_share_a_delimiter() {
    let mut d = Decoder::new();
    let out = d.push(&[FEND, 0x00, 1, FEND, 0x00, 2, FEND]);
    assert_eq!(out.len(), 2);
    assert_eq!(out[0].payload, vec![1]);
    assert_eq!(out[1].payload, vec![2]);
}

#[test]
fn noise_before_the_first_delimiter_is_passed_over() {
    let mut d = Decoder::new();
    assert!(d.push(&[1, 2, 3]).is_empty());
    assert!(d.push(&[FEND, FEND, FEND]).is_empty());
    assert_eq!(d.push(&[0x00, 5, FEND])[0].payload, vec![5]);
}

#[test]
fn an_undersized_buffer_is_left_alone() {
    let mut small = [9u8; 4];
    assert_eq!(encode_into(&mut small, 0, Command::Data, b"AB"), None);
    assert_eq!(small, [9u8; 4]);
    let mut large = [9u8; 6];
    assert_eq!(encode_into(&mut large, 0, Command::Data, b"AB"), Some(5));
    assert_eq!(large, [FEND, 0x00, 0x41, 0x42, FEND, 9]);
}
