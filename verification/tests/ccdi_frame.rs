use ax25_node_core::radio::tait::ccdi::{CcdiFrame, MAX_LINE, MAX_PARAMS};

fn encode_str(ident: u8, params: &[u8]) -> String {
    String::from_utf8(CcdiFrame::new(ident, params).unwrap().encode()).unwrap()
}

#[test]
fn encodes_to_wire_form() {
    assert_eq!(encode_str(b'q', b""), "q002F");
    assert_eq!(encode_str(b'q', b"5064"), "q0450645C");
    assert_eq!(encode_str(b'f', b"91"), "f0291CE");
    assert_eq!(encode_str(b'f', b"041"), "f03041A2");
}

#[test]
fn encode_to_bytes_appends_carriage_return() {
    let bytes = CcdiFrame::new(b'q', b"").unwrap().encode_to_bytes();
    assert_eq!(bytes, b"q002F\r");
}

#[test]
fn parses_valid_lines() {
    let cases: &[(&[u8], u8, &[u8])] = &[
        (b"j07064-456C9", b'j', b"064-456"),
        (b"m0813203.02A2", b'm', b"13203.02"),
        (b"p0205C9", b'p', b"05"),
    ];
    for (line, ident, params) in cases {
        let frame = CcdiFrame::try_parse(line).expect("valid line");
        assert_eq!(frame.ident(), *ident);
        assert_eq!(frame.params(), *params);
    }
}

#[test]
fn rejects_corrupt_lines() {
    assert!(CcdiFrame::try_parse(b"").is_none());
    assert!(CcdiFrame::try_parse(b"q002").is_none());
    assert!(CcdiFrame::try_parse(b"j07064-456C8").is_none());
    assert!(CcdiFrame::try_parse(b"j08064-456C9").is_none());
    assert!(CcdiFrame::try_parse(b"jZZ064-456C9").is_none());
}

#[test]
fn round_trips_encode_then_parse() {
    for (ident, params) in [
        (b'q', &b""[..]),
        (b'q', &b"5064"[..]),
        (b'f', &b"91"[..]),
        (b'a', &b"130520312345678M01D0E"[..]),
        (b's', &b"0800TESTHi!"[..]),
    ] {
        let frame = CcdiFrame::new(ident, params).unwrap();
        let wire = frame.encode();
        let parsed = CcdiFrame::try_parse(&wire).expect("round-trip");
        assert_eq!(parsed, frame);
        assert_eq!(parsed.ident(), ident);
        assert_eq!(parsed.params(), params);
    }
}

#[test]
fn rejects_over_long_params() {
    let too_big = [b'x'; MAX_PARAMS + 1];
    assert!(CcdiFrame::new(b'a', &too_big).is_none());
}

#[test]
fn max_length_params_round_trip() {
    let params = [b'A'; MAX_PARAMS];
    let frame = CcdiFrame::new(b'a', &params).unwrap();
    assert_eq!(frame.encoded_len(), MAX_LINE);
    let wire = frame.encode();
    assert_eq!(&wire[1..3], b"FF");
    assert_eq!(CcdiFrame::try_parse(&wire).unwrap(), frame);
}
