use ax25_node_core::ax25::xid::info_field;
use ax25_node_core::ax25::xid::{
    ClassesOfProcedures, HdlcOptionalFunctions, RejectMode, XidParameters,
};
use ax25_node_core::ax25::{Address, Callsign, Frame, PID_NO_LAYER3};

fn station(text: &str, crh: bool) -> Address {
    Address { callsign: Callsign::parse(text).unwrap(), crh, extension: false }
}

fn frame(control: u8, pid: Option<u8>, info: &[u8]) -> Frame {
    Frame {
        destination: station("APRS", true),
        source: station("M0LTE-7", false),
        digipeaters: vec![],
        control,
        pid,
        info: info.to_vec(),
    }
}

#[test]
fn callsigns_are_capitals_and_digits_with_an_identifier() {
    let c = Callsign::parse("M0LTE-15").unwrap();
    assert_eq!(c.base(), b"M0LTE");
    assert_eq!(c.ssid(), 15);
    assert_eq!(Callsign::parse("M0LTE"), Callsign::new(b"M0LTE", 0));
    for text in ["", "-1", "m0lte", "TOOLONG", "M0LTE-", "M0LTE-16", "M0LTE-1-2", "M0 LTE"] {
        assert_eq!(Callsign::parse(text), None);
    }
    assert_eq!(Callsign::new(b"M0LTE", 16), None);
    assert_eq!(Callsign::new(b"", 3).unwrap().base(), b"");
}

#[test]
fn an_address_is_shifted_and_read_back() {
    let a = Address { callsign: Callsign::parse("M0LTE-7").unwrap(), crh: true, extension: true };
    let mut out = [0u8; 8];
    assert_eq!(a.encode(&mut out), Some(()));
    assert_eq!(out, [0x9A, 0x60, 0x98, 0xA8, 0x8A, 0x40, 0xEF, 0]);
    assert_eq!(Address::decode(&out), Some(a));
    assert_eq!(Address::decode(&out[..6]), None);
    assert_eq!(a.encode(&mut [0u8; 6]), None);
    let mut at_two = [0u8; 9];
    assert_eq!(a.encode_at(&mut at_two, 2), Some(()));
    assert_eq!(at_two[2..], out[..7]);
    assert_eq!(a.encode_at(&mut at_two, 3), None);
}

#[test]
fn an_address_depends_on_seven_octets_only() {
    let mut out = vec![];
    let a = Address { callsign: Callsign::parse("GB7RDG-1").unwrap(), crh: false, extension: true };
    a.append_to(&mut out);
    out.push(0xFF);
    assert_eq!(Address::decode(&out), Some(a));
    // A character that is no capital and no digit.
    out[0] = b'a' * 2;
    assert_eq!(Address::decode(&out), None);
}

#[test]
fn frames_round_trip_with_the_path_closed() {
    let mut f = frame(0x03, Some(PID_NO_LAYER3), b"hello");
    f.digipeaters = vec![station("GB7RDG", false), station("WIDE2-1", true)];
    let octets = f.encode();
    assert_eq!(octets.len(), 4 * 7 + 2 + 5);
    let mut expected = f.clone();
    expected.digipeaters[1].extension = true;
    assert_eq!(Frame::decode(&octets), Some(expected));
}

#[test]
fn numbered_frames_of_an_extended_link_have_a_second_control_octet() {
    let mut octets = frame(0x06, None, &[]).encode();
    octets.push(0x0B);
    octets.push(PID_NO_LAYER3);
    octets.push(b'x');
    let (f, second) = Frame::decode_with_modulo(&octets, true).unwrap();
    assert_eq!((f.control, second, f.pid), (0x06, Some(0x0B), Some(PID_NO_LAYER3)));
    assert_eq!(f.info, b"x".to_vec());
    let (g, none) = Frame::decode_with_modulo(&octets, false).unwrap();
    assert_eq!((none, g.pid), (None, Some(0x0B)));
    assert_eq!(g.info, vec![PID_NO_LAYER3, b'x']);
}

#[test]
fn unnumbered_frames_read_the_same_either_way() {
    for control in [0x2Fu8, 0x3F, 0x6F, 0x43, 0x53, 0x63, 0x0F, 0xAF, 0x87] {
        let octets = frame(control, None, b"i").encode();
        let plain = Frame::decode_with_modulo(&octets, false);
        assert!(plain.is_some());
        assert_eq!(Frame::decode_with_modulo(&octets, true), plain);
    }
}

#[test]
fn frames_that_are_cut_short_are_refused() {
    let octets = frame(0x03, Some(PID_NO_LAYER3), &[]).encode();
    for n in 0..octets.len() {
        assert_eq!(Frame::decode(&octets[..n]), None);
    }
    assert!(Frame::decode(&octets).is_some());
}

#[test]
fn address_bits_tell_commands_from_responses() {
    let mut f = frame(0x3F, None, &[]);
    assert!(f.is_command() && !f.is_response() && f.poll_final());
    f.destination.crh = false;
    assert!(!f.is_command() && !f.is_response());
    f.source.crh = true;
    f.control = 0x2F;
    assert!(!f.is_command() && f.is_response() && !f.poll_final());
}

#[test]
fn negotiated_parameters_are_written_as_tagged_values() {
    let p = XidParameters {
        classes_of_procedures: Some(ClassesOfProcedures { half_duplex: true }),
        hdlc_optional_functions: Some(HdlcOptionalFunctions {
            reject: RejectMode::SelectiveReject,
            modulo128: true,
            srej_multiframe: false,
            segmenter_reassembler: false,
        }),
        i_field_length_rx_bits: Some(2048),
        window_size_rx: Some(32),
        ack_timer_millis: Some(3000),
        retries: Some(10),
    };
    let octets = info_field::encode(&p);
    assert_eq!(
        octets,
        vec![
            0x82, 0x80, 0x00, 0x17, 0x02, 0x02, 0x21, 0x00, 0x03, 0x03, 0x84, 0xA8, 0x02, 0x06,
            0x02, 0x08, 0x00, 0x08, 0x01, 0x20, 0x09, 0x02, 0x0B, 0xB8, 0x0A, 0x01, 0x0A,
        ]
    );
    assert_eq!(info_field::parse(&octets), Some(p));
}

#[test]
fn parameters_round_trip_at_every_width() {
    for v in [0u32, 1, 255, 256, 65535, 65536, u32::MAX] {
        let p = XidParameters {
            i_field_length_rx_bits: Some(v),
            window_size_rx: Some(v),
            ack_timer_millis: Some(v),
            retries: Some(v),
            ..XidParameters::default()
        };
        assert_eq!(info_field::parse(&info_field::encode(&p)), Some(p));
    }
    let silent = XidParameters::default();
    assert_eq!(info_field::encode(&silent), vec![0x82, 0x80, 0x00, 0x00]);
    assert_eq!(info_field::parse(&[0x82, 0x80, 0x00, 0x00]), Some(silent));
}

#[test]
fn malformed_parameter_fields_are_refused() {
    assert_eq!(info_field::parse(&[]), None);
    assert_eq!(info_field::parse(&[0x81, 0x80, 0, 0]), None);
    assert_eq!(info_field::parse(&[0x82, 0x81, 0, 0]), None);
    // A group that is longer or shorter than it says.
    assert_eq!(info_field::parse(&[0x82, 0x80, 0, 4, 8, 1, 7]), None);
    assert_eq!(info_field::parse(&[0x82, 0x80, 0, 2, 8, 1, 7]), None);
    // Values of a length that they cannot have.
    assert_eq!(info_field::parse(&[0x82, 0x80, 0, 3, 2, 1, 7]), None);
    assert_eq!(info_field::parse(&[0x82, 0x80, 0, 2, 8, 0]), None);
    // A parameter that is not known is passed over.
    let p = info_field::parse(&[0x82, 0x80, 0, 6, 77, 1, 7, 8, 1, 4]).unwrap();
    assert_eq!(p, XidParameters { window_size_rx: Some(4), ..XidParameters::default() });
}

#[test]
fn octets_and_bits_convert() {
    assert_eq!(XidParameters::octets_to_bits(256), 2048);
    assert_eq!(XidParameters::octets_to_bits(0x2000_0000), u32::MAX);
    let p = XidParameters { i_field_length_rx_bits: Some(2055), ..XidParameters::default() };
    assert_eq!(p.i_field_length_rx_octets(), Some(256));
    assert_eq!(XidParameters::default().i_field_length_rx_octets(), None);
}
