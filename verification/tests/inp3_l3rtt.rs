use ax25_node_core::ax25::Callsign;
use ax25_node_core::netrom::wire::inp3_l3rtt::{
    is_l3rtt, Inp3L3RttFrame, DEFAULT_CAPABILITY_TEXT_WIDTH, L3RTT_BASE,
};
use ax25_node_core::netrom::wire::{
    NetRomNetworkHeader, NetRomPacket, NetRomTransportHeader, DEFAULT_TIME_TO_LIVE, OPCODE_MASK,
};

fn m0lte() -> Callsign {
    Callsign::parse("M0LTE").unwrap()
}

const HEADER_PREFIX: [u8; 20] = [
    0x9A, 0x60, 0x98, 0xA8, 0x8A, 0x40, 0x60,
    0x98, 0x66, 0xA4, 0xA8, 0xA8, 0x40, 0x60,
    0x19,
    0x00, 0x00, 0x00, 0x00, 0x02,
];

fn with_payload(payload: &[u8]) -> Vec<u8> {
    let mut v = Vec::new();
    v.extend_from_slice(&HEADER_PREFIX);
    v.extend_from_slice(payload);
    v
}

fn vector_a() -> Vec<u8> {
    with_payload(&[0x24, 0x4E, 0x20, 0x20, 0x20, 0x20, 0x20, 0x20])
}

fn vector_b() -> Vec<u8> {
    with_payload(&[0x24, 0x4E, 0x24, 0x49, 0x34, 0x20, 0x20, 0x20])
}

fn vector_c() -> Vec<u8> {
    vector_a()
}

#[test]
fn build_plain_inp3_probe_matches_spec_vector_a() {
    let frame = Inp3L3RttFrame::build(m0lte(), None).unwrap();

    assert_eq!(frame.to_bytes(), vector_a());
    assert_eq!(frame.to_bytes().len(), 28);
    assert!(frame.inp3_capable);
    assert_eq!(frame.ip_accept, None);
    assert_eq!(frame.capability_text, b"$N      ");

    assert_eq!(frame.network.origin, m0lte());
    assert_eq!(
        frame.network.destination,
        Callsign::new(&L3RTT_BASE, 0).unwrap()
    );
    assert_eq!(frame.network.time_to_live, 25);
    assert_eq!(frame.transport.opcode & OPCODE_MASK, 0x02);
    assert_eq!(frame.transport.flags, 0);
}

#[test]
fn build_inp3_plus_ipv4_probe_matches_spec_vector_b() {
    let frame = Inp3L3RttFrame::build(m0lte(), Some(4)).unwrap();

    assert_eq!(frame.to_bytes(), vector_b());
    assert_eq!(frame.to_bytes().len(), 28);
    assert!(frame.inp3_capable);
    assert_eq!(frame.ip_accept, Some(4));
    assert_eq!(frame.capability_text, b"$N$I4   ");
}

#[test]
fn parse_vector_a_extracts_plain_inp3_capability() {
    let frame = Inp3L3RttFrame::try_parse(&vector_a()).unwrap();
    assert!(frame.inp3_capable);
    assert_eq!(frame.ip_accept, None);
    assert_eq!(frame.network.origin, m0lte());
    assert_eq!(frame.network.destination.base(), &L3RTT_BASE);
}

#[test]
fn parse_vector_b_extracts_inp3_and_ipv4() {
    let frame = Inp3L3RttFrame::try_parse(&vector_b()).unwrap();
    assert!(frame.inp3_capable);
    assert_eq!(frame.ip_accept, Some(4));
}

#[test]
fn parse_vector_c_recognised_as_our_own_reflection_by_origin() {
    let frame = Inp3L3RttFrame::try_parse(&vector_c()).unwrap();
    assert!(frame.is_reflection_of(&m0lte()));
    assert!(!frame.is_reflection_of(&Callsign::parse("GB7RDG").unwrap()));
}

#[test]
fn build_then_parse_round_trips_through_bytes() {
    for ip in [None, Some(0u8), Some(4), Some(6), Some(9)] {
        let built = Inp3L3RttFrame::build(m0lte(), ip).unwrap();
        let parsed = Inp3L3RttFrame::try_parse(&built.to_bytes()).unwrap();
        assert!(parsed.inp3_capable);
        assert_eq!(parsed.ip_accept, ip);
        assert_eq!(parsed.network.origin, m0lte());
        assert_eq!(parsed.to_bytes(), built.to_bytes());
    }
}

#[test]
fn capability_text_parse_is_width_independent() {
    let wide = Inp3L3RttFrame::build_with(m0lte(), Some(4), DEFAULT_TIME_TO_LIVE, 40).unwrap();
    assert_eq!(wide.to_bytes()[20..].len(), 40);
    let parsed = Inp3L3RttFrame::try_parse(&wide.to_bytes()).unwrap();
    assert!(parsed.inp3_capable);
    assert_eq!(parsed.ip_accept, Some(4));
}

#[test]
fn capability_text_shorter_than_width_is_not_truncated() {
    let frame = Inp3L3RttFrame::build_with(m0lte(), Some(4), DEFAULT_TIME_TO_LIVE, 0).unwrap();
    assert_eq!(frame.capability_text, b"$N$I4");
    let parsed = Inp3L3RttFrame::try_parse(&frame.to_bytes()).unwrap();
    assert!(parsed.inp3_capable);
    assert_eq!(parsed.ip_accept, Some(4));
}

#[test]
fn unknown_dollar_tokens_are_ignored_but_known_ones_still_parse() {
    let payload = b"$N$Z9$I4 ";
    let info = with_payload(payload);
    let packet = NetRomPacket::decode(&info).unwrap();
    let frame = Inp3L3RttFrame::try_from_packet(&packet).unwrap();
    assert!(frame.inp3_capable);
    assert_eq!(frame.ip_accept, Some(4));
}

#[test]
fn a_packet_without_dollar_n_is_l3rtt_but_not_inp3_capable() {
    let info = with_payload(b"        ");
    let packet = NetRomPacket::decode(&info).unwrap();
    assert!(is_l3rtt(&packet));
    let frame = Inp3L3RttFrame::try_from_packet(&packet).unwrap();
    assert!(!frame.inp3_capable);
    assert_eq!(frame.ip_accept, None);
}

#[test]
fn non_l3rtt_destination_is_not_recognised() {
    let packet = NetRomPacket {
        network: NetRomNetworkHeader {
            origin: m0lte(),
            destination: Callsign::parse("GB7RDG").unwrap(),
            time_to_live: 25,
        },
        transport: NetRomTransportHeader {
            circuit_index: 1,
            circuit_id: 1,
            tx_sequence: 0,
            rx_sequence: 0,
            opcode: 0x02,
            flags: 0,
        },
        payload: &[],
    };

    assert!(!is_l3rtt(&packet));
    assert!(Inp3L3RttFrame::try_from_packet(&packet).is_none());
}

#[test]
fn l3rtt_destination_with_wrong_opcode_is_not_recognised() {
    let packet = NetRomPacket {
        network: NetRomNetworkHeader {
            origin: m0lte(),
            destination: Callsign::new(&L3RTT_BASE, 0).unwrap(),
            time_to_live: 25,
        },
        transport: NetRomTransportHeader {
            circuit_index: 0,
            circuit_id: 0,
            tx_sequence: 0,
            rx_sequence: 0,
            opcode: 0x05,
            flags: 0,
        },
        payload: &[],
    };

    assert!(!is_l3rtt(&packet));
    assert!(Inp3L3RttFrame::try_from_packet(&packet).is_none());
}

#[test]
fn parse_is_total_on_empty_and_truncated_input() {
    assert!(Inp3L3RttFrame::try_parse(&[]).is_none());
    assert!(Inp3L3RttFrame::try_parse(&[0u8; 19]).is_none());
    assert!(Inp3L3RttFrame::try_parse(&[0u8; 20]).is_none());

    let va = vector_a();
    for len in 0..va.len() {
        let _ = Inp3L3RttFrame::try_parse(&va[..len]);
    }

    let header_only = Inp3L3RttFrame::try_parse(&va[..20]).unwrap();
    assert!(!header_only.inp3_capable);
}

#[test]
fn parse_is_total_on_garbage() {
    let mut state: u32 = 20260607;
    let mut next = || {
        state ^= state << 13;
        state ^= state >> 17;
        state ^= state << 5;
        state
    };
    for _ in 0..20_000 {
        let len = (next() % 64) as usize;
        let mut buf = vec![0u8; len];
        for b in buf.iter_mut() {
            *b = (next() & 0xFF) as u8;
        }
        let _ = Inp3L3RttFrame::try_parse(&buf);
    }
}

#[test]
fn build_rejects_out_of_range_ip_accept() {
    assert!(Inp3L3RttFrame::build(m0lte(), Some(10)).is_none());
}

#[test]
fn build_honours_custom_ttl() {
    let frame =
        Inp3L3RttFrame::build_with(m0lte(), None, 1, DEFAULT_CAPABILITY_TEXT_WIDTH).unwrap();
    assert_eq!(frame.network.time_to_live, 1);
}
