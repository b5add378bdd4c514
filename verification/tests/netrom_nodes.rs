use ax25_node_core::ax25::{Address, Callsign, ADDRESS_LEN};
use ax25_node_core::netrom::wire::{
    NetRomParseOptions, NodesBroadcast, NodesRoutingEntry, ALIAS_LENGTH,
};

type EntrySpec = (Callsign, &'static str, Callsign, u8);

fn encode_shifted(call: Callsign) -> [u8; ADDRESS_LEN] {
    let addr = Address {
        callsign: call,
        crh: false,
        extension: false,
    };
    let mut bytes = [0u8; ADDRESS_LEN];
    addr.encode(&mut bytes).expect("7-byte buffer");
    bytes
}

fn encode_alias(alias: &str) -> [u8; ALIAS_LENGTH] {
    let mut bytes = [b' '; ALIAS_LENGTH];
    for (i, &b) in alias
        .as_bytes()
        .iter()
        .take(ALIAS_LENGTH)
        .enumerate()
    {
        bytes[i] = b;
    }
    bytes
}

fn build(sender_alias: &str, entries: &[EntrySpec]) -> Vec<u8> {
    let mut buf = Vec::new();
    buf.push(NodesBroadcast::SIGNATURE);
    buf.extend_from_slice(&encode_alias(sender_alias));
    for &(dest, dest_alias, neighbour, quality) in entries {
        buf.extend_from_slice(&encode_shifted(dest));
        buf.extend_from_slice(&encode_alias(dest_alias));
        buf.extend_from_slice(&encode_shifted(neighbour));
        buf.push(quality);
    }
    assert_eq!(
        buf.len(),
        7 + entries.len() * NodesRoutingEntry::ENCODED_LENGTH
    );
    buf
}

fn call(s: &str) -> Callsign {
    Callsign::parse(s).unwrap()
}

fn call_ssid(s: &str, ssid: u8) -> Callsign {
    Callsign::new(s.as_bytes(), ssid).unwrap()
}

#[test]
fn parses_signature_and_sender_alias() {
    let info = build("RDGBPQ", &[]);
    let bc = NodesBroadcast::try_parse(&info).unwrap();
    assert_eq!(bc.sender_alias().as_str(), "RDGBPQ");
    assert_eq!(bc.entry_count(), 0);
}

#[test]
fn rejects_a_frame_whose_first_octet_is_not_the_signature() {
    let mut info = build("RDGBPQ", &[]);
    info[0] = 0x00;
    assert!(NodesBroadcast::try_parse(&info).is_none());
}

#[test]
fn parses_a_single_destination_entry_with_all_fields() {
    let sot = call("GB7SOT");
    let xyz = call_ssid("GB7XYZ", 5);
    let info = build("RDGBPQ", &[(sot, "SOT", xyz, 200)]);

    let bc = NodesBroadcast::try_parse(&info).unwrap();
    assert_eq!(bc.entry_count(), 1);
    let e = bc.entries().first().unwrap();
    assert_eq!(e.destination, sot);
    assert_eq!(e.destination_alias.as_str(), "SOT");
    assert_eq!(e.best_neighbour, xyz);
    assert_eq!(e.best_quality, 200);
}

#[test]
fn parses_several_entries_in_order() {
    let sot = call("GB7SOT");
    let xyz = call_ssid("GB7XYZ", 5);
    let rdg = call("GB7RDG");
    let info = build(
        "RDGBPQ",
        &[
            (sot, "SOT", xyz, 200),
            (xyz, "XYZ", xyz, 192),
            (rdg, "RDG", rdg, 255),
        ],
    );

    let bc = NodesBroadcast::try_parse(&info).unwrap();
    assert_eq!(bc.entry_count(), 3);
    let dests: Vec<_> = bc.entries().iter().map(|e| e.destination).collect();
    assert_eq!(dests, vec![sot, xyz, rdg]);
    let quals: Vec<_> = bc.entries().iter().map(|e| e.best_quality).collect();
    assert_eq!(quals, vec![200u8, 192, 255]);
}

#[test]
fn caps_at_eleven_entries_per_frame_ignoring_the_surplus() {
    let sot = call("GB7SOT");
    let xyz = call_ssid("GB7XYZ", 5);
    let specs: Vec<EntrySpec> =
        (0..13).map(|_| (sot, "SOT", xyz, 200u8)).collect();
    let info = build("RDGBPQ", &specs);

    let bc = NodesBroadcast::try_parse(&info).unwrap();
    assert_eq!(bc.entry_count(), NodesBroadcast::MAX_ENTRIES_PER_FRAME);
}

#[test]
fn trailing_partial_entry_is_rejected_by_strict_but_accepted_by_lenient() {
    let sot = call("GB7SOT");
    let xyz = call_ssid("GB7XYZ", 5);
    let mut info = build("RDGBPQ", &[(sot, "SOT", xyz, 200)]);
    info.extend_from_slice(&[0x01, 0x02, 0x03]);

    assert!(NodesBroadcast::try_parse_with(&info, NetRomParseOptions::strict()).is_none());

    let lenient = NodesBroadcast::try_parse_with(&info, NetRomParseOptions::lenient()).unwrap();
    assert_eq!(lenient.entry_count(), 1);
}

#[test]
fn empty_destination_list_is_rejected_by_strict_but_accepted_by_lenient() {
    let info = build("RDGBPQ", &[]);

    assert!(NodesBroadcast::try_parse_with(&info, NetRomParseOptions::strict()).is_none());
    let lenient = NodesBroadcast::try_parse_with(&info, NetRomParseOptions::lenient()).unwrap();
    assert_eq!(lenient.entry_count(), 0);
}

#[test]
fn bpq_and_xrouter_presets_accept_a_padded_dump_like_lenient() {
    let sot = call("GB7SOT");
    let xyz = call_ssid("GB7XYZ", 5);
    let mut info = build("RDGBPQ", &[(sot, "SOT", xyz, 200)]);
    info.push(0x00);

    let bpq = NodesBroadcast::try_parse_with(&info, NetRomParseOptions::bpq()).unwrap();
    assert_eq!(bpq.entry_count(), 1);
    let xr = NodesBroadcast::try_parse_with(&info, NetRomParseOptions::xrouter()).unwrap();
    assert_eq!(xr.entry_count(), 1);
}

#[test]
fn short_or_truncated_input_returns_none_without_panicking() {
    for length in [0usize, 1, 6, 7, 20] {
        let mut bytes = vec![0u8; length];
        if length > 0 {
            bytes[0] = NodesBroadcast::SIGNATURE;
        }
        let _ = NodesBroadcast::try_parse(&bytes);
    }
}

#[test]
fn pseudo_random_garbage_never_panics() {
    let mut state: u32 = 1234;
    let mut next = || {
        state ^= state << 13;
        state ^= state >> 17;
        state ^= state << 5;
        state
    };
    for _ in 0..500 {
        let len = (next() % 300) as usize;
        let mut bytes = vec![0u8; len];
        for b in bytes.iter_mut() {
            *b = (next() & 0xFF) as u8;
        }
        let _ = NodesBroadcast::try_parse_with(&bytes, NetRomParseOptions::lenient());
        let _ = NodesBroadcast::try_parse_with(&bytes, NetRomParseOptions::strict());
    }
}

#[test]
fn alias_is_trimmed_of_trailing_spaces() {
    let info = build("RDG", &[]);
    let bc = NodesBroadcast::try_parse(&info).unwrap();
    assert_eq!(bc.sender_alias().as_str(), "RDG");
}

#[test]
fn all_space_best_neighbour_decodes_to_empty_base() {
    let sot = call("GB7SOT");
    let blank = Callsign::new(b"", 0).unwrap();
    let info = build("RDGBPQ", &[(sot, "SOT", blank, 0)]);
    let bc = NodesBroadcast::try_parse(&info).unwrap();
    let e = bc.entries().first().unwrap();
    assert_eq!(e.best_neighbour.base(), b"");
}
