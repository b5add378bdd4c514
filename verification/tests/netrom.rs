use ax25_node_core::ax25::Callsign;
use ax25_node_core::netrom::wire::{
    read_alias, try_read_shifted, write_alias, write_nodes_frame, write_shifted, Alias,
    ConnectRequestInfo, Inp3ParseOptions, Inp3Rif, Inp3Rip, Inp3Tlv, NetRomNetworkHeader, NetRomParseOptions,
    NetRomTransportHeader, NodesAdvertisementEntry, NodesBroadcast,
};

fn call(s: &str) -> Callsign {
    Callsign::parse(s).unwrap()
}

#[test]
fn fields_are_read_back_as_they_were_written() {
    let mut field = [0u8; 7];
    write_shifted(&call("GB7RDG-12"), &mut field).unwrap();
    assert_eq!(field[6], 0x60 | 12 << 1);
    assert_eq!(try_read_shifted(&field), Some(call("GB7RDG-12")));
    let mut alias = [0u8; 6];
    write_alias(&Alias::from_str_lossy("RDG"), &mut alias).unwrap();
    assert_eq!(&alias, b"RDG   ");
    assert_eq!(read_alias(&alias).as_str(), "RDG");
    assert_eq!(write_alias(&Alias::empty(), &mut alias[..5]), None);
}

#[test]
fn an_alias_depends_on_six_octets_only() {
    assert_eq!(read_alias(b"RDGBPQxyz"), read_alias(b"RDGBPQ"));
    assert_eq!(read_alias(b"      ").as_str(), "");
    assert!(read_alias(b"\xFF\xFE    ").is_empty());
}

#[test]
fn a_datagram_travels_no_further_than_its_time_to_live() {
    let mut h = NetRomNetworkHeader {
        origin: call("M0LTE-1"),
        destination: call("GB7RDG"),
        time_to_live: 3,
    };
    for left in [2, 1, 0, 0] {
        h = h.decremented();
        assert_eq!(h.time_to_live, left);
        assert_eq!((h.origin, h.destination), (call("M0LTE-1"), call("GB7RDG")));
    }
}

#[test]
fn any_five_octets_are_a_transport_header() {
    for last in 0..=255u8 {
        let octets = [1, 2, 3, 4, last];
        let h = NetRomTransportHeader::decode(&octets).unwrap();
        let mut out = [0u8; 5];
        h.encode(&mut out).unwrap();
        assert_eq!(out, octets);
        assert_eq!(h.opcode_and_flags(), last);
    }
}

#[test]
fn what_strict_reading_takes_lenient_reading_takes_alike() {
    let entry = NodesAdvertisementEntry {
        destination: call("GB7RDG"),
        destination_alias: Alias::from_str_lossy("RDGBPQ"),
        best_neighbour: call("M0LTE-1"),
        quality: 192,
    };
    let mut frame = [0u8; 300];
    let n = write_nodes_frame(&Alias::from_str_lossy("ME"), &[entry; 12], &mut frame).unwrap();
    assert_eq!(n, 7 + 11 * 21);
    let strict = NodesBroadcast::try_parse_with(&frame[..n], NetRomParseOptions::strict()).unwrap();
    let lenient = NodesBroadcast::try_parse_with(&frame[..n], NetRomParseOptions::lenient()).unwrap();
    assert_eq!(strict.entry_count(), 11);
    assert_eq!(strict.entries(), lenient.entries());
    assert_eq!(strict.sender_alias(), lenient.sender_alias());
}

#[test]
fn records_that_are_not_known_are_kept() {
    let rip = Inp3Rip {
        destination: call("GB7RDG"),
        hop_count: 2,
        target_time_ms: 1230,
        tlvs: vec![
            Inp3Tlv::alias("RDG"),
            Inp3Tlv { kind: 0x77, value: vec![1, 2, 3] },
            Inp3Tlv::ip(&[44, 131, 0, 1]),
        ],
    };
    let octets = rip.to_bytes().unwrap();
    assert_eq!(octets.len(), rip.encoded_length());
    let (back, used) = Inp3Rip::try_parse(&octets).unwrap();
    assert_eq!(used, octets.len());
    assert_eq!(back, rip);
    assert!(!back.tlvs[1].is_known());
    assert_eq!(back.tlvs[2].as_ipv4(), Some([44, 131, 0, 1]));
    assert_eq!(back.tlvs[2].as_ipv6(), None);
}

#[test]
fn a_frame_of_entries_reads_the_same_either_way() {
    let rif = Inp3Rif {
        rips: vec![
            Inp3Rip { destination: call("GB7RDG"), hop_count: 1, target_time_ms: 100, tlvs: vec![] },
            Inp3Rip {
                destination: call("M0LTE-7"),
                hop_count: 3,
                target_time_ms: 600_000,
                tlvs: vec![Inp3Tlv::alias("LTE")],
            },
        ],
    };
    let octets = rif.to_bytes().unwrap();
    assert_eq!(octets.len(), rif.encoded_length());
    let strict = Inp3Rif::try_parse_with(&octets, Inp3ParseOptions::strict()).unwrap();
    let lenient = Inp3Rif::try_parse_with(&octets, Inp3ParseOptions::lenient()).unwrap();
    assert_eq!(strict, rif);
    assert_eq!(lenient, rif);
    assert!(strict.rips[1].is_horizon());
}

#[test]
fn a_target_time_that_is_too_long_is_not_written() {
    for (target_time_ms, fits) in
        [(0, true), (655_349, true), (655_350, true), (655_351, false), (655_355, false)]
    {
        let rip =
            Inp3Rip { destination: call("GB7RDG"), hop_count: 1, target_time_ms, tlvs: vec![] };
        assert_eq!(rip.to_bytes().is_some(), fits);
        assert_eq!(Inp3Rif { rips: vec![rip] }.to_bytes().is_some(), fits);
    }
}

#[test]
fn an_alias_record_has_one_octet_for_each_character() {
    for (alias, value) in [
        ("A\u{e9}B", b"A B".to_vec()),
        ("\u{1F4E1}x\t", b" x ".to_vec()),
        ("GB7RDG", b"GB7RDG".to_vec()),
        ("~\u{7f} ", b"~  ".to_vec()),
        ("", vec![]),
    ] {
        assert_eq!(Inp3Tlv::alias(alias), Inp3Tlv { kind: 0x00, value });
    }
}

#[test]
fn a_frame_that_is_read_strictly_is_used_whole() {
    let rip = Inp3Rip {
        destination: call("M0LTE-7"),
        hop_count: 3,
        target_time_ms: 4320,
        tlvs: vec![Inp3Tlv::alias("LTE")],
    };
    let mut octets = Inp3Rif { rips: vec![rip.clone(), rip] }.to_bytes().unwrap();
    let whole = octets.len();
    let read = Inp3Rif::try_parse_with(&octets, Inp3ParseOptions::strict()).unwrap();
    assert_eq!(read.encoded_length(), whole);
    assert_eq!(read.to_bytes(), Some(octets.clone()));
    octets.push(0x42);
    assert_eq!(Inp3Rif::try_parse_with(&octets, Inp3ParseOptions::strict()), None);
    let read = Inp3Rif::try_parse_with(&octets, Inp3ParseOptions::lenient()).unwrap();
    assert_eq!(read.encoded_length(), whole);
}

#[test]
fn whatever_follows_a_connect_request_is_passed_over() {
    let info = ConnectRequestInfo {
        proposed_window: 7,
        originating_user: call("M0LTE-1"),
        originating_node: call("GB7RDG"),
    };
    let mut octets = vec![0u8; 15];
    info.encode(&mut octets).unwrap();
    for c in [0x00, 0xFF, 0x42, 0x0D] {
        assert_eq!(ConnectRequestInfo::decode(&octets), Some(info));
        octets.push(c);
    }
}
