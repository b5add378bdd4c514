use ax25_node_core::ax25::Callsign;
use ax25_node_core::netrom::wire::{
    write_shifted, Inp3ParseOptions, Inp3Rif, Inp3Rip, Inp3Tlv, SHIFTED_LENGTH,
};

fn hex(s: &str) -> Vec<u8> {
    s.split_whitespace()
        .map(|t| u8::from_str_radix(t, 16).unwrap())
        .collect()
}

fn cs(base: &[u8], ssid: u8) -> Callsign {
    Callsign::new(base, ssid).unwrap()
}

fn alias_str(rip: &Inp3Rip) -> Option<String> {
    let mut buf = [0u8; 64];
    let n = rip.alias(&mut buf)?;
    Some(std::str::from_utf8(&buf[..n]).unwrap().into())
}

#[test]
fn shifted_callsign_matches_the_spec_vectors() {
    for (base, ssid, expected) in [
        (b"GB7RDG".as_slice(), 0u8, "8E 84 6E A4 88 8E 60"),
        (b"GB7RDG".as_slice(), 7, "8E 84 6E A4 88 8E 6E"),
        (b"M0LTE".as_slice(), 0, "9A 60 98 A8 8A 40 60"),
        (b"GB7XYZ".as_slice(), 0, "8E 84 6E B0 B2 B4 60"),
    ] {
        let mut buf = [0u8; SHIFTED_LENGTH];
        write_shifted(&cs(base, ssid), &mut buf).unwrap();
        assert_eq!(buf.as_slice(), hex(expected).as_slice());
    }
}

#[test]
fn rip1_alias_tlv_parses_and_round_trips() {
    let bytes = hex("8E 84 6E A4 88 8E 60 02 00 2D 00 03 52 44 47 00");
    assert_eq!(bytes.len(), 16);

    let (rip, consumed) = Inp3Rip::try_parse(&bytes).unwrap();
    assert_eq!(consumed, 16);
    assert_eq!(rip.destination, cs(b"GB7RDG", 0));
    assert_eq!(rip.hop_count, 2);
    assert_eq!(rip.target_time_ms, 450);
    assert!(!rip.is_horizon());
    assert_eq!(rip.tlvs.len(), 1);
    assert_eq!(rip.tlvs[0].kind, Inp3Tlv::ALIAS_TYPE);
    assert_eq!(alias_str(&rip).as_deref(), Some("RDG"));

    assert_eq!(rip.to_bytes().unwrap(), bytes);
}

#[test]
fn rip2_ip_tlv_parses_and_round_trips() {
    let bytes = hex("9A 60 98 A8 8A 40 60 01 00 0C 01 04 2C 83 5B 02 00");
    assert_eq!(bytes.len(), 17);

    let (rip, consumed) = Inp3Rip::try_parse(&bytes).unwrap();
    assert_eq!(consumed, 17);
    assert_eq!(rip.destination, cs(b"M0LTE", 0));
    assert_eq!(rip.hop_count, 1);
    assert_eq!(rip.target_time_ms, 120);
    assert_eq!(rip.tlvs.len(), 1);
    assert_eq!(rip.tlvs[0].kind, Inp3Tlv::IP_TYPE);
    assert_eq!(rip.tlvs[0].as_ipv4(), Some([44, 131, 91, 2]));

    assert_eq!(rip.to_bytes().unwrap(), bytes);
}

#[test]
fn rip3_unknown_tlv_is_retained_verbatim_and_re_emitted() {
    let bytes = hex("8E 84 6E B0 B2 B4 60 04 00 FA 7F 02 AA BB 00 03 58 59 5A 00");
    assert_eq!(bytes.len(), 20);

    let (rip, consumed) = Inp3Rip::try_parse(&bytes).unwrap();
    assert_eq!(consumed, 20);
    assert_eq!(rip.destination, cs(b"GB7XYZ", 0));
    assert_eq!(rip.hop_count, 4);
    assert_eq!(rip.target_time_ms, 2500);

    assert_eq!(rip.tlvs.len(), 2);

    let unknown = &rip.tlvs[0];
    assert_eq!(unknown.kind, 0x7F);
    assert!(!unknown.is_known());
    assert_eq!(unknown.value, vec![0xAA, 0xBB]);

    assert_eq!(rip.tlvs[1].kind, Inp3Tlv::ALIAS_TYPE);
    assert!(rip.tlvs[1].is_known());
    assert_eq!(alias_str(&rip).as_deref(), Some("XYZ"));

    assert_eq!(rip.to_bytes().unwrap(), bytes);
}

#[test]
fn rip4_horizon_withdrawal_has_no_tlv_and_flags_horizon() {
    let bytes = hex("8E 84 6E A4 88 8E 6E FF EA 60 00");
    assert_eq!(bytes.len(), 11);

    let (rip, consumed) = Inp3Rip::try_parse(&bytes).unwrap();
    assert_eq!(consumed, 11);
    assert_eq!(rip.destination, cs(b"GB7RDG", 7));
    assert_eq!(rip.hop_count, 0xFF);
    assert_eq!(rip.target_time_ms, Inp3Rip::HORIZON_MS);
    assert_eq!(rip.target_time_ms, 600_000);
    assert!(rip.is_horizon());
    assert!(rip.tlvs.is_empty());
    assert_eq!(alias_str(&rip), None);

    assert_eq!(rip.to_bytes().unwrap(), bytes);
}

#[test]
fn rif_full_parses_all_four_rips_in_order() {
    let bytes = hex("FF \
         8E 84 6E A4 88 8E 60 02 00 2D 00 03 52 44 47 00 \
         9A 60 98 A8 8A 40 60 01 00 0C 01 04 2C 83 5B 02 00 \
         8E 84 6E B0 B2 B4 60 04 00 FA 7F 02 AA BB 00 03 58 59 5A 00 \
         8E 84 6E A4 88 8E 6E FF EA 60 00");
    assert_eq!(bytes.len(), 65);

    let rif = Inp3Rif::try_parse_with(&bytes, Inp3ParseOptions::strict()).unwrap();
    assert_eq!(rif.rips.len(), 4);

    let dests: Vec<Callsign> = rif.rips.iter().map(|r| r.destination).collect();
    assert_eq!(
        dests,
        vec![
            cs(b"GB7RDG", 0),
            cs(b"M0LTE", 0),
            cs(b"GB7XYZ", 0),
            cs(b"GB7RDG", 7),
        ]
    );
    let hops: Vec<u8> = rif.rips.iter().map(|r| r.hop_count).collect();
    assert_eq!(hops, vec![2, 1, 4, 0xFF]);
    let times: Vec<u32> = rif.rips.iter().map(|r| r.target_time_ms).collect();
    assert_eq!(times, vec![450, 120, 2500, 600_000]);

    assert_eq!(alias_str(&rif.rips[0]).as_deref(), Some("RDG"));
    assert_eq!(rif.rips[1].tlvs[0].as_ipv4(), Some([44, 131, 91, 2]));
    assert_eq!(rif.rips[2].tlvs[0].kind, 0x7F);
    assert_eq!(alias_str(&rif.rips[2]).as_deref(), Some("XYZ"));
    assert!(rif.rips[3].is_horizon());

    assert_eq!(rif.to_bytes().unwrap(), bytes);
}

#[test]
fn rif_min_signature_plus_one_no_tlv_rip() {
    let bytes = hex("FF 9A 60 98 A8 8A 40 60 01 00 7B 00");
    assert_eq!(bytes.len(), 12);

    let rif = Inp3Rif::try_parse_with(&bytes, Inp3ParseOptions::strict()).unwrap();
    assert_eq!(rif.rips.len(), 1);
    let rip = &rif.rips[0];
    assert_eq!(rip.destination, cs(b"M0LTE", 0));
    assert_eq!(rip.hop_count, 1);
    assert_eq!(rip.target_time_ms, 1230);
    assert!(rip.tlvs.is_empty());

    assert_eq!(rif.to_bytes().unwrap(), bytes);
}

#[test]
fn built_rif_round_trips_through_the_parser() {
    let rif = Inp3Rif {
        rips: vec![
            Inp3Rip {
                destination: cs(b"GB7RDG", 0),
                hop_count: 2,
                target_time_ms: 450,
                tlvs: vec![Inp3Tlv::alias("RDG")],
            },
            Inp3Rip {
                destination: cs(b"M0LTE", 0),
                hop_count: 1,
                target_time_ms: 120,
                tlvs: vec![Inp3Tlv::ip(&[0x2C, 0x83, 0x5B, 0x02])],
            },
            Inp3Rip {
                destination: cs(b"GB7RDG", 7),
                hop_count: 0xFF,
                target_time_ms: Inp3Rip::HORIZON_MS,
                tlvs: vec![],
            },
        ],
    };

    let bytes = rif.to_bytes().unwrap();

    let parsed = Inp3Rif::try_parse_with(&bytes, Inp3ParseOptions::strict()).unwrap();
    assert_eq!(parsed.rips.len(), 3);
    assert_eq!(alias_str(&parsed.rips[0]).as_deref(), Some("RDG"));
    assert_eq!(parsed.rips[1].tlvs[0].as_ipv4(), Some([44, 131, 91, 2]));
    assert!(parsed.rips[2].is_horizon());
    assert_eq!(parsed.to_bytes().unwrap(), bytes);
}

#[test]
fn ipv6_tlv_round_trips() {
    let v6: [u8; 16] = [
        0x20, 0x01, 0x0D, 0xB8, 0x00, 0x00, 0x00, 0x00, 0x00, 0x00, 0x00, 0x00, 0x00, 0x00,
        0x00, 0x01,
    ];
    let rip = Inp3Rip {
        destination: cs(b"M0LTE", 0),
        hop_count: 1,
        target_time_ms: 100,
        tlvs: vec![Inp3Tlv::ip(&v6)],
    };

    let bytes = rip.to_bytes().unwrap();
    let (parsed, _) = Inp3Rip::try_parse(&bytes).unwrap();
    assert_eq!(parsed.tlvs[0].value.len(), 16);
    assert_eq!(parsed.tlvs[0].as_ipv6(), Some(v6));
}

#[test]
fn signature_only_rif_is_rejected_by_strict_but_accepted_by_lenient() {
    let bytes = hex("FF");

    assert!(Inp3Rif::try_parse_with(&bytes, Inp3ParseOptions::strict()).is_none());

    let lenient = Inp3Rif::try_parse_with(&bytes, Inp3ParseOptions::lenient()).unwrap();
    assert!(lenient.rips.is_empty());
}

#[test]
fn bpq_and_xrouter_presets_accept_signature_only_like_lenient() {
    let bytes = hex("FF");
    let bpq = Inp3Rif::try_parse_with(&bytes, Inp3ParseOptions::bpq()).unwrap();
    assert!(bpq.rips.is_empty());
    let xr = Inp3Rif::try_parse_with(&bytes, Inp3ParseOptions::xrouter()).unwrap();
    assert!(xr.rips.is_empty());
}

#[test]
fn rip_truncated_mid_target_time_is_rejected_by_strict_dropped_by_lenient() {
    let mut clipped = hex("FF 9A 60 98 A8 8A 40 60 01 00 7B 00");
    clipped.extend_from_slice(&hex("8E 84 6E A4 88 8E 60 02 00"));

    assert!(Inp3Rif::try_parse_with(&clipped, Inp3ParseOptions::strict()).is_none());

    let lenient = Inp3Rif::try_parse_with(&clipped, Inp3ParseOptions::lenient()).unwrap();
    assert_eq!(lenient.rips.len(), 1);
    assert_eq!(lenient.rips[0].destination, cs(b"M0LTE", 0));
}

#[test]
fn truncated_trailing_alias_tlv_degrades_to_eop_keeping_the_route() {
    let bytes = hex("FF 8E 84 6E A4 88 8E 60 02 00 2D 00 03 52 44");

    assert!(Inp3Rif::try_parse_with(&bytes, Inp3ParseOptions::strict()).is_none());

    let lenient = Inp3Rif::try_parse_with(&bytes, Inp3ParseOptions::lenient()).unwrap();
    assert_eq!(lenient.rips.len(), 1);
    assert_eq!(lenient.rips[0].target_time_ms, 450);
    assert_eq!(alias_str(&lenient.rips[0]), None);
}

#[test]
fn a_target_time_above_the_horizon_is_flagged_unreachable() {
    let bytes = hex("FF 9A 60 98 A8 8A 40 60 01 FF FF 00");
    let rif = Inp3Rif::try_parse(&bytes).unwrap();
    assert_eq!(rif.rips.len(), 1);
    assert_eq!(rif.rips[0].target_time_ms, 655350);
    assert!(rif.rips[0].is_horizon());
}

#[test]
fn empty_input_returns_none() {
    assert!(Inp3Rif::try_parse(&[]).is_none());
}

#[test]
fn wrong_signature_returns_none() {
    let bytes = hex("00 9A 60 98 A8 8A 40 60 01 00 7B 00");
    assert!(Inp3Rif::try_parse(&bytes).is_none());
}

#[test]
fn rip_with_bad_callsign_field_fails_to_parse() {
    let bytes = vec![0u8; Inp3Rip::PREFIX_LENGTH + 1];
    assert!(Inp3Rip::try_parse(&bytes).is_none());
}

#[test]
fn short_or_truncated_input_never_panics() {
    for length in [0usize, 1, 2, 10, 11, 15, 64] {
        let mut bytes = vec![0u8; length];
        if length > 0 {
            bytes[0] = Inp3Rif::SIGNATURE;
        }
        let _ = Inp3Rif::try_parse(&bytes);
        let _ = Inp3Rif::try_parse_with(&bytes, Inp3ParseOptions::strict());
    }
}

#[test]
fn truncations_of_every_full_rif_prefix_never_panic_and_never_over_read() {
    let full = hex("FF 8E 84 6E A4 88 8E 60 02 00 2D 00 03 52 44 47 00 \
         9A 60 98 A8 8A 40 60 01 00 0C 01 04 2C 83 5B 02 00 \
         8E 84 6E B0 B2 B4 60 04 00 FA 7F 02 AA BB 00 03 58 59 5A 00 \
         8E 84 6E A4 88 8E 6E FF EA 60 00");

    for n in 0..=full.len() {
        let prefix = &full[..n];
        let _ = Inp3Rif::try_parse_with(prefix, Inp3ParseOptions::lenient());
        let _ = Inp3Rif::try_parse_with(prefix, Inp3ParseOptions::strict());
    }
}

fn rng(state: &mut u32, min: u32, max: u32) -> u32 {
    let mut x = *state;
    x ^= x << 13;
    x ^= x >> 17;
    x ^= x << 5;
    *state = x;
    min + (x % (max - min))
}

#[test]
fn random_garbage_never_panics() {
    let mut state: u32 = 20260607;
    for _ in 0..2000 {
        let len = rng(&mut state, 0, 400) as usize;
        let mut bytes = vec![0u8; len];
        for b in &mut bytes {
            *b = rng(&mut state, 0, 256) as u8;
        }
        let _ = Inp3Rif::try_parse_with(&bytes, Inp3ParseOptions::lenient());
        let _ = Inp3Rif::try_parse_with(&bytes, Inp3ParseOptions::strict());
        let _ = Inp3Rip::try_parse(&bytes);
    }
}

#[test]
fn random_signature_prefixed_garbage_never_panics() {
    let mut state: u32 = 424242;
    for _ in 0..2000 {
        let len = rng(&mut state, 1, 200) as usize;
        let mut bytes = vec![0u8; len];
        for b in &mut bytes {
            *b = rng(&mut state, 0, 256) as u8;
        }
        bytes[0] = Inp3Rif::SIGNATURE;
        let _ = Inp3Rif::try_parse_with(&bytes, Inp3ParseOptions::lenient());
        let _ = Inp3Rif::try_parse_with(&bytes, Inp3ParseOptions::strict());
    }
}
