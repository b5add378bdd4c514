use ax25_node_core::netrom::wire::inp3_options::INP3_DEFAULT_CAPABILITY_TEXT_WIDTH;
use ax25_node_core::netrom::wire::NetRomInp3Options;

#[test]
fn default_matches_the_canonical_preset() {
    let d = NetRomInp3Options::canonical();
    assert_eq!(d.l3_rtt_interval_ms, 60_000);
    assert_eq!(d.l3_rtt_reset_window_ms, 180_000);
    assert_eq!(d.sntt_gain_shift, 3);
    assert!(d.probe_unknown_capability);
    assert_eq!(d.advertise_ip_accept, None);
    assert_eq!(d.capability_text_width, 8);
    assert!(!d.prefer_inp3_routes);
    assert!(!d.enabled);
    assert_eq!(d.hop_limit, 30);
    assert_eq!(d.rif_interval_ms, 300_000);
    assert_eq!(d.positive_debounce_ms, 5_000);
    assert_eq!(d.worsen_threshold_ms, 1_000);
}

#[test]
fn default_trait_equals_the_const_default() {
    assert_eq!(NetRomInp3Options::default(), NetRomInp3Options::canonical());
}

#[test]
fn capability_text_width_default_const_is_eight() {
    assert_eq!(INP3_DEFAULT_CAPABILITY_TEXT_WIDTH, 8);
}

#[test]
fn default_validates_clean() {
    assert_eq!(NetRomInp3Options::canonical().validate(), Ok(()));
}

#[test]
fn fully_specified_in_range_validates_clean() {
    let o = NetRomInp3Options {
        enabled: true,
        l3_rtt_interval_ms: 60_000,
        l3_rtt_reset_window_ms: 180_000,
        rif_interval_ms: 300_000,
        positive_debounce_ms: 5_000,
        sntt_gain_shift: 3,
        hop_limit: 30,
        ..NetRomInp3Options::canonical()
    };
    assert_eq!(o.validate(), Ok(()));
}

#[test]
fn l3_rtt_interval_must_be_positive() {
    let o = NetRomInp3Options {
        l3_rtt_interval_ms: 0,
        ..NetRomInp3Options::canonical()
    };
    assert_eq!(o.validate(), Err("L3RTT probe interval must be positive"));
}

#[test]
fn reset_window_must_exceed_the_probe_interval() {
    let equal = NetRomInp3Options {
        l3_rtt_interval_ms: 60_000,
        l3_rtt_reset_window_ms: 60_000,
        ..NetRomInp3Options::canonical()
    };
    assert!(equal.validate().is_err());

    let inverted = NetRomInp3Options {
        l3_rtt_interval_ms: 180_000,
        l3_rtt_reset_window_ms: 60_000,
        ..NetRomInp3Options::canonical()
    };
    assert_eq!(
        inverted.validate(),
        Err("L3RTT reset window must exceed the probe interval (a shorter window tears down a live neighbour before it can answer)")
    );

    let just_over = NetRomInp3Options {
        l3_rtt_interval_ms: 60_000,
        l3_rtt_reset_window_ms: 60_001,
        ..NetRomInp3Options::canonical()
    };
    assert_eq!(just_over.validate(), Ok(()));
}

#[test]
fn sntt_gain_shift_range_is_one_to_eight_inclusive() {
    let zero = NetRomInp3Options {
        sntt_gain_shift: 0,
        ..NetRomInp3Options::canonical()
    };
    assert_eq!(
        zero.validate(),
        Err("SNTT gain shift must be in [1, 8] (gain 1/2 .. 1/256)")
    );

    let nine = NetRomInp3Options {
        sntt_gain_shift: 9,
        ..NetRomInp3Options::canonical()
    };
    assert!(nine.validate().is_err());

    for shift in 1u8..=8 {
        let o = NetRomInp3Options {
            sntt_gain_shift: shift,
            ..NetRomInp3Options::canonical()
        };
        assert_eq!(o.validate(), Ok(()), "shift {shift} must validate");
    }
}

#[test]
fn advertise_ip_accept_must_be_a_single_digit_when_set() {
    assert_eq!(NetRomInp3Options::canonical().validate(), Ok(()));

    for ip in 0u8..=9 {
        let o = NetRomInp3Options {
            advertise_ip_accept: Some(ip),
            ..NetRomInp3Options::canonical()
        };
        assert_eq!(o.validate(), Ok(()), "ip {ip} must validate");
    }

    let ten = NetRomInp3Options {
        advertise_ip_accept: Some(10),
        ..NetRomInp3Options::canonical()
    };
    assert_eq!(
        ten.validate(),
        Err("advertised IP-accept version must be a single decimal digit 0\u{2013}9")
    );
}

#[test]
fn hop_limit_floor_is_one() {
    let zero = NetRomInp3Options {
        hop_limit: 0,
        ..NetRomInp3Options::canonical()
    };
    assert_eq!(zero.validate(), Err("INP3 hop limit must be at least 1"));

    let one = NetRomInp3Options {
        hop_limit: 1,
        ..NetRomInp3Options::canonical()
    };
    assert_eq!(one.validate(), Ok(()));
}

#[test]
fn rif_interval_must_be_positive() {
    let o = NetRomInp3Options {
        rif_interval_ms: 0,
        positive_debounce_ms: 0,
        ..NetRomInp3Options::canonical()
    };
    assert_eq!(o.validate(), Err("periodic RIF interval must be positive"));
}

#[test]
fn positive_debounce_must_be_positive() {
    let o = NetRomInp3Options {
        positive_debounce_ms: 0,
        ..NetRomInp3Options::canonical()
    };
    assert_eq!(
        o.validate(),
        Err("positive-update debounce must be positive")
    );
}

#[test]
fn positive_debounce_must_be_strictly_less_than_rif_interval() {
    let equal = NetRomInp3Options {
        rif_interval_ms: 5_000,
        positive_debounce_ms: 5_000,
        ..NetRomInp3Options::canonical()
    };
    assert_eq!(
        equal.validate(),
        Err("positive-update debounce must be less than the periodic RIF interval (a debounce >= the interval is pointless — the periodic emit would always drain the batch first)")
    );

    let over = NetRomInp3Options {
        rif_interval_ms: 5_000,
        positive_debounce_ms: 6_000,
        ..NetRomInp3Options::canonical()
    };
    assert!(over.validate().is_err());

    let just_under = NetRomInp3Options {
        rif_interval_ms: 5_000,
        positive_debounce_ms: 4_999,
        ..NetRomInp3Options::canonical()
    };
    assert_eq!(just_under.validate(), Ok(()));
}

#[test]
fn worsen_threshold_zero_is_valid() {
    let o = NetRomInp3Options {
        worsen_threshold_ms: 0,
        ..NetRomInp3Options::canonical()
    };
    assert_eq!(o.validate(), Ok(()));
}
