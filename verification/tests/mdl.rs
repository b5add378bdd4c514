use ax25_node_core::ax25::xid::{info_field, HdlcOptionalFunctions, RejectMode, XidParameters};
use ax25_node_core::sdl::context::SessionContext;
use ax25_node_core::sdl::mdl::{
    apply_negotiated, apply_version_20_defaults, begin_pre_connect_xid, respond_pre_session_xid,
    revert_pre_connect_xid, MdlEvent, MdlMachine, MdlOutcome, MdlSignal, MdlState,
};
use ax25_node_core::sdl::timer::MockTimerService;

fn ctx() -> SessionContext {
    SessionContext::new()
}

#[test]
fn unexpected_xid_response_in_ready_is_error_b() {
    let mut m = MdlMachine::new(10);
    let mut c = ctx();
    let mut t = MockTimerService::new();

    let outcome = m.post_event(
        MdlEvent::XidResponseReceived {
            final_bit: true,
            info: Vec::new(),
        },
        &mut c,
        &mut t,
    ).unwrap();

    assert_eq!(outcome.signals, vec![MdlSignal::ErrorIndicate("B")]);
    assert!(outcome.xid_command.is_none());
    assert_eq!(m.state, MdlState::Ready);
    assert!(!c.srej_enabled);
    assert!(!c.is_extended);
    assert_eq!(c.n2, 10);
}

#[test]
fn frmr_in_ready_is_dropped() {
    let mut m = MdlMachine::new(10);
    let mut c = ctx();
    let mut t = MockTimerService::new();

    let outcome = m.post_event(MdlEvent::FrmrReceived, &mut c, &mut t).unwrap();
    assert_eq!(outcome, MdlOutcome::default());
    assert_eq!(m.state, MdlState::Ready);
}

fn hdlc(srej: bool, mod128: bool) -> HdlcOptionalFunctions {
    HdlcOptionalFunctions {
        reject: if srej {
            RejectMode::SelectiveReject
        } else {
            RejectMode::ImplicitReject
        },
        modulo128: mod128,
        srej_multiframe: false,
        segmenter_reassembler: false,
    }
}

#[test]
fn reject_scheme_is_the_lesser_of_the_two_offers() {
    for (ours, theirs, expect) in [
        (true, true, true),
        (true, false, false),
        (false, true, false),
        (false, false, false),
    ] {
        let mut c = ctx();
        let offered = XidParameters {
            hdlc_optional_functions: Some(hdlc(ours, true)),
            ..Default::default()
        };
        let response = XidParameters {
            hdlc_optional_functions: Some(hdlc(theirs, true)),
            ..Default::default()
        };
        apply_negotiated(&mut c, &offered, &response);
        assert_eq!(c.srej_enabled, expect);
        assert_eq!(c.implicit_reject, !expect);
    }
}

#[test]
fn modulo_is_the_lesser_of_the_two_offers() {
    for (ours, theirs, expect) in [
        (true, true, true),
        (true, false, false),
        (false, true, false),
        (false, false, false),
    ] {
        let mut c = ctx();
        let offered = XidParameters {
            hdlc_optional_functions: Some(hdlc(true, ours)),
            ..Default::default()
        };
        let response = XidParameters {
            hdlc_optional_functions: Some(hdlc(true, theirs)),
            ..Default::default()
        };
        apply_negotiated(&mut c, &offered, &response);
        assert_eq!(c.is_extended, expect);
    }
}

#[test]
fn segmenter_enabled_only_when_both_advertise_it() {
    let both_on = XidParameters {
        hdlc_optional_functions: Some(HdlcOptionalFunctions {
            segmenter_reassembler: true,
            ..hdlc(true, true)
        }),
        ..Default::default()
    };
    let one_off = XidParameters {
        hdlc_optional_functions: Some(hdlc(true, true)),
        ..Default::default()
    };
    let mut c = ctx();
    apply_negotiated(&mut c, &both_on, &both_on);
    assert!(c.segmenter_reassembler_enabled);
    let mut c2 = ctx();
    apply_negotiated(&mut c2, &both_on, &one_off);
    assert!(!c2.segmenter_reassembler_enabled);
}

#[test]
fn window_k_is_the_min_and_n1_is_the_min() {
    let mut c = ctx();
    apply_negotiated(
        &mut c,
        &XidParameters {
            window_size_rx: Some(32),
            i_field_length_rx_bits: Some(XidParameters::octets_to_bits(256)),
            ..Default::default()
        },
        &XidParameters {
            window_size_rx: Some(10),
            i_field_length_rx_bits: Some(XidParameters::octets_to_bits(128)),
            ..Default::default()
        },
    );
    assert_eq!(c.k, 10);
    assert_eq!(c.n1, 128);
}

#[test]
fn t1_and_n2_are_the_greater() {
    let mut c = ctx();
    apply_negotiated(
        &mut c,
        &XidParameters {
            ack_timer_millis: Some(1000),
            retries: Some(8),
            ..Default::default()
        },
        &XidParameters {
            ack_timer_millis: Some(4000),
            retries: Some(20),
            ..Default::default()
        },
    );
    assert_eq!(c.t1v_ms, 4000);
    assert_eq!(c.n2, 20);
}

#[test]
fn absent_notification_fields_retain_current_values() {
    let mut c = ctx();
    c.k = 5;
    c.n1 = 200;
    c.n2 = 7;
    c.t1v_ms = 1234;
    let offered = XidParameters {
        hdlc_optional_functions: Some(HdlcOptionalFunctions::default()),
        ..Default::default()
    };
    apply_negotiated(&mut c, &offered, &offered);
    assert_eq!(c.k, 5);
    assert_eq!(c.n1, 200);
    assert_eq!(c.n2, 7);
    assert_eq!(c.t1v_ms, 1234);
}

#[test]
fn absent_hdlc_selects_the_v22_defaults() {
    let mut c = ctx();
    let empty = XidParameters::default();
    apply_negotiated(&mut c, &empty, &empty);
    assert!(c.srej_enabled, "default selective reject");
    assert!(c.is_extended, "default modulo 128");
}

#[test]
fn version20_defaults_install_the_complete_1436_set() {
    let mut c = ctx();
    c.is_extended = true;
    c.srej_enabled = true;
    c.segmenter_reassembler_enabled = true;
    c.k = 32;
    c.n1 = 512;
    c.n2 = 20;
    c.half_duplex = false;
    c.t1v_ms = 500;

    apply_version_20_defaults(&mut c);

    assert!(c.half_duplex);
    assert!(c.implicit_reject);
    assert!(!c.srej_enabled);
    assert!(!c.is_extended);
    assert_eq!(c.n1, 256);
    assert_eq!(c.k, 7);
    assert_eq!(c.t1v_ms, 3000);
    assert_eq!(c.n2, 10);
    assert!(!c.segmenter_reassembler_enabled);
}

#[test]
fn pre_session_xid_command_offering_srej_negotiates_srej() {
    let command = info_field::encode(&XidParameters {
        hdlc_optional_functions: Some(HdlcOptionalFunctions {
            reject: RejectMode::SelectiveReject,
            modulo128: false,
            srej_multiframe: true,
            segmenter_reassembler: false,
        }),
        ..Default::default()
    });

    let mut c = ctx();
    let response_info = respond_pre_session_xid(&mut c, &command);

    assert!(c.srej_enabled, "both sides offered SREJ ⇒ SREJ negotiated");
    assert!(!c.implicit_reject);
    assert!(!c.is_extended, "peer offered mod-8 ⇒ link is mod-8");

    let p = info_field::parse(&response_info).expect("response info parses");
    assert_eq!(
        p.hdlc_optional_functions.unwrap().reject,
        RejectMode::SelectiveReject
    );
    assert!(!p.hdlc_optional_functions.unwrap().modulo128);
}

#[test]
fn pre_session_xid_command_offering_rej_reverts_to_go_back_n() {
    let command = info_field::encode(&XidParameters {
        hdlc_optional_functions: Some(hdlc(false, false)),
        ..Default::default()
    });
    let mut c = ctx();
    let response_info = respond_pre_session_xid(&mut c, &command);
    assert!(!c.srej_enabled, "peer offered REJ ⇒ merge reverts SREJ off");
    assert!(c.implicit_reject);
    let p = info_field::parse(&response_info).unwrap();
    assert_eq!(
        p.hdlc_optional_functions.unwrap().reject,
        RejectMode::ImplicitReject
    );
}

#[test]
fn pre_session_xid_command_with_empty_info_falls_to_defaults() {
    let mut c = ctx();
    let response_info = respond_pre_session_xid(&mut c, &[]);
    assert!(
        c.srej_enabled,
        "seeded SREJ meets the SREJ default ⇒ SREJ negotiated"
    );
    let p =
        info_field::parse(&response_info).expect("response is a well-formed XID info field");
    assert_eq!(
        p.hdlc_optional_functions.unwrap().reject,
        RejectMode::SelectiveReject
    );
}

#[test]
fn begin_pre_connect_xid_offers_srej_and_seeds_the_context() {
    let mut c = ctx();
    assert!(!c.srej_enabled, "starts go-back-N");
    let offer = begin_pre_connect_xid(&mut c);
    assert!(c.srej_enabled);
    assert!(!c.implicit_reject);
    let hdlc = offer
        .hdlc_optional_functions
        .expect("offer carries HDLC opts");
    assert_eq!(hdlc.reject, RejectMode::SelectiveReject);
    assert!(!hdlc.modulo128, "a mod-8 probe stays mod-8");
    assert!(hdlc.srej_multiframe, "OPSREJMult set — BPQ requires it");
}

#[test]
fn pre_connect_xid_response_offering_srej_negotiates_srej() {
    let mut c = ctx();
    let offer = begin_pre_connect_xid(&mut c);
    let response = XidParameters {
        hdlc_optional_functions: Some(HdlcOptionalFunctions {
            reject: RejectMode::SelectiveReject,
            modulo128: false,
            srej_multiframe: true,
            segmenter_reassembler: false,
        }),
        ..Default::default()
    };
    apply_negotiated(&mut c, &offer, &response);
    assert!(c.srej_enabled, "both offered SREJ ⇒ SREJ on the link");
    assert!(!c.implicit_reject);
    assert!(!c.is_extended, "a mod-8 probe never flips to mod-128");
}

#[test]
fn revert_pre_connect_xid_falls_back_to_go_back_n() {
    let mut c = ctx();
    let _ = begin_pre_connect_xid(&mut c);
    assert!(c.srej_enabled, "seeded on");
    revert_pre_connect_xid(&mut c);
    assert!(!c.srej_enabled, "reverted off for a silent peer");
    assert!(c.implicit_reject);
}

#[test]
fn pre_connect_xid_response_offering_rej_reverts_to_go_back_n() {
    let mut c = ctx();
    let offer = begin_pre_connect_xid(&mut c);
    let response = XidParameters {
        hdlc_optional_functions: Some(hdlc(false, false)),
        ..Default::default()
    };
    apply_negotiated(&mut c, &offer, &response);
    assert!(!c.srej_enabled, "peer offered REJ ⇒ merge reverts SREJ off");
    assert!(c.implicit_reject);
}
