use ax25_node_core::ax25::xid::{info_field, HdlcOptionalFunctions, RejectMode, XidParameters};
use ax25_node_core::ax25::{Callsign, Frame, PID_NO_LAYER3};
use ax25_node_core::sdl::bridge::classify_incoming;
use ax25_node_core::sdl::capability::{PeerCapabilityCache, PeerDialPlan, PeerDialPolicy};
use ax25_node_core::sdl::carrier::CarrierSense;
use ax25_node_core::sdl::event::{Event, FrameInfo};
use ax25_node_core::sdl::manager::SessionManager;
use ax25_node_core::sdl::session::State;
use ax25_node_core::sdl::signal::DataLinkSignal;
use ax25_node_core::sdl::timer::MockTimerService;

fn call(s: &str) -> Callsign {
    Callsign::parse(s).unwrap()
}

fn sabm() -> Event {
    Event::SabmReceived(FrameInfo {
        poll_final: true,
        is_command: true,
        ..Default::default()
    })
}

#[test]
fn first_contact_creates_a_slot_and_replies() {
    let mut mgr: SessionManager<4> = SessionManager::new(call("M0LTE-1"));
    let mut t = MockTimerService::new();

    let out = mgr.post(call("G7XYZ"), sabm(), &mut t);
    assert_eq!(mgr.active(), 1);
    assert_eq!(out.len(), 1);
    assert_eq!(
        mgr.session_for(&call("G7XYZ")).map(|s| s.state),
        Some(State::Connected)
    );
    assert!(mgr
        .take_upward(&call("G7XYZ"))
        .contains(&DataLinkSignal::ConnectIndication));
}

#[test]
fn distinct_peers_get_distinct_sessions() {
    let mut mgr: SessionManager<4> = SessionManager::new(call("M0LTE-1"));
    let mut t = MockTimerService::new();

    mgr.post(call("G7AAA"), sabm(), &mut t);
    mgr.post(call("G7BBB"), sabm(), &mut t);
    assert_eq!(mgr.active(), 2);
    assert_eq!(
        mgr.session_for(&call("G7AAA")).map(|s| s.state),
        Some(State::Connected)
    );
    assert_eq!(
        mgr.session_for(&call("G7BBB")).map(|s| s.state),
        Some(State::Connected)
    );
}

#[test]
fn full_manager_refuses_unknown_peer() {
    let mut mgr: SessionManager<1> = SessionManager::new(call("M0LTE-1"));
    let mut t = MockTimerService::new();

    mgr.post(call("G7AAA"), sabm(), &mut t);
    let out = mgr.post(call("G7BBB"), sabm(), &mut t);
    assert!(out.is_empty());
    assert_eq!(mgr.active(), 1);
    assert!(mgr.session_for(&call("G7BBB")).is_none());
}

#[test]
fn disconnect_frees_the_slot() {
    let mut mgr: SessionManager<2> = SessionManager::new(call("M0LTE-1"));
    let mut t = MockTimerService::new();

    mgr.post(call("G7AAA"), sabm(), &mut t);
    assert_eq!(mgr.active(), 1);

    let disc = Event::DiscReceived(FrameInfo {
        poll_final: true,
        is_command: true,
        ..Default::default()
    });
    mgr.post(call("G7AAA"), disc, &mut t);
    assert_eq!(mgr.active(), 1);
    let ups = mgr.take_upward(&call("G7AAA"));
    assert!(ups.contains(&DataLinkSignal::DisconnectIndication));
    assert!(mgr.reap(&call("G7AAA")));
    assert_eq!(mgr.active(), 0);

    mgr.post(call("G7AAA"), sabm(), &mut t);
    assert!(!mgr.reap(&call("G7AAA")));
    assert_eq!(mgr.active(), 1);
}

fn classify(bytes: &[u8]) -> Event {
    classify_incoming(&Frame::decode(bytes).expect("emitted frame decodes"))
        .expect("classifies")
}

#[test]
fn connect_extended_true_dials_sabme_and_routes_to_v22() {
    let mut mgr: SessionManager<2> = SessionManager::new(call("M0LTE-1"));
    let mut t = MockTimerService::new();
    let peer = call("G7XYZ");

    let out = mgr.connect_extended(call("M0LTE-1"), peer, true, &mut t);
    assert_eq!(out.len(), 1, "one SABME on the wire");
    assert!(matches!(classify(&out[0]), Event::SabmeReceived(_)));
    let s = mgr.session_for(&peer).unwrap();
    assert_eq!(s.state, State::AwaitingV22Connection);
    assert!(s.context.is_extended, "mod-128 preference set on the session");
}

#[test]
fn connect_extended_false_dials_sabm_mod8() {
    let mut mgr: SessionManager<2> = SessionManager::new(call("M0LTE-1"));
    let mut t = MockTimerService::new();
    let peer = call("G7XYZ");

    let out = mgr.connect_extended(call("M0LTE-1"), peer, false, &mut t);
    assert_eq!(out.len(), 1, "one SABM on the wire");
    assert!(matches!(classify(&out[0]), Event::SabmReceived(_)));
    let s = mgr.session_for(&peer).unwrap();
    assert_eq!(s.state, State::AwaitingConnection);
    assert!(!s.context.is_extended);
}

#[test]
fn plain_connect_honours_prefer_extended_default() {
    let mut t = MockTimerService::new();
    let peer = call("G7XYZ");

    let mut mgr_default: SessionManager<2> = SessionManager::new(call("M0LTE-1"));
    assert!(mgr_default.prefer_extended_connect());
    let out = mgr_default.connect(peer, &mut t);
    assert!(matches!(classify(&out[0]), Event::SabmeReceived(_)));

    let mut mgr_m8: SessionManager<2> =
        SessionManager::new(call("M0LTE-1")).with_prefer_extended_connect(false);
    assert!(!mgr_m8.prefer_extended_connect());
    let out = mgr_m8.connect(peer, &mut t);
    assert!(matches!(classify(&out[0]), Event::SabmReceived(_)));
}

#[test]
fn default_extended_connect_degrades_to_mod8_sabm_on_dm_refusal() {
    let mut mgr: SessionManager<2> = SessionManager::new(call("M0LTE-1"));
    let mut t = MockTimerService::new();
    let peer = call("G7XYZ");

    let out = mgr.connect(peer, &mut t);
    assert!(matches!(classify(&out[0]), Event::SabmeReceived(_)));
    assert!(mgr.session_for(&peer).unwrap().context.is_extended);
    assert_eq!(
        mgr.session_for(&peer).unwrap().state,
        State::AwaitingV22Connection
    );

    let dm = Event::DmReceived(FrameInfo {
        poll_final: true,
        is_command: false,
        ..Default::default()
    });
    let out = mgr.post(peer, dm, &mut t);

    let s = mgr.session_for(&peer).unwrap();
    assert!(!s.context.is_extended, "DM degraded the link to mod-8");
    assert_eq!(s.state, State::AwaitingConnection);
    assert!(
        out.iter().any(|b| matches!(classify(b), Event::SabmReceived(_))),
        "expected a mod-8 SABM re-establishment after the DM: {out:02x?}"
    );
}

#[test]
fn extended_dial_accepted_reaches_connected_mod128_over_the_wire() {
    let mut a: SessionManager<2> = SessionManager::new(call("M0LTE-1"));
    let mut b: SessionManager<2> = SessionManager::new(call("M0LTE-2"));
    let mut t = MockTimerService::new();
    let (ca, cb) = (call("M0LTE-1"), call("M0LTE-2"));

    let sabme = a.connect_extended(ca, cb, true, &mut t);
    assert!(matches!(classify(&sabme[0]), Event::SabmeReceived(_)));

    let from_b = b.post(ca, classify(&sabme[0]), &mut t);
    let sb = b.session_for(&ca).unwrap();
    assert_eq!(sb.state, State::Connected);
    assert!(sb.context.is_extended, "answerer adopts mod-128 from the SABME");
    assert_eq!(from_b.len(), 1);
    assert!(matches!(classify(&from_b[0]), Event::UaReceived(_)));

    let _ = a.post(cb, classify(&from_b[0]), &mut t);
    let sa = a.session_for(&cb).unwrap();
    assert_eq!(sa.state, State::Connected);
    assert!(sa.context.is_extended, "initiator link is mod-128");
}

#[test]
fn extended_dial_degrades_to_mod8_sabm_on_frmr() {
    let mut mgr: SessionManager<2> = SessionManager::new(call("M0LTE-1"));
    let mut t = MockTimerService::new();
    let peer = call("G7XYZ");

    let out = mgr.connect_extended(call("M0LTE-1"), peer, true, &mut t);
    assert!(matches!(classify(&out[0]), Event::SabmeReceived(_)));
    assert!(mgr.session_for(&peer).unwrap().context.is_extended);

    let frmr = Event::FrmrReceived(FrameInfo {
        poll_final: true,
        is_command: false,
        ..Default::default()
    });
    let out = mgr.post(peer, frmr, &mut t);

    let s = mgr.session_for(&peer).unwrap();
    assert!(!s.context.is_extended, "FRMR degraded the link to mod-8");
    assert_eq!(s.state, State::AwaitingConnection);
    let re_sabm = out
        .iter()
        .any(|b| matches!(classify(b), Event::SabmReceived(_)));
    assert!(re_sabm, "expected a mod-8 SABM re-establishment: {out:02x?}");
}

#[test]
fn idle_received_i_frame_is_still_acknowledged() {
    let mut mgr: SessionManager<2> = SessionManager::new(call("M0LTE-1"));
    let mut t = MockTimerService::new();
    let peer = call("M0LTE-9");

    let out = mgr.post(peer, sabm(), &mut t);
    assert_eq!(out.len(), 1);

    let i_frame = Event::IReceived(FrameInfo {
        ns: 0,
        nr: 0,
        pid: Some(PID_NO_LAYER3),
        info: vec![0x42],
        is_command: true,
        ..Default::default()
    });
    let out = mgr.post(peer, i_frame, &mut t);

    let acked = out.iter().any(|bytes| {
        let frame = Frame::decode(bytes).expect("emitted frame decodes");
        matches!(
            classify_incoming(&frame),
            Some(Event::RrReceived(f)) if f.nr == 1
        )
    });
    assert!(acked, "received I-frame was not acknowledged: {out:02x?}");
}

#[derive(Debug, Clone, Copy)]
struct TestCarrier(Option<bool>);
impl CarrierSense for TestCarrier {
    fn channel_busy(&self) -> Option<bool> {
        self.0
    }
}

fn connect_then_receive_i_frame(
    mgr: &mut SessionManager<2>,
    peer: Callsign,
    t: &mut MockTimerService,
) -> Vec<Vec<u8>> {
    mgr.post(peer, sabm(), t);
    let i_frame = Event::IReceived(FrameInfo {
        ns: 0,
        nr: 0,
        pid: Some(PID_NO_LAYER3),
        info: vec![0x42],
        is_command: true,
        ..Default::default()
    });
    mgr.post(peer, i_frame, t)
}

fn emitted_rr(out: &[Vec<u8>]) -> bool {
    out.iter().any(|b| matches!(classify(b), Event::RrReceived(_)))
}

#[test]
fn busy_carrier_defers_the_seize_and_the_ack() {
    let mut mgr: SessionManager<2> = SessionManager::new(call("M0LTE-1"));
    mgr.set_carrier_sense(Box::new(TestCarrier(Some(true))));
    let mut t = MockTimerService::new();
    let peer = call("M0LTE-9");

    let out = connect_then_receive_i_frame(&mut mgr, peer, &mut t);

    assert!(!emitted_rr(&out), "busy carrier must defer the ack: {out:02x?}");
    assert!(
        mgr.seize_pending(&peer),
        "the seize stays pending while the channel is busy"
    );
}

#[test]
fn clear_carrier_grants_the_seize() {
    let mut mgr: SessionManager<2> = SessionManager::new(call("M0LTE-1"));
    mgr.set_carrier_sense(Box::new(TestCarrier(Some(false))));
    let mut t = MockTimerService::new();
    let peer = call("M0LTE-9");

    let out = connect_then_receive_i_frame(&mut mgr, peer, &mut t);

    assert!(emitted_rr(&out), "clear carrier must grant the ack: {out:02x?}");
    assert!(!mgr.seize_pending(&peer), "no seize left pending once granted");
}

#[test]
fn unknown_carrier_fails_open_like_no_source() {
    let mut mgr: SessionManager<2> = SessionManager::new(call("M0LTE-1"));
    mgr.set_carrier_sense(Box::new(TestCarrier(None)));
    let mut t = MockTimerService::new();
    let peer = call("M0LTE-9");

    let out = connect_then_receive_i_frame(&mut mgr, peer, &mut t);
    assert!(emitted_rr(&out), "unknown carrier fails open (grants): {out:02x?}");
    assert!(!mgr.seize_pending(&peer));
}

#[test]
fn deferred_seize_is_granted_once_the_channel_clears() {
    let mut mgr: SessionManager<2> = SessionManager::new(call("M0LTE-1"));
    mgr.set_carrier_sense(Box::new(TestCarrier(Some(true))));
    let mut t = MockTimerService::new();
    let peer = call("M0LTE-9");

    let out = connect_then_receive_i_frame(&mut mgr, peer, &mut t);
    assert!(!emitted_rr(&out));
    assert!(mgr.seize_pending(&peer));

    mgr.set_carrier_sense(Box::new(TestCarrier(Some(false))));
    let out = mgr.post(peer, Event::T2Expiry, &mut t);
    assert!(
        emitted_rr(&out),
        "the deferred seize resumes when the channel clears: {out:02x?}"
    );
    assert!(!mgr.seize_pending(&peer));
}

fn mod8_srej_xid_command() -> Event {
    let info = info_field::encode(&XidParameters {
        hdlc_optional_functions: Some(HdlcOptionalFunctions {
            reject: RejectMode::SelectiveReject,
            modulo128: false,
            srej_multiframe: true,
            segmenter_reassembler: false,
        }),
        ..Default::default()
    });
    Event::XidReceived(FrameInfo {
        poll_final: true,
        is_command: true,
        info,
        ..Default::default()
    })
}

#[test]
fn pre_session_xid_command_for_unknown_peer_is_answered_with_xid_response() {
    let mut mgr: SessionManager<2> = SessionManager::new(call("M0LTE"));
    let mut t = MockTimerService::new();
    let peer = call("G7XYZ");

    let out = mgr.post(peer, mod8_srej_xid_command(), &mut t);
    assert_eq!(out.len(), 1, "exactly one XID response on the wire");

    let reply = Frame::decode(&out[0]).expect("XID reply decodes");
    assert!(reply.is_response(), "the answer is an XID *response*");
    assert!(reply.poll_final(), "F=1 so the initiator's F_eq_1 diamond fires");
    match classify_incoming(&reply) {
        Some(Event::XidReceived(_)) => {}
        other => panic!("expected an XID reply, got {other:?} (must not be a DM)"),
    }
    let p = info_field::parse(&reply.info).expect("response info parses");
    assert_eq!(
        p.hdlc_optional_functions.unwrap().reject,
        RejectMode::SelectiveReject
    );

    assert_eq!(
        mgr.session_for(&peer).map(|s| s.state),
        Some(State::Disconnected)
    );
    assert!(!mgr
        .take_upward(&peer)
        .contains(&DataLinkSignal::ConnectIndication));
}

#[test]
fn sabm_after_pre_session_xid_reaches_connected_with_srej_adopted() {
    let mut mgr: SessionManager<2> = SessionManager::new(call("M0LTE"));
    let mut t = MockTimerService::new();
    let peer = call("G7XYZ");

    let xid_out = mgr.post(peer, mod8_srej_xid_command(), &mut t);
    assert_eq!(xid_out.len(), 1);
    assert!(matches!(
        classify_incoming(&Frame::decode(&xid_out[0]).unwrap()),
        Some(Event::XidReceived(_))
    ));
    assert_eq!(
        mgr.session_for(&peer).map(|s| s.state),
        Some(State::Disconnected)
    );

    let sabm = Event::SabmReceived(FrameInfo {
        poll_final: true,
        is_command: true,
        ..Default::default()
    });
    let ua_out = mgr.post(peer, sabm, &mut t);

    let s = mgr.session_for(&peer).expect("session exists");
    assert_eq!(s.state, State::Connected, "the SABM establishes the link");
    assert!(
        s.context.srej_enabled,
        "the XID-negotiated SREJ survives into the established session"
    );
    assert!(!s.context.implicit_reject);
    assert!(
        ua_out
            .iter()
            .any(|b| matches!(classify_incoming(&Frame::decode(b).unwrap()), Some(Event::UaReceived(_)))),
        "the SABM must be acknowledged with a UA: {ua_out:02x?}"
    );
    assert!(mgr
        .take_upward(&peer)
        .contains(&DataLinkSignal::ConnectIndication));
}

#[test]
fn connect_planned_honours_the_dial_plan_extended_choice() {
    let peer = call("G7XYZ");
    let local = call("M0LTE-1");

    let mut ext: SessionManager<2> = SessionManager::new(local);
    let out = ext.connect_planned(
        local,
        peer,
        PeerDialPlan {
            extended: true,
            pre_connect_xid: false,
        },
        &mut MockTimerService::new(),
    );
    assert!(matches!(classify(&out[0]), Event::SabmeReceived(_)));

    let mut m8: SessionManager<2> = SessionManager::new(local);
    let out = m8.connect_planned(
        local,
        peer,
        PeerDialPlan {
            extended: false,
            pre_connect_xid: false,
        },
        &mut MockTimerService::new(),
    );
    assert!(matches!(classify(&out[0]), Event::SabmReceived(_)));
    assert!(!m8.xid_probe_pending(&peer), "no probe on a dial-straight plan");
}

const PROBE_PORT: u8 = 0;
const PROBE_T0: u64 = 1_000_000;

fn xid_response_offering_srej() -> Event {
    let info = info_field::encode(&XidParameters {
        hdlc_optional_functions: Some(HdlcOptionalFunctions {
            reject: RejectMode::SelectiveReject,
            modulo128: false,
            srej_multiframe: true,
            segmenter_reassembler: false,
        }),
        ..Default::default()
    });
    Event::XidReceived(FrameInfo {
        poll_final: true,
        is_command: false,
        info,
        ..Default::default()
    })
}

fn ua() -> Event {
    Event::UaReceived(FrameInfo {
        poll_final: true,
        is_command: false,
        ..Default::default()
    })
}

#[test]
fn initiator_probe_response_negotiates_srej_connects_and_srej_activates() {
    let local = call("M0LTE-1");
    let peer = call("G7XYZ");
    let mut mgr: SessionManager<2> = SessionManager::new(local);
    let mut t = MockTimerService::new();
    let mut cache: PeerCapabilityCache<4> = PeerCapabilityCache::new();

    let plan = cache.plan_dial(PROBE_PORT, &peer, PeerDialPolicy::Interlink, PROBE_T0);
    assert!(!plan.extended);
    assert!(plan.pre_connect_xid);

    let out = mgr.connect_planned(local, peer, plan, &mut t);
    assert_eq!(out.len(), 1, "one XID command on the wire");
    let cmd = Frame::decode(&out[0]).expect("XID command decodes");
    assert!(cmd.is_command(), "an initiator XID *command*");
    assert!(matches!(classify(&out[0]), Event::XidReceived(_)));
    assert!(mgr.xid_probe_pending(&peer), "probe pending until the response");
    assert_eq!(
        mgr.session_for(&peer).map(|s| s.state),
        Some(State::Disconnected),
        "no SABM yet — the connect is deferred behind the probe"
    );

    let out = mgr.post(peer, xid_response_offering_srej(), &mut t);
    assert!(
        out.iter().any(|b| matches!(classify(b), Event::SabmReceived(_))),
        "the deferred SABM fires on the XID response: {out:02x?}"
    );
    assert!(!mgr.xid_probe_pending(&peer), "probe resolved");
    let s = mgr.session_for(&peer).unwrap();
    assert_eq!(s.state, State::AwaitingConnection);
    assert!(!s.context.is_extended, "a mod-8 probe never flips to mod-128");
    assert!(s.context.srej_enabled, "both offered SREJ ⇒ negotiated on");

    let _ = mgr.post(peer, ua(), &mut t);
    let s = mgr.session_for(&peer).unwrap();
    assert_eq!(s.state, State::Connected);
    assert!(s.context.srej_enabled, "negotiated SREJ survives establishment");
    let (obs_ext, obs_srej) = (s.context.is_extended, s.context.srej_enabled);

    cache.record_outcome(
        PROBE_PORT, peer, plan.extended, obs_ext, plan.pre_connect_xid, obs_srej, PROBE_T0,
    );
    assert_eq!(
        cache.lookup(PROBE_PORT, &peer).unwrap().supports_srej_via_xid,
        Some(true)
    );

    let oos = Event::IReceived(FrameInfo {
        ns: 1,
        nr: 0,
        pid: Some(PID_NO_LAYER3),
        info: vec![0x42],
        is_command: true,
        ..Default::default()
    });
    let out = mgr.post(peer, oos, &mut t);
    assert!(
        out.iter().any(|b| matches!(classify(b), Event::SrejReceived(_))),
        "the negotiated SREJ must emit an SREJ on the wire: {out:02x?}"
    );
    assert!(
        !out.iter().any(|b| matches!(classify(b), Event::RejReceived(_))),
        "a negotiated-SREJ link must not fall back to REJ: {out:02x?}"
    );
}

#[test]
fn initiator_probe_timeout_falls_back_to_go_back_n_and_cache_learns() {
    let local = call("M0LTE-1");
    let peer = call("G7XYZ");
    let mut mgr: SessionManager<2> = SessionManager::new(local);
    let mut t = MockTimerService::new();
    let mut cache: PeerCapabilityCache<4> = PeerCapabilityCache::new();

    let plan = cache.plan_dial(PROBE_PORT, &peer, PeerDialPolicy::Interlink, PROBE_T0);
    let out = mgr.connect_planned(local, peer, plan, &mut t);
    assert!(Frame::decode(&out[0]).unwrap().is_command(), "XID command out");
    assert!(mgr.xid_probe_pending(&peer));
    assert!(mgr.session_for(&peer).unwrap().context.srej_enabled);

    let out = mgr.xid_probe_timeout(peer, &mut t);
    assert!(
        out.iter().any(|b| matches!(classify(b), Event::SabmReceived(_))),
        "the fallback SABM fires on timeout: {out:02x?}"
    );
    assert!(!mgr.xid_probe_pending(&peer), "probe cleared on timeout");
    let s = mgr.session_for(&peer).unwrap();
    assert_eq!(s.state, State::AwaitingConnection);
    assert!(!s.context.srej_enabled, "silent peer ⇒ reverted to go-back-N");
    assert!(s.context.implicit_reject);
    let (obs_ext, obs_srej) = (s.context.is_extended, s.context.srej_enabled);

    cache.record_outcome(
        PROBE_PORT, peer, plan.extended, obs_ext, plan.pre_connect_xid, obs_srej, PROBE_T0,
    );
    assert_eq!(
        cache.lookup(PROBE_PORT, &peer).unwrap().supports_srej_via_xid,
        Some(false)
    );
    let next = cache.plan_dial(PROBE_PORT, &peer, PeerDialPolicy::Interlink, PROBE_T0);
    assert!(!next.pre_connect_xid, "known non-answerer ⇒ skip the probe next time");

    assert!(mgr.xid_probe_timeout(peer, &mut t).is_empty());
}

#[test]
fn fresh_cache_hit_skips_the_probe_and_dials_straight() {
    let local = call("M0LTE-1");
    let peer = call("G7XYZ");

    let mut cache: PeerCapabilityCache<4> = PeerCapabilityCache::new();
    cache.record_outcome(PROBE_PORT, peer, false, false, true, false, PROBE_T0);
    let plan = cache.plan_dial(PROBE_PORT, &peer, PeerDialPolicy::Interlink, PROBE_T0);
    assert!(!plan.pre_connect_xid, "fresh non-answerer ⇒ no probe");

    let mut mgr: SessionManager<2> = SessionManager::new(local);
    let out = mgr.connect_planned(local, peer, plan, &mut MockTimerService::new());
    assert!(
        matches!(classify(&out[0]), Event::SabmReceived(_)),
        "dials a plain SABM straight, no XID command"
    );
    assert!(!mgr.xid_probe_pending(&peer), "no probe on a fresh cache hit");

    let mut cache2: PeerCapabilityCache<4> = PeerCapabilityCache::new();
    cache2.record_outcome(PROBE_PORT, peer, true, true, false, false, PROBE_T0);
    let plan2 = cache2.plan_dial(PROBE_PORT, &peer, PeerDialPolicy::UserConnect, PROBE_T0);
    assert!(plan2.extended);
    assert!(!plan2.pre_connect_xid);
    let mut mgr2: SessionManager<2> = SessionManager::new(local);
    let out = mgr2.connect_planned(local, peer, plan2, &mut MockTimerService::new());
    assert!(
        matches!(classify(&out[0]), Event::SabmeReceived(_)),
        "dials SABME straight from a learned-extended cache hit"
    );
    assert!(!mgr2.xid_probe_pending(&peer));
}
