use ax25_node_core::ax25::xid::{info_field, HdlcOptionalFunctions, RejectMode, XidParameters};
use ax25_node_core::sdl::context::SessionContext;
use ax25_node_core::sdl::mdl::{
    apply_negotiated, begin_pre_connect_xid, default_offer_for, respond_to_xid_command,
    revert_pre_connect_xid, MdlEvent, MdlFault, MdlMachine, MdlSignal, MdlState, TM201_MS,
};
use ax25_node_core::sdl::timer::{MockTimerService, TimerId, TimerService};
use ax25sdl::{
    ActionKind, ActionStep, Ax25ActionVerb, Ax25Event, Ax25Guard, GuardTerm, LoopRange,
    TransitionSpec,
};

fn station(srej: bool, extended: bool, n1: u32, k: u32, t1v_ms: u32, n2: u32) -> SessionContext {
    let mut c = SessionContext::new();
    c.srej_enabled = srej;
    c.implicit_reject = !srej;
    c.is_extended = extended;
    c.n1 = n1;
    c.k = k;
    c.t1v_ms = t1v_ms;
    c.n2 = n2;
    c
}

#[test]
fn both_stations_end_with_the_same_parameters() {
    let mut ours = station(true, false, 256, 7, 3000, 10);
    let mut theirs = station(false, true, 128, 32, 5000, 4);
    let offer = default_offer_for(&ours);
    let command = info_field::parse(&info_field::encode(&offer)).unwrap();
    let answer = respond_to_xid_command(&mut theirs, &command);
    let heard = info_field::parse(&info_field::encode(&answer)).unwrap();
    apply_negotiated(&mut ours, &offer, &heard);
    for c in [&ours, &theirs] {
        assert_eq!((c.n1, c.k, c.t1v_ms, c.n2), (128, 7, 5000, 10));
        assert!(!c.srej_enabled && !c.is_extended);
    }
}

#[test]
fn a_second_exchange_changes_nothing() {
    let mut c = station(true, true, 256, 32, 3000, 10);
    let command = default_offer_for(&station(true, false, 200, 4, 1000, 3));
    let first = respond_to_xid_command(&mut c, &command);
    let settled = (c.n1, c.k, c.t1v_ms, c.n2, c.srej_enabled, c.is_extended);
    let second = respond_to_xid_command(&mut c, &command);
    assert_eq!(first, second);
    assert_eq!(settled, (c.n1, c.k, c.t1v_ms, c.n2, c.srej_enabled, c.is_extended));
    assert_eq!(settled, (200, 4, 3000, 10, true, false));
}

#[test]
fn selective_reject_takes_both_stations() {
    let mut c = station(true, false, 256, 4, 3000, 10);
    let rej = XidParameters {
        hdlc_optional_functions: Some(HdlcOptionalFunctions {
            reject: RejectMode::ImplicitReject,
            ..HdlcOptionalFunctions::default()
        }),
        ..XidParameters::default()
    };
    respond_to_xid_command(&mut c, &rej);
    assert!(!c.srej_enabled && c.implicit_reject);
}

#[test]
fn a_silent_peer_leaves_no_selective_reject() {
    let mut c = station(false, false, 256, 4, 3000, 10);
    let offer = begin_pre_connect_xid(&mut c);
    assert_eq!(offer.hdlc_optional_functions.unwrap().reject, RejectMode::SelectiveReject);
    assert!(c.srej_enabled);
    revert_pre_connect_xid(&mut c);
    assert!(!c.srej_enabled && c.implicit_reject);
    assert_eq!((c.n1, c.k, c.n2), (256, 4, 10));
}

#[test]
fn an_exchange_is_opened_and_answered() {
    let mut m = MdlMachine::new(3);
    let mut c = station(true, false, 256, 7, 3000, 10);
    c.vs = 3;
    let mut t = MockTimerService::new();
    let out = m.post_event(MdlEvent::NegotiateRequest, &mut c, &mut t).unwrap();
    let sent = info_field::parse(&out.xid_command.unwrap()).unwrap();
    assert_eq!(sent, default_offer_for(&c));
    assert!(m.is_negotiating());
    assert_eq!(t.time_remaining_ms(TimerId::Tm201), TM201_MS);

    let answer = XidParameters { window_size_rx: Some(2), ..sent };
    let reply = MdlEvent::XidResponseReceived { final_bit: true, info: info_field::encode(&answer) };
    let out = m.post_event(reply, &mut c, &mut t).unwrap();
    assert_eq!(out.signals, vec![MdlSignal::NegotiateConfirm]);
    assert_eq!(m.state, MdlState::Ready);
    assert!(!t.is_running(TimerId::Tm201));
    assert_eq!((c.k, c.vs), (2, 3));
}

#[test]
fn a_response_without_the_final_bit_is_error_d() {
    let mut m = MdlMachine::new(3);
    let mut c = SessionContext::new();
    let mut t = MockTimerService::new();
    m.post_event(MdlEvent::NegotiateRequest, &mut c, &mut t).unwrap();
    let reply = MdlEvent::XidResponseReceived { final_bit: false, info: vec![] };
    let out = m.post_event(reply, &mut c, &mut t).unwrap();
    assert_eq!(out.signals, vec![MdlSignal::ErrorIndicate("D")]);
}

#[test]
fn a_silent_peer_is_asked_again_and_then_given_up() {
    let mut m = MdlMachine::new(2);
    let mut c = SessionContext::new();
    let mut t = MockTimerService::new();
    m.post_event(MdlEvent::NegotiateRequest, &mut c, &mut t).unwrap();
    let mut commands = 1;
    let mut last = vec![];
    while m.is_negotiating() {
        let out = m.post_event(MdlEvent::Tm201Expiry, &mut c, &mut t).unwrap();
        if out.xid_command.is_some() {
            commands += 1;
        }
        last = out.signals;
        assert!(commands < 10);
    }
    assert_eq!(commands, 3);
    assert_eq!(last, vec![MdlSignal::ErrorIndicate("C")]);
}

fn faulty(
    guard: &'static [GuardTerm],
    verb: Ax25ActionVerb,
    loops: &'static [LoopRange],
    next: &'static str,
) -> Result<(), MdlFault> {
    let actions: &'static [ActionStep] = if verb == Ax25ActionVerb::RCAssign0 {
        &[ActionStep { verb: Ax25ActionVerb::RCAssign0, kind: ActionKind::Processing }]
    } else {
        &[ActionStep { verb: Ax25ActionVerb::SABM, kind: ActionKind::SignalLower }]
    };
    let page = [TransitionSpec {
        id: "t",
        from: "Ready",
        on: Ax25Event::MDLNEGOTIATERequest,
        guard,
        actions,
        next,
        notes: "",
        references: &[],
        loops,
    }];
    let mut m = MdlMachine::new(3);
    let mut c = SessionContext::new();
    let mut t = MockTimerService::new();
    let r = m.post_event_over(&page, MdlEvent::NegotiateRequest, &mut c, &mut t).map(|_| ());
    if r.is_err() {
        assert_eq!(m.state, MdlState::Ready);
    }
    r
}

#[test]
fn tables_that_the_management_machine_cannot_follow_are_faults() {
    const FOREIGN: &[GuardTerm] = &[GuardTerm { atom: Ax25Guard::VsEqVa, negate: false }];
    const LOOP: &[LoopRange] = &[LoopRange {
        start: 0,
        length: 1,
        predicate: GuardTerm { atom: Ax25Guard::FEq1, negate: false },
        test_at_end: false,
    }];
    let rc = Ax25ActionVerb::RCAssign0;
    assert_eq!(faulty(&[], rc, &[], "Negotiating"), Ok(()));
    assert_eq!(faulty(FOREIGN, rc, &[], "Negotiating"), Err(MdlFault::ForeignGuard));
    assert_eq!(faulty(&[], Ax25ActionVerb::SABM, &[], "Ready"), Err(MdlFault::ForeignVerb));
    assert_eq!(faulty(&[], rc, LOOP, "Ready"), Err(MdlFault::UnexpectedLoop));
    assert_eq!(faulty(&[], rc, &[], "Elsewhere"), Err(MdlFault::UnknownState));
}
