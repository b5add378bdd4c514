use ax25_node_core::sdl::context::{Payload, SessionContext};
use ax25_node_core::sdl::dispatch::{execute_actions, execute_steps, execute_verb};
use ax25_node_core::sdl::event::{Event, FrameInfo};
use ax25_node_core::sdl::guard::{eval_atom, eval_guard, eval_term};
use ax25_node_core::sdl::quirks::Quirks;
use ax25_node_core::sdl::session::{post_all, Session, State};
use ax25_node_core::sdl::signal::{
    DataLinkSignal, FrameSpec, InternalSignal, LinkMultiplexerSignal, NullSink, SessionSink,
    SupervisoryKind, UnnumberedKind,
};
use ax25_node_core::sdl::subroutine::{invoke, invoke_enquiry_response};
use ax25_node_core::sdl::tables::SdlTables;
use ax25_node_core::sdl::timer::{
    next_t1_rc_backoff_ms, srt_iir_update, MockTimerService, TimerId, TimerService, TimerSnapshot,
};
use ax25_node_core::sdl::tx::Tx;
use ax25_node_core::sdl::verbs::Fault;
use ax25sdl::{
    ActionKind, ActionStep, Ax25ActionVerb, Ax25Event, Ax25Guard, GuardTerm, LoopRange,
    SubroutinePath, SubroutineSpec, TransitionSpec,
};

#[derive(Debug, Default)]
struct Heard {
    frames: Vec<FrameSpec>,
    upward: Vec<DataLinkSignal>,
    mux: Vec<LinkMultiplexerSignal>,
}

impl SessionSink for Heard {
    fn send_frame(&mut self, spec: FrameSpec) {
        self.frames.push(spec);
    }
    fn send_upward(&mut self, signal: DataLinkSignal) {
        self.upward.push(signal);
    }
    fn send_link_mux(&mut self, signal: LinkMultiplexerSignal) {
        self.mux.push(signal);
    }
    fn send_internal(&mut self, _signal: InternalSignal) {}
}

const fn step(verb: Ax25ActionVerb) -> ActionStep {
    ActionStep { verb, kind: ActionKind::Processing }
}

const fn arrow(
    on: Ax25Event,
    actions: &'static [ActionStep],
    loops: &'static [LoopRange],
    next: &'static str,
) -> TransitionSpec {
    TransitionSpec {
        id: "t",
        from: "Disconnected",
        on,
        guard: &[],
        actions,
        next,
        notes: "",
        references: &[],
        loops,
    }
}

/// Tables whose page of `Disconnected` is `page`, and which list no subroutine.
fn tables(page: &'static [TransitionSpec]) -> SdlTables {
    SdlTables {
        disconnected: page,
        awaiting_connection: &[],
        awaiting_v22_connection: &[],
        awaiting_release: &[],
        connected: &[],
        timer_recovery: &[],
        subroutines: &[],
    }
}

fn run(page: &'static [TransitionSpec], event: Event) -> (Session, MockTimerService, Heard, Result<(), Fault>) {
    let mut s = Session::new();
    let mut t = MockTimerService::new();
    let mut heard = Heard::default();
    let r = s.post_event_over(&tables(page), event, &mut t, &mut heard);
    (s, t, heard, r)
}

// ─── Timers ─────────────────────────────────────────────────────────────────

#[test]
fn a_timer_is_armed_and_cancelled_alone() {
    let mut t = MockTimerService::new();
    t.arm(TimerId::T1, 3000);
    t.arm(TimerId::T3, 30_000);
    assert!(t.is_running(TimerId::T1) && !t.is_running(TimerId::T2));
    assert_eq!(t.time_remaining_ms(TimerId::T3), 30_000);
    assert_eq!(t.time_remaining_ms(TimerId::Tm201), 0);
    let held = t.capture();
    t.cancel(TimerId::T1);
    t.arm(TimerId::Tm201, 5);
    assert_eq!(t.time_remaining_ms(TimerId::T1), 0);
    t.restore(held);
    let expected = TimerSnapshot { t1: Some(3000), t3: Some(30_000), ..TimerSnapshot::default() };
    assert_eq!(t.capture(), expected);
}

#[test]
fn a_stopped_timer_has_nothing_to_move() {
    let mut t = MockTimerService::new();
    t.set_remaining(TimerId::T1, 10);
    assert!(!t.is_running(TimerId::T1));
    t.arm(TimerId::T1, 3000);
    t.set_remaining(TimerId::T1, 10);
    assert_eq!(t.time_remaining_ms(TimerId::T1), 10);
}

#[test]
fn smoothing_stays_between_the_estimate_and_the_sample() {
    assert_eq!(srt_iir_update(3000, 6000, 1000, false), 2625 + 625);
    assert_eq!(srt_iir_update(1000, 1001, 0, false), 875 + 125);
    assert_eq!(srt_iir_update(7, 7, 0, false), 6);
    assert_eq!(srt_iir_update(7, 500, 0, true), 7);
    assert_eq!(srt_iir_update(0, 10, 20, true), 0);
    assert_eq!(srt_iir_update(u32::MAX, 0, 1, true), u32::MAX / 8);
}

#[test]
fn backing_off_never_wraps() {
    assert_eq!(next_t1_rc_backoff_ms(3, 3000), 750 + 6000);
    assert_eq!(next_t1_rc_backoff_ms(u32::MAX, 1), u32::MAX);
    assert_eq!(next_t1_rc_backoff_ms(1, u32::MAX), u32::MAX);
}

// ─── The link ───────────────────────────────────────────────────────────────

#[test]
fn sequence_numbers_step_forward_and_back() {
    for extended in [false, true] {
        let mut c = SessionContext::new();
        c.is_extended = extended;
        let m = c.modulus();
        assert_eq!(m, if extended { 128 } else { 8 });
        for v in 0..m as u8 {
            assert_eq!(c.decrement_seq(c.increment_seq(v)), v);
            assert_eq!(c.increment_seq(c.decrement_seq(v)), v);
        }
        assert_eq!(c.increment_seq(m as u8 - 1), 0);
        assert_eq!(c.distance(m as u8 - 1, 1), 2);
    }
}

#[test]
fn the_window_holds_what_was_sent_and_not_acknowledged() {
    let mut c = SessionContext::new();
    c.va = 6;
    c.vs = 1;
    assert_eq!(c.outstanding_count(), 3);
    let held: Vec<u8> = (0..8).filter(|ns| c.is_outstanding(*ns)).collect();
    assert_eq!(held, vec![0, 6, 7]);
    c.vs = 6;
    assert_eq!(c.outstanding_count(), 0);
    assert!(!c.is_outstanding(6));
}

#[test]
fn selective_reject_halves_the_window() {
    let mut c = SessionContext::new();
    c.k = 7;
    assert_eq!(c.effective_window(), 7);
    c.srej_enabled = true;
    assert_eq!(c.effective_window(), 4);
    c.is_extended = true;
    c.k = 127;
    assert_eq!(c.effective_window(), 64);
    c.quirks = Quirks::strictly_faithful();
    assert_eq!(c.effective_window(), 127);
}

#[test]
fn an_acknowledgement_forgets_what_it_covers() {
    let mut c = SessionContext::new();
    for ns in 0..4u8 {
        c.retain_sent(ns, Payload::new(vec![ns], 0xF0));
    }
    c.vs = 4;
    assert!(c.mark_replayed(2));
    assert!(!c.mark_replayed(2));
    c.acknowledge(2);
    assert_eq!(c.va, 2);
    assert!(c.sent_at(1).is_none());
    assert_eq!(c.sent_at(3).unwrap().data, vec![3]);
    assert!(c.mark_replayed(2));
    c.prune_acknowledged_sent_i_frames();
    assert!(c.sent_at(2).is_some());
}

#[test]
fn a_reset_clears_what_is_in_progress() {
    let mut c = SessionContext::new();
    c.k = 5;
    c.srej_enabled = true;
    c.vs = 3;
    c.vr = 2;
    c.rc = 4;
    c.enqueue(Payload::new(vec![1], 0xF0));
    c.store_received(3, Payload::new(vec![2], 0xF0));
    c.reset_state();
    assert!(c.queue_is_empty());
    assert!(c.take_stored().is_none());
    assert_eq!((c.vs, c.va, c.vr, c.rc, c.k), (0, 0, 0, 0, 5));
    assert!(c.srej_enabled);
}

#[test]
fn payloads_leave_in_the_order_they_came() {
    let mut c = SessionContext::new();
    c.enqueue(Payload::new(vec![1], 0xF0));
    c.enqueue(Payload::new(vec![2], 0xCF));
    assert_eq!(c.dequeue().unwrap().data, vec![1]);
    assert_eq!(c.dequeue().unwrap().pid, 0xCF);
    assert!(c.dequeue().is_none());
    c.enqueue(Payload::new(vec![3], 0xF0));
    c.discard_queue();
    assert!(c.queue_is_empty());
}

// ─── Guards ─────────────────────────────────────────────────────────────────

#[test]
fn a_frame_atom_needs_a_frame() {
    let c = SessionContext::new();
    let t = MockTimerService::new();
    for atom in [Ax25Guard::PEq1, Ax25Guard::Command, Ax25Guard::Response, Ax25Guard::NsEqVr] {
        assert!(!eval_atom(atom, &c, &t, &Event::T1Expiry));
    }
    let rr = Event::RrReceived(FrameInfo { poll_final: true, is_command: true, ..Default::default() });
    assert!(eval_atom(Ax25Guard::PEq1, &c, &t, &rr));
    assert!(eval_atom(Ax25Guard::CommandAndPEq1, &c, &t, &rr));
    assert!(!eval_atom(Ax25Guard::Response, &c, &t, &rr));
    let neither = FrameInfo { poll_final: true, is_unmarked: true, ..Default::default() };
    assert!(!neither.is_response() && FrameInfo::default().is_response());
    for atom in [Ax25Guard::Command, Ax25Guard::Response, Ax25Guard::ResponseAndFEq1] {
        assert!(!eval_atom(atom, &c, &t, &Event::RrReceived(neither.clone())));
    }
}

#[test]
fn a_guard_is_the_conjunction_of_its_terms() {
    let c = SessionContext::new();
    let mut t = MockTimerService::new();
    t.arm(TimerId::T1, 1);
    let yes = GuardTerm { atom: Ax25Guard::T1Running, negate: false };
    let no = GuardTerm { atom: Ax25Guard::T1Running, negate: true };
    assert!(eval_term(yes, &c, &t, &Event::T1Expiry));
    assert!(!eval_term(no, &c, &t, &Event::T1Expiry));
    assert!(eval_guard(&[], &c, &t, &Event::T1Expiry));
    assert!(eval_guard(&[yes, yes], &c, &t, &Event::T1Expiry));
    assert!(!eval_guard(&[yes, no], &c, &t, &Event::T1Expiry));
}

#[test]
fn sequence_atoms_count_round_the_ring() {
    let mut c = SessionContext::new();
    c.va = 6;
    c.vs = 1;
    c.vr = 7;
    let t = MockTimerService::new();
    let i = |ns: u8, nr: u8| Event::IReceived(FrameInfo { ns, nr, is_command: true, ..Default::default() });
    assert!(eval_atom(Ax25Guard::VaLeNrLeVs, &c, &t, &i(7, 6)));
    assert!(eval_atom(Ax25Guard::VaLeNrLeVs, &c, &t, &i(7, 1)));
    assert!(!eval_atom(Ax25Guard::VaLeNrLeVs, &c, &t, &i(7, 2)));
    assert!(eval_atom(Ax25Guard::NsEqVr, &c, &t, &i(7, 6)));
    assert!(!eval_atom(Ax25Guard::NsGtVrPlus1, &c, &t, &i(0, 6)));
    assert!(eval_atom(Ax25Guard::NsGtVrPlus1, &c, &t, &i(1, 6)));
}

// ─── Actions and subroutines ────────────────────────────────────────────────

#[test]
fn verbs_run_one_after_the_other() {
    let mut c = SessionContext::new();
    let mut t = MockTimerService::new();
    let mut heard = Heard::default();
    let mut tx = Tx::new(&mut c, &mut t, &mut heard, Event::DlDisconnectRequest);
    let steps = [
        step(Ax25ActionVerb::RCAssign0),
        step(Ax25ActionVerb::RCAssignRCPlus1),
        step(Ax25ActionVerb::DISCPEq1),
        step(Ax25ActionVerb::StartT1),
    ];
    assert_eq!(execute_steps(&steps, &mut tx), Ok(()));
    assert_eq!(execute_verb(Ax25ActionVerb::DLDISCONNECTConfirm, &mut tx), Ok(()));
    assert_eq!(c.rc, 1);
    assert!(t.is_running(TimerId::T1));
    assert!(matches!(
        heard.frames[..],
        [FrameSpec::Unnumbered { kind: UnnumberedKind::Disc, is_command: true, pf: true, .. }]
    ));
    assert_eq!(heard.upward, vec![DataLinkSignal::DisconnectConfirm]);
}

#[test]
fn a_loop_tests_before_each_pass() {
    let mut c = SessionContext::new();
    c.store_received(0, Payload::new(vec![7], 0xF0));
    c.store_received(1, Payload::new(vec![8], 0xF0));
    let mut t = MockTimerService::new();
    let mut heard = Heard::default();
    let mut tx = Tx::new(&mut c, &mut t, &mut heard, Event::T1Expiry);
    let steps = [
        step(Ax25ActionVerb::RetrieveStoredVRIFrame),
        step(Ax25ActionVerb::DLDATAIndication),
        step(Ax25ActionVerb::VRAssignVRPlus1),
    ];
    let loops = [LoopRange {
        start: 0,
        length: 3,
        predicate: GuardTerm { atom: Ax25Guard::VrIFrameStored, negate: false },
        test_at_end: false,
    }];
    assert_eq!(execute_actions(&steps, &loops, &mut tx), Ok(()));
    assert_eq!(c.vr, 2);
    assert_eq!(
        heard.upward,
        vec![
            DataLinkSignal::DataIndication(0xF0, vec![7]),
            DataLinkSignal::DataIndication(0xF0, vec![8]),
        ]
    );
}

#[test]
fn an_enquiry_is_answered_with_its_final_bit() {
    for (busy, kind) in [(false, SupervisoryKind::Rr), (true, SupervisoryKind::Rnr)] {
        let mut c = SessionContext::new();
        c.own_receiver_busy = busy;
        c.vr = 5;
        let mut t = MockTimerService::new();
        let mut heard = Heard::default();
        let poll = FrameInfo { poll_final: true, is_command: true, ..Default::default() };
        let mut tx = Tx::new(&mut c, &mut t, &mut heard, Event::RrReceived(poll));
        assert_eq!(invoke_enquiry_response(&mut tx, true), Ok(()));
        assert_eq!(
            heard.frames,
            vec![FrameSpec::Supervisory { kind, is_command: false, nr: 5, pf: true }]
        );
    }
}

#[test]
fn a_subroutine_that_is_not_listed_is_a_fault() {
    let mut c = SessionContext::new();
    let mut t = MockTimerService::new();
    let mut sink = NullSink;
    let mut tx = Tx::new(&mut c, &mut t, &mut sink, Event::T1Expiry);
    assert_eq!(invoke("Transmit_Enquiry", &mut tx), Ok(()));
    assert_eq!(invoke("No_Such_Routine", &mut tx), Err(Fault::UnknownSubroutine));
}

#[test]
fn subroutines_that_call_each_other_for_ever_are_a_fault() {
    const ROUTINE: &[SubroutineSpec] = &[SubroutineSpec {
        name: "Establish_Data_Link",
        paths: &[SubroutinePath {
            id: "p",
            guard: &[],
            actions: &[step(Ax25ActionVerb::EstablishDataLink)],
            notes: "",
            references: &[],
            loops: &[],
        }],
        notes: "",
        references: &[],
    }];
    let mut c = SessionContext::new();
    let mut t = MockTimerService::new();
    let mut sink = NullSink;
    let mut tx = Tx::over(&mut c, &mut t, &mut sink, Event::T1Expiry, ROUTINE);
    assert_eq!(invoke("Establish_Data_Link", &mut tx), Err(Fault::NestedTooDeep));
}

// ─── Sessions ───────────────────────────────────────────────────────────────

#[test]
fn states_are_found_again_by_name() {
    for state in [
        State::Disconnected,
        State::AwaitingConnection,
        State::AwaitingV22Connection,
        State::AwaitingRelease,
        State::Connected,
        State::TimerRecovery,
    ] {
        assert_eq!(State::from_name(state.name()), Some(state));
    }
    assert_eq!(State::from_name("connected"), None);
}

#[test]
fn an_action_that_needs_a_frame_faults_without_one() {
    const PAGE: &[TransitionSpec] = &[arrow(
        Ax25Event::T1Expiry,
        &[step(Ax25ActionVerb::StartT1), step(Ax25ActionVerb::VAAssignNR)],
        &[],
        "Connected",
    )];
    let (s, t, _, r) = run(PAGE, Event::T1Expiry);
    assert_eq!(r, Err(Fault::NoFrame));
    assert_eq!(s.state, State::Disconnected);
    assert!(!t.is_running(TimerId::T1));
}

#[test]
fn a_frame_without_an_identifier_cannot_be_delivered() {
    const PAGE: &[TransitionSpec] =
        &[arrow(Ax25Event::IReceived, &[step(Ax25ActionVerb::DLDATAIndication)], &[], "Connected")];
    let (s, _, heard, r) = run(PAGE, Event::IReceived(FrameInfo::default()));
    assert_eq!(r, Err(Fault::NoPid));
    assert_eq!(s.state, State::Disconnected);
    assert!(heard.upward.is_empty());
}

#[test]
fn only_a_data_request_has_data_to_queue() {
    const PAGE: &[TransitionSpec] =
        &[arrow(Ax25Event::T1Expiry, &[step(Ax25ActionVerb::PushOnIFrameQueue)], &[], "Connected")];
    let (_, _, _, r) = run(PAGE, Event::T1Expiry);
    assert_eq!(r, Err(Fault::WrongTrigger));
}

#[test]
fn tables_that_list_no_subroutine_fault_on_a_call() {
    const PAGE: &[TransitionSpec] =
        &[arrow(Ax25Event::T1Expiry, &[step(Ax25ActionVerb::EstablishDataLink)], &[], "Connected")];
    let (_, _, _, r) = run(PAGE, Event::T1Expiry);
    assert_eq!(r, Err(Fault::UnknownSubroutine));
}

#[test]
fn a_loop_past_the_end_of_its_actions_is_a_fault() {
    const PAGE: &[TransitionSpec] = &[arrow(
        Ax25Event::T1Expiry,
        &[step(Ax25ActionVerb::StartT1)],
        &[LoopRange {
            start: 0,
            length: 2,
            predicate: GuardTerm { atom: Ax25Guard::T1Running, negate: false },
            test_at_end: true,
        }],
        "Connected",
    )];
    let (_, t, _, r) = run(PAGE, Event::T1Expiry);
    assert_eq!(r, Err(Fault::LoopOutOfRange));
    assert!(!t.is_running(TimerId::T1));
}

#[test]
fn a_state_that_does_not_exist_is_a_fault() {
    const PAGE: &[TransitionSpec] =
        &[arrow(Ax25Event::T1Expiry, &[step(Ax25ActionVerb::StartT3)], &[], "Elsewhere")];
    let (s, t, _, r) = run(PAGE, Event::T1Expiry);
    assert_eq!(r, Err(Fault::UnknownState));
    assert_eq!(s.state, State::Disconnected);
    assert!(!t.is_running(TimerId::T3));
}

#[test]
fn an_event_that_no_transition_lists_is_dropped() {
    let (s, t, heard, r) = run(&[], Event::DlConnectRequest);
    assert_eq!(r, Ok(()));
    assert_eq!(s.state, State::Disconnected);
    assert_eq!(t.capture(), TimerSnapshot::default());
    assert!(heard.frames.is_empty() && heard.upward.is_empty());
}

#[test]
fn the_queue_drains_as_far_as_the_window_lets_it() {
    let mut s = Session::in_state(State::Connected);
    s.context.k = 2;
    let mut t = MockTimerService::new();
    let mut heard = Heard::default();
    let data = |b: u8| Event::DlDataRequest(0xF0, vec![b]);
    post_all(&mut s, vec![data(1), data(2), data(3)], &mut t, &mut heard).unwrap();
    assert_eq!(heard.frames.len(), 2);
    assert!(!s.can_transmit_i_frame() && !s.context.queue_is_empty());
    let ack = FrameInfo { nr: 1, ..Default::default() };
    s.post_event(Event::RrReceived(ack), &mut t, &mut heard).unwrap();
    assert!(s.context.queue_is_empty());
    assert!(matches!(
        heard.frames.last(),
        Some(FrameSpec::Information { ns: 2, nr: 0, pid: 0xF0, info, .. }) if info == &vec![3]
    ));
}

fn verbs_of(actions: &[ActionStep]) -> Vec<Ax25ActionVerb> {
    actions.iter().map(|a| a.verb).collect()
}

#[test]
fn the_tables_acknowledge_on_a_grant() {
    let tables = SdlTables::new();
    for state in [State::Connected, State::TimerRecovery] {
        let granted = tables
            .transitions(state)
            .iter()
            .find(|t| t.on == Ax25Event::LMSEIZEConfirm)
            .unwrap();
        assert_eq!(granted.guard, &[GuardTerm { atom: Ax25Guard::AckPending, negate: false }]);
        assert_eq!(
            verbs_of(granted.actions),
            [
                Ax25ActionVerb::ClearAcknowledgePending,
                Ax25ActionVerb::EnquiryResponseFEq0,
                Ax25ActionVerb::LMReleaseRequest,
            ]
        );
        assert!(granted.loops.is_empty());
    }
    let answer = tables.subroutines.iter().find(|s| s.name == "Enquiry_Response").unwrap();
    let (c, t) = (SessionContext::new(), MockTimerService::new());
    let path = answer
        .paths
        .iter()
        .find(|p| eval_guard(p.guard, &c, &t, &Event::LmSeizeConfirm))
        .unwrap();
    assert_eq!(
        verbs_of(path.actions),
        [
            Ax25ActionVerb::NRAssignVR,
            Ax25ActionVerb::RRResponse,
            Ax25ActionVerb::ClearAcknowledgePending,
        ]
    );
    assert!(path.loops.is_empty());
}

#[test]
fn the_tables_establish_with_a_sabm() {
    let tables = SdlTables::new();
    let dialled = tables
        .transitions(State::Disconnected)
        .iter()
        .find(|t| t.on == Ax25Event::DLCONNECTRequest)
        .unwrap();
    assert_eq!(
        verbs_of(dialled.actions),
        [
            Ax25ActionVerb::SRTAssignInitialDefault,
            Ax25ActionVerb::T1VAssign2TimesSRT,
            Ax25ActionVerb::EstablishDataLink,
            Ax25ActionVerb::SetLayer3Initiated,
        ]
    );
    assert_eq!((dialled.guard.len(), dialled.loops.len()), (0, 0));
    assert_eq!(dialled.next, "AwaitingConnection");
    let (c, t) = (SessionContext::new(), MockTimerService::new());
    let path = |name: &str| {
        let routine = tables.subroutines.iter().find(|s| s.name == name).unwrap();
        let path = routine
            .paths
            .iter()
            .find(|p| eval_guard(p.guard, &c, &t, &Event::DlConnectRequest))
            .unwrap();
        assert!(path.loops.is_empty());
        verbs_of(path.actions)
    };
    assert_eq!(
        path("Establish_Data_Link"),
        [
            Ax25ActionVerb::ClearExceptionConditions,
            Ax25ActionVerb::RCAssign1,
            Ax25ActionVerb::PAssign1,
            Ax25ActionVerb::SABM,
            Ax25ActionVerb::StopT3,
            Ax25ActionVerb::StartT1,
        ]
    );
    assert_eq!(
        path("Clear_Exception_Conditions"),
        [
            Ax25ActionVerb::ClearPeerReceiverBusy,
            Ax25ActionVerb::ClearOwnReceiverBusy,
            Ax25ActionVerb::ClearRejectCondition,
            Ax25ActionVerb::ClearSrejectCondition,
            Ax25ActionVerb::ClearAcknowledgePending,
            Ax25ActionVerb::DiscardIQueueEntries,
        ]
    );
}
