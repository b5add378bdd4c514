use ax25_node_core::sdl::session::State;
use ax25_node_core::sdl::tables::SdlTables;
use ax25sdl::{
    ActionStep, Ax25ActionVerb, Ax25Event, Ax25Guard, GuardTerm, SubroutinePath, TransitionSpec,
};

fn verbs_of(actions: &[ActionStep]) -> Vec<Ax25ActionVerb> {
    actions.iter().map(|a| a.verb).collect()
}

fn keyed(state: State, on: Ax25Event) -> Vec<TransitionSpec> {
    SdlTables::new().transitions(state).iter().filter(|t| t.on == on).cloned().collect()
}

fn paths(name: &str) -> &'static [SubroutinePath] {
    SdlTables::new().subroutines.iter().find(|s| s.name == name).unwrap().paths
}

fn yes(atom: Ax25Guard) -> GuardTerm {
    GuardTerm { atom, negate: false }
}

fn no(atom: Ax25Guard) -> GuardTerm {
    GuardTerm { atom, negate: true }
}

#[test]
fn every_transition_starts_from_the_state_of_its_page() {
    let states = [
        State::Disconnected,
        State::AwaitingConnection,
        State::AwaitingV22Connection,
        State::AwaitingRelease,
        State::Connected,
        State::TimerRecovery,
    ];
    for state in states {
        for t in SdlTables::new().transitions(state) {
            assert_eq!(t.from, state.name());
        }
    }
    for t in ax25sdl::MANAGEMENT_DATA_LINK_READY.transitions {
        assert_eq!(t.from, "Ready");
    }
    for t in ax25sdl::MANAGEMENT_DATA_LINK_NEGOTIATING.transitions {
        assert_eq!(t.from, "Negotiating");
    }
}

#[test]
fn a_link_that_is_down_draws_connects_and_calls() {
    let dials = keyed(State::Disconnected, Ax25Event::DLCONNECTRequest);
    assert_eq!(dials.len(), 1);
    assert_eq!((dials[0].guard.len(), dials[0].loops.len()), (0, 0));
    assert_eq!(dials[0].next, "AwaitingConnection");
    let calls = keyed(State::Disconnected, Ax25Event::SABMReceived);
    assert_eq!(calls.len(), 2);
    assert_eq!(calls[0].guard, &[no(Ax25Guard::AbleToEstablish)]);
    assert_eq!(calls[1].guard, &[yes(Ax25Guard::AbleToEstablish)]);
    assert_eq!(calls[1].next, "Connected");
    assert!(calls[1].loops.is_empty());
    assert_eq!(
        verbs_of(calls[1].actions),
        [
            Ax25ActionVerb::FAssignP,
            Ax25ActionVerb::SetVersion20,
            Ax25ActionVerb::UA,
            Ax25ActionVerb::ClearExceptionConditions,
            Ax25ActionVerb::VSAssign0,
            Ax25ActionVerb::VAAssign0,
            Ax25ActionVerb::VRAssign0,
            Ax25ActionVerb::DLCONNECTIndication,
            Ax25ActionVerb::SRTAssignInitialDefault,
            Ax25ActionVerb::T1VAssign2TimesSRT,
            Ax25ActionVerb::StartT3,
            Ax25ActionVerb::RCAssign0,
        ]
    );
}

#[test]
fn a_link_that_is_up_draws_frames_in_turn() {
    let fits = Ax25Guard::InfoFieldLengthLeN1AndContentIsOctetAligned;
    let frames = keyed(State::Connected, Ax25Event::IReceived);
    assert_eq!(frames.len(), 16);
    assert_eq!(
        frames[0].guard,
        &[yes(Ax25Guard::Command), no(fits), no(Ax25Guard::Version22)]
    );
    assert_eq!(
        frames[1].guard,
        &[yes(Ax25Guard::Command), no(fits), yes(Ax25Guard::Version22)]
    );
    assert_eq!(
        frames[2].guard,
        &[
            yes(Ax25Guard::Command),
            yes(fits),
            no(Ax25Guard::VaLeNrLeVs),
            no(Ax25Guard::Version22)
        ]
    );
    assert_eq!(
        frames[3].guard,
        &[
            yes(Ax25Guard::Command),
            yes(fits),
            no(Ax25Guard::VaLeNrLeVs),
            yes(Ax25Guard::Version22)
        ]
    );
    assert_eq!(
        frames[4].guard,
        &[
            yes(Ax25Guard::Command),
            yes(fits),
            yes(Ax25Guard::VaLeNrLeVs),
            no(Ax25Guard::OwnReceiverBusy),
            yes(Ax25Guard::NsEqVr),
            no(Ax25Guard::PEq1),
            no(Ax25Guard::AckPending),
        ]
    );
    assert_eq!(frames[4].next, "Connected");
    let verbs = verbs_of(frames[4].actions);
    assert_eq!(
        verbs[..5],
        [
            Ax25ActionVerb::CheckIFrameAcknowledged,
            Ax25ActionVerb::VRAssignVRPlus1,
            Ax25ActionVerb::ClearRejectException,
            Ax25ActionVerb::DecrementSrejectExceptionIf0,
            Ax25ActionVerb::DLDATAIndication,
        ]
    );
    assert_eq!(
        verbs[8..],
        [Ax25ActionVerb::LMSeizeRequest, Ax25ActionVerb::SetAcknowledgePending]
    );
    let range = &frames[4].loops[0];
    assert_eq!((frames[4].loops.len(), range.start, range.length), (1, 5, 3));
    assert_eq!(range.predicate, yes(Ax25Guard::VrIFrameStored));
    assert!(!range.test_at_end);
}

#[test]
fn a_link_that_is_up_draws_grants_and_no_t2() {
    assert!(keyed(State::Connected, Ax25Event::T2Expiry).is_empty());
    for state in [State::Connected, State::TimerRecovery] {
        let grants = keyed(state, Ax25Event::LMSEIZEConfirm);
        assert_eq!(grants.len(), 2);
        assert_eq!(grants[0].guard, &[yes(Ax25Guard::AckPending)]);
        assert_eq!(grants[0].next, state.name());
    }
}

#[test]
fn the_subroutines_draw_one_way_for_each_guard() {
    let establish = paths("Establish_Data_Link");
    assert_eq!(establish.len(), 2);
    assert_eq!(establish[0].guard, &[no(Ax25Guard::Mod128)]);
    let clear = paths("Clear_Exception_Conditions");
    assert_eq!((clear.len(), clear[0].guard.len()), (1, 0));
    let polled = Ax25Guard::FEq1AndFrameEqRROrFrameEqRNROrFrameEqI;
    let answer = paths("Enquiry_Response");
    assert_eq!(answer.len(), 7);
    assert!(answer[..6].iter().all(|p| p.guard[0] == yes(polled)));
    assert_eq!(answer[6].guard, &[no(polled)]);
}

#[test]
fn taking_an_acknowledgement_only_keeps_the_books() {
    let books = [
        Ax25ActionVerb::VAAssignNR,
        Ax25ActionVerb::StartT1,
        Ax25ActionVerb::StartT3,
        Ax25ActionVerb::StopT1,
        Ax25ActionVerb::StopT3,
        Ax25ActionVerb::SRTAssign7SRT8PlusT18RemainingTimeOnT1WhenLastStopped8,
        Ax25ActionVerb::NextT1Assign2TimesSRT,
        Ax25ActionVerb::NextT1AssignRCTimes025PlusSRTTimes2,
    ];
    for path in paths("Check_I_Frame_Acknowledged") {
        assert!(path.loops.is_empty());
        for verb in verbs_of(path.actions) {
            assert!(books.contains(&verb) || verb == Ax25ActionVerb::SelectT1Value);
        }
    }
    for path in paths("Select_T1") {
        assert!(path.loops.is_empty());
        assert!(verbs_of(path.actions).iter().all(|v| books.contains(v)));
    }
}
