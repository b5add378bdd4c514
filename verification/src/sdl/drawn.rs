//! What the generated tables draw, as far as the laws of a link rest on it.

use ax25sdl::{
    Ax25ActionVerb, Ax25Event, Ax25Guard, GuardTerm, SubroutineSpec, TransitionSpec,
};
use vstd::prelude::*;

use super::acknowledging;
use super::chains;
use super::context::Link;
use super::dispatch;
use super::establishing;
use super::event::Trigger;
use super::guard;
use super::receiving;
use super::resending;
use super::session;
use super::session::State;
use super::steady;
use super::tables::Charts;
use super::timer::TimerSnapshot;

verus! {

/// The term that an atom holds.
pub open spec fn yes(atom: Ax25Guard) -> GuardTerm {
    GuardTerm { atom, negate: false }
}

/// The term that an atom does not hold.
pub open spec fn no(atom: Ax25Guard) -> GuardTerm {
    GuardTerm { atom, negate: true }
}

/// The transitions from index `i` on that are keyed on an event.
pub open spec fn keyed(page: Seq<TransitionSpec>, on: Ax25Event, i: int) -> Seq<TransitionSpec>
    decreases page.len() - i,
{
    if i < 0 || i >= page.len() {
        Seq::empty()
    } else if page[i].on == on {
        seq![page[i]] + keyed(page, on, i + 1)
    } else {
        keyed(page, on, i + 1)
    }
}

/// The transition has this guard, these actions without loops, and leads to this state.
pub open spec fn draws(
    tr: TransitionSpec,
    terms: Seq<GuardTerm>,
    chain: Seq<Ax25ActionVerb>,
    next: State,
) -> bool {
    &&& tr.guard@ == terms
    &&& chains::lists(tr.actions@, tr.loops@, chain)
    &&& tr.next@ == next.label()
}

/// What the page of a link that is down draws: a connect request establishes the link, and
/// a SABM brings it up where calls are accepted.
pub open spec fn draws_down(page: Seq<TransitionSpec>) -> bool {
    let dials: Seq<TransitionSpec> = keyed(page, Ax25Event::DLCONNECTRequest, 0);
    let calls: Seq<TransitionSpec> = keyed(page, Ax25Event::SABMReceived, 0);
    &&& dials.len() == 1
    &&& draws(
        dials[0],
        Seq::empty(),
        establishing::dialling_chain(),
        State::AwaitingConnection,
    )
    &&& calls.len() == 2
    &&& calls[0].guard@ == seq![no(Ax25Guard::AbleToEstablish)]
    &&& draws(
        calls[1],
        seq![yes(Ax25Guard::AbleToEstablish)],
        receiving::accepting_chain(),
        State::Connected,
    )
}

/// What the page of a state of information transfer draws for the grant of the channel: it
/// settles what is unacknowledged and stays in the state.
pub open spec fn draws_grants(state: State, page: Seq<TransitionSpec>) -> bool {
    let grants: Seq<TransitionSpec> = keyed(page, Ax25Event::LMSEIZEConfirm, 0);
    &&& grants.len() == 2
    &&& draws(
        grants[0],
        seq![yes(Ax25Guard::AckPending)],
        acknowledging::settling_chain(),
        state,
    )
}

/// The transition takes a UI frame in, and replies to it if it is to.
pub open spec fn draws_a_datagram(tr: TransitionSpec, state: State) -> bool {
    &&& tr.guard@.len() == 1
    &&& tr.guard@[0].atom == Ax25Guard::PEq1
    &&& tr.loops@.len() == 0
    &&& tr.actions@.len() > 0
    &&& tr.actions@[0].verb == Ax25ActionVerb::UICheck
    &&& forall|j: int|
        1 <= j < tr.actions@.len() ==> steady::is_steady((#[trigger] tr.actions@[j]).verb)
            || tr.actions@[j].verb == Ax25ActionVerb::EnquiryResponseF1
    &&& tr.next@ == state.label()
}

/// What the page of every state draws for UI frames: one that is to go out goes out, and
/// one that comes is taken in, whether it polls or not.
pub open spec fn draws_datagrams(state: State, page: Seq<TransitionSpec>) -> bool {
    let asks: Seq<TransitionSpec> = keyed(page, Ax25Event::DLUNITDATARequest, 0);
    let comes: Seq<TransitionSpec> = keyed(page, Ax25Event::UIReceived, 0);
    &&& asks.len() == 1
    &&& draws(asks[0], Seq::empty(), seq![Ax25ActionVerb::UICommand], state)
    &&& comes.len() == 2
    &&& draws_a_datagram(comes[0], state)
    &&& draws_a_datagram(comes[1], state)
    &&& comes[0].guard@[0].negate != comes[1].guard@[0].negate
}

/// What the page of a link that is up draws for data that is to go out: it joins the queue,
/// and what pops off the queue is sent if the peer is not busy and the window is open.
pub open spec fn draws_sending(page: Seq<TransitionSpec>) -> bool {
    let asks: Seq<TransitionSpec> = keyed(page, Ax25Event::DLDATARequest, 0);
    let pops: Seq<TransitionSpec> = keyed(page, Ax25Event::IFramePopsOffQueue, 0);
    let busy: Ax25Guard = Ax25Guard::PeerReceiverBusy;
    let full: Ax25Guard = Ax25Guard::VsEqVaPlusK;
    &&& asks.len() == 1
    &&& draws(
        asks[0],
        Seq::empty(),
        seq![Ax25ActionVerb::PushOnIFrameQueueNoteWordOrder],
        State::Connected,
    )
    &&& pops.len() == 4
    &&& pops[0].guard@ == seq![yes(busy)]
    &&& pops[1].guard@ == seq![no(busy), yes(full)]
    &&& draws(
        pops[2],
        seq![no(busy), no(full), no(Ax25Guard::T1Running)],
        resending::sending_chain() + resending::timing_chain(),
        State::Connected,
    )
    &&& draws(
        pops[3],
        seq![no(busy), no(full), yes(Ax25Guard::T1Running)],
        resending::sending_chain(),
        State::Connected,
    )
}

/// What the page of a link that is up draws for a REJ and an SREJ whose N(R) is within the
/// window: the frames from N(R) on, or the one frame, go out again.
pub open spec fn draws_rejects(page: Seq<TransitionSpec>) -> bool {
    let rejs: Seq<TransitionSpec> = keyed(page, Ax25Event::REJReceived, 0);
    let srejs: Seq<TransitionSpec> = keyed(page, Ax25Event::SREJReceived, 0);
    let within: Ax25Guard = Ax25Guard::VaLeNrLeVs;
    &&& rejs.len() == 3
    &&& rejs[0].guard@ == seq![no(within), no(Ax25Guard::Version22)]
    &&& rejs[1].guard@ == seq![no(within), yes(Ax25Guard::Version22)]
    &&& draws(rejs[2], seq![yes(within)], resending::rejecting_chain(), State::Connected)
    &&& srejs.len() == 4
    &&& draws(
        srejs[0],
        seq![yes(within), yes(Ax25Guard::POrFEq1)],
        resending::final_chain() + resending::selecting_chain(),
        State::Connected,
    )
    &&& draws(
        srejs[1],
        seq![yes(within), no(Ax25Guard::POrFEq1)],
        resending::plain_chain() + resending::selecting_chain(),
        State::Connected,
    )
}

/// What stands before the decision on a frame that is out of turn.
pub open spec fn out_of_turn() -> Seq<GuardTerm> {
    seq![
        yes(Ax25Guard::Command),
        yes(Ax25Guard::InfoFieldLengthLeN1AndContentIsOctetAligned),
        yes(Ax25Guard::VaLeNrLeVs),
        no(Ax25Guard::OwnReceiverBusy),
        no(Ax25Guard::NsEqVr),
    ]
}

/// What stands before the decision on a frame that is in turn.
pub open spec fn in_its_turn() -> Seq<GuardTerm> {
    seq![
        yes(Ax25Guard::Command),
        yes(Ax25Guard::InfoFieldLengthLeN1AndContentIsOctetAligned),
        yes(Ax25Guard::VaLeNrLeVs),
        no(Ax25Guard::OwnReceiverBusy),
        yes(Ax25Guard::NsEqVr),
    ]
}

/// What the page of a link that is up draws for the other I frames: one in turn while an
/// acknowledgement is owed or that polls is delivered too, and one that comes early is kept
/// under selective reject and asked for.
pub open spec fn draws_frames(page: Seq<TransitionSpec>) -> bool {
    let frames: Seq<TransitionSpec> = keyed(page, Ax25Event::IReceived, 0);
    let rejecting: Ax25Guard = Ax25Guard::RejectException;
    let selective: Ax25Guard = Ax25Guard::SREJEnabled;
    let asked: Ax25Guard = Ax25Guard::SrejectExceptionGt0;
    let polls: Ax25Guard = Ax25Guard::PEq1;
    let connected: Seq<char> = State::Connected.label();
    &&& frames.len() == 16
    &&& frames[5].guard@ == in_its_turn() + seq![no(polls), yes(Ax25Guard::AckPending)]
    &&& receiving::delivers(frames[5].actions@, frames[5].loops@)
    &&& frames[5].actions@.len() == 8
    &&& frames[5].next@ == connected
    &&& frames[6].guard@ == in_its_turn() + seq![yes(polls)]
    &&& receiving::delivers(frames[6].actions@, frames[6].loops@)
    &&& frames[6].actions@.len() == 12
    &&& forall|i: int|
        0 <= i < 4 ==> frames[6].actions@[8 + i].verb == #[trigger] receiving::polled_chain()[i]
    &&& frames[6].next@ == connected
    &&& frames[7].guard@ == out_of_turn() + seq![yes(rejecting), yes(polls)]
    &&& frames[8].guard@ == out_of_turn() + seq![yes(rejecting), no(polls)]
    &&& frames[9].guard@ == out_of_turn() + seq![no(rejecting), no(selective)]
    &&& draws(
        frames[10],
        out_of_turn() + seq![no(rejecting), yes(selective), yes(asked)],
        receiving::asking_again_chain(),
        State::Connected,
    )
    &&& draws(
        frames[11],
        out_of_turn() + seq![no(rejecting), yes(selective), no(asked), yes(Ax25Guard::NsGtVrPlus1)],
        receiving::going_back_chain(),
        State::Connected,
    )
    &&& draws(
        frames[12],
        out_of_turn() + seq![no(rejecting), yes(selective), no(asked), no(Ax25Guard::NsGtVrPlus1)],
        receiving::asking_once_chain(),
        State::Connected,
    )
}

/// What the page of a link that is up draws: T2 does nothing, and an I frame that comes in
/// turn is delivered, asks for the channel and is left to be acknowledged.
pub open spec fn draws_up(page: Seq<TransitionSpec>) -> bool {
    let frames: Seq<TransitionSpec> = keyed(page, Ax25Event::IReceived, 0);
    let fits: Ax25Guard = Ax25Guard::InfoFieldLengthLeN1AndContentIsOctetAligned;
    &&& keyed(page, Ax25Event::T2Expiry, 0).len() == 0
    &&& frames.len() == 16
    &&& frames[0].guard@ == seq![yes(Ax25Guard::Command), no(fits), no(Ax25Guard::Version22)]
    &&& frames[1].guard@ == seq![yes(Ax25Guard::Command), no(fits), yes(Ax25Guard::Version22)]
    &&& frames[2].guard@ == seq![
        yes(Ax25Guard::Command),
        yes(fits),
        no(Ax25Guard::VaLeNrLeVs),
        no(Ax25Guard::Version22),
    ]
    &&& frames[3].guard@ == seq![
        yes(Ax25Guard::Command),
        yes(fits),
        no(Ax25Guard::VaLeNrLeVs),
        yes(Ax25Guard::Version22),
    ]
    &&& frames[4].guard@ == seq![
        yes(Ax25Guard::Command),
        yes(fits),
        yes(Ax25Guard::VaLeNrLeVs),
        no(Ax25Guard::OwnReceiverBusy),
        yes(Ax25Guard::NsEqVr),
        no(Ax25Guard::PEq1),
        no(Ax25Guard::AckPending),
    ]
    &&& receiving::takes_in(frames[4].actions@, frames[4].loops@)
    &&& frames[4].next@ == State::Connected.label()
}

/// What the page of a state draws.
pub open spec fn draws_page(state: State, page: Seq<TransitionSpec>) -> bool {
    &&& forall|i: int| 0 <= i < page.len() ==> (#[trigger] page[i]).from@ == state.label()
    &&& state == State::Disconnected ==> draws_down(page)
    &&& draws_datagrams(state, page)
    &&& state == State::Connected ==> draws_up(page) && draws_sending(page) && draws_rejects(page)
        && draws_frames(page)
    &&& state == State::Connected || state == State::TimerRecovery ==> draws_grants(state, page)
}

/// What the subroutines draw: how a link is established, how an enquiry is answered where
/// no frame asked for it, that taking an acknowledgement only keeps the books, that replying
/// is steady, how frames go out again, and what becomes of a UI frame.
pub open spec fn draws_routines(subs: Seq<SubroutineSpec>) -> bool {
    let polled: Ax25Guard = Ax25Guard::FEq1AndFrameEqRROrFrameEqRNROrFrameEqI;
    &&& dispatch::routine_from(subs, "Establish_Data_Link"@, 0) matches Some(paths)
        && paths.len() == 2 && paths[0].guard@ == seq![no(Ax25Guard::Mod128)] && chains::lists(
        paths[0].actions@,
        paths[0].loops@,
        establishing::establishing_chain(),
    )
    &&& dispatch::routine_from(subs, "Clear_Exception_Conditions"@, 0) matches Some(paths)
        && paths.len() == 1 && paths[0].guard@.len() == 0 && chains::lists(
        paths[0].actions@,
        paths[0].loops@,
        establishing::clearing_chain(),
    )
    &&& dispatch::routine_from(subs, "Enquiry_Response"@, 0) matches Some(paths) && paths.len()
        == 7 && (forall|i: int|
        0 <= i < 6 ==> (#[trigger] paths[i]).guard@.len() > 0 && paths[i].guard@[0] == yes(polled))
        && paths[6].guard@ == seq![no(polled)] && chains::lists(
        paths[6].actions@,
        paths[6].loops@,
        acknowledging::answering_chain(),
    )
    &&& dispatch::routine_from(subs, "Check_I_Frame_Acknowledged"@, 0) matches Some(paths)
        && receiving::keeps_books(paths, true)
    &&& dispatch::routine_from(subs, "Select_T1"@, 0) matches Some(paths)
        && receiving::keeps_books(paths, false) && steady::goes_steady(paths, false)
    &&& steady::answers_steadily(subs)
    &&& dispatch::routine_from(subs, "Check_Need_for_Response"@, 0) matches Some(paths)
        && steady::goes_steady(paths, true)
    &&& dispatch::routine_from(subs, "Invoke_Retransmission"@, 0) matches Some(paths)
        && paths.len() == 1 && paths[0].guard@.len() == 0 && resending::invokes(
        paths[0].actions@,
        paths[0].loops@,
    )
    &&& dispatch::routine_from(subs, "UI_Check"@, 0) matches Some(paths) && paths.len() == 3
        && paths[0].guard@ == seq![no(Ax25Guard::Command)] && paths[1].guard@ == seq![
        yes(Ax25Guard::Command),
        yes(Ax25Guard::InfoFieldLengthLeN1AndContentIsOctetAligned),
    ] && chains::lists(
        paths[1].actions@,
        paths[1].loops@,
        seq![Ax25ActionVerb::DLUNITDATAIndication],
    )
}

/// What the tables of a session draw.
#[verifier::opaque]
pub open spec fn drawn(charts: Charts) -> bool {
    &&& draws_down(charts.disconnected)
    &&& draws_up(charts.connected)
    &&& draws_sending(charts.connected)
    &&& draws_rejects(charts.connected)
    &&& draws_frames(charts.connected)
    &&& forall|state: State| draws_datagrams(state, #[trigger] charts.page(state))
    &&& draws_grants(State::Connected, charts.connected)
    &&& draws_grants(State::TimerRecovery, charts.timer_recovery)
    &&& draws_routines(charts.subroutines)
}

/// The first transition at or after index `i` whose guard holds.
pub open spec fn first_open(
    trs: Seq<TransitionSpec>,
    link: Link,
    timers: TimerSnapshot,
    t: Trigger,
    i: int,
) -> Option<TransitionSpec>
    decreases trs.len() - i,
{
    if i < 0 || i >= trs.len() {
        None
    } else if guard::guard_holds(trs[i].guard@, link, timers, t) {
        Some(trs[i])
    } else {
        first_open(trs, link, timers, t, i + 1)
    }
}

proof fn lemma_first_open_behind(
    tr: TransitionSpec,
    trs: Seq<TransitionSpec>,
    link: Link,
    timers: TimerSnapshot,
    t: Trigger,
    i: int,
)
    requires
        0 <= i,
    ensures
        first_open(seq![tr] + trs, link, timers, t, i + 1) == first_open(trs, link, timers, t, i),
    decreases trs.len() - i,
{
    if i < trs.len() {
        assert((seq![tr] + trs)[i + 1] == trs[i]);
        lemma_first_open_behind(tr, trs, link, timers, t, i + 1);
    }
}

/// The transition that an event finds is the first of those keyed on it whose guard holds.
pub proof fn lemma_match_is_keyed(
    page: Seq<TransitionSpec>,
    link: Link,
    timers: TimerSnapshot,
    t: Trigger,
    i: int,
)
    requires
        0 <= i,
    ensures
        session::first_match(page, link, timers, t, i) == first_open(
            keyed(page, t.on, i),
            link,
            timers,
            t,
            0,
        ),
    decreases page.len() - i,
{
    if i < page.len() {
        lemma_match_is_keyed(page, link, timers, t, i + 1);
        if page[i].on == t.on {
            let rest: Seq<TransitionSpec> = keyed(page, t.on, i + 1);
            assert((seq![page[i]] + rest)[0] == page[i]);
            lemma_first_open_behind(page[i], rest, link, timers, t, 0);
        }
    }
}

/// Every transition that is keyed on an event carries it.
pub proof fn lemma_keyed_on(page: Seq<TransitionSpec>, on: Ax25Event, i: int)
    requires
        0 <= i,
    ensures
        forall|j: int|
            0 <= j < keyed(page, on, i).len() ==> (#[trigger] keyed(page, on, i)[j]).on == on,
    decreases page.len() - i,
{
    if i < page.len() {
        lemma_keyed_on(page, on, i + 1);
        assert forall|j: int| 0 <= j < keyed(page, on, i).len() implies (#[trigger] keyed(
            page,
            on,
            i,
        )[j]).on == on by {
            if page[i].on == on && j > 0 {
                assert(keyed(page, on, i)[j] == keyed(page, on, i + 1)[j - 1]);
            }
        }
    }
}

} // verus!
