//! The call that brings a link up, and the I frame that comes in turn.

use ax25sdl::{
    ActionStep, Ax25ActionVerb, Ax25Event, Ax25Guard, LoopRange, SubroutinePath, SubroutineSpec,
    TransitionSpec,
};
use vstd::prelude::*;

use super::chains;
use super::context;
use super::context::{Edit, Link};
use super::dispatch;
use super::dispatch::MAX_NESTING;
use super::drawn;
use super::establishing;
use super::event::Trigger;
use super::guard;
use super::session;
use super::session::{Drive, State};
use super::signal::{
    DataLinkSignalView, FrameSpecView, LinkMultiplexerSignal, Signal, UnnumberedKind,
};
use super::tables::Charts;
use super::timer;
use super::timer::{TimerId, TimerSnapshot};
use super::tx::{Machine, PendingFrame};
use super::verbs;
use super::verbs::Outcome;

verus! {

/// What a SABM that is accepted does.
pub open spec fn accepting_chain() -> Seq<Ax25ActionVerb> {
    seq![
        Ax25ActionVerb::FAssignP,
        Ax25ActionVerb::SetVersion20,
        Ax25ActionVerb::UA,
        Ax25ActionVerb::ClearExceptionConditions,
        Ax25ActionVerb::VSAssign0,
        Ax25ActionVerb::VAAssign0,
        Ax25ActionVerb::VRAssign0,
        Ax25ActionVerb::DLCONNECTIndication,
        Ax25ActionVerb::SRTAssignInitialDefault,
        Ax25ActionVerb::T1VAssign2TimesSRT,
        Ax25ActionVerb::StartT3,
        Ax25ActionVerb::RCAssign0,
    ]
}

/// What an I frame that comes in turn does before the stored frames behind it.
pub open spec fn arriving_chain() -> Seq<Ax25ActionVerb> {
    seq![
        Ax25ActionVerb::CheckIFrameAcknowledged,
        Ax25ActionVerb::VRAssignVRPlus1,
        Ax25ActionVerb::ClearRejectException,
        Ax25ActionVerb::DecrementSrejectExceptionIf0,
        Ax25ActionVerb::DLDATAIndication,
    ]
}

/// What it does behind them.
pub open spec fn asking_chain() -> Seq<Ax25ActionVerb> {
    seq![Ax25ActionVerb::LMSeizeRequest, Ax25ActionVerb::SetAcknowledgePending]
}

/// What delivers the stored frame that is next.
pub open spec fn retrieving_chain() -> Seq<Ax25ActionVerb> {
    seq![
        Ax25ActionVerb::RetrieveStoredVRIFrame,
        Ax25ActionVerb::DLDATAIndication,
        Ax25ActionVerb::VRAssignVRPlus1,
    ]
}

/// What a frame in turn that polls does behind the stored frames.
pub open spec fn polled_chain() -> Seq<Ax25ActionVerb> {
    seq![
        Ax25ActionVerb::FAssign1,
        Ax25ActionVerb::NRAssignVR,
        Ax25ActionVerb::RR,
        Ax25ActionVerb::ClearAcknowledgePending,
    ]
}

/// What an early frame does while others are asked for.
pub open spec fn asking_again_chain() -> Seq<Ax25ActionVerb> {
    seq![
        Ax25ActionVerb::CheckIFrameAcknowledged,
        Ax25ActionVerb::SaveContentsOfIFrame,
        Ax25ActionVerb::NRAssignNS,
        Ax25ActionVerb::FAssign0,
        Ax25ActionVerb::IncrementSrejectException,
        Ax25ActionVerb::SREJ,
    ]
}

/// What an early frame does when more than one is missing.
pub open spec fn going_back_chain() -> Seq<Ax25ActionVerb> {
    seq![
        Ax25ActionVerb::CheckIFrameAcknowledged,
        Ax25ActionVerb::SaveContentsOfIFrame,
        Ax25ActionVerb::DiscardContentsOfIFrame,
        Ax25ActionVerb::SetRejectException,
        Ax25ActionVerb::FAssignP,
        Ax25ActionVerb::NRAssignVR,
        Ax25ActionVerb::REJ,
        Ax25ActionVerb::ClearAcknowledgePending,
    ]
}

/// What an early frame does when one is missing.
pub open spec fn asking_once_chain() -> Seq<Ax25ActionVerb> {
    seq![
        Ax25ActionVerb::CheckIFrameAcknowledged,
        Ax25ActionVerb::SaveContentsOfIFrame,
        Ax25ActionVerb::NRAssignVR,
        Ax25ActionVerb::FAssign1,
        Ax25ActionVerb::IncrementSrejectException,
        Ax25ActionVerb::SREJ,
    ]
}

/// The actions deliver an I frame and, as long as the next one is stored, that one too.
pub open spec fn delivers(actions: Seq<ActionStep>, loops: Seq<LoopRange>) -> bool {
    &&& actions.len() >= 8
    &&& loops.len() == 1
    &&& loops[0].start == 5
    &&& loops[0].length == 3
    &&& loops[0].predicate == drawn::yes(Ax25Guard::VrIFrameStored)
    &&& !loops[0].test_at_end
    &&& forall|i: int| 0 <= i < 5 ==> actions[i].verb == #[trigger] arriving_chain()[i]
    &&& forall|i: int| 0 <= i < 3 ==> actions[5 + i].verb == #[trigger] retrieving_chain()[i]
}

/// The actions take an I frame in: they deliver it and what follows it, and then ask for the
/// channel.
pub open spec fn takes_in(actions: Seq<ActionStep>, loops: Seq<LoopRange>) -> bool {
    &&& delivers(actions, loops)
    &&& actions.len() == 10
    &&& forall|i: int| 0 <= i < 2 ==> actions[8 + i].verb == #[trigger] asking_chain()[i]
}

/// The verb keeps the books of what the peer has acknowledged: V(A), the timers, and the
/// round-trip time.
pub open spec fn keeps_a_book(verb: Ax25ActionVerb) -> bool {
    match verb {
        Ax25ActionVerb::VAAssignNR => true,
        Ax25ActionVerb::StartT1 => true,
        Ax25ActionVerb::StartT3 => true,
        Ax25ActionVerb::StopT1 => true,
        Ax25ActionVerb::StopT3 => true,
        Ax25ActionVerb::SRTAssign7SRT8PlusT18RemainingTimeOnT1WhenLastStopped8 => true,
        Ax25ActionVerb::NextT1Assign2TimesSRT => true,
        Ax25ActionVerb::NextT1AssignRCTimes025PlusSRTTimes2 => true,
        _ => false,
    }
}

/// The paths do nothing but keep those books, and may choose a new T1 if they `choose_t1`.
pub open spec fn keeps_books(paths: Seq<SubroutinePath>, choose_t1: bool) -> bool {
    forall|i: int|
        0 <= i < paths.len() ==> lists_books((#[trigger] paths[i]).actions@, choose_t1)
            && paths[i].loops@.len() == 0
}

/// The actions do nothing but keep those books.
pub open spec fn lists_books(actions: Seq<ActionStep>, choose_t1: bool) -> bool {
    forall|j: int|
        0 <= j < actions.len() ==> keeps_a_book((#[trigger] actions[j]).verb) || choose_t1
            && actions[j].verb == Ax25ActionVerb::SelectT1Value
}

/// Only the books differ.
pub open spec fn only_books(m: Machine, after: Machine) -> bool {
    &&& after.out == m.out
    &&& after.pending == m.pending
    &&& after.staged == m.staged
    &&& same_but_books(m.link, after.link)
}

/// Of a link, only the books differ.
pub open spec fn same_but_books(link: Link, after: Link) -> bool {
    &&& after.vr == link.vr
    &&& after.is_extended == link.is_extended
    &&& after.quirks == link.quirks
    &&& after.acknowledge_pending == link.acknowledge_pending
    &&& after.i_frame_queue == link.i_frame_queue
    &&& after.stored_received_i_frames == link.stored_received_i_frames
    &&& after.own_receiver_busy == link.own_receiver_busy
    &&& after.n1 == link.n1
}

proof fn lemma_book_edit(link: Link, edit: Edit)
    requires
        match edit {
            Edit::RoundTrip(_) => true,
            Edit::T1v(_) => true,
            Edit::Backoff(_) => true,
            Edit::T1Left(_) => true,
            _ => false,
        },
    ensures
        same_but_books(link, link.edited(edit)),
{
    reveal(Link::edited);
    reveal(Link::with_round_trip);
    reveal(Link::with_t1v);
    reveal(Link::with_backoff);
    reveal(Link::with_t1_left);
}

proof fn lemma_book(
    subs: Seq<SubroutineSpec>,
    depth: nat,
    verb: Ax25ActionVerb,
    m: Machine,
    t: Trigger,
)
    requires
        keeps_a_book(verb),
        t.frame is Some,
    ensures
        ({
            let o: Outcome = dispatch::run_verb(subs, depth, verb, m, t);
            o.fault is None && only_books(m, o.machine)
        }),
{
    match verb {
        Ax25ActionVerb::SRTAssign7SRT8PlusT18RemainingTimeOnT1WhenLastStopped8 => {
            lemma_book_edit(m.link, verbs::edit_of(verb, m.link)->0);
        },
        Ax25ActionVerb::NextT1Assign2TimesSRT => {
            lemma_book_edit(m.link, verbs::edit_of(verb, m.link)->0);
        },
        Ax25ActionVerb::NextT1AssignRCTimes025PlusSRTTimes2 => {
            lemma_book_edit(m.link, verbs::edit_of(verb, m.link)->0);
        },
        Ax25ActionVerb::StopT1 => {
            lemma_book_edit(m.link, Edit::T1Left(m.timers.remaining(TimerId::T1)));
        },
        Ax25ActionVerb::VAAssignNR => {
            reveal(Link::acknowledged);
        },
        _ => {},
    }
}

/// The subroutine that chooses a new T1.
spec fn t1_is_chosen(subs: Seq<SubroutineSpec>) -> bool {
    dispatch::routine_from(subs, "Select_T1"@, 0) matches Some(paths) && keeps_books(paths, false)
}

proof fn lemma_books_of_actions(
    subs: Seq<SubroutineSpec>,
    depth: nat,
    actions: Seq<ActionStep>,
    loops: Seq<LoopRange>,
    choose_t1: bool,
    k: int,
    m: Machine,
    t: Trigger,
)
    requires
        0 <= k,
        t.frame is Some,
        loops.len() == 0,
        lists_books(actions, choose_t1),
        choose_t1 ==> depth > 0 && t1_is_chosen(subs),
    ensures
        ({
            let o: Outcome = dispatch::run_actions(subs, depth, actions, loops, k, m, t);
            o.fault is None && only_books(m, o.machine)
        }),
    decreases depth, 0nat, actions.len() - k,
{
    if k < actions.len() {
        let verb: Ax25ActionVerb = actions[k].verb;
        let o: Outcome = dispatch::run_verb(subs, depth, verb, m, t);
        if keeps_a_book(verb) {
            lemma_book(subs, depth, verb, m, t);
        } else {
            lemma_books_of_routine(subs, (depth - 1) as nat, "Select_T1"@, false, m, t);
        }
        lemma_books_of_actions(subs, depth, actions, loops, choose_t1, k + 1, o.machine, t);
    }
}

proof fn lemma_some_path(paths: Seq<SubroutinePath>, m: Machine, t: Trigger, i: int)
    requires
        0 <= i,
    ensures
        dispatch::path_from(paths, m, t, i) matches Some(path) ==> exists|j: int|
            0 <= j < paths.len() && #[trigger] paths[j] == path,
    decreases paths.len() - i,
{
    if i < paths.len() {
        lemma_some_path(paths, m, t, i + 1);
    }
}

proof fn lemma_books_of_routine(
    subs: Seq<SubroutineSpec>,
    depth: nat,
    name: Seq<char>,
    choose_t1: bool,
    m: Machine,
    t: Trigger,
)
    requires
        t.frame is Some,
        dispatch::routine_from(subs, name, 0) matches Some(paths) && keeps_books(paths, choose_t1),
        choose_t1 ==> depth > 0 && t1_is_chosen(subs),
    ensures
        ({
            let o: Outcome = dispatch::run_routine(subs, depth, name, m, t);
            o.fault is None && only_books(m, o.machine)
        }),
    decreases depth, 1nat, 0int,
{
    let paths: Seq<SubroutinePath> = dispatch::routine_from(subs, name, 0)->0;
    lemma_some_path(paths, m, t, 0);
    if let Some(path) = dispatch::path_from(paths, m, t, 0) {
        lemma_books_of_actions(subs, depth, path.actions@, path.loops@, choose_t1, 0, m, t);
    }
}

/// An I frame comes in turn: a command that fits and acknowledges within the window, to a
/// link that is not busy and owes no acknowledgement, with N(S) = V(R) and P = 0, while the
/// frame behind it is not stored.
pub open spec fn in_turn(link: Link, t: Trigger) -> bool {
    &&& t.on == Ax25Event::IReceived
    &&& t.frame matches Some(f) && f.is_command && (f.info.len() as u32) <= link.n1
        && context::steps_ahead(link.va, f.nr, link.modulus()) <= link.outstanding() && f.ns
        == link.vr && !f.poll_final && f.pid is Some
    &&& !link.own_receiver_busy
    &&& !link.acknowledge_pending
    &&& !link.stored_received_i_frames.contains_key(link.next_seq(link.vr))
}

/// What the frame that comes in turn brings the user.
pub open spec fn delivery(t: Trigger) -> Signal {
    Signal::Upward(DataLinkSignalView::DataIndication(t.frame->0.pid->0, t.frame->0.info))
}

/// The link after a frame came in turn: V(R) has advanced, and an acknowledgement is owed.
pub open spec fn taken_in(link: Link, after: Link) -> bool {
    &&& after.vr == link.next_seq(link.vr)
    &&& after.acknowledge_pending
    &&& after.is_extended == link.is_extended
    &&& after.i_frame_queue == link.i_frame_queue
    &&& after.stored_received_i_frames == link.stored_received_i_frames
    &&& after.own_receiver_busy == link.own_receiver_busy
    &&& after.n1 == link.n1
}

/// What taking an acknowledgement does.
pub proof fn lemma_checked(subs: Seq<SubroutineSpec>, depth: nat, m: Machine, t: Trigger) -> (after:
    Machine)
    requires
        depth > 1,
        t.frame is Some,
        drawn::draws_routines(subs),
    ensures
        only_books(m, after),
        chains::leads(subs, depth, Ax25ActionVerb::CheckIFrameAcknowledged, t, m, after),
{
    let inner: nat = (depth - 1) as nat;
    let name: Seq<char> = "Check_I_Frame_Acknowledged"@;
    lemma_books_of_routine(subs, inner, name, true, m, t);
    let after: Machine = dispatch::run_routine(subs, inner, name, m, t).machine;
    chains::lemma_call(
        subs,
        depth,
        Ax25ActionVerb::CheckIFrameAcknowledged,
        t,
        m,
        after,
    );
    after
}

/// Which fields the rest of taking a frame in leaves alone.
pub proof fn lemma_arrival_edit(link: Link, edit: Edit)
    requires
        match edit {
            Edit::Vr(_) => true,
            Edit::Reject(_) => true,
            Edit::Sreject(_, _) => true,
            Edit::AckPending(_) => true,
            _ => false,
        },
    ensures
        ({
            let after: Link = link.edited(edit);
            &&& after.vr == if edit is Vr {
                edit->Vr_0
            } else {
                link.vr
            }
            &&& after.acknowledge_pending == if edit is AckPending {
                edit->AckPending_0
            } else {
                link.acknowledge_pending
            }
            &&& after.is_extended == link.is_extended
            &&& after.quirks == link.quirks
            &&& after.i_frame_queue == link.i_frame_queue
            &&& after.stored_received_i_frames == link.stored_received_i_frames
            &&& after.own_receiver_busy == link.own_receiver_busy
            &&& after.n1 == link.n1
        }),
{
    reveal(Link::edited);
    reveal(Link::with_vr);
    reveal(Link::with_reject);
    reveal(Link::with_sreject);
    reveal(Link::with_ack_pending);
}

/// What `DecrementSrejectExceptionIf0` does: it changes nothing but the count of SREJs.
proof fn lemma_decrement(subs: Seq<SubroutineSpec>, depth: nat, m: Machine, t: Trigger) -> (after:
    Machine)
    ensures
        after == m.with_link(after.link),
        after.link.vr == m.link.vr,
        same_but_books(m.link, after.link),
        chains::leads(subs, depth, Ax25ActionVerb::DecrementSrejectExceptionIf0, t, m, after),
{
    let verb: Ax25ActionVerb = Ax25ActionVerb::DecrementSrejectExceptionIf0;
    let after: Machine = verbs::primitive_step(verb, m, t).machine;
    if let Some(edit) = verbs::edit_of(verb, m.link) {
        lemma_arrival_edit(m.link, edit);
    }
    chains::lemma_primitive(subs, depth, verb, t, m, after);
    after
}

/// What the first part of taking a frame in does.
pub proof fn lemma_arriving(
    subs: Seq<SubroutineSpec>,
    depth: nat,
    actions: Seq<ActionStep>,
    loops: Seq<LoopRange>,
    m: Machine,
    t: Trigger,
) -> (after: Machine)
    requires
        depth > 1,
        t.frame matches Some(f) && f.pid is Some,
        m.staged is None,
        delivers(actions, loops),
        drawn::draws_routines(subs),
    ensures
        dispatch::run_actions(subs, depth, actions, loops, 0, m, t) == dispatch::run_actions(
            subs,
            depth,
            actions,
            loops,
            5,
            after,
            t,
        ),
        after.out == m.out.push(delivery(t)),
        after.staged is None,
        after.link.vr == m.link.next_seq(m.link.vr),
        same_but_books(m.link.edited(Edit::Vr(m.link.next_seq(m.link.vr))), after.link),
{
    let chain: Seq<Ax25ActionVerb> = arriving_chain();
    let checked: Machine = lemma_checked(subs, depth, m, t);
    let forward: Edit = Edit::Vr(checked.link.next_seq(checked.link.vr));
    let advanced: Machine = checked.with_link(checked.link.edited(forward));
    let righted: Machine = advanced.with_link(advanced.link.edited(Edit::Reject(false)));
    chains::lemma_edit(subs, depth, chain[1], t, checked, forward);
    chains::lemma_edit(subs, depth, chain[2], t, advanced, Edit::Reject(false));
    let counted: Machine = lemma_decrement(subs, depth, righted, t);
    let delivered: Machine = counted.emit(delivery(t));
    chains::lemma_primitive(subs, depth, chain[4], t, counted, delivered);
    lemma_arrival_edit(m.link, forward);
    lemma_arrival_edit(checked.link, forward);
    lemma_arrival_edit(advanced.link, Edit::Reject(false));
    let way: Seq<Machine> = seq![m, checked, advanced, righted, counted, delivered];
    assert forall|i: int| 0 <= i < chain.len() implies chains::leads(
        subs,
        depth,
        #[trigger] chain[i],
        t,
        way[i],
        way[i + 1],
    ) by {
        assert(i == 0 || i == 1 || i == 2 || i == 3 || i == 4);
    }
    lemma_no_loop_before(actions, loops);
    chains::lemma_part(subs, depth, actions, loops, 0, chain, t, way);
    delivered
}

/// The one loop of taking a frame in starts behind the delivery.
pub proof fn lemma_no_loop_before(actions: Seq<ActionStep>, loops: Seq<LoopRange>)
    requires
        delivers(actions, loops),
    ensures
        chains::lists_from(actions, loops, 0, arriving_chain()),
        takes_in(actions, loops) ==> chains::lists_from(actions, loops, 8, asking_chain()),
        dispatch::loop_from(loops, 5, 0) == Some(loops[0]),
{
    reveal_with_fuel(dispatch::loop_from, 2);
    assert forall|i: int| 0 <= i < arriving_chain().len() implies actions[0 + i].verb == (
    #[trigger] arriving_chain()[i]) && dispatch::loop_from(loops, 0 + i, 0) is None by {}
}

/// What the last part of taking a frame in does.
pub proof fn lemma_asking(
    subs: Seq<SubroutineSpec>,
    depth: nat,
    actions: Seq<ActionStep>,
    loops: Seq<LoopRange>,
    m: Machine,
    t: Trigger,
)
    requires
        takes_in(actions, loops),
    ensures
        dispatch::run_actions(subs, depth, actions, loops, 8, m, t) == verbs::done(
            m.emit(Signal::LinkMux(LinkMultiplexerSignal::SeizeRequest)).with_link(
                m.link.edited(Edit::AckPending(true)),
            ),
        ),
{
    let chain: Seq<Ax25ActionVerb> = asking_chain();
    let asked: Machine = m.emit(Signal::LinkMux(LinkMultiplexerSignal::SeizeRequest));
    let owing: Machine = asked.with_link(m.link.edited(Edit::AckPending(true)));
    let way: Seq<Machine> = seq![m, asked, owing];
    chains::lemma_primitive(subs, depth, chain[0], t, m, asked);
    chains::lemma_edit(subs, depth, chain[1], t, asked, Edit::AckPending(true));
    assert forall|i: int| 0 <= i < chain.len() implies chains::leads(
        subs,
        depth,
        #[trigger] chain[i],
        t,
        way[i],
        way[i + 1],
    ) by {
        assert(i == 0 || i == 1);
    }
    lemma_no_loop_before(actions, loops);
    chains::lemma_part(subs, depth, actions, loops, 8, chain, t, way);
}

/// The transition that a frame in turn finds.
proof fn lemma_frame_match(page: Seq<TransitionSpec>, link: Link, timers: TimerSnapshot, t: Trigger)
    requires
        drawn::draws_up(page),
        in_turn(link, t),
    ensures
        session::first_match(page, link, timers, t, 0) matches Some(tr) && takes_in(
            tr.actions@,
            tr.loops@,
        ) && tr.next@ == State::Connected.label() && tr.on == t.on,
{
    let frames: Seq<TransitionSpec> = drawn::keyed(page, t.on, 0);
    drawn::lemma_match_is_keyed(page, link, timers, t, 0);
    drawn::lemma_keyed_on(page, t.on, 0);
    reveal_with_fuel(drawn::first_open, 6);
    assert(!guard::guard_holds(frames[0].guard@, link, timers, t)) by {
        assert(!guard::term_holds(frames[0].guard@[1], link, timers, t));
    }
    assert(!guard::guard_holds(frames[1].guard@, link, timers, t)) by {
        assert(!guard::term_holds(frames[1].guard@[1], link, timers, t));
    }
    assert(!guard::guard_holds(frames[2].guard@, link, timers, t)) by {
        assert(!guard::term_holds(frames[2].guard@[2], link, timers, t));
    }
    assert(!guard::guard_holds(frames[3].guard@, link, timers, t)) by {
        assert(!guard::term_holds(frames[3].guard@[2], link, timers, t));
    }
    assert(guard::guard_holds(frames[4].guard@, link, timers, t));
}

/// An I frame that comes in turn on a link that is up is delivered, asks for the channel,
/// and leaves an acknowledgement owed.
pub proof fn law_a_frame_in_turn_asks_for_the_channel(
    charts: Charts,
    link: Link,
    timers: TimerSnapshot,
    t: Trigger,
)
    requires
        drawn::drawn(charts),
        in_turn(link, t),
    ensures
        ({
            let d: Drive = session::dispatched(charts, State::Connected, link, timers, t);
            &&& d.fault is None
            &&& d.state == State::Connected
            &&& taken_in(link, d.link)
            &&& d.out == seq![
                delivery(t),
                Signal::LinkMux(LinkMultiplexerSignal::SeizeRequest),
            ]
        }),
{
    reveal(drawn::drawn);
    let page: Seq<TransitionSpec> = charts.page(State::Connected);
    let subs: Seq<SubroutineSpec> = charts.subroutines;
    let depth: nat = MAX_NESTING as nat;
    lemma_frame_match(page, link, timers, t);
    let tr: TransitionSpec = session::first_match(page, link, timers, t, 0)->0;
    assert(session::degraded(tr, page, link) == tr);
    assert(session::prepared(link, tr, t.on) == link);
    let start: Machine = Machine::start(link, timers);
    let come: Machine = lemma_arriving(subs, depth, tr.actions@, tr.loops@, start, t);
    lemma_arrival_edit(link, Edit::Vr(link.next_seq(link.vr)));
    lemma_arrival_edit(come.link, Edit::AckPending(true));
    lemma_no_loop_before(tr.actions@, tr.loops@);
    assert(dispatch::run_while(subs, depth, tr.actions@, tr.loops@[0], 0, come, t) == verbs::done(
        come,
    ));
    assert(dispatch::run_actions(subs, depth, tr.actions@, tr.loops@, 5, come, t)
        == dispatch::run_actions(subs, depth, tr.actions@, tr.loops@, 8, come, t));
    lemma_asking(subs, depth, tr.actions@, tr.loops@, come, t);
    session::law_state_names_round_trip(State::Connected);
    lemma_labels_differ();
}

/// The two states that a connect request tells apart have different names.
proof fn lemma_labels_differ()
    ensures
        State::Connected.label() != State::AwaitingConnection.label(),
{
    session::law_state_names_round_trip(State::Connected);
    session::law_state_names_round_trip(State::AwaitingConnection);
}

/// The link of a call, cleared of what an earlier connection left.
pub open spec fn accepting(link: Link) -> Link {
    establishing::clearing(link.edited(Edit::Extended(false)))[6]
}

/// The link that a call has brought up.
pub open spec fn accepted(link: Link) -> Link {
    let counted: Link = accepting(link).edited(Edit::Vs(0)).edited(Edit::Va(0)).edited(Edit::Vr(0));
    let smoothed: Link = counted.edited(Edit::Srt(verbs::INITIAL_SRT_MS));
    smoothed.edited(Edit::T1v(timer::saturated(smoothed.srt_ms * 2))).edited(Edit::Rc(0))
}

/// A UA response with the given F bit.
pub open spec fn ua(pf: bool) -> FrameSpecView {
    FrameSpecView::Unnumbered { kind: UnnumberedKind::Ua, is_command: false, pf, expedited: false }
}

/// What a call finds and what it leaves: the modulus is 8, nothing is outstanding, owed or
/// busy, and what is stored and how long a frame may be stay as they were.
pub open spec fn brought_up(link: Link, after: Link) -> bool {
    &&& !after.is_extended
    &&& after.vs == 0
    &&& after.va == 0
    &&& after.vr == 0
    &&& !after.own_receiver_busy
    &&& !after.acknowledge_pending
    &&& after.i_frame_queue.len() == 0
    &&& after.n1 == link.n1
    &&& after.stored_received_i_frames == link.stored_received_i_frames
}

proof fn lemma_accepted(link: Link)
    ensures
        brought_up(link, accepted(link)),
{
    let plain: Link = link.edited(Edit::Extended(false));
    assert(plain.n1 == link.n1 && !plain.is_extended && plain.stored_received_i_frames
        == link.stored_received_i_frames) by {
        reveal(Link::edited);
        reveal(Link::with_extended);
    }
    establishing::lemma_clearing_leaves(plain);
    reveal(Link::edited);
    reveal(Link::with_vs);
    reveal(Link::with_va);
    reveal(Link::with_vr);
    reveal(Link::with_srt);
    reveal(Link::with_t1v);
    reveal(Link::with_rc);
}

/// The steps of a call up to the numbers.
spec fn answering(m: Machine, pf: bool) -> Seq<Machine> {
    let a: Machine = m.with_pending(PendingFrame { pf: Some(pf), ..m.pending });
    let b: Machine = a.with_link(a.link.edited(Edit::Extended(false)));
    let c: Machine = verbs::send_unnumbered(b, UnnumberedKind::Ua, false, None, false);
    let d: Machine = c.with_link(establishing::clearing(c.link)[6]);
    seq![m, a, b, c, d]
}

/// The steps of a call from the numbers on.
spec fn starting(m: Machine) -> Seq<Machine> {
    let a: Machine = m.with_link(m.link.edited(Edit::Vs(0)));
    let b: Machine = a.with_link(a.link.edited(Edit::Va(0)));
    let c: Machine = b.with_link(b.link.edited(Edit::Vr(0)));
    let d: Machine = c.emit(Signal::Upward(DataLinkSignalView::ConnectIndication));
    let e: Machine = d.with_link(d.link.edited(Edit::Srt(verbs::INITIAL_SRT_MS)));
    let f: Machine = e.with_link(e.link.edited(Edit::T1v(timer::saturated(e.link.srt_ms * 2))));
    let g: Machine = f.with_timers(f.timers.with(TimerId::T3, Some(verbs::T3_MS)));
    let h: Machine = g.with_link(g.link.edited(Edit::Rc(0)));
    seq![m, a, b, c, d, e, f, g, h]
}

/// What the verbs of a call up to the numbers do.
proof fn lemma_answering(
    subs: Seq<SubroutineSpec>,
    depth: nat,
    actions: Seq<ActionStep>,
    loops: Seq<LoopRange>,
    m: Machine,
    t: Trigger,
)
    requires
        depth > 0,
        t.frame is Some,
        chains::lists(actions, loops, accepting_chain()),
        drawn::draws_routines(subs),
    ensures
        dispatch::run_actions(subs, depth, actions, loops, 0, m, t) == dispatch::run_actions(
            subs,
            depth,
            actions,
            loops,
            4,
            answering(m, t.frame->0.poll_final)[4],
            t,
        ),
{
    let whole: Seq<Ax25ActionVerb> = accepting_chain();
    let chain: Seq<Ax25ActionVerb> = whole.subrange(0, 4);
    let way: Seq<Machine> = answering(m, t.frame->0.poll_final);
    chains::lemma_primitive(subs, depth, whole[0], t, way[0], way[1]);
    chains::lemma_edit(subs, depth, whole[1], t, way[1], Edit::Extended(false));
    chains::lemma_primitive(subs, depth, whole[2], t, way[2], way[3]);
    establishing::lemma_clears(subs, way[3], t);
    establishing::lemma_clearing(subs, depth, way[3], t);
    assert forall|i: int| 0 <= i < chain.len() implies chains::leads(
        subs,
        depth,
        #[trigger] chain[i],
        t,
        way[i],
        way[i + 1],
    ) by {
        assert(chain[i] == whole[i]);
        assert(i == 0 || i == 1 || i == 2 || i == 3);
    }
    assert forall|i: int| 0 <= i < chain.len() implies actions[0 + i].verb == (#[trigger] chain[i])
        && dispatch::loop_from(loops, 0 + i, 0) is None by {
        assert(chain[i] == whole[i]);
    }
    chains::lemma_part(subs, depth, actions, loops, 0, chain, t, way);
}

/// What the verbs of a call from the numbers on do.
#[verifier::rlimit(30)]
proof fn lemma_starting(
    subs: Seq<SubroutineSpec>,
    depth: nat,
    actions: Seq<ActionStep>,
    loops: Seq<LoopRange>,
    m: Machine,
    t: Trigger,
)
    requires
        chains::lists(actions, loops, accepting_chain()),
    ensures
        dispatch::run_actions(subs, depth, actions, loops, 4, m, t) == verbs::done(starting(m)[8]),
{
    let whole: Seq<Ax25ActionVerb> = accepting_chain();
    let chain: Seq<Ax25ActionVerb> = whole.subrange(4, 12);
    let way: Seq<Machine> = starting(m);
    chains::lemma_edit(subs, depth, whole[4], t, way[0], Edit::Vs(0));
    chains::lemma_edit(subs, depth, whole[5], t, way[1], Edit::Va(0));
    chains::lemma_edit(subs, depth, whole[6], t, way[2], Edit::Vr(0));
    chains::lemma_primitive(subs, depth, whole[7], t, way[3], way[4]);
    chains::lemma_edit(subs, depth, whole[8], t, way[4], Edit::Srt(verbs::INITIAL_SRT_MS));
    chains::lemma_edit(
        subs,
        depth,
        whole[9],
        t,
        way[5],
        Edit::T1v(timer::saturated(way[5].link.srt_ms * 2)),
    );
    chains::lemma_primitive(subs, depth, whole[10], t, way[6], way[7]);
    chains::lemma_edit(subs, depth, whole[11], t, way[7], Edit::Rc(0));
    assert forall|i: int| 0 <= i < chain.len() implies chains::leads(
        subs,
        depth,
        #[trigger] chain[i],
        t,
        way[i],
        way[i + 1],
    ) by {
        assert(chain[i] == whole[4 + i]);
        assert(i == 0 || i == 1 || i == 2 || i == 3 || i == 4 || i == 5 || i == 6 || i == 7);
    }
    assert forall|i: int| 0 <= i < chain.len() implies actions[4 + i].verb == (#[trigger] chain[i])
        && dispatch::loop_from(loops, 4 + i, 0) is None by {
        assert(chain[i] == whole[4 + i]);
    }
    chains::lemma_part(subs, depth, actions, loops, 4, chain, t, way);
}

/// The transition that a call finds where calls are accepted.
proof fn lemma_call_match(page: Seq<TransitionSpec>, link: Link, timers: TimerSnapshot, t: Trigger)
    requires
        drawn::draws_down(page),
        t.on == Ax25Event::SABMReceived,
        link.accept_incoming,
    ensures
        session::first_match(page, link, timers, t, 0) matches Some(tr) && chains::lists(
            tr.actions@,
            tr.loops@,
            accepting_chain(),
        ) && tr.next@ == State::Connected.label() && tr.on == t.on,
{
    let calls: Seq<TransitionSpec> = drawn::keyed(page, t.on, 0);
    drawn::lemma_match_is_keyed(page, link, timers, t, 0);
    drawn::lemma_keyed_on(page, t.on, 0);
    reveal_with_fuel(drawn::first_open, 3);
    assert(!guard::guard_holds(calls[0].guard@, link, timers, t)) by {
        assert(!guard::term_holds(calls[0].guard@[0], link, timers, t));
    }
    assert(guard::guard_holds(calls[1].guard@, link, timers, t));
}

/// A SABM to a node that accepts calls is answered by a UA whose F bit is its P bit, brings
/// the link up with modulo-8 numbers at zero, and is told to the user.
#[verifier::rlimit(30)]
pub proof fn law_a_call_is_accepted(charts: Charts, link: Link, timers: TimerSnapshot, t: Trigger)
    requires
        drawn::drawn(charts),
        t.on == Ax25Event::SABMReceived,
        t.frame is Some,
        link.accept_incoming,
    ensures
        ({
            let d: Drive = session::driven(charts, State::Disconnected, link, timers, t);
            &&& d.fault is None
            &&& d.state == State::Connected
            &&& brought_up(link, d.link)
            &&& d.out == seq![
                Signal::Frame(ua(t.frame->0.poll_final)),
                Signal::Upward(DataLinkSignalView::ConnectIndication),
            ]
        }),
{
    reveal(drawn::drawn);
    let page: Seq<TransitionSpec> = charts.page(State::Disconnected);
    let subs: Seq<SubroutineSpec> = charts.subroutines;
    let depth: nat = MAX_NESTING as nat;
    lemma_call_match(page, link, timers, t);
    let tr: TransitionSpec = session::first_match(page, link, timers, t, 0)->0;
    assert(session::degraded(tr, page, link) == tr);
    assert(session::prepared(link, tr, t.on) == link);
    let start: Machine = Machine::start(link, timers);
    let cleared: Machine = answering(start, t.frame->0.poll_final)[4];
    lemma_answering(subs, depth, tr.actions@, tr.loops@, start, t);
    lemma_starting(subs, depth, tr.actions@, tr.loops@, cleared, t);
    lemma_accepted(link);
    assert(starting(cleared)[8].link == accepted(link));
    session::law_state_names_round_trip(State::Connected);
    lemma_labels_differ();
    assert(starting(cleared)[8].out =~= seq![
        Signal::Frame(ua(t.frame->0.poll_final)),
        Signal::Upward(DataLinkSignalView::ConnectIndication),
    ]);
}

} // verus!
