//! The connect request of a modulo-8 link.

use ax25sdl::{Ax25ActionVerb, Ax25Event, SubroutinePath, SubroutineSpec, TransitionSpec};
use vstd::prelude::*;

use super::chains;
use super::context::{Edit, Link};
use super::dispatch;
use super::dispatch::MAX_NESTING;
use super::drawn;
use super::event::Trigger;
use super::guard;
use super::session;
use super::session::{Drive, State};
use super::signal::{FrameSpecView, Signal, UnnumberedKind};
use super::tables::Charts;
use super::timer;
use super::timer::{TimerId, TimerSnapshot};
use super::tx::{Machine, PendingFrame};
use super::verbs;

verus! {

/// What a connect request does.
pub open spec fn dialling_chain() -> Seq<Ax25ActionVerb> {
    seq![
        Ax25ActionVerb::SRTAssignInitialDefault,
        Ax25ActionVerb::T1VAssign2TimesSRT,
        Ax25ActionVerb::EstablishDataLink,
        Ax25ActionVerb::SetLayer3Initiated,
    ]
}

/// What `Establish_Data_Link` does on a modulo-8 link.
pub open spec fn establishing_chain() -> Seq<Ax25ActionVerb> {
    seq![
        Ax25ActionVerb::ClearExceptionConditions,
        Ax25ActionVerb::RCAssign1,
        Ax25ActionVerb::PAssign1,
        Ax25ActionVerb::SABM,
        Ax25ActionVerb::StopT3,
        Ax25ActionVerb::StartT1,
    ]
}

/// What `Clear_Exception_Conditions` does.
pub open spec fn clearing_chain() -> Seq<Ax25ActionVerb> {
    seq![
        Ax25ActionVerb::ClearPeerReceiverBusy,
        Ax25ActionVerb::ClearOwnReceiverBusy,
        Ax25ActionVerb::ClearRejectCondition,
        Ax25ActionVerb::ClearSrejectCondition,
        Ax25ActionVerb::ClearAcknowledgePending,
        Ax25ActionVerb::DiscardIQueueEntries,
    ]
}

/// The link of a connect request, its timers at their defaults.
pub open spec fn dialling(link: Link) -> Link {
    let smoothed: Link = link.edited(Edit::Srt(verbs::INITIAL_SRT_MS));
    smoothed.edited(Edit::T1v(timer::saturated(smoothed.srt_ms * 2)))
}

/// The tables answer a connect request by establishing the link with a SABM.
pub open spec fn establishes(
    charts: Charts,
    link: Link,
    timers: TimerSnapshot,
    t: Trigger,
) -> bool {
    let m: Machine = Machine::start(dialling(link), timers);
    &&& t.on == Ax25Event::DLCONNECTRequest
    &&& session::first_match(charts.page(State::Disconnected), link, timers, t, 0) matches Some(tr)
        && chains::lists(tr.actions@, tr.loops@, dialling_chain()) && tr.on == t.on && tr.next@
        == State::AwaitingConnection.label()
    &&& chains::goes(charts.subroutines, "Establish_Data_Link"@, m, t, establishing_chain())
    &&& chains::goes(charts.subroutines, "Clear_Exception_Conditions"@, m, t, clearing_chain())
}

/// A SABM with P = 1.
pub open spec fn sabm() -> FrameSpecView {
    FrameSpecView::Unnumbered {
        kind: UnnumberedKind::Sabm,
        is_command: true,
        pf: true,
        expedited: false,
    }
}

/// The steps of clearing the exception conditions.
pub open spec fn clearing(link: Link) -> Seq<Link> {
    let a: Link = link.edited(Edit::PeerBusy(false));
    let b: Link = a.edited(Edit::OwnBusy(false));
    let c: Link = b.edited(Edit::Reject(false));
    let d: Link = c.edited(Edit::Sreject(0, false));
    let e: Link = d.edited(Edit::AckPending(false));
    seq![link, a, b, c, d, e, e.with_queue(Seq::empty())]
}

/// What the changes of a connect request leave alone.
proof fn lemma_untouched(link: Link, edit: Edit)
    requires
        match edit {
            Edit::Srt(_) => true,
            Edit::T1v(_) => true,
            Edit::PeerBusy(_) => true,
            Edit::OwnBusy(_) => true,
            Edit::Reject(_) => true,
            Edit::Sreject(_, _) => true,
            Edit::AckPending(_) => true,
            Edit::Rc(_) => true,
            Edit::Layer3(_) => true,
            _ => false,
        },
    ensures
        ({
            let after: Link = link.edited(edit);
            &&& after.is_extended == link.is_extended
            &&& after.srej_enabled == link.srej_enabled
            &&& after.implicit_reject == link.implicit_reject
            &&& after.i_frame_queue == link.i_frame_queue
            &&& after.n1 == link.n1
            &&& after.stored_received_i_frames == link.stored_received_i_frames
            &&& after.own_receiver_busy == if edit is OwnBusy {
                edit->OwnBusy_0
            } else {
                link.own_receiver_busy
            }
            &&& after.acknowledge_pending == if edit is AckPending {
                edit->AckPending_0
            } else {
                link.acknowledge_pending
            }
        }),
{
    reveal(Link::edited);
    reveal(Link::with_srt);
    reveal(Link::with_t1v);
    reveal(Link::with_peer_busy);
    reveal(Link::with_own_busy);
    reveal(Link::with_reject);
    reveal(Link::with_sreject);
    reveal(Link::with_ack_pending);
    reveal(Link::with_rc);
    reveal(Link::with_layer3);
}

/// Clearing the exception conditions empties the queue, ends what is busy here and what is
/// unacknowledged, and leaves the modulus, the reject scheme and what is stored alone.
pub proof fn lemma_clearing_leaves(link: Link)
    ensures
        ({
            let after: Link = clearing(link)[6];
            &&& !after.own_receiver_busy
            &&& !after.acknowledge_pending
            &&& after.n1 == link.n1
            &&& after.stored_received_i_frames == link.stored_received_i_frames
            &&& after.is_extended == link.is_extended
            &&& after.srej_enabled == link.srej_enabled
            &&& after.implicit_reject == link.implicit_reject
            &&& after.i_frame_queue.len() == 0
        }),
{
    let steps: Seq<Link> = clearing(link);
    lemma_untouched(steps[0], Edit::PeerBusy(false));
    lemma_untouched(steps[1], Edit::OwnBusy(false));
    lemma_untouched(steps[2], Edit::Reject(false));
    lemma_untouched(steps[3], Edit::Sreject(0, false));
    lemma_untouched(steps[4], Edit::AckPending(false));
    reveal(Link::with_queue);
}

/// What the call of `Clear_Exception_Conditions` does.
pub proof fn lemma_clearing(subs: Seq<SubroutineSpec>, depth: nat, m: Machine, t: Trigger)
    requires
        depth > 0,
        chains::goes(subs, "Clear_Exception_Conditions"@, m, t, clearing_chain()),
    ensures
        chains::leads(
            subs,
            depth,
            Ax25ActionVerb::ClearExceptionConditions,
            t,
            m,
            m.with_link(clearing(m.link)[6]),
        ),
{
    let inner: nat = (depth - 1) as nat;
    let steps: Seq<Link> = clearing(m.link);
    let chain: Seq<Ax25ActionVerb> = clearing_chain();
    let way: Seq<Machine> = Seq::new(7, |i: int| m.with_link(steps[i]));
    chains::lemma_edit(subs, inner, chain[0], t, way[0], Edit::PeerBusy(false));
    chains::lemma_edit(subs, inner, chain[1], t, way[1], Edit::OwnBusy(false));
    chains::lemma_edit(subs, inner, chain[2], t, way[2], Edit::Reject(false));
    chains::lemma_edit(subs, inner, chain[3], t, way[3], Edit::Sreject(0, false));
    chains::lemma_edit(subs, inner, chain[4], t, way[4], Edit::AckPending(false));
    chains::lemma_primitive(subs, inner, chain[5], t, way[5], way[6]);
    assert forall|i: int| 0 <= i < chain.len() implies chains::leads(
        subs,
        inner,
        #[trigger] chain[i],
        t,
        way[i],
        way[i + 1],
    ) by {
        assert(i == 0 || i == 1 || i == 2 || i == 3 || i == 4 || i == 5);
    }
    assert(way[0] == m);
    chains::lemma_routine(subs, inner, "Clear_Exception_Conditions"@, chain, t, way);
    chains::lemma_call(
        subs,
        depth,
        Ax25ActionVerb::ClearExceptionConditions,
        t,
        m,
        m.with_link(steps[6]),
    );
}

/// The path that clears the exception conditions is open to every machine.
pub proof fn lemma_clears(subs: Seq<SubroutineSpec>, m: Machine, t: Trigger)
    requires
        drawn::draws_routines(subs),
    ensures
        chains::goes(subs, "Clear_Exception_Conditions"@, m, t, clearing_chain()),
{
    reveal_with_fuel(dispatch::path_from, 2);
}

/// The steps of establishing the link.
spec fn establishing(m: Machine) -> Seq<Machine> {
    let a: Machine = m.with_link(clearing(m.link)[6]);
    let b: Machine = a.with_link(a.link.edited(Edit::Rc(1)));
    let c: Machine = b.with_pending(PendingFrame { pf: Some(true), ..b.pending });
    let d: Machine = verbs::send_unnumbered(c, UnnumberedKind::Sabm, true, Some(true), false);
    let e: Machine = d.with_timers(d.timers.with(TimerId::T3, None));
    let f: Machine = e.with_timers(e.timers.with(TimerId::T1, Some(e.link.t1v_ms)));
    seq![m, a, b, c, d, e, f]
}

/// The next frame polls.
proof fn lemma_poll(subs: Seq<SubroutineSpec>, depth: nat, m: Machine, t: Trigger)
    requires
        t.on == Ax25Event::DLCONNECTRequest,
    ensures
        chains::leads(
            subs,
            depth,
            Ax25ActionVerb::PAssign1,
            t,
            m,
            m.with_pending(PendingFrame { pf: Some(true), ..m.pending }),
        ),
{
    chains::lemma_primitive(
        subs,
        depth,
        Ax25ActionVerb::PAssign1,
        t,
        m,
        m.with_pending(PendingFrame { pf: Some(true), ..m.pending }),
    );
}

/// A SABM goes out.
proof fn lemma_sabm(subs: Seq<SubroutineSpec>, depth: nat, m: Machine, t: Trigger)
    requires
        t.on == Ax25Event::DLCONNECTRequest,
    ensures
        chains::leads(
            subs,
            depth,
            Ax25ActionVerb::SABM,
            t,
            m,
            verbs::send_unnumbered(m, UnnumberedKind::Sabm, true, Some(true), false),
        ),
{
    chains::lemma_primitive(
        subs,
        depth,
        Ax25ActionVerb::SABM,
        t,
        m,
        verbs::send_unnumbered(m, UnnumberedKind::Sabm, true, Some(true), false),
    );
}

/// T3 stops.
proof fn lemma_stop_t3(subs: Seq<SubroutineSpec>, depth: nat, m: Machine, t: Trigger)
    requires
        t.on == Ax25Event::DLCONNECTRequest,
    ensures
        chains::leads(
            subs,
            depth,
            Ax25ActionVerb::StopT3,
            t,
            m,
            m.with_timers(m.timers.with(TimerId::T3, None)),
        ),
{
    chains::lemma_primitive(
        subs,
        depth,
        Ax25ActionVerb::StopT3,
        t,
        m,
        m.with_timers(m.timers.with(TimerId::T3, None)),
    );
}

/// T1 starts.
proof fn lemma_start_t1(subs: Seq<SubroutineSpec>, depth: nat, m: Machine, t: Trigger)
    requires
        t.on == Ax25Event::DLCONNECTRequest,
    ensures
        chains::leads(
            subs,
            depth,
            Ax25ActionVerb::StartT1,
            t,
            m,
            m.with_timers(m.timers.with(TimerId::T1, Some(m.link.t1v_ms))),
        ),
{
    chains::lemma_primitive(
        subs,
        depth,
        Ax25ActionVerb::StartT1,
        t,
        m,
        m.with_timers(m.timers.with(TimerId::T1, Some(m.link.t1v_ms))),
    );
}

/// What the verbs that send the SABM do.
proof fn lemma_sabm_steps(subs: Seq<SubroutineSpec>, depth: nat, m: Machine, t: Trigger)
    requires
        t.on == Ax25Event::DLCONNECTRequest,
    ensures
        forall|i: int|
            1 <= i < 6 ==> chains::leads(
                subs,
                depth,
                #[trigger] establishing_chain()[i],
                t,
                establishing(m)[i],
                establishing(m)[i + 1],
            ),
{
    let chain: Seq<Ax25ActionVerb> = establishing_chain();
    let way: Seq<Machine> = establishing(m);
    chains::lemma_edit(subs, depth, chain[1], t, way[1], Edit::Rc(1));
    lemma_poll(subs, depth, way[2], t);
    lemma_sabm(subs, depth, way[3], t);
    lemma_stop_t3(subs, depth, way[4], t);
    lemma_start_t1(subs, depth, way[5], t);
    assert forall|i: int| 1 <= i < 6 implies chains::leads(
        subs,
        depth,
        #[trigger] chain[i],
        t,
        way[i],
        way[i + 1],
    ) by {
        assert(i == 1 || i == 2 || i == 3 || i == 4 || i == 5);
    }
}

/// What the call of `Establish_Data_Link` does.
proof fn lemma_establishing(subs: Seq<SubroutineSpec>, depth: nat, m: Machine, t: Trigger)
    requires
        t.on == Ax25Event::DLCONNECTRequest,
        depth > 1,
        chains::goes(subs, "Establish_Data_Link"@, m, t, establishing_chain()),
        chains::goes(subs, "Clear_Exception_Conditions"@, m, t, clearing_chain()),
    ensures
        chains::leads(
            subs,
            depth,
            Ax25ActionVerb::EstablishDataLink,
            t,
            m,
            establishing(m)[6],
        ),
{
    let inner: nat = (depth - 1) as nat;
    let chain: Seq<Ax25ActionVerb> = establishing_chain();
    let way: Seq<Machine> = establishing(m);
    lemma_clearing(subs, inner, m, t);
    lemma_sabm_steps(subs, inner, m, t);
    assert(chain[0] == Ax25ActionVerb::ClearExceptionConditions);
    assert(way[0] == m && way[1] == m.with_link(clearing(m.link)[6]));
    chains::lemma_routine(subs, inner, "Establish_Data_Link"@, chain, t, way);
    chains::lemma_call(subs, depth, Ax25ActionVerb::EstablishDataLink, t, m, way[6]);
}

/// The machine after a connect request.
spec fn dialled(link: Link, timers: TimerSnapshot) -> Machine {
    let m: Machine = establishing(Machine::start(dialling(link), timers))[6];
    m.with_link(m.link.edited(Edit::Layer3(true)))
}

/// What the actions of a connect request do.
proof fn lemma_dialling(
    subs: Seq<SubroutineSpec>,
    depth: nat,
    tr: TransitionSpec,
    link: Link,
    timers: TimerSnapshot,
    t: Trigger,
)
    requires
        t.on == Ax25Event::DLCONNECTRequest,
        depth > 1,
        chains::lists(tr.actions@, tr.loops@, dialling_chain()),
        chains::goes(
            subs,
            "Establish_Data_Link"@,
            Machine::start(dialling(link), timers),
            t,
            establishing_chain(),
        ),
        chains::goes(
            subs,
            "Clear_Exception_Conditions"@,
            Machine::start(dialling(link), timers),
            t,
            clearing_chain(),
        ),
    ensures
        dispatch::run_actions(
            subs,
            depth,
            tr.actions@,
            tr.loops@,
            0,
            Machine::start(link, timers),
            t,
        ) == verbs::done(dialled(link, timers)),
{
    let chain: Seq<Ax25ActionVerb> = dialling_chain();
    let start: Machine = Machine::start(link, timers);
    let smoothed: Machine = Machine::start(link.edited(Edit::Srt(verbs::INITIAL_SRT_MS)), timers);
    let ready: Machine = Machine::start(dialling(link), timers);
    let up: Machine = establishing(ready)[6];
    let way: Seq<Machine> = seq![start, smoothed, ready, up, dialled(link, timers)];
    chains::lemma_edit(subs, depth, chain[0], t, start, Edit::Srt(verbs::INITIAL_SRT_MS));
    chains::lemma_edit(
        subs,
        depth,
        chain[1],
        t,
        smoothed,
        Edit::T1v(timer::saturated(smoothed.link.srt_ms * 2)),
    );
    lemma_establishing(subs, depth, ready, t);
    chains::lemma_edit(subs, depth, chain[3], t, up, Edit::Layer3(true));
    assert forall|i: int| 0 <= i < chain.len() implies chains::leads(
        subs,
        depth,
        #[trigger] chain[i],
        t,
        way[i],
        way[i + 1],
    ) by {
        assert(i == 0 || i == 1 || i == 2 || i == 3);
    }
    chains::lemma_chain(subs, depth, tr.actions@, tr.loops@, chain, t, way);
}

/// What a connect request leaves of the link, and what it sends.
proof fn lemma_dialled(link: Link, timers: TimerSnapshot)
    ensures
        ({
            let m: Machine = dialled(link, timers);
            &&& m.link.is_extended == link.is_extended
            &&& m.link.srej_enabled == link.srej_enabled
            &&& m.link.implicit_reject == link.implicit_reject
            &&& m.link.i_frame_queue.len() == 0
            &&& m.out == seq![Signal::Frame(sabm())]
        }),
{
    let smoothed: Link = link.edited(Edit::Srt(verbs::INITIAL_SRT_MS));
    let ready: Link = dialling(link);
    let cleared: Link = clearing(ready)[6];
    lemma_untouched(link, Edit::Srt(verbs::INITIAL_SRT_MS));
    lemma_untouched(smoothed, Edit::T1v(timer::saturated(smoothed.srt_ms * 2)));
    lemma_clearing_leaves(ready);
    lemma_untouched(cleared, Edit::Rc(1));
    lemma_untouched(cleared.edited(Edit::Rc(1)), Edit::Layer3(true));
    assert(dialled(link, timers).out =~= seq![Signal::Frame(sabm())]);
}

/// Where the tables answer a connect request by establishing the link, a modulo-8 link
/// sends one SABM, which polls, and awaits the connection. Its reject scheme and its
/// modulus stay as they were.
proof fn lemma_establishing_sends_a_sabm(
    charts: Charts,
    link: Link,
    timers: TimerSnapshot,
    t: Trigger,
)
    requires
        establishes(charts, link, timers, t),
        !link.is_extended,
    ensures
        ({
            let d: Drive = session::driven(charts, State::Disconnected, link, timers, t);
            &&& d.fault is None
            &&& d.state == State::AwaitingConnection
            &&& d.out == seq![Signal::Frame(sabm())]
            &&& !d.link.is_extended
            &&& d.link.srej_enabled == link.srej_enabled
            &&& d.link.implicit_reject == link.implicit_reject
        }),
{
    let page: Seq<TransitionSpec> = charts.page(State::Disconnected);
    let tr: TransitionSpec = session::first_match(page, link, timers, t, 0)->0;
    lemma_dialling(charts.subroutines, MAX_NESTING as nat, tr, link, timers, t);
    lemma_dialled(link, timers);
    session::law_state_names_round_trip(State::AwaitingConnection);
    assert(session::degraded(tr, page, link) == tr);
    assert(session::prepared(link, tr, t.on) == link);
}

/// The generated tables establish a modulo-8 link that is down.
proof fn lemma_drawn_establishes(
    charts: Charts,
    link: Link,
    timers: TimerSnapshot,
    t: Trigger,
)
    requires
        drawn::drawn(charts),
        t.on == Ax25Event::DLCONNECTRequest,
        !link.is_extended,
    ensures
        establishes(charts, link, timers, t),
{
    reveal(drawn::drawn);
    let page: Seq<TransitionSpec> = charts.page(State::Disconnected);
    let subs: Seq<SubroutineSpec> = charts.subroutines;
    let m: Machine = Machine::start(dialling(link), timers);
    let smoothed: Link = link.edited(Edit::Srt(verbs::INITIAL_SRT_MS));
    drawn::lemma_match_is_keyed(page, link, timers, t, 0);
    drawn::lemma_keyed_on(page, t.on, 0);
    reveal_with_fuel(drawn::first_open, 2);
    lemma_untouched(link, Edit::Srt(verbs::INITIAL_SRT_MS));
    lemma_untouched(smoothed, Edit::T1v(timer::saturated(smoothed.srt_ms * 2)));
    lemma_clears(subs, m, t);
    reveal_with_fuel(dispatch::path_from, 2);
    let paths: Seq<SubroutinePath> = dispatch::routine_from(subs, "Establish_Data_Link"@, 0)->0;
    assert(guard::guard_holds(paths[0].guard@, m.link, m.timers, t));
}

/// A connect request of a modulo-8 link that is down sends one SABM, which polls, and awaits
/// the connection. The reject scheme and the modulus stay as they were.
pub proof fn law_a_connect_request_sends_a_sabm(
    charts: Charts,
    link: Link,
    timers: TimerSnapshot,
    t: Trigger,
)
    requires
        drawn::drawn(charts),
        t.on == Ax25Event::DLCONNECTRequest,
        !link.is_extended,
    ensures
        ({
            let d: Drive = session::driven(charts, State::Disconnected, link, timers, t);
            &&& d.fault is None
            &&& d.state == State::AwaitingConnection
            &&& d.out == seq![Signal::Frame(sabm())]
            &&& !d.link.is_extended
            &&& d.link.srej_enabled == link.srej_enabled
            &&& d.link.implicit_reject == link.implicit_reject
        }),
{
    lemma_drawn_establishes(charts, link, timers, t);
    lemma_establishing_sends_a_sabm(charts, link, timers, t);
}

} // verus!
