//! The acknowledgement that waits for the channel.

use ax25sdl::{Ax25ActionVerb, Ax25Event, SubroutinePath, SubroutineSpec, TransitionSpec};
use vstd::prelude::*;

use super::chains;
use super::context::{Edit, Link};
use super::dispatch;
use super::dispatch::MAX_NESTING;
use super::drawn;
use super::event::Trigger;
use super::guard;
use super::session;
use super::session::{Drive, State};
use super::signal::{FrameSpecView, LinkMultiplexerSignal, Signal, SupervisoryKind};
use super::tables::Charts;
use super::timer::TimerSnapshot;
use super::tx::{Machine, PendingFrame};
use super::verbs;

verus! {

/// What settles an acknowledgement: it is answered by `Enquiry_Response` with F = 0, and
/// then the channel is given back.
pub open spec fn settling_chain() -> Seq<Ax25ActionVerb> {
    seq![
        Ax25ActionVerb::ClearAcknowledgePending,
        Ax25ActionVerb::EnquiryResponseFEq0,
        Ax25ActionVerb::LMReleaseRequest,
    ]
}

/// What answers with an RR response.
pub open spec fn answering_chain() -> Seq<Ax25ActionVerb> {
    seq![
        Ax25ActionVerb::NRAssignVR,
        Ax25ActionVerb::RRResponse,
        Ax25ActionVerb::ClearAcknowledgePending,
    ]
}

/// The machine that asks for the answer: nothing is unacknowledged, and F is 0.
pub open spec fn asking(link: Link, timers: TimerSnapshot) -> Machine {
    let settled: Machine = Machine::start(link.edited(Edit::AckPending(false)), timers);
    settled.with_pending(PendingFrame { pf: Some(false), ..settled.pending })
}

/// The tables settle what is unacknowledged once the channel is granted.
pub open spec fn settles(
    charts: Charts,
    state: State,
    link: Link,
    timers: TimerSnapshot,
    t: Trigger,
) -> bool {
    &&& t.on == Ax25Event::LMSEIZEConfirm
    &&& session::first_match(charts.page(state), link, timers, t, 0) matches Some(tr)
        && chains::lists(tr.actions@, tr.loops@, settling_chain()) && tr.on == t.on
        && State::called(tr.next@) is Some
    &&& chains::goes(
        charts.subroutines,
        "Enquiry_Response"@,
        asking(link, timers),
        t,
        answering_chain(),
    )
}

/// An RR response that acknowledges what a link has received.
pub open spec fn ready_response(link: Link) -> FrameSpecView {
    FrameSpecView::Supervisory {
        kind: SupervisoryKind::Rr,
        is_command: false,
        nr: link.vr,
        pf: false,
    }
}

/// What is left of a link once nothing is unacknowledged.
proof fn lemma_cleared(link: Link)
    ensures
        ({
            let cleared: Link = link.edited(Edit::AckPending(false));
            &&& cleared.vr == link.vr
            &&& !cleared.acknowledge_pending
            &&& cleared.edited(Edit::AckPending(false)) == cleared
        }),
{
    reveal(Link::edited);
    reveal(Link::with_ack_pending);
}

/// The machine after it has answered with an RR response.
spec fn answered(m: Machine) -> Machine {
    verbs::send_supervisory(
        m.with_pending(PendingFrame { nr: Some(m.link.vr), ..m.pending }),
        SupervisoryKind::Rr,
        false,
    )
}

/// What `Enquiry_Response` does where it answers with an RR response.
proof fn lemma_answer(subs: Seq<SubroutineSpec>, depth: nat, m: Machine, t: Trigger)
    requires
        t.on == Ax25Event::LMSEIZEConfirm,
        chains::goes(subs, "Enquiry_Response"@, m, t, answering_chain()),
    ensures
        dispatch::run_routine(subs, depth, "Enquiry_Response"@, m, t) == verbs::done(
            answered(m).with_link(m.link.edited(Edit::AckPending(false))),
        ),
{
    let addressed: Machine = m.with_pending(PendingFrame { nr: Some(m.link.vr), ..m.pending });
    let sent: Machine = answered(m);
    let after: Machine = sent.with_link(m.link.edited(Edit::AckPending(false)));
    let chain: Seq<Ax25ActionVerb> = answering_chain();
    let way: Seq<Machine> = seq![m, addressed, sent, after];
    chains::lemma_primitive(subs, depth, chain[0], t, m, addressed);
    chains::lemma_primitive(subs, depth, chain[1], t, addressed, sent);
    chains::lemma_edit(subs, depth, chain[2], t, sent, Edit::AckPending(false));
    assert forall|i: int| 0 <= i < chain.len() implies chains::leads(
        subs,
        depth,
        #[trigger] chain[i],
        t,
        way[i],
        way[i + 1],
    ) by {
        assert(i == 0 || i == 1 || i == 2);
    }
    chains::lemma_routine(subs, depth, "Enquiry_Response"@, chain, t, way);
}

/// What the call of `Enquiry_Response` does.
proof fn lemma_answer_call(
    subs: Seq<SubroutineSpec>,
    depth: nat,
    link: Link,
    timers: TimerSnapshot,
    t: Trigger,
)
    requires
        t.on == Ax25Event::LMSEIZEConfirm,
        depth > 0,
        chains::goes(subs, "Enquiry_Response"@, asking(link, timers), t, answering_chain()),
    ensures
        chains::leads(
            subs,
            depth,
            Ax25ActionVerb::EnquiryResponseFEq0,
            t,
            Machine::start(link.edited(Edit::AckPending(false)), timers),
            answered(asking(link, timers)),
        ),
{
    let sent: Machine = answered(asking(link, timers));
    lemma_cleared(link);
    lemma_answer(subs, (depth - 1) as nat, asking(link, timers), t);
    assert(sent.with_link(asking(link, timers).link) == sent);
    chains::lemma_call(
        subs,
        depth,
        Ax25ActionVerb::EnquiryResponseFEq0,
        t,
        Machine::start(link.edited(Edit::AckPending(false)), timers),
        sent,
    );
}

/// What settling does.
proof fn lemma_settling(
    subs: Seq<SubroutineSpec>,
    depth: nat,
    tr: TransitionSpec,
    link: Link,
    timers: TimerSnapshot,
    t: Trigger,
)
    requires
        t.on == Ax25Event::LMSEIZEConfirm,
        depth > 0,
        chains::lists(tr.actions@, tr.loops@, settling_chain()),
        chains::goes(subs, "Enquiry_Response"@, asking(link, timers), t, answering_chain()),
    ensures
        dispatch::run_actions(
            subs,
            depth,
            tr.actions@,
            tr.loops@,
            0,
            Machine::start(link, timers),
            t,
        ) == verbs::done(
            answered(asking(link, timers)).emit(
                Signal::LinkMux(LinkMultiplexerSignal::ReleaseRequest),
            ),
        ),
{
    let start: Machine = Machine::start(link, timers);
    let settled: Machine = Machine::start(link.edited(Edit::AckPending(false)), timers);
    let sent: Machine = answered(asking(link, timers));
    let released: Machine = sent.emit(Signal::LinkMux(LinkMultiplexerSignal::ReleaseRequest));
    let chain: Seq<Ax25ActionVerb> = settling_chain();
    let way: Seq<Machine> = seq![start, settled, sent, released];
    chains::lemma_edit(subs, depth, chain[0], t, start, Edit::AckPending(false));
    lemma_answer_call(subs, depth, link, timers, t);
    chains::lemma_primitive(subs, depth, chain[2], t, sent, released);
    assert forall|i: int| 0 <= i < chain.len() implies chains::leads(
        subs,
        depth,
        #[trigger] chain[i],
        t,
        way[i],
        way[i + 1],
    ) by {
        assert(i == 0 || i == 1 || i == 2);
    }
    chains::lemma_chain(subs, depth, tr.actions@, tr.loops@, chain, t, way);
}

/// Where the tables settle what is unacknowledged once the channel is granted, an RR
/// response with N(R) = V(R) goes out, the channel is given back, and nothing is
/// unacknowledged any more.
proof fn lemma_settling_acknowledges(
    charts: Charts,
    state: State,
    link: Link,
    timers: TimerSnapshot,
    t: Trigger,
)
    requires
        settles(charts, state, link, timers, t),
    ensures
        ({
            let d: Drive = session::dispatched(charts, state, link, timers, t);
            &&& d.fault is None
            &&& d.timers == timers
            &&& d.link == link.edited(Edit::AckPending(false))
            &&& d.link.vr == link.vr
            &&& !d.link.acknowledge_pending
            &&& d.out == seq![
                Signal::Frame(ready_response(link)),
                Signal::LinkMux(LinkMultiplexerSignal::ReleaseRequest),
            ]
        }),
{
    let tr: TransitionSpec = session::first_match(charts.page(state), link, timers, t, 0)->0;
    let sent: Machine = answered(asking(link, timers));
    lemma_cleared(link);
    lemma_settling(charts.subroutines, MAX_NESTING as nat, tr, link, timers, t);
    assert(session::degraded(tr, charts.page(state), link) == tr);
    assert(session::prepared(link, tr, t.on) == link);
    assert(sent.out.push(Signal::LinkMux(LinkMultiplexerSignal::ReleaseRequest)) =~= seq![
        sent.out[0],
        Signal::LinkMux(LinkMultiplexerSignal::ReleaseRequest),
    ]);
}

/// The generated tables settle what is unacknowledged on a link that is up.
proof fn lemma_drawn_settles(
    charts: Charts,
    state: State,
    link: Link,
    timers: TimerSnapshot,
    t: Trigger,
)
    requires
        drawn::drawn(charts),
        state == State::Connected || state == State::TimerRecovery,
        t.on == Ax25Event::LMSEIZEConfirm,
        t.frame is None,
        link.acknowledge_pending,
    ensures
        settles(charts, state, link, timers, t),
        session::dispatched(charts, state, link, timers, t).state == state,
{
    reveal(drawn::drawn);
    let page: Seq<TransitionSpec> = charts.page(state);
    let grants: Seq<TransitionSpec> = drawn::keyed(page, t.on, 0);
    let m: Machine = asking(link, timers);
    drawn::lemma_match_is_keyed(page, link, timers, t, 0);
    drawn::lemma_keyed_on(page, t.on, 0);
    reveal_with_fuel(drawn::first_open, 2);
    assert(guard::guard_holds(grants[0].guard@, link, timers, t));
    session::law_state_names_round_trip(state);
    reveal_with_fuel(dispatch::path_from, 8);
    let paths: Seq<SubroutinePath> = dispatch::routine_from(
        charts.subroutines,
        "Enquiry_Response"@,
        0,
    )->0;
    assert forall|i: int| 0 <= i < 6 implies !guard::guard_holds(
        (#[trigger] paths[i]).guard@,
        m.link,
        m.timers,
        t,
    ) by {
        assert(!guard::term_holds(paths[i].guard@[0], m.link, m.timers, t));
    }
    assert(guard::guard_holds(paths[6].guard@, m.link, m.timers, t));
}

/// A link in information transfer that owes an acknowledgement sends it once the channel is
/// granted: an RR response with N(R) = V(R) goes out, the channel is given back, and nothing
/// else of the link changes.
pub proof fn law_a_grant_acknowledges(
    charts: Charts,
    state: State,
    link: Link,
    timers: TimerSnapshot,
    t: Trigger,
)
    requires
        drawn::drawn(charts),
        state == State::Connected || state == State::TimerRecovery,
        t.on == Ax25Event::LMSEIZEConfirm,
        t.frame is None,
        link.acknowledge_pending,
    ensures
        ({
            let d: Drive = session::dispatched(charts, state, link, timers, t);
            &&& d.fault is None
            &&& d.state == state
            &&& d.timers == timers
            &&& d.link == link.edited(Edit::AckPending(false))
            &&& d.link.vr == link.vr
            &&& !d.link.acknowledge_pending
            &&& d.out == seq![
                Signal::Frame(ready_response(link)),
                Signal::LinkMux(LinkMultiplexerSignal::ReleaseRequest),
            ]
        }),
{
    lemma_drawn_settles(charts, state, link, timers, t);
    lemma_settling_acknowledges(charts, state, link, timers, t);
}

} // verus!
