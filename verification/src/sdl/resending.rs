//! Data that goes out, and goes out again.

use ax25sdl::{
    ActionStep, Ax25ActionVerb, Ax25Event, Ax25Guard, LoopRange, SubroutinePath, SubroutineSpec,
    TransitionSpec,
};
use vstd::prelude::*;

use super::chains;
use super::context;
use super::context::{Edit, Link, PayloadView};
use super::dispatch;
use super::dispatch::MAX_NESTING;
use super::drawn;
use super::event::Trigger;
use super::guard;
use super::loop_exec::MAX_ITERATIONS;
use super::session;
use super::session::{Drive, State};
use super::signal::{FrameSpecView, InternalSignalView, Signal};
use super::steady;
use super::tables::Charts;
use super::timer::TimerSnapshot;
use super::tx::{Machine, PendingFrame};
use super::verbs;
use super::verbs::Outcome;

verus! {

/// What sends the payload that popped off the queue.
pub open spec fn sending_chain() -> Seq<Ax25ActionVerb> {
    seq![
        Ax25ActionVerb::NSAssignVS,
        Ax25ActionVerb::NRAssignVR,
        Ax25ActionVerb::PAssign0,
        Ax25ActionVerb::ICommand,
        Ax25ActionVerb::VSAssignVSPlus1,
        Ax25ActionVerb::ClearAcknowledgePending,
    ]
}

/// What follows where T1 is not running.
pub open spec fn timing_chain() -> Seq<Ax25ActionVerb> {
    seq![Ax25ActionVerb::StopT3, Ax25ActionVerb::StartT1]
}

/// What a REJ does.
pub open spec fn rejecting_chain() -> Seq<Ax25ActionVerb> {
    seq![
        Ax25ActionVerb::ClearPeerReceiverBusy,
        Ax25ActionVerb::CheckNeedForResponse,
        Ax25ActionVerb::VAAssignNR,
        Ax25ActionVerb::StartT1,
        Ax25ActionVerb::StopT3,
        Ax25ActionVerb::ClearAcknowledgePending,
        Ax25ActionVerb::SelectT1Value,
        Ax25ActionVerb::InvokeRetransmission,
    ]
}

/// How an SREJ with the P/F bit starts.
pub open spec fn final_chain() -> Seq<Ax25ActionVerb> {
    seq![
        Ax25ActionVerb::ClearPeerReceiverBusy,
        Ax25ActionVerb::CheckNeedForResponse,
        Ax25ActionVerb::VAAssignNR,
    ]
}

/// How an SREJ without the P/F bit starts.
pub open spec fn plain_chain() -> Seq<Ax25ActionVerb> {
    seq![Ax25ActionVerb::ClearPeerReceiverBusy, Ax25ActionVerb::CheckNeedForResponse]
}

/// What every SREJ does.
pub open spec fn selecting_chain() -> Seq<Ax25ActionVerb> {
    seq![
        Ax25ActionVerb::StopT1,
        Ax25ActionVerb::StartT3,
        Ax25ActionVerb::SelectT1Value,
        Ax25ActionVerb::PushOldIFrameNROnQueue,
        Ax25ActionVerb::LMDataRequest,
        Ax25ActionVerb::StopT3,
        Ax25ActionVerb::StartT1,
        Ax25ActionVerb::ClearAcknowledgePending,
    ]
}

/// What `Invoke_Retransmission` does: it notes V(S), goes back to N(R), and sends the old
/// frame of V(S) and advances until V(S) is where it was.
pub open spec fn invoking_chain() -> Seq<Ax25ActionVerb> {
    seq![
        Ax25ActionVerb::Backtrack,
        Ax25ActionVerb::XAssignVS,
        Ax25ActionVerb::VSAssignNR,
        Ax25ActionVerb::PushOldIFrameOntoQueue,
        Ax25ActionVerb::VSAssignVSPlus1,
    ]
}

/// The actions and the loop of `Invoke_Retransmission`.
pub open spec fn invokes(actions: Seq<ActionStep>, loops: Seq<LoopRange>) -> bool {
    &&& actions.len() == 5
    &&& forall|i: int| 0 <= i < 5 ==> actions[i].verb == #[trigger] invoking_chain()[i]
    &&& loops.len() == 1
    &&& loops[0].start == 3
    &&& loops[0].length == 2
    &&& loops[0].predicate == drawn::no(Ax25Guard::VsEqX)
    &&& loops[0].test_at_end
}

/// The number that stands `i` steps behind `from` on the ring.
pub open spec fn number(modulus: int, from: u8, i: int) -> u8 {
    ((from + i) % modulus) as u8
}

/// The remainder of a number that lies within one turn of the ring.
pub proof fn lemma_turn(modulus: int, v: int)
    requires
        modulus == 8 || modulus == 128,
        -modulus <= v < 2 * modulus,
    ensures
        v % modulus == if v < 0 {
            v + modulus
        } else if v < modulus {
            v
        } else {
            v - modulus
        },
{
    if modulus == 8 {
        assert(v % 8 == if v < 0 {
            v + 8
        } else if v < 8 {
            v
        } else {
            v - 8
        });
    } else {
        assert(v % 128 == if v < 0 {
            v + 128
        } else if v < 128 {
            v
        } else {
            v - 128
        });
    }
}

/// As many steps as `to` lies ahead of `from` lead there.
pub proof fn lemma_reaches(modulus: int, from: u8, to: u8)
    requires
        modulus == 8 || modulus == 128,
        from < modulus,
        to < modulus,
    ensures
        number(modulus, from, context::steps_ahead(from, to, modulus)) == to,
        0 <= context::steps_ahead(from, to, modulus) < modulus,
        context::steps_ahead(from, to, modulus) == 0 <==> from == to,
{
    lemma_turn(modulus, to - from);
    lemma_turn(modulus, from + context::steps_ahead(from, to, modulus));
}

/// Steps on the ring.
pub proof fn lemma_number(modulus: int, from: u8, i: int)
    requires
        modulus == 8 || modulus == 128,
        from < modulus,
        0 <= i < modulus,
    ensures
        number(modulus, from, 0) == from,
        number(modulus, from, 1) < modulus,
        i > 0 ==> number(modulus, number(modulus, from, 1), i - 1) == number(modulus, from, i),
        i > 0 ==> number(modulus, from, i) != from,
        i > 1 ==> number(modulus, from, i) != number(modulus, from, 1),
{
    lemma_turn(modulus, from + 0);
    lemma_turn(modulus, from + 1);
    lemma_turn(modulus, from + i);
    lemma_turn(modulus, number(modulus, from, 1) + i - 1);
}

/// What a change of V(S) leaves alone.
proof fn lemma_moved(link: Link, vs: u8)
    ensures
        link.edited(Edit::Vs(vs)) == (Link { vs, ..link }),
{
    reveal(Link::edited);
    reveal(Link::with_vs);
}

/// An I frame that acknowledges what the link has received.
pub open spec fn carrying(link: Link, ns: u8, payload: PayloadView) -> Signal {
    Signal::Frame(
        FrameSpecView::Information {
            p: false,
            nr: link.vr,
            ns,
            pid: payload.pid,
            info: payload.data,
        },
    )
}

/// What of a link neither a transmission nor a retransmission changes.
pub open spec fn receives_as(link: Link, after: Link) -> bool {
    &&& after.vr == link.vr
    &&& after.is_extended == link.is_extended
    &&& after.quirks == link.quirks
    &&& after.i_frame_queue == link.i_frame_queue
    &&& after.stored_received_i_frames == link.stored_received_i_frames
}

/// A transition of a link that is up, whose actions run through, stays up and does what
/// they do.
pub proof fn lemma_stays_up(charts: Charts, link: Link, timers: TimerSnapshot, t: Trigger)
    requires
        session::first_match(charts.connected, link, timers, t, 0) matches Some(tr) && tr.on
            == t.on && tr.next@ == State::Connected.label(),
        t.on != Ax25Event::T1Expiry,
        t.on != Ax25Event::DMReceived,
        t.on != Ax25Event::FRMRReceived,
        t.on != Ax25Event::DLCONNECTRequest,
    ensures
        ({
            let tr: TransitionSpec = session::first_match(charts.connected, link, timers, t, 0)->0;
            let o: Outcome = dispatch::run_actions(
                charts.subroutines,
                MAX_NESTING as nat,
                tr.actions@,
                tr.loops@,
                0,
                Machine::start(link, timers),
                t,
            );
            o.fault is None ==> session::dispatched(charts, State::Connected, link, timers, t) == (
            Drive {
                state: State::Connected,
                link: o.machine.link,
                timers: o.machine.timers,
                out: o.machine.out,
                fault: None,
            })
        }),
{
    let tr: TransitionSpec = session::first_match(charts.connected, link, timers, t, 0)->0;
    assert(session::roused(link, t.on) == link);
    assert(session::degraded(tr, charts.connected, link) == tr);
    assert(session::prepared(link, tr, t.on) == link);
    session::law_state_names_round_trip(State::Connected);
}

/// Data that is to go out joins the queue at its end, and nothing else changes.
pub proof fn law_data_joins_the_queue(
    charts: Charts,
    link: Link,
    timers: TimerSnapshot,
    t: Trigger,
    pid: u8,
    data: Seq<u8>,
)
    requires
        drawn::drawn(charts),
        t.on == Ax25Event::DLDATARequest,
        t.data == Some((pid, data)),
    ensures
        session::dispatched(charts, State::Connected, link, timers, t) == (Drive {
            state: State::Connected,
            link: link.with_queue(link.i_frame_queue.push(PayloadView { data, pid })),
            timers,
            out: seq![Signal::Internal(InternalSignalView::PushIFrameQueue(data))],
            fault: None,
        }),
{
    let subs: Seq<SubroutineSpec> = charts.subroutines;
    let depth: nat = MAX_NESTING as nat;
    let verb: Ax25ActionVerb = Ax25ActionVerb::PushOnIFrameQueueNoteWordOrder;
    assert(drawn::draws_sending(charts.connected)) by {
        reveal(drawn::drawn);
    }
    drawn::lemma_match_is_keyed(charts.connected, link, timers, t, 0);
    drawn::lemma_keyed_on(charts.connected, t.on, 0);
    reveal_with_fuel(drawn::first_open, 2);
    lemma_stays_up(charts, link, timers, t);
    let tr: TransitionSpec = session::first_match(charts.connected, link, timers, t, 0)->0;
    let start: Machine = Machine::start(link, timers);
    let after: Machine = start.with_link(
        link.with_queue(link.i_frame_queue.push(PayloadView { data, pid })),
    ).emit(Signal::Internal(InternalSignalView::PushIFrameQueue(data)));
    let chain: Seq<Ax25ActionVerb> = seq![verb];
    let way: Seq<Machine> = seq![start, after];
    chains::lemma_primitive(subs, depth, verb, t, start, after);
    assert forall|i: int| 0 <= i < chain.len() implies chains::leads(
        subs,
        depth,
        #[trigger] chain[i],
        t,
        way[i],
        way[i + 1],
    ) by {
        assert(i == 0);
    }
    chains::lemma_chain(subs, depth, tr.actions@, tr.loops@, chain, t, way);
    assert(after.out =~= seq![Signal::Internal(InternalSignalView::PushIFrameQueue(data))]);
}

/// A link that has sent a payload at V(S): the payload is kept under that number, and V(S)
/// has advanced.
pub open spec fn has_sent(link: Link, payload: PayloadView, after: Link) -> bool {
    &&& receives_as(link, after)
    &&& after.va == link.va
    &&& after.vs == link.next_seq(link.vs)
    &&& after.sent_i_frames == link.sent_i_frames.insert(link.vs, payload)
    &&& after.selectively_retransmitted_since_ack
        == link.selectively_retransmitted_since_ack.remove(link.vs)
    &&& after.peer_receiver_busy == link.peer_receiver_busy
    &&& after.window() == link.window()
}

/// The steps that send a payload.
spec fn sending(m: Machine, payload: PayloadView) -> Seq<Machine> {
    let a: Machine = m.with_pending(PendingFrame { ns: Some(m.link.vs), ..m.pending });
    let b: Machine = a.with_pending(PendingFrame { nr: Some(m.link.vr), ..a.pending });
    let c: Machine = b.with_pending(PendingFrame { pf: Some(false), ..b.pending });
    let d: Machine = c.emit(carrying(m.link, m.link.vs, payload)).with_link(
        m.link.retained(m.link.vs, payload),
    );
    let e: Machine = d.with_link(d.link.edited(Edit::Vs(d.link.next_seq(d.link.vs))));
    let f: Machine = e.with_link(e.link.edited(Edit::AckPending(false)));
    seq![m, a, b, c, d, e, f]
}

#[verifier::rlimit(30)]
proof fn lemma_sending(
    subs: Seq<SubroutineSpec>,
    depth: nat,
    actions: Seq<ActionStep>,
    loops: Seq<LoopRange>,
    m: Machine,
    payload: PayloadView,
)
    requires
        loops.len() == 0,
        actions.len() >= 6,
        forall|i: int| 0 <= i < 6 ==> (#[trigger] actions[i]).verb == sending_chain()[i],
    ensures
        dispatch::run_actions(
            subs,
            depth,
            actions,
            loops,
            0,
            m,
            session::popped(payload),
        ) == dispatch::run_actions(
            subs,
            depth,
            actions,
            loops,
            6,
            sending(m, payload)[6],
            session::popped(payload),
        ),
        has_sent(m.link, payload, sending(m, payload)[6].link),
        sending(m, payload)[6].out == m.out.push(carrying(m.link, m.link.vs, payload)),
{
    let t: Trigger = session::popped(payload);
    let chain: Seq<Ax25ActionVerb> = sending_chain();
    let way: Seq<Machine> = sending(m, payload);
    chains::lemma_primitive(subs, depth, chain[0], t, way[0], way[1]);
    chains::lemma_primitive(subs, depth, chain[1], t, way[1], way[2]);
    chains::lemma_primitive(subs, depth, chain[2], t, way[2], way[3]);
    assert(PayloadView { data: payload.data, pid: payload.pid } == payload);
    chains::lemma_primitive(subs, depth, chain[3], t, way[3], way[4]);
    chains::lemma_edit(
        subs,
        depth,
        chain[4],
        t,
        way[4],
        Edit::Vs(way[4].link.next_seq(way[4].link.vs)),
    );
    chains::lemma_edit(subs, depth, chain[5], t, way[5], Edit::AckPending(false));
    assert forall|i: int| 0 <= i < chain.len() implies chains::leads(
        subs,
        depth,
        #[trigger] chain[i],
        t,
        way[i],
        way[i + 1],
    ) by {
        assert(i == 0 || i == 1 || i == 2 || i == 3 || i == 4 || i == 5);
    }
    assert forall|i: int| 0 <= i < chain.len() implies actions[0 + i].verb == (#[trigger] chain[i])
        && dispatch::loop_from(loops, 0 + i, 0) is None by {
        assert(actions[i].verb == chain[i]);
    }
    chains::lemma_part(subs, depth, actions, loops, 0, chain, t, way);
    assert(has_sent(m.link, payload, way[6].link)) by {
        reveal(Link::retained);
        reveal(Link::edited);
        reveal(Link::with_vs);
        reveal(Link::with_ack_pending);
    }
}

/// The transition that a payload finds that pops off the queue and may go out.
proof fn lemma_pop_match(
    page: Seq<TransitionSpec>,
    link: Link,
    timers: TimerSnapshot,
    payload: PayloadView,
)
    requires
        drawn::draws_sending(page),
        session::may_transmit(State::Connected, link),
    ensures
        session::first_match(page, link, timers, session::popped(payload), 0) matches Some(tr)
            && tr.on == Ax25Event::IFramePopsOffQueue && tr.next@ == State::Connected.label()
            && chains::lists(
            tr.actions@,
            tr.loops@,
            if timers.t1 is Some {
                sending_chain()
            } else {
                sending_chain() + timing_chain()
            },
        ),
{
    let t: Trigger = session::popped(payload);
    let pops: Seq<TransitionSpec> = drawn::keyed(page, t.on, 0);
    drawn::lemma_match_is_keyed(page, link, timers, t, 0);
    drawn::lemma_keyed_on(page, t.on, 0);
    reveal_with_fuel(drawn::first_open, 5);
    assert(!guard::guard_holds(pops[0].guard@, link, timers, t)) by {
        assert(!guard::term_holds(pops[0].guard@[0], link, timers, t));
    }
    assert(!guard::guard_holds(pops[1].guard@, link, timers, t)) by {
        assert(!guard::term_holds(pops[1].guard@[1], link, timers, t));
    }
    if timers.t1 is Some {
        assert(!guard::guard_holds(pops[2].guard@, link, timers, t)) by {
            assert(!guard::term_holds(pops[2].guard@[2], link, timers, t));
        }
        assert(guard::guard_holds(pops[3].guard@, link, timers, t));
    } else {
        assert(guard::guard_holds(pops[2].guard@, link, timers, t));
    }
}

/// What the timers do behind a transmission changes nothing else.
#[verifier::rlimit(30)]
proof fn lemma_timing(
    subs: Seq<SubroutineSpec>,
    depth: nat,
    actions: Seq<ActionStep>,
    loops: Seq<LoopRange>,
    m: Machine,
    t: Trigger,
)
    requires
        chains::lists(actions, loops, sending_chain() + timing_chain()),
    ensures
        ({
            let o: Outcome = dispatch::run_actions(subs, depth, actions, loops, 6, m, t);
            o.fault is None && o.machine.out == m.out && o.machine.link == m.link
        }),
{
    let whole: Seq<Ax25ActionVerb> = sending_chain() + timing_chain();
    assert(actions[6].verb == whole[6]);
    assert(actions[7].verb == whole[7]);
    let still: Machine = dispatch::run_verb(subs, depth, whole[6], m, t).machine;
    let timed: Machine = dispatch::run_verb(subs, depth, whole[7], still, t).machine;
    assert(dispatch::run_actions(subs, depth, actions, loops, 7, still, t)
        == dispatch::run_actions(subs, depth, actions, loops, 8, timed, t));
}

/// A payload that pops off the queue while the peer is not busy and the window is open goes
/// out as one I frame, at V(S), with its protocol identifier and its octets; it is kept under
/// that number, and V(S) advances.
pub proof fn law_what_pops_off_the_queue_goes_out(
    charts: Charts,
    link: Link,
    timers: TimerSnapshot,
    payload: PayloadView,
)
    requires
        drawn::drawn(charts),
        session::may_transmit(State::Connected, link),
    ensures
        ({
            let d: Drive = session::dispatched(
                charts,
                State::Connected,
                link,
                timers,
                session::popped(payload),
            );
            &&& d.fault is None
            &&& d.state == State::Connected
            &&& d.out == seq![carrying(link, link.vs, payload)]
            &&& has_sent(link, payload, d.link)
        }),
{
    let t: Trigger = session::popped(payload);
    let subs: Seq<SubroutineSpec> = charts.subroutines;
    let depth: nat = MAX_NESTING as nat;
    assert(drawn::draws_sending(charts.connected)) by {
        reveal(drawn::drawn);
    }
    lemma_pop_match(charts.connected, link, timers, payload);
    lemma_stays_up(charts, link, timers, t);
    let tr: TransitionSpec = session::first_match(charts.connected, link, timers, t, 0)->0;
    let start: Machine = Machine::start(link, timers);
    let sent: Machine = sending(start, payload)[6];
    assert forall|i: int| 0 <= i < 6 implies (#[trigger] tr.actions@[i]).verb
        == sending_chain()[i] by {
        assert((sending_chain() + timing_chain())[i] == sending_chain()[i]);
    }
    lemma_sending(subs, depth, tr.actions@, tr.loops@, start, payload);
    assert(sent.out =~= seq![carrying(link, link.vs, payload)]);
    if timers.t1 is None {
        lemma_timing(subs, depth, tr.actions@, tr.loops@, sent, t);
    }
}

/// Data that is asked for on a link that is up, with nothing waiting and room in the window,
/// goes out at once: one I frame at V(S), with the protocol identifier and the octets that
/// were given.
pub proof fn law_data_goes_out_as_it_was_given(
    charts: Charts,
    link: Link,
    timers: TimerSnapshot,
    t: Trigger,
    pid: u8,
    data: Seq<u8>,
)
    requires
        drawn::drawn(charts),
        t.on == Ax25Event::DLDATARequest,
        t.data == Some((pid, data)),
        link.i_frame_queue.len() == 0,
        session::may_transmit(State::Connected, link),
    ensures
        ({
            let d: Drive = session::driven(charts, State::Connected, link, timers, t);
            let payload: PayloadView = PayloadView { data, pid };
            &&& d.fault is None
            &&& d.state == State::Connected
            &&& d.out == seq![
                Signal::Internal(InternalSignalView::PushIFrameQueue(data)),
                carrying(link, link.vs, payload),
            ]
            &&& has_sent(link, payload, d.link)
        }),
{
    let payload: PayloadView = PayloadView { data, pid };
    law_data_joins_the_queue(charts, link, timers, t, pid, data);
    let d: Drive = session::dispatched(charts, State::Connected, link, timers, t);
    reveal(Link::with_queue);
    assert(d.link.unqueued() == link) by {
        assert(d.link.i_frame_queue.drop_first() =~= link.i_frame_queue);
    }
    law_what_pops_off_the_queue_goes_out(charts, link, timers, payload);
    session::lemma_pop_shortens(charts, d);
    let next: Drive = session::popped_once(charts, d);
    assert(session::drained(charts, d) == session::drained(charts, next));
    assert(session::drained(charts, next) == next);
    assert(next.out =~= seq![
        Signal::Internal(InternalSignalView::PushIFrameQueue(data)),
        carrying(link, link.vs, payload),
    ]);
}

/// The queue is first come, first served: what pops off it goes out at V(S), and the rest
/// waits in its order.
pub proof fn law_the_queue_is_first_come_first_served(charts: Charts, d: Drive)
    requires
        drawn::drawn(charts),
        d.state == State::Connected,
        d.link.i_frame_queue.len() > 0,
        session::may_transmit(d.state, d.link),
    ensures
        ({
            let next: Drive = session::popped_once(charts, d);
            let first: PayloadView = d.link.i_frame_queue[0];
            &&& next.fault is None
            &&& next.state == State::Connected
            &&& next.out == d.out.push(carrying(d.link, d.link.vs, first))
            &&& next.link.i_frame_queue == d.link.i_frame_queue.drop_first()
            &&& next.link.sent_i_frames == d.link.sent_i_frames.insert(d.link.vs, first)
            &&& next.link.vs == d.link.next_seq(d.link.vs)
        }),
{
    let rest: Link = d.link.unqueued();
    let first: PayloadView = d.link.i_frame_queue[0];
    reveal(Link::with_queue);
    law_what_pops_off_the_queue_goes_out(charts, rest, d.timers, first);
    let next: Drive = session::popped_once(charts, d);
    assert(next.out =~= d.out.push(carrying(d.link, d.link.vs, first)));
}

/// The verb is steady, or calls a subroutine that is.
pub open spec fn is_calm(verb: Ax25ActionVerb) -> bool {
    ||| steady::is_steady(verb)
    ||| verb == Ax25ActionVerb::CheckNeedForResponse
    ||| verb == Ax25ActionVerb::SelectT1Value
}

/// What a calm verb does.
proof fn lemma_calm(
    subs: Seq<SubroutineSpec>,
    depth: nat,
    verb: Ax25ActionVerb,
    m: Machine,
    t: Trigger,
) -> (after: Machine)
    requires
        depth > 1,
        is_calm(verb),
        drawn::draws_routines(subs),
    ensures
        chains::leads(subs, depth, verb, t, m, after),
        steady::only_replies(m, after),
{
    let after: Machine = dispatch::run_verb(subs, depth, verb, m, t).machine;
    let inner: nat = (depth - 1) as nat;
    if steady::is_steady(verb) {
        steady::lemma_steady_verb(subs, depth, verb, m, t);
    } else if verb == Ax25ActionVerb::CheckNeedForResponse {
        steady::lemma_steady_routine(subs, inner, "Check_Need_for_Response"@, true, m, t);
    } else {
        steady::lemma_steady_routine(subs, inner, "Select_T1"@, false, m, t);
    }
    reveal(chains::leads);
    after
}

/// What a chain of calm verbs does.
proof fn lemma_calm_part(
    subs: Seq<SubroutineSpec>,
    depth: nat,
    actions: Seq<ActionStep>,
    loops: Seq<LoopRange>,
    k: int,
    chain: Seq<Ax25ActionVerb>,
    m: Machine,
    t: Trigger,
) -> (after: Machine)
    requires
        depth > 1,
        drawn::draws_routines(subs),
        chains::lists_from(actions, loops, k, chain),
        forall|i: int| 0 <= i < chain.len() ==> is_calm(#[trigger] chain[i]),
    ensures
        steady::only_replies(m, after),
        dispatch::run_actions(subs, depth, actions, loops, k, m, t) == dispatch::run_actions(
            subs,
            depth,
            actions,
            loops,
            k + chain.len(),
            after,
            t,
        ),
    decreases chain.len(),
{
    if chain.len() == 0 {
        m
    } else {
        assert(is_calm(chain[0]));
        let next: Machine = lemma_calm(subs, depth, chain[0], m, t);
        assert(actions[k + 0].verb == chain[0]);
        let rest: Seq<Ax25ActionVerb> = chain.skip(1);
        assert forall|i: int| 0 <= i < rest.len() implies actions[k + 1 + i].verb == (
        #[trigger] rest[i]) && dispatch::loop_from(loops, k + 1 + i, 0) is None && is_calm(
            rest[i],
        ) by {
            assert(rest[i] == chain[i + 1]);
        }
        let after: Machine = lemma_calm_part(subs, depth, actions, loops, k + 1, rest, next, t);
        steady::lemma_replies_on(m, next, after);
        assert(dispatch::run_actions(subs, depth, actions, loops, k, m, t)
            == dispatch::run_actions(subs, depth, actions, loops, k + 1, next, t)) by {
            reveal(chains::leads);
        }
        after
    }
}

/// Frames go out again, one after the other, behind what went out before: the `n` that are
/// retained from `from` on.
pub open spec fn goes_again(link: Link, from: u8, n: int, before: int, out: Seq<Signal>) -> bool {
    &&& out.len() == before + n
    &&& forall|i: int|
        0 <= i < n ==> (#[trigger] out[before + i]) == carrying(
            link,
            number(link.modulus(), from, i),
            link.sent_i_frames[number(link.modulus(), from, i)],
        )
}

/// What one pass of the retransmission does.
proof fn lemma_pass(
    subs: Seq<SubroutineSpec>,
    depth: nat,
    actions: Seq<ActionStep>,
    m: Machine,
    t: Trigger,
)
    requires
        actions.len() == 5,
        actions[3].verb == Ax25ActionVerb::PushOldIFrameOntoQueue,
        actions[4].verb == Ax25ActionVerb::VSAssignVSPlus1,
        m.link.sent_i_frames.contains_key(m.link.vs),
    ensures
        dispatch::run_body(subs, depth, actions, 3, 5, m, t) == verbs::done(
            m.emit(
                carrying(m.link, m.link.vs, m.link.sent_i_frames[m.link.vs]),
            ).with_link(m.link.edited(Edit::Vs(m.link.next_seq(m.link.vs)))),
        ),
{
    reveal_with_fuel(dispatch::run_body, 3);
}

/// What goes out first, and then what follows.
proof fn lemma_goes_on(
    link: Link,
    from: u8,
    n: int,
    out: Seq<Signal>,
    first: Signal,
    end: Seq<Signal>,
)
    requires
        from < link.modulus(),
        1 < n < link.modulus(),
        first == carrying(link, from, link.sent_i_frames[from]),
        out.push(first).is_prefix_of(end),
        goes_again(
            Link { vs: number(link.modulus(), from, 1), ..link },
            number(link.modulus(), from, 1),
            n - 1,
            (out.len() + 1) as int,
            end,
        ),
    ensures
        out.is_prefix_of(end),
        goes_again(link, from, n, out.len() as int, end),
{
    let modulus: int = link.modulus();
    let moved: Link = Link { vs: number(link.modulus(), from, 1), ..link };
    let next: Seq<Signal> = out.push(first);
    assert(next =~= end.subrange(0, next.len() as int));
    assert(out =~= end.subrange(0, out.len() as int)) by {
        assert forall|k: int| 0 <= k < out.len() implies out[k] == end[k] by {
            assert(next[k] == end[k]);
        }
    }
    assert forall|i: int| 0 <= i < n implies (#[trigger] end[out.len() + i]) == carrying(
        link,
        number(modulus, from, i),
        link.sent_i_frames[number(modulus, from, i)],
    ) by {
        lemma_number(modulus, from, i);
        if i == 0 {
            assert(next[out.len() as int] == end[out.len() as int]);
        } else {
            assert(end[out.len() + 1 + (i - 1)] == carrying(
                moved,
                number(modulus, moved.vs, i - 1),
                moved.sent_i_frames[number(modulus, moved.vs, i - 1)],
            ));
        }
    }
}

/// What the retransmission does from a pass on, with `n` frames to go.
proof fn lemma_passes(
    subs: Seq<SubroutineSpec>,
    depth: nat,
    actions: Seq<ActionStep>,
    range: LoopRange,
    passes: int,
    m: Machine,
    t: Trigger,
    n: int,
)
    requires
        actions.len() == 5,
        actions[3].verb == Ax25ActionVerb::PushOldIFrameOntoQueue,
        actions[4].verb == Ax25ActionVerb::VSAssignVSPlus1,
        range.start == 3,
        range.length == 2,
        range.predicate == drawn::no(Ax25Guard::VsEqX),
        0 <= passes,
        0 < n < m.link.modulus(),
        passes + n <= MAX_ITERATIONS,
        m.link.vs < m.link.modulus(),
        m.link.x == Some(number(m.link.modulus(), m.link.vs, n)),
        forall|i: int|
            0 <= i < n ==> m.link.sent_i_frames.contains_key(
                #[trigger] number(m.link.modulus(), m.link.vs, i),
            ),
    ensures
        ({
            let o: Outcome = dispatch::run_until(subs, depth, actions, range, passes, m, t);
            &&& o.fault is None
            &&& m.out.is_prefix_of(o.machine.out)
            &&& goes_again(m.link, m.link.vs, n, m.out.len() as int, o.machine.out)
            &&& o.machine.link == (Link { vs: m.link.x->0, ..m.link })
        }),
    decreases n,
{
    let from: u8 = m.link.vs;
    let modulus: int = m.link.modulus();
    let first: Signal = carrying(m.link, from, m.link.sent_i_frames[from]);
    let next: Machine = m.emit(first).with_link(
        m.link.edited(Edit::Vs(m.link.next_seq(from))),
    );
    lemma_number(modulus, from, 0);
    lemma_number(modulus, from, n);
    assert(m.link.sent_i_frames.contains_key(number(modulus, from, 0)));
    lemma_pass(subs, depth, actions, m, t);
    lemma_moved(m.link, m.link.next_seq(from));
    let o: Outcome = dispatch::run_until(subs, depth, actions, range, passes, m, t);
    assert(next.out == m.out.push(first));
    if n > 1 {
        assert forall|i: int| 0 <= i < n - 1 implies next.link.sent_i_frames.contains_key(
            #[trigger] number(modulus, next.link.vs, i),
        ) by {
            lemma_number(modulus, from, i + 1);
            assert(m.link.sent_i_frames.contains_key(number(modulus, from, i + 1)));
        }
        lemma_passes(subs, depth, actions, range, passes + 1, next, t, n - 1);
        assert(o == dispatch::run_until(subs, depth, actions, range, passes + 1, next, t));
        lemma_goes_on(m.link, from, n, m.out, first, o.machine.out);
    } else {
        assert(o.machine == next);
        assert(m.out =~= next.out.subrange(0, m.out.len() as int));
        assert(next.out[m.out.len() as int] == first);
    }
}

/// Which frames go out again depends on what is retained and on V(R) alone.
proof fn lemma_same_again(
    link: Link,
    other: Link,
    from: u8,
    n: int,
    before: int,
    out: Seq<Signal>,
)
    requires
        goes_again(link, from, n, before, out),
        other.vr == link.vr,
        other.is_extended == link.is_extended,
        forall|i: int|
            0 <= i < n ==> other.sent_i_frames[#[trigger] number(link.modulus(), from, i)]
                == link.sent_i_frames[number(link.modulus(), from, i)],
    ensures
        goes_again(other, from, n, before, out),
{
    assert forall|i: int| 0 <= i < n implies (#[trigger] out[before + i]) == carrying(
        other,
        number(other.modulus(), from, i),
        other.sent_i_frames[number(other.modulus(), from, i)],
    ) by {
        assert(number(other.modulus(), from, i) == number(link.modulus(), from, i));
    }
}

/// The machine that has gone back to N(R) and noted where it was.
spec fn gone_back(m: Machine, nr: u8) -> Machine {
    let noted: Machine = m.with_link(m.link.edited(Edit::X(Some(m.link.vs))));
    noted.with_link(noted.link.edited(Edit::Vs(nr)))
}

proof fn lemma_gone_back(m: Machine, nr: u8)
    ensures
        gone_back(m, nr).out == m.out,
        gone_back(m, nr).link == (Link { vs: nr, x: Some(m.link.vs), ..m.link }),
{
    reveal(Link::edited);
    reveal(Link::with_x);
    reveal(Link::with_vs);
}

/// How `Invoke_Retransmission` starts.
pub open spec fn backing_chain() -> Seq<Ax25ActionVerb> {
    seq![Ax25ActionVerb::Backtrack, Ax25ActionVerb::XAssignVS, Ax25ActionVerb::VSAssignNR]
}

proof fn lemma_backs(actions: Seq<ActionStep>, loops: Seq<LoopRange>)
    requires
        invokes(actions, loops),
    ensures
        chains::lists_from(actions, loops, 0, backing_chain()),
        actions[3].verb == Ax25ActionVerb::PushOldIFrameOntoQueue,
        actions[4].verb == Ax25ActionVerb::VSAssignVSPlus1,
        dispatch::loop_from(loops, 3, 0) == Some(loops[0]),
{
    let whole: Seq<Ax25ActionVerb> = invoking_chain();
    let chain: Seq<Ax25ActionVerb> = backing_chain();
    reveal_with_fuel(dispatch::loop_from, 2);
    assert(actions[3].verb == whole[3]);
    assert(actions[4].verb == whole[4]);
    assert forall|i: int| 0 <= i < chain.len() implies actions[0 + i].verb == (#[trigger] chain[i])
        && dispatch::loop_from(loops, 0 + i, 0) is None by {
        assert(actions[i].verb == whole[i]);
    }
}

proof fn lemma_going_back(
    subs: Seq<SubroutineSpec>,
    depth: nat,
    actions: Seq<ActionStep>,
    loops: Seq<LoopRange>,
    m: Machine,
    t: Trigger,
)
    requires
        t.frame is Some,
        chains::lists_from(actions, loops, 0, backing_chain()),
    ensures
        dispatch::run_actions(subs, depth, actions, loops, 0, m, t) == dispatch::run_actions(
            subs,
            depth,
            actions,
            loops,
            3,
            gone_back(m, t.frame->0.nr),
            t,
        ),
{
    let noted: Machine = m.with_link(m.link.edited(Edit::X(Some(m.link.vs))));
    let back: Machine = gone_back(m, t.frame->0.nr);
    let chain: Seq<Ax25ActionVerb> = backing_chain();
    chains::lemma_primitive(subs, depth, Ax25ActionVerb::Backtrack, t, m, m);
    chains::lemma_edit(subs, depth, Ax25ActionVerb::XAssignVS, t, m, Edit::X(Some(m.link.vs)));
    chains::lemma_primitive(subs, depth, Ax25ActionVerb::VSAssignNR, t, noted, back);
    let way: Seq<Machine> = seq![m, m, noted, back];
    assert forall|i: int| 0 <= i < chain.len() implies chains::leads(
        subs,
        depth,
        #[trigger] chain[i],
        t,
        way[i],
        way[i + 1],
    ) by {
        assert(i == 0 || i == 1 || i == 2);
    }
    chains::lemma_part(subs, depth, actions, loops, 0, chain, t, way);
    assert(way.last() == back);
}

/// What `Invoke_Retransmission` does: the frames from N(R) on go out again, and V(S) is then
/// where it was.
proof fn lemma_invoking(
    subs: Seq<SubroutineSpec>,
    depth: nat,
    m: Machine,
    t: Trigger,
    n: int,
)
    requires
        depth > 0,
        drawn::draws_routines(subs),
        t.on != Ax25Event::SREJReceived,
        t.frame matches Some(f) && f.nr < m.link.modulus() && n == context::steps_ahead(
            f.nr,
            m.link.vs,
            m.link.modulus(),
        ) && forall|i: int|
            0 <= i < n ==> m.link.sent_i_frames.contains_key(
                #[trigger] number(m.link.modulus(), f.nr, i),
            ),
        m.link.vs < m.link.modulus(),
        n > 0,
    ensures
        ({
            let o: Outcome = dispatch::run_verb(
                subs,
                depth,
                Ax25ActionVerb::InvokeRetransmission,
                m,
                t,
            );
            &&& o.fault is None
            &&& m.out.is_prefix_of(o.machine.out)
            &&& goes_again(m.link, t.frame->0.nr, n, m.out.len() as int, o.machine.out)
            &&& o.machine.link == (Link { x: Some(m.link.vs), ..m.link })
        }),
{
    let inner: nat = (depth - 1) as nat;
    let nr: u8 = t.frame->0.nr;
    let paths: Seq<SubroutinePath> = dispatch::routine_from(subs, "Invoke_Retransmission"@, 0)->0;
    let actions: Seq<ActionStep> = paths[0].actions@;
    let loops: Seq<LoopRange> = paths[0].loops@;
    let back: Machine = gone_back(m, nr);
    assert(dispatch::path_from(paths, m, t, 0) == Some(paths[0]));
    lemma_backs(actions, loops);
    lemma_gone_back(m, nr);
    lemma_going_back(subs, inner, actions, loops, m, t);
    lemma_reaches(m.link.modulus(), nr, m.link.vs);
    lemma_passes(subs, inner, actions, loops[0], 0, back, t, n);
    let o: Outcome = dispatch::run_until(subs, inner, actions, loops[0], 0, back, t);
    assert(dispatch::run_actions(subs, inner, actions, loops, 3, back, t)
        == dispatch::run_actions(subs, inner, actions, loops, 5, o.machine, t));
    lemma_same_again(back.link, m.link, nr, n, m.out.len() as int, o.machine.out);
}

/// The frames from N(R) up to V(S) are all retained.
pub open spec fn retains_from(link: Link, nr: u8) -> bool {
    forall|i: int|
        0 <= i < context::steps_ahead(nr, link.vs, link.modulus())
            ==> link.sent_i_frames.contains_key(#[trigger] number(link.modulus(), nr, i))
}

/// A frame of the peer acknowledges within the window: N(R) lies in V(A) to V(S).
pub open spec fn acknowledges(link: Link, nr: u8) -> bool {
    &&& link.vs < link.modulus()
    &&& link.va < link.modulus()
    &&& nr < link.modulus()
    &&& context::steps_ahead(link.va, nr, link.modulus()) <= link.outstanding()
}

/// What an acknowledgement leaves of the frames that are not acknowledged.
proof fn lemma_acknowledged(link: Link, nr: u8)
    requires
        acknowledges(link, nr),
    ensures
        ({
            let after: Link = link.acknowledged(nr);
            &&& receives_as(link, after)
            &&& after.va == nr
            &&& after.vs == link.vs
            &&& after.selectively_retransmitted_since_ack.subset_of(
                link.selectively_retransmitted_since_ack,
            )
            &&& forall|ns: u8|
                context::in_window(nr, ns, link.vs, link.modulus())
                    && link.sent_i_frames.contains_key(ns) ==> (
                #[trigger] after.sent_i_frames.contains_key(ns)) && after.sent_i_frames[ns]
                    == link.sent_i_frames[ns]
        }),
{
    reveal(Link::acknowledged);
}

/// Every number from N(R) up to V(S) lies in the window between them.
proof fn lemma_in_window(modulus: int, nr: u8, vs: u8, i: int)
    requires
        modulus == 8 || modulus == 128,
        nr < modulus,
        vs < modulus,
        0 <= i < context::steps_ahead(nr, vs, modulus),
    ensures
        context::in_window(nr, number(modulus, nr, i), vs, modulus),
{
    lemma_turn(modulus, vs - nr);
    lemma_turn(modulus, nr + i);
    lemma_turn(modulus, number(modulus, nr, i) - nr);
}

/// The transition that a REJ within the window finds.
proof fn lemma_rej_match(page: Seq<TransitionSpec>, link: Link, timers: TimerSnapshot, t: Trigger)
    requires
        drawn::draws_rejects(page),
        t.on == Ax25Event::REJReceived,
        t.frame matches Some(f) && context::steps_ahead(link.va, f.nr, link.modulus())
            <= link.outstanding(),
    ensures
        session::first_match(page, link, timers, t, 0) matches Some(tr) && tr.on == t.on
            && tr.next@ == State::Connected.label() && chains::lists(
            tr.actions@,
            tr.loops@,
            rejecting_chain(),
        ),
{
    let rejs: Seq<TransitionSpec> = drawn::keyed(page, t.on, 0);
    drawn::lemma_match_is_keyed(page, link, timers, t, 0);
    drawn::lemma_keyed_on(page, t.on, 0);
    reveal_with_fuel(drawn::first_open, 4);
    assert(!guard::guard_holds(rejs[0].guard@, link, timers, t)) by {
        assert(!guard::term_holds(rejs[0].guard@[0], link, timers, t));
    }
    assert(!guard::guard_holds(rejs[1].guard@, link, timers, t)) by {
        assert(!guard::term_holds(rejs[1].guard@[0], link, timers, t));
    }
    assert(guard::guard_holds(rejs[2].guard@, link, timers, t));
}

/// What the verbs of a chain at `k` are, where the chain is part of a longer one.
pub proof fn lemma_lists_part(
    actions: Seq<ActionStep>,
    loops: Seq<LoopRange>,
    whole: Seq<Ax25ActionVerb>,
    k: int,
    chain: Seq<Ax25ActionVerb>,
)
    requires
        chains::lists(actions, loops, whole),
        0 <= k,
        k + chain.len() <= whole.len(),
        forall|i: int| 0 <= i < chain.len() ==> whole[k + i] == #[trigger] chain[i],
    ensures
        chains::lists_from(actions, loops, k, chain),
{
    assert forall|i: int| 0 <= i < chain.len() implies actions[k + i].verb == (#[trigger] chain[i])
        && dispatch::loop_from(loops, k + i, 0) is None by {
        assert(actions[k + i].verb == whole[k + i]);
    }
}

/// One verb of a chain without loops, and then the rest.
pub proof fn lemma_step(
    subs: Seq<SubroutineSpec>,
    depth: nat,
    actions: Seq<ActionStep>,
    loops: Seq<LoopRange>,
    k: int,
    m: Machine,
    t: Trigger,
)
    requires
        loops.len() == 0,
        0 <= k < actions.len(),
        dispatch::run_verb(subs, depth, actions[k].verb, m, t).fault is None,
    ensures
        dispatch::run_actions(subs, depth, actions, loops, k, m, t) == dispatch::run_actions(
            subs,
            depth,
            actions,
            loops,
            k + 1,
            dispatch::run_verb(subs, depth, actions[k].verb, m, t).machine,
            t,
        ),
{
}

/// A REJ up to the retransmission: the acknowledgement is taken, and nothing but replies goes
/// out.
#[verifier::rlimit(30)]
proof fn lemma_rejecting(
    subs: Seq<SubroutineSpec>,
    depth: nat,
    actions: Seq<ActionStep>,
    loops: Seq<LoopRange>,
    m: Machine,
    t: Trigger,
) -> (after: Machine)
    requires
        depth > 1,
        drawn::draws_routines(subs),
        chains::lists(actions, loops, rejecting_chain()),
        t.frame is Some,
    ensures
        steady::stands_as(m.link.acknowledged(t.frame->0.nr), after.link),
        m.out.is_prefix_of(after.out),
        forall|k: int|
            m.out.len() <= k < after.out.len() ==> steady::is_aside(#[trigger] after.out[k]),
        dispatch::run_actions(subs, depth, actions, loops, 0, m, t) == dispatch::run_actions(
            subs,
            depth,
            actions,
            loops,
            7,
            after,
            t,
        ),
{
    let whole: Seq<Ax25ActionVerb> = rejecting_chain();
    let nr: u8 = t.frame->0.nr;
    let first: Seq<Ax25ActionVerb> = plain_chain();
    lemma_lists_part(actions, loops, whole, 0, first);
    let a: Machine = lemma_calm_part(subs, depth, actions, loops, 0, first, m, t);
    let b: Machine = a.with_link(a.link.acknowledged(nr));
    assert(actions[2].verb == whole[2]);
    assert(dispatch::run_verb(subs, depth, Ax25ActionVerb::VAAssignNR, a, t) == verbs::done(b));
    lemma_step(subs, depth, actions, loops, 2, a, t);
    let second: Seq<Ax25ActionVerb> = seq![
        Ax25ActionVerb::StartT1,
        Ax25ActionVerb::StopT3,
        Ax25ActionVerb::ClearAcknowledgePending,
        Ax25ActionVerb::SelectT1Value,
    ];
    lemma_lists_part(actions, loops, whole, 3, second);
    let after: Machine = lemma_calm_part(subs, depth, actions, loops, 3, second, b, t);
    assert(steady::stands_as(m.link.acknowledged(nr), b.link)) by {
        reveal(Link::acknowledged);
    }
    assert forall|k: int| m.out.len() <= k < after.out.len() implies steady::is_aside(
        #[trigger] after.out[k],
    ) by {
        if k < a.out.len() {
            assert(b.out =~= after.out.subrange(0, b.out.len() as int));
            assert(after.out[k] == a.out[k]);
        }
    }
    after
}

/// What the actions of a REJ do.
#[verifier::rlimit(30)]
proof fn lemma_rejected(
    subs: Seq<SubroutineSpec>,
    depth: nat,
    actions: Seq<ActionStep>,
    loops: Seq<LoopRange>,
    m: Machine,
    t: Trigger,
    n: int,
)
    requires
        depth > 1,
        drawn::draws_routines(subs),
        chains::lists(actions, loops, rejecting_chain()),
        m.out.len() == 0,
        t.on == Ax25Event::REJReceived,
        t.frame matches Some(f) && acknowledges(m.link, f.nr) && f.nr != m.link.vs && retains_from(
            m.link,
            f.nr,
        ) && n == context::steps_ahead(f.nr, m.link.vs, m.link.modulus()),
    ensures
        ({
            let o: Outcome = dispatch::run_actions(subs, depth, actions, loops, 0, m, t);
            let out: Seq<Signal> = o.machine.out;
            let nr: u8 = t.frame->0.nr;
            &&& o.fault is None
            &&& receives_as(m.link, o.machine.link)
            &&& o.machine.link.vs == m.link.vs
            &&& o.machine.link.va == nr
            &&& n <= out.len()
            &&& goes_again(m.link, nr, n, out.len() - n, out)
            &&& forall|k: int| 0 <= k < out.len() - n ==> steady::is_aside(#[trigger] out[k])
        }),
{
    let nr: u8 = t.frame->0.nr;
    let modulus: int = m.link.modulus();
    let ready: Machine = lemma_rejecting(subs, depth, actions, loops, m, t);
    lemma_acknowledged(m.link, nr);
    lemma_reaches(modulus, nr, m.link.vs);
    assert forall|i: int| 0 <= i < n implies ready.link.sent_i_frames.contains_key(
        #[trigger] number(modulus, nr, i),
    ) && ready.link.sent_i_frames[number(modulus, nr, i)] == m.link.sent_i_frames[number(
        modulus,
        nr,
        i,
    )] by {
        lemma_in_window(modulus, nr, m.link.vs, i);
        assert(m.link.acknowledged(nr).sent_i_frames.contains_key(number(modulus, nr, i)));
    }
    lemma_invoking(subs, depth, ready, t, n);
    let verb: Ax25ActionVerb = Ax25ActionVerb::InvokeRetransmission;
    let o: Outcome = dispatch::run_verb(subs, depth, verb, ready, t);
    assert(actions[7].verb == rejecting_chain()[7]);
    lemma_step(subs, depth, actions, loops, 7, ready, t);
    lemma_same_again(ready.link, m.link, nr, n, ready.out.len() as int, o.machine.out);
    assert forall|k: int| 0 <= k < ready.out.len() implies steady::is_aside(
        #[trigger] o.machine.out[k],
    ) by {
        assert(ready.out =~= o.machine.out.subrange(0, ready.out.len() as int));
        assert(o.machine.out[k] == ready.out[k]);
    }
}

/// A REJ sends everything from its N(R) on again: after nothing but replies come the frames
/// from N(R) up to V(S), in the order of their numbers, each with the payload that is kept
/// under its number. V(S) stays, and N(R) is acknowledged.
pub proof fn law_a_rej_sends_again_what_is_kept(
    charts: Charts,
    link: Link,
    timers: TimerSnapshot,
    t: Trigger,
)
    requires
        drawn::drawn(charts),
        t.on == Ax25Event::REJReceived,
        t.frame matches Some(f) && acknowledges(link, f.nr) && f.nr != link.vs && retains_from(
            link,
            f.nr,
        ),
    ensures
        ({
            let d: Drive = session::dispatched(charts, State::Connected, link, timers, t);
            let nr: u8 = t.frame->0.nr;
            let n: int = context::steps_ahead(nr, link.vs, link.modulus());
            &&& d.fault is None
            &&& d.state == State::Connected
            &&& receives_as(link, d.link)
            &&& d.link.vs == link.vs
            &&& d.link.va == nr
            &&& goes_again(link, nr, n, d.out.len() - n, d.out)
            &&& n <= d.out.len()
            &&& forall|k: int|
                0 <= k < d.out.len() - n ==> steady::is_aside(#[trigger] d.out[k])
        }),
{
    let subs: Seq<SubroutineSpec> = charts.subroutines;
    let depth: nat = MAX_NESTING as nat;
    let n: int = context::steps_ahead(t.frame->0.nr, link.vs, link.modulus());
    assert(drawn::draws_rejects(charts.connected) && drawn::draws_routines(subs)) by {
        reveal(drawn::drawn);
    }
    lemma_rej_match(charts.connected, link, timers, t);
    lemma_stays_up(charts, link, timers, t);
    let tr: TransitionSpec = session::first_match(charts.connected, link, timers, t, 0)->0;
    let start: Machine = Machine::start(link, timers);
    lemma_rejected(subs, depth, tr.actions@, tr.loops@, start, t, n);
}

/// The signal stands at `p`, and everything else carries no data.
pub open spec fn alone_at(out: Seq<Signal>, signal: Signal, p: int) -> bool {
    &&& 0 <= p < out.len()
    &&& out[p] == signal
    &&& forall|k: int| 0 <= k < out.len() && k != p ==> steady::is_aside(#[trigger] out[k])
}

/// The signal goes out once, and nothing else that carries data does.
pub open spec fn goes_alone(out: Seq<Signal>, signal: Signal) -> bool {
    exists|p: int| #[trigger] alone_at(out, signal, p)
}

/// The transition that an SREJ within the window finds.
proof fn lemma_srej_match(page: Seq<TransitionSpec>, link: Link, timers: TimerSnapshot, t: Trigger)
    requires
        drawn::draws_rejects(page),
        t.on == Ax25Event::SREJReceived,
        t.frame matches Some(f) && context::steps_ahead(link.va, f.nr, link.modulus())
            <= link.outstanding(),
    ensures
        session::first_match(page, link, timers, t, 0) matches Some(tr) && tr.on == t.on
            && tr.next@ == State::Connected.label() && chains::lists(
            tr.actions@,
            tr.loops@,
            (if t.frame->0.poll_final {
                final_chain()
            } else {
                plain_chain()
            }) + selecting_chain(),
        ),
{
    let srejs: Seq<TransitionSpec> = drawn::keyed(page, t.on, 0);
    drawn::lemma_match_is_keyed(page, link, timers, t, 0);
    drawn::lemma_keyed_on(page, t.on, 0);
    reveal_with_fuel(drawn::first_open, 3);
    if t.frame->0.poll_final {
        assert(guard::guard_holds(srejs[0].guard@, link, timers, t));
    } else {
        assert(!guard::guard_holds(srejs[0].guard@, link, timers, t)) by {
            assert(!guard::term_holds(srejs[0].guard@[1], link, timers, t));
        }
        assert(guard::guard_holds(srejs[1].guard@, link, timers, t));
    }
}

/// The link may send the frame at `ns` again on its own: it awaits an acknowledgement, is
/// kept, and has not gone out again since V(A) advanced.
pub open spec fn may_replay(link: Link, ns: u8) -> bool {
    &&& link.awaits_ack(ns)
    &&& link.sent_i_frames.contains_key(ns)
    &&& !link.selectively_retransmitted_since_ack.contains(ns)
}

/// What the verb does that sends one frame again.
proof fn lemma_replaying(subs: Seq<SubroutineSpec>, depth: nat, m: Machine, t: Trigger)
    requires
        t.frame matches Some(f) && may_replay(m.link, f.nr),
    ensures
        ({
            let nr: u8 = t.frame->0.nr;
            let o: Outcome = dispatch::run_verb(
                subs,
                depth,
                Ax25ActionVerb::PushOldIFrameNROnQueue,
                m,
                t,
            );
            &&& o.fault is None
            &&& o.machine.out == m.out.push(carrying(m.link, nr, m.link.sent_i_frames[nr]))
            &&& o.machine.link == m.link.replayed(nr)
        }),
{
    reveal(Link::replayed);
}

/// What the actions of an SREJ do, from the first of those that every SREJ has.
proof fn lemma_selecting(
    subs: Seq<SubroutineSpec>,
    depth: nat,
    actions: Seq<ActionStep>,
    loops: Seq<LoopRange>,
    before: Seq<Ax25ActionVerb>,
    m: Machine,
    t: Trigger,
)
    requires
        depth > 1,
        drawn::draws_routines(subs),
        chains::lists(actions, loops, before + selecting_chain()),
        forall|k: int| 0 <= k < m.out.len() ==> steady::is_aside(#[trigger] m.out[k]),
        t.frame matches Some(f) && may_replay(m.link, f.nr),
    ensures
        ({
            let nr: u8 = t.frame->0.nr;
            let o: Outcome = dispatch::run_actions(
                subs,
                depth,
                actions,
                loops,
                before.len() as int,
                m,
                t,
            );
            &&& o.fault is None
            &&& steady::stands_as(m.link.replayed(nr), o.machine.link)
            &&& goes_alone(o.machine.out, carrying(m.link, nr, m.link.sent_i_frames[nr]))
        }),
{
    let whole: Seq<Ax25ActionVerb> = before + selecting_chain();
    let k: int = before.len() as int;
    let nr: u8 = t.frame->0.nr;
    let again: Signal = carrying(m.link, nr, m.link.sent_i_frames[nr]);
    let first: Seq<Ax25ActionVerb> = seq![
        Ax25ActionVerb::StopT1,
        Ax25ActionVerb::StartT3,
        Ax25ActionVerb::SelectT1Value,
    ];
    let second: Seq<Ax25ActionVerb> = seq![
        Ax25ActionVerb::LMDataRequest,
        Ax25ActionVerb::StopT3,
        Ax25ActionVerb::StartT1,
        Ax25ActionVerb::ClearAcknowledgePending,
    ];
    assert forall|i: int| 0 <= i < first.len() implies whole[k + i] == #[trigger] first[i] by {
        assert(whole[k + i] == selecting_chain()[i]);
    }
    assert forall|i: int| 0 <= i < second.len() implies whole[k + 4 + i] == #[trigger] second[i] by {
        assert(whole[k + 4 + i] == selecting_chain()[4 + i]);
    }
    lemma_lists_part(actions, loops, whole, k, first);
    lemma_lists_part(actions, loops, whole, k + 4, second);
    let a: Machine = lemma_calm_part(subs, depth, actions, loops, k, first, m, t);
    lemma_replaying(subs, depth, a, t);
    assert(actions[k + 3].verb == whole[k + 3]);
    assert(whole[k + 3] == selecting_chain()[3]);
    lemma_step(subs, depth, actions, loops, k + 3, a, t);
    let b: Machine = dispatch::run_verb(
        subs,
        depth,
        Ax25ActionVerb::PushOldIFrameNROnQueue,
        a,
        t,
    ).machine;
    let c: Machine = lemma_calm_part(subs, depth, actions, loops, k + 4, second, b, t);
    assert(dispatch::run_actions(subs, depth, actions, loops, k + 8, c, t) == verbs::done(c));
    assert(steady::stands_as(m.link.replayed(nr), b.link)) by {
        reveal(Link::replayed);
    }
    lemma_alone(m, a, b, c, again);
}

proof fn lemma_alone(m: Machine, a: Machine, b: Machine, c: Machine, again: Signal)
    requires
        forall|k: int| 0 <= k < m.out.len() ==> steady::is_aside(#[trigger] m.out[k]),
        steady::only_replies(m, a),
        b.out == a.out.push(again),
        steady::only_replies(b, c),
    ensures
        goes_alone(c.out, again),
{
    let p: int = a.out.len() as int;
    assert(m.out =~= a.out.subrange(0, m.out.len() as int));
    assert(b.out =~= c.out.subrange(0, b.out.len() as int));
    assert(c.out[p] == b.out[p]);
    assert forall|k: int| 0 <= k < c.out.len() && k != p implies steady::is_aside(
        #[trigger] c.out[k],
    ) by {
        if k < p {
            assert(c.out[k] == b.out[k]);
            assert(b.out[k] == a.out[k]);
            if k < m.out.len() {
                assert(a.out[k] == m.out[k]);
            }
        }
    }
    assert(alone_at(c.out, again, p));
}

/// What the actions of an SREJ do.
proof fn lemma_selected(
    subs: Seq<SubroutineSpec>,
    depth: nat,
    actions: Seq<ActionStep>,
    loops: Seq<LoopRange>,
    m: Machine,
    t: Trigger,
)
    requires
        depth > 1,
        drawn::draws_routines(subs),
        t.frame matches Some(f) && acknowledges(m.link, f.nr) && may_replay(m.link, f.nr)
            && chains::lists(
            actions,
            loops,
            (if f.poll_final {
                final_chain()
            } else {
                plain_chain()
            }) + selecting_chain(),
        ),
        m.out.len() == 0,
    ensures
        ({
            let nr: u8 = t.frame->0.nr;
            let o: Outcome = dispatch::run_actions(subs, depth, actions, loops, 0, m, t);
            &&& o.fault is None
            &&& receives_as(m.link, o.machine.link)
            &&& o.machine.link.vs == m.link.vs
            &&& goes_alone(o.machine.out, carrying(m.link, nr, m.link.sent_i_frames[nr]))
        }),
{
    let nr: u8 = t.frame->0.nr;
    let before: Seq<Ax25ActionVerb> = if t.frame->0.poll_final {
        final_chain()
    } else {
        plain_chain()
    };
    let whole: Seq<Ax25ActionVerb> = before + selecting_chain();
    let first: Seq<Ax25ActionVerb> = plain_chain();
    assert forall|i: int| 0 <= i < first.len() implies whole[0 + i] == #[trigger] first[i] by {
        assert(whole[i] == before[i]);
    }
    lemma_lists_part(actions, loops, whole, 0, first);
    let a: Machine = lemma_calm_part(subs, depth, actions, loops, 0, first, m, t);
    if t.frame->0.poll_final {
        let b: Machine = a.with_link(a.link.acknowledged(nr));
        assert(actions[2].verb == whole[2]);
        assert(whole[2] == before[2]);
        assert(dispatch::run_verb(subs, depth, Ax25ActionVerb::VAAssignNR, a, t) == verbs::done(b));
        lemma_step(subs, depth, actions, loops, 2, a, t);
        lemma_acknowledged(a.link, nr);
        lemma_turn(m.link.modulus(), nr - m.link.va);
        lemma_turn(m.link.modulus(), m.link.vs - m.link.va);
        lemma_turn(m.link.modulus(), m.link.vs - nr);
        lemma_turn(m.link.modulus(), nr - nr);
        assert(context::in_window(nr, nr, m.link.vs, m.link.modulus()));
        assert(b.link.sent_i_frames.contains_key(nr));
        lemma_selecting(subs, depth, actions, loops, before, b, t);
        reveal(Link::replayed);
    } else {
        lemma_selecting(subs, depth, actions, loops, before, a, t);
        reveal(Link::replayed);
    }
}

/// An SREJ sends the one frame of its N(R) again: one I frame, with the payload that is kept
/// under that number, goes out, and nothing else that carries data does. V(S) stays.
pub proof fn law_an_srej_sends_again_what_is_kept(
    charts: Charts,
    link: Link,
    timers: TimerSnapshot,
    t: Trigger,
)
    requires
        drawn::drawn(charts),
        t.on == Ax25Event::SREJReceived,
        t.frame matches Some(f) && acknowledges(link, f.nr) && may_replay(link, f.nr),
    ensures
        ({
            let d: Drive = session::dispatched(charts, State::Connected, link, timers, t);
            let nr: u8 = t.frame->0.nr;
            &&& d.fault is None
            &&& d.state == State::Connected
            &&& receives_as(link, d.link)
            &&& d.link.vs == link.vs
            &&& goes_alone(d.out, carrying(link, nr, link.sent_i_frames[nr]))
        }),
{
    let subs: Seq<SubroutineSpec> = charts.subroutines;
    let depth: nat = MAX_NESTING as nat;
    assert(drawn::draws_rejects(charts.connected) && drawn::draws_routines(subs)) by {
        reveal(drawn::drawn);
    }
    lemma_srej_match(charts.connected, link, timers, t);
    lemma_stays_up(charts, link, timers, t);
    let tr: TransitionSpec = session::first_match(charts.connected, link, timers, t, 0)->0;
    lemma_selected(subs, depth, tr.actions@, tr.loops@, Machine::start(link, timers), t);
}

/// A frame that goes out again is the frame that was asked for. Data that went out at V(S) on
/// a link with room in the window goes out again, once, with the same protocol identifier and
/// the same octets, when a REJ or an SREJ comes back with that number.
pub proof fn law_what_goes_out_again_is_what_was_asked_for(
    charts: Charts,
    link: Link,
    timers: TimerSnapshot,
    t: Trigger,
    pid: u8,
    data: Seq<u8>,
    back: Trigger,
)
    requires
        drawn::drawn(charts),
        t.on == Ax25Event::DLDATARequest,
        t.data == Some((pid, data)),
        link.i_frame_queue.len() == 0,
        link.vs < link.modulus(),
        link.va < link.modulus(),
        session::may_transmit(State::Connected, link),
        link.outstanding() + 1 < link.modulus(),
        back.on == Ax25Event::REJReceived || back.on == Ax25Event::SREJReceived,
        back.frame matches Some(f) && f.nr == link.vs,
    ensures
        ({
            let sent: Drive = session::driven(charts, State::Connected, link, timers, t);
            let d: Drive = session::dispatched(
                charts,
                sent.state,
                sent.link,
                sent.timers,
                back,
            );
            let frame: Signal = Signal::Frame(
                FrameSpecView::Information {
                    p: false,
                    nr: link.vr,
                    ns: link.vs,
                    pid,
                    info: data,
                },
            );
            &&& goes_alone(sent.out, frame)
            &&& d.fault is None
            &&& goes_alone(d.out, frame)
        }),
{
    let modulus: int = link.modulus();
    let payload: PayloadView = PayloadView { data, pid };
    let frame: Signal = carrying(link, link.vs, payload);
    law_data_goes_out_as_it_was_given(charts, link, timers, t, pid, data);
    let sent: Drive = session::driven(charts, State::Connected, link, timers, t);
    assert(alone_at(sent.out, frame, 1));
    let now: Link = sent.link;
    lemma_turn(modulus, link.vs - link.va);
    lemma_turn(modulus, link.vs + 1);
    lemma_turn(modulus, now.vs - now.va);
    lemma_turn(modulus, now.vs - link.vs);
    lemma_number(modulus, link.vs, 0);
    if back.on == Ax25Event::REJReceived {
        law_a_rej_sends_again_what_is_kept(charts, now, sent.timers, back);
        let d: Drive = session::dispatched(charts, sent.state, now, sent.timers, back);
        assert(d.out[d.out.len() - 1 + 0] == frame);
        assert(alone_at(d.out, frame, d.out.len() - 1));
    } else {
        law_an_srej_sends_again_what_is_kept(charts, now, sent.timers, back);
    }
}

} // verus!
