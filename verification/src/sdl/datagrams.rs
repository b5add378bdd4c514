//! UI frames, which need no connection.

use ax25sdl::{Ax25ActionVerb, Ax25Event, SubroutinePath, SubroutineSpec, TransitionSpec};
use vstd::prelude::*;

use super::chains;
use super::context::Link;
use super::dispatch;
use super::dispatch::MAX_NESTING;
use super::drawn;
use super::event::{FrameView, Trigger};
use super::fidelity;
use super::guard;
use super::session;
use super::session::{Drive, State};
use super::signal::{DataLinkSignalView, FrameSpecView, Signal};
use super::steady;
use super::tables::Charts;
use super::timer::TimerSnapshot;
use super::tx::Machine;
use super::verbs;
use super::verbs::Outcome;
use crate::ax25::PID_NO_LAYER3;

verus! {

/// Every state is found again by its name, and no other is.
proof fn lemma_next(link: Link, tr: TransitionSpec, state: State)
    requires
        tr.next@ == state.label(),
        tr.on != Ax25Event::DLCONNECTRequest,
    ensures
        session::successor(link, tr) == Some(state),
{
    session::law_state_names_round_trip(state);
}

/// A UI frame with a protocol identifier and octets.
pub open spec fn datagram(pid: u8, data: Seq<u8>) -> Signal {
    Signal::Frame(FrameSpecView::Ui { is_command: true, pf: false, pid, info: data })
}

/// A signal is a UI frame.
pub open spec fn is_datagram(signal: Signal) -> bool {
    signal is Frame && signal->Frame_0 is Ui
}

/// The drawing of how a datagram goes out.
proof fn lemma_sending(
    charts: Charts,
    state: State,
    link: Link,
    timers: TimerSnapshot,
    t: Trigger,
    pid: u8,
    data: Seq<u8>,
)
    requires
        drawn::draws_datagrams(state, charts.page(state)),
        t.on == Ax25Event::DLUNITDATARequest,
        t.data == Some((pid, data)),
    ensures
        session::dispatched(charts, state, link, timers, t) == (Drive {
            state,
            link,
            timers,
            out: seq![datagram(pid, data)],
            fault: None,
        }),
{
    let page: Seq<TransitionSpec> = charts.page(state);
    let subs: Seq<SubroutineSpec> = charts.subroutines;
    let depth: nat = MAX_NESTING as nat;
    drawn::lemma_match_is_keyed(page, link, timers, t, 0);
    drawn::lemma_keyed_on(page, t.on, 0);
    reveal_with_fuel(drawn::first_open, 2);
    let tr: TransitionSpec = session::first_match(page, link, timers, t, 0)->0;
    let start: Machine = Machine::start(link, timers);
    let sent: Machine = start.emit(datagram(pid, data));
    let chain: Seq<Ax25ActionVerb> = seq![Ax25ActionVerb::UICommand];
    let way: Seq<Machine> = seq![start, sent];
    assert(session::degraded(tr, page, link) == tr);
    assert(session::prepared(link, tr, t.on) == link);
    chains::lemma_primitive(subs, depth, Ax25ActionVerb::UICommand, t, start, sent);
    assert forall|i: int| 0 <= i < chain.len() implies chains::leads(
        subs,
        depth,
        #[trigger] chain[i],
        t,
        way[i],
        way[i + 1],
    ) by {
        assert(i == 0);
    }
    chains::lemma_chain(subs, depth, tr.actions@, tr.loops@, chain, t, way);
    lemma_next(link, tr, state);
    assert(sent.out =~= seq![datagram(pid, data)]);
}

/// A datagram that is to go out goes out in every state: one UI command, with the protocol
/// identifier and the octets that were given, and nothing else. The link, the timers and
/// the state stay as they were, and no other UI frame goes out with it.
pub proof fn law_a_datagram_goes_out_as_it_was_given(
    charts: Charts,
    state: State,
    link: Link,
    timers: TimerSnapshot,
    t: Trigger,
    pid: u8,
    data: Seq<u8>,
)
    requires
        drawn::drawn(charts),
        t.on == Ax25Event::DLUNITDATARequest,
        t.data == Some((pid, data)),
    ensures
        session::dispatched(charts, state, link, timers, t) == (Drive {
            state,
            link,
            timers,
            out: seq![datagram(pid, data)],
            fault: None,
        }),
        ({
            let d: Drive = session::driven(charts, state, link, timers, t);
            &&& d.out.len() > 0
            &&& d.out[0] == datagram(pid, data)
            &&& forall|k: int| 0 < k < d.out.len() ==> !is_datagram(#[trigger] d.out[k])
        }),
{
    assert(drawn::draws_datagrams(state, charts.page(state))) by {
        reveal(drawn::drawn);
    }
    lemma_sending(charts, state, link, timers, t, pid, data);
    let d: Drive = session::dispatched(charts, state, link, timers, t);
    let end: Drive = session::driven(charts, state, link, timers, t);
    fidelity::lemma_a_drain_has_no_datagrams(charts, d);
    assert(end == session::drained(charts, d));
    assert(d.out == end.out.subrange(0, 1));
    assert(d.out[0] == end.out[0]);
}

/// What is told of a UI frame that was received.
pub open spec fn told(f: FrameView) -> Signal {
    Signal::Upward(
        DataLinkSignalView::UnitDataIndication(
            match f.pid {
                Some(pid) => pid,
                None => PID_NO_LAYER3,
            },
            f.info,
        ),
    )
}

/// What `UI_Check` does to a command that fits.
proof fn lemma_checked(subs: Seq<SubroutineSpec>, depth: nat, m: Machine, t: Trigger)
    requires
        depth > 0,
        drawn::draws_routines(subs),
        t.frame matches Some(f) && f.is_command && (f.info.len() as u32) <= m.link.n1,
    ensures
        dispatch::run_verb(subs, depth, Ax25ActionVerb::UICheck, m, t) == verbs::done(
            m.emit(told(t.frame->0)),
        ),
{
    let inner: nat = (depth - 1) as nat;
    let paths: Seq<SubroutinePath> = dispatch::routine_from(subs, "UI_Check"@, 0)->0;
    let after: Machine = m.emit(told(t.frame->0));
    let chain: Seq<Ax25ActionVerb> = seq![Ax25ActionVerb::DLUNITDATAIndication];
    let way: Seq<Machine> = seq![m, after];
    reveal_with_fuel(dispatch::path_from, 3);
    assert(!guard::guard_holds(paths[0].guard@, m.link, m.timers, t)) by {
        assert(!guard::term_holds(paths[0].guard@[0], m.link, m.timers, t));
    }
    assert(guard::guard_holds(paths[1].guard@, m.link, m.timers, t));
    chains::lemma_primitive(subs, inner, chain[0], t, m, after);
    assert forall|i: int| 0 <= i < chain.len() implies chains::leads(
        subs,
        inner,
        #[trigger] chain[i],
        t,
        way[i],
        way[i + 1],
    ) by {
        assert(i == 0);
    }
    chains::lemma_routine(subs, inner, "UI_Check"@, chain, t, way);
    chains::lemma_call(subs, depth, Ax25ActionVerb::UICheck, t, m, after);
    reveal(chains::leads);
}

/// A UI command that is received is told to the user in every state, with the protocol
/// identifier and the octets that it carried, first and once. It changes no state, and
/// nothing of what the link has sent or received.
#[verifier::rlimit(30)]
pub proof fn law_a_datagram_is_told_as_it_came(
    charts: Charts,
    state: State,
    link: Link,
    timers: TimerSnapshot,
    t: Trigger,
)
    requires
        drawn::drawn(charts),
        t.on == Ax25Event::UIReceived,
        t.frame matches Some(f) && f.is_command && (f.info.len() as u32) <= link.n1,
    ensures
        ({
            let d: Drive = session::dispatched(charts, state, link, timers, t);
            &&& d.fault is None
            &&& d.state == state
            &&& steady::stands_as(link, d.link)
            &&& d.out.len() > 0
            &&& d.out[0] == told(t.frame->0)
            &&& forall|k: int| 0 < k < d.out.len() ==> steady::is_aside(#[trigger] d.out[k])
        }),
{
    reveal(drawn::drawn);
    let page: Seq<TransitionSpec> = charts.page(state);
    let subs: Seq<SubroutineSpec> = charts.subroutines;
    let depth: nat = MAX_NESTING as nat;
    assert(drawn::draws_datagrams(state, page));
    let comes: Seq<TransitionSpec> = drawn::keyed(page, t.on, 0);
    drawn::lemma_match_is_keyed(page, link, timers, t, 0);
    drawn::lemma_keyed_on(page, t.on, 0);
    reveal_with_fuel(drawn::first_open, 3);
    if comes[0].guard@[0].negate != t.frame->0.poll_final {
        assert(guard::guard_holds(comes[0].guard@, link, timers, t));
    } else {
        assert(!guard::term_holds(comes[0].guard@[0], link, timers, t));
        assert(!guard::guard_holds(comes[0].guard@, link, timers, t));
        assert(guard::guard_holds(comes[1].guard@, link, timers, t));
    }
    let tr: TransitionSpec = session::first_match(page, link, timers, t, 0)->0;
    assert(drawn::draws_a_datagram(tr, state));
    assert(session::degraded(tr, page, link) == tr);
    assert(session::prepared(link, tr, t.on) == link);
    let start: Machine = Machine::start(link, timers);
    let heard: Machine = start.emit(told(t.frame->0));
    lemma_checked(subs, depth, start, t);
    steady::lemma_steady_actions(subs, depth, tr.actions@, tr.loops@, true, 1, heard, t);
    let o: Outcome = dispatch::run_actions(subs, depth, tr.actions@, tr.loops@, 1, heard, t);
    assert(dispatch::run_actions(subs, depth, tr.actions@, tr.loops@, 0, start, t) == o);
    lemma_next(o.machine.link, tr, state);
    assert(heard.out == o.machine.out.subrange(0, 1));
    assert(o.machine.out[0] == heard.out[0]);
}

} // verus!
