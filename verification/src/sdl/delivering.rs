//! I frames that come before their turn, and the order in which data is delivered.

use ax25sdl::{
    ActionStep, Ax25ActionVerb, Ax25Event, Ax25Guard, GuardTerm, LoopRange, SubroutineSpec,
    TransitionSpec,
};
use vstd::prelude::*;

use super::chains;
use super::context;
use super::context::{Edit, Link, PayloadView};
use super::dispatch;
use super::dispatch::MAX_NESTING;
use super::drawn;
use super::event::{FrameView, Trigger};
use super::guard;
use super::loop_exec::MAX_ITERATIONS;
use super::receiving;
use super::resending;
use super::session;
use super::session::{Drive, State};
use super::signal::{
    DataLinkSignalView, FrameSpecView, LinkMultiplexerSignal, Signal, SupervisoryKind,
};
use super::steady;
use super::tables::Charts;
use super::timer;
use super::timer::TimerSnapshot;
use super::tx::{Machine, PendingFrame};
use super::verbs;
use super::verbs::Outcome;

verus! {

/// A data indication.
pub open spec fn indication(pid: u8, data: Seq<u8>) -> Signal {
    Signal::Upward(DataLinkSignalView::DataIndication(pid, data))
}

/// Whether `ns` is one of the `n` numbers from `from` on.
pub open spec fn is_read(modulus: int, from: u8, n: int, ns: u8) -> bool {
    ns < modulus && context::steps_ahead(from, ns, modulus) < n
}

/// The numbers from `from` on are `from` and those behind it.
proof fn lemma_read(modulus: int, from: u8, n: int, ns: u8)
    requires
        modulus == 8 || modulus == 128,
        from < modulus,
        0 < n < modulus,
    ensures
        is_read(modulus, from, n, ns) <==> ns == from || is_read(
            modulus,
            resending::number(modulus, from, 1),
            n - 1,
            ns,
        ),
{
    resending::lemma_turn(modulus, from + 1);
    if ns < modulus {
        resending::lemma_turn(modulus, ns - from);
        resending::lemma_turn(modulus, ns - resending::number(modulus, from, 1));
    }
}

/// Stored frames are delivered, one after the other, behind what went out before: the `n`
/// from `from` on.
pub open spec fn delivers_on(
    store: Map<u8, PayloadView>,
    modulus: int,
    from: u8,
    n: int,
    before: int,
    out: Seq<Signal>,
) -> bool {
    &&& before + n <= out.len()
    &&& forall|i: int|
        0 <= i < n ==> (#[trigger] out[before + i]) == indication(
            store[resending::number(modulus, from, i)].pid,
            store[resending::number(modulus, from, i)].data,
        )
}

/// The store without the `n` frames from `from` on.
pub open spec fn is_read_off(
    store: Map<u8, PayloadView>,
    modulus: int,
    from: u8,
    n: int,
    after: Map<u8, PayloadView>,
) -> bool {
    forall|ns: u8|
        {
            &&& #[trigger] after.contains_key(ns) == (store.contains_key(ns) && !is_read(
                modulus,
                from,
                n,
                ns,
            ))
            &&& after.contains_key(ns) ==> after[ns] == store[ns]
        }
}

/// Of a link, only V(R) and the store differ.
pub open spec fn same_but_store(link: Link, after: Link) -> bool {
    after == (Link {
        vr: after.vr,
        stored_received_i_frames: after.stored_received_i_frames,
        ..link
    })
}

/// The machine after one stored frame was delivered.
spec fn read_one(m: Machine) -> Machine {
    let payload: PayloadView = m.link.stored_received_i_frames[m.link.vr];
    let taken: Link = m.link.unstored();
    m.with_link(taken).with_staged(Some((payload.pid, payload.data))).with_staged(None).emit(
        indication(payload.pid, payload.data),
    ).with_link(taken.edited(Edit::Vr(taken.next_seq(taken.vr))))
}

proof fn lemma_read_one(
    subs: Seq<SubroutineSpec>,
    depth: nat,
    actions: Seq<ActionStep>,
    m: Machine,
    t: Trigger,
)
    requires
        actions.len() >= 8,
        forall|i: int|
            0 <= i < 3 ==> actions[5 + i].verb == #[trigger] receiving::retrieving_chain()[i],
        m.link.stored_received_i_frames.contains_key(m.link.vr),
    ensures
        dispatch::run_body(subs, depth, actions, 5, 8, m, t) == verbs::done(read_one(m)),
{
    let chain: Seq<Ax25ActionVerb> = receiving::retrieving_chain();
    assert(actions[5].verb == chain[0]);
    assert(actions[6].verb == chain[1]);
    assert(actions[7].verb == chain[2]);
    let payload: PayloadView = m.link.stored_received_i_frames[m.link.vr];
    let a: Machine = m.with_link(m.link.unstored()).with_staged(
        Some((payload.pid, payload.data)),
    );
    let b: Machine = a.with_staged(None).emit(indication(payload.pid, payload.data));
    assert(dispatch::run_verb(subs, depth, chain[0], m, t) == verbs::done(a));
    assert(dispatch::run_verb(subs, depth, chain[1], a, t) == verbs::done(b));
    assert(dispatch::run_verb(subs, depth, chain[2], b, t) == verbs::done(read_one(m)));
    assert(dispatch::run_body(subs, depth, actions, 8, 8, read_one(m), t) == verbs::done(
        read_one(m),
    ));
    assert(dispatch::run_body(subs, depth, actions, 7, 8, b, t) == verbs::done(read_one(m)));
    assert(dispatch::run_body(subs, depth, actions, 6, 8, a, t) == verbs::done(read_one(m)));
}

proof fn lemma_read_link(m: Machine)
    ensures
        ({
            let next: Machine = read_one(m);
            &&& next.staged is None
            &&& same_but_store(m.link, next.link)
            &&& next.link.vr == m.link.next_seq(m.link.vr)
            &&& next.link.stored_received_i_frames == m.link.stored_received_i_frames.remove(
                m.link.vr,
            )
            &&& next.out == m.out.push(
                indication(
                    m.link.stored_received_i_frames[m.link.vr].pid,
                    m.link.stored_received_i_frames[m.link.vr].data,
                ),
            )
        }),
{
    reveal(Link::unstored);
    reveal(Link::edited);
    reveal(Link::with_vr);
}

/// What is read first, and then what follows.
proof fn lemma_reads_on(
    store: Map<u8, PayloadView>,
    modulus: int,
    from: u8,
    n: int,
    out: Seq<Signal>,
    end: Seq<Signal>,
    after: Map<u8, PayloadView>,
)
    requires
        modulus == 8 || modulus == 128,
        from < modulus,
        0 < n < modulus,
        out.push(indication(store[from].pid, store[from].data)).is_prefix_of(end),
        delivers_on(
            store.remove(from),
            modulus,
            resending::number(modulus, from, 1),
            n - 1,
            (out.len() + 1) as int,
            end,
        ),
        is_read_off(
            store.remove(from),
            modulus,
            resending::number(modulus, from, 1),
            n - 1,
            after,
        ),
    ensures
        out.is_prefix_of(end),
        delivers_on(store, modulus, from, n, out.len() as int, end),
        is_read_off(store, modulus, from, n, after),
{
    let first: Signal = indication(store[from].pid, store[from].data);
    let next: Seq<Signal> = out.push(first);
    assert(next =~= end.subrange(0, next.len() as int));
    assert(out =~= end.subrange(0, out.len() as int)) by {
        assert forall|k: int| 0 <= k < out.len() implies out[k] == end[k] by {
            assert(next[k] == end[k]);
        }
    }
    assert forall|i: int| 0 <= i < n implies (#[trigger] end[out.len() + i]) == indication(
        store[resending::number(modulus, from, i)].pid,
        store[resending::number(modulus, from, i)].data,
    ) by {
        resending::lemma_number(modulus, from, i);
        if i == 0 {
            assert(next[out.len() as int] == end[out.len() as int]);
        } else {
            let ns: u8 = resending::number(modulus, from, i);
            assert(end[out.len() + 1 + (i - 1)] == indication(
                store.remove(from)[ns].pid,
                store.remove(from)[ns].data,
            ));
            assert(ns != from);
        }
    }
    assert forall|ns: u8|
        {
            &&& #[trigger] after.contains_key(ns) == (store.contains_key(ns) && !is_read(
                modulus,
                from,
                n,
                ns,
            ))
            &&& after.contains_key(ns) ==> after[ns] == store[ns]
        } by {
        lemma_read(modulus, from, n, ns);
    }
}

/// What the stored frames do from a pass on, with `n` that are next.
proof fn lemma_reading(
    subs: Seq<SubroutineSpec>,
    depth: nat,
    actions: Seq<ActionStep>,
    range: LoopRange,
    passes: int,
    m: Machine,
    t: Trigger,
    n: int,
)
    requires
        actions.len() >= 8,
        forall|i: int|
            0 <= i < 3 ==> actions[5 + i].verb == #[trigger] receiving::retrieving_chain()[i],
        range.start == 5,
        range.length == 3,
        range.predicate == drawn::yes(Ax25Guard::VrIFrameStored),
        m.staged is None,
        m.link.vr < m.link.modulus(),
        0 <= passes,
        0 <= n < m.link.modulus(),
        passes + n < MAX_ITERATIONS,
        forall|i: int|
            0 <= i < n ==> m.link.stored_received_i_frames.contains_key(
                #[trigger] resending::number(m.link.modulus(), m.link.vr, i),
            ),
        !m.link.stored_received_i_frames.contains_key(
            resending::number(m.link.modulus(), m.link.vr, n),
        ),
    ensures
        ({
            let o: Outcome = dispatch::run_while(subs, depth, actions, range, passes, m, t);
            let store: Map<u8, PayloadView> = m.link.stored_received_i_frames;
            let modulus: int = m.link.modulus();
            &&& o.fault is None
            &&& same_but_store(m.link, o.machine.link)
            &&& o.machine.link.vr == resending::number(modulus, m.link.vr, n)
            &&& m.out.is_prefix_of(o.machine.out)
            &&& o.machine.out.len() == m.out.len() + n
            &&& delivers_on(store, modulus, m.link.vr, n, m.out.len() as int, o.machine.out)
            &&& is_read_off(
                store,
                modulus,
                m.link.vr,
                n,
                o.machine.link.stored_received_i_frames,
            )
        }),
    decreases n,
{
    let modulus: int = m.link.modulus();
    let store: Map<u8, PayloadView> = m.link.stored_received_i_frames;
    let from: u8 = m.link.vr;
    resending::lemma_number(modulus, from, n);
    let o: Outcome = dispatch::run_while(subs, depth, actions, range, passes, m, t);
    if n == 0 {
        assert(o == verbs::done(m));
        assert forall|ns: u8| !is_read(modulus, from, 0, ns) by {
            if ns < modulus {
                resending::lemma_turn(modulus, ns - from);
            }
        }
    } else {
        let next: Machine = read_one(m);
        assert(store.contains_key(resending::number(modulus, from, 0)));
        lemma_read_one(subs, depth, actions, m, t);
        lemma_read_link(m);
        assert(next.link.vr == resending::number(modulus, from, 1));
        assert forall|i: int| 0 <= i < n - 1 implies next.link.stored_received_i_frames.contains_key(
            #[trigger] resending::number(modulus, next.link.vr, i),
        ) by {
            resending::lemma_number(modulus, from, i + 1);
            assert(store.contains_key(resending::number(modulus, from, i + 1)));
        }
        lemma_reading(subs, depth, actions, range, passes + 1, next, t, n - 1);
        assert(o == dispatch::run_while(subs, depth, actions, range, passes + 1, next, t));
        lemma_reads_on(
            store,
            modulus,
            from,
            n,
            m.out,
            o.machine.out,
            o.machine.link.stored_received_i_frames,
        );
    }
}

/// An I frame is a command that fits and acknowledges within the window, and the link can
/// take it in.
pub open spec fn acceptable(link: Link, t: Trigger) -> bool {
    &&& t.on == Ax25Event::IReceived
    &&& t.frame matches Some(f) && f.is_command && (f.info.len() as u32) <= link.n1
        && context::steps_ahead(link.va, f.nr, link.modulus()) <= link.outstanding()
        && f.pid is Some
    &&& !link.own_receiver_busy
    &&& link.vr < link.modulus()
}

/// What a frame brings.
pub open spec fn brought(f: FrameView) -> PayloadView {
    PayloadView { data: f.info, pid: f.pid->0 }
}

/// How the actions of a frame in turn end.
pub open spec fn ends_well(actions: Seq<ActionStep>, loops: Seq<LoopRange>) -> bool {
    ||| receiving::takes_in(actions, loops)
    ||| actions.len() == 8
    ||| actions.len() == 12 && forall|i: int|
        0 <= i < 4 ==> actions[8 + i].verb == #[trigger] receiving::polled_chain()[i]
}

/// The transition that a frame in turn finds, whether it polls and whether an
/// acknowledgement is owed or not.
proof fn lemma_turn_match(page: Seq<TransitionSpec>, link: Link, timers: TimerSnapshot, t: Trigger)
    requires
        drawn::draws_up(page),
        drawn::draws_frames(page),
        acceptable(link, t),
        t.frame->0.ns == link.vr,
    ensures
        session::first_match(page, link, timers, t, 0) matches Some(tr) && receiving::delivers(
            tr.actions@,
            tr.loops@,
        ) && ends_well(tr.actions@, tr.loops@) && tr.next@ == State::Connected.label() && tr.on
            == t.on,
{
    let frames: Seq<TransitionSpec> = drawn::keyed(page, t.on, 0);
    drawn::lemma_match_is_keyed(page, link, timers, t, 0);
    drawn::lemma_keyed_on(page, t.on, 0);
    reveal_with_fuel(drawn::first_open, 8);
    lemma_not_refused(frames, link, timers, t);
    if t.frame->0.poll_final {
        assert(!guard::guard_holds(frames[4].guard@, link, timers, t)) by {
            assert(!guard::term_holds(frames[4].guard@[5], link, timers, t));
        }
        assert(!guard::guard_holds(frames[5].guard@, link, timers, t)) by {
            assert(!guard::term_holds(frames[5].guard@[5], link, timers, t));
        }
        assert(guard::guard_holds(frames[6].guard@, link, timers, t));
    } else if link.acknowledge_pending {
        assert(!guard::guard_holds(frames[4].guard@, link, timers, t)) by {
            assert(!guard::term_holds(frames[4].guard@[6], link, timers, t));
        }
        assert(guard::guard_holds(frames[5].guard@, link, timers, t));
    } else {
        assert(guard::guard_holds(frames[4].guard@, link, timers, t));
    }
}

/// A frame that is acceptable is not refused.
proof fn lemma_not_refused(
    frames: Seq<TransitionSpec>,
    link: Link,
    timers: TimerSnapshot,
    t: Trigger,
)
    requires
        frames.len() >= 4,
        frames[0].guard@.len() > 1,
        frames[0].guard@[1] == drawn::no(
            Ax25Guard::InfoFieldLengthLeN1AndContentIsOctetAligned,
        ),
        frames[1].guard@.len() > 1,
        frames[1].guard@[1] == drawn::no(
            Ax25Guard::InfoFieldLengthLeN1AndContentIsOctetAligned,
        ),
        frames[2].guard@.len() > 2,
        frames[2].guard@[2] == drawn::no(Ax25Guard::VaLeNrLeVs),
        frames[3].guard@.len() > 2,
        frames[3].guard@[2] == drawn::no(Ax25Guard::VaLeNrLeVs),
        acceptable(link, t),
    ensures
        !guard::guard_holds(frames[0].guard@, link, timers, t),
        !guard::guard_holds(frames[1].guard@, link, timers, t),
        !guard::guard_holds(frames[2].guard@, link, timers, t),
        !guard::guard_holds(frames[3].guard@, link, timers, t),
{
    assert(!guard::term_holds(frames[0].guard@[1], link, timers, t));
    assert(!guard::term_holds(frames[1].guard@[1], link, timers, t));
    assert(!guard::term_holds(frames[2].guard@[2], link, timers, t));
    assert(!guard::term_holds(frames[3].guard@[2], link, timers, t));
}

/// The machine has delivered nothing more, and what it received stays.
pub open spec fn only_answers(m: Machine, after: Machine) -> bool {
    &&& after.link.vr == m.link.vr
    &&& after.link.is_extended == m.link.is_extended
    &&& after.link.i_frame_queue == m.link.i_frame_queue
    &&& after.link.stored_received_i_frames == m.link.stored_received_i_frames
    &&& m.out.is_prefix_of(after.out)
    &&& forall|k: int|
        m.out.len() <= k < after.out.len() ==> steady::is_aside(#[trigger] after.out[k])
}

/// What a frame in turn that polls does behind the stored frames.
proof fn lemma_polled(
    subs: Seq<SubroutineSpec>,
    depth: nat,
    actions: Seq<ActionStep>,
    loops: Seq<LoopRange>,
    m: Machine,
    t: Trigger,
)
    requires
        t.frame is Some,
        receiving::delivers(actions, loops),
        actions.len() == 12,
        forall|i: int|
            0 <= i < 4 ==> actions[8 + i].verb == #[trigger] receiving::polled_chain()[i],
    ensures
        ({
            let o: Outcome = dispatch::run_actions(subs, depth, actions, loops, 8, m, t);
            o.fault is None && only_answers(m, o.machine)
        }),
{
    let chain: Seq<Ax25ActionVerb> = receiving::polled_chain();
    let a: Machine = m.with_pending(PendingFrame { pf: Some(true), ..m.pending });
    let b: Machine = a.with_pending(PendingFrame { nr: Some(m.link.vr), ..a.pending });
    let c: Machine = verbs::send_supervisory(b, SupervisoryKind::Rr, false);
    let d: Machine = c.with_link(c.link.edited(Edit::AckPending(false)));
    let way: Seq<Machine> = seq![m, a, b, c, d];
    lemma_replying(subs, depth, m, t);
    lemma_replying(subs, depth, a, t);
    lemma_replying(subs, depth, b, t);
    lemma_replying(subs, depth, c, t);
    assert forall|i: int| 0 <= i < chain.len() implies chains::leads(
        subs,
        depth,
        #[trigger] chain[i],
        t,
        way[i],
        way[i + 1],
    ) by {
        assert(i == 0 || i == 1 || i == 2 || i == 3);
    }
    assert(chains::lists_from(actions, loops, 8, chain)) by {
        reveal_with_fuel(dispatch::loop_from, 2);
    }
    chains::lemma_part(subs, depth, actions, loops, 8, chain, t, way);
    receiving::lemma_arrival_edit(c.link, Edit::AckPending(false));
    assert(m.out =~= d.out.subrange(0, m.out.len() as int));
}

/// What a frame in turn does behind the stored frames.
proof fn lemma_ending(
    subs: Seq<SubroutineSpec>,
    depth: nat,
    actions: Seq<ActionStep>,
    loops: Seq<LoopRange>,
    m: Machine,
    t: Trigger,
)
    requires
        t.frame is Some,
        receiving::delivers(actions, loops),
        ends_well(actions, loops),
    ensures
        ({
            let o: Outcome = dispatch::run_actions(subs, depth, actions, loops, 8, m, t);
            o.fault is None && only_answers(m, o.machine)
        }),
{
    if actions.len() == 8 {
        assert(dispatch::run_actions(subs, depth, actions, loops, 8, m, t) == verbs::done(m));
    } else if actions.len() == 12 {
        lemma_polled(subs, depth, actions, loops, m, t);
    } else {
        let asked: Machine = m.emit(Signal::LinkMux(LinkMultiplexerSignal::SeizeRequest)).with_link(
            m.link.edited(Edit::AckPending(true)),
        );
        receiving::lemma_asking(subs, depth, actions, loops, m, t);
        receiving::lemma_arrival_edit(m.link, Edit::AckPending(true));
        assert(m.out =~= asked.out.subrange(0, m.out.len() as int));
    }
}

/// The frame comes in turn, and the `n` frames behind it are stored, but not the next.
pub open spec fn closes_a_gap(link: Link, t: Trigger, n: int) -> bool {
    &&& acceptable(link, t)
    &&& t.frame->0.ns == link.vr
    &&& 0 <= n < link.modulus()
    &&& forall|i: int|
        1 <= i <= n ==> link.stored_received_i_frames.contains_key(
            #[trigger] resending::number(link.modulus(), link.vr, i),
        )
    &&& !link.stored_received_i_frames.contains_key(
        resending::number(link.modulus(), link.vr, n + 1),
    )
}

/// What goes up when a frame closes a gap: the frame, then the `n` stored ones in the order
/// of their numbers, and no other data.
pub open spec fn goes_up_in_order(link: Link, f: FrameView, n: int, out: Seq<Signal>) -> bool {
    &&& n < out.len()
    &&& out[0] == indication(f.pid->0, f.info)
    &&& forall|i: int|
        1 <= i <= n ==> (#[trigger] out[i]) == indication(
            link.stored_received_i_frames[resending::number(link.modulus(), link.vr, i)].pid,
            link.stored_received_i_frames[resending::number(link.modulus(), link.vr, i)].data,
        )
    &&& forall|k: int| n < k < out.len() ==> steady::is_aside(#[trigger] out[k])
}

/// What the actions of a frame that closes a gap do.
proof fn lemma_closing(
    subs: Seq<SubroutineSpec>,
    depth: nat,
    actions: Seq<ActionStep>,
    loops: Seq<LoopRange>,
    m: Machine,
    t: Trigger,
    n: int,
)
    requires
        depth > 1,
        drawn::draws_routines(subs),
        receiving::delivers(actions, loops),
        ends_well(actions, loops),
        m.staged is None,
        m.out.len() == 0,
        closes_a_gap(m.link, t, n),
    ensures
        ({
            let o: Outcome = dispatch::run_actions(subs, depth, actions, loops, 0, m, t);
            let modulus: int = m.link.modulus();
            &&& o.fault is None
            &&& o.machine.link.vr == resending::number(modulus, m.link.vr, n + 1)
            &&& o.machine.link.is_extended == m.link.is_extended
            &&& o.machine.link.i_frame_queue == m.link.i_frame_queue
            &&& is_read_off(
                m.link.stored_received_i_frames,
                modulus,
                resending::number(modulus, m.link.vr, 1),
                n,
                o.machine.link.stored_received_i_frames,
            )
            &&& goes_up_in_order(m.link, t.frame->0, n, o.machine.out)
        }),
{
    let modulus: int = m.link.modulus();
    let vr: u8 = m.link.vr;
    let store: Map<u8, PayloadView> = m.link.stored_received_i_frames;
    let come: Machine = receiving::lemma_arriving(subs, depth, actions, loops, m, t);
    receiving::lemma_arrival_edit(m.link, Edit::Vr(m.link.next_seq(vr)));
    receiving::lemma_no_loop_before(actions, loops);
    let first: u8 = resending::number(modulus, vr, 1);
    resending::lemma_number(modulus, vr, 0);
    assert(come.link.vr == first);
    assert forall|i: int| 0 <= i < n implies come.link.stored_received_i_frames.contains_key(
        #[trigger] resending::number(modulus, first, i),
    ) by {
        resending::lemma_number(modulus, vr, i + 1);
        assert(store.contains_key(resending::number(modulus, vr, i + 1)));
    }
    lemma_behind(modulus, vr, n);
    lemma_reading(subs, depth, actions, loops[0], 0, come, t, n);
    let read: Outcome = dispatch::run_while(subs, depth, actions, loops[0], 0, come, t);
    assert(dispatch::run_actions(subs, depth, actions, loops, 5, come, t)
        == dispatch::run_actions(subs, depth, actions, loops, 8, read.machine, t));
    lemma_ending(subs, depth, actions, loops, read.machine, t);
    let end: Seq<Signal> = dispatch::run_actions(
        subs,
        depth,
        actions,
        loops,
        8,
        read.machine,
        t,
    ).machine.out;
    assert(m.out =~= Seq::<Signal>::empty());
    lemma_in_order(m.link, t, n, come.out, read.machine.out, end);
}

/// The number behind the `n` numbers behind V(R).
proof fn lemma_behind(modulus: int, vr: u8, n: int)
    requires
        modulus == 8 || modulus == 128,
        vr < modulus,
        0 <= n < modulus,
    ensures
        resending::number(modulus, resending::number(modulus, vr, 1), n) == resending::number(
            modulus,
            vr,
            n + 1,
        ),
{
    resending::lemma_turn(modulus, vr + 1);
    resending::lemma_turn(modulus, vr + n + 1);
    resending::lemma_turn(modulus, resending::number(modulus, vr, 1) + n);
}

proof fn lemma_in_order(
    link: Link,
    t: Trigger,
    n: int,
    come: Seq<Signal>,
    read: Seq<Signal>,
    end: Seq<Signal>,
)
    requires
        closes_a_gap(link, t, n),
        come == Seq::<Signal>::empty().push(receiving::delivery(t)),
        come.is_prefix_of(read),
        read.len() == n + 1,
        delivers_on(
            link.stored_received_i_frames,
            link.modulus(),
            resending::number(link.modulus(), link.vr, 1),
            n,
            1,
            read,
        ),
        read.is_prefix_of(end),
        forall|k: int| read.len() <= k < end.len() ==> steady::is_aside(#[trigger] end[k]),
    ensures
        goes_up_in_order(link, t.frame->0, n, end),
{
    let modulus: int = link.modulus();
    assert(come =~= read.subrange(0, 1));
    assert(read =~= end.subrange(0, read.len() as int));
    assert(end[0] == read[0]);
    assert(read[0] == come[0]);
    assert forall|i: int| 1 <= i <= n implies (#[trigger] end[i]) == indication(
        link.stored_received_i_frames[resending::number(modulus, link.vr, i)].pid,
        link.stored_received_i_frames[resending::number(modulus, link.vr, i)].data,
    ) by {
        resending::lemma_number(modulus, link.vr, i);
        assert(end[i] == read[1 + (i - 1)]);
    }
}

/// Data goes up in the order of its numbers. A frame that comes in turn is delivered, and
/// behind it, as long as the next frame is stored, that one too: the information fields and
/// the protocol identifiers that were received, and no others. V(R) is then the first number
/// that is still missing, and what was delivered is no longer stored.
pub proof fn law_data_goes_up_in_order(
    charts: Charts,
    link: Link,
    timers: TimerSnapshot,
    t: Trigger,
    n: int,
)
    requires
        drawn::drawn(charts),
        closes_a_gap(link, t, n),
    ensures
        ({
            let d: Drive = session::dispatched(charts, State::Connected, link, timers, t);
            &&& d.fault is None
            &&& d.state == State::Connected
            &&& d.link.vr == resending::number(link.modulus(), link.vr, n + 1)
            &&& d.link.is_extended == link.is_extended
            &&& d.link.i_frame_queue == link.i_frame_queue
            &&& is_read_off(
                link.stored_received_i_frames,
                link.modulus(),
                resending::number(link.modulus(), link.vr, 1),
                n,
                d.link.stored_received_i_frames,
            )
            &&& goes_up_in_order(link, t.frame->0, n, d.out)
        }),
{
    let subs: Seq<SubroutineSpec> = charts.subroutines;
    let depth: nat = MAX_NESTING as nat;
    assert(drawn::draws_up(charts.connected) && drawn::draws_frames(charts.connected)
        && drawn::draws_routines(subs)) by {
        reveal(drawn::drawn);
    }
    lemma_turn_match(charts.connected, link, timers, t);
    resending::lemma_stays_up(charts, link, timers, t);
    let tr: TransitionSpec = session::first_match(charts.connected, link, timers, t, 0)->0;
    let start: Machine = Machine::start(link, timers);
    lemma_closing(subs, depth, tr.actions@, tr.loops@, start, t, n);
}

/// The frame comes before its turn, to a link that keeps such frames.
pub open spec fn comes_early(link: Link, t: Trigger) -> bool {
    &&& acceptable(link, t)
    &&& t.frame->0.ns != link.vr
    &&& link.srej_enabled
    &&& !guard::takes_reject_branch(link, t)
}

/// What asks for what is missing: an SREJ for V(R) with F = 1 where one frame is missing, a
/// REJ where more are, and an SREJ with F = 0 while frames are asked for already, for V(R)
/// if that correction is on and else for the frame itself.
pub open spec fn asking_for(link: Link, f: FrameView) -> FrameSpecView {
    let asked: bool = link.srej_exception_count > 0;
    let far: bool = context::steps_ahead(link.vr, f.ns, link.modulus()) > 1;
    FrameSpecView::Supervisory {
        kind: if !asked && far {
            SupervisoryKind::Rej
        } else {
            SupervisoryKind::Srej
        },
        is_command: false,
        nr: if asked && !link.quirks.srej_targets_gap {
            f.ns
        } else {
            link.vr
        },
        pf: if asked {
            false
        } else if far {
            f.poll_final
        } else {
            true
        },
    }
}

/// The chain of a frame that comes early.
pub open spec fn early_chain(link: Link, f: FrameView) -> Seq<Ax25ActionVerb> {
    if link.srej_exception_count > 0 {
        receiving::asking_again_chain()
    } else if context::steps_ahead(link.vr, f.ns, link.modulus()) > 1 {
        receiving::going_back_chain()
    } else {
        receiving::asking_once_chain()
    }
}

/// Where the first four terms hold and the fifth does not, none of the transitions for a
/// frame in turn is open.
proof fn lemma_not_in_turn(
    frames: Seq<TransitionSpec>,
    link: Link,
    timers: TimerSnapshot,
    t: Trigger,
)
    requires
        frames.len() >= 7,
        acceptable(link, t),
        t.frame->0.ns != link.vr,
        frames[4].guard@.len() > 4,
        frames[4].guard@[4] == drawn::yes(Ax25Guard::NsEqVr),
        frames[5].guard@.len() > 4,
        frames[5].guard@[4] == drawn::yes(Ax25Guard::NsEqVr),
        frames[6].guard@.len() > 4,
        frames[6].guard@[4] == drawn::yes(Ax25Guard::NsEqVr),
    ensures
        !guard::guard_holds(frames[4].guard@, link, timers, t),
        !guard::guard_holds(frames[5].guard@, link, timers, t),
        !guard::guard_holds(frames[6].guard@, link, timers, t),
{
    assert(!guard::term_holds(frames[4].guard@[4], link, timers, t));
    assert(!guard::term_holds(frames[5].guard@[4], link, timers, t));
    assert(!guard::term_holds(frames[6].guard@[4], link, timers, t));
}

/// Where what stands before the decision holds, the rest of the guard decides.
proof fn lemma_decides(
    terms: Seq<GuardTerm>,
    link: Link,
    timers: TimerSnapshot,
    t: Trigger,
)
    requires
        acceptable(link, t),
        t.frame->0.ns != link.vr,
    ensures
        guard::guard_holds(drawn::out_of_turn() + terms, link, timers, t) == guard::guard_holds(
            terms,
            link,
            timers,
            t,
        ),
{
    let first: Seq<GuardTerm> = drawn::out_of_turn();
    let whole: Seq<GuardTerm> = first + terms;
    assert(guard::guard_holds(first, link, timers, t));
    if guard::guard_holds(terms, link, timers, t) {
        assert forall|i: int| 0 <= i < whole.len() implies guard::term_holds(
            #[trigger] whole[i],
            link,
            timers,
            t,
        ) by {
            if i < first.len() {
                assert(whole[i] == first[i]);
            } else {
                assert(whole[i] == terms[i - first.len()]);
            }
        }
    }
    if guard::guard_holds(whole, link, timers, t) {
        assert forall|i: int| 0 <= i < terms.len() implies guard::term_holds(
            #[trigger] terms[i],
            link,
            timers,
            t,
        ) by {
            assert(whole[first.len() + i] == terms[i]);
        }
    }
}

/// The transition that a frame finds that comes early.
proof fn lemma_early_match(page: Seq<TransitionSpec>, link: Link, timers: TimerSnapshot, t: Trigger)
    requires
        drawn::draws_up(page),
        drawn::draws_frames(page),
        comes_early(link, t),
    ensures
        session::first_match(page, link, timers, t, 0) matches Some(tr) && chains::lists(
            tr.actions@,
            tr.loops@,
            early_chain(link, t.frame->0),
        ) && tr.next@ == State::Connected.label() && tr.on == t.on,
{
    let frames: Seq<TransitionSpec> = drawn::keyed(page, t.on, 0);
    let rejecting: Ax25Guard = Ax25Guard::RejectException;
    let selective: Ax25Guard = Ax25Guard::SREJEnabled;
    let asked: Ax25Guard = Ax25Guard::SrejectExceptionGt0;
    let polls: Ax25Guard = Ax25Guard::PEq1;
    let far: Ax25Guard = Ax25Guard::NsGtVrPlus1;
    drawn::lemma_match_is_keyed(page, link, timers, t, 0);
    drawn::lemma_keyed_on(page, t.on, 0);
    lemma_not_refused(frames, link, timers, t);
    lemma_not_in_turn(frames, link, timers, t);
    let seven: Seq<GuardTerm> = seq![drawn::yes(rejecting), drawn::yes(polls)];
    let eight: Seq<GuardTerm> = seq![drawn::yes(rejecting), drawn::no(polls)];
    let nine: Seq<GuardTerm> = seq![drawn::no(rejecting), drawn::no(selective)];
    let ten: Seq<GuardTerm> = seq![
        drawn::no(rejecting),
        drawn::yes(selective),
        drawn::yes(asked),
    ];
    let eleven: Seq<GuardTerm> = seq![
        drawn::no(rejecting),
        drawn::yes(selective),
        drawn::no(asked),
        drawn::yes(far),
    ];
    let twelve: Seq<GuardTerm> = seq![
        drawn::no(rejecting),
        drawn::yes(selective),
        drawn::no(asked),
        drawn::no(far),
    ];
    lemma_decides(seven, link, timers, t);
    lemma_decides(eight, link, timers, t);
    lemma_decides(nine, link, timers, t);
    lemma_decides(ten, link, timers, t);
    lemma_decides(eleven, link, timers, t);
    lemma_decides(twelve, link, timers, t);
    assert(!guard::term_holds(seven[0], link, timers, t));
    assert(!guard::term_holds(eight[0], link, timers, t));
    assert(!guard::term_holds(nine[1], link, timers, t));
    reveal_with_fuel(drawn::first_open, 14);
    if link.srej_exception_count > 0 {
        assert(guard::guard_holds(ten, link, timers, t));
    } else {
        assert(!guard::term_holds(ten[2], link, timers, t));
        if context::steps_ahead(link.vr, t.frame->0.ns, link.modulus()) > 1 {
            assert(guard::guard_holds(eleven, link, timers, t));
        } else {
            assert(!guard::term_holds(eleven[3], link, timers, t));
            assert(guard::guard_holds(twelve, link, timers, t));
        }
    }
}

/// A link that has kept a frame: what it brought is stored under its number, and V(R) and
/// what goes out stay.
pub open spec fn has_kept(link: Link, f: FrameView, after: Link) -> bool {
    &&& after.vr == link.vr
    &&& after.is_extended == link.is_extended
    &&& after.quirks == link.quirks
    &&& after.n1 == link.n1
    &&& after.own_receiver_busy == link.own_receiver_busy
    &&& after.i_frame_queue == link.i_frame_queue
    &&& after.stored_received_i_frames == link.stored_received_i_frames.insert(f.ns, brought(f))
}

/// What a change behind the keeping of a frame leaves alone.
proof fn lemma_still_kept(link: Link, f: FrameView, after: Link, edit: Edit)
    requires
        has_kept(link, f, after),
        match edit {
            Edit::Reject(_) => true,
            Edit::Sreject(_, _) => true,
            Edit::AckPending(_) => true,
            _ => false,
        },
    ensures
        has_kept(link, f, after.edited(edit)),
{
    receiving::lemma_arrival_edit(after, edit);
}

/// The first two verbs of a frame that comes early: its acknowledgement is taken, and what
/// it brought is kept.
proof fn lemma_keeping(
    subs: Seq<SubroutineSpec>,
    depth: nat,
    actions: Seq<ActionStep>,
    loops: Seq<LoopRange>,
    m: Machine,
    t: Trigger,
) -> (after: Machine)
    requires
        depth > 1,
        drawn::draws_routines(subs),
        loops.len() == 0,
        actions.len() >= 2,
        actions[0].verb == Ax25ActionVerb::CheckIFrameAcknowledged,
        actions[1].verb == Ax25ActionVerb::SaveContentsOfIFrame,
        t.frame matches Some(f) && f.pid is Some,
    ensures
        has_kept(m.link, t.frame->0, after.link),
        after.out == m.out,
        after.pending == m.pending,
        dispatch::run_actions(subs, depth, actions, loops, 0, m, t) == dispatch::run_actions(
            subs,
            depth,
            actions,
            loops,
            2,
            after,
            t,
        ),
{
    let f: FrameView = t.frame->0;
    let checked: Machine = receiving::lemma_checked(subs, depth, m, t);
    let after: Machine = checked.with_link(checked.link.stored(f.ns, brought(f)));
    chains::lemma_primitive(
        subs,
        depth,
        Ax25ActionVerb::SaveContentsOfIFrame,
        t,
        checked,
        after,
    );
    reveal(Link::stored);
    let chain: Seq<Ax25ActionVerb> = seq![
        Ax25ActionVerb::CheckIFrameAcknowledged,
        Ax25ActionVerb::SaveContentsOfIFrame,
    ];
    let way: Seq<Machine> = seq![m, checked, after];
    assert forall|i: int| 0 <= i < chain.len() implies chains::leads(
        subs,
        depth,
        #[trigger] chain[i],
        t,
        way[i],
        way[i + 1],
    ) by {
        assert(i == 0 || i == 1);
    }
    assert forall|i: int| 0 <= i < chain.len() implies actions[0 + i].verb == (#[trigger] chain[i])
        && dispatch::loop_from(loops, 0 + i, 0) is None by {
        assert(i == 0 || i == 1);
    }
    chains::lemma_part(subs, depth, actions, loops, 0, chain, t, way);
    after
}

/// A frame is asked for: one supervisory frame goes out, and what was kept stays kept.
spec fn asks(link: Link, f: FrameView, m: Machine, o: Outcome) -> bool {
    &&& o.fault is None
    &&& has_kept(link, f, o.machine.link)
    &&& o.machine.out == m.out.push(Signal::Frame(asking_for(link, f)))
}

/// What the verbs do of which the replies to a frame are made.
proof fn lemma_replying(subs: Seq<SubroutineSpec>, depth: nat, m: Machine, t: Trigger)
    requires
        t.frame is Some,
    ensures
        chains::leads(
            subs,
            depth,
            Ax25ActionVerb::NRAssignVR,
            t,
            m,
            m.with_pending(PendingFrame { nr: Some(m.link.vr), ..m.pending }),
        ),
        chains::leads(
            subs,
            depth,
            Ax25ActionVerb::FAssign0,
            t,
            m,
            m.with_pending(PendingFrame { pf: Some(false), ..m.pending }),
        ),
        chains::leads(
            subs,
            depth,
            Ax25ActionVerb::FAssign1,
            t,
            m,
            m.with_pending(PendingFrame { pf: Some(true), ..m.pending }),
        ),
        chains::leads(
            subs,
            depth,
            Ax25ActionVerb::FAssignP,
            t,
            m,
            m.with_pending(PendingFrame { pf: Some(t.frame->0.poll_final), ..m.pending }),
        ),
        chains::leads(
            subs,
            depth,
            Ax25ActionVerb::SREJ,
            t,
            m,
            verbs::send_supervisory(m, SupervisoryKind::Srej, false),
        ),
        chains::leads(
            subs,
            depth,
            Ax25ActionVerb::REJ,
            t,
            m,
            verbs::send_supervisory(m, SupervisoryKind::Rej, false),
        ),
        chains::leads(
            subs,
            depth,
            Ax25ActionVerb::RR,
            t,
            m,
            verbs::send_supervisory(m, SupervisoryKind::Rr, false),
        ),
        chains::leads(
            subs,
            depth,
            Ax25ActionVerb::IncrementSrejectException,
            t,
            m,
            m.with_link(m.link.edited(counted(m.link))),
        ),
        chains::leads(
            subs,
            depth,
            Ax25ActionVerb::ClearAcknowledgePending,
            t,
            m,
            m.with_link(m.link.edited(Edit::AckPending(false))),
        ),
{
    reveal(chains::leads);
}

/// What N(R) the frame gets that asks for one more.
proof fn lemma_pointing(subs: Seq<SubroutineSpec>, depth: nat, m: Machine, t: Trigger, nr: u8)
    requires
        t.on == Ax25Event::IReceived,
        t.frame is Some,
        nr == if m.link.quirks.srej_targets_gap {
            m.link.vr
        } else {
            t.frame->0.ns
        },
    ensures
        chains::leads(
            subs,
            depth,
            Ax25ActionVerb::NRAssignNS,
            t,
            m,
            m.with_pending(PendingFrame { nr: Some(nr), ..m.pending }),
        ),
{
    reveal(chains::leads);
}

/// One more SREJ is out.
spec fn counted(link: Link) -> Edit {
    Edit::Sreject(timer::saturated(link.srej_exception_count + 1), true)
}

/// How a frame that comes early ends while others are asked for.
proof fn lemma_asking_again(
    subs: Seq<SubroutineSpec>,
    depth: nat,
    actions: Seq<ActionStep>,
    loops: Seq<LoopRange>,
    link: Link,
    m: Machine,
    t: Trigger,
)
    requires
        chains::lists(actions, loops, receiving::asking_again_chain()),
        t.on == Ax25Event::IReceived,
        t.frame is Some,
        has_kept(link, t.frame->0, m.link),
        link.srej_exception_count > 0,
    ensures
        asks(
            link,
            t.frame->0,
            m,
            dispatch::run_actions(subs, depth, actions, loops, 2, m, t),
        ),
{
    let f: FrameView = t.frame->0;
    let whole: Seq<Ax25ActionVerb> = receiving::asking_again_chain();
    let nr: u8 = if m.link.quirks.srej_targets_gap {
        m.link.vr
    } else {
        f.ns
    };
    let a: Machine = m.with_pending(PendingFrame { nr: Some(nr), ..m.pending });
    let b: Machine = a.with_pending(PendingFrame { pf: Some(false), ..a.pending });
    let c: Machine = b.with_link(b.link.edited(counted(b.link)));
    let d: Machine = verbs::send_supervisory(c, SupervisoryKind::Srej, false);
    let chain: Seq<Ax25ActionVerb> = seq![
        Ax25ActionVerb::NRAssignNS,
        Ax25ActionVerb::FAssign0,
        Ax25ActionVerb::IncrementSrejectException,
        Ax25ActionVerb::SREJ,
    ];
    let way: Seq<Machine> = seq![m, a, b, c, d];
    lemma_pointing(subs, depth, m, t, nr);
    lemma_replying(subs, depth, a, t);
    lemma_replying(subs, depth, b, t);
    lemma_replying(subs, depth, c, t);
    assert forall|i: int| 0 <= i < chain.len() implies chains::leads(
        subs,
        depth,
        #[trigger] chain[i],
        t,
        way[i],
        way[i + 1],
    ) by {
        assert(i == 0 || i == 1 || i == 2 || i == 3);
    }
    resending::lemma_lists_part(actions, loops, whole, 2, chain);
    chains::lemma_part(subs, depth, actions, loops, 2, chain, t, way);
    lemma_still_kept(link, f, b.link, counted(b.link));
}

/// How a frame that comes early ends where one is missing.
proof fn lemma_asking_once(
    subs: Seq<SubroutineSpec>,
    depth: nat,
    actions: Seq<ActionStep>,
    loops: Seq<LoopRange>,
    link: Link,
    m: Machine,
    t: Trigger,
)
    requires
        chains::lists(actions, loops, receiving::asking_once_chain()),
        t.frame is Some,
        has_kept(link, t.frame->0, m.link),
        link.srej_exception_count == 0,
        context::steps_ahead(link.vr, t.frame->0.ns, link.modulus()) <= 1,
    ensures
        asks(
            link,
            t.frame->0,
            m,
            dispatch::run_actions(subs, depth, actions, loops, 2, m, t),
        ),
{
    let f: FrameView = t.frame->0;
    let whole: Seq<Ax25ActionVerb> = receiving::asking_once_chain();
    let a: Machine = m.with_pending(PendingFrame { nr: Some(m.link.vr), ..m.pending });
    let b: Machine = a.with_pending(PendingFrame { pf: Some(true), ..a.pending });
    let c: Machine = b.with_link(b.link.edited(counted(b.link)));
    let d: Machine = verbs::send_supervisory(c, SupervisoryKind::Srej, false);
    let chain: Seq<Ax25ActionVerb> = seq![
        Ax25ActionVerb::NRAssignVR,
        Ax25ActionVerb::FAssign1,
        Ax25ActionVerb::IncrementSrejectException,
        Ax25ActionVerb::SREJ,
    ];
    let way: Seq<Machine> = seq![m, a, b, c, d];
    lemma_replying(subs, depth, m, t);
    lemma_replying(subs, depth, a, t);
    lemma_replying(subs, depth, b, t);
    lemma_replying(subs, depth, c, t);
    assert forall|i: int| 0 <= i < chain.len() implies chains::leads(
        subs,
        depth,
        #[trigger] chain[i],
        t,
        way[i],
        way[i + 1],
    ) by {
        assert(i == 0 || i == 1 || i == 2 || i == 3);
    }
    resending::lemma_lists_part(actions, loops, whole, 2, chain);
    chains::lemma_part(subs, depth, actions, loops, 2, chain, t, way);
    lemma_still_kept(link, f, b.link, counted(b.link));
}

/// A REJ for V(R) goes out, and no acknowledgement is owed any more.
proof fn lemma_rejecting(
    subs: Seq<SubroutineSpec>,
    depth: nat,
    actions: Seq<ActionStep>,
    loops: Seq<LoopRange>,
    link: Link,
    m: Machine,
    t: Trigger,
)
    requires
        chains::lists(actions, loops, receiving::going_back_chain()),
        t.frame is Some,
        has_kept(link, t.frame->0, m.link),
        link.srej_exception_count == 0,
        context::steps_ahead(link.vr, t.frame->0.ns, link.modulus()) > 1,
    ensures
        asks(
            link,
            t.frame->0,
            m,
            dispatch::run_actions(subs, depth, actions, loops, 4, m, t),
        ),
{
    let f: FrameView = t.frame->0;
    let whole: Seq<Ax25ActionVerb> = receiving::going_back_chain();
    let a: Machine = m.with_pending(PendingFrame { pf: Some(f.poll_final), ..m.pending });
    let b: Machine = a.with_pending(PendingFrame { nr: Some(a.link.vr), ..a.pending });
    let c: Machine = verbs::send_supervisory(b, SupervisoryKind::Rej, false);
    let d: Machine = c.with_link(c.link.edited(Edit::AckPending(false)));
    let chain: Seq<Ax25ActionVerb> = seq![
        Ax25ActionVerb::FAssignP,
        Ax25ActionVerb::NRAssignVR,
        Ax25ActionVerb::REJ,
        Ax25ActionVerb::ClearAcknowledgePending,
    ];
    let way: Seq<Machine> = seq![m, a, b, c, d];
    lemma_replying(subs, depth, m, t);
    lemma_replying(subs, depth, a, t);
    lemma_replying(subs, depth, b, t);
    lemma_replying(subs, depth, c, t);
    assert forall|i: int| 0 <= i < chain.len() implies chains::leads(
        subs,
        depth,
        #[trigger] chain[i],
        t,
        way[i],
        way[i + 1],
    ) by {
        assert(i == 0 || i == 1 || i == 2 || i == 3);
    }
    resending::lemma_lists_part(actions, loops, whole, 4, chain);
    chains::lemma_part(subs, depth, actions, loops, 4, chain, t, way);
    lemma_still_kept(link, f, m.link, Edit::AckPending(false));
}

/// How a frame that comes early ends where more than one is missing.
proof fn lemma_going_back(
    subs: Seq<SubroutineSpec>,
    depth: nat,
    actions: Seq<ActionStep>,
    loops: Seq<LoopRange>,
    link: Link,
    m: Machine,
    t: Trigger,
)
    requires
        chains::lists(actions, loops, receiving::going_back_chain()),
        t.frame is Some,
        has_kept(link, t.frame->0, m.link),
        link.srej_exception_count == 0,
        context::steps_ahead(link.vr, t.frame->0.ns, link.modulus()) > 1,
    ensures
        asks(
            link,
            t.frame->0,
            m,
            dispatch::run_actions(subs, depth, actions, loops, 2, m, t),
        ),
{
    let whole: Seq<Ax25ActionVerb> = receiving::going_back_chain();
    let a: Machine = m.with_link(m.link.edited(Edit::Reject(true)));
    assert(actions[2].verb == whole[2]);
    assert(actions[3].verb == whole[3]);
    assert(dispatch::run_verb(subs, depth, Ax25ActionVerb::DiscardContentsOfIFrame, m, t)
        == verbs::done(m));
    assert(dispatch::run_verb(subs, depth, Ax25ActionVerb::SetRejectException, m, t)
        == verbs::done(a));
    resending::lemma_step(subs, depth, actions, loops, 2, m, t);
    resending::lemma_step(subs, depth, actions, loops, 3, m, t);
    lemma_still_kept(link, t.frame->0, m.link, Edit::Reject(true));
    lemma_rejecting(subs, depth, actions, loops, link, a, t);
}

/// A frame that comes before its turn, to a link with selective reject, is kept as it came:
/// its protocol identifier and its octets, under its number. Nothing is delivered, V(R)
/// stays, and one supervisory frame asks for what is missing.
pub proof fn law_an_early_frame_is_kept_as_it_came(
    charts: Charts,
    link: Link,
    timers: TimerSnapshot,
    t: Trigger,
)
    requires
        drawn::drawn(charts),
        comes_early(link, t),
    ensures
        ({
            let d: Drive = session::dispatched(charts, State::Connected, link, timers, t);
            &&& d.fault is None
            &&& d.state == State::Connected
            &&& has_kept(link, t.frame->0, d.link)
            &&& d.out == seq![Signal::Frame(asking_for(link, t.frame->0))]
        }),
{
    let subs: Seq<SubroutineSpec> = charts.subroutines;
    let depth: nat = MAX_NESTING as nat;
    let f: FrameView = t.frame->0;
    assert(drawn::draws_up(charts.connected) && drawn::draws_frames(charts.connected)
        && drawn::draws_routines(subs)) by {
        reveal(drawn::drawn);
    }
    lemma_early_match(charts.connected, link, timers, t);
    resending::lemma_stays_up(charts, link, timers, t);
    let tr: TransitionSpec = session::first_match(charts.connected, link, timers, t, 0)->0;
    let start: Machine = Machine::start(link, timers);
    let chain: Seq<Ax25ActionVerb> = early_chain(link, f);
    assert(tr.actions@[0].verb == chain[0]);
    assert(tr.actions@[1].verb == chain[1]);
    let kept: Machine = lemma_keeping(subs, depth, tr.actions@, tr.loops@, start, t);
    if link.srej_exception_count > 0 {
        lemma_asking_again(subs, depth, tr.actions@, tr.loops@, link, kept, t);
    } else if context::steps_ahead(link.vr, f.ns, link.modulus()) > 1 {
        lemma_going_back(subs, depth, tr.actions@, tr.loops@, link, kept, t);
    } else {
        lemma_asking_once(subs, depth, tr.actions@, tr.loops@, link, kept, t);
    }
    assert(kept.out.push(Signal::Frame(asking_for(link, f))) =~= seq![
        Signal::Frame(asking_for(link, f)),
    ]);
}

/// What is delivered is what was received. Where the frame behind the next one comes first
/// and then the next one, on a link with selective reject, the two are delivered in the order
/// of their numbers, each with the protocol identifier and the octets that it carried, and
/// nothing else is.
pub proof fn law_frames_that_change_places_are_delivered_in_order(
    charts: Charts,
    link: Link,
    timers: TimerSnapshot,
    early: Trigger,
    missing: Trigger,
)
    requires
        drawn::drawn(charts),
        comes_early(link, early),
        early.frame->0.ns == link.next_seq(link.vr),
        !link.stored_received_i_frames.contains_key(
            resending::number(link.modulus(), link.vr, 2),
        ),
        ({
            let kept: Drive = session::dispatched(charts, State::Connected, link, timers, early);
            acceptable(kept.link, missing)
        }),
        missing.frame->0.ns == link.vr,
    ensures
        ({
            let kept: Drive = session::dispatched(charts, State::Connected, link, timers, early);
            let d: Drive = session::dispatched(
                charts,
                kept.state,
                kept.link,
                kept.timers,
                missing,
            );
            let first: FrameView = missing.frame->0;
            let second: FrameView = early.frame->0;
            &&& kept.fault is None
            &&& forall|k: int|
                0 <= k < kept.out.len() ==> steady::is_aside(#[trigger] kept.out[k])
            &&& d.fault is None
            &&& d.state == State::Connected
            &&& d.link.vr == resending::number(link.modulus(), link.vr, 2)
            &&& d.out.len() >= 2
            &&& d.out[0] == indication(first.pid->0, first.info)
            &&& d.out[1] == indication(second.pid->0, second.info)
            &&& forall|k: int| 2 <= k < d.out.len() ==> steady::is_aside(#[trigger] d.out[k])
        }),
{
    let modulus: int = link.modulus();
    let kept: Drive = session::dispatched(charts, State::Connected, link, timers, early);
    law_an_early_frame_is_kept_as_it_came(charts, link, timers, early);
    resending::lemma_number(modulus, link.vr, 2);
    assert(early.frame->0.ns == resending::number(modulus, link.vr, 1));
    assert forall|i: int| 1 <= i <= 1 implies kept.link.stored_received_i_frames.contains_key(
        #[trigger] resending::number(modulus, link.vr, i),
    ) by {
        assert(i == 1);
    }
    assert(closes_a_gap(kept.link, missing, 1));
    law_data_goes_up_in_order(charts, kept.link, kept.timers, missing, 1);
    let d: Drive = session::dispatched(charts, kept.state, kept.link, kept.timers, missing);
    assert(d.out[1] == indication(
        kept.link.stored_received_i_frames[resending::number(modulus, link.vr, 1)].pid,
        kept.link.stored_received_i_frames[resending::number(modulus, link.vr, 1)].data,
    ));
}

} // verus!
