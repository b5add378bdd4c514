//! What goes out and what is delivered is what was handed in and what was received,
//! whatever the tables say.

use ax25sdl::{ActionStep, Ax25ActionVerb, Ax25Event, LoopRange, SubroutineSpec, TransitionSpec};
use vstd::prelude::*;

use super::context::{Edit, Link, PayloadView};
use super::dispatch;
use super::dispatch::MAX_NESTING;
use super::event::{FrameView, Trigger};
use super::keeping;
use super::loop_exec::MAX_ITERATIONS;
use super::session;
use super::session::{Drive, State};
use super::signal::{DataLinkSignalView, FrameSpecView, Signal};
use super::tables::Charts;
use super::timer::{TimerId, TimerSnapshot};
use super::tx::{Machine, PendingFrame};
use super::verbs;
use super::verbs::Outcome;
use crate::ax25::PID_NO_LAYER3;

verus! {

/// What has happened on a link so far: what it emitted, the frames that it received, and
/// the payloads that it was asked to send.
pub struct Record {
    pub emitted: Seq<Signal>,
    pub heard: Seq<FrameView>,
    pub asked: Seq<PayloadView>,
}

/// The payload of the last I frame with a sequence number among signals.
pub open spec fn last_sent(signals: Seq<Signal>, ns: u8) -> Option<PayloadView>
    decreases signals.len(),
{
    if signals.len() == 0 {
        None
    } else {
        match signals.last() {
            Signal::Frame(FrameSpecView::Information { ns: n, pid, info, .. }) => if n == ns {
                Some(PayloadView { data: info, pid })
            } else {
                last_sent(signals.drop_last(), ns)
            },
            _ => last_sent(signals.drop_last(), ns),
        }
    }
}

/// A frame brought this payload.
pub open spec fn brings(f: FrameView, pid: u8, data: Seq<u8>) -> bool {
    f.pid == Some(pid) && f.info == data
}

impl Record {
    /// Nothing has happened.
    pub open spec fn blank() -> Record {
        Record { emitted: Seq::empty(), heard: Seq::empty(), asked: Seq::empty() }
    }

    /// A frame that was received brought this payload.
    pub open spec fn was_brought(self, pid: u8, data: Seq<u8>) -> bool {
        exists|i: int| 0 <= i < self.heard.len() && brings(#[trigger] self.heard[i], pid, data)
    }

    /// A frame that was received with this sequence number brought this payload.
    pub open spec fn was_brought_as(self, ns: u8, p: PayloadView) -> bool {
        exists|i: int|
            0 <= i < self.heard.len() && brings(#[trigger] self.heard[i], p.pid, p.data)
                && self.heard[i].ns == ns
    }

    /// The record once an event came.
    pub open spec fn noting(self, t: Trigger) -> Record {
        Record {
            heard: match t.frame {
                Some(f) => self.heard.push(f),
                None => self.heard,
            },
            asked: match t.data {
                Some((pid, data)) => if t.on == Ax25Event::DLDATARequest {
                    self.asked.push(PayloadView { data, pid })
                } else {
                    self.asked
                },
                None => self.asked,
            },
            ..self
        }
    }

    /// The record once more was emitted.
    pub open spec fn emitting(self, out: Seq<Signal>) -> Record {
        Record { emitted: self.emitted + out, ..self }
    }

    /// The record vouches for a link: what the link retains under a number is what went out
    /// last with it, what it stores under a number came with it, and what it is still to
    /// send was asked for.
    pub open spec fn vouches(self, link: Link) -> bool {
        &&& forall|ns: u8| #[trigger]
            link.sent_i_frames.contains_key(ns) ==> last_sent(self.emitted, ns) == Some(
                link.sent_i_frames[ns],
            )
        &&& forall|ns: u8| #[trigger]
            link.stored_received_i_frames.contains_key(ns) ==> self.was_brought_as(
                ns,
                link.stored_received_i_frames[ns],
            )
        &&& forall|i: int|
            0 <= i < link.i_frame_queue.len() ==> self.asked.contains(
                #[trigger] link.i_frame_queue[i],
            )
    }

    /// The record knows what an event brings.
    pub open spec fn knows(self, t: Trigger) -> bool {
        &&& t.frame matches Some(f) ==> self.heard.contains(f)
        &&& t.on == Ax25Event::DLDATARequest || t.on == Ax25Event::IFramePopsOffQueue ==> (
        t.data matches Some((pid, data)) ==> self.asked.contains(PayloadView { data, pid }))
    }
}

/// A signal says what is so, given what was emitted before it. An I frame carries the
/// payload that the event pops off the queue, or the one that went out last with its
/// number. A UI frame is a command and carries the payload that is to go out as one. What
/// is delivered was received.
pub open spec fn is_genuine(rec: Record, t: Trigger, past: Seq<Signal>, signal: Signal) -> bool {
    match signal {
        Signal::Frame(FrameSpecView::Information { ns, pid, info, .. }) => {
            ||| t.on == Ax25Event::IFramePopsOffQueue && t.data == Some((pid, info))
            ||| last_sent(past, ns) == Some(PayloadView { data: info, pid })
        },
        Signal::Frame(FrameSpecView::Ui { is_command, pid, info, .. }) => {
            is_command && t.on == Ax25Event::DLUNITDATARequest && t.data == Some((pid, info))
        },
        Signal::Upward(DataLinkSignalView::DataIndication(pid, info)) => {
            rec.was_brought(pid, info)
        },
        Signal::Upward(DataLinkSignalView::UnitDataIndication(pid, info)) => {
            t.frame matches Some(f) && f.info == info && pid == match f.pid {
                Some(p) => p,
                None => PID_NO_LAYER3,
            }
        },
        _ => true,
    }
}

/// A UI frame is a command and carries what the event asks to go out as one, and one that is
/// delivered is that of the event.
pub open spec fn is_of_event(t: Trigger, signal: Signal) -> bool {
    match signal {
        Signal::Frame(FrameSpecView::Ui { is_command, pid, info, .. }) => {
            is_command && t.on == Ax25Event::DLUNITDATARequest && t.data == Some((pid, info))
        },
        Signal::Upward(DataLinkSignalView::UnitDataIndication(pid, info)) => {
            t.frame matches Some(f) && f.info == info && pid == match f.pid {
                Some(p) => p,
                None => PID_NO_LAYER3,
            }
        },
        _ => true,
    }
}

/// Every signal from index `from` on says what is so.
pub open spec fn all_genuine(rec: Record, t: Trigger, out: Seq<Signal>, from: int) -> bool {
    forall|k: int|
        from <= k < out.len() ==> is_genuine(
            rec,
            t,
            rec.emitted + out.take(k),
            #[trigger] out[k],
        )
}

/// The record vouches for a machine.
spec fn sound(rec: Record, m: Machine) -> bool {
    &&& rec.emitting(m.out).vouches(m.link)
    &&& m.staged matches Some((pid, data)) ==> rec.was_brought(pid, data)
}

/// A run of actions keeps the machine sound, and emits only what is so.
#[verifier::opaque]
spec fn flows(rec: Record, t: Trigger, m: Machine, after: Machine) -> bool {
    &&& m.out.is_prefix_of(after.out)
    &&& forall|k: int|
        m.out.len() <= k < after.out.len() ==> is_of_event(t, #[trigger] after.out[k])
    &&& sound(rec, m) ==> {
        &&& sound(rec, after)
        &&& all_genuine(rec, t, after.out, m.out.len() as int)
    }
}

proof fn lemma_flows_on(rec: Record, t: Trigger, a: Machine, b: Machine, c: Machine)
    requires
        flows(rec, t, a, b),
        flows(rec, t, b, c),
    ensures
        flows(rec, t, a, c),
{
    reveal(flows);
    assert forall|k: int| a.out.len() <= k < c.out.len() implies is_of_event(
        t,
        #[trigger] c.out[k],
    ) by {
        if k < b.out.len() {
            assert(c.out[k] == b.out[k]);
        }
    }
    if sound(rec, a) {
        assert forall|k: int| a.out.len() <= k < c.out.len() implies is_genuine(
            rec,
            t,
            rec.emitted + c.out.take(k),
            #[trigger] c.out[k],
        ) by {
            if k < b.out.len() {
                assert(c.out.take(k) =~= b.out.take(k));
                assert(c.out[k] == b.out[k]);
            }
        }
    }
}

proof fn lemma_flows_nowhere(rec: Record, t: Trigger, m: Machine)
    ensures
        flows(rec, t, m, m),
{
    reveal(flows);
}

/// What one more signal does to what went out last.
proof fn lemma_last_sent(past: Seq<Signal>, signal: Signal)
    ensures
        forall|ns: u8| #[trigger]
            last_sent(past.push(signal), ns) == match signal {
                Signal::Frame(FrameSpecView::Information { ns: n, pid, info, .. }) => if n == ns {
                    Some(PayloadView { data: info, pid })
                } else {
                    last_sent(past, ns)
                },
                _ => last_sent(past, ns),
            },
{
    assert(past.push(signal).drop_last() =~= past);
}

/// A step that emits nothing and adds nothing to what the link holds.
proof fn lemma_quiet_step(rec: Record, t: Trigger, m: Machine, after: Machine)
    requires
        after.out == m.out,
        after.staged == m.staged || after.staged is None,
        forall|ns: u8| #[trigger]
            after.link.sent_i_frames.contains_key(ns) ==> m.link.sent_i_frames.contains_key(ns)
                && after.link.sent_i_frames[ns] == m.link.sent_i_frames[ns],
        forall|ns: u8| #[trigger]
            after.link.stored_received_i_frames.contains_key(ns)
                ==> m.link.stored_received_i_frames.contains_key(ns)
                && after.link.stored_received_i_frames[ns] == m.link.stored_received_i_frames[ns],
        after.link.i_frame_queue == m.link.i_frame_queue || after.link.i_frame_queue.len() == 0,
    ensures
        flows(rec, t, m, after),
{
    reveal(flows);
}

/// A step that emits one signal and does not change what the link holds.
proof fn lemma_emitting_step(rec: Record, t: Trigger, m: Machine, signal: Signal, after: Machine)
    requires
        after.out == m.out.push(signal),
        after.staged == m.staged || after.staged is None,
        after.link.sent_i_frames == m.link.sent_i_frames,
        after.link.stored_received_i_frames == m.link.stored_received_i_frames,
        after.link.i_frame_queue == m.link.i_frame_queue,
        is_of_event(t, signal),
        sound(rec, m) ==> is_genuine(rec, t, rec.emitted + m.out, signal),
        signal matches Signal::Frame(FrameSpecView::Information { ns, pid, info, .. })
            ==> m.link.sent_i_frames.contains_key(ns) && m.link.sent_i_frames[ns] == (PayloadView {
            data: info,
            pid,
        }),
    ensures
        flows(rec, t, m, after),
{
    reveal(flows);
    let past: Seq<Signal> = rec.emitted + m.out;
    lemma_last_sent(past, signal);
    assert(past.push(signal) =~= rec.emitted + after.out);
    if sound(rec, m) {
        assert forall|k: int| m.out.len() <= k < after.out.len() implies is_genuine(
            rec,
            t,
            rec.emitted + after.out.take(k),
            #[trigger] after.out[k],
        ) by {
            assert(after.out.take(k) =~= m.out);
        }
        assert(rec.emitting(after.out).vouches(after.link)) by {
            assert forall|ns: u8| #[trigger]
                after.link.stored_received_i_frames.contains_key(ns) implies rec.emitting(
                after.out,
            ).was_brought_as(ns, after.link.stored_received_i_frames[ns]) by {
                assert(rec.emitting(m.out).was_brought_as(
                    ns,
                    m.link.stored_received_i_frames[ns],
                ));
            }
        }
    }
}

proof fn lemma_resend_flows(rec: Record, t: Trigger, m: Machine, ns: u8)
    ensures
        flows(rec, t, m, verbs::resend(m, ns)),
{
    if m.link.sent_i_frames.contains_key(ns) {
        let signal: Signal = verbs::resend(m, ns).out.last();
        lemma_emitting_step(rec, t, m, signal, verbs::resend(m, ns));
    } else {
        lemma_flows_nowhere(rec, t, m);
    }
}

proof fn lemma_frame_step_flows(rec: Record, verb: Ax25ActionVerb, m: Machine, t: Trigger)
    requires
        rec.knows(t),
    ensures
        flows(rec, t, m, verbs::frame_step(verb, m, t).machine),
{
    let after: Machine = verbs::frame_step(verb, m, t).machine;
    match t.frame {
        None => lemma_flows_nowhere(rec, t, m),
        Some(f) => match verb {
            Ax25ActionVerb::DLUNITDATAIndication => {
                lemma_emitting_step(rec, t, m, after.out.last(), after);
            },
            Ax25ActionVerb::SaveContentsOfIFrame => {
                reveal(flows);
                reveal(Link::stored);
                let i: int = choose|i: int| 0 <= i < rec.heard.len() && rec.heard[i] == f;
                if f.pid is Some {
                    assert(brings(rec.heard[i], f.pid->0, f.info));
                    let p: PayloadView = PayloadView { data: f.info, pid: f.pid->0 };
                    assert(rec.emitting(m.out).was_brought_as(f.ns, p));
                    assert(after.link == m.link.stored(f.ns, p));
                }
            },
            Ax25ActionVerb::PushOldIFrameNROnQueue => {
                reveal(Link::replayed);
                let marked: Machine = m.with_link(m.link.replayed(f.nr));
                lemma_quiet_step(rec, t, m, marked);
                lemma_resend_flows(rec, t, marked, f.nr);
                lemma_flows_on(rec, t, m, marked, verbs::resend(marked, f.nr));
                lemma_flows_nowhere(rec, t, m);
            },
            Ax25ActionVerb::VSAssignNR => {
                keeping::lemma_edit_keeps(m.link, Edit::Vs(f.nr));
                lemma_quiet_step(rec, t, m, after);
            },
            Ax25ActionVerb::VAAssignNR => {
                reveal(Link::acknowledged);
                lemma_quiet_step(rec, t, m, after);
            },
            _ => lemma_quiet_step(rec, t, m, after),
        },
    }
}

proof fn lemma_send_information_flows(rec: Record, m: Machine, t: Trigger)
    ensures
        flows(rec, t, m, verbs::send_information(m, t).machine),
{
    let after: Machine = verbs::send_information(m, t).machine;
    if t.on == Ax25Event::IFramePopsOffQueue && t.data is Some {
        reveal(flows);
        reveal(Link::retained);
        let signal: Signal = after.out.last();
        let past: Seq<Signal> = rec.emitted + m.out;
        lemma_last_sent(past, signal);
        assert(past.push(signal) =~= rec.emitted + after.out);
        if sound(rec, m) {
            assert forall|k: int| m.out.len() <= k < after.out.len() implies is_genuine(
                rec,
                t,
                rec.emitted + after.out.take(k),
                #[trigger] after.out[k],
            ) by {
                assert(after.out.take(k) =~= m.out);
            }
            assert forall|ns: u8| #[trigger]
                after.link.stored_received_i_frames.contains_key(ns) implies rec.emitting(
                after.out,
            ).was_brought_as(ns, after.link.stored_received_i_frames[ns]) by {
                assert(rec.emitting(m.out).was_brought_as(
                    ns,
                    m.link.stored_received_i_frames[ns],
                ));
            }
        }
    } else {
        lemma_flows_nowhere(rec, t, m);
    }
}

proof fn lemma_delivery_flows(rec: Record, m: Machine, t: Trigger)
    requires
        rec.knows(t),
    ensures
        flows(rec, t, m, verbs::deliver(m, t).machine),
        flows(rec, t, m, verbs::stage_stored(m)),
{
    let after: Machine = verbs::deliver(m, t).machine;
    match m.staged {
        Some(_) => lemma_emitting_step(rec, t, m, after.out.last(), after),
        None => match t.frame {
            None => lemma_flows_nowhere(rec, t, m),
            Some(f) => {
                let i: int = choose|i: int| 0 <= i < rec.heard.len() && rec.heard[i] == f;
                match f.pid {
                    None => lemma_flows_nowhere(rec, t, m),
                    Some(pid) => {
                        assert(brings(rec.heard[i], pid, f.info));
                        lemma_emitting_step(rec, t, m, after.out.last(), after);
                    },
                }
            },
        },
    }
    let vr: u8 = m.link.vr;
    if m.link.stored_received_i_frames.contains_key(vr) {
        reveal(flows);
        reveal(Link::unstored);
        if sound(rec, m) {
            let p: PayloadView = m.link.stored_received_i_frames[vr];
            assert(rec.emitting(m.out).was_brought_as(vr, p));
            let i: int = choose|i: int|
                0 <= i < rec.heard.len() && brings(#[trigger] rec.heard[i], p.pid, p.data)
                    && rec.heard[i].ns == vr;
            assert(brings(rec.heard[i], p.pid, p.data));
            assert(rec.was_brought(p.pid, p.data));
        }
    } else {
        lemma_flows_nowhere(rec, t, m);
    }
}

proof fn lemma_push_flows(rec: Record, m: Machine, t: Trigger)
    requires
        rec.knows(t),
    ensures
        flows(rec, t, m, verbs::push_request(m, t).machine),
{
    let after: Machine = verbs::push_request(m, t).machine;
    if t.on == Ax25Event::DLDATARequest && t.data is Some {
        reveal(flows);
        reveal(Link::with_queue);
        let signal: Signal = after.out.last();
        let past: Seq<Signal> = rec.emitted + m.out;
        lemma_last_sent(past, signal);
        assert(past.push(signal) =~= rec.emitted + after.out);
        if sound(rec, m) {
            assert forall|ns: u8| #[trigger]
                after.link.stored_received_i_frames.contains_key(ns) implies rec.emitting(
                after.out,
            ).was_brought_as(ns, after.link.stored_received_i_frames[ns]) by {
                assert(rec.emitting(m.out).was_brought_as(
                    ns,
                    m.link.stored_received_i_frames[ns],
                ));
            }
        }
    } else {
        lemma_flows_nowhere(rec, t, m);
    }
}

proof fn lemma_primitive_flows(rec: Record, verb: Ax25ActionVerb, m: Machine, t: Trigger)
    requires
        rec.knows(t),
    ensures
        flows(rec, t, m, verbs::primitive_step(verb, m, t).machine),
{
    let after: Machine = verbs::primitive_step(verb, m, t).machine;
    if let Some(edit) = verbs::edit_of(verb, m.link) {
        keeping::lemma_edit_keeps(m.link, edit);
        lemma_quiet_step(rec, t, m, after);
    } else if verbs::clears_queue(verb) {
        reveal(Link::with_queue);
        lemma_quiet_step(rec, t, m, after);
    } else if let Some(signal) = verbs::fixed_signal(verb) {
        lemma_emitting_step(rec, t, m, signal, after);
    } else if let Some((kind, is_command)) = verbs::supervisory(verb) {
        lemma_emitting_step(rec, t, m, after.out.last(), after);
    } else if let Some((kind, is_command, fixed, expedited)) = verbs::unnumbered(verb) {
        lemma_emitting_step(rec, t, m, after.out.last(), after);
    } else if verbs::needs_frame(verb) {
        lemma_frame_step_flows(rec, verb, m, t);
    } else if verbs::pushes_fresh(verb) {
        lemma_push_flows(rec, m, t);
    } else {
        match verb {
            Ax25ActionVerb::StopT1 => {
                keeping::lemma_edit_keeps(m.link, Edit::T1Left(m.timers.remaining(TimerId::T1)));
                lemma_quiet_step(rec, t, m, after);
            },
            Ax25ActionVerb::UICommand => {
                if t.on == Ax25Event::DLUNITDATARequest && t.data is Some {
                    lemma_emitting_step(rec, t, m, after.out.last(), after);
                } else {
                    lemma_flows_nowhere(rec, t, m);
                }
            },
            Ax25ActionVerb::ICommand => lemma_send_information_flows(rec, m, t),
            Ax25ActionVerb::DLDATAIndication => lemma_delivery_flows(rec, m, t),
            Ax25ActionVerb::RetrieveStoredVRIFrame => lemma_delivery_flows(rec, m, t),
            Ax25ActionVerb::PushOldIFrameOntoQueue => {
                lemma_resend_flows(rec, t, m, m.link.vs);
            },
            _ => lemma_quiet_step(rec, t, m, after),
        }
    }
}

proof fn lemma_verb_flows(
    rec: Record,
    subs: Seq<SubroutineSpec>,
    depth: nat,
    verb: Ax25ActionVerb,
    m: Machine,
    t: Trigger,
)
    requires
        rec.knows(t),
    ensures
        flows(rec, t, m, dispatch::run_verb(subs, depth, verb, m, t).machine),
    decreases depth, 0nat, 0int,
{
    lemma_flows_nowhere(rec, t, m);
    let v: Ax25ActionVerb = verbs::rewritten(verb, m.link.quirks, t.on);
    if !verbs::suppressed(v, m.link.quirks, t.on) {
        match verbs::called(v) {
            None => lemma_primitive_flows(rec, v, m, t),
            Some((name, pf)) => {
                let bound: Machine = match pf {
                    Some(f) => m.with_pending(PendingFrame { pf: Some(f), ..m.pending }),
                    None => m,
                };
                lemma_quiet_step(rec, t, m, bound);
                if depth > 0 {
                    lemma_routine_flows(rec, subs, (depth - 1) as nat, name, bound, t);
                    lemma_flows_on(
                        rec,
                        t,
                        m,
                        bound,
                        dispatch::run_routine(subs, (depth - 1) as nat, name, bound, t).machine,
                    );
                }
            },
        }
    }
}

proof fn lemma_routine_flows(
    rec: Record,
    subs: Seq<SubroutineSpec>,
    depth: nat,
    name: Seq<char>,
    m: Machine,
    t: Trigger,
)
    requires
        rec.knows(t),
    ensures
        flows(rec, t, m, dispatch::run_routine(subs, depth, name, m, t).machine),
    decreases depth, 4nat, 0int,
{
    lemma_flows_nowhere(rec, t, m);
    if let Some(paths) = dispatch::routine_from(subs, name, 0) {
        if let Some(path) = dispatch::path_from(paths, m, t, 0) {
            lemma_actions_flow(rec, subs, depth, path.actions@, path.loops@, 0, m, t);
        }
    }
}

proof fn lemma_actions_flow(
    rec: Record,
    subs: Seq<SubroutineSpec>,
    depth: nat,
    actions: Seq<ActionStep>,
    loops: Seq<LoopRange>,
    i: int,
    m: Machine,
    t: Trigger,
)
    requires
        rec.knows(t),
    ensures
        flows(rec, t, m, dispatch::run_actions(subs, depth, actions, loops, i, m, t).machine),
    decreases depth, 3nat, actions.len() - i,
{
    lemma_flows_nowhere(rec, t, m);
    if 0 <= i < actions.len() {
        match dispatch::loop_from(loops, i, 0) {
            Some(range) => if dispatch::in_range(range, actions.len() as int) && range.start == i {
                let o: Outcome = if range.test_at_end {
                    dispatch::run_until(subs, depth, actions, range, 0, m, t)
                } else {
                    dispatch::run_while(subs, depth, actions, range, 0, m, t)
                };
                if range.test_at_end {
                    lemma_until_flows(rec, subs, depth, actions, range, 0, m, t);
                } else {
                    lemma_while_flows(rec, subs, depth, actions, range, 0, m, t);
                }
                if o.fault is None {
                    lemma_actions_flow(
                        rec,
                        subs,
                        depth,
                        actions,
                        loops,
                        i + range.length,
                        o.machine,
                        t,
                    );
                    lemma_flows_on(
                        rec,
                        t,
                        m,
                        o.machine,
                        dispatch::run_actions(
                            subs,
                            depth,
                            actions,
                            loops,
                            i + range.length,
                            o.machine,
                            t,
                        ).machine,
                    );
                }
            },
            None => {
                let o: Outcome = dispatch::run_verb(subs, depth, actions[i].verb, m, t);
                lemma_verb_flows(rec, subs, depth, actions[i].verb, m, t);
                if o.fault is None {
                    lemma_actions_flow(rec, subs, depth, actions, loops, i + 1, o.machine, t);
                    lemma_flows_on(
                        rec,
                        t,
                        m,
                        o.machine,
                        dispatch::run_actions(
                            subs,
                            depth,
                            actions,
                            loops,
                            i + 1,
                            o.machine,
                            t,
                        ).machine,
                    );
                }
            },
        }
    }
}

proof fn lemma_body_flows(
    rec: Record,
    subs: Seq<SubroutineSpec>,
    depth: nat,
    actions: Seq<ActionStep>,
    i: int,
    end: int,
    m: Machine,
    t: Trigger,
)
    requires
        rec.knows(t),
    ensures
        flows(rec, t, m, dispatch::run_body(subs, depth, actions, i, end, m, t).machine),
    decreases depth, 1nat, end - i,
{
    lemma_flows_nowhere(rec, t, m);
    if i < end {
        let o: Outcome = dispatch::run_verb(subs, depth, actions[i].verb, m, t);
        lemma_verb_flows(rec, subs, depth, actions[i].verb, m, t);
        if o.fault is None {
            lemma_body_flows(rec, subs, depth, actions, i + 1, end, o.machine, t);
            lemma_flows_on(
                rec,
                t,
                m,
                o.machine,
                dispatch::run_body(subs, depth, actions, i + 1, end, o.machine, t).machine,
            );
        }
    }
}

proof fn lemma_while_flows(
    rec: Record,
    subs: Seq<SubroutineSpec>,
    depth: nat,
    actions: Seq<ActionStep>,
    range: LoopRange,
    passes: int,
    m: Machine,
    t: Trigger,
)
    requires
        rec.knows(t),
    ensures
        flows(rec, t, m, dispatch::run_while(subs, depth, actions, range, passes, m, t).machine),
    decreases depth, 2nat, MAX_ITERATIONS - passes,
{
    lemma_flows_nowhere(rec, t, m);
    if passes < MAX_ITERATIONS {
        let o: Outcome = dispatch::run_body(
            subs,
            depth,
            actions,
            range.start as int,
            range.start + range.length,
            m,
            t,
        );
        lemma_body_flows(
            rec,
            subs,
            depth,
            actions,
            range.start as int,
            range.start + range.length,
            m,
            t,
        );
        lemma_while_flows(rec, subs, depth, actions, range, passes + 1, o.machine, t);
        lemma_flows_on(
            rec,
            t,
            m,
            o.machine,
            dispatch::run_while(subs, depth, actions, range, passes + 1, o.machine, t).machine,
        );
    }
}

proof fn lemma_until_flows(
    rec: Record,
    subs: Seq<SubroutineSpec>,
    depth: nat,
    actions: Seq<ActionStep>,
    range: LoopRange,
    passes: int,
    m: Machine,
    t: Trigger,
)
    requires
        rec.knows(t),
    ensures
        flows(rec, t, m, dispatch::run_until(subs, depth, actions, range, passes, m, t).machine),
    decreases depth, 2nat, MAX_ITERATIONS - passes,
{
    lemma_flows_nowhere(rec, t, m);
    let o: Outcome = dispatch::run_body(
        subs,
        depth,
        actions,
        range.start as int,
        range.start + range.length,
        m,
        t,
    );
    lemma_body_flows(
        rec,
        subs,
        depth,
        actions,
        range.start as int,
        range.start + range.length,
        m,
        t,
    );
    if passes + 1 < MAX_ITERATIONS {
        lemma_until_flows(rec, subs, depth, actions, range, passes + 1, o.machine, t);
        lemma_flows_on(
            rec,
            t,
            m,
            o.machine,
            dispatch::run_until(subs, depth, actions, range, passes + 1, o.machine, t).machine,
        );
    }
}

/// One event emits only what is so and leaves the record vouching for the link: every I
/// frame carries the payload that pops off the queue for it or, sent again, the one that
/// went out last with its number; every UI frame the payload that is to go out as one; and
/// what is delivered came in a frame.
pub proof fn law_an_event_emits_only_what_is_so(
    charts: Charts,
    state: State,
    link: Link,
    timers: TimerSnapshot,
    t: Trigger,
    rec: Record,
)
    requires
        rec.vouches(link),
        rec.knows(t),
    ensures
        ({
            let d: Drive = session::dispatched(charts, state, link, timers, t);
            &&& all_genuine(rec, t, d.out, 0)
            &&& rec.emitting(d.out).vouches(d.link)
        }),
{
    let ready: Link = session::roused(link, t.on);
    let none: Seq<Signal> = Seq::empty();
    assert(rec.emitted + none =~= rec.emitted);
    keeping::lemma_edit_keeps(link, Edit::AckProgress(false));
    keeping::lemma_edit_keeps(
        link.edited(Edit::AckProgress(false)),
        Edit::Rc((link.n2 - 1) as u32),
    );
    if let Some(matched) = session::first_match(charts.page(state), ready, timers, t, 0) {
        let tr: TransitionSpec = session::degraded(matched, charts.page(state), ready);
        let start: Machine = Machine::start(session::prepared(ready, tr, t.on), timers);
        keeping::lemma_edit_keeps(ready, Edit::T1Expired(true));
        keeping::lemma_edit_keeps(ready, Edit::Extended(false));
        keeping::lemma_edit_keeps(ready.edited(Edit::T1Expired(true)), Edit::Extended(false));
        assert(sound(rec, start));
        lemma_actions_flow(
            rec,
            charts.subroutines,
            MAX_NESTING as nat,
            tr.actions@,
            tr.loops@,
            0,
            start,
            t,
        );
        reveal(flows);
    }
}

/// An event emits no UI frame and delivers none but its own.
pub proof fn lemma_only_its_own_datagrams(
    charts: Charts,
    state: State,
    link: Link,
    timers: TimerSnapshot,
    t: Trigger,
)
    ensures
        ({
            let d: Drive = session::dispatched(charts, state, link, timers, t);
            forall|k: int| 0 <= k < d.out.len() ==> is_of_event(t, #[trigger] d.out[k])
        }),
{
    let ready: Link = session::roused(link, t.on);
    let rec: Record = Record {
        emitted: Seq::empty(),
        heard: match t.frame {
            Some(f) => seq![f],
            None => Seq::empty(),
        },
        asked: match t.data {
            Some((pid, data)) => seq![PayloadView { data, pid }],
            None => Seq::empty(),
        },
    };
    if let Some(f) = t.frame {
        assert(rec.heard[0] == f);
    }
    if let Some((pid, data)) = t.data {
        assert(rec.asked[0] == (PayloadView { data, pid }));
    }
    if let Some(matched) = session::first_match(charts.page(state), ready, timers, t, 0) {
        let tr: TransitionSpec = session::degraded(matched, charts.page(state), ready);
        lemma_actions_flow(
            rec,
            charts.subroutines,
            MAX_NESTING as nat,
            tr.actions@,
            tr.loops@,
            0,
            Machine::start(session::prepared(ready, tr, t.on), timers),
            t,
        );
        reveal(flows);
    }
}

/// A drain emits no UI frame and delivers none.
pub proof fn lemma_a_drain_has_no_datagrams(charts: Charts, d: Drive)
    ensures
        ({
            let end: Drive = session::drained(charts, d);
            &&& d.out.is_prefix_of(end.out)
            &&& forall|k: int|
                d.out.len() <= k < end.out.len() ==> !((#[trigger] end.out[k]) is Frame
                    && end.out[k]->Frame_0 is Ui) && !(end.out[k] is Upward
                    && end.out[k]->Upward_0 is UnitDataIndication)
        }),
    decreases d.link.i_frame_queue.len(),
{
    if d.fault is None && d.link.i_frame_queue.len() > 0 && session::may_transmit(d.state, d.link) {
        let t: Trigger = session::popped(d.link.i_frame_queue[0]);
        let next: Drive = session::popped_once(charts, d);
        let sent: Drive = session::dispatched(
            charts,
            d.state,
            d.link.unqueued(),
            d.timers,
            t,
        );
        let end: Drive = session::drained(charts, d);
        session::lemma_pop_shortens(charts, d);
        lemma_only_its_own_datagrams(charts, d.state, d.link.unqueued(), d.timers, t);
        lemma_a_drain_has_no_datagrams(charts, next);
        assert forall|k: int| d.out.len() <= k < end.out.len() implies !((
        #[trigger] end.out[k]) is Frame && end.out[k]->Frame_0 is Ui) && !(end.out[k] is Upward
            && end.out[k]->Upward_0 is UnitDataIndication) by {
            if k < next.out.len() {
                assert(end == session::drained(charts, next));
                assert(next.out == end.out.subrange(0, next.out.len() as int));
                assert(end.out[k] == next.out[k]);
                assert(next.out[k] == sent.out[k - d.out.len()]);
                assert(is_of_event(t, sent.out[k - d.out.len()]));
            }
        }
    }
}

/// What a drain adds is I frames that were asked for or went out before, and nothing that
/// only the event itself can emit.
proof fn lemma_drain_emits_only_what_is_so(charts: Charts, d: Drive, rec: Record)
    requires
        rec.emitting(d.out).vouches(d.link),
    ensures
        ({
            let end: Drive = session::drained(charts, d);
            &&& d.out.is_prefix_of(end.out)
            &&& rec.emitting(end.out).vouches(end.link)
            &&& forall|k: int|
                d.out.len() <= k < end.out.len() ==> is_so(
                    rec,
                    None,
                    rec.emitted + end.out.take(k),
                    #[trigger] end.out[k],
                )
        }),
    decreases d.link.i_frame_queue.len(),
{
    if d.fault is None && d.link.i_frame_queue.len() > 0 && session::may_transmit(d.state, d.link) {
        let t: Trigger = session::popped(d.link.i_frame_queue[0]);
        let now: Record = rec.emitting(d.out);
        let next: Drive = session::popped_once(charts, d);
        let sent: Drive = session::dispatched(
            charts,
            d.state,
            d.link.unqueued(),
            d.timers,
            t,
        );
        session::lemma_pop_shortens(charts, d);
        assert(now.vouches(d.link.unqueued())) by {
            reveal(Link::with_queue);
            assert forall|i: int| 0 <= i < d.link.unqueued().i_frame_queue.len() implies
                now.asked.contains(#[trigger] d.link.unqueued().i_frame_queue[i]) by {
                assert(d.link.unqueued().i_frame_queue[i] == d.link.i_frame_queue[i + 1]);
            }
        }
        law_an_event_emits_only_what_is_so(
            charts,
            d.state,
            d.link.unqueued(),
            d.timers,
            t,
            now,
        );
        assert(rec.emitted + next.out =~= now.emitted + sent.out);
        assert(rec.emitting(next.out) == now.emitting(sent.out));
        lemma_drain_emits_only_what_is_so(charts, next, rec);
        let end: Drive = session::drained(charts, d);
        assert forall|k: int| d.out.len() <= k < end.out.len() implies is_so(
            rec,
            None,
            rec.emitted + end.out.take(k),
            #[trigger] end.out[k],
        ) by {
            if k < next.out.len() {
                let j: int = k - d.out.len();
                assert(end == session::drained(charts, next));
                assert(next.out == end.out.subrange(0, next.out.len() as int));
                assert(end.out[k] == next.out[k]);
                assert(next.out[k] == sent.out[j]);
                assert(end.out.take(k) =~= next.out.take(k));
                assert(rec.emitted + next.out.take(k) =~= now.emitted + sent.out.take(j));
                assert(is_genuine(now, t, now.emitted + sent.out.take(j), sent.out[j]));
            }
        }
    }
}

/// A signal says what is so. An I frame carries a payload that was asked for or, sent again,
/// the one that went out last with its number. A UI frame carries what the event asks to go
/// out as one, what is delivered was received, and a UI frame that is delivered is that of
/// the event.
pub open spec fn is_so(
    rec: Record,
    event: Option<Trigger>,
    past: Seq<Signal>,
    signal: Signal,
) -> bool {
    match signal {
        Signal::Frame(FrameSpecView::Information { ns, pid, info, .. }) => {
            ||| rec.asked.contains(PayloadView { data: info, pid })
            ||| last_sent(past, ns) == Some(PayloadView { data: info, pid })
        },
        Signal::Frame(FrameSpecView::Ui { is_command, pid, info, .. }) => {
            is_command && (event matches Some(t) && t.on == Ax25Event::DLUNITDATARequest && t.data
                == Some((pid, info)))
        },
        Signal::Upward(DataLinkSignalView::DataIndication(pid, info)) => {
            rec.was_brought(pid, info)
        },
        Signal::Upward(DataLinkSignalView::UnitDataIndication(pid, info)) => {
            event matches Some(t) && (t.frame matches Some(f) && f.info == info && pid
                == match f.pid {
                Some(p) => p,
                None => PID_NO_LAYER3,
            })
        },
        _ => true,
    }
}

/// Whatever happens on a link, what goes out and what is delivered is what was handed in and
/// what was received: as long as a record vouches for the link, an event that is noted in
/// it makes the link emit only what is so, and the record with that vouches for the link
/// that is left. The record of a link that is new is blank.
pub proof fn law_a_link_adds_nothing_of_its_own(
    charts: Charts,
    state: State,
    link: Link,
    timers: TimerSnapshot,
    t: Trigger,
    rec: Record,
)
    requires
        rec.vouches(link),
        t.on != Ax25Event::IFramePopsOffQueue,
    ensures
        ({
            let d: Drive = session::driven(charts, state, link, timers, t);
            let noted: Record = rec.noting(t);
            &&& forall|k: int|
                0 <= k < d.out.len() ==> is_so(
                    noted,
                    Some(t),
                    rec.emitted + d.out.take(k),
                    #[trigger] d.out[k],
                )
            &&& noted.emitting(d.out).vouches(d.link)
        }),
        Record::blank().vouches(Link::fresh()),
{
    let noted: Record = rec.noting(t);
    let first: Drive = session::dispatched(charts, state, link, timers, t);
    let end: Drive = session::driven(charts, state, link, timers, t);
    lemma_noted(rec, t, link);
    law_an_event_emits_only_what_is_so(charts, state, link, timers, t, noted);
    lemma_drain_emits_only_what_is_so(charts, first, noted);
    assert forall|k: int| 0 <= k < end.out.len() implies is_so(
        noted,
        Some(t),
        rec.emitted + end.out.take(k),
        #[trigger] end.out[k],
    ) by {
        if k < first.out.len() {
            assert(end.out[k] == first.out[k]);
            assert(end.out.take(k) =~= first.out.take(k));
            assert(is_genuine(noted, t, noted.emitted + first.out.take(k), first.out[k]));
        } else {
            assert(is_so(noted, None, noted.emitted + end.out.take(k), end.out[k]));
        }
    }
}

/// Noting an event takes nothing from a record, and the record knows the event then.
proof fn lemma_noted(rec: Record, t: Trigger, link: Link)
    requires
        rec.vouches(link),
        t.on != Ax25Event::IFramePopsOffQueue,
    ensures
        rec.noting(t).vouches(link),
        rec.noting(t).knows(t),
{
    let noted: Record = rec.noting(t);
    assert forall|ns: u8| #[trigger] link.stored_received_i_frames.contains_key(ns) implies
        noted.was_brought_as(ns, link.stored_received_i_frames[ns]) by {
        let p: PayloadView = link.stored_received_i_frames[ns];
        let i: int = choose|i: int|
            0 <= i < rec.heard.len() && brings(#[trigger] rec.heard[i], p.pid, p.data)
                && rec.heard[i].ns == ns;
        assert(noted.heard[i] == rec.heard[i]);
    }
    assert forall|i: int| 0 <= i < link.i_frame_queue.len() implies noted.asked.contains(
        #[trigger] link.i_frame_queue[i],
    ) by {
        let k: int = choose|k: int|
            0 <= k < rec.asked.len() && rec.asked[k] == link.i_frame_queue[i];
        assert(noted.asked[k] == rec.asked[k]);
    }
    if let Some(f) = t.frame {
        assert(noted.heard[noted.heard.len() - 1] == f);
    }
    if let Some((pid, data)) = t.data {
        if t.on == Ax25Event::DLDATARequest {
            assert(noted.asked[noted.asked.len() - 1] == (PayloadView { data, pid }));
        }
    }
}

} // verus!
