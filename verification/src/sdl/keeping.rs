//! What no run of actions ever does, whatever the tables say.

use ax25sdl::{ActionStep, Ax25ActionVerb, Ax25Event, LoopRange, SubroutineSpec};
use vstd::prelude::*;

use super::context::{Edit, Link};
use super::dispatch;
use super::event::Trigger;
use super::loop_exec::MAX_ITERATIONS;
use super::tx::{Machine, PendingFrame};
use super::verbs;
use super::verbs::Outcome;

verus! {

/// What every action keeps: the corrections, the node's policy, and, unless the
/// trigger is a DL-DATA request, the bound on the transmit queue.
pub open spec fn keeps(before: Link, after: Link, on: Ax25Event) -> bool {
    &&& after.quirks == before.quirks
    &&& after.accept_incoming == before.accept_incoming
    &&& on != Ax25Event::DLDATARequest ==> after.i_frame_queue.len() <= before.i_frame_queue.len()
}

/// One change of the flags, variables and parameters keeps all that.
pub proof fn lemma_edit_keeps(link: Link, edit: Edit)
    ensures
        link.edited(edit).quirks == link.quirks,
        link.edited(edit).accept_incoming == link.accept_incoming,
        link.edited(edit).i_frame_queue == link.i_frame_queue,
        link.edited(edit).sent_i_frames == link.sent_i_frames,
        link.edited(edit).stored_received_i_frames == link.stored_received_i_frames,
{
    reveal(Link::edited);
    match edit {
        Edit::Vs(..) => {
            reveal(Link::with_vs);
        },
        Edit::Va(..) => {
            reveal(Link::with_va);
        },
        Edit::Vr(..) => {
            reveal(Link::with_vr);
        },
        Edit::Rc(..) => {
            reveal(Link::with_rc);
        },
        Edit::OwnBusy(..) => {
            reveal(Link::with_own_busy);
        },
        Edit::PeerBusy(..) => {
            reveal(Link::with_peer_busy);
        },
        Edit::AckPending(..) => {
            reveal(Link::with_ack_pending);
        },
        Edit::Reject(..) => {
            reveal(Link::with_reject);
        },
        Edit::Layer3(..) => {
            reveal(Link::with_layer3);
        },
        Edit::X(..) => {
            reveal(Link::with_x);
        },
        Edit::T1Expired(..) => {
            reveal(Link::with_t1_expired);
        },
        Edit::T1Left(..) => {
            reveal(Link::with_t1_left);
        },
        Edit::AckProgress(..) => {
            reveal(Link::with_ack_progress);
        },
        Edit::N1(..) => {
            reveal(Link::with_n1);
        },
        Edit::N2(..) => {
            reveal(Link::with_n2);
        },
        Edit::K(..) => {
            reveal(Link::with_k);
        },
        Edit::Extended(..) => {
            reveal(Link::with_extended);
        },
        Edit::Segmenter(..) => {
            reveal(Link::with_segmenter);
        },
        Edit::HalfDuplex(..) => {
            reveal(Link::with_half_duplex);
        },
        Edit::T2(..) => {
            reveal(Link::with_t2);
        },
        Edit::Srt(..) => {
            reveal(Link::with_srt);
        },
        Edit::T1v(..) => {
            reveal(Link::with_t1v);
        },
        Edit::Sreject(..) => {
            reveal(Link::with_sreject);
        },
        Edit::SelectiveReject(..) => {
            reveal(Link::with_selective_reject);
        },
        Edit::Backoff(..) => {
            reveal(Link::with_backoff);
        },
        Edit::RoundTrip(..) => {
            reveal(Link::with_round_trip);
        },
    }
}

proof fn lemma_primitive_keeps(verb: Ax25ActionVerb, m: Machine, t: Trigger)
    ensures
        keeps(m.link, verbs::primitive_step(verb, m, t).machine.link, t.on),
{
    if let Some(edit) = verbs::edit_of(verb, m.link) {
        lemma_edit_keeps(m.link, edit);
    } else if verbs::clears_queue(verb) {
        reveal(Link::with_queue);
    } else if verbs::needs_frame(verb) {
        if let Some(f) = t.frame {
            lemma_edit_keeps(m.link, Edit::Vs(f.nr));
        }
        reveal(Link::stored);
        reveal(Link::replayed);
        reveal(Link::acknowledged);
    } else if verbs::pushes_fresh(verb) {
        reveal(Link::with_queue);
    } else {
        lemma_edit_keeps(
            m.link,
            Edit::T1Left(m.timers.remaining(super::timer::TimerId::T1)),
        );
        reveal(Link::retained);
        reveal(Link::unstored);
    }
}

/// One verb keeps all that.
pub proof fn lemma_verb_keeps(
    subs: Seq<SubroutineSpec>,
    depth: nat,
    verb: Ax25ActionVerb,
    m: Machine,
    t: Trigger,
)
    ensures
        keeps(m.link, dispatch::run_verb(subs, depth, verb, m, t).machine.link, t.on),
    decreases depth, 0nat, 0int,
{
    let v: Ax25ActionVerb = verbs::rewritten(verb, m.link.quirks, t.on);
    if !verbs::suppressed(v, m.link.quirks, t.on) {
        match verbs::called(v) {
            None => lemma_primitive_keeps(v, m, t),
            Some((name, pf)) => {
                let bound: Machine = match pf {
                    Some(f) => m.with_pending(PendingFrame { pf: Some(f), ..m.pending }),
                    None => m,
                };
                if depth > 0 {
                    lemma_routine_keeps(subs, (depth - 1) as nat, name, bound, t);
                }
            },
        }
    }
}

proof fn lemma_routine_keeps(
    subs: Seq<SubroutineSpec>,
    depth: nat,
    name: Seq<char>,
    m: Machine,
    t: Trigger,
)
    ensures
        keeps(m.link, dispatch::run_routine(subs, depth, name, m, t).machine.link, t.on),
    decreases depth, 4nat, 0int,
{
    if let Some(paths) = dispatch::routine_from(subs, name, 0) {
        if let Some(path) = dispatch::path_from(paths, m, t, 0) {
            lemma_actions_keep(subs, depth, path.actions@, path.loops@, 0, m, t);
        }
    }
}

/// An action chain keeps all that.
pub proof fn lemma_actions_keep(
    subs: Seq<SubroutineSpec>,
    depth: nat,
    actions: Seq<ActionStep>,
    loops: Seq<LoopRange>,
    i: int,
    m: Machine,
    t: Trigger,
)
    ensures
        keeps(
            m.link,
            dispatch::run_actions(subs, depth, actions, loops, i, m, t).machine.link,
            t.on,
        ),
    decreases depth, 3nat, actions.len() - i,
{
    if 0 <= i < actions.len() {
        match dispatch::loop_from(loops, i, 0) {
            Some(range) => if dispatch::in_range(range, actions.len() as int) && range.start == i {
                let o: Outcome = if range.test_at_end {
                    dispatch::run_until(subs, depth, actions, range, 0, m, t)
                } else {
                    dispatch::run_while(subs, depth, actions, range, 0, m, t)
                };
                if range.test_at_end {
                    lemma_until_keeps(subs, depth, actions, range, 0, m, t);
                } else {
                    lemma_while_keeps(subs, depth, actions, range, 0, m, t);
                }
                if o.fault is None {
                    lemma_actions_keep(
                        subs,
                        depth,
                        actions,
                        loops,
                        i + range.length,
                        o.machine,
                        t,
                    );
                }
            },
            None => {
                let o: Outcome = dispatch::run_verb(subs, depth, actions[i].verb, m, t);
                lemma_verb_keeps(subs, depth, actions[i].verb, m, t);
                if o.fault is None {
                    lemma_actions_keep(subs, depth, actions, loops, i + 1, o.machine, t);
                }
            },
        }
    }
}

proof fn lemma_body_keeps(
    subs: Seq<SubroutineSpec>,
    depth: nat,
    actions: Seq<ActionStep>,
    i: int,
    end: int,
    m: Machine,
    t: Trigger,
)
    ensures
        keeps(
            m.link,
            dispatch::run_body(subs, depth, actions, i, end, m, t).machine.link,
            t.on,
        ),
    decreases depth, 1nat, end - i,
{
    if i < end {
        let o: Outcome = dispatch::run_verb(subs, depth, actions[i].verb, m, t);
        lemma_verb_keeps(subs, depth, actions[i].verb, m, t);
        if o.fault is None {
            lemma_body_keeps(subs, depth, actions, i + 1, end, o.machine, t);
        }
    }
}

proof fn lemma_while_keeps(
    subs: Seq<SubroutineSpec>,
    depth: nat,
    actions: Seq<ActionStep>,
    range: LoopRange,
    passes: int,
    m: Machine,
    t: Trigger,
)
    ensures
        keeps(
            m.link,
            dispatch::run_while(subs, depth, actions, range, passes, m, t).machine.link,
            t.on,
        ),
    decreases depth, 2nat, MAX_ITERATIONS - passes,
{
    if passes < MAX_ITERATIONS {
        let o: Outcome = dispatch::run_body(
            subs,
            depth,
            actions,
            range.start as int,
            range.start + range.length,
            m,
            t,
        );
        lemma_body_keeps(
            subs,
            depth,
            actions,
            range.start as int,
            range.start + range.length,
            m,
            t,
        );
        lemma_while_keeps(subs, depth, actions, range, passes + 1, o.machine, t);
    }
}

proof fn lemma_until_keeps(
    subs: Seq<SubroutineSpec>,
    depth: nat,
    actions: Seq<ActionStep>,
    range: LoopRange,
    passes: int,
    m: Machine,
    t: Trigger,
)
    ensures
        keeps(
            m.link,
            dispatch::run_until(subs, depth, actions, range, passes, m, t).machine.link,
            t.on,
        ),
    decreases depth, 2nat, MAX_ITERATIONS - passes,
{
    let o: Outcome = dispatch::run_body(
        subs,
        depth,
        actions,
        range.start as int,
        range.start + range.length,
        m,
        t,
    );
    lemma_body_keeps(
        subs,
        depth,
        actions,
        range.start as int,
        range.start + range.length,
        m,
        t,
    );
    if passes + 1 < MAX_ITERATIONS {
        lemma_until_keeps(subs, depth, actions, range, passes + 1, o.machine, t);
    }
}

} // verus!
