//! Actions that keep what a link has sent and received: replies, errors and timers.

use ax25sdl::{ActionStep, Ax25ActionVerb, LoopRange, SubroutinePath, SubroutineSpec};
use vstd::prelude::*;

use super::context::{Edit, Link};
use super::dispatch;
use super::event::Trigger;
use super::signal::{DataLinkSignalView, FrameSpecView, Signal};
use super::timer::TimerId;
use super::tx::{Machine, PendingFrame};
use super::verbs;
use super::verbs::Outcome;

verus! {

/// The verb replies, reports an error, works a timer or the estimate of the round trip, or
/// sets what the next frame carries.
pub open spec fn is_steady(verb: Ax25ActionVerb) -> bool {
    match verb {
        Ax25ActionVerb::ClearPeerReceiverBusy => true,
        Ax25ActionVerb::ClearAcknowledgePending => true,
        Ax25ActionVerb::StartT1 => true,
        Ax25ActionVerb::StartT3 => true,
        Ax25ActionVerb::StopT1 => true,
        Ax25ActionVerb::StopT3 => true,
        Ax25ActionVerb::SRTAssign7SRT8PlusT18RemainingTimeOnT1WhenLastStopped8 => true,
        Ax25ActionVerb::NextT1Assign2TimesSRT => true,
        Ax25ActionVerb::NextT1AssignRCTimes025PlusSRTTimes2 => true,
        Ax25ActionVerb::NRAssignVR => true,
        Ax25ActionVerb::FAssign1 => true,
        Ax25ActionVerb::RRResponse => true,
        Ax25ActionVerb::RNRResponse => true,
        Ax25ActionVerb::SREJ => true,
        Ax25ActionVerb::DM => true,
        Ax25ActionVerb::DMFEq1 => true,
        Ax25ActionVerb::DLERRORIndicationA => true,
        Ax25ActionVerb::DLERRORIndicationAdd => true,
        Ax25ActionVerb::LMDataRequest => true,
        _ => false,
    }
}

/// The actions are steady, or ask for an answer to an enquiry if they `may_answer`.
pub open spec fn lists_steady(actions: Seq<ActionStep>, may_answer: bool) -> bool {
    forall|j: int|
        0 <= j < actions.len() ==> is_steady((#[trigger] actions[j]).verb) || may_answer
            && actions[j].verb == Ax25ActionVerb::EnquiryResponseF1
}

/// Every path is steady, or asks for an answer to an enquiry if it `may_answer`.
pub open spec fn goes_steady(paths: Seq<SubroutinePath>, may_answer: bool) -> bool {
    forall|i: int|
        0 <= i < paths.len() ==> lists_steady((#[trigger] paths[i]).actions@, may_answer)
            && paths[i].loops@.len() == 0
}

/// The signal carries no data: it is neither an I nor a UI frame, nor does it deliver one.
pub open spec fn is_aside(signal: Signal) -> bool {
    match signal {
        Signal::Frame(FrameSpecView::Information { .. }) => false,
        Signal::Frame(FrameSpecView::Ui { .. }) => false,
        Signal::Upward(DataLinkSignalView::DataIndication(..)) => false,
        Signal::Upward(DataLinkSignalView::UnitDataIndication(..)) => false,
        _ => true,
    }
}

/// What a link has sent and received, and where it stands in the numbers, is the same.
pub open spec fn stands_as(link: Link, after: Link) -> bool {
    &&& after.vs == link.vs
    &&& after.va == link.va
    &&& after.vr == link.vr
    &&& after.is_extended == link.is_extended
    &&& after.quirks == link.quirks
    &&& after.i_frame_queue == link.i_frame_queue
    &&& after.sent_i_frames == link.sent_i_frames
    &&& after.stored_received_i_frames == link.stored_received_i_frames
    &&& after.selectively_retransmitted_since_ack == link.selectively_retransmitted_since_ack
}

/// The machine has only replied, and stands as it did.
pub open spec fn only_replies(m: Machine, after: Machine) -> bool {
    &&& stands_as(m.link, after.link)
    &&& after.staged == m.staged
    &&& m.out.is_prefix_of(after.out)
    &&& forall|k: int| m.out.len() <= k < after.out.len() ==> is_aside(#[trigger] after.out[k])
}

/// Replying twice is replying.
pub proof fn lemma_replies_on(a: Machine, b: Machine, c: Machine)
    requires
        only_replies(a, b),
        only_replies(b, c),
    ensures
        only_replies(a, c),
{
    assert forall|k: int| a.out.len() <= k < c.out.len() implies is_aside(#[trigger] c.out[k]) by {
        if k < b.out.len() {
            assert(c.out[k] == b.out[k]);
        }
    }
}

/// What the changes of steady actions leave alone.
pub proof fn lemma_steady_edit(link: Link, edit: Edit)
    requires
        match edit {
            Edit::PeerBusy(_) => true,
            Edit::AckPending(_) => true,
            Edit::RoundTrip(_) => true,
            Edit::T1v(_) => true,
            Edit::Backoff(_) => true,
            Edit::T1Left(_) => true,
            _ => false,
        },
    ensures
        stands_as(link, link.edited(edit)),
{
    reveal(Link::edited);
    reveal(Link::with_peer_busy);
    reveal(Link::with_ack_pending);
    reveal(Link::with_round_trip);
    reveal(Link::with_t1v);
    reveal(Link::with_backoff);
    reveal(Link::with_t1_left);
}

/// What one steady verb does.
pub proof fn lemma_steady_verb(
    subs: Seq<SubroutineSpec>,
    depth: nat,
    verb: Ax25ActionVerb,
    m: Machine,
    t: Trigger,
)
    requires
        is_steady(verb),
    ensures
        ({
            let o: Outcome = dispatch::run_verb(subs, depth, verb, m, t);
            o.fault is None && only_replies(m, o.machine)
        }),
{
    if let Some(edit) = verbs::edit_of(verb, m.link) {
        lemma_steady_edit(m.link, edit);
    }
    lemma_steady_edit(m.link, Edit::T1Left(m.timers.remaining(TimerId::T1)));
}

proof fn lemma_some_path(paths: Seq<SubroutinePath>, m: Machine, t: Trigger, i: int)
    requires
        0 <= i,
    ensures
        dispatch::path_from(paths, m, t, i) matches Some(path) ==> exists|j: int|
            0 <= j < paths.len() && #[trigger] paths[j] == path,
    decreases paths.len() - i,
{
    if i < paths.len() {
        lemma_some_path(paths, m, t, i + 1);
    }
}

/// The subroutine that answers an enquiry is steady.
pub open spec fn answers_steadily(subs: Seq<SubroutineSpec>) -> bool {
    dispatch::routine_from(subs, "Enquiry_Response"@, 0) matches Some(paths) && goes_steady(
        paths,
        false,
    )
}

/// What steady actions do, from index `k` on.
pub proof fn lemma_steady_actions(
    subs: Seq<SubroutineSpec>,
    depth: nat,
    actions: Seq<ActionStep>,
    loops: Seq<LoopRange>,
    may_answer: bool,
    k: int,
    m: Machine,
    t: Trigger,
)
    requires
        0 <= k,
        loops.len() == 0,
        forall|j: int|
            k <= j < actions.len() ==> is_steady((#[trigger] actions[j]).verb) || may_answer
                && actions[j].verb == Ax25ActionVerb::EnquiryResponseF1,
        may_answer ==> depth > 0 && answers_steadily(subs),
    ensures
        ({
            let o: Outcome = dispatch::run_actions(subs, depth, actions, loops, k, m, t);
            o.fault is None && only_replies(m, o.machine)
        }),
    decreases depth, 0nat, actions.len() - k,
{
    if k < actions.len() {
        let verb: Ax25ActionVerb = actions[k].verb;
        let o: Outcome = dispatch::run_verb(subs, depth, verb, m, t);
        if is_steady(verb) {
            lemma_steady_verb(subs, depth, verb, m, t);
        } else {
            let bound: Machine = m.with_pending(PendingFrame { pf: Some(true), ..m.pending });
            lemma_steady_routine(subs, (depth - 1) as nat, "Enquiry_Response"@, false, bound, t);
        }
        lemma_steady_actions(subs, depth, actions, loops, may_answer, k + 1, o.machine, t);
        lemma_replies_on(
            m,
            o.machine,
            dispatch::run_actions(subs, depth, actions, loops, k + 1, o.machine, t).machine,
        );
    }
}

/// What a steady subroutine does.
pub proof fn lemma_steady_routine(
    subs: Seq<SubroutineSpec>,
    depth: nat,
    name: Seq<char>,
    may_answer: bool,
    m: Machine,
    t: Trigger,
)
    requires
        dispatch::routine_from(subs, name, 0) matches Some(paths) && goes_steady(paths, may_answer),
        may_answer ==> depth > 0 && answers_steadily(subs),
    ensures
        ({
            let o: Outcome = dispatch::run_routine(subs, depth, name, m, t);
            o.fault is None && only_replies(m, o.machine)
        }),
    decreases depth, 1nat, 0int,
{
    let paths: Seq<SubroutinePath> = dispatch::routine_from(subs, name, 0)->0;
    lemma_some_path(paths, m, t, 0);
    if let Some(path) = dispatch::path_from(paths, m, t, 0) {
        lemma_steady_actions(subs, depth, path.actions@, path.loops@, may_answer, 0, m, t);
    }
}

} // verus!
