//! Guard evaluation.
//!
//! A guard is a conjunction of optionally negated atoms. An atom is resolved
//! against the link, the timers and the triggering event.

use ax25sdl::{Ax25Event, Ax25Guard, GuardTerm};
use vstd::prelude::*;

use super::context;
use super::context::{Link, SessionContext};
use super::event::{Event, FrameInfo, Trigger};
use super::timer::{TimerId, TimerService, TimerSnapshot};

verus! {

/// `own_receiver_busy`, turned round for a DL-FLOW-OFF request where the
/// correction is on: a station that is not busy then takes the action branch.
pub open spec fn takes_busy_branch(link: Link, trigger: Trigger) -> bool {
    if link.quirks.dl_flow_off_enters_busy && trigger.on == Ax25Event::DLFLOWOFFRequest {
        !link.own_receiver_busy
    } else {
        link.own_receiver_busy
    }
}

/// `reject_exception`, which where the correction is on also holds for a received
/// I frame whose N(S) lies outside the receive window.
pub open spec fn takes_reject_branch(link: Link, trigger: Trigger) -> bool {
    ||| link.reject_exception
    ||| {
        &&& link.quirks.discard_out_of_window_i_frames
        &&& trigger.on == Ax25Event::IReceived
        &&& trigger.frame matches Some(f)
        &&& context::steps_ahead(link.vr, f.ns, link.modulus()) >= (link.window() as u16)
    }
}

/// Whether an atom holds.
pub open spec fn atom_holds(
    atom: Ax25Guard,
    link: Link,
    timers: TimerSnapshot,
    trigger: Trigger,
) -> bool {
    match atom {
        Ax25Guard::OwnReceiverBusy => takes_busy_branch(link, trigger),
        Ax25Guard::PeerReceiverBusy => link.peer_receiver_busy,
        Ax25Guard::AckPending => link.acknowledge_pending,
        Ax25Guard::RejectException => takes_reject_branch(link, trigger),
        Ax25Guard::Layer3Initiated => link.layer3_initiated,
        Ax25Guard::SREJEnabled => link.srej_enabled,
        Ax25Guard::SrejectExceptionGt0 => link.srej_exception_count > 0,
        Ax25Guard::OutOfSequenceFramesInReceiveBuffer => {
            !link.stored_received_i_frames.is_empty()
        },
        Ax25Guard::VrIFrameStored => link.stored_received_i_frames.contains_key(link.vr),
        Ax25Guard::AbleToEstablish => link.accept_incoming,
        Ax25Guard::Mod128 => link.is_extended,
        Ax25Guard::Mod8 => !link.is_extended,
        Ax25Guard::Version22 => link.is_extended,
        Ax25Guard::VsEqVa => link.vs == link.va,
        Ax25Guard::VsEqVaPlusK => link.outstanding() >= (link.window() as u16),
        Ax25Guard::VsEqX => link.x == Some(link.vs),
        Ax25Guard::T1Running => timers.t1 is Some,
        Ax25Guard::T1Expired => link.t1_had_expired,
        Ax25Guard::RCEq0 => link.rc == 0,
        Ax25Guard::RCEqN2 => link.rc == link.n2,
        Ax25Guard::RCEqNM201 => link.rc == link.n2,
        _ => match trigger.frame {
            None => false,
            Some(f) => match atom {
                Ax25Guard::PEq1 => f.poll_final,
                Ax25Guard::FEq1 => f.poll_final,
                Ax25Guard::POrFEq1 => f.poll_final,
                Ax25Guard::FEq1AndFrameEqRROrFrameEqRNROrFrameEqI => f.poll_final,
                Ax25Guard::Command => f.is_command,
                Ax25Guard::Response => f.responds(),
                Ax25Guard::CommandAndPEq1 => f.is_command && f.poll_final,
                Ax25Guard::ResponseAndFEq1 => f.responds() && f.poll_final,
                Ax25Guard::NsEqVr => f.ns == link.vr,
                Ax25Guard::NsGtVrPlus1 => context::steps_ahead(link.vr, f.ns, link.modulus()) > 1,
                Ax25Guard::VaLeNrLeVs => {
                    context::steps_ahead(link.va, f.nr, link.modulus()) <= link.outstanding()
                },
                Ax25Guard::NrEqVa => f.nr == link.va,
                Ax25Guard::NrEqVs => f.nr == link.vs,
                Ax25Guard::VsEqNr => f.nr == link.vs,
                _ => (f.info.len() as u32) <= link.n1,
            },
        },
    }
}

/// Whether a term holds: its atom, negated if it says so.
pub open spec fn term_holds(
    term: GuardTerm,
    link: Link,
    timers: TimerSnapshot,
    trigger: Trigger,
) -> bool {
    atom_holds(term.atom, link, timers, trigger) != term.negate
}

/// Whether a guard holds: every one of its terms does.
pub open spec fn guard_holds(
    guard: Seq<GuardTerm>,
    link: Link,
    timers: TimerSnapshot,
    trigger: Trigger,
) -> bool {
    forall|i: int|
        0 <= i < guard.len() ==> term_holds(#[trigger] guard[i], link, timers, trigger)
}

/// Evaluates a guard. An empty guard holds.
pub fn eval_guard<T: TimerService>(
    guard: &[GuardTerm],
    ctx: &SessionContext,
    timers: &T,
    trigger: &Event,
) -> (r: bool)
    ensures
        r == guard_holds(guard@, ctx@, timers.slots(), trigger@),
{
    let mut i: usize = 0;
    while i < guard.len()
        invariant
            i <= guard@.len(),
            forall|j: int|
                0 <= j < i ==> term_holds(#[trigger] guard@[j], ctx@, timers.slots(), trigger@),
        decreases guard@.len() - i,
    {
        if !eval_term(guard[i], ctx, timers, trigger) {
            return false;
        }
        i = i + 1;
    }
    true
}

/// Evaluates one guard term.
pub fn eval_term<T: TimerService>(
    term: GuardTerm,
    ctx: &SessionContext,
    timers: &T,
    trigger: &Event,
) -> (r: bool)
    ensures
        r == term_holds(term, ctx@, timers.slots(), trigger@),
{
    let value = eval_atom(term.atom, ctx, timers, trigger);
    if term.negate {
        !value
    } else {
        value
    }
}

/// Resolves one guard atom.
pub fn eval_atom<T: TimerService>(
    atom: Ax25Guard,
    ctx: &SessionContext,
    timers: &T,
    trigger: &Event,
) -> (r: bool)
    ensures
        r == atom_holds(atom, ctx@, timers.slots(), trigger@),
{
    proof {
        context::lemma_fields(*ctx);
    }
    match atom {
        Ax25Guard::OwnReceiverBusy => own_receiver_busy(ctx, trigger),
        Ax25Guard::PeerReceiverBusy => ctx.peer_receiver_busy,
        Ax25Guard::AckPending => ctx.acknowledge_pending,
        Ax25Guard::RejectException => reject_exception(ctx, trigger),
        Ax25Guard::Layer3Initiated => ctx.layer3_initiated,
        Ax25Guard::SREJEnabled => ctx.srej_enabled,
        Ax25Guard::SrejectExceptionGt0 => ctx.srej_exception_count > 0,
        Ax25Guard::OutOfSequenceFramesInReceiveBuffer => !nothing_stored(ctx),
        Ax25Guard::VrIFrameStored => next_is_stored(ctx),
        Ax25Guard::AbleToEstablish => ctx.accept_incoming,
        Ax25Guard::Mod128 => ctx.is_extended,
        Ax25Guard::Mod8 => !ctx.is_extended,
        Ax25Guard::Version22 => ctx.is_extended,
        Ax25Guard::VsEqVa => ctx.vs == ctx.va,
        Ax25Guard::VsEqVaPlusK => ctx.outstanding_count() >= (ctx.effective_window() as u16),
        Ax25Guard::VsEqX => match ctx.x {
            Some(x) => x == ctx.vs,
            None => false,
        },
        Ax25Guard::T1Running => timers.is_running(TimerId::T1),
        Ax25Guard::T1Expired => ctx.t1_had_expired,
        Ax25Guard::RCEq0 => ctx.rc == 0,
        Ax25Guard::RCEqN2 => ctx.rc == ctx.n2,
        Ax25Guard::RCEqNM201 => ctx.rc == ctx.n2,
        _ => match trigger.frame() {
            None => false,
            Some(f) => eval_frame_atom(atom, ctx, f),
        },
    }
}

/// Resolves an atom that reads the received frame.
fn eval_frame_atom(atom: Ax25Guard, ctx: &SessionContext, f: &FrameInfo) -> (r: bool)
    ensures
        forall|timers: TimerSnapshot, trigger: Trigger|
            trigger.frame == Some(f@) && reads_frame(atom) ==> #[trigger] atom_holds(
                atom,
                ctx@,
                timers,
                trigger,
            ) == r,
{
    proof {
        context::lemma_fields(*ctx);
    }
    match atom {
        Ax25Guard::PEq1 => f.poll_final,
        Ax25Guard::FEq1 => f.poll_final,
        Ax25Guard::POrFEq1 => f.poll_final,
        Ax25Guard::FEq1AndFrameEqRROrFrameEqRNROrFrameEqI => f.poll_final,
        Ax25Guard::Command => f.is_command,
        Ax25Guard::Response => f.is_response(),
        Ax25Guard::CommandAndPEq1 => f.is_command && f.poll_final,
        Ax25Guard::ResponseAndFEq1 => f.is_response() && f.poll_final,
        Ax25Guard::NsEqVr => f.ns == ctx.vr,
        Ax25Guard::NsGtVrPlus1 => ctx.distance(ctx.vr, f.ns) > 1,
        Ax25Guard::VaLeNrLeVs => ctx.distance(ctx.va, f.nr) <= ctx.outstanding_count(),
        Ax25Guard::NrEqVa => f.nr == ctx.va,
        Ax25Guard::NrEqVs => f.nr == ctx.vs,
        Ax25Guard::VsEqNr => f.nr == ctx.vs,
        _ => (f.info.len() as u32) <= ctx.n1,
    }
}

/// The atoms that read the received frame. Without one they do not hold.
pub open spec fn reads_frame(atom: Ax25Guard) -> bool {
    match atom {
        Ax25Guard::PEq1 => true,
        Ax25Guard::FEq1 => true,
        Ax25Guard::POrFEq1 => true,
        Ax25Guard::FEq1AndFrameEqRROrFrameEqRNROrFrameEqI => true,
        Ax25Guard::Command => true,
        Ax25Guard::Response => true,
        Ax25Guard::CommandAndPEq1 => true,
        Ax25Guard::ResponseAndFEq1 => true,
        Ax25Guard::NsEqVr => true,
        Ax25Guard::NsGtVrPlus1 => true,
        Ax25Guard::VaLeNrLeVs => true,
        Ax25Guard::NrEqVa => true,
        Ax25Guard::NrEqVs => true,
        Ax25Guard::VsEqNr => true,
        Ax25Guard::InfoFieldLengthLeN1AndContentIsOctetAligned => true,
        _ => false,
    }
}

fn nothing_stored(ctx: &SessionContext) -> (r: bool)
    ensures
        r == ctx@.stored_received_i_frames.is_empty(),
{
    proof {
        context::lemma_fields(*ctx);
        context::lemma_payloads(ctx.stored_received_i_frames@, 0, arbitrary());
    }
    ctx.stored_received_i_frames.is_empty()
}

fn next_is_stored(ctx: &SessionContext) -> (r: bool)
    ensures
        r == ctx@.stored_received_i_frames.contains_key(ctx.vr),
{
    proof {
        context::lemma_fields(*ctx);
        context::lemma_payloads(ctx.stored_received_i_frames@, ctx.vr, arbitrary());
    }
    ctx.stored_received_i_frames.contains_key(&ctx.vr)
}

fn own_receiver_busy(ctx: &SessionContext, trigger: &Event) -> (r: bool)
    ensures
        r == takes_busy_branch(ctx@, trigger@),
{
    proof {
        context::lemma_fields(*ctx);
    }
    if ctx.quirks.dl_flow_off_enters_busy && matches!(trigger, Event::DlFlowOffRequest) {
        !ctx.own_receiver_busy
    } else {
        ctx.own_receiver_busy
    }
}

fn reject_exception(ctx: &SessionContext, trigger: &Event) -> (r: bool)
    ensures
        r == takes_reject_branch(ctx@, trigger@),
{
    proof {
        context::lemma_fields(*ctx);
    }
    if !ctx.quirks.discard_out_of_window_i_frames {
        return ctx.reject_exception;
    }
    if let Event::IReceived(f) = trigger {
        if ctx.distance(ctx.vr, f.ns) >= (ctx.effective_window() as u16) {
            return true;
        }
    }
    ctx.reject_exception
}

/// A frame atom never holds of an event that carries no frame.
pub proof fn law_frame_atoms_need_a_frame(
    atom: Ax25Guard,
    link: Link,
    timers: TimerSnapshot,
    trigger: Trigger,
)
    requires
        reads_frame(atom),
        trigger.frame is None,
    ensures
        !atom_holds(atom, link, timers, trigger),
{
}

/// A term and its negation never both hold, and one of them does.
pub proof fn law_negation_is_exclusive(
    atom: Ax25Guard,
    link: Link,
    timers: TimerSnapshot,
    trigger: Trigger,
)
    ensures
        term_holds(GuardTerm { atom, negate: true }, link, timers, trigger) == !term_holds(
            GuardTerm { atom, negate: false },
            link,
            timers,
            trigger,
        ),
{
}

/// Two guards hold together exactly when their concatenation does, and the empty
/// guard always holds.
pub proof fn law_guards_are_conjunctions(
    a: Seq<GuardTerm>,
    b: Seq<GuardTerm>,
    link: Link,
    timers: TimerSnapshot,
    trigger: Trigger,
)
    ensures
        guard_holds(a + b, link, timers, trigger) <==> guard_holds(a, link, timers, trigger)
            && guard_holds(b, link, timers, trigger),
        guard_holds(Seq::empty(), link, timers, trigger),
{
    if guard_holds(a + b, link, timers, trigger) {
        assert forall|i: int| 0 <= i < a.len() implies term_holds(
            #[trigger] a[i],
            link,
            timers,
            trigger,
        ) by {
            assert((a + b)[i] == a[i]);
        }
        assert forall|i: int| 0 <= i < b.len() implies term_holds(
            #[trigger] b[i],
            link,
            timers,
            trigger,
        ) by {
            assert((a + b)[a.len() + i] == b[i]);
        }
    }
}

} // verus!
