//! Action dispatch: running action chains against a [`Tx`].

use ax25sdl::{ActionStep, Ax25ActionVerb, LoopRange, SubroutinePath, SubroutineSpec};
use vstd::prelude::*;

use super::context;
use super::context::{copied, Edit, Payload, SessionContext};
use super::event::{Event, Trigger};
use super::guard;
use super::guard::{eval_guard, eval_term};
use super::loop_exec::MAX_ITERATIONS;
use super::quirks::Quirks;
use super::signal::{
    DataLinkSignal, FrameSpec, InternalSignal, LinkMultiplexerSignal, SessionSink,
    SupervisoryKind, UnnumberedKind,
};
use super::timer::{next_t1_rc_backoff_ms, scaled, srt_iir_update, TimerId, TimerService};
use super::tx::{Machine, PendingFrame, Tx};
use super::verbs;
use super::verbs::{Fault, Outcome, INITIAL_SRT_MS, T3_MS};
use crate::ax25::PID_NO_LAYER3;
use crate::text::same_text;

verus! {

/// How deeply subroutines may call each other. The figures nest three deep.
pub const MAX_NESTING: usize = 16;

// ─── What an action chain does ──────────────────────────────────────────────

/// The paths of the first subroutine called `name` at or after index `i`.
pub open spec fn routine_from(
    subs: Seq<SubroutineSpec>,
    name: Seq<char>,
    i: int,
) -> Option<Seq<SubroutinePath>>
    decreases subs.len() - i,
{
    if i < 0 || i >= subs.len() {
        None
    } else if subs[i].name@ == name {
        Some(subs[i].paths@)
    } else {
        routine_from(subs, name, i + 1)
    }
}

/// The first path at or after index `i` whose guard holds.
pub open spec fn path_from(
    paths: Seq<SubroutinePath>,
    m: Machine,
    t: Trigger,
    i: int,
) -> Option<SubroutinePath>
    decreases paths.len() - i,
{
    if i < 0 || i >= paths.len() {
        None
    } else if guard::guard_holds(paths[i].guard@, m.link, m.timers, t) {
        Some(paths[i])
    } else {
        path_from(paths, m, t, i + 1)
    }
}

/// The first loop at or after index `j` whose body starts at `start`.
pub open spec fn loop_from(loops: Seq<LoopRange>, start: int, j: int) -> Option<LoopRange>
    decreases loops.len() - j,
{
    if j < 0 || j >= loops.len() {
        None
    } else if loops[j].start == start {
        Some(loops[j])
    } else {
        loop_from(loops, start, j + 1)
    }
}

/// A loop body is not empty and lies within a chain of `count` actions.
pub open spec fn in_range(range: LoopRange, count: int) -> bool {
    range.length > 0 && range.start + range.length <= count
}

/// What one verb does. `depth` subroutine calls may still nest.
pub open spec fn run_verb(
    subs: Seq<SubroutineSpec>,
    depth: nat,
    verb: Ax25ActionVerb,
    m: Machine,
    t: Trigger,
) -> Outcome
    decreases depth, 0nat, 0int,
{
    let v: Ax25ActionVerb = verbs::rewritten(verb, m.link.quirks, t.on);
    if verbs::suppressed(v, m.link.quirks, t.on) {
        verbs::done(m)
    } else {
        match verbs::called(v) {
            None => verbs::primitive_step(v, m, t),
            Some((name, pf)) => {
                let bound: Machine = match pf {
                    Some(f) => m.with_pending(PendingFrame { pf: Some(f), ..m.pending }),
                    None => m,
                };
                if depth == 0 {
                    verbs::failed(bound, Fault::NestedTooDeep)
                } else {
                    run_routine(subs, (depth - 1) as nat, name, bound, t)
                }
            },
        }
    }
}

/// What a call of the subroutine `name` does: the first path whose guard holds
/// runs; without one nothing happens.
pub open spec fn run_routine(
    subs: Seq<SubroutineSpec>,
    depth: nat,
    name: Seq<char>,
    m: Machine,
    t: Trigger,
) -> Outcome
    decreases depth, 4nat, 0int,
{
    match routine_from(subs, name, 0) {
        None => verbs::failed(m, Fault::UnknownSubroutine),
        Some(paths) => match path_from(paths, m, t, 0) {
            None => verbs::done(m),
            Some(path) => run_actions(subs, depth, path.actions@, path.loops@, 0, m, t),
        },
    }
}

/// What the actions from index `i` on do, their loops expanded.
pub open spec fn run_actions(
    subs: Seq<SubroutineSpec>,
    depth: nat,
    actions: Seq<ActionStep>,
    loops: Seq<LoopRange>,
    i: int,
    m: Machine,
    t: Trigger,
) -> Outcome
    decreases depth, 3nat, actions.len() - i,
{
    if i < 0 || i >= actions.len() {
        verbs::done(m)
    } else {
        match loop_from(loops, i, 0) {
            Some(range) => if !in_range(range, actions.len() as int) || range.start != i {
                verbs::failed(m, Fault::LoopOutOfRange)
            } else {
                let o: Outcome = if range.test_at_end {
                    run_until(subs, depth, actions, range, 0, m, t)
                } else {
                    run_while(subs, depth, actions, range, 0, m, t)
                };
                if o.fault is Some {
                    o
                } else {
                    run_actions(subs, depth, actions, loops, i + range.length, o.machine, t)
                }
            },
            None => {
                let o: Outcome = run_verb(subs, depth, actions[i].verb, m, t);
                if o.fault is Some {
                    o
                } else {
                    run_actions(subs, depth, actions, loops, i + 1, o.machine, t)
                }
            },
        }
    }
}

/// What the actions from `i` up to `end` do, one after the other.
pub open spec fn run_body(
    subs: Seq<SubroutineSpec>,
    depth: nat,
    actions: Seq<ActionStep>,
    i: int,
    end: int,
    m: Machine,
    t: Trigger,
) -> Outcome
    decreases depth, 1nat, end - i,
{
    if i >= end {
        verbs::done(m)
    } else {
        let o: Outcome = run_verb(subs, depth, actions[i].verb, m, t);
        if o.fault is Some {
            o
        } else {
            run_body(subs, depth, actions, i + 1, end, o.machine, t)
        }
    }
}

/// A loop that tests at its head, after `passes` passes: it runs its body while
/// the predicate holds, up to the cap.
pub open spec fn run_while(
    subs: Seq<SubroutineSpec>,
    depth: nat,
    actions: Seq<ActionStep>,
    range: LoopRange,
    passes: int,
    m: Machine,
    t: Trigger,
) -> Outcome
    decreases depth, 2nat, MAX_ITERATIONS - passes,
{
    if passes >= MAX_ITERATIONS || !guard::term_holds(range.predicate, m.link, m.timers, t) {
        verbs::done(m)
    } else {
        let o: Outcome = run_body(
            subs,
            depth,
            actions,
            range.start as int,
            range.start + range.length,
            m,
            t,
        );
        if o.fault is Some {
            o
        } else {
            run_while(subs, depth, actions, range, passes + 1, o.machine, t)
        }
    }
}

/// A loop that tests at its tail, after `passes` passes: it runs its body at least
/// once, and again while the predicate holds, up to the cap.
pub open spec fn run_until(
    subs: Seq<SubroutineSpec>,
    depth: nat,
    actions: Seq<ActionStep>,
    range: LoopRange,
    passes: int,
    m: Machine,
    t: Trigger,
) -> Outcome
    decreases depth, 2nat, MAX_ITERATIONS - passes,
{
    let o: Outcome = run_body(
        subs,
        depth,
        actions,
        range.start as int,
        range.start + range.length,
        m,
        t,
    );
    if o.fault is Some || passes + 1 >= MAX_ITERATIONS || !guard::term_holds(
        range.predicate,
        o.machine.link,
        o.machine.timers,
        t,
    ) {
        o
    } else {
        run_until(subs, depth, actions, range, passes + 1, o.machine, t)
    }
}

/// A result as the fault that it stands for.
pub open spec fn fault_of(r: Result<(), Fault>) -> Option<Fault> {
    match r {
        Ok(()) => None,
        Err(f) => Some(f),
    }
}

/// The machine and the result are the outcome.
pub open spec fn arrives(m: Machine, r: Result<(), Fault>, o: Outcome) -> bool {
    m == o.machine && fault_of(r) == o.fault
}

// ─── Verbs ──────────────────────────────────────────────────────────────────

/// The change that a verb makes to the flags, variables and parameters of the
/// link, if it makes one.
fn edit_for(verb: Ax25ActionVerb, ctx: &SessionContext) -> (r: Option<Edit>)
    ensures
        r == verbs::edit_of(verb, ctx@),
{
    proof {
        context::lemma_fields(*ctx);
    }
    match verb {
        Ax25ActionVerb::SetOwnReceiverBusy => Some(Edit::OwnBusy(true)),
        Ax25ActionVerb::ClearOwnReceiverBusy => Some(Edit::OwnBusy(false)),
        Ax25ActionVerb::SetPeerReceiverBusy => Some(Edit::PeerBusy(true)),
        Ax25ActionVerb::ClearPeerReceiverBusy => Some(Edit::PeerBusy(false)),
        Ax25ActionVerb::SetAcknowledgePending => Some(Edit::AckPending(true)),
        Ax25ActionVerb::ClearAcknowledgePending => Some(Edit::AckPending(false)),
        Ax25ActionVerb::SetLayer3Initiated => Some(Edit::Layer3(true)),
        Ax25ActionVerb::ClearLayer3Initiated => Some(Edit::Layer3(false)),
        Ax25ActionVerb::SetRejectException => Some(Edit::Reject(true)),
        Ax25ActionVerb::ClearRejectException => Some(Edit::Reject(false)),
        Ax25ActionVerb::ClearRejectCondition => Some(Edit::Reject(false)),
        Ax25ActionVerb::ClearSrejectCondition => Some(Edit::Sreject(0, false)),
        Ax25ActionVerb::IncrementSrejectException => Some(
            Edit::Sreject(ctx.srej_exception_count.saturating_add(1), true),
        ),
        Ax25ActionVerb::SrejectAssignSrejectPlus1 => Some(
            Edit::Sreject(ctx.srej_exception_count.saturating_add(1), true),
        ),
        Ax25ActionVerb::DecrementSrejectExceptionIf0 => if ctx.srej_exception_count == 0 {
            None
        } else {
            Some(
                Edit::Sreject(
                    ctx.srej_exception_count - 1,
                    ctx.srej_exception_count > 1 && ctx.selective_reject_exception,
                ),
            )
        },
        Ax25ActionVerb::SetVersion20 => Some(Edit::Extended(false)),
        Ax25ActionVerb::SetVersion22 => Some(Edit::Extended(true)),
        Ax25ActionVerb::ModuloAssign8 => Some(Edit::Extended(false)),
        Ax25ActionVerb::ModuloAssign128 => Some(Edit::Extended(true)),
        Ax25ActionVerb::SetHalfDuplex => Some(Edit::HalfDuplex(true)),
        Ax25ActionVerb::SetImplicitReject => Some(Edit::SelectiveReject(false)),
        Ax25ActionVerb::SetSelectiveReject => Some(Edit::SelectiveReject(true)),
        Ax25ActionVerb::N1Assign2048 => Some(Edit::N1(2048)),
        Ax25ActionVerb::KAssign8 => Some(Edit::K(8)),
        Ax25ActionVerb::KAssign32 => Some(Edit::K(32)),
        Ax25ActionVerb::T2Assign3000 => Some(Edit::T2(3000)),
        Ax25ActionVerb::N2Assign10 => Some(Edit::N2(10)),
        Ax25ActionVerb::SRTAssignInitialDefault => Some(Edit::Srt(INITIAL_SRT_MS)),
        Ax25ActionVerb::T1VAssign2TimesSRT => Some(Edit::T1v(scaled(ctx.srt_ms, 2))),
        Ax25ActionVerb::NextT1Assign2TimesSRT => Some(Edit::T1v(scaled(ctx.srt_ms, 2))),
        Ax25ActionVerb::NextT1AssignRCTimes025PlusSRTTimes2 => Some(
            Edit::Backoff(next_t1_rc_backoff_ms(ctx.rc, ctx.srt_ms)),
        ),
        Ax25ActionVerb::SRTAssign7SRT8PlusT18RemainingTimeOnT1WhenLastStopped8 => Some(
            Edit::RoundTrip(
                srt_iir_update(
                    ctx.srt_ms,
                    ctx.t1v_ms,
                    ctx.t1_remaining_when_last_stopped_ms,
                    ctx.quirks.karn_srt_sampling,
                ),
            ),
        ),
        Ax25ActionVerb::VSAssign0 => Some(Edit::Vs(0)),
        Ax25ActionVerb::VSAssignVSPlus1 => Some(Edit::Vs(ctx.increment_seq(ctx.vs))),
        Ax25ActionVerb::VRAssign0 => Some(Edit::Vr(0)),
        Ax25ActionVerb::VRAssignVRPlus1 => Some(Edit::Vr(ctx.increment_seq(ctx.vr))),
        Ax25ActionVerb::VRAssignVR1 => Some(Edit::Vr(ctx.decrement_seq(ctx.vr))),
        Ax25ActionVerb::VAAssign0 => Some(Edit::Va(0)),
        Ax25ActionVerb::XAssignVS => Some(Edit::X(Some(ctx.vs))),
        Ax25ActionVerb::RCAssign0 => Some(Edit::Rc(0)),
        Ax25ActionVerb::RCAssign1 => Some(Edit::Rc(1)),
        Ax25ActionVerb::RCAssignRCPlus1 => Some(Edit::Rc(ctx.rc.saturating_add(1))),
        _ => None,
    }
}

/// The verb that stands in for `verb` under the corrections of the figures.
fn apply_verb_quirks(verb: Ax25ActionVerb, quirks: &Quirks, trigger: &Event) -> (r: Ax25ActionVerb)
    ensures
        r == verbs::rewritten(verb, *quirks, trigger@.on),
{
    let on_srej = matches!(trigger, Event::SrejReceived(_));
    let on_i = matches!(trigger, Event::IReceived(_));
    match verb {
        Ax25ActionVerb::PushOnIFrameQueue
        | Ax25ActionVerb::PushOnIFrameQueueNoteWordOrder
        | Ax25ActionVerb::PushFrameOnQueue
        | Ax25ActionVerb::PushIFrameOnIQueue => if quirks.srej_selective_retransmit && on_srej {
            Ax25ActionVerb::PushOldIFrameNROnQueue
        } else {
            verb
        },
        Ax25ActionVerb::NRAssignNS => if quirks.srej_targets_gap && on_i {
            Ax25ActionVerb::NRAssignVR
        } else {
            verb
        },
        Ax25ActionVerb::VRAssignVR1 => if quirks.timer_recovery_drain_advances_vr {
            Ax25ActionVerb::VRAssignVRPlus1
        } else {
            verb
        },
        _ => verb,
    }
}

/// The subroutine that a verb calls, with the F bit that the call sets first.
fn call_of(verb: Ax25ActionVerb) -> (r: Option<(&'static str, Option<bool>)>)
    ensures
        match r {
            Some((name, pf)) => verbs::called(verb) == Some((name@, pf)),
            None => verbs::called(verb) is None,
        },
{
    match verb {
        Ax25ActionVerb::EstablishDataLink => Some(("Establish_Data_Link", None)),
        Ax25ActionVerb::ClearExceptionConditions => Some(("Clear_Exception_Conditions", None)),
        Ax25ActionVerb::UICheck => Some(("UI_Check", None)),
        Ax25ActionVerb::SelectT1Value => Some(("Select_T1", None)),
        Ax25ActionVerb::CheckIFrameAcknowledged => Some(("Check_I_Frame_Acknowledged", None)),
        Ax25ActionVerb::CheckNeedForResponse => Some(("Check_Need_for_Response", None)),
        Ax25ActionVerb::TransmitEnquiry => Some(("Transmit_Enquiry", None)),
        Ax25ActionVerb::TransmitEnquery => Some(("Transmit_Enquiry", None)),
        Ax25ActionVerb::InvokeRetransmission => Some(("Invoke_Retransmission", None)),
        Ax25ActionVerb::NRErrorRecovery => Some(("N_r_Error_Recovery", None)),
        Ax25ActionVerb::NRRecovery => Some(("N_r_Error_Recovery", None)),
        Ax25ActionVerb::EnquiryResponseFEq0 => Some(("Enquiry_Response", Some(false))),
        Ax25ActionVerb::EnquiryResponseF1 => Some(("Enquiry_Response", Some(true))),
        _ => None,
    }
}

/// The letter code of a DL-ERROR indication.
fn code_of(verb: Ax25ActionVerb) -> (r: Option<&'static str>)
    ensures
        match r {
            Some(code) => verbs::error_code(verb) == Some(code@),
            None => verbs::error_code(verb) is None,
        },
{
    match verb {
        Ax25ActionVerb::DLERRORIndicationCD => Some("C_D"),
        Ax25ActionVerb::DLERRORIndicationD => Some("D"),
        Ax25ActionVerb::DLERRORIndicationE => Some("E"),
        Ax25ActionVerb::DLERRORIndicationF => Some("F"),
        Ax25ActionVerb::DLERRORIndicationG => Some("G"),
        Ax25ActionVerb::DLERRORIndicationI => Some("I"),
        Ax25ActionVerb::DLERRORIndicationK => Some("K"),
        Ax25ActionVerb::DLERRORIndicationL => Some("L"),
        Ax25ActionVerb::DLERRORIndicationM => Some("M"),
        Ax25ActionVerb::DLERRORIndicationN => Some("N"),
        Ax25ActionVerb::DLERRORIndicationO => Some("O"),
        Ax25ActionVerb::DLERRORIndicationT => Some("T"),
        Ax25ActionVerb::DLERRORIndicationU => Some("U"),
        Ax25ActionVerb::DLERRORIndicationA => Some("A"),
        Ax25ActionVerb::DLERRORIndicationJ => Some("J"),
        Ax25ActionVerb::DLERRORIndicationQ => Some("Q"),
        Ax25ActionVerb::DLERRORIndicationAdd => Some("add"),
        _ => None,
    }
}

/// Runs a verb that emits a signal whatever the state is. Says whether `verb` is
/// one.
fn run_signal_verb<'a, T: TimerService, S: SessionSink>(
    verb: Ax25ActionVerb,
    tx: &mut Tx<'a, T, S>,
) -> (r: bool)
    requires
        old(tx).wf(),
    ensures
        *final(final(tx).session) == *final(old(tx).session),
        *final(final(tx).timers) == *final(old(tx).timers),
        *final(final(tx).sink) == *final(old(tx).sink),
        final(tx).continues(*old(tx)),
        match verbs::fixed_signal(verb) {
            Some(signal) => r && final(tx).machine() == old(tx).machine().emit(signal),
            None => !r && final(tx).machine() == old(tx).machine(),
        },
{
    if let Some(code) = code_of(verb) {
        tx.emit_upward(DataLinkSignal::ErrorIndication(code));
        return true;
    }
    match verb {
        Ax25ActionVerb::DLCONNECTIndication => tx.emit_upward(DataLinkSignal::ConnectIndication),
        Ax25ActionVerb::DLCONNECTConfirm => tx.emit_upward(DataLinkSignal::ConnectConfirm),
        Ax25ActionVerb::DLDISCONNECTIndication => {
            tx.emit_upward(DataLinkSignal::DisconnectIndication)
        },
        Ax25ActionVerb::DLDISCONNECTConfirm => tx.emit_upward(DataLinkSignal::DisconnectConfirm),
        Ax25ActionVerb::LMSeizeRequest => tx.emit_link_mux(LinkMultiplexerSignal::SeizeRequest),
        Ax25ActionVerb::LMReleaseRequest => tx.emit_link_mux(LinkMultiplexerSignal::ReleaseRequest),
        Ax25ActionVerb::LMDataRequest => tx.emit_link_mux(LinkMultiplexerSignal::DataRequest),
        Ax25ActionVerb::MDLNEGOTIATERequest => {
            tx.emit_internal(InternalSignal::MdlNegotiateRequest)
        },
        _ => {
            return false;
        },
    }
    true
}

/// The supervisory frame that a verb sends.
fn supervisory_of(verb: Ax25ActionVerb) -> (r: Option<(SupervisoryKind, bool)>)
    ensures
        r == verbs::supervisory(verb),
{
    match verb {
        Ax25ActionVerb::RRCommand | Ax25ActionVerb::RRCommandPEq0 => Some(
            (SupervisoryKind::Rr, true),
        ),
        Ax25ActionVerb::RR | Ax25ActionVerb::RRResponse => Some((SupervisoryKind::Rr, false)),
        Ax25ActionVerb::RNRCommand => Some((SupervisoryKind::Rnr, true)),
        Ax25ActionVerb::RNR | Ax25ActionVerb::RNRResponse | Ax25ActionVerb::RNRResponseFEq0 => {
            Some((SupervisoryKind::Rnr, false))
        },
        Ax25ActionVerb::REJ => Some((SupervisoryKind::Rej, false)),
        Ax25ActionVerb::SREJ => Some((SupervisoryKind::Srej, false)),
        _ => None,
    }
}

/// The unnumbered frame that a verb sends.
fn unnumbered_of(verb: Ax25ActionVerb) -> (r: Option<(UnnumberedKind, bool, Option<bool>, bool)>)
    ensures
        r == verbs::unnumbered(verb),
{
    match verb {
        Ax25ActionVerb::UA => Some((UnnumberedKind::Ua, false, None, false)),
        Ax25ActionVerb::DM | Ax25ActionVerb::DMResponseFEq0 => Some(
            (UnnumberedKind::Dm, false, None, false),
        ),
        Ax25ActionVerb::DMFEq1 => Some((UnnumberedKind::Dm, false, Some(true), false)),
        Ax25ActionVerb::ExpeditedUA => Some((UnnumberedKind::Ua, false, None, true)),
        Ax25ActionVerb::ExpeditedDM => Some((UnnumberedKind::Dm, false, None, true)),
        Ax25ActionVerb::SABM | Ax25ActionVerb::SABMPEqEq1 => Some(
            (UnnumberedKind::Sabm, true, Some(true), false),
        ),
        Ax25ActionVerb::SABME | Ax25ActionVerb::SABMEPEq1 => Some(
            (UnnumberedKind::Sabme, true, Some(true), false),
        ),
        Ax25ActionVerb::DISCPEq1 => Some((UnnumberedKind::Disc, true, Some(true), false)),
        _ => None,
    }
}

fn send_s<'a, T: TimerService, S: SessionSink>(
    tx: &mut Tx<'a, T, S>,
    kind: SupervisoryKind,
    is_command: bool,
)
    requires
        old(tx).wf(),
    ensures
        *final(final(tx).session) == *final(old(tx).session),
        *final(final(tx).timers) == *final(old(tx).timers),
        *final(final(tx).sink) == *final(old(tx).sink),
        final(tx).continues(*old(tx)),
        final(tx).machine() == verbs::send_supervisory(old(tx).machine(), kind, is_command),
{
    proof {
        context::lemma_fields(*tx.session);
    }
    let nr: u8 = match tx.pending.nr {
        Some(nr) => nr,
        None => tx.session.vr,
    };
    let pf = match tx.pending.pf {
        Some(pf) => pf,
        None => false,
    };
    tx.emit_frame(FrameSpec::Supervisory { kind, is_command, nr, pf });
}

fn send_u<'a, T: TimerService, S: SessionSink>(
    tx: &mut Tx<'a, T, S>,
    kind: UnnumberedKind,
    is_command: bool,
    fixed: Option<bool>,
    expedited: bool,
)
    requires
        old(tx).wf(),
    ensures
        *final(final(tx).session) == *final(old(tx).session),
        *final(final(tx).timers) == *final(old(tx).timers),
        *final(final(tx).sink) == *final(old(tx).sink),
        final(tx).continues(*old(tx)),
        final(tx).machine() == verbs::send_unnumbered(
            old(tx).machine(),
            kind,
            is_command,
            fixed,
            expedited,
        ),
{
    let pf = match fixed {
        Some(pf) => pf,
        None => match tx.pending.pf {
            Some(pf) => pf,
            None => false,
        },
    };
    tx.emit_frame(FrameSpec::Unnumbered { kind, is_command, pf, expedited });
}

fn send_ui<'a, T: TimerService, S: SessionSink>(tx: &mut Tx<'a, T, S>) -> (r: Result<(), Fault>)
    requires
        old(tx).wf(),
    ensures
        *final(final(tx).session) == *final(old(tx).session),
        *final(final(tx).timers) == *final(old(tx).timers),
        *final(final(tx).sink) == *final(old(tx).sink),
        final(tx).continues(*old(tx)),
        arrives(
            final(tx).machine(),
            r,
            verbs::send_ui(old(tx).machine(), old(tx).trigger@),
        ),
{
    let (pid, info) = match &tx.trigger {
        Event::DlUnitDataRequest(pid, info) => (*pid, copied(info)),
        _ => {
            return Err(Fault::WrongTrigger);
        },
    };
    let pf = match tx.pending.pf {
        Some(pf) => pf,
        None => false,
    };
    tx.emit_frame(FrameSpec::Ui { is_command: true, pf, pid, info });
    Ok(())
}

fn emit_i_frame<'a, T: TimerService, S: SessionSink>(
    tx: &mut Tx<'a, T, S>,
) -> (r: Result<(), Fault>)
    requires
        old(tx).wf(),
    ensures
        *final(final(tx).session) == *final(old(tx).session),
        *final(final(tx).timers) == *final(old(tx).timers),
        *final(final(tx).sink) == *final(old(tx).sink),
        final(tx).continues(*old(tx)),
        arrives(
            final(tx).machine(),
            r,
            verbs::send_information(old(tx).machine(), old(tx).trigger@),
        ),
{
    proof {
        context::lemma_fields(*tx.session);
    }
    let (pid, info) = match &tx.trigger {
        Event::IFramePopsOffQueue(pid, info) => (*pid, copied(info)),
        _ => {
            return Err(Fault::WrongTrigger);
        },
    };
    let ns: u8 = match tx.pending.ns {
        Some(ns) => ns,
        None => tx.session.vs,
    };
    let nr: u8 = match tx.pending.nr {
        Some(nr) => nr,
        None => tx.session.vr,
    };
    let p = match tx.pending.pf {
        Some(pf) => pf,
        None => false,
    };
    let kept = copied(&info);
    tx.emit_frame(FrameSpec::Information { p, nr, ns, pid, info });
    tx.session.retain_sent(ns, Payload::new(kept, pid));
    Ok(())
}

/// Sends a retained frame again at its own N(S). A selective replay is of a frame
/// that awaits an acknowledgement, and at most once until V(A) advances.
fn emit_old_i_frame<'a, T: TimerService, S: SessionSink>(
    tx: &mut Tx<'a, T, S>,
    ns: u8,
    selective_replay: bool,
)
    requires
        old(tx).wf(),
    ensures
        *final(final(tx).session) == *final(old(tx).session),
        *final(final(tx).timers) == *final(old(tx).timers),
        *final(final(tx).sink) == *final(old(tx).sink),
        final(tx).continues(*old(tx)),
        final(tx).machine() == if selective_replay {
            verbs::resend_selectively(old(tx).machine(), ns)
        } else {
            verbs::resend(old(tx).machine(), ns)
        },
{
    if selective_replay {
        if !tx.session.is_outstanding(ns) {
            return;
        }
        let ghost before = tx.session@;
        if !tx.session.mark_replayed(ns) {
            proof {
                context::lemma_replayed_twice(before, ns);
            }
            return;
        }
    }
    match tx.session.sent_at(ns) {
        Some(entry) => {
            proof {
                context::lemma_fields(*tx.session);
            }
            let nr: u8 = tx.session.vr;
            tx.emit_frame(
                FrameSpec::Information { p: false, nr, ns, pid: entry.pid, info: entry.data },
            );
        },
        None => {
        },
    }
}

fn push_on_i_frame_queue<'a, T: TimerService, S: SessionSink>(
    tx: &mut Tx<'a, T, S>,
) -> (r: Result<(), Fault>)
    requires
        old(tx).wf(),
    ensures
        *final(final(tx).session) == *final(old(tx).session),
        *final(final(tx).timers) == *final(old(tx).timers),
        *final(final(tx).sink) == *final(old(tx).sink),
        final(tx).continues(*old(tx)),
        arrives(
            final(tx).machine(),
            r,
            verbs::push_request(old(tx).machine(), old(tx).trigger@),
        ),
{
    let (pid, data) = match &tx.trigger {
        Event::DlDataRequest(pid, data) => (*pid, copied(data)),
        _ => {
            return Err(Fault::WrongTrigger);
        },
    };
    let queued = copied(&data);
    tx.session.enqueue(Payload::new(queued, pid));
    tx.emit_internal(InternalSignal::PushIFrameQueue(data));
    Ok(())
}

fn retrieve_stored_vr_i_frame<'a, T: TimerService, S: SessionSink>(tx: &mut Tx<'a, T, S>)
    requires
        old(tx).wf(),
    ensures
        *final(final(tx).session) == *final(old(tx).session),
        *final(final(tx).timers) == *final(old(tx).timers),
        *final(final(tx).sink) == *final(old(tx).sink),
        final(tx).continues(*old(tx)),
        final(tx).machine() == verbs::stage_stored(old(tx).machine()),
{
    proof {
        context::lemma_fields(*tx.session);
    }
    let ghost before = tx.session@;
    match tx.session.take_stored() {
        Some(stored) => {
            tx.retrieved_stored_frame = Some((stored.pid, stored.data));
        },
        None => {
            proof {
                context::lemma_nothing_stored(before);
            }
        },
    }
}

fn build_data_indication<'a, T: TimerService, S: SessionSink>(
    tx: &mut Tx<'a, T, S>,
) -> (r: Result<(), Fault>)
    requires
        old(tx).wf(),
    ensures
        *final(final(tx).session) == *final(old(tx).session),
        *final(final(tx).timers) == *final(old(tx).timers),
        *final(final(tx).sink) == *final(old(tx).sink),
        final(tx).continues(*old(tx)),
        arrives(
            final(tx).machine(),
            r,
            verbs::deliver(old(tx).machine(), old(tx).trigger@),
        ),
{
    if let Some((pid, info)) = tx.retrieved_stored_frame.take() {
        tx.emit_upward(DataLinkSignal::DataIndication(pid, info));
        return Ok(());
    }
    let (pid, info) = match tx.trigger.frame() {
        None => {
            return Err(Fault::NoFrame);
        },
        Some(frame) => match frame.pid {
            None => {
                return Err(Fault::NoPid);
            },
            Some(pid) => (pid, copied(&frame.info)),
        },
    };
    tx.emit_upward(DataLinkSignal::DataIndication(pid, info));
    Ok(())
}

/// Runs a verb that reads the received frame.
fn run_frame_verb<'a, T: TimerService, S: SessionSink>(
    verb: Ax25ActionVerb,
    tx: &mut Tx<'a, T, S>,
) -> (r: Result<(), Fault>)
    requires
        old(tx).wf(),
        verbs::needs_frame(verb),
    ensures
        *final(final(tx).session) == *final(old(tx).session),
        *final(final(tx).timers) == *final(old(tx).timers),
        *final(final(tx).sink) == *final(old(tx).sink),
        final(tx).continues(*old(tx)),
        arrives(
            final(tx).machine(),
            r,
            verbs::frame_step(verb, old(tx).machine(), old(tx).trigger@),
        ),
{
    let (nr, ns, poll_final, pid, info): (u8, u8, bool, Option<u8>, Vec<u8>) =
        match tx.trigger.frame() {
        None => {
            return Err(Fault::NoFrame);
        },
        Some(f) => (f.nr, f.ns, f.poll_final, f.pid, copied(&f.info)),
    };
    match verb {
        Ax25ActionVerb::DLUNITDATAIndication => {
            let pid: u8 = match pid {
                Some(pid) => pid,
                None => PID_NO_LAYER3,
            };
            tx.emit_upward(DataLinkSignal::UnitDataIndication(pid, info));
        },
        Ax25ActionVerb::SaveContentsOfIFrame => match pid {
            None => {
                return Err(Fault::NoPid);
            },
            Some(pid) => tx.session.store_received(ns, Payload::new(info, pid)),
        },
        Ax25ActionVerb::PushOldIFrameNROnQueue => emit_old_i_frame(tx, nr, true),
        Ax25ActionVerb::VSAssignNR => {
            tx.session.edit(Edit::Vs(nr));
        },
        Ax25ActionVerb::VAAssignNR => tx.session.acknowledge(nr),
        Ax25ActionVerb::NRAssignNS => {
            tx.pending.nr = Some(ns);
        },
        _ => {
            tx.pending.pf = Some(poll_final);
        },
    }
    Ok(())
}

/// Runs a verb that calls no subroutine.
#[verifier::spinoff_prover]
#[verifier::rlimit(60)]
fn run_primitive<'a, T: TimerService, S: SessionSink>(
    verb: Ax25ActionVerb,
    tx: &mut Tx<'a, T, S>,
) -> (r: Result<(), Fault>)
    requires
        old(tx).wf(),
    ensures
        *final(final(tx).session) == *final(old(tx).session),
        *final(final(tx).timers) == *final(old(tx).timers),
        *final(final(tx).sink) == *final(old(tx).sink),
        final(tx).continues(*old(tx)),
        arrives(
            final(tx).machine(),
            r,
            verbs::primitive_step(verb, old(tx).machine(), old(tx).trigger@),
        ),
{
    if let Some(edit) = edit_for(verb, tx.session) {
        tx.session.edit(edit);
        return Ok(());
    }
    if run_signal_verb(verb, tx) {
        return Ok(());
    }
    if let Some((kind, is_command)) = supervisory_of(verb) {
        send_s(tx, kind, is_command);
        return Ok(());
    }
    if let Some((kind, is_command, fixed, expedited)) = unnumbered_of(verb) {
        send_u(tx, kind, is_command, fixed, expedited);
        return Ok(());
    }
    proof {
        context::lemma_fields(*tx.session);
    }
    match verb {
        Ax25ActionVerb::DLUNITDATAIndication
        | Ax25ActionVerb::SaveContentsOfIFrame
        | Ax25ActionVerb::PushOldIFrameNROnQueue
        | Ax25ActionVerb::VSAssignNR
        | Ax25ActionVerb::VAAssignNR
        | Ax25ActionVerb::NRAssignNS
        | Ax25ActionVerb::FAssignP => {
            return run_frame_verb(verb, tx);
        },
        Ax25ActionVerb::PushOnIFrameQueue
        | Ax25ActionVerb::PushOnIFrameQueueNoteWordOrder
        | Ax25ActionVerb::PushFrameOnQueue
        | Ax25ActionVerb::PushIFrameOnIQueue => {
            return push_on_i_frame_queue(tx);
        },
        Ax25ActionVerb::DiscardFrameQueue
        | Ax25ActionVerb::DiscardQueue
        | Ax25ActionVerb::DiscardIFrameQueue
        | Ax25ActionVerb::DiscardIQueueEntries => tx.session.discard_queue(),
        Ax25ActionVerb::StartT1 => {
            let t1v_ms: u32 = tx.session.t1v_ms;
            tx.timers.arm(TimerId::T1, t1v_ms);
        },
        Ax25ActionVerb::StartT3 => tx.timers.arm(TimerId::T3, T3_MS),
        Ax25ActionVerb::StopT1 => {
            let remaining: u32 = tx.timers.time_remaining_ms(TimerId::T1);
            tx.session.edit(Edit::T1Left(remaining));
            tx.timers.cancel(TimerId::T1);
        },
        Ax25ActionVerb::StopT3 => tx.timers.cancel(TimerId::T3),
        Ax25ActionVerb::UICommand => {
            return send_ui(tx);
        },
        Ax25ActionVerb::ICommand => {
            return emit_i_frame(tx);
        },
        Ax25ActionVerb::DLDATAIndication => {
            return build_data_indication(tx);
        },
        Ax25ActionVerb::RetrieveStoredVRIFrame => retrieve_stored_vr_i_frame(tx),
        Ax25ActionVerb::NRAssignVR => {
            tx.pending.nr = Some(tx.session.vr);
        },
        Ax25ActionVerb::NSAssignVS => {
            tx.pending.ns = Some(tx.session.vs);
        },
        Ax25ActionVerb::FAssign0 | Ax25ActionVerb::PAssign0 => {
            tx.pending.pf = Some(false);
        },
        Ax25ActionVerb::FAssign1 | Ax25ActionVerb::PAssign1 => {
            tx.pending.pf = Some(true);
        },
        Ax25ActionVerb::PushOldIFrameOntoQueue => {
            let ns: u8 = tx.session.vs;
            emit_old_i_frame(tx, ns, false);
        },
        _ => {
        },
    }
    Ok(())
}

// ─── Chains ─────────────────────────────────────────────────────────────────

/// The paths of the first subroutine called `name`.
fn find_routine(subs: &[SubroutineSpec], name: &str) -> (r: Option<&'static [SubroutinePath]>)
    ensures
        match r {
            Some(paths) => routine_from(subs@, name@, 0) == Some(paths@),
            None => routine_from(subs@, name@, 0) is None,
        },
{
    let mut i: usize = 0;
    while i < subs.len()
        invariant
            i <= subs@.len(),
            routine_from(subs@, name@, 0) == routine_from(subs@, name@, i as int),
        decreases subs@.len() - i,
    {
        if same_text(subs[i].name, name) {
            return Some(subs[i].paths);
        }
        i = i + 1;
    }
    None
}

/// The first path whose guard holds.
fn find_path<'a, T: TimerService, S: SessionSink>(
    paths: &[SubroutinePath],
    tx: &Tx<'a, T, S>,
) -> (r: Option<SubroutinePath>)
    ensures
        r == path_from(paths@, tx.machine(), tx.trigger@, 0),
{
    let mut i: usize = 0;
    while i < paths.len()
        invariant
            i <= paths@.len(),
            path_from(paths@, tx.machine(), tx.trigger@, 0) == path_from(
                paths@,
                tx.machine(),
                tx.trigger@,
                i as int,
            ),
        decreases paths@.len() - i,
    {
        if eval_guard(paths[i].guard, tx.session, tx.timers, &tx.trigger) {
            return Some(paths[i]);
        }
        i = i + 1;
    }
    None
}

/// The first loop whose body starts at `start`.
fn find_loop(loops: &[LoopRange], start: usize) -> (r: Option<LoopRange>)
    ensures
        r == loop_from(loops@, start as int, 0),
        r matches Some(range) ==> range.start == start,
{
    let mut j: usize = 0;
    while j < loops.len()
        invariant
            j <= loops@.len(),
            loop_from(loops@, start as int, 0) == loop_from(loops@, start as int, j as int),
        decreases loops@.len() - j,
    {
        if loops[j].start == start {
            return Some(loops[j]);
        }
        j = j + 1;
    }
    None
}

/// Runs one verb. `depth` subroutine calls may still nest.
pub(crate) fn execute_verb_within<'a, T: TimerService, S: SessionSink>(
    verb: Ax25ActionVerb,
    tx: &mut Tx<'a, T, S>,
    depth: usize,
) -> (r: Result<(), Fault>)
    requires
        old(tx).wf(),
    ensures
        *final(final(tx).session) == *final(old(tx).session),
        *final(final(tx).timers) == *final(old(tx).timers),
        *final(final(tx).sink) == *final(old(tx).sink),
        final(tx).continues(*old(tx)),
        arrives(
            final(tx).machine(),
            r,
            run_verb(
                old(tx).subroutines@,
                depth as nat,
                verb,
                old(tx).machine(),
                old(tx).trigger@,
            ),
        ),
    decreases depth, 0nat, 0int,
{
    proof {
        context::lemma_fields(*tx.session);
    }
    let quirks = tx.session.quirks;
    let v = apply_verb_quirks(verb, &quirks, &tx.trigger);
    if quirks.srej_selective_retransmit && matches!(tx.trigger, Event::SrejReceived(_))
        && matches!(v, Ax25ActionVerb::InvokeRetransmission) {
        return Ok(());
    }
    match call_of(v) {
        None => run_primitive(v, tx),
        Some((name, pf)) => {
            if let Some(f) = pf {
                tx.pending.pf = Some(f);
            }
            if depth == 0 {
                Err(Fault::NestedTooDeep)
            } else {
                invoke_within(name, tx, depth - 1)
            }
        },
    }
}

/// Calls a subroutine: the first path whose guard holds runs.
pub(crate) fn invoke_within<'a, T: TimerService, S: SessionSink>(
    name: &str,
    tx: &mut Tx<'a, T, S>,
    depth: usize,
) -> (r: Result<(), Fault>)
    requires
        old(tx).wf(),
    ensures
        *final(final(tx).session) == *final(old(tx).session),
        *final(final(tx).timers) == *final(old(tx).timers),
        *final(final(tx).sink) == *final(old(tx).sink),
        final(tx).continues(*old(tx)),
        arrives(
            final(tx).machine(),
            r,
            run_routine(
                old(tx).subroutines@,
                depth as nat,
                name@,
                old(tx).machine(),
                old(tx).trigger@,
            ),
        ),
    decreases depth, 4nat, 0int,
{
    match find_routine(tx.subroutines, name) {
        None => Err(Fault::UnknownSubroutine),
        Some(paths) => match find_path(paths, tx) {
            None => Ok(()),
            Some(path) => execute_actions_within(path.actions, path.loops, tx, depth),
        },
    }
}

/// Runs an action chain, its loops expanded.
pub(crate) fn execute_actions_within<'a, T: TimerService, S: SessionSink>(
    actions: &[ActionStep],
    loops: &[LoopRange],
    tx: &mut Tx<'a, T, S>,
    depth: usize,
) -> (r: Result<(), Fault>)
    requires
        old(tx).wf(),
    ensures
        *final(final(tx).session) == *final(old(tx).session),
        *final(final(tx).timers) == *final(old(tx).timers),
        *final(final(tx).sink) == *final(old(tx).sink),
        final(tx).continues(*old(tx)),
        arrives(
            final(tx).machine(),
            r,
            run_actions(
                old(tx).subroutines@,
                depth as nat,
                actions@,
                loops@,
                0,
                old(tx).machine(),
                old(tx).trigger@,
            ),
        ),
    decreases depth, 3nat, 0int,
{
    let ghost subs = tx.subroutines@;
    let ghost t = tx.trigger@;
    let ghost whole = run_actions(subs, depth as nat, actions@, loops@, 0, tx.machine(), t);
    let mut i: usize = 0;
    while i < actions.len()
        invariant
            *final(tx.session) == *final(old(tx).session),
            *final(tx.timers) == *final(old(tx).timers),
            *final(tx.sink) == *final(old(tx).sink),
            tx.continues(*old(tx)),
            subs == old(tx).subroutines@,
            t == old(tx).trigger@,
            i <= actions@.len(),
            whole == run_actions(
                subs,
                depth as nat,
                actions@,
                loops@,
                0,
                old(tx).machine(),
                t,
            ),
            whole == run_actions(
                subs,
                depth as nat,
                actions@,
                loops@,
                i as int,
                tx.machine(),
                t,
            ),
        decreases actions@.len() - i,
    {
        match find_loop(loops, i) {
            Some(range) => {
                if range.length == 0 || range.length > actions.len() - i {
                    return Err(Fault::LoopOutOfRange);
                }
                let step = run_loop_range(range, actions, tx, depth);
                if let Err(fault) = step {
                    return Err(fault);
                }
                i = i + range.length;
            },
            None => {
                let step = execute_verb_within(actions[i].verb, tx, depth);
                if let Err(fault) = step {
                    return Err(fault);
                }
                i = i + 1;
            },
        }
    }
    Ok(())
}

/// Runs the actions from `start` up to `end`, one after the other.
fn execute_body<'a, T: TimerService, S: SessionSink>(
    actions: &[ActionStep],
    start: usize,
    end: usize,
    tx: &mut Tx<'a, T, S>,
    depth: usize,
) -> (r: Result<(), Fault>)
    requires
        old(tx).wf(),
        start <= end <= actions@.len(),
    ensures
        *final(final(tx).session) == *final(old(tx).session),
        *final(final(tx).timers) == *final(old(tx).timers),
        *final(final(tx).sink) == *final(old(tx).sink),
        final(tx).continues(*old(tx)),
        arrives(
            final(tx).machine(),
            r,
            run_body(
                old(tx).subroutines@,
                depth as nat,
                actions@,
                start as int,
                end as int,
                old(tx).machine(),
                old(tx).trigger@,
            ),
        ),
    decreases depth, 1nat, 0int,
{
    let ghost subs = tx.subroutines@;
    let ghost t = tx.trigger@;
    let ghost whole = run_body(
        subs,
        depth as nat,
        actions@,
        start as int,
        end as int,
        tx.machine(),
        t,
    );
    let mut i: usize = start;
    while i < end
        invariant
            *final(tx.session) == *final(old(tx).session),
            *final(tx.timers) == *final(old(tx).timers),
            *final(tx.sink) == *final(old(tx).sink),
            tx.continues(*old(tx)),
            subs == old(tx).subroutines@,
            t == old(tx).trigger@,
            start <= i <= end <= actions@.len(),
            whole == run_body(
                subs,
                depth as nat,
                actions@,
                start as int,
                end as int,
                old(tx).machine(),
                t,
            ),
            whole == run_body(
                subs,
                depth as nat,
                actions@,
                i as int,
                end as int,
                tx.machine(),
                t,
            ),
        decreases end - i,
    {
        let step = execute_verb_within(actions[i].verb, tx, depth);
        if let Err(fault) = step {
            return Err(fault);
        }
        i = i + 1;
    }
    Ok(())
}

/// Runs one loop to its end.
fn run_loop_range<'a, T: TimerService, S: SessionSink>(
    range: LoopRange,
    actions: &[ActionStep],
    tx: &mut Tx<'a, T, S>,
    depth: usize,
) -> (r: Result<(), Fault>)
    requires
        old(tx).wf(),
        in_range(range, actions@.len() as int),
    ensures
        *final(final(tx).session) == *final(old(tx).session),
        *final(final(tx).timers) == *final(old(tx).timers),
        *final(final(tx).sink) == *final(old(tx).sink),
        final(tx).continues(*old(tx)),
        arrives(
            final(tx).machine(),
            r,
            if range.test_at_end {
                run_until(
                    old(tx).subroutines@,
                    depth as nat,
                    actions@,
                    range,
                    0,
                    old(tx).machine(),
                    old(tx).trigger@,
                )
            } else {
                run_while(
                    old(tx).subroutines@,
                    depth as nat,
                    actions@,
                    range,
                    0,
                    old(tx).machine(),
                    old(tx).trigger@,
                )
            },
        ),
    decreases depth, 2nat, 0int,
{
    let ghost subs = tx.subroutines@;
    let ghost t = tx.trigger@;
    let count: usize = actions.len();
    assert(range.start + range.length <= count);
    let end: usize = range.start + range.length;
    let mut passes: usize = 0;
    if range.test_at_end {
        let ghost whole = run_until(subs, depth as nat, actions@, range, 0, tx.machine(), t);
        loop
            invariant
            *final(tx.session) == *final(old(tx).session),
            *final(tx.timers) == *final(old(tx).timers),
            *final(tx.sink) == *final(old(tx).sink),
            tx.continues(*old(tx)),
                subs == old(tx).subroutines@,
                t == old(tx).trigger@,
                in_range(range, actions@.len() as int),
                end == range.start + range.length,
                range.test_at_end,
                passes < MAX_ITERATIONS,
                whole == run_until(
                    subs,
                    depth as nat,
                    actions@,
                    range,
                    0,
                    old(tx).machine(),
                    t,
                ),
                whole == run_until(
                    subs,
                    depth as nat,
                    actions@,
                    range,
                    passes as int,
                    tx.machine(),
                    t,
                ),
            decreases MAX_ITERATIONS - passes,
        {
            let step = execute_body(actions, range.start, end, tx, depth);
            if let Err(fault) = step {
                return Err(fault);
            }
            passes = passes + 1;
            if passes >= MAX_ITERATIONS || !eval_term(
                range.predicate,
                tx.session,
                tx.timers,
                &tx.trigger,
            ) {
                return Ok(());
            }
        }
    } else {
        let ghost whole = run_while(subs, depth as nat, actions@, range, 0, tx.machine(), t);
        while passes < MAX_ITERATIONS
            invariant
            *final(tx.session) == *final(old(tx).session),
            *final(tx.timers) == *final(old(tx).timers),
            *final(tx.sink) == *final(old(tx).sink),
            tx.continues(*old(tx)),
                subs == old(tx).subroutines@,
                t == old(tx).trigger@,
                in_range(range, actions@.len() as int),
                end == range.start + range.length,
                !range.test_at_end,
                passes <= MAX_ITERATIONS,
                whole == run_while(
                    subs,
                    depth as nat,
                    actions@,
                    range,
                    0,
                    old(tx).machine(),
                    t,
                ),
                whole == run_while(
                    subs,
                    depth as nat,
                    actions@,
                    range,
                    passes as int,
                    tx.machine(),
                    t,
                ),
            decreases MAX_ITERATIONS - passes,
        {
            if !eval_term(range.predicate, tx.session, tx.timers, &tx.trigger) {
                return Ok(());
            }
            let step = execute_body(actions, range.start, end, tx, depth);
            if let Err(fault) = step {
                return Err(fault);
            }
            passes = passes + 1;
        }
        Ok(())
    }
}

/// Runs an action chain with its loops against `tx`.
pub fn execute_actions<'a, T: TimerService, S: SessionSink>(
    actions: &[ActionStep],
    loops: &[LoopRange],
    tx: &mut Tx<'a, T, S>,
) -> (r: Result<(), Fault>)
    requires
        old(tx).wf(),
    ensures
        *final(final(tx).session) == *final(old(tx).session),
        *final(final(tx).timers) == *final(old(tx).timers),
        *final(final(tx).sink) == *final(old(tx).sink),
        final(tx).continues(*old(tx)),
        arrives(
            final(tx).machine(),
            r,
            run_actions(
                old(tx).subroutines@,
                MAX_NESTING as nat,
                actions@,
                loops@,
                0,
                old(tx).machine(),
                old(tx).trigger@,
            ),
        ),
{
    execute_actions_within(actions, loops, tx, MAX_NESTING)
}

/// Runs an action chain without loops against `tx`.
pub fn execute_steps<'a, T: TimerService, S: SessionSink>(
    actions: &[ActionStep],
    tx: &mut Tx<'a, T, S>,
) -> (r: Result<(), Fault>)
    requires
        old(tx).wf(),
    ensures
        *final(final(tx).session) == *final(old(tx).session),
        *final(final(tx).timers) == *final(old(tx).timers),
        *final(final(tx).sink) == *final(old(tx).sink),
        final(tx).continues(*old(tx)),
        arrives(
            final(tx).machine(),
            r,
            run_body(
                old(tx).subroutines@,
                MAX_NESTING as nat,
                actions@,
                0,
                actions@.len() as int,
                old(tx).machine(),
                old(tx).trigger@,
            ),
        ),
{
    execute_body(actions, 0, actions.len(), tx, MAX_NESTING)
}

/// Runs one action verb against `tx`.
pub fn execute_verb<'a, T: TimerService, S: SessionSink>(
    verb: Ax25ActionVerb,
    tx: &mut Tx<'a, T, S>,
) -> (r: Result<(), Fault>)
    requires
        old(tx).wf(),
    ensures
        *final(final(tx).session) == *final(old(tx).session),
        *final(final(tx).timers) == *final(old(tx).timers),
        *final(final(tx).sink) == *final(old(tx).sink),
        final(tx).continues(*old(tx)),
        arrives(
            final(tx).machine(),
            r,
            run_verb(
                old(tx).subroutines@,
                MAX_NESTING as nat,
                verb,
                old(tx).machine(),
                old(tx).trigger@,
            ),
        ),
{
    execute_verb_within(verb, tx, MAX_NESTING)
}

} // verus!
