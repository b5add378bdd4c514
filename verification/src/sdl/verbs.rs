//! What each action verb does.
//!
//! A verb works on a [`Machine`] under a [`Trigger`]. Most verbs only move the
//! link; the others arm timers, set fields of the next frame, emit signals, or
//! read the frame or the data that the trigger carries. A verb that needs what
//! the trigger does not carry is a [`Fault`].

use ax25sdl::{Ax25ActionVerb, Ax25Event};
use vstd::prelude::*;

use super::context::{Edit, Link, PayloadView};
use super::event::Trigger;
use super::quirks::Quirks;
use super::signal::{
    DataLinkSignalView, FrameSpecView, InternalSignalView, LinkMultiplexerSignal, Signal,
    SupervisoryKind, UnnumberedKind,
};
use super::timer;
use super::timer::TimerId;
use super::tx::{Machine, PendingFrame};
use crate::ax25::PID_NO_LAYER3;

verus! {

/// Duration of T3, the inactive-link timer, in ms.
pub const T3_MS: u32 = 30_000;

/// The initial smoothed round-trip time in ms.
pub const INITIAL_SRT_MS: u32 = 3000;

/// Why a transition could not be carried out: the tables ask for something that
/// the trigger or the tables themselves do not provide.
#[derive(Debug, Clone, Copy, PartialEq, Eq, Structural)]
pub enum Fault {
    /// An action needs a received frame and the trigger carries none.
    NoFrame,
    /// An action needs a PID and the received frame carries none.
    NoPid,
    /// An action needs the data of a request that is not the trigger.
    WrongTrigger,
    /// An action calls a subroutine that the tables do not list.
    UnknownSubroutine,
    /// Subroutines call each other too deeply.
    NestedTooDeep,
    /// A loop is empty or runs past the end of its action chain.
    LoopOutOfRange,
    /// A transition leads to a state that the machine does not have.
    UnknownState,
}

/// The state after some actions, and what stopped them if anything did.
pub struct Outcome {
    pub machine: Machine,
    pub fault: Option<Fault>,
}

/// The actions ran to their end.
pub open spec fn done(machine: Machine) -> Outcome {
    Outcome { machine, fault: None }
}

/// The actions stopped.
pub open spec fn failed(machine: Machine, fault: Fault) -> Outcome {
    Outcome { machine, fault: Some(fault) }
}

/// The verb that stands in for `verb` under the corrections of the figures.
pub open spec fn rewritten(verb: Ax25ActionVerb, quirks: Quirks, on: Ax25Event) -> Ax25ActionVerb {
    if quirks.srej_selective_retransmit && on == Ax25Event::SREJReceived && pushes_fresh(verb) {
        Ax25ActionVerb::PushOldIFrameNROnQueue
    } else if quirks.srej_targets_gap && on == Ax25Event::IReceived && verb
        == Ax25ActionVerb::NRAssignNS {
        Ax25ActionVerb::NRAssignVR
    } else if quirks.timer_recovery_drain_advances_vr && verb == Ax25ActionVerb::VRAssignVR1 {
        Ax25ActionVerb::VRAssignVRPlus1
    } else {
        verb
    }
}

/// The verbs that push the data of a request onto the transmit queue.
pub open spec fn pushes_fresh(verb: Ax25ActionVerb) -> bool {
    match verb {
        Ax25ActionVerb::PushOnIFrameQueue => true,
        Ax25ActionVerb::PushOnIFrameQueueNoteWordOrder => true,
        Ax25ActionVerb::PushFrameOnQueue => true,
        Ax25ActionVerb::PushIFrameOnIQueue => true,
        _ => false,
    }
}

/// An SREJ is answered with the single frame that it asks for: the go-back-N
/// retransmission is left out.
pub open spec fn suppressed(verb: Ax25ActionVerb, quirks: Quirks, on: Ax25Event) -> bool {
    &&& quirks.srej_selective_retransmit
    &&& on == Ax25Event::SREJReceived
    &&& verb == Ax25ActionVerb::InvokeRetransmission
}

/// The subroutine that a verb calls, with the F bit that the call sets first.
pub open spec fn called(verb: Ax25ActionVerb) -> Option<(Seq<char>, Option<bool>)> {
    match verb {
        Ax25ActionVerb::EstablishDataLink => Some(("Establish_Data_Link"@, None)),
        Ax25ActionVerb::ClearExceptionConditions => Some(("Clear_Exception_Conditions"@, None)),
        Ax25ActionVerb::UICheck => Some(("UI_Check"@, None)),
        Ax25ActionVerb::SelectT1Value => Some(("Select_T1"@, None)),
        Ax25ActionVerb::CheckIFrameAcknowledged => Some(("Check_I_Frame_Acknowledged"@, None)),
        Ax25ActionVerb::CheckNeedForResponse => Some(("Check_Need_for_Response"@, None)),
        Ax25ActionVerb::TransmitEnquiry => Some(("Transmit_Enquiry"@, None)),
        Ax25ActionVerb::TransmitEnquery => Some(("Transmit_Enquiry"@, None)),
        Ax25ActionVerb::InvokeRetransmission => Some(("Invoke_Retransmission"@, None)),
        Ax25ActionVerb::NRErrorRecovery => Some(("N_r_Error_Recovery"@, None)),
        Ax25ActionVerb::NRRecovery => Some(("N_r_Error_Recovery"@, None)),
        Ax25ActionVerb::EnquiryResponseFEq0 => Some(("Enquiry_Response"@, Some(false))),
        Ax25ActionVerb::EnquiryResponseF1 => Some(("Enquiry_Response"@, Some(true))),
        _ => None,
    }
}

/// The change that a verb makes to the flags, variables and parameters of the
/// link, if it makes one.
pub open spec fn edit_of(verb: Ax25ActionVerb, l: Link) -> Option<Edit> {
    match verb {
        Ax25ActionVerb::SetOwnReceiverBusy => Some(Edit::OwnBusy(true)),
        Ax25ActionVerb::ClearOwnReceiverBusy => Some(Edit::OwnBusy(false)),
        Ax25ActionVerb::SetPeerReceiverBusy => Some(Edit::PeerBusy(true)),
        Ax25ActionVerb::ClearPeerReceiverBusy => Some(Edit::PeerBusy(false)),
        Ax25ActionVerb::SetAcknowledgePending => Some(Edit::AckPending(true)),
        Ax25ActionVerb::ClearAcknowledgePending => Some(Edit::AckPending(false)),
        Ax25ActionVerb::SetLayer3Initiated => Some(Edit::Layer3(true)),
        Ax25ActionVerb::ClearLayer3Initiated => Some(Edit::Layer3(false)),
        Ax25ActionVerb::SetRejectException => Some(Edit::Reject(true)),
        Ax25ActionVerb::ClearRejectException => Some(Edit::Reject(false)),
        Ax25ActionVerb::ClearRejectCondition => Some(Edit::Reject(false)),
        Ax25ActionVerb::ClearSrejectCondition => Some(Edit::Sreject(0, false)),
        Ax25ActionVerb::IncrementSrejectException => Some(
            Edit::Sreject(timer::saturated(l.srej_exception_count + 1), true),
        ),
        Ax25ActionVerb::SrejectAssignSrejectPlus1 => Some(
            Edit::Sreject(timer::saturated(l.srej_exception_count + 1), true),
        ),
        Ax25ActionVerb::DecrementSrejectExceptionIf0 => if l.srej_exception_count == 0 {
            None
        } else {
            Some(
                Edit::Sreject(
                    (l.srej_exception_count - 1) as u32,
                    l.srej_exception_count > 1 && l.selective_reject_exception,
                ),
            )
        },
        Ax25ActionVerb::SetVersion20 => Some(Edit::Extended(false)),
        Ax25ActionVerb::SetVersion22 => Some(Edit::Extended(true)),
        Ax25ActionVerb::ModuloAssign8 => Some(Edit::Extended(false)),
        Ax25ActionVerb::ModuloAssign128 => Some(Edit::Extended(true)),
        Ax25ActionVerb::SetHalfDuplex => Some(Edit::HalfDuplex(true)),
        Ax25ActionVerb::SetImplicitReject => Some(Edit::SelectiveReject(false)),
        Ax25ActionVerb::SetSelectiveReject => Some(Edit::SelectiveReject(true)),
        Ax25ActionVerb::N1Assign2048 => Some(Edit::N1(2048)),
        Ax25ActionVerb::KAssign8 => Some(Edit::K(8)),
        Ax25ActionVerb::KAssign32 => Some(Edit::K(32)),
        Ax25ActionVerb::T2Assign3000 => Some(Edit::T2(3000)),
        Ax25ActionVerb::N2Assign10 => Some(Edit::N2(10)),
        Ax25ActionVerb::SRTAssignInitialDefault => Some(Edit::Srt(INITIAL_SRT_MS)),
        Ax25ActionVerb::T1VAssign2TimesSRT => Some(Edit::T1v(timer::saturated(l.srt_ms * 2))),
        Ax25ActionVerb::NextT1Assign2TimesSRT => Some(Edit::T1v(timer::saturated(l.srt_ms * 2))),
        Ax25ActionVerb::NextT1AssignRCTimes025PlusSRTTimes2 => Some(
            Edit::Backoff(timer::backed_off_t1(l.rc, l.srt_ms)),
        ),
        Ax25ActionVerb::SRTAssign7SRT8PlusT18RemainingTimeOnT1WhenLastStopped8 => Some(
            Edit::RoundTrip(
                timer::smoothed_srt(
                    l.srt_ms,
                    l.t1v_ms,
                    l.t1_remaining_when_last_stopped_ms,
                    l.quirks.karn_srt_sampling,
                ),
            ),
        ),
        Ax25ActionVerb::VSAssign0 => Some(Edit::Vs(0)),
        Ax25ActionVerb::VSAssignVSPlus1 => Some(Edit::Vs(l.next_seq(l.vs))),
        Ax25ActionVerb::VRAssign0 => Some(Edit::Vr(0)),
        Ax25ActionVerb::VRAssignVRPlus1 => Some(Edit::Vr(l.next_seq(l.vr))),
        Ax25ActionVerb::VRAssignVR1 => Some(Edit::Vr(l.prior_seq(l.vr))),
        Ax25ActionVerb::VAAssign0 => Some(Edit::Va(0)),
        Ax25ActionVerb::XAssignVS => Some(Edit::X(Some(l.vs))),
        Ax25ActionVerb::RCAssign0 => Some(Edit::Rc(0)),
        Ax25ActionVerb::RCAssign1 => Some(Edit::Rc(1)),
        Ax25ActionVerb::RCAssignRCPlus1 => Some(Edit::Rc(timer::saturated(l.rc + 1))),
        _ => None,
    }
}

/// The verbs that empty the transmit queue.
pub open spec fn clears_queue(verb: Ax25ActionVerb) -> bool {
    match verb {
        Ax25ActionVerb::DiscardFrameQueue => true,
        Ax25ActionVerb::DiscardQueue => true,
        Ax25ActionVerb::DiscardIFrameQueue => true,
        Ax25ActionVerb::DiscardIQueueEntries => true,
        _ => false,
    }
}

/// The letter code of a DL-ERROR indication.
pub open spec fn error_code(verb: Ax25ActionVerb) -> Option<Seq<char>> {
    match verb {
        Ax25ActionVerb::DLERRORIndicationCD => Some("C_D"@),
        Ax25ActionVerb::DLERRORIndicationD => Some("D"@),
        Ax25ActionVerb::DLERRORIndicationE => Some("E"@),
        Ax25ActionVerb::DLERRORIndicationF => Some("F"@),
        Ax25ActionVerb::DLERRORIndicationG => Some("G"@),
        Ax25ActionVerb::DLERRORIndicationI => Some("I"@),
        Ax25ActionVerb::DLERRORIndicationK => Some("K"@),
        Ax25ActionVerb::DLERRORIndicationL => Some("L"@),
        Ax25ActionVerb::DLERRORIndicationM => Some("M"@),
        Ax25ActionVerb::DLERRORIndicationN => Some("N"@),
        Ax25ActionVerb::DLERRORIndicationO => Some("O"@),
        Ax25ActionVerb::DLERRORIndicationT => Some("T"@),
        Ax25ActionVerb::DLERRORIndicationU => Some("U"@),
        Ax25ActionVerb::DLERRORIndicationA => Some("A"@),
        Ax25ActionVerb::DLERRORIndicationJ => Some("J"@),
        Ax25ActionVerb::DLERRORIndicationQ => Some("Q"@),
        Ax25ActionVerb::DLERRORIndicationAdd => Some("add"@),
        _ => None,
    }
}

/// The signal that a verb emits whatever the state is.
pub open spec fn fixed_signal(verb: Ax25ActionVerb) -> Option<Signal> {
    match verb {
        Ax25ActionVerb::DLCONNECTIndication => Some(
            Signal::Upward(DataLinkSignalView::ConnectIndication),
        ),
        Ax25ActionVerb::DLCONNECTConfirm => Some(
            Signal::Upward(DataLinkSignalView::ConnectConfirm),
        ),
        Ax25ActionVerb::DLDISCONNECTIndication => Some(
            Signal::Upward(DataLinkSignalView::DisconnectIndication),
        ),
        Ax25ActionVerb::DLDISCONNECTConfirm => Some(
            Signal::Upward(DataLinkSignalView::DisconnectConfirm),
        ),
        Ax25ActionVerb::LMSeizeRequest => Some(
            Signal::LinkMux(LinkMultiplexerSignal::SeizeRequest),
        ),
        Ax25ActionVerb::LMReleaseRequest => Some(
            Signal::LinkMux(LinkMultiplexerSignal::ReleaseRequest),
        ),
        Ax25ActionVerb::LMDataRequest => Some(Signal::LinkMux(LinkMultiplexerSignal::DataRequest)),
        Ax25ActionVerb::MDLNEGOTIATERequest => Some(
            Signal::Internal(InternalSignalView::MdlNegotiateRequest),
        ),
        _ => match error_code(verb) {
            Some(code) => Some(Signal::Upward(DataLinkSignalView::ErrorIndication(code))),
            None => None,
        },
    }
}

/// The supervisory frame that a verb sends, and whether it is a command.
pub open spec fn supervisory(verb: Ax25ActionVerb) -> Option<(SupervisoryKind, bool)> {
    match verb {
        Ax25ActionVerb::RRCommand => Some((SupervisoryKind::Rr, true)),
        Ax25ActionVerb::RRCommandPEq0 => Some((SupervisoryKind::Rr, true)),
        Ax25ActionVerb::RR => Some((SupervisoryKind::Rr, false)),
        Ax25ActionVerb::RRResponse => Some((SupervisoryKind::Rr, false)),
        Ax25ActionVerb::RNRCommand => Some((SupervisoryKind::Rnr, true)),
        Ax25ActionVerb::RNR => Some((SupervisoryKind::Rnr, false)),
        Ax25ActionVerb::RNRResponse => Some((SupervisoryKind::Rnr, false)),
        Ax25ActionVerb::RNRResponseFEq0 => Some((SupervisoryKind::Rnr, false)),
        Ax25ActionVerb::REJ => Some((SupervisoryKind::Rej, false)),
        Ax25ActionVerb::SREJ => Some((SupervisoryKind::Srej, false)),
        _ => None,
    }
}

/// The unnumbered frame that a verb sends: its kind, whether it is a command, the
/// P/F bit that the verb fixes, and whether it is expedited.
pub open spec fn unnumbered(
    verb: Ax25ActionVerb,
) -> Option<(UnnumberedKind, bool, Option<bool>, bool)> {
    match verb {
        Ax25ActionVerb::UA => Some((UnnumberedKind::Ua, false, None, false)),
        Ax25ActionVerb::DM => Some((UnnumberedKind::Dm, false, None, false)),
        Ax25ActionVerb::DMResponseFEq0 => Some((UnnumberedKind::Dm, false, None, false)),
        Ax25ActionVerb::DMFEq1 => Some((UnnumberedKind::Dm, false, Some(true), false)),
        Ax25ActionVerb::ExpeditedUA => Some((UnnumberedKind::Ua, false, None, true)),
        Ax25ActionVerb::ExpeditedDM => Some((UnnumberedKind::Dm, false, None, true)),
        Ax25ActionVerb::SABM => Some((UnnumberedKind::Sabm, true, Some(true), false)),
        Ax25ActionVerb::SABMPEqEq1 => Some((UnnumberedKind::Sabm, true, Some(true), false)),
        Ax25ActionVerb::SABME => Some((UnnumberedKind::Sabme, true, Some(true), false)),
        Ax25ActionVerb::SABMEPEq1 => Some((UnnumberedKind::Sabme, true, Some(true), false)),
        Ax25ActionVerb::DISCPEq1 => Some((UnnumberedKind::Disc, true, Some(true), false)),
        _ => None,
    }
}

/// `chosen`, or `fallback` where nothing was chosen.
pub open spec fn or_else<A>(chosen: Option<A>, fallback: A) -> A {
    match chosen {
        Some(a) => a,
        None => fallback,
    }
}

/// A supervisory frame goes out with the pending N(R) and P/F.
pub open spec fn send_supervisory(m: Machine, kind: SupervisoryKind, is_command: bool) -> Machine {
    m.emit(
        Signal::Frame(
            FrameSpecView::Supervisory {
                kind,
                is_command,
                nr: or_else(m.pending.nr, m.link.vr),
                pf: or_else(m.pending.pf, false),
            },
        ),
    )
}

/// An unnumbered frame goes out with the fixed P/F, else the pending one.
pub open spec fn send_unnumbered(
    m: Machine,
    kind: UnnumberedKind,
    is_command: bool,
    fixed: Option<bool>,
    expedited: bool,
) -> Machine {
    m.emit(
        Signal::Frame(
            FrameSpecView::Unnumbered {
                kind,
                is_command,
                pf: or_else(fixed, or_else(m.pending.pf, false)),
                expedited,
            },
        ),
    )
}

/// A UI command carries the data of a DL-UNIT-DATA request.
pub open spec fn send_ui(m: Machine, t: Trigger) -> Outcome {
    match t.data {
        Some((pid, info)) if t.on == Ax25Event::DLUNITDATARequest => done(
            m.emit(
                Signal::Frame(
                    FrameSpecView::Ui {
                        is_command: true,
                        pf: or_else(m.pending.pf, false),
                        pid,
                        info,
                    },
                ),
            ),
        ),
        _ => failed(m, Fault::WrongTrigger),
    }
}

/// An I frame carries the payload that popped off the queue and is retained under
/// its N(S). Marks of earlier replays at that number are void.
pub open spec fn send_information(m: Machine, t: Trigger) -> Outcome {
    match t.data {
        Some((pid, info)) if t.on == Ax25Event::IFramePopsOffQueue => {
            let ns: u8 = or_else(m.pending.ns, m.link.vs);
            done(
                m.emit(
                    Signal::Frame(
                        FrameSpecView::Information {
                            p: or_else(m.pending.pf, false),
                            nr: or_else(m.pending.nr, m.link.vr),
                            ns,
                            pid,
                            info,
                        },
                    ),
                ).with_link(m.link.retained(ns, PayloadView { data: info, pid })),
            )
        },
        _ => failed(m, Fault::WrongTrigger),
    }
}

/// A retained frame goes out again at its own N(S), if it is still retained.
pub open spec fn resend(m: Machine, ns: u8) -> Machine {
    if m.link.sent_i_frames.contains_key(ns) {
        m.emit(
            Signal::Frame(
                FrameSpecView::Information {
                    p: false,
                    nr: m.link.vr,
                    ns,
                    pid: m.link.sent_i_frames[ns].pid,
                    info: m.link.sent_i_frames[ns].data,
                },
            ),
        )
    } else {
        m
    }
}

/// A selective replay: only of a frame that awaits an acknowledgement, and only
/// once until V(A) advances.
pub open spec fn resend_selectively(m: Machine, ns: u8) -> Machine {
    if !m.link.awaits_ack(ns) || m.link.selectively_retransmitted_since_ack.contains(ns) {
        m
    } else {
        resend(m.with_link(m.link.replayed(ns)), ns)
    }
}

/// The data of a DL-DATA request joins the transmit queue.
pub open spec fn push_request(m: Machine, t: Trigger) -> Outcome {
    match t.data {
        Some((pid, data)) if t.on == Ax25Event::DLDATARequest => done(
            m.with_link(
                m.link.with_queue(m.link.i_frame_queue.push(PayloadView { data, pid })),
            ).emit(Signal::Internal(InternalSignalView::PushIFrameQueue(data))),
        ),
        _ => failed(m, Fault::WrongTrigger),
    }
}

/// The stored payload of V(R) is staged for delivery, if there is one.
pub open spec fn stage_stored(m: Machine) -> Machine {
    if m.link.stored_received_i_frames.contains_key(m.link.vr) {
        let p: PayloadView = m.link.stored_received_i_frames[m.link.vr];
        m.with_link(m.link.unstored()).with_staged(Some((p.pid, p.data)))
    } else {
        m
    }
}

/// A data indication delivers the staged frame if there is one, else the received
/// frame.
pub open spec fn deliver(m: Machine, t: Trigger) -> Outcome {
    match m.staged {
        Some((pid, info)) => done(
            m.with_staged(None).emit(Signal::Upward(DataLinkSignalView::DataIndication(pid, info))),
        ),
        None => match t.frame {
            None => failed(m, Fault::NoFrame),
            Some(f) => match f.pid {
                None => failed(m, Fault::NoPid),
                Some(pid) => done(
                    m.emit(Signal::Upward(DataLinkSignalView::DataIndication(pid, f.info))),
                ),
            },
        },
    }
}

/// What the verbs that read the received frame make of the machine.
pub open spec fn frame_step(verb: Ax25ActionVerb, m: Machine, t: Trigger) -> Outcome {
    match t.frame {
        None => failed(m, Fault::NoFrame),
        Some(f) => match verb {
            Ax25ActionVerb::DLUNITDATAIndication => done(
                m.emit(
                    Signal::Upward(
                        DataLinkSignalView::UnitDataIndication(
                            or_else(f.pid, PID_NO_LAYER3),
                            f.info,
                        ),
                    ),
                ),
            ),
            Ax25ActionVerb::SaveContentsOfIFrame => match f.pid {
                None => failed(m, Fault::NoPid),
                Some(pid) => done(
                    m.with_link(m.link.stored(f.ns, PayloadView { data: f.info, pid })),
                ),
            },
            Ax25ActionVerb::PushOldIFrameNROnQueue => done(resend_selectively(m, f.nr)),
            Ax25ActionVerb::VSAssignNR => done(m.with_link(m.link.edited(Edit::Vs(f.nr)))),
            Ax25ActionVerb::VAAssignNR => done(m.with_link(m.link.acknowledged(f.nr))),
            Ax25ActionVerb::NRAssignNS => done(
                m.with_pending(PendingFrame { nr: Some(f.ns), ..m.pending }),
            ),
            _ => done(m.with_pending(PendingFrame { pf: Some(f.poll_final), ..m.pending })),
        },
    }
}

/// The verbs that read the received frame.
pub open spec fn needs_frame(verb: Ax25ActionVerb) -> bool {
    match verb {
        Ax25ActionVerb::DLUNITDATAIndication => true,
        Ax25ActionVerb::SaveContentsOfIFrame => true,
        Ax25ActionVerb::PushOldIFrameNROnQueue => true,
        Ax25ActionVerb::VSAssignNR => true,
        Ax25ActionVerb::VAAssignNR => true,
        Ax25ActionVerb::NRAssignNS => true,
        Ax25ActionVerb::FAssignP => true,
        _ => false,
    }
}

/// What a verb that calls no subroutine makes of the machine.
pub open spec fn primitive_step(verb: Ax25ActionVerb, m: Machine, t: Trigger) -> Outcome {
    if let Some(edit) = edit_of(verb, m.link) {
        done(m.with_link(m.link.edited(edit)))
    } else if clears_queue(verb) {
        done(m.with_link(m.link.with_queue(Seq::empty())))
    } else if let Some(signal) = fixed_signal(verb) {
        done(m.emit(signal))
    } else if let Some((kind, is_command)) = supervisory(verb) {
        done(send_supervisory(m, kind, is_command))
    } else if let Some((kind, is_command, fixed, expedited)) = unnumbered(verb) {
        done(send_unnumbered(m, kind, is_command, fixed, expedited))
    } else if needs_frame(verb) {
        frame_step(verb, m, t)
    } else if pushes_fresh(verb) {
        push_request(m, t)
    } else {
        match verb {
            Ax25ActionVerb::StartT1 => done(
                m.with_timers(m.timers.with(TimerId::T1, Some(m.link.t1v_ms))),
            ),
            Ax25ActionVerb::StartT3 => done(m.with_timers(m.timers.with(TimerId::T3, Some(T3_MS)))),
            Ax25ActionVerb::StopT1 => done(
                m.with_link(
                    m.link.edited(Edit::T1Left(m.timers.remaining(TimerId::T1))),
                ).with_timers(m.timers.with(TimerId::T1, None)),
            ),
            Ax25ActionVerb::StopT3 => done(m.with_timers(m.timers.with(TimerId::T3, None))),
            Ax25ActionVerb::UICommand => send_ui(m, t),
            Ax25ActionVerb::ICommand => send_information(m, t),
            Ax25ActionVerb::DLDATAIndication => deliver(m, t),
            Ax25ActionVerb::RetrieveStoredVRIFrame => done(stage_stored(m)),
            Ax25ActionVerb::NRAssignVR => done(
                m.with_pending(PendingFrame { nr: Some(m.link.vr), ..m.pending }),
            ),
            Ax25ActionVerb::NSAssignVS => done(
                m.with_pending(PendingFrame { ns: Some(m.link.vs), ..m.pending }),
            ),
            Ax25ActionVerb::FAssign0 => done(
                m.with_pending(PendingFrame { pf: Some(false), ..m.pending }),
            ),
            Ax25ActionVerb::PAssign0 => done(
                m.with_pending(PendingFrame { pf: Some(false), ..m.pending }),
            ),
            Ax25ActionVerb::FAssign1 => done(
                m.with_pending(PendingFrame { pf: Some(true), ..m.pending }),
            ),
            Ax25ActionVerb::PAssign1 => done(
                m.with_pending(PendingFrame { pf: Some(true), ..m.pending }),
            ),
            Ax25ActionVerb::PushOldIFrameOntoQueue => done(resend(m, m.link.vs)),
            _ => done(m),
        }
    }
}

} // verus!
